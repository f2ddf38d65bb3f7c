//! The escrow component: owner-scoped pools of vaults, trust registries,
//! and allowance-gated withdrawal from them.
use vstd::prelude::*;
use crate::address::{
    ComponentAddress,
    NonFungibleGlobalId,
    NonFungibleLocalId,
    ResourceAddress,
    ids_without,
    without,
    xrd_spec,
};
use crate::allowance::{
    AllowanceLifeCycle,
    AllowanceModel,
    AllowanceNfData,
    consume,
    consume_error,
    consumed,
    option_allowance_model,
};
use crate::bucket::{Bucket, taken_ids};
use crate::decimal::{Decimal, one};
use crate::error::EscrowError;
use crate::table::{
    has_key,
    lemma_lookup_at,
    lemma_lookup_push,
    lemma_lookup_remove,
    lemma_has_key_push,
    lemma_lookup_update,
    lookup,
    unique_keys,
};
use crate::token_quantity::{
    QuantityModel,
    TokenQuantity,
    arbitrary_part,
    model_ids,
    named_part,
    option_quantity_model,
    option_set_len,
};

verus! {

/// Resource ids from here up are those of allowance badges that an escrow
/// creates, one resource per pool.
pub const FIRST_BADGE_RESOURCE_ID: u64 = 0x8000_0000_0000_0000;

/// Native fee tokens set aside from a pool to pay for the current
/// operation. A contingent reservation is spent only if the operation
/// succeeds.
#[derive(Debug)]
pub struct FeeLock {
    pub funds: Bucket,
    pub contingent: bool,
}

/// Pools of assets, one per owner, with the allowances issued on them.
pub struct Escrow {
    /// This component's own address; its allowances name it.
    pub component: ComponentAddress,
    /// Each pool's owner, with the resource of the pool's allowance badges.
    pub pools: Vec<(NonFungibleGlobalId, ResourceAddress)>,
    /// (owner, identity) with whether the owner trusts that identity.
    pub trusted_nfgids: Vec<((NonFungibleGlobalId, NonFungibleGlobalId), bool)>,
    /// (owner, resource) with whether the owner trusts holders of it.
    pub trusted_res: Vec<((NonFungibleGlobalId, ResourceAddress), bool)>,
    /// (owner, resource) with the vault of that resource in the owner's pool.
    pub vaults: Vec<((NonFungibleGlobalId, ResourceAddress), Bucket)>,
    /// Each live allowance badge with its data.
    pub allowances: Vec<(NonFungibleGlobalId, AllowanceNfData)>,
    /// The id of the next badge resource.
    pub next_badge_resource: u64,
    /// The local id of the next allowance badge.
    pub next_allowance_id: u64,
}

/// The amount of `resource` over all `rows`.
pub open spec fn vault_total(
    rows: Seq<((NonFungibleGlobalId, ResourceAddress), Bucket)>,
    resource: ResourceAddress,
) -> int
    decreases rows.len(),
{
    if rows.len() == 0 {
        0
    } else {
        vault_total(rows.drop_last(), resource) + if rows.last().0.1 == resource {
            rows.last().1.amount@
        } else {
            0
        }
    }
}

/// Replacing one row changes the total by what that row held.
proof fn lemma_vault_total_update(
    rows: Seq<((NonFungibleGlobalId, ResourceAddress), Bucket)>,
    i: int,
    row: ((NonFungibleGlobalId, ResourceAddress), Bucket),
    resource: ResourceAddress,
)
    requires
        0 <= i < rows.len(),
        row.0 == rows[i].0,
    ensures
        vault_total(rows.update(i, row), resource) == vault_total(rows, resource) - (if rows[i].0.1
            == resource {
            rows[i].1.amount@
        } else {
            0
        }) + (if row.0.1 == resource {
            row.1.amount@
        } else {
            0
        }),
    decreases rows.len(),
{
    if i == rows.len() - 1 {
        assert(rows.update(i, row).drop_last() =~= rows.drop_last());
    } else {
        lemma_vault_total_update(rows.drop_last(), i, row, resource);
        assert(rows.update(i, row).drop_last() =~= rows.drop_last().update(i, row));
    }
}

/// The component stayed, the badge-resource counter moved by `badges` and
/// the allowance-id counter by `allowances`.
pub open spec fn counters_moved(before: Escrow, after: Escrow, badges: int, allowances: int) -> bool {
    &&& after.component == before.component
    &&& after.next_badge_resource == before.next_badge_resource + badges
    &&& after.next_allowance_id == before.next_allowance_id + allowances
}

/// One where `owner` had no pool yet (so a call creates it), else zero.
pub open spec fn pool_created(before: Escrow, owner: NonFungibleGlobalId) -> int {
    if before.pool_badge(owner) is None {
        1
    } else {
        0
    }
}

impl Escrow {
    /// Every table has distinct keys, each vault is well formed and holds
    /// the resource it is filed under, vaults and trust entries belong to
    /// existing pools, badge resources are distinct, and the id counters
    /// are ahead of every id and badge resource given out.
    pub open spec fn wf(&self) -> bool {
        &&& unique_keys(self.pools@)
        &&& unique_keys(self.trusted_nfgids@)
        &&& unique_keys(self.trusted_res@)
        &&& unique_keys(self.vaults@)
        &&& unique_keys(self.allowances@)
        &&& forall|i: int|
            0 <= i < self.vaults@.len() ==> (#[trigger] self.vaults@[i]).1.wf()
                && self.vaults@[i].1.resource == self.vaults@[i].0.1
        &&& forall|i: int|
            0 <= i < self.allowances@.len() ==> (#[trigger] self.allowances@[i]).0.local_id.id
                < self.next_allowance_id
        &&& forall|i: int| 0 <= i < self.pools@.len() ==> !(#[trigger] self.pools@[i]).1.fungible
        &&& forall|i: int|
            0 <= i < self.pools@.len() ==> (#[trigger] self.pools@[i]).1.id < self.next_badge_resource
        &&& forall|i: int, j: int|
            0 <= i < self.pools@.len() && 0 <= j < self.pools@.len() && i != j ==> (
            #[trigger] self.pools@[i]).1 != (#[trigger] self.pools@[j]).1
        &&& forall|i: int|
            0 <= i < self.vaults@.len() ==> has_key(self.pools@, (#[trigger] self.vaults@[i]).0.0)
        &&& forall|i: int|
            0 <= i < self.trusted_nfgids@.len() ==> has_key(
                self.pools@,
                (#[trigger] self.trusted_nfgids@[i]).0.0,
            )
        &&& forall|i: int|
            0 <= i < self.trusted_res@.len() ==> has_key(self.pools@, (#[trigger] self.trusted_res@[i]).0.0)
        &&& self.next_badge_resource >= FIRST_BADGE_RESOURCE_ID
    }

    /// How much of `resource` all pools hold together.
    pub open spec fn total(&self, resource: ResourceAddress) -> int {
        vault_total(self.vaults@, resource)
    }

    /// The badge resource of `owner`'s pool, if the pool exists.
    pub open spec fn pool_badge(&self, owner: NonFungibleGlobalId) -> Option<ResourceAddress> {
        lookup(self.pools@, owner)
    }

    /// The vault of `resource` in `owner`'s pool, if there is one.
    pub open spec fn vault(&self, owner: NonFungibleGlobalId, resource: ResourceAddress) -> Option<
        Bucket,
    > {
        lookup(self.vaults@, (owner, resource))
    }

    /// How much of `resource` `owner`'s pool holds; nothing where there is
    /// no such pool or vault.
    pub open spec fn balance(&self, owner: NonFungibleGlobalId, resource: ResourceAddress) -> int {
        match self.vault(owner, resource) {
            Some(b) => b.amount@,
            None => 0,
        }
    }

    /// The tokens of `resource` that `owner`'s pool holds.
    pub open spec fn held_ids(&self, owner: NonFungibleGlobalId, resource: ResourceAddress) -> Seq<
        NonFungibleLocalId,
    > {
        match self.vault(owner, resource) {
            Some(b) => b.ids@,
            None => Seq::empty(),
        }
    }

    /// `owner` trusts the identity `candidate`.
    pub open spec fn trusts_nfgid(
        &self,
        owner: NonFungibleGlobalId,
        candidate: NonFungibleGlobalId,
    ) -> bool {
        lookup(self.trusted_nfgids@, (owner, candidate)) == Some(true)
    }

    /// `owner` trusts holders of `candidate`.
    pub open spec fn trusts_resource(
        &self,
        owner: NonFungibleGlobalId,
        candidate: ResourceAddress,
    ) -> bool {
        lookup(self.trusted_res@, (owner, candidate)) == Some(true)
    }

    /// The data of the live allowance `badge`.
    pub open spec fn allowance(&self, badge: NonFungibleGlobalId) -> Option<AllowanceModel> {
        option_allowance_model(lookup(self.allowances@, badge))
    }

    /// A new escrow component at `component`, with no pools.
    pub fn instantiate_escrow(component: ComponentAddress) -> (r: Escrow)
        ensures
            r.wf(),
            r.component == component,
            r.pools@.len() == 0,
            r.vaults@.len() == 0,
            r.allowances@.len() == 0,
            r.trusted_nfgids@.len() == 0,
            r.trusted_res@.len() == 0,
            r.next_badge_resource == FIRST_BADGE_RESOURCE_ID,
            r.next_allowance_id == 0,
    {
        Escrow {
            component,
            pools: Vec::new(),
            trusted_nfgids: Vec::new(),
            trusted_res: Vec::new(),
            vaults: Vec::new(),
            allowances: Vec::new(),
            next_badge_resource: FIRST_BADGE_RESOURCE_ID,
            next_allowance_id: 0,
        }
    }

    fn find_pool(&self, owner: &NonFungibleGlobalId) -> (r: Option<usize>)
        ensures
            match r {
                Some(i) => i < self.pools@.len() && self.pools@[i as int].0 == *owner,
                None => !has_key(self.pools@, *owner),
            },
    {
        let mut i: usize = 0;
        while i < self.pools.len()
            invariant
                i <= self.pools@.len(),
                forall|j: int| 0 <= j < i ==> self.pools@[j].0 != *owner,
            decreases self.pools.len() - i,
        {
            if self.pools[i].0 == *owner {
                return Some(i);
            }
            i = i + 1;
        }
        None
    }

    fn find_vault(&self, owner: &NonFungibleGlobalId, resource: &ResourceAddress) -> (r: Option<
        usize,
    >)
        ensures
            match r {
                Some(i) => i < self.vaults@.len() && self.vaults@[i as int].0 == (*owner, *resource),
                None => !has_key(self.vaults@, (*owner, *resource)),
            },
    {
        let mut i: usize = 0;
        while i < self.vaults.len()
            invariant
                i <= self.vaults@.len(),
                forall|j: int| 0 <= j < i ==> self.vaults@[j].0 != (*owner, *resource),
            decreases self.vaults.len() - i,
        {
            if self.vaults[i].0.0 == *owner && self.vaults[i].0.1 == *resource {
                return Some(i);
            }
            i = i + 1;
        }
        None
    }

    fn find_trusted_nfgid(&self, owner: &NonFungibleGlobalId, id: &NonFungibleGlobalId) -> (r:
        Option<usize>)
        ensures
            match r {
                Some(i) => i < self.trusted_nfgids@.len() && self.trusted_nfgids@[i as int].0 == (
                *owner,
                *id,
                ),
                None => !has_key(self.trusted_nfgids@, (*owner, *id)),
            },
    {
        let mut i: usize = 0;
        while i < self.trusted_nfgids.len()
            invariant
                i <= self.trusted_nfgids@.len(),
                forall|j: int| 0 <= j < i ==> self.trusted_nfgids@[j].0 != (*owner, *id),
            decreases self.trusted_nfgids.len() - i,
        {
            if self.trusted_nfgids[i].0.0 == *owner && self.trusted_nfgids[i].0.1 == *id {
                return Some(i);
            }
            i = i + 1;
        }
        None
    }

    fn find_trusted_res(&self, owner: &NonFungibleGlobalId, res: &ResourceAddress) -> (r: Option<
        usize,
    >)
        ensures
            match r {
                Some(i) => i < self.trusted_res@.len() && self.trusted_res@[i as int].0 == (
                *owner,
                *res,
                ),
                None => !has_key(self.trusted_res@, (*owner, *res)),
            },
    {
        let mut i: usize = 0;
        while i < self.trusted_res.len()
            invariant
                i <= self.trusted_res@.len(),
                forall|j: int| 0 <= j < i ==> self.trusted_res@[j].0 != (*owner, *res),
            decreases self.trusted_res.len() - i,
        {
            if self.trusted_res[i].0.0 == *owner && self.trusted_res[i].0.1 == *res {
                return Some(i);
            }
            i = i + 1;
        }
        None
    }

    fn find_allowance(&self, badge: &NonFungibleGlobalId) -> (r: Option<usize>)
        ensures
            match r {
                Some(i) => i < self.allowances@.len() && self.allowances@[i as int].0 == *badge,
                None => !has_key(self.allowances@, *badge),
            },
    {
        let mut i: usize = 0;
        while i < self.allowances.len()
            invariant
                i <= self.allowances@.len(),
                forall|j: int| 0 <= j < i ==> self.allowances@[j].0 != *badge,
            decreases self.allowances.len() - i,
        {
            if self.allowances[i].0 == *badge {
                return Some(i);
            }
            i = i + 1;
        }
        None
    }

    /// The amount of `resource` in `owner`'s pool; zero where the pool or
    /// its vault of that resource does not exist. Never fails.
    pub fn read_funds(&self, owner: NonFungibleGlobalId, resource: ResourceAddress) -> (r: Decimal)
        requires
            self.wf(),
        ensures
            r@ == self.balance(owner, resource),
            self.vault(owner, resource) is None ==> r@ == 0,
    {
        match self.find_vault(&owner, &resource) {
            Some(i) => {
                proof {
                    lemma_lookup_at(self.vaults@, i as int);
                }
                self.vaults[i].1.amount()
            },
            None => Decimal::zero(),
        }
    }

    /// The badge resource of `owner`'s pool, if it has one.
    pub fn pool_allowance_resource(&self, owner: NonFungibleGlobalId) -> (r: Option<
        ResourceAddress,
    >)
        requires
            self.wf(),
        ensures
            r == self.pool_badge(owner),
    {
        match self.find_pool(&owner) {
            Some(i) => {
                proof {
                    lemma_lookup_at(self.pools@, i as int);
                }
                Some(self.pools[i].1)
            },
            None => None,
        }
    }

    /// A pool for `owner` can exist after `get_or_add_pool`: it exists
    /// already, or a badge resource id is left for a new one.
    pub open spec fn pool_possible(&self, owner: NonFungibleGlobalId) -> bool {
        self.pool_badge(owner) is Some || self.next_badge_resource < u64::MAX
    }

    /// Retrieves the badge resource of `owner`'s pool, creating the pool if
    /// it does not exist yet.
    fn get_or_add_pool(&mut self, owner: &NonFungibleGlobalId) -> (r: ResourceAddress)
        requires
            old(self).wf(),
            old(self).pool_possible(*owner),
        ensures
            final(self).wf(),
            final(self).pool_badge(*owner) == Some(r),
            old(self).pool_badge(*owner) matches Some(b) ==> r == b,
            !r.fungible,
            forall|o: NonFungibleGlobalId| o != *owner ==> final(self).pool_badge(o) == old(self).pool_badge(o),
            old(self).pool_badge(*owner) is None ==> forall|o: NonFungibleGlobalId|
                #[trigger] old(self).pool_badge(o) != Some(r),
            counters_moved(*old(self), *final(self), pool_created(*old(self), *owner), 0),
            final(self).trusted_nfgids == old(self).trusted_nfgids,
            final(self).trusted_res == old(self).trusted_res,
            final(self).vaults == old(self).vaults,
            final(self).allowances == old(self).allowances,
    {
        match self.find_pool(owner) {
            Some(i) => {
                proof {
                    lemma_lookup_at(self.pools@, i as int);
                }
                self.pools[i].1
            },
            None => {
                let badge = ResourceAddress { id: self.next_badge_resource, fungible: false };
                proof {
                    lemma_lookup_push(self.pools@, *owner, badge);
                    lemma_has_key_push(self.pools@, (*owner, badge));
                }
                self.pools.push((*owner, badge));
                self.next_badge_resource = self.next_badge_resource + 1;
                badge
            },
        }
    }

    fn set_trusted_nfgid(&mut self, owner: &NonFungibleGlobalId, id: NonFungibleGlobalId, trust: bool)
        requires
            old(self).wf(),
            old(self).pool_badge(*owner) is Some,
        ensures
            final(self).wf(),
            lookup(final(self).trusted_nfgids@, (*owner, id)) == Some(trust),
            forall|k: (NonFungibleGlobalId, NonFungibleGlobalId)| k != (*owner, id) ==> lookup(
                final(self).trusted_nfgids@,
                k,
            ) == lookup(old(self).trusted_nfgids@, k),
            final(self).component == old(self).component,
            final(self).pools == old(self).pools,
            final(self).trusted_res == old(self).trusted_res,
            final(self).vaults == old(self).vaults,
            final(self).allowances == old(self).allowances,
            final(self).next_badge_resource == old(self).next_badge_resource,
            final(self).next_allowance_id == old(self).next_allowance_id,
    {
        match self.find_trusted_nfgid(owner, &id) {
            Some(i) => {
                let ghost rows = self.trusted_nfgids@;
                proof {
                    lemma_lookup_update(self.trusted_nfgids@, i as int, trust);
                }
                self.trusted_nfgids.set(i, ((*owner, id), trust));
                proof {
                    assert forall|j: int| 0 <= j < self.trusted_nfgids@.len() implies has_key(
                        self.pools@,
                        (#[trigger] self.trusted_nfgids@[j]).0.0,
                    ) by {
                        assert(self.trusted_nfgids@[j].0 == rows[j].0);
                    }
                }
            },
            None => {
                let ghost rows = self.trusted_nfgids@;
                proof {
                    lemma_lookup_push(self.trusted_nfgids@, (*owner, id), trust);
                    lemma_lookup_at(self.pools@, choose|p: int| 0 <= p < self.pools@.len() && self.pools@[p].0 == *owner);
                }
                self.trusted_nfgids.push(((*owner, id), trust));
                proof {
                    assert forall|j: int| 0 <= j < self.trusted_nfgids@.len() implies has_key(
                        self.pools@,
                        (#[trigger] self.trusted_nfgids@[j]).0.0,
                    ) by {
                        if j < rows.len() {
                            assert(self.trusted_nfgids@[j] == rows[j]);
                        }
                    }
                }
            },
        }
    }

    fn set_trusted_res(&mut self, owner: &NonFungibleGlobalId, res: ResourceAddress, trust: bool)
        requires
            old(self).wf(),
            old(self).pool_badge(*owner) is Some,
        ensures
            final(self).wf(),
            lookup(final(self).trusted_res@, (*owner, res)) == Some(trust),
            forall|k: (NonFungibleGlobalId, ResourceAddress)| k != (*owner, res) ==> lookup(
                final(self).trusted_res@,
                k,
            ) == lookup(old(self).trusted_res@, k),
            final(self).component == old(self).component,
            final(self).pools == old(self).pools,
            final(self).trusted_nfgids == old(self).trusted_nfgids,
            final(self).vaults == old(self).vaults,
            final(self).allowances == old(self).allowances,
            final(self).next_badge_resource == old(self).next_badge_resource,
            final(self).next_allowance_id == old(self).next_allowance_id,
    {
        match self.find_trusted_res(owner, &res) {
            Some(i) => {
                let ghost rows = self.trusted_res@;
                proof {
                    lemma_lookup_update(self.trusted_res@, i as int, trust);
                }
                self.trusted_res.set(i, ((*owner, res), trust));
                proof {
                    assert forall|j: int| 0 <= j < self.trusted_res@.len() implies has_key(
                        self.pools@,
                        (#[trigger] self.trusted_res@[j]).0.0,
                    ) by {
                        assert(self.trusted_res@[j].0 == rows[j].0);
                    }
                }
            },
            None => {
                let ghost rows = self.trusted_res@;
                proof {
                    lemma_lookup_push(self.trusted_res@, (*owner, res), trust);
                    lemma_lookup_at(self.pools@, choose|p: int| 0 <= p < self.pools@.len() && self.pools@[p].0 == *owner);
                }
                self.trusted_res.push(((*owner, res), trust));
                proof {
                    assert forall|j: int| 0 <= j < self.trusted_res@.len() implies has_key(
                        self.pools@,
                        (#[trigger] self.trusted_res@[j]).0.0,
                    ) by {
                        if j < rows.len() {
                            assert(self.trusted_res@[j] == rows[j]);
                        }
                    }
                }
            },
        }
    }

    /// The pool owner marks `add_nfgid` as trusted to receive allowances
    /// automatically on deposit. Creates the pool if needed.
    pub fn add_trusted_nfgid(&mut self, owner: &NonFungibleGlobalId, add_nfgid: NonFungibleGlobalId)
        -> (r: Result<(), EscrowError>)
        requires
            old(self).wf(),
        ensures
            final(self).wf(),
            r is Err <==> !old(self).pool_possible(*owner),
            r matches Err(e) ==> e == EscrowError::Overflow && *final(self) == *old(self),
            r is Ok ==> final(self).pool_badge(*owner) is Some,
            r is Ok ==> final(self).trusts_nfgid(*owner, add_nfgid),
            r is Ok ==> forall|o: NonFungibleGlobalId, c: NonFungibleGlobalId|
                (o, c) != (*owner, add_nfgid) ==> final(self).trusts_nfgid(o, c) == old(self).trusts_nfgid(o, c),
            r is Ok ==> counters_moved(*old(self), *final(self), pool_created(*old(self), *owner), 0),
            final(self).vaults == old(self).vaults,
            final(self).allowances == old(self).allowances,
    {
        if !self.check_pool_possible(owner) {
            return Err(EscrowError::Overflow);
        }
        self.get_or_add_pool(owner);
        self.set_trusted_nfgid(owner, add_nfgid, true);
        Ok(())
    }

    /// The pool owner withdraws trust from `remove_nfgid`. The entry stays,
    /// marked untrusted. Creates the pool if needed.
    pub fn remove_trusted_nfgid(
        &mut self,
        owner: &NonFungibleGlobalId,
        remove_nfgid: NonFungibleGlobalId,
    ) -> (r: Result<(), EscrowError>)
        requires
            old(self).wf(),
        ensures
            final(self).wf(),
            r is Err <==> !old(self).pool_possible(*owner),
            r matches Err(e) ==> e == EscrowError::Overflow && *final(self) == *old(self),
            r is Ok ==> final(self).pool_badge(*owner) is Some,
            r is Ok ==> lookup(final(self).trusted_nfgids@, (*owner, remove_nfgid)) == Some(false),
            r is Ok ==> forall|o: NonFungibleGlobalId, c: NonFungibleGlobalId|
                (o, c) != (*owner, remove_nfgid) ==> final(self).trusts_nfgid(o, c) == old(self).trusts_nfgid(o, c),
            r is Ok ==> counters_moved(*old(self), *final(self), pool_created(*old(self), *owner), 0),
            final(self).vaults == old(self).vaults,
            final(self).allowances == old(self).allowances,
    {
        if !self.check_pool_possible(owner) {
            return Err(EscrowError::Overflow);
        }
        self.get_or_add_pool(owner);
        self.set_trusted_nfgid(owner, remove_nfgid, false);
        Ok(())
    }

    /// Whether `owner` trusts `candidate` to receive allowances on deposit;
    /// false where `owner` has no pool.
    pub fn is_nfgid_trusted(&self, owner: NonFungibleGlobalId, candidate: NonFungibleGlobalId) -> (r:
        bool)
        requires
            self.wf(),
        ensures
            r == self.trusts_nfgid(owner, candidate),
    {
        match self.find_trusted_nfgid(&owner, &candidate) {
            Some(i) => {
                proof {
                    lemma_lookup_at(self.trusted_nfgids@, i as int);
                }
                self.trusted_nfgids[i].1
            },
            None => false,
        }
    }

    /// The pool owner marks every holder of `add_resource` as trusted to
    /// receive allowances automatically on deposit. Creates the pool if
    /// needed.
    pub fn add_trusted_resource(&mut self, owner: &NonFungibleGlobalId, add_resource: ResourceAddress)
        -> (r: Result<(), EscrowError>)
        requires
            old(self).wf(),
        ensures
            final(self).wf(),
            r is Err <==> !old(self).pool_possible(*owner),
            r matches Err(e) ==> e == EscrowError::Overflow && *final(self) == *old(self),
            r is Ok ==> final(self).pool_badge(*owner) is Some,
            r is Ok ==> final(self).trusts_resource(*owner, add_resource),
            r is Ok ==> forall|o: NonFungibleGlobalId, c: ResourceAddress|
                (o, c) != (*owner, add_resource) ==> final(self).trusts_resource(o, c) == old(self).trusts_resource(o, c),
            r is Ok ==> counters_moved(*old(self), *final(self), pool_created(*old(self), *owner), 0),
            final(self).vaults == old(self).vaults,
            final(self).allowances == old(self).allowances,
    {
        if !self.check_pool_possible(owner) {
            return Err(EscrowError::Overflow);
        }
        self.get_or_add_pool(owner);
        self.set_trusted_res(owner, add_resource, true);
        Ok(())
    }

    /// The pool owner withdraws trust from holders of `remove_resource`.
    /// The entry stays, marked untrusted. Creates the pool if needed.
    pub fn remove_trusted_resource(
        &mut self,
        owner: &NonFungibleGlobalId,
        remove_resource: ResourceAddress,
    ) -> (r: Result<(), EscrowError>)
        requires
            old(self).wf(),
        ensures
            final(self).wf(),
            r is Err <==> !old(self).pool_possible(*owner),
            r matches Err(e) ==> e == EscrowError::Overflow && *final(self) == *old(self),
            r is Ok ==> final(self).pool_badge(*owner) is Some,
            r is Ok ==> lookup(final(self).trusted_res@, (*owner, remove_resource)) == Some(false),
            r is Ok ==> forall|o: NonFungibleGlobalId, c: ResourceAddress|
                (o, c) != (*owner, remove_resource) ==> final(self).trusts_resource(o, c) == old(self).trusts_resource(o, c),
            r is Ok ==> counters_moved(*old(self), *final(self), pool_created(*old(self), *owner), 0),
            final(self).vaults == old(self).vaults,
            final(self).allowances == old(self).allowances,
    {
        if !self.check_pool_possible(owner) {
            return Err(EscrowError::Overflow);
        }
        self.get_or_add_pool(owner);
        self.set_trusted_res(owner, remove_resource, false);
        Ok(())
    }

    /// Whether `owner` trusts holders of `candidate` to receive allowances
    /// on deposit; false where `owner` has no pool.
    pub fn is_resource_trusted(&self, owner: NonFungibleGlobalId, candidate: ResourceAddress) -> (r:
        bool)
        requires
            self.wf(),
        ensures
            r == self.trusts_resource(owner, candidate),
    {
        match self.find_trusted_res(&owner, &candidate) {
            Some(i) => {
                proof {
                    lemma_lookup_at(self.trusted_res@, i as int);
                }
                self.trusted_res[i].1
            },
            None => false,
        }
    }

    /// Whether a pool for `owner` exists or can be created.
    fn check_pool_possible(&self, owner: &NonFungibleGlobalId) -> (r: bool)
        requires
            self.wf(),
        ensures
            r == self.pool_possible(*owner),
    {
        match self.find_pool(owner) {
            Some(i) => {
                proof {
                    lemma_lookup_at(self.pools@, i as int);
                }
                true
            },
            None => self.next_badge_resource < u64::MAX,
        }
    }

    /// Why the vault of `resource` in `owner`'s pool cannot supply `q`,
    /// checked in this order; `None` where it can.
    pub open spec fn vault_error(
        &self,
        owner: NonFungibleGlobalId,
        resource: ResourceAddress,
        q: QuantityModel,
    ) -> Option<EscrowError> {
        if self.pool_badge(owner) is None {
            Some(EscrowError::PoolNotFound)
        } else if self.vault(owner, resource) is None {
            Some(EscrowError::ResourceNotFound)
        } else if !self.vault(owner, resource).unwrap().can_supply(
            named_part(q),
            arbitrary_part(q),
        ) {
            Some(EscrowError::InsufficientFunds)
        } else {
            None
        }
    }

    /// The index of the vault of `resource` in `owner`'s pool, where it can
    /// supply the named ids and the amount; otherwise why not.
    fn check_vault(
        &self,
        owner: &NonFungibleGlobalId,
        resource: &ResourceAddress,
        named: &Option<Vec<NonFungibleLocalId>>,
        amount: &Option<Decimal>,
    ) -> (r: Result<usize, EscrowError>)
        requires
            self.wf(),
        ensures
            match r {
                Ok(i) => {
                    &&& i < self.vaults@.len()
                    &&& self.vaults@[i as int].0 == (*owner, *resource)
                    &&& self.pool_badge(*owner) is Some
                    &&& self.vaults@[i as int].1.can_take(*named, *amount)
                },
                Err(e) => {
                    ||| self.pool_badge(*owner) is None && e == EscrowError::PoolNotFound
                    ||| self.pool_badge(*owner) is Some && self.vault(*owner, *resource) is None
                        && e == EscrowError::ResourceNotFound
                    ||| self.pool_badge(*owner) is Some && (self.vault(*owner, *resource) matches Some(
                        v,
                    ) && !v.can_take(*named, *amount)) && e == EscrowError::InsufficientFunds
                },
            },
    {
        match self.find_pool(owner) {
            None => {
                return Err(EscrowError::PoolNotFound);
            },
            Some(p) => {
                proof {
                    lemma_lookup_at(self.pools@, p as int);
                }
            },
        }
        match self.find_vault(owner, resource) {
            None => Err(EscrowError::ResourceNotFound),
            Some(i) => {
                proof {
                    lemma_lookup_at(self.vaults@, i as int);
                }
                if self.vaults[i].1.check_take(named, amount) {
                    Ok(i)
                } else {
                    Err(EscrowError::InsufficientFunds)
                }
            },
        }
    }

    /// Takes the named ids and then the amount out of vault `i`.
    fn take_at(
        &mut self,
        i: usize,
        named: &Option<Vec<NonFungibleLocalId>>,
        amount: &Option<Decimal>,
    ) -> (r: Bucket)
        requires
            old(self).wf(),
            i < old(self).vaults@.len(),
            old(self).vaults@[i as int].1.can_take(*named, *amount),
        ensures
            final(self).wf(),
            r.wf(),
            ({
                let key = old(self).vaults@[i as int].0;
                let before = old(self).vaults@[i as int].1;
                &&& final(self).vault(key.0, key.1) matches Some(after)
                &&& r.resource == key.1
                &&& after.amount@ + r.amount@ == before.amount@
                &&& r.amount@ == option_set_len(*named) * one() + match *amount {
                    Some(a) => a@,
                    None => 0,
                }
                &&& !key.1.fungible ==> taken_ids(before.ids@, *named, *amount, r.ids@)
                &&& !key.1.fungible ==> after.ids@ == without(before.ids@, r.ids@)
                &&& forall|k: (NonFungibleGlobalId, ResourceAddress)|
                    k != key ==> #[trigger] lookup(final(self).vaults@, k) == lookup(
                        old(self).vaults@,
                        k,
                    )
            }),
            final(self).component == old(self).component,
            final(self).pools == old(self).pools,
            final(self).trusted_nfgids == old(self).trusted_nfgids,
            final(self).trusted_res == old(self).trusted_res,
            final(self).allowances == old(self).allowances,
            final(self).next_badge_resource == old(self).next_badge_resource,
            final(self).next_allowance_id == old(self).next_allowance_id,
    {
        let ghost old_vaults = self.vaults@;
        let (key, mut vault) = self.vaults.remove(i);
        assert(old_vaults[i as int].1.wf());
        let taken = vault.take_quantity(named, amount);
        self.vaults.insert(i, (key, vault));
        proof {
            assert(self.vaults@ =~= old_vaults.update(i as int, (key, vault)));
            lemma_lookup_update(old_vaults, i as int, vault);
            assert forall|j: int| 0 <= j < self.vaults@.len() implies (#[trigger] self.vaults@[j]).1.wf()
                && self.vaults@[j].1.resource == self.vaults@[j].0.1 by {
                if j != i {
                    assert(self.vaults@[j] == old_vaults[j]);
                }
            }
        }
        taken
    }

    /// The pool owner takes `quantity` of `resource` out of their pool:
    /// named ids first, then the arbitrary amount. `caller` is the owner's
    /// verified identity.
    pub fn withdraw(
        &mut self,
        caller: &NonFungibleGlobalId,
        resource: ResourceAddress,
        quantity: &TokenQuantity,
    ) -> (r: Result<Bucket, EscrowError>)
        requires
            old(self).wf(),
        ensures
            final(self).wf(),
            match r {
                Err(e) => old(self).vault_error(*caller, resource, quantity@) == Some(e) && *final(self) == *old(self),
                Ok(b) => old(self).vault_error(*caller, resource, quantity@) is None && took(
                    *old(self),
                    *final(self),
                    *caller,
                    resource,
                    quantity@,
                    b,
                ),
            },
    {
        let (named, amount) = quantity.extract_max_values();
        let i = match self.check_vault(caller, &resource, &named, &amount) {
            Ok(i) => i,
            Err(e) => {
                return Err(e);
            },
        };
        let b = self.take_at(i, &named, &amount);
        proof {
            lemma_lookup_at(old(self).vaults@, i as int);
            lemma_quantity_total(quantity@);
        }
        Ok(b)
    }

    /// The pool owner takes everything of `resource` out of their pool.
    pub fn withdraw_all_of(&mut self, caller: &NonFungibleGlobalId, resource: ResourceAddress) -> (r:
        Result<Bucket, EscrowError>)
        requires
            old(self).wf(),
        ensures
            final(self).wf(),
            match r {
                Err(e) => *final(self) == *old(self) && ((old(self).pool_badge(*caller) is None
                    && e == EscrowError::PoolNotFound) || (old(self).pool_badge(*caller) is Some
                    && old(self).vault(*caller, resource) is None && e
                    == EscrowError::ResourceNotFound)),
                Ok(b) => {
                    &&& old(self).pool_badge(*caller) is Some
                    &&& old(self).vault(*caller, resource) matches Some(v)
                    &&& b.amount == v.amount && b.ids@ == v.ids@ && b.resource == resource
                    &&& final(self).balance(*caller, resource) == 0
                    &&& forall|k: (NonFungibleGlobalId, ResourceAddress)|
                        k != (*caller, resource) ==> #[trigger] lookup(final(self).vaults@, k)
                            == lookup(old(self).vaults@, k)
                    &&& final(self).pools == old(self).pools
                    &&& final(self).allowances == old(self).allowances
                    &&& counters_moved(*old(self), *final(self), 0, 0)
                },
            },
    {
        match self.find_pool(caller) {
            None => {
                return Err(EscrowError::PoolNotFound);
            },
            Some(p) => {
                proof {
                    lemma_lookup_at(self.pools@, p as int);
                }
            },
        }
        let i = match self.find_vault(caller, &resource) {
            None => {
                return Err(EscrowError::ResourceNotFound);
            },
            Some(i) => i,
        };
        let ghost old_vaults = self.vaults@;
        proof {
            lemma_lookup_at(old_vaults, i as int);
        }
        let (key, mut vault) = self.vaults.remove(i);
        assert(old_vaults[i as int].1.wf());
        let taken = vault.take_all();
        self.vaults.insert(i, (key, vault));
        proof {
            assert(self.vaults@ =~= old_vaults.update(i as int, (key, vault)));
            lemma_lookup_update(old_vaults, i as int, vault);
            assert forall|j: int| 0 <= j < self.vaults@.len() implies (#[trigger] self.vaults@[j]).1.wf()
                && self.vaults@[j].1.resource == self.vaults@[j].0.1 by {
                if j != i {
                    assert(self.vaults@[j] == old_vaults[j]);
                }
            }
        }
        Ok(taken)
    }

    /// The pool owner sets aside `amount` of the native fee resource from
    /// their pool to pay for the current operation.
    pub fn subsidize(&mut self, caller: &NonFungibleGlobalId, amount: Decimal) -> (r: Result<
        FeeLock,
        EscrowError,
    >)
        requires
            old(self).wf(),
        ensures
            final(self).wf(),
            match r {
                Err(e) => old(self).vault_error(*caller, xrd_spec(), QuantityModel::Fungible(amount@))
                    == Some(e) && *final(self) == *old(self),
                Ok(lock) => !lock.contingent && old(self).vault_error(
                    *caller,
                    xrd_spec(),
                    QuantityModel::Fungible(amount@),
                ) is None && took(
                    *old(self),
                    *final(self),
                    *caller,
                    xrd_spec(),
                    QuantityModel::Fungible(amount@),
                    lock.funds,
                ),
            },
    {
        match self.withdraw(caller, ResourceAddress::xrd(), &TokenQuantity::Fungible(amount)) {
            Ok(funds) => Ok(FeeLock { funds, contingent: false }),
            Err(e) => Err(e),
        }
    }

    /// The pool owner sets aside `amount` of the native fee resource from
    /// their pool to pay for the current operation, spent only if the
    /// operation succeeds.
    pub fn subsidize_contingent(&mut self, caller: &NonFungibleGlobalId, amount: Decimal) -> (r:
        Result<FeeLock, EscrowError>)
        requires
            old(self).wf(),
        ensures
            final(self).wf(),
            match r {
                Err(e) => old(self).vault_error(*caller, xrd_spec(), QuantityModel::Fungible(amount@))
                    == Some(e) && *final(self) == *old(self),
                Ok(lock) => lock.contingent && old(self).vault_error(
                    *caller,
                    xrd_spec(),
                    QuantityModel::Fungible(amount@),
                ) is None && took(
                    *old(self),
                    *final(self),
                    *caller,
                    xrd_spec(),
                    QuantityModel::Fungible(amount@),
                    lock.funds,
                ),
            },
    {
        match self.withdraw(caller, ResourceAddress::xrd(), &TokenQuantity::Fungible(amount)) {
            Ok(funds) => Ok(FeeLock { funds, contingent: true }),
            Err(e) => Err(e),
        }
    }
}

/// A quantity's total is its named ids plus its arbitrary part.
proof fn lemma_quantity_total(q: QuantityModel)
    ensures
        q.total() == model_ids(named_part(q)).len() * one() + match arbitrary_part(q) {
            Some(a) => a,
            None => 0,
        },
{
}

/// `taken` came out of the vault of `resource` in `owner`'s pool for the
/// quantity `q`: it holds exactly `q`'s total, the vault holds that much
/// less, for non-fungibles it holds the named ids and then the first other
/// ids, and no other vault changed.
pub open spec fn took(
    before: Escrow,
    after: Escrow,
    owner: NonFungibleGlobalId,
    resource: ResourceAddress,
    q: QuantityModel,
    taken: Bucket,
) -> bool {
    &&& taken.wf()
    &&& taken.resource == resource
    &&& taken.amount@ == q.total()
    &&& after.vault(owner, resource) is Some
    &&& after.balance(owner, resource) == before.balance(owner, resource) - q.total()
    &&& !resource.fungible ==> {
        let named = model_ids(named_part(q));
        let k = match arbitrary_part(q) {
            Some(a) => a / one(),
            None => 0,
        };
        &&& taken.ids@ == named + without(before.held_ids(owner, resource), named).subrange(0, k)
        &&& after.held_ids(owner, resource) == without(before.held_ids(owner, resource), taken.ids@)
    }
    &&& forall|k: (NonFungibleGlobalId, ResourceAddress)|
        k != (owner, resource) ==> #[trigger] lookup(after.vaults@, k) == lookup(before.vaults@, k)
    &&& counters_moved(before, after, 0, 0)
    &&& after.pools == before.pools
    &&& after.trusted_nfgids == before.trusted_nfgids
    &&& after.trusted_res == before.trusted_res
}


/// The badge held in an allowance bucket: its resource and its one token.
pub open spec fn badge_of(allowance: Bucket) -> Option<NonFungibleGlobalId> {
    if allowance.ids@.len() == 1 {
        Some(NonFungibleGlobalId { resource: allowance.resource, local_id: allowance.ids@[0] })
    } else {
        None
    }
}

/// The allowance given back to a trusted depositor: accumulating, with no
/// time limits, for exactly what was deposited.
pub open spec fn deposit_allowance(
    component: ComponentAddress,
    owner: NonFungibleGlobalId,
    funds: Bucket,
) -> AllowanceModel {
    AllowanceModel {
        escrow_pool: (component, owner),
        valid_until: None,
        valid_from: 0,
        life_cycle: AllowanceLifeCycle::Accumulating,
        for_resource: funds.resource,
        max_amount: Some(
            if funds.resource.fungible {
                QuantityModel::Fungible(funds.amount@)
            } else {
                QuantityModel::NonFungible(Some(funds.ids@), None)
            },
        ),
    }
}

/// `funds` went into the vault of its resource in `owner`'s pool, which
/// exists afterwards, and no other vault and no trust entry changed.
pub open spec fn deposited(
    before: Escrow,
    after: Escrow,
    owner: NonFungibleGlobalId,
    funds: Bucket,
) -> bool {
    &&& after.pool_badge(owner) is Some
    &&& (before.pool_badge(owner) is Some ==> after.pool_badge(owner) == before.pool_badge(owner))
    &&& forall|o: NonFungibleGlobalId| o != owner ==> #[trigger] after.pool_badge(o) == before.pool_badge(o)
    &&& after.vault(owner, funds.resource) is Some
    &&& after.balance(owner, funds.resource) == before.balance(owner, funds.resource) + funds.amount@
    &&& after.held_ids(owner, funds.resource) == before.held_ids(owner, funds.resource) + funds.ids@
    &&& forall|k: (NonFungibleGlobalId, ResourceAddress)|
        k != (owner, funds.resource) ==> #[trigger] lookup(after.vaults@, k) == lookup(
            before.vaults@,
            k,
        )
    &&& after.component == before.component
    &&& after.trusted_nfgids == before.trusted_nfgids
    &&& after.trusted_res == before.trusted_res
}

/// Only the allowance `badge` changed, to `to` (`None`: burnt).
pub open spec fn allowance_became(
    before: Escrow,
    after: Escrow,
    badge: NonFungibleGlobalId,
    to: Option<AllowanceModel>,
) -> bool {
    &&& after.allowance(badge) == to
    &&& forall|b: NonFungibleGlobalId| b != badge ==> #[trigger] after.allowance(b) == before.allowance(b)
}

impl Escrow {
    /// The requestor is trusted by `owner`: by its identity or by its resource.
    pub open spec fn trusts(&self, owner: NonFungibleGlobalId, requestor: NonFungibleGlobalId) -> bool {
        self.trusts_resource(owner, requestor.resource) || self.trusts_nfgid(owner, requestor)
    }

    /// Why a deposit is refused, checked in this order; `None` where it is
    /// not.
    pub open spec fn deposit_error(
        &self,
        owner: NonFungibleGlobalId,
        funds: Bucket,
        requestor: Option<NonFungibleGlobalId>,
        require_allowance: bool,
    ) -> Option<EscrowError> {
        if !self.pool_possible(owner) {
            Some(EscrowError::Overflow)
        } else if self.vault(owner, funds.resource) matches Some(v) && !v.can_put(&funds) {
            Some(EscrowError::CannotDeposit)
        } else if requestor matches Some(q) && self.trusts(owner, q) && self.next_allowance_id
            == u64::MAX {
            Some(EscrowError::Overflow)
        } else if requestor matches Some(q) && !self.trusts(owner, q) && require_allowance {
            Some(EscrowError::UntrustedRequestor)
        } else {
            None
        }
    }

    /// Why minting an allowance is refused, checked in this order; `None`
    /// where it is not.
    pub open spec fn mint_error(
        &self,
        owner: NonFungibleGlobalId,
        for_resource: ResourceAddress,
        max_quantity: Option<QuantityModel>,
    ) -> Option<EscrowError> {
        if max_quantity matches Some(QuantityModel::Fungible(a)) && a < 0 {
            Some(EscrowError::NegativeMaxAmount)
        } else if max_quantity matches Some(q) && (q is Fungible) != for_resource.fungible {
            Some(EscrowError::QuantityMismatch)
        } else if !self.pool_possible(owner) || self.next_allowance_id == u64::MAX {
            Some(EscrowError::Overflow)
        } else {
            None
        }
    }

    /// Why a withdrawal through `allowance` is refused, checked in this
    /// order; `None` where it is not. With `fee_only`, the allowance must
    /// be for the native fee resource.
    pub open spec fn allowance_error(
        &self,
        allowance: Bucket,
        q: QuantityModel,
        now: i64,
        fee_only: bool,
    ) -> Option<EscrowError> {
        match badge_of(allowance) {
            None => Some(EscrowError::NotForThisEscrow),
            Some(badge) => match self.allowance(badge) {
                None => Some(EscrowError::NotForThisEscrow),
                Some(d) => if consume_error(d, self.component, q, now) is Some {
                    consume_error(d, self.component, q, now)
                } else if fee_only && d.for_resource != xrd_spec() {
                    Some(EscrowError::OnlyFeeResource)
                } else if self.pool_badge(d.escrow_pool.1) is None {
                    Some(EscrowError::PoolNotFound)
                } else if self.pool_badge(d.escrow_pool.1) != Some(allowance.resource) {
                    Some(EscrowError::NotForThisPool)
                } else {
                    self.vault_error(d.escrow_pool.1, d.for_resource, q)
                },
            },
        }
    }

    /// Issues a new allowance badge of `badge_res` holding `data`.
    fn mint(&mut self, badge_res: ResourceAddress, data: AllowanceNfData) -> (r: Bucket)
        requires
            old(self).wf(),
            old(self).next_allowance_id < u64::MAX,
            !badge_res.fungible,
        ensures
            final(self).wf(),
            r.wf(),
            r.resource == badge_res,
            r.ids@ == seq![NonFungibleLocalId { id: old(self).next_allowance_id }],
            badge_of(r) matches Some(badge) && !has_key(old(self).allowances@, badge) && allowance_became(
                *old(self),
                *final(self),
                badge,
                Some(data@),
            ),
            final(self).component == old(self).component,
            final(self).pools == old(self).pools,
            final(self).trusted_nfgids == old(self).trusted_nfgids,
            final(self).trusted_res == old(self).trusted_res,
            final(self).vaults == old(self).vaults,
            counters_moved(*old(self), *final(self), 0, 1),
    {
        let local = NonFungibleLocalId { id: self.next_allowance_id };
        let badge = NonFungibleGlobalId { resource: badge_res, local_id: local };
        proof {
            assert(!has_key(self.allowances@, badge)) by {
                if has_key(self.allowances@, badge) {
                    let j = choose|j: int|
                        0 <= j < self.allowances@.len() && self.allowances@[j].0 == badge;
                    assert(self.allowances@[j].0.local_id.id < self.next_allowance_id);
                }
            }
            lemma_lookup_push(self.allowances@, badge, data);
        }
        self.allowances.push((badge, data));
        self.next_allowance_id = self.next_allowance_id + 1;
        let mut ids: Vec<NonFungibleLocalId> = Vec::new();
        ids.push(local);
        proof {
            assert(ids@ =~= seq![local]);
            assert(badge_of(Bucket { resource: badge_res, amount: Decimal { attos: 0 }, ids }) == Some(badge));
        }
        Bucket::new_non_fungible(badge_res, ids)
    }

    /// Deposits `funds` into `owner`'s pool, creating the pool and its
    /// vault of that resource where absent. Anyone may deposit.
    ///
    /// Where a depositor `allowance_requestor` is trusted by the owner (by
    /// its identity or by its resource), an accumulating allowance for
    /// exactly the deposit, without time limits, is minted back to it. An
    /// untrusted requestor gets none; the deposit then fails only where
    /// `require_allowance` is set. A refused deposit hands `funds` back.
    pub fn deposit_funds(
        &mut self,
        owner: NonFungibleGlobalId,
        funds: Bucket,
        allowance_requestor: Option<NonFungibleGlobalId>,
        require_allowance: bool,
    ) -> (r: Result<Option<Bucket>, (EscrowError, Bucket)>)
        requires
            old(self).wf(),
            funds.wf(),
        ensures
            final(self).wf(),
            match r {
                Err((e, back)) => old(self).deposit_error(
                    owner,
                    funds,
                    allowance_requestor,
                    require_allowance,
                ) == Some(e) && back == funds && *final(self) == *old(self),
                Ok(minted) => {
                    &&& old(self).deposit_error(owner, funds, allowance_requestor, require_allowance)
                        is None
                    &&& deposited(*old(self), *final(self), owner, funds)
                    &&& forall|r: ResourceAddress| #[trigger] final(self).total(r) == old(self).total(r)
                        + if r == funds.resource {
                        funds.amount@
                    } else {
                        0
                    }
                    &&& (minted is Some <==> (allowance_requestor matches Some(q) && old(self).trusts(
                        owner,
                        q,
                    )))
                    &&& minted is None ==> final(self).allowances == old(self).allowances
                    &&& counters_moved(
                        *old(self),
                        *final(self),
                        pool_created(*old(self), owner),
                        if minted is Some {
                            1
                        } else {
                            0
                        },
                    )
                    &&& minted matches Some(b) ==> (Some(b.resource) == final(self).pool_badge(owner)
                        && (badge_of(b) matches Some(badge) && !has_key(old(self).allowances@, badge)
                        && allowance_became(
                        *old(self),
                        *final(self),
                        badge,
                        Some(deposit_allowance(old(self).component, owner, funds)),
                    )))
                },
            },
    {
        if !self.check_pool_possible(&owner) {
            return Err((EscrowError::Overflow, funds));
        }
        let vault_index = self.find_vault(&owner, &funds.resource);
        match vault_index {
            Some(i) => {
                proof {
                    lemma_lookup_at(self.vaults@, i as int);
                }
                if !self.vaults[i].1.check_put(&funds) {
                    return Err((EscrowError::CannotDeposit, funds));
                }
            },
            None => {},
        }
        let mint_back = match &allowance_requestor {
            Some(q) => {
                let trusted = self.is_resource_trusted(owner, q.resource) || self.is_nfgid_trusted(
                    owner,
                    *q,
                );
                if trusted && self.next_allowance_id == u64::MAX {
                    return Err((EscrowError::Overflow, funds));
                }
                if !trusted && require_allowance {
                    return Err((EscrowError::UntrustedRequestor, funds));
                }
                trusted
            },
            None => false,
        };
        let ghost before = *self;
        let badge_res = self.get_or_add_pool(&owner);
        let resource = funds.resource;
        let max_amount = if resource.fungible {
            TokenQuantity::Fungible(funds.amount)
        } else {
            TokenQuantity::NonFungible(Some(funds.non_fungible_local_ids()), None)
        };
        let ghost funds_view = funds;
        let ghost mid = *self;
        match vault_index {
            Some(i) => {
                let ghost old_vaults = self.vaults@;
                let (key, mut vault) = self.vaults.remove(i);
                assert(old_vaults[i as int].1.wf());
                vault.put(funds);
                self.vaults.insert(i, (key, vault));
                proof {
                    assert(self.vaults@ =~= old_vaults.update(i as int, (key, vault)));
                    lemma_lookup_update(old_vaults, i as int, vault);
                    lemma_lookup_at(old_vaults, i as int);
                    assert forall|r: ResourceAddress| #[trigger] vault_total(self.vaults@, r)
                        == vault_total(old_vaults, r) + if r == funds_view.resource {
                        funds_view.amount@
                    } else {
                        0
                    } by {
                        lemma_vault_total_update(old_vaults, i as int, (key, vault), r);
                    }
                    assert forall|j: int| 0 <= j < self.vaults@.len() implies (
                    #[trigger] self.vaults@[j]).1.wf() && self.vaults@[j].1.resource
                        == self.vaults@[j].0.1 by {
                        if j != i {
                            assert(self.vaults@[j] == old_vaults[j]);
                        }
                    }
                }
            },
            None => {
                proof {
                    lemma_lookup_push(self.vaults@, (owner, resource), funds);
                    assert(self.vaults@.push(((owner, resource), funds))[self.vaults@.len() as int]
                        == ((owner, resource), funds));
                }
                let ghost pre = self.vaults@;
                self.vaults.push(((owner, resource), funds));
                proof {
                    assert(self.vaults@.drop_last() =~= pre);
                    assert(funds_view.ids@ =~= Seq::<NonFungibleLocalId>::empty() + funds_view.ids@);
                }
            },
        }
        if mint_back {
            let data = AllowanceNfData {
                escrow_pool: (self.component, owner),
                valid_until: None,
                valid_from: 0,
                life_cycle: AllowanceLifeCycle::Accumulating,
                for_resource: resource,
                max_amount: Some(max_amount),
            };
            let b = self.mint(badge_res, data);
            Ok(Some(b))
        } else {
            Ok(None)
        }
    }

    /// The pool owner issues a new allowance on their pool, creating the
    /// pool where absent. A negative fungible maximum, or a maximum whose
    /// kind does not fit the resource's fungibility, is refused.
    pub fn mint_allowance(
        &mut self,
        owner: &NonFungibleGlobalId,
        valid_until: Option<i64>,
        valid_from: i64,
        life_cycle: AllowanceLifeCycle,
        for_resource: ResourceAddress,
        max_quantity: Option<TokenQuantity>,
    ) -> (r: Result<Bucket, EscrowError>)
        requires
            old(self).wf(),
        ensures
            final(self).wf(),
            match r {
                Err(e) => old(self).mint_error(*owner, for_resource, option_quantity_model(max_quantity)) == Some(e)
                    && *final(self) == *old(self),
                Ok(b) => {
                    &&& old(self).mint_error(*owner, for_resource, option_quantity_model(max_quantity)) is None
                    &&& Some(b.resource) == final(self).pool_badge(*owner)
                    &&& b.wf()
                    &&& badge_of(b) matches Some(badge) && !has_key(old(self).allowances@, badge)
                        && allowance_became(
                        *old(self),
                        *final(self),
                        badge,
                        Some(
                            AllowanceModel {
                                escrow_pool: (old(self).component, *owner),
                                valid_until,
                                valid_from,
                                life_cycle,
                                for_resource,
                                max_amount: option_quantity_model(max_quantity),
                            },
                        ),
                    )
                    &&& final(self).vaults == old(self).vaults
                    &&& final(self).trusted_nfgids == old(self).trusted_nfgids
                    &&& final(self).trusted_res == old(self).trusted_res
                    &&& counters_moved(*old(self), *final(self), pool_created(*old(self), *owner), 1)
                },
            },
    {
        match &max_quantity {
            Some(TokenQuantity::Fungible(a)) => {
                if a.is_negative() {
                    return Err(EscrowError::NegativeMaxAmount);
                }
            },
            _ => {},
        }
        let fits = match &max_quantity {
            Some(TokenQuantity::Fungible(_)) => for_resource.fungible,
            Some(TokenQuantity::NonFungible(_, _)) => !for_resource.fungible,
            None => true,
        };
        if !fits {
            return Err(EscrowError::QuantityMismatch);
        }
        if !self.check_pool_possible(owner) || self.next_allowance_id == u64::MAX {
            return Err(EscrowError::Overflow);
        }
        let badge_res = self.get_or_add_pool(owner);
        let data = AllowanceNfData {
            escrow_pool: (self.component, *owner),
            valid_until,
            valid_from,
            life_cycle,
            for_resource,
            max_amount: max_quantity,
        };
        Ok(self.mint(badge_res, data))
    }

    /// The row of the allowance `badge` changed to `d`, or was removed where
    /// `d` is `None`; the table stays well formed.
    fn replace_allowance(&mut self, i: usize, d: Option<AllowanceNfData>)
        requires
            old(self).wf(),
            i < old(self).allowances@.len(),
        ensures
            final(self).wf(),
            allowance_became(
                *old(self),
                *final(self),
                old(self).allowances@[i as int].0,
                option_allowance_model(d),
            ),
            final(self).component == old(self).component,
            final(self).pools == old(self).pools,
            final(self).trusted_nfgids == old(self).trusted_nfgids,
            final(self).trusted_res == old(self).trusted_res,
            final(self).vaults == old(self).vaults,
            final(self).next_badge_resource == old(self).next_badge_resource,
            final(self).next_allowance_id == old(self).next_allowance_id,
    {
        let ghost rows = self.allowances@;
        let badge = self.allowances[i].0;
        match d {
            Some(d) => {
                proof {
                    lemma_lookup_update(rows, i as int, d);
                }
                self.allowances.set(i, (badge, d));
                proof {
                    assert forall|j: int| 0 <= j < self.allowances@.len() implies (
                    #[trigger] self.allowances@[j]).0.local_id.id < self.next_allowance_id by {
                        assert(self.allowances@[j].0 == rows[j].0);
                    }
                }
            },
            None => {
                proof {
                    lemma_lookup_remove(rows, i as int);
                }
                self.allowances.remove(i);
                proof {
                    assert forall|j: int| 0 <= j < self.allowances@.len() implies (
                    #[trigger] self.allowances@[j]).0.local_id.id < self.next_allowance_id by {
                        if j < i {
                            assert(self.allowances@[j] == rows[j]);
                        } else {
                            assert(self.allowances@[j] == rows[j + 1]);
                        }
                    }
                }
            },
        }
    }

    /// Validates and accounts one use of `allowance` for `quantity` at
    /// `now`, then takes the quantity from the pool it draws on. Returns the
    /// tokens and whether the allowance survives. Changes nothing where it
    /// fails.
    fn use_allowance(
        &mut self,
        allowance: &Bucket,
        quantity: &TokenQuantity,
        now: i64,
        fee_only: bool,
    ) -> (r: Result<(Bucket, bool), EscrowError>)
        requires
            old(self).wf(),
        ensures
            final(self).wf(),
            match r {
                Err(e) => old(self).allowance_error(*allowance, quantity@, now, fee_only) == Some(e)
                    && *final(self) == *old(self),
                Ok((taken, survives)) => {
                    &&& old(self).allowance_error(*allowance, quantity@, now, fee_only) is None
                    &&& badge_of(*allowance) matches Some(badge)
                    &&& old(self).allowance(badge) matches Some(d)
                    &&& survives == consumed(d, quantity@, now) is Some
                    &&& allowance_became(*old(self), *final(self), badge, consumed(d, quantity@, now))
                    &&& took(
                        *old(self),
                        *final(self),
                        d.escrow_pool.1,
                        d.for_resource,
                        quantity@,
                        taken,
                    )
                },
            },
    {
        if allowance.ids.len() != 1 {
            return Err(EscrowError::NotForThisEscrow);
        }
        let badge = NonFungibleGlobalId { resource: allowance.resource, local_id: allowance.ids[0] };
        let ai = match self.find_allowance(&badge) {
            None => {
                return Err(EscrowError::NotForThisEscrow);
            },
            Some(i) => i,
        };
        proof {
            lemma_lookup_at(self.allowances@, ai as int);
        }
        let (owner, resource, outcome) = match consume(
            &self.allowances[ai].1,
            self.component,
            quantity,
            now,
        ) {
            Err(e) => {
                return Err(e);
            },
            Ok(r) => r,
        };
        if fee_only && resource != ResourceAddress::xrd() {
            return Err(EscrowError::OnlyFeeResource);
        }
        match self.find_pool(&owner) {
            None => {
                return Err(EscrowError::PoolNotFound);
            },
            Some(p) => {
                proof {
                    lemma_lookup_at(self.pools@, p as int);
                }
                if self.pools[p].1 != allowance.resource {
                    return Err(EscrowError::NotForThisPool);
                }
            },
        }
        let (named, amount) = quantity.extract_max_values();
        let vi = match self.check_vault(&owner, &resource, &named, &amount) {
            Ok(i) => i,
            Err(e) => {
                return Err(e);
            },
        };
        let survives = outcome.is_some();
        let ghost before = *self;
        self.replace_allowance(ai, outcome);
        let ghost mid = *self;
        assert(self.vaults@ == before.vaults@);
        let taken = self.take_at(vi, &named, &amount);
        proof {
            lemma_lookup_at(before.vaults@, vi as int);
            lemma_quantity_total(quantity@);
            assert forall|b: NonFungibleGlobalId| b != badge implies #[trigger] self.allowance(b)
                == before.allowance(b) by {
                assert(mid.allowance(b) == before.allowance(b));
            }
        }
        Ok((taken, survives))
    }

    /// Anyone holding an allowance badge takes `quantity` out of the pool it
    /// draws on. The allowance is checked and accounted first; it comes
    /// back unless this use burnt it. A refused withdrawal hands the
    /// allowance back.
    pub fn withdraw_with_allowance(
        &mut self,
        allowance: Bucket,
        quantity: &TokenQuantity,
        now: i64,
    ) -> (r: Result<(Bucket, Option<Bucket>), (EscrowError, Bucket)>)
        requires
            old(self).wf(),
        ensures
            final(self).wf(),
            match r {
                Err((e, back)) => old(self).allowance_error(allowance, quantity@, now, false) == Some(
                    e,
                ) && back == allowance && *final(self) == *old(self),
                Ok((taken, back)) => {
                    &&& old(self).allowance_error(allowance, quantity@, now, false) is None
                    &&& badge_of(allowance) matches Some(badge)
                    &&& old(self).allowance(badge) matches Some(d)
                    &&& (back is Some <==> consumed(d, quantity@, now) is Some)
                    &&& (back matches Some(b) ==> b == allowance)
                    &&& allowance_became(*old(self), *final(self), badge, consumed(d, quantity@, now))
                    &&& took(
                        *old(self),
                        *final(self),
                        d.escrow_pool.1,
                        d.for_resource,
                        quantity@,
                        taken,
                    )
                },
            },
    {
        match self.use_allowance(&allowance, quantity, now, false) {
            Err(e) => Err((e, allowance)),
            Ok((taken, survives)) => {
                if survives {
                    Ok((taken, Some(allowance)))
                } else {
                    Ok((taken, None))
                }
            },
        }
    }

    /// A holder of an allowance for the native fee resource sets aside
    /// `amount` of it from the pool to pay for the current operation. An
    /// accumulating allowance is reduced by `amount` whatever the fee turns
    /// out to be.
    pub fn subsidize_with_allowance(&mut self, allowance: Bucket, amount: Decimal, now: i64) -> (r:
        Result<(FeeLock, Option<Bucket>), (EscrowError, Bucket)>)
        requires
            old(self).wf(),
        ensures
            final(self).wf(),
            match r {
                Err((e, back)) => old(self).allowance_error(
                    allowance,
                    QuantityModel::Fungible(amount@),
                    now,
                    true,
                ) == Some(e) && back == allowance && *final(self) == *old(self),
                Ok((lock, back)) => {
                    &&& !lock.contingent
                    &&& old(self).allowance_error(
                        allowance,
                        QuantityModel::Fungible(amount@),
                        now,
                        true,
                    ) is None
                    &&& badge_of(allowance) matches Some(badge)
                    &&& old(self).allowance(badge) matches Some(d)
                    &&& (back is Some <==> consumed(d, QuantityModel::Fungible(amount@), now) is Some)
                    &&& (back matches Some(b) ==> b == allowance)
                    &&& allowance_became(
                        *old(self),
                        *final(self),
                        badge,
                        consumed(d, QuantityModel::Fungible(amount@), now),
                    )
                    &&& took(
                        *old(self),
                        *final(self),
                        d.escrow_pool.1,
                        xrd_spec(),
                        QuantityModel::Fungible(amount@),
                        lock.funds,
                    )
                },
            },
    {
        match self.use_allowance(&allowance, &TokenQuantity::Fungible(amount), now, true) {
            Err(e) => Err((e, allowance)),
            Ok((funds, survives)) => {
                let lock = FeeLock { funds, contingent: false };
                if survives {
                    Ok((lock, Some(allowance)))
                } else {
                    Ok((lock, None))
                }
            },
        }
    }

    /// Why reducing the allowance `badge` to `new_max` is refused, checked
    /// in this order; `None` where it is not.
    pub open spec fn reduce_amount_error(&self, badge: NonFungibleGlobalId, new_max: int) -> Option<
        EscrowError,
    > {
        if new_max < 0 {
            Some(EscrowError::NegativeAllowance)
        } else {
            match self.allowance(badge) {
                None => Some(EscrowError::NotForThisEscrow),
                Some(d) => match d.max_amount {
                    None => Some(EscrowError::NoBoundedCount),
                    Some(QuantityModel::Fungible(a)) => if a < new_max {
                        Some(EscrowError::AllowanceIncreaseFungible)
                    } else {
                        None
                    },
                    Some(QuantityModel::NonFungible(_, None)) => Some(EscrowError::NoBoundedCount),
                    Some(QuantityModel::NonFungible(_, Some(n))) => if new_max > n * one() {
                        Some(EscrowError::AllowanceIncreaseNonFungible)
                    } else if new_max % one() != 0 {
                        Some(EscrowError::NotWholeNumber)
                    } else {
                        None
                    },
                },
            }
        }
    }

    /// Why removing ids from the allowance `badge` is refused; `None` where
    /// it is not.
    pub open spec fn reduce_ids_error(&self, badge: NonFungibleGlobalId) -> Option<EscrowError> {
        match self.allowance(badge) {
            None => Some(EscrowError::NotForThisEscrow),
            Some(d) => match d.max_amount {
                None => Some(EscrowError::UnlimitedHasNoIds),
                Some(QuantityModel::Fungible(_)) => Some(EscrowError::FungibleHasNoIds),
                Some(QuantityModel::NonFungible(None, _)) => Some(EscrowError::NoIdSet),
                _ => None,
            },
        }
    }

    /// The holder of the allowance `allowance` lowers what it allows to
    /// `new_max`: a fungible maximum to `new_max`, the count of a
    /// non-fungible one to `new_max` whole tokens (its id set unchanged).
    /// Never raises it.
    pub fn reduce_allowance_to_amount(&mut self, allowance: &NonFungibleGlobalId, new_max: Decimal) -> (r:
        Result<(), EscrowError>)
        requires
            old(self).wf(),
        ensures
            final(self).wf(),
            match r {
                Err(e) => old(self).reduce_amount_error(*allowance, new_max@) == Some(e) && *final(self)
                    == *old(self),
                Ok(()) => {
                    &&& old(self).reduce_amount_error(*allowance, new_max@) is None
                    &&& old(self).allowance(*allowance) matches Some(d)
                    &&& d.max_amount matches Some(m)
                    &&& allowance_became(
                        *old(self),
                        *final(self),
                        *allowance,
                        Some(
                            AllowanceModel {
                                max_amount: Some(
                                    match m {
                                        QuantityModel::Fungible(_) => QuantityModel::Fungible(
                                            new_max@,
                                        ),
                                        QuantityModel::NonFungible(ids, _) => QuantityModel::NonFungible(
                                            ids,
                                            Some((new_max@ / one()) as u64),
                                        ),
                                    },
                                ),
                                ..d
                            },
                        ),
                    )
                    &&& final(self).vaults == old(self).vaults
                    &&& final(self).pools == old(self).pools
                    &&& counters_moved(*old(self), *final(self), 0, 0)
                },
            },
    {
        if new_max.is_negative() {
            return Err(EscrowError::NegativeAllowance);
        }
        let i = match self.find_allowance(allowance) {
            None => {
                return Err(EscrowError::NotForThisEscrow);
            },
            Some(i) => i,
        };
        proof {
            lemma_lookup_at(self.allowances@, i as int);
        }
        let data = &self.allowances[i].1;
        let new_quantity = match &data.max_amount {
            None => {
                return Err(EscrowError::NoBoundedCount);
            },
            Some(TokenQuantity::Fungible(a)) => {
                if !new_max.le(a) {
                    return Err(EscrowError::AllowanceIncreaseFungible);
                }
                TokenQuantity::Fungible(new_max)
            },
            Some(TokenQuantity::NonFungible(ids, n)) => {
                let n = match n {
                    None => {
                        return Err(EscrowError::NoBoundedCount);
                    },
                    Some(n) => *n,
                };
                let cap = Decimal::from_u64(n);
                if !new_max.le(&cap) {
                    return Err(EscrowError::AllowanceIncreaseNonFungible);
                }
                let whole = match new_max.to_whole_u64() {
                    None => {
                        return Err(EscrowError::NotWholeNumber);
                    },
                    Some(w) => w,
                };
                proof {
                    vstd::arithmetic::div_mod::lemma_fundamental_div_mod_converse(
                        new_max@,
                        one(),
                        whole as int,
                        0,
                    );
                }
                let ids = match ids {
                    Some(v) => Some(crate::token_quantity::copy_ids(v)),
                    None => None,
                };
                TokenQuantity::NonFungible(ids, Some(whole))
            },
        };
        let updated = AllowanceNfData {
            escrow_pool: data.escrow_pool,
            valid_until: data.valid_until,
            valid_from: data.valid_from,
            life_cycle: data.life_cycle,
            for_resource: data.for_resource,
            max_amount: Some(new_quantity),
        };
        self.replace_allowance(i, Some(updated));
        Ok(())
    }

    /// The holder of the allowance `allowance` removes the ids `to_remove`
    /// from the id set of its non-fungible allowance; ids it does not hold
    /// are ignored, and its count is unchanged.
    pub fn reduce_allowance_by_nflids(
        &mut self,
        allowance: &NonFungibleGlobalId,
        to_remove: &Vec<NonFungibleLocalId>,
    ) -> (r: Result<(), EscrowError>)
        requires
            old(self).wf(),
        ensures
            final(self).wf(),
            match r {
                Err(e) => old(self).reduce_ids_error(*allowance) == Some(e) && *final(self) == *old(
                    self),
                Ok(()) => {
                    &&& old(self).reduce_ids_error(*allowance) is None
                    &&& old(self).allowance(*allowance) matches Some(d)
                    &&& d.max_amount matches Some(QuantityModel::NonFungible(Some(ids), n))
                    &&& allowance_became(
                        *old(self),
                        *final(self),
                        *allowance,
                        Some(
                            AllowanceModel {
                                max_amount: Some(
                                    QuantityModel::NonFungible(Some(without(ids, to_remove@)), n),
                                ),
                                ..d
                            },
                        ),
                    )
                    &&& final(self).vaults == old(self).vaults
                    &&& final(self).pools == old(self).pools
                    &&& counters_moved(*old(self), *final(self), 0, 0)
                },
            },
    {
        let i = match self.find_allowance(allowance) {
            None => {
                return Err(EscrowError::NotForThisEscrow);
            },
            Some(i) => i,
        };
        proof {
            lemma_lookup_at(self.allowances@, i as int);
        }
        let data = &self.allowances[i].1;
        let new_quantity = match &data.max_amount {
            None => {
                return Err(EscrowError::UnlimitedHasNoIds);
            },
            Some(TokenQuantity::Fungible(_)) => {
                return Err(EscrowError::FungibleHasNoIds);
            },
            Some(TokenQuantity::NonFungible(ids, n)) => match ids {
                None => {
                    return Err(EscrowError::NoIdSet);
                },
                Some(ids) => TokenQuantity::NonFungible(Some(ids_without(ids, to_remove)), *n),
            },
        };
        let updated = AllowanceNfData {
            escrow_pool: data.escrow_pool,
            valid_until: data.valid_until,
            valid_from: data.valid_from,
            life_cycle: data.life_cycle,
            for_resource: data.for_resource,
            max_amount: Some(new_quantity),
        };
        self.replace_allowance(i, Some(updated));
        Ok(())
    }

    /// The data of the live allowance `badge`, if there is one.
    pub fn allowance_data(&self, badge: &NonFungibleGlobalId) -> (r: Option<AllowanceNfData>)
        requires
            self.wf(),
        ensures
            option_allowance_model(r) == self.allowance(*badge),
    {
        match self.find_allowance(badge) {
            None => None,
            Some(i) => {
                proof {
                    lemma_lookup_at(self.allowances@, i as int);
                }
                let data = &self.allowances[i].1;
                let max_amount = match &data.max_amount {
                    Some(q) => Some(q.duplicate()),
                    None => None,
                };
                Some(
                    AllowanceNfData {
                        escrow_pool: data.escrow_pool,
                        valid_until: data.valid_until,
                        valid_from: data.valid_from,
                        life_cycle: data.life_cycle,
                        for_resource: data.for_resource,
                        max_amount,
                    },
                )
            },
        }
    }
}

} // verus!
