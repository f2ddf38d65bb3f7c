//! Containers of one resource: a fungible amount, or a set of non-fungible
//! tokens. The same container serves as a transient bucket and as a vault.
use vstd::prelude::*;
use crate::address::{
    NonFungibleLocalId,
    ResourceAddress,
    contains_id,
    ids_without,
    includes,
    includes_all,
    lemma_without_contains,
    lemma_without_len,
    lemma_without_no_duplicates,
    without,
};
use crate::decimal::{Decimal, lemma_whole_units, one};
use vstd::arithmetic::div_mod::lemma_fundamental_div_mod_converse;
use crate::token_quantity::{
    copy_ids,
    model_ids,
    option_decimal_model,
    option_set_ids,
    option_set_len,
    option_set_model,
};

verus! {

/// Some tokens of one resource.
#[derive(Debug)]
pub struct Bucket {
    pub resource: ResourceAddress,
    /// For a fungible resource, the amount held; for a non-fungible one,
    /// the number of tokens held, in attos.
    pub amount: Decimal,
    /// For a non-fungible resource, the tokens held, each once.
    pub ids: Vec<NonFungibleLocalId>,
}

/// The amount of `n` tokens, in attos.
fn count_to_decimal(n: usize) -> (r: Decimal)
    ensures
        r@ == n * one(),
{
    assert(n * one() <= u64::MAX * one()) by (nonlinear_arith)
        requires
            n <= u64::MAX,
    ;
    Decimal { attos: (n as i128) * 1_000_000_000_000_000_000i128 }
}

impl Bucket {
    /// A fungible bucket holds no ids and a non-negative amount; a
    /// non-fungible one holds distinct ids and counts them.
    pub open spec fn wf(&self) -> bool {
        if self.resource.fungible {
            self.ids@.len() == 0 && self.amount@ >= 0
        } else {
            self.ids@.no_duplicates() && self.amount@ == self.ids@.len() * one()
        }
    }

    /// An empty bucket of `resource`.
    pub fn new(resource: ResourceAddress) -> (r: Bucket)
        ensures
            r.wf(),
            r.resource == resource,
            r.amount@ == 0,
            r.ids@.len() == 0,
    {
        Bucket { resource, amount: Decimal::zero(), ids: Vec::new() }
    }

    /// A bucket holding `amount` of a fungible `resource`.
    pub fn new_fungible(resource: ResourceAddress, amount: Decimal) -> (r: Bucket)
        requires
            resource.fungible,
            amount@ >= 0,
        ensures
            r.wf(),
            r.resource == resource,
            r.amount == amount,
    {
        Bucket { resource, amount, ids: Vec::new() }
    }

    /// A bucket holding the tokens `ids` of a non-fungible `resource`.
    pub fn new_non_fungible(resource: ResourceAddress, ids: Vec<NonFungibleLocalId>) -> (r: Bucket)
        requires
            !resource.fungible,
            ids@.no_duplicates(),
        ensures
            r.wf(),
            r.resource == resource,
            r.ids@ == ids@,
    {
        let amount = count_to_decimal(ids.len());
        Bucket { resource, amount, ids }
    }

    pub fn resource_address(&self) -> (r: ResourceAddress)
        ensures
            r == self.resource,
    {
        self.resource
    }

    pub fn amount(&self) -> (r: Decimal)
        ensures
            r == self.amount,
    {
        self.amount
    }

    /// The ids of the tokens held.
    pub fn non_fungible_local_ids(&self) -> (r: Vec<NonFungibleLocalId>)
        ensures
            r@ == self.ids@,
    {
        copy_ids(&self.ids)
    }

    pub fn is_empty(&self) -> (r: bool)
        requires
            self.wf(),
        ensures
            r == (self.amount@ == 0),
    {
        self.amount.is_zero()
    }

    /// `other` can join this bucket: same resource, the sum stays in range,
    /// and no token would be held twice.
    pub open spec fn can_put(&self, other: &Bucket) -> bool {
        &&& self.resource == other.resource
        &&& self.amount@ + other.amount@ <= i128::MAX
        &&& (forall|x: NonFungibleLocalId| self.ids@.contains(x) ==> !other.ids@.contains(x))
    }

    /// Whether `other` can join this bucket.
    pub fn check_put(&self, other: &Bucket) -> (r: bool)
        requires
            self.wf(),
            other.wf(),
        ensures
            r == self.can_put(other),
    {
        if self.resource != other.resource {
            return false;
        }
        match self.amount.checked_add(other.amount) {
            None => {
                return false;
            },
            Some(_) => {},
        }
        let mut i: usize = 0;
        while i < self.ids.len()
            invariant
                i <= self.ids@.len(),
                forall|j: int| 0 <= j < i ==> !other.ids@.contains(#[trigger] self.ids@[j]),
            decreases self.ids.len() - i,
        {
            if contains_id(&other.ids, self.ids[i]) {
                assert(self.ids@.contains(self.ids@[i as int]));
                return false;
            }
            i = i + 1;
        }
        true
    }

    /// Moves all of `other` into this bucket.
    pub fn put(&mut self, other: Bucket)
        requires
            old(self).wf(),
            other.wf(),
            old(self).can_put(&other),
        ensures
            final(self).wf(),
            final(self).resource == old(self).resource,
            final(self).amount@ == old(self).amount@ + other.amount@,
            final(self).ids@ == old(self).ids@ + other.ids@,
    {
        let Bucket { resource: _, amount, ids } = other;
        let mut ids = ids;
        let ghost before = self.ids@;
        let ghost added = ids@;
        self.ids.append(&mut ids);
        self.amount = Decimal { attos: self.amount.attos + amount.attos };
        proof {
            let s = self.ids@;
            assert(s =~= before + added);
            if !self.resource.fungible {
                assert forall|i: int, j: int| 0 <= i < s.len() && 0 <= j < s.len() && i != j
                    implies s[i] != s[j] by {
                    if i < before.len() && j >= before.len() {
                        assert(before.contains(s[i]));
                        assert(added.contains(added[j - before.len()]));
                    } else if j < before.len() && i >= before.len() {
                        assert(before.contains(s[j]));
                        assert(added.contains(added[i - before.len()]));
                    }
                }
            }
        }
    }

    /// This bucket can supply the named ids, then the arbitrary amount (in
    /// attos): named ids only from a non-fungible resource and only where
    /// all are held; an amount never negative, nor above what is held (for
    /// non-fungibles, above what is left after the named ids), and for
    /// non-fungibles a whole number.
    pub open spec fn can_supply(
        &self,
        named: Option<Seq<NonFungibleLocalId>>,
        amount: Option<int>,
    ) -> bool {
        &&& (named matches Some(n) ==> !self.resource.fungible && includes(self.ids@, n)
            && n.no_duplicates())
        &&& (amount matches Some(a) ==> a >= 0 && if self.resource.fungible {
            a <= self.amount@
        } else {
            a % one() == 0 && a <= (self.ids@.len() - model_ids(named).len()) * one()
        })
    }

    /// `can_supply` for the exec form of the named ids and the amount.
    pub open spec fn can_take(
        &self,
        named: Option<Vec<NonFungibleLocalId>>,
        amount: Option<Decimal>,
    ) -> bool {
        self.can_supply(option_set_model(named), option_decimal_model(amount))
    }

    /// Whether this bucket can supply the named ids and the arbitrary amount.
    pub fn check_take(
        &self,
        named: &Option<Vec<NonFungibleLocalId>>,
        amount: &Option<Decimal>,
    ) -> (r: bool)
        requires
            self.wf(),
        ensures
            r == self.can_take(*named, *amount),
    {
        let mut named_len: usize = 0;
        match named {
            Some(ids) => {
                if self.resource.fungible || !includes_all(&self.ids, ids) || !distinct(ids) {
                    return false;
                }
                named_len = ids.len();
            },
            None => {},
        }
        match amount {
            Some(a) => {
                if a.is_negative() {
                    return false;
                }
                if self.resource.fungible {
                    a.le(&self.amount)
                } else {
                    if a.attos % 1_000_000_000_000_000_000i128 != 0 {
                        return false;
                    }
                    if named_len > self.ids.len() {
                        assert(a@ >= 0);
                        return false;
                    }
                    let left = count_to_decimal(self.ids.len() - named_len);
                    a.le(&left)
                }
            },
            None => true,
        }
    }

    /// Takes the named ids first, while they are surely still here, then
    /// the arbitrary amount from what remains. For non-fungibles the
    /// arbitrary tokens are the first ones held after the named ids are
    /// gone.
    pub fn take_quantity(
        &mut self,
        named: &Option<Vec<NonFungibleLocalId>>,
        amount: &Option<Decimal>,
    ) -> (r: Bucket)
        requires
            old(self).wf(),
            old(self).can_take(*named, *amount),
        ensures
            final(self).wf(),
            r.wf(),
            r.resource == old(self).resource,
            final(self).resource == old(self).resource,
            final(self).amount@ + r.amount@ == old(self).amount@,
            r.amount@ == option_set_len(*named) * one() + match *amount {
                Some(a) => a@,
                None => 0,
            },
            !old(self).resource.fungible ==> taken_ids(old(self).ids@, *named, *amount, r.ids@),
            !old(self).resource.fungible ==> final(self).ids@ == without(old(self).ids@, r.ids@),
    {
        let ghost old_ids = self.ids@;
        if self.resource.fungible {
            let a = match amount {
                Some(a) => *a,
                None => Decimal::zero(),
            };
            self.amount = Decimal { attos: self.amount.attos - a.attos };
            return Bucket { resource: self.resource, amount: a, ids: Vec::new() };
        }
        let named_ids = match named {
            Some(ids) => copy_ids(ids),
            None => Vec::new(),
        };
        let rest = ids_without(&self.ids, &named_ids);
        proof {
            lemma_without_len(old_ids, named_ids@);
            lemma_without_contains(old_ids, named_ids@);
            lemma_without_no_duplicates(old_ids, named_ids@);
        }
        let rest_len = rest.len();
        let k: usize = match amount {
            Some(a) => {
                proof {
                    lemma_whole_units(a@, rest@.len() as int);
                }
                let n = a.to_whole_u64();
                match n {
                    Some(n) => {
                        proof {
                            lemma_fundamental_div_mod_converse(a@, one(), n as int, 0);
                            assert(n <= rest@.len());
                        }
                        n as usize
                    },
                    None => {
                        assert(rest_len <= u64::MAX);
                        0
                    },
                }
            },
            None => 0,
        };
        assert(k as int == match *amount {
            Some(a) => a@ / one(),
            None => 0,
        });
        assert(k * one() == match *amount {
            Some(a) => a@,
            None => 0,
        });
        let mut taken = named_ids;
        let mut kept = rest;
        let mut arbitrary = kept.split_off(k);
        std::mem::swap(&mut kept, &mut arbitrary);
        let ghost named_s = option_set_ids(*named);
        let ghost first = arbitrary@;
        taken.append(&mut arbitrary);
        proof {
            let r_s = without(old_ids, named_s);
            assert(first =~= r_s.subrange(0, k as int));
            assert(kept@ =~= r_s.subrange(k as int, r_s.len() as int));
            lemma_taken_split(old_ids, named_s, k as int);
        }
        assert(taken@ =~= option_set_ids(*named) + without(old_ids, option_set_ids(*named)).subrange(
            0,
            k as int,
        ));
        assert((option_set_len(*named) + k) * one() == option_set_len(*named) * one() + k * one())
            by (nonlinear_arith);
        let taken_amount = count_to_decimal(taken.len());
        let kept_amount = count_to_decimal(kept.len());
        self.ids = kept;
        self.amount = kept_amount;
        Bucket { resource: self.resource, amount: taken_amount, ids: taken }
    }

    /// Takes everything out of this bucket.
    pub fn take_all(&mut self) -> (r: Bucket)
        requires
            old(self).wf(),
        ensures
            final(self).wf(),
            r.wf(),
            r.resource == old(self).resource,
            final(self).resource == old(self).resource,
            r.amount == old(self).amount,
            r.ids@ == old(self).ids@,
            final(self).amount@ == 0,
            final(self).ids@.len() == 0,
    {
        let mut r = Bucket::new(self.resource);
        std::mem::swap(self, &mut r);
        r
    }
}

/// Whether the ids are distinct.
pub fn distinct(ids: &Vec<NonFungibleLocalId>) -> (r: bool)
    ensures
        r == ids@.no_duplicates(),
{
    let mut i: usize = 0;
    while i < ids.len()
        invariant
            i <= ids@.len(),
            forall|a: int, b: int| 0 <= a < i && 0 <= b < ids@.len() && a != b ==> ids@[a] != ids@[b],
        decreases ids.len() - i,
    {
        let mut j: usize = 0;
        while j < ids.len()
            invariant
                i < ids@.len(),
                j <= ids@.len(),
                forall|b: int| 0 <= b < j && b != i ==> ids@[i as int] != ids@[b],
            decreases ids.len() - j,
        {
            if j != i && ids[i] == ids[j] {
                return false;
            }
            j = j + 1;
        }
        i = i + 1;
    }
    true
}

/// The tokens taken for a quantity: exactly the named ids, followed by as
/// many others as the arbitrary amount asks for, the first ones held that
/// are not named.
pub open spec fn taken_ids(
    held: Seq<NonFungibleLocalId>,
    named: Option<Vec<NonFungibleLocalId>>,
    amount: Option<Decimal>,
    taken: Seq<NonFungibleLocalId>,
) -> bool {
    let n = option_set_ids(named);
    let k = match amount {
        Some(a) => a@ / one(),
        None => 0,
    };
    taken == n + without(held, n).subrange(0, k)
}

pub proof fn lemma_taken_split(held: Seq<NonFungibleLocalId>, named: Seq<NonFungibleLocalId>, k: int)
    requires
        held.no_duplicates(),
        named.no_duplicates(),
        includes(held, named),
        0 <= k <= without(held, named).len(),
    ensures
        ({
            let taken = named + without(held, named).subrange(0, k);
            let kept = without(held, named).subrange(k, without(held, named).len() as int);
            &&& taken.no_duplicates()
            &&& kept.no_duplicates()
            &&& kept == without(held, taken)
        }),
{
    let r = without(held, named);
    let taken = named + r.subrange(0, k);
    let kept = r.subrange(k, r.len() as int);
    lemma_without_contains(held, named);
    lemma_without_no_duplicates(held, named);
    assert forall|i: int, j: int| 0 <= i < taken.len() && 0 <= j < taken.len() && i != j implies
        taken[i] != taken[j] by {
        if i < named.len() && j >= named.len() {
            assert(r.contains(r[j - named.len()]));
            assert(named.contains(named[i]));
        } else if j < named.len() && i >= named.len() {
            assert(r.contains(r[i - named.len()]));
            assert(named.contains(named[j]));
        }
    }
    lemma_without_tail(held, named, taken, k);
}

/// Removing the named ids and then the first `k` of the rest leaves what
/// removing all of them at once leaves.
proof fn lemma_without_tail(
    held: Seq<NonFungibleLocalId>,
    named: Seq<NonFungibleLocalId>,
    taken: Seq<NonFungibleLocalId>,
    k: int,
)
    requires
        held.no_duplicates(),
        0 <= k <= without(held, named).len(),
        taken == named + without(held, named).subrange(0, k),
    ensures
        without(held, named).subrange(k, without(held, named).len() as int) == without(
            held,
            taken,
        ),
    decreases held.len(),
{
    let r = without(held, named);
    if held.len() == 0 {
        assert(r.subrange(k, r.len() as int) =~= Seq::<NonFungibleLocalId>::empty());
    } else {
        let p = held.drop_last();
        let x = held.last();
        let rp = without(p, named);
        assert(p.no_duplicates());
        lemma_without_contains(p, named);
        if named.contains(x) {
            // x is named, so it is in `taken` and absent from both sides.
            assert(r == rp);
            assert(taken.contains(x)) by {
                let i = choose|i: int| 0 <= i < named.len() && named[i] == x;
                assert(taken[i] == x);
            }
            lemma_without_tail(p, named, taken, k);
        } else if k == r.len() {
            // every remaining id is taken, x among them
            assert(r == rp.push(x));
            assert(taken.contains(x)) by {
                assert(taken[(named.len() + rp.len()) as int] == x);
            }
            let taken_p = named + rp.subrange(0, rp.len() as int);
            assert(taken =~= taken_p.push(x));
            lemma_without_tail(p, named, taken_p, rp.len() as int);
            lemma_without_drop_extra(p, taken_p, x);
            assert(r.subrange(k, r.len() as int) =~= Seq::<NonFungibleLocalId>::empty());
            assert(rp.subrange(rp.len() as int, rp.len() as int) =~= Seq::<
                NonFungibleLocalId,
            >::empty());
        } else {
            // x stays, and is not taken
            assert(r == rp.push(x));
            assert(taken =~= named + rp.subrange(0, k));
            assert(!taken.contains(x)) by {
                if taken.contains(x) {
                    let i = choose|i: int| 0 <= i < taken.len() && taken[i] == x;
                    if i >= named.len() {
                        assert(rp.contains(rp[i - named.len()]));
                        assert(p.contains(x));
                        let j = choose|j: int| 0 <= j < p.len() && p[j] == x;
                        assert(held[j] == held[held.len() - 1]);
                    } else {
                        assert(named.contains(named[i]));
                    }
                }
            }
            lemma_without_tail(p, named, taken, k);
            assert(r.subrange(k, r.len() as int) =~= rp.subrange(k, rp.len() as int).push(x));
        }
    }
}

/// An extra id that `held` does not contain changes nothing when removed.
proof fn lemma_without_drop_extra(
    held: Seq<NonFungibleLocalId>,
    b: Seq<NonFungibleLocalId>,
    x: NonFungibleLocalId,
)
    requires
        !held.contains(x),
    ensures
        without(held, b.push(x)) == without(held, b),
    decreases held.len(),
{
    if held.len() > 0 {
        let p = held.drop_last();
        assert(!p.contains(x)) by {
            if p.contains(x) {
                let i = choose|i: int| 0 <= i < p.len() && p[i] == x;
                assert(held[i] == x);
            }
        }
        lemma_without_drop_extra(p, b, x);
        assert(b.push(x).contains(held.last()) == b.contains(held.last())) by {
            if b.push(x).contains(held.last()) {
                let i = choose|i: int| 0 <= i < b.push(x).len() && b.push(x)[i] == held.last();
                if i < b.len() {
                    assert(b[i] == held.last());
                } else {
                    assert(held[held.len() - 1] == x);
                }
            }
            if b.contains(held.last()) {
                let i = choose|i: int| 0 <= i < b.len() && b[i] == held.last();
                assert(b.push(x)[i] == held.last());
            }
        }
    }
}

} // verus!
