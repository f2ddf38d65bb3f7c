//! Identities of resources, tokens and components, and the ordered id
//! sets that name individual non-fungible tokens.
use vstd::prelude::*;
use vstd::set_lib::lemma_set_difference_len;

verus! {

/// Identifier of the native resource that pays transaction fees.
pub const NATIVE_FEE_RESOURCE_ID: u64 = 0;

/// The address of a resource type, with the fungibility that the ledger
/// gives every resource.
#[derive(Clone, Copy, Debug, PartialEq, Eq, Structural, Hash)]
pub struct ResourceAddress {
    pub id: u64,
    pub fungible: bool,
}

impl ResourceAddress {
    pub fn new(id: u64, fungible: bool) -> (r: ResourceAddress)
        ensures
            r.id == id,
            r.fungible == fungible,
    {
        ResourceAddress { id, fungible }
    }

    /// The native fee resource.
    pub fn xrd() -> (r: ResourceAddress)
        ensures
            r == xrd_spec(),
    {
        ResourceAddress { id: NATIVE_FEE_RESOURCE_ID, fungible: true }
    }

    pub fn is_fungible(&self) -> (r: bool)
        ensures
            r == self.fungible,
    {
        self.fungible
    }
}

pub open spec fn xrd_spec() -> ResourceAddress {
    ResourceAddress { id: NATIVE_FEE_RESOURCE_ID, fungible: true }
}

/// The local id of one non-fungible token within its resource.
#[derive(Clone, Copy, Debug, PartialEq, Eq, Structural, Hash)]
pub struct NonFungibleLocalId {
    pub id: u64,
}

impl NonFungibleLocalId {
    pub fn integer(n: u64) -> (r: NonFungibleLocalId)
        ensures
            r.id == n,
    {
        NonFungibleLocalId { id: n }
    }
}

/// One non-fungible token anywhere on the ledger: its resource and local id.
#[derive(Clone, Copy, Debug, PartialEq, Eq, Structural, Hash)]
pub struct NonFungibleGlobalId {
    pub resource: ResourceAddress,
    pub local_id: NonFungibleLocalId,
}

impl NonFungibleGlobalId {
    pub fn new(resource: ResourceAddress, local_id: NonFungibleLocalId) -> (r:
        NonFungibleGlobalId)
        ensures
            r.resource == resource,
            r.local_id == local_id,
    {
        NonFungibleGlobalId { resource, local_id }
    }

    pub fn resource_address(&self) -> (r: ResourceAddress)
        ensures
            r == self.resource,
    {
        self.resource
    }

    pub fn local_id(&self) -> (r: NonFungibleLocalId)
        ensures
            r == self.local_id,
    {
        self.local_id
    }
}

/// The address of a component instance.
#[derive(Clone, Copy, Debug, PartialEq, Eq, Structural, Hash)]
pub struct ComponentAddress {
    pub id: u64,
}

/// The ids of `a` that are not in `b`, in the order of `a`.
pub open spec fn without(a: Seq<NonFungibleLocalId>, b: Seq<NonFungibleLocalId>) -> Seq<
    NonFungibleLocalId,
>
    decreases a.len(),
{
    if a.len() == 0 {
        Seq::empty()
    } else {
        let rest = without(a.drop_last(), b);
        if b.contains(a.last()) {
            rest
        } else {
            rest.push(a.last())
        }
    }
}

/// Every id of `b` is in `a`.
pub open spec fn includes(a: Seq<NonFungibleLocalId>, b: Seq<NonFungibleLocalId>) -> bool {
    forall|x: NonFungibleLocalId| b.contains(x) ==> a.contains(x)
}

proof fn lemma_push_contains(s: Seq<NonFungibleLocalId>, v: NonFungibleLocalId)
    ensures
        forall|x: NonFungibleLocalId| #[trigger]
            s.push(v).contains(x) <==> (s.contains(x) || x == v),
{
    assert forall|x: NonFungibleLocalId| #[trigger] s.push(v).contains(x) <==> (s.contains(x)
        || x == v) by {
        if s.push(v).contains(x) {
            let i = choose|i: int| 0 <= i < s.push(v).len() && s.push(v)[i] == x;
            if i < s.len() {
                assert(s[i] == x);
            }
        }
        if s.contains(x) {
            let i = choose|i: int| 0 <= i < s.len() && s[i] == x;
            assert(s.push(v)[i] == x);
        }
        if x == v {
            assert(s.push(v)[s.len() as int] == x);
        }
    }
}

/// Membership in `without`.
pub proof fn lemma_without_contains(a: Seq<NonFungibleLocalId>, b: Seq<NonFungibleLocalId>)
    ensures
        forall|x: NonFungibleLocalId| #[trigger]
            without(a, b).contains(x) <==> (a.contains(x) && !b.contains(x)),
        without(a, b).len() <= a.len(),
    decreases a.len(),
{
    if a.len() > 0 {
        lemma_without_contains(a.drop_last(), b);
        lemma_push_contains(without(a.drop_last(), b), a.last());
        assert forall|x: NonFungibleLocalId| a.contains(x) <==> (a.drop_last().contains(x) || x
            == a.last()) by {
            if a.contains(x) {
                let i = choose|i: int| 0 <= i < a.len() && a[i] == x;
                if i < a.len() - 1 {
                    assert(a.drop_last()[i] == x);
                }
            }
            if a.drop_last().contains(x) {
                let i = choose|i: int| 0 <= i < a.drop_last().len() && a.drop_last()[i] == x;
                assert(a[i] == x);
            }
        }
    }
}

/// `without` keeps a sequence free of duplicates.
pub proof fn lemma_without_no_duplicates(a: Seq<NonFungibleLocalId>, b: Seq<NonFungibleLocalId>)
    requires
        a.no_duplicates(),
    ensures
        without(a, b).no_duplicates(),
    decreases a.len(),
{
    if a.len() > 0 {
        let p = a.drop_last();
        assert(p.no_duplicates());
        lemma_without_no_duplicates(p, b);
        lemma_without_contains(p, b);
        if !b.contains(a.last()) {
            let r = without(p, b);
            if p.contains(a.last()) {
                let i = choose|i: int| 0 <= i < p.len() && p[i] == a.last();
                assert(a[i] == a[a.len() - 1]);
            }
            assert(!r.contains(a.last()));
            assert forall|i: int, j: int|
                0 <= i < r.push(a.last()).len() && 0 <= j < r.push(a.last()).len() && i != j
                    implies r.push(a.last())[i] != r.push(a.last())[j] by {
                if i == r.len() {
                    assert(r.contains(r[j]));
                } else if j == r.len() {
                    assert(r.contains(r[i]));
                }
            }
        }
    }
}

/// Taking ids that are all present out of a duplicate-free sequence leaves
/// exactly that many fewer.
pub proof fn lemma_without_len(a: Seq<NonFungibleLocalId>, b: Seq<NonFungibleLocalId>)
    requires
        a.no_duplicates(),
        b.no_duplicates(),
        includes(a, b),
    ensures
        without(a, b).len() + b.len() == a.len(),
{
    let w = without(a, b);
    lemma_without_contains(a, b);
    lemma_without_no_duplicates(a, b);
    a.unique_seq_to_set();
    b.unique_seq_to_set();
    w.unique_seq_to_set();
    assert(w.to_set() =~= a.to_set().difference(b.to_set()));
    assert(a.to_set().intersect(b.to_set()) =~= b.to_set());
    lemma_set_difference_len(a.to_set(), b.to_set());
}

/// What `without` leaves of a duplicate-free sequence: all but the ids
/// the two have in common.
pub proof fn lemma_without_len_common(a: Seq<NonFungibleLocalId>, b: Seq<NonFungibleLocalId>)
    requires
        a.no_duplicates(),
    ensures
        without(a, b).len() == a.len() - a.to_set().intersect(b.to_set()).len(),
{
    let w = without(a, b);
    lemma_without_contains(a, b);
    lemma_without_no_duplicates(a, b);
    a.unique_seq_to_set();
    w.unique_seq_to_set();
    assert(w.to_set() =~= a.to_set().difference(b.to_set()));
    lemma_set_difference_len(a.to_set(), b.to_set());
}

/// Whether `ids` holds `x`.
pub fn contains_id(ids: &Vec<NonFungibleLocalId>, x: NonFungibleLocalId) -> (r: bool)
    ensures
        r == ids@.contains(x),
{
    let mut i: usize = 0;
    while i < ids.len()
        invariant
            i <= ids@.len(),
            forall|j: int| 0 <= j < i ==> ids@[j] != x,
        decreases ids.len() - i,
    {
        if ids[i] == x {
            return true;
        }
        i = i + 1;
    }
    false
}

/// Whether every id of `b` is in `a`.
pub fn includes_all(a: &Vec<NonFungibleLocalId>, b: &Vec<NonFungibleLocalId>) -> (r: bool)
    ensures
        r == includes(a@, b@),
{
    let mut i: usize = 0;
    while i < b.len()
        invariant
            i <= b@.len(),
            forall|j: int| 0 <= j < i ==> a@.contains(#[trigger] b@[j]),
        decreases b.len() - i,
    {
        if !contains_id(a, b[i]) {
            assert(b@.contains(b@[i as int]));
            return false;
        }
        i = i + 1;
    }
    true
}

/// The ids of `a` that are not in `b`, in the order of `a`.
pub fn ids_without(a: &Vec<NonFungibleLocalId>, b: &Vec<NonFungibleLocalId>) -> (r: Vec<
    NonFungibleLocalId,
>)
    ensures
        r@ == without(a@, b@),
{
    let mut r: Vec<NonFungibleLocalId> = Vec::new();
    let mut i: usize = 0;
    while i < a.len()
        invariant
            i <= a@.len(),
            r@ == without(a@.subrange(0, i as int), b@),
        decreases a.len() - i,
    {
        let x = a[i];
        assert(a@.subrange(0, i + 1).drop_last() =~= a@.subrange(0, i as int));
        if !contains_id(b, x) {
            r.push(x);
        }
        i = i + 1;
    }
    assert(a@.subrange(0, a@.len() as int) =~= a@);
    r
}

} // verus!
