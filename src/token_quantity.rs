//! How much of a resource to move: an amount of a fungible, or named
//! non-fungibles plus a number of arbitrary others.
use vstd::prelude::*;
use crate::address::{NonFungibleLocalId, ResourceAddress};
use crate::decimal::{Decimal, one};

verus! {

/// The length of an optional id set, absent counting as empty.
pub open spec fn option_set_len(set: Option<Vec<NonFungibleLocalId>>) -> nat {
    match set {
        Some(v) => v@.len(),
        None => 0,
    }
}

/// The ids of an optional id set, absent counting as empty.
pub open spec fn option_set_ids(set: Option<Vec<NonFungibleLocalId>>) -> Seq<NonFungibleLocalId> {
    match set {
        Some(v) => v@,
        None => Seq::empty(),
    }
}

/// An optional count, absent counting as zero.
pub open spec fn option_count(n: Option<u64>) -> int {
    match n {
        Some(v) => v as int,
        None => 0,
    }
}

/// The ids of an optional id set, absent counting as empty.
pub fn option_set_length(set: &Option<Vec<NonFungibleLocalId>>) -> (r: usize)
    ensures
        r == option_set_len(*set),
{
    match set {
        Some(v) => v.len(),
        None => 0,
    }
}

/// A fresh vector with the same ids.
pub fn copy_ids(v: &Vec<NonFungibleLocalId>) -> (r: Vec<NonFungibleLocalId>)
    ensures
        r@ == v@,
{
    let mut r: Vec<NonFungibleLocalId> = Vec::new();
    let mut i: usize = 0;
    while i < v.len()
        invariant
            i <= v@.len(),
            r@ == v@.subrange(0, i as int),
        decreases v.len() - i,
    {
        r.push(v[i]);
        i = i + 1;
        assert(r@ =~= v@.subrange(0, i as int));
    }
    assert(v@.subrange(0, v@.len() as int) =~= v@);
    r
}

/// A general way of saying how many tokens are wanted: *either* an amount
/// of a fungible *or* non-fungibles, depending on the resource it is paired
/// with.
#[derive(Clone, Debug, PartialEq, Eq)]
pub enum TokenQuantity {
    /// This exact amount of a fungible token.
    Fungible(Decimal),
    /// Non-fungible tokens: a set of named local ids and/or a number of
    /// arbitrarily chosen others. Both in use ask for their sum, so
    /// `NonFungible(Some([1, 2, 3]), Some(5))` asks for ids 1, 2 and 3 plus
    /// five other tokens of the same resource.
    NonFungible(Option<Vec<NonFungibleLocalId>>, Option<u64>),
}

/// The mathematical content of a `TokenQuantity`.
pub enum QuantityModel {
    Fungible(int),
    NonFungible(Option<Seq<NonFungibleLocalId>>, Option<u64>),
}

/// The ids of an optional id set, absent counting as empty.
pub open spec fn model_ids(set: Option<Seq<NonFungibleLocalId>>) -> Seq<NonFungibleLocalId> {
    match set {
        Some(v) => v,
        None => Seq::empty(),
    }
}

impl QuantityModel {
    /// The named ids (none for a fungible quantity).
    pub open spec fn named(self) -> Seq<NonFungibleLocalId> {
        match self {
            QuantityModel::Fungible(_) => Seq::empty(),
            QuantityModel::NonFungible(set, _) => model_ids(set),
        }
    }

    /// The arbitrary part in attos: the fungible amount, or the count of
    /// arbitrary non-fungibles.
    pub open spec fn arbitrary(self) -> int {
        match self {
            QuantityModel::Fungible(d) => d,
            QuantityModel::NonFungible(_, n) => option_count(n) * one(),
        }
    }

    /// How many tokens are asked for in all, in attos.
    pub open spec fn total(self) -> int {
        self.arbitrary() + self.named().len() * one()
    }
}

/// The model of an optional id set.
pub open spec fn option_set_model(set: Option<Vec<NonFungibleLocalId>>) -> Option<
    Seq<NonFungibleLocalId>,
> {
    match set {
        Some(v) => Some(v@),
        None => None,
    }
}

impl View for TokenQuantity {
    type V = QuantityModel;

    open spec fn view(&self) -> QuantityModel {
        match self {
            TokenQuantity::Fungible(d) => QuantityModel::Fungible(d@),
            TokenQuantity::NonFungible(set, n) => QuantityModel::NonFungible(
                option_set_model(*set),
                *n,
            ),
        }
    }
}

/// The model of an optional decimal.
pub open spec fn option_decimal_model(d: Option<Decimal>) -> Option<int> {
    match d {
        Some(d) => Some(d@),
        None => None,
    }
}

/// The named ids of a quantity, where it has an id set.
pub open spec fn named_part(q: QuantityModel) -> Option<Seq<NonFungibleLocalId>> {
    match q {
        QuantityModel::Fungible(_) => None,
        QuantityModel::NonFungible(set, _) => set,
    }
}

/// The arbitrary part of a quantity in attos, where it has one.
pub open spec fn arbitrary_part(q: QuantityModel) -> Option<int> {
    match q {
        QuantityModel::Fungible(d) => Some(d),
        QuantityModel::NonFungible(_, Some(n)) => Some(n * one()),
        QuantityModel::NonFungible(_, None) => None,
    }
}

/// The model of an optional quantity.
pub open spec fn option_quantity_model(q: Option<TokenQuantity>) -> Option<QuantityModel> {
    match q {
        Some(q) => Some(q@),
        None => None,
    }
}

impl TokenQuantity {
    /// A fresh quantity with the same content.
    pub fn duplicate(&self) -> (r: TokenQuantity)
        ensures
            r@ == self@,
    {
        match self {
            TokenQuantity::Fungible(d) => TokenQuantity::Fungible(*d),
            TokenQuantity::NonFungible(set, n) => {
                let ids = match set {
                    Some(v) => Some(copy_ids(v)),
                    None => None,
                };
                TokenQuantity::NonFungible(ids, *n)
            },
        }
    }

    /// The named ids form a set: no id appears twice.
    pub open spec fn wf(&self) -> bool {
        match self {
            TokenQuantity::Fungible(_) => true,
            TokenQuantity::NonFungible(set, _) => option_set_ids(*set).no_duplicates(),
        }
    }

    /// The named ids (none for a fungible quantity).
    pub open spec fn named_ids(&self) -> Seq<NonFungibleLocalId> {
        match self {
            TokenQuantity::Fungible(_) => Seq::empty(),
            TokenQuantity::NonFungible(set, _) => option_set_ids(*set),
        }
    }

    /// The arbitrary part in attos: the fungible amount, or the count of
    /// arbitrary non-fungibles.
    pub open spec fn arbitrary(&self) -> int {
        match self {
            TokenQuantity::Fungible(d) => d@,
            TokenQuantity::NonFungible(_, n) => option_count(*n) * one(),
        }
    }

    /// How many tokens are asked for in all, in attos.
    pub open spec fn total(&self) -> int {
        match self {
            TokenQuantity::Fungible(d) => d@,
            TokenQuantity::NonFungible(set, n) => (option_count(*n) + option_set_len(*set))
                * one(),
        }
    }

    /// True if this quantity asks for no tokens at all.
    pub fn is_zero(&self) -> (r: bool)
        ensures
            r == (self.total() == 0),
    {
        match self {
            TokenQuantity::Fungible(price) => price.is_zero(),
            TokenQuantity::NonFungible(set, amount) => {
                let n: u64 = match amount {
                    Some(v) => *v,
                    None => 0,
                };
                n == 0 && option_set_length(set) == 0
            },
        }
    }

    /// How many tokens are asked for in all.
    pub fn to_amount(&self) -> (r: Decimal)
        ensures
            r@ == self.total(),
    {
        match self {
            TokenQuantity::Fungible(price) => *price,
            TokenQuantity::NonFungible(set, amount) => {
                let n: u64 = match amount {
                    Some(v) => *v,
                    None => 0,
                };
                let len = option_set_length(set) as u64;
                let count = n as i128 + len as i128;
                assert(count * one() <= 2 * u64::MAX * one()) by (nonlinear_arith)
                    requires
                        0 <= count <= 2 * u64::MAX,
                ;
                Decimal { attos: count * 1_000_000_000_000_000_000i128 }
            },
        }
    }

    /// The named ids and the arbitrary amount, each where present: the
    /// amount of a fungible quantity, or the count of a non-fungible one as
    /// a decimal.
    pub fn extract_max_values(&self) -> (r: (Option<Vec<NonFungibleLocalId>>, Option<Decimal>))
        ensures
            option_set_model(r.0) == named_part(self@),
            option_decimal_model(r.1) == arbitrary_part(self@),
            option_set_ids(r.0) == self.named_ids(),
            r.0 is Some <==> (self matches TokenQuantity::NonFungible(Some(_), _)),
            r.1 is Some <==> (self is Fungible || self matches TokenQuantity::NonFungible(
                _,
                Some(_),
            )),
            r.1 matches Some(d) ==> d@ == self.arbitrary(),
    {
        match self {
            TokenQuantity::Fungible(price) => (None, Some(*price)),
            TokenQuantity::NonFungible(set, amount) => {
                let ids = match set {
                    Some(v) => Some(copy_ids(v)),
                    None => None,
                };
                let n = match amount {
                    Some(v) => Some(Decimal::from_u64(*v)),
                    None => None,
                };
                (ids, n)
            },
        }
    }

    /// Whether every (resource, quantity) pair is consistent: a fungible
    /// quantity only with a fungible resource and never negative, a
    /// non-fungible quantity only with a non-fungible resource.
    pub fn check_token_quantity_sanity(map: &Vec<(ResourceAddress, TokenQuantity)>) -> (r: bool)
        ensures
            r == forall|i: int| 0 <= i < map@.len() ==> quantity_sane(map@[i].0, map@[i].1),
    {
        let mut i: usize = 0;
        while i < map.len()
            invariant
                i <= map@.len(),
                forall|j: int| 0 <= j < i ==> quantity_sane(map@[j].0, map@[j].1),
            decreases map.len() - i,
        {
            let (resaddr, ask) = &map[i];
            let fung_res = resaddr.is_fungible();
            let ok = match ask {
                TokenQuantity::Fungible(amount) => fung_res && !amount.is_negative(),
                TokenQuantity::NonFungible(_, _) => !fung_res,
            };
            if !ok {
                return false;
            }
            i = i + 1;
        }
        true
    }
}

/// A quantity fits the fungibility of its resource and is not negative.
pub open spec fn quantity_sane(res: ResourceAddress, q: TokenQuantity) -> bool {
    match q {
        TokenQuantity::Fungible(a) => res.fungible && a@ >= 0,
        TokenQuantity::NonFungible(_, _) => !res.fungible,
    }
}

} // verus!
