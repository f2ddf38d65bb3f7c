//! What a seller asks in payment: an amount of a fungible, or named
//! non-fungibles plus a number of arbitrary others.
use vstd::prelude::*;
use crate::address::{NonFungibleLocalId, ResourceAddress};
use crate::decimal::{Decimal, one};
use crate::token_quantity::{option_count, option_set_len, option_set_length};

verus! {

/// Asks for *either* an amount of a fungible *or* non-fungibles, depending
/// on the resource it is paired with.
#[derive(Clone, Debug, PartialEq, Eq)]
pub enum AskingType {
    /// This exact amount of a fungible token.
    Fungible(Decimal),
    /// A set of named local ids and/or a number of arbitrarily chosen other
    /// tokens of the same resource; both in use ask for their sum.
    NonFungible(Option<Vec<NonFungibleLocalId>>, Option<u64>),
}

impl AskingType {
    /// How many tokens are asked for in all, in attos.
    pub open spec fn total(&self) -> int {
        match self {
            AskingType::Fungible(d) => d@,
            AskingType::NonFungible(set, n) => (option_count(*n) + option_set_len(*set)) * one(),
        }
    }

    /// How many tokens are asked for in all.
    pub fn to_amount(&self) -> (r: Decimal)
        ensures
            r@ == self.total(),
    {
        match self {
            AskingType::Fungible(price) => *price,
            AskingType::NonFungible(set, amount) => {
                let n: u64 = match amount {
                    Some(v) => *v,
                    None => 0,
                };
                let len = option_set_length(set) as u64;
                let count = n as i128 + len as i128;
                assert(count * one() <= 2 * u64::MAX * one()) by (nonlinear_arith)
                    requires
                        0 <= count <= 2 * u64::MAX,
                ;
                Decimal { attos: count * 1_000_000_000_000_000_000i128 }
            },
        }
    }

    /// Whether every (resource, ask) pair is consistent: a fungible ask
    /// only with a fungible resource and never negative, a non-fungible ask
    /// only with a non-fungible resource.
    pub fn check_asking_map_sanity(map: &Vec<(ResourceAddress, AskingType)>) -> (r: bool)
        ensures
            r == forall|i: int| 0 <= i < map@.len() ==> asking_sane(map@[i].0, map@[i].1),
    {
        let mut i: usize = 0;
        while i < map.len()
            invariant
                i <= map@.len(),
                forall|j: int| 0 <= j < i ==> asking_sane(map@[j].0, map@[j].1),
            decreases map.len() - i,
        {
            let (resaddr, ask) = &map[i];
            let fung_res = resaddr.is_fungible();
            let ok = match ask {
                AskingType::Fungible(amount) => fung_res && !amount.is_negative(),
                AskingType::NonFungible(_, _) => !fung_res,
            };
            if !ok {
                return false;
            }
            i = i + 1;
        }
        true
    }
}

/// An ask fits the fungibility of its resource and is not negative.
pub open spec fn asking_sane(res: ResourceAddress, a: AskingType) -> bool {
    match a {
        AskingType::Fungible(d) => res.fungible && d@ >= 0,
        AskingType::NonFungible(_, _) => !res.fungible,
    }
}

} // verus!
