//! Allowances: bearer permissions to withdraw bounded quantities from a
//! pool, and the rules by which using one validates, accounts and retires
//! it.
use vstd::prelude::*;
use crate::address::{
    ComponentAddress,
    NonFungibleGlobalId,
    ResourceAddress,
    ids_without,
    without,
};
use crate::decimal::{Decimal, one};
use crate::error::EscrowError;
use crate::token_quantity::{
    QuantityModel,
    TokenQuantity,
    model_ids,
    option_count,
    option_quantity_model,
};
use vstd::arithmetic::div_mod::lemma_fundamental_div_mod_converse;

verus! {

/// How an allowance behaves when it is used more than once.
#[derive(Clone, Copy, Debug, PartialEq, Eq, Structural)]
pub enum AllowanceLifeCycle {
    /// Burnt after its first use.
    OneOff,
    /// Each use reduces what remains; burnt when nothing remains. Without a
    /// limit nothing is reduced and it is never burnt.
    Accumulating,
    /// Usable any number of times, each time for up to what it allows, and
    /// not again until `min_delay` seconds have passed. Never burnt here.
    Repeating { min_delay: Option<i64> },
}

/// The data of an allowance token.
#[derive(Debug, PartialEq, Eq)]
pub struct AllowanceNfData {
    /// The escrow component and the owner of the pool this allowance draws on.
    pub escrow_pool: (ComponentAddress, NonFungibleGlobalId),
    /// If set, the latest time at which the allowance can be used.
    pub valid_until: Option<i64>,
    /// The earliest time at which the allowance can be used; for a
    /// `Repeating` allowance with a delay, also the time of the next use.
    pub valid_from: i64,
    /// What happens on use.
    pub life_cycle: AllowanceLifeCycle,
    /// The resource this allowance is for.
    pub for_resource: ResourceAddress,
    /// What may still be taken; `None` for no limit.
    pub max_amount: Option<TokenQuantity>,
}

/// The mathematical content of an `AllowanceNfData`.
pub struct AllowanceModel {
    pub escrow_pool: (ComponentAddress, NonFungibleGlobalId),
    pub valid_until: Option<i64>,
    pub valid_from: i64,
    pub life_cycle: AllowanceLifeCycle,
    pub for_resource: ResourceAddress,
    pub max_amount: Option<QuantityModel>,
}

impl View for AllowanceNfData {
    type V = AllowanceModel;

    open spec fn view(&self) -> AllowanceModel {
        AllowanceModel {
            escrow_pool: self.escrow_pool,
            valid_until: self.valid_until,
            valid_from: self.valid_from,
            life_cycle: self.life_cycle,
            for_resource: self.for_resource,
            max_amount: option_quantity_model(self.max_amount),
        }
    }
}

/// The model of an optional allowance.
pub open spec fn option_allowance_model(a: Option<AllowanceNfData>) -> Option<AllowanceModel> {
    match a {
        Some(a) => Some(a@),
        None => None,
    }
}

/// `now` lies within the allowance's validity window, both ends included.
pub open spec fn in_window(d: AllowanceModel, now: i64) -> bool {
    d.valid_from <= now && match d.valid_until {
        Some(u) => now <= u,
        None => true,
    }
}

/// What a use of a non-fungible allowance counts against its numeric cap,
/// in attos: the arbitrary part, plus the named ids that are not already in
/// the allowance's own id set (those are approved by name).
pub open spec fn counted_take(max_ids: Option<Seq<crate::address::NonFungibleLocalId>>, q: QuantityModel) -> int {
    q.arbitrary() + without(q.named(), model_ids(max_ids)).len() * one()
}

/// The allowance covers the quantity.
pub open spec fn covers(max: Option<QuantityModel>, q: QuantityModel) -> bool {
    match max {
        None => true,
        Some(QuantityModel::Fungible(m)) => q.total() <= m,
        Some(QuantityModel::NonFungible(ids, n)) => counted_take(ids, q) <= option_count(n) * one(),
    }
}

/// Why using the allowance `d` for `q` at `now` through `component` is
/// refused, checked in this order; `None` where it is not.
pub open spec fn consume_error(
    d: AllowanceModel,
    component: ComponentAddress,
    q: QuantityModel,
    now: i64,
) -> Option<EscrowError> {
    if d.escrow_pool.0 != component {
        Some(EscrowError::NotForThisEscrow)
    } else if now < d.valid_from {
        Some(EscrowError::NotYetValid)
    } else if d.valid_until matches Some(u) && now > u {
        Some(EscrowError::NoLongerValid)
    } else if !covers(d.max_amount, q) {
        match d.max_amount {
            Some(QuantityModel::NonFungible(_, _)) => Some(
                EscrowError::InsufficientNonFungibleAllowance,
            ),
            _ => Some(EscrowError::InsufficientFungibleAllowance),
        }
    } else if q.arbitrary() < 0 {
        Some(EscrowError::InsufficientFunds)
    } else if d.life_cycle == AllowanceLifeCycle::Accumulating && (d.max_amount matches Some(
        QuantityModel::NonFungible(ids, _),
    ) && counted_take(ids, q) % one() != 0) {
        Some(EscrowError::TakeNotWhole)
    } else if d.life_cycle matches AllowanceLifeCycle::Repeating { min_delay: Some(delay) } && !(
    i64::MIN <= now + delay <= i64::MAX) {
        Some(EscrowError::Overflow)
    } else {
        None
    }
}

/// What remains of a non-fungible allowance after a use: the named ids
/// leave its id set, and what counted against its cap leaves its count.
pub open spec fn reduced_non_fungible(
    ids: Option<Seq<crate::address::NonFungibleLocalId>>,
    n: Option<u64>,
    q: QuantityModel,
) -> QuantityModel {
    QuantityModel::NonFungible(
        match ids {
            Some(s) => Some(without(s, q.named())),
            None => None,
        },
        match n {
            Some(c) => Some((c - counted_take(ids, q) / one()) as u64),
            None => None,
        },
    )
}

/// A quantity with nothing left in it.
pub open spec fn exhausted(q: QuantityModel) -> bool {
    match q {
        QuantityModel::Fungible(m) => m == 0,
        QuantityModel::NonFungible(ids, n) => option_count(n) == 0 && model_ids(ids).len() == 0,
    }
}

/// What remains of an accumulating allowance's maximum `max` after a use
/// for `q`.
pub open spec fn accumulated(max: QuantityModel, q: QuantityModel) -> QuantityModel {
    match max {
        QuantityModel::Fungible(m) => QuantityModel::Fungible(m - q.total()),
        QuantityModel::NonFungible(ids, n) => reduced_non_fungible(ids, n, q),
    }
}

/// The allowance after a use for `q` at `now`; `None` where the use burns it.
pub open spec fn consumed(d: AllowanceModel, q: QuantityModel, now: i64) -> Option<AllowanceModel> {
    match d.life_cycle {
        AllowanceLifeCycle::OneOff => None,
        AllowanceLifeCycle::Accumulating => match d.max_amount {
            None => Some(d),
            Some(m) => {
                let left = accumulated(m, q);
                if exhausted(left) {
                    None
                } else {
                    Some(AllowanceModel { max_amount: Some(left), ..d })
                }
            },
        },
        AllowanceLifeCycle::Repeating { min_delay } => match min_delay {
            Some(delay) => Some(AllowanceModel { valid_from: (now + delay) as i64, ..d }),
            None => Some(d),
        },
    }
}

impl AllowanceNfData {
    /// Whether the allowance can be used at `now`.
    pub fn is_valid(&self, now: i64) -> (r: bool)
        ensures
            r == in_window(self@, now),
    {
        self.valid_from <= now && match self.valid_until {
            Some(u) => now <= u,
            None => true,
        }
    }
}

/// The sum of an amount and a count of tokens, or `None` where it exceeds
/// the decimal range.
fn amount_plus_count(amount: Decimal, count: usize) -> (r: Option<Decimal>)
    ensures
        r is Some <==> amount@ + count * one() <= i128::MAX,
        r matches Some(d) ==> d@ == amount@ + count * one(),
{
    assert(count * one() <= u64::MAX * one()) by (nonlinear_arith)
        requires
            count <= u64::MAX,
    ;
    let c = Decimal { attos: (count as i128) * 1_000_000_000_000_000_000i128 };
    if amount.attos >= 0 {
        amount.checked_add(c)
    } else {
        Some(Decimal { attos: amount.attos + c.attos })
    }
}

/// Validates one use of an allowance for `quantity` at `now` by the escrow
/// `component`, and accounts for it. Returns the owner of the pool it draws
/// on, the resource to take, and the allowance as it stands afterwards
/// (`None` where the use burns it). Moves no tokens: the caller takes them
/// from the pool.
pub fn consume(
    data: &AllowanceNfData,
    component: ComponentAddress,
    quantity: &TokenQuantity,
    now: i64,
) -> (r: Result<(NonFungibleGlobalId, ResourceAddress, Option<AllowanceNfData>), EscrowError>)
    ensures
        match r {
            Err(e) => consume_error(data@, component, quantity@, now) == Some(e),
            Ok((owner, resource, o)) => {
                &&& consume_error(data@, component, quantity@, now) is None
                &&& owner == data.escrow_pool.1
                &&& resource == data.for_resource
                &&& option_allowance_model(o) == consumed(data@, quantity@, now)
            },
        },
{
    match next_state(data, component, quantity, now) {
        Err(e) => Err(e),
        Ok(o) => Ok((data.escrow_pool.1, data.for_resource, o)),
    }
}

/// The allowance after one use for `quantity` at `now` by `component`, or
/// why the use is refused.
fn next_state(
    data: &AllowanceNfData,
    component: ComponentAddress,
    quantity: &TokenQuantity,
    now: i64,
) -> (r: Result<Option<AllowanceNfData>, EscrowError>)
    ensures
        match r {
            Err(e) => consume_error(data@, component, quantity@, now) == Some(e),
            Ok(o) => consume_error(data@, component, quantity@, now) is None
                && option_allowance_model(o) == consumed(data@, quantity@, now),
        },
{
    if data.escrow_pool.0 != component {
        return Err(EscrowError::NotForThisEscrow);
    }
    if now < data.valid_from {
        return Err(EscrowError::NotYetValid);
    }
    match data.valid_until {
        Some(u) => {
            if now > u {
                return Err(EscrowError::NoLongerValid);
            }
        },
        None => {},
    }
    let (take_ids, take_amount) = quantity.extract_max_values();
    let arbitrary = match take_amount {
        Some(a) => a,
        None => Decimal::zero(),
    };
    let named = match take_ids {
        Some(v) => v,
        None => Vec::new(),
    };
    assert(named@ == quantity@.named());
    assert(arbitrary@ == quantity@.arbitrary());
    // The part of the withdrawal that counts against a non-fungible cap,
    // kept for the accounting below.
    let mut counted = Decimal::zero();
    match &data.max_amount {
        None => {},
        Some(TokenQuantity::Fungible(m)) => {
            match amount_plus_count(arbitrary, named.len()) {
                Some(total) => {
                    if !total.le(m) {
                        return Err(EscrowError::InsufficientFungibleAllowance);
                    }
                },
                None => {
                    return Err(EscrowError::InsufficientFungibleAllowance);
                },
            }
        },
        Some(TokenQuantity::NonFungible(max_ids, max_n)) => {
            let outside = match max_ids {
                Some(s) => ids_without(&named, s),
                None => ids_without(&named, &Vec::new()),
            };
            proof {
                assert(Seq::<crate::address::NonFungibleLocalId>::empty() =~= model_ids(None));
            }
            let cap = match max_n {
                Some(c) => Decimal::from_u64(*c),
                None => Decimal::zero(),
            };
            match amount_plus_count(arbitrary, outside.len()) {
                Some(t) => {
                    if !t.le(&cap) {
                        return Err(EscrowError::InsufficientNonFungibleAllowance);
                    }
                    counted = t;
                },
                None => {
                    return Err(EscrowError::InsufficientNonFungibleAllowance);
                },
            }
        },
    }
    if arbitrary.is_negative() {
        return Err(EscrowError::InsufficientFunds);
    }
    match data.life_cycle {
        AllowanceLifeCycle::OneOff => Ok(None),
        AllowanceLifeCycle::Accumulating => match &data.max_amount {
            None => Ok(
                Some(
                    AllowanceNfData {
                        escrow_pool: data.escrow_pool,
                        valid_until: data.valid_until,
                        valid_from: data.valid_from,
                        life_cycle: data.life_cycle,
                        for_resource: data.for_resource,
                        max_amount: None,
                    },
                ),
            ),
            Some(TokenQuantity::Fungible(m)) => {
                let left = m.attos - (arbitrary.attos + (named.len() as i128)
                    * 1_000_000_000_000_000_000i128);
                if left == 0 {
                    Ok(None)
                } else {
                    Ok(
                        Some(
                            AllowanceNfData {
                                escrow_pool: data.escrow_pool,
                                valid_until: data.valid_until,
                                valid_from: data.valid_from,
                                life_cycle: data.life_cycle,
                                for_resource: data.for_resource,
                                max_amount: Some(TokenQuantity::Fungible(Decimal { attos: left })),
                            },
                        ),
                    )
                }
            },
            Some(TokenQuantity::NonFungible(max_ids, max_n)) => {
                let units = match counted.to_whole_u64() {
                    Some(u) => u,
                    None => {
                        return Err(EscrowError::TakeNotWhole);
                    },
                };
                let new_n: Option<u64> = match max_n {
                    Some(c) => {
                        proof {
                            lemma_fundamental_div_mod_converse(counted@, one(), units as int, 0);
                            assert(units <= *c) by (nonlinear_arith)
                                requires
                                    units * 1_000_000_000_000_000_000 <= *c
                                        * 1_000_000_000_000_000_000,
                            ;
                        }
                        Some(*c - units)
                    },
                    None => {
                        proof {
                            assert(units == 0) by (nonlinear_arith)
                                requires
                                    units * 1_000_000_000_000_000_000 <= 0,
                                    units >= 0,
                            ;
                        }
                        None
                    },
                };
                let new_ids = match max_ids {
                    Some(s) => Some(ids_without(s, &named)),
                    None => None,
                };
                let n_left: u64 = match new_n {
                    Some(v) => v,
                    None => 0,
                };
                let ids_left: usize = match &new_ids {
                    Some(v) => v.len(),
                    None => 0,
                };
                proof {
                    lemma_fundamental_div_mod_converse(counted@, one(), units as int, 0);
                }
                if n_left == 0 && ids_left == 0 {
                    Ok(None)
                } else {
                    Ok(
                        Some(
                            AllowanceNfData {
                                escrow_pool: data.escrow_pool,
                                valid_until: data.valid_until,
                                valid_from: data.valid_from,
                                life_cycle: data.life_cycle,
                                for_resource: data.for_resource,
                                max_amount: Some(TokenQuantity::NonFungible(new_ids, new_n)),
                            },
                        ),
                    )
                }
            },
        },
        AllowanceLifeCycle::Repeating { min_delay } => {
            let valid_from = match min_delay {
                Some(delay) => match now.checked_add(delay) {
                    Some(t) => t,
                    None => {
                        return Err(EscrowError::Overflow);
                    },
                },
                None => data.valid_from,
            };
            let max_amount = match &data.max_amount {
                Some(q) => Some(q.duplicate()),
                None => None,
            };
            Ok(
                Some(
                    AllowanceNfData {
                        escrow_pool: data.escrow_pool,
                        valid_until: data.valid_until,
                        valid_from,
                        life_cycle: data.life_cycle,
                        for_resource: data.for_resource,
                        max_amount,
                    },
                ),
            )
        },
    }
}

} // verus!
