//! Properties that hold across the library's operations.
use vstd::prelude::*;
use crate::address::{
    NonFungibleGlobalId,
    NonFungibleLocalId,
    ResourceAddress,
    includes,
    lemma_without_contains,
    lemma_without_len,
    lemma_without_len_common,
    without,
};
use crate::allowance::{
    AllowanceLifeCycle,
    AllowanceModel,
    accumulated,
    consume_error,
    consumed,
    counted_take,
    exhausted,
};
use crate::address::ComponentAddress;
use crate::bucket::{Bucket, lemma_taken_split};
use crate::decimal::{lemma_whole_units, one};
use crate::escrow::{Escrow, badge_of, took};
use crate::table::lemma_lookup_at;
use crate::token_quantity::{arbitrary_part, named_part};
use crate::token_quantity::{QuantityModel, model_ids, option_count};

verus! {

/// Conservation: when a withdrawal of `q` succeeds and the recipient adds
/// what came out to a holding of theirs, the pool holds exactly `q`'s total
/// less and the holding exactly `q`'s total more, for fungible and
/// non-fungible resources alike.
pub proof fn lemma_withdrawal_conserves(
    before: Escrow,
    after: Escrow,
    owner: NonFungibleGlobalId,
    resource: ResourceAddress,
    q: QuantityModel,
    taken: Bucket,
    holding_before: Bucket,
    holding_after: Bucket,
)
    requires
        took(before, after, owner, resource, q, taken),
        holding_after.amount@ == holding_before.amount@ + taken.amount@,
    ensures
        before.balance(owner, resource) - after.balance(owner, resource) == q.total(),
        holding_after.amount@ - holding_before.amount@ == q.total(),
{
}

/// Allowance monotonicity: a use of an accumulating allowance never raises
/// what remains, and burns it exactly when what remains reaches zero; one
/// without a limit stays as it is.
pub proof fn lemma_accumulating_never_grows(
    d: AllowanceModel,
    component: ComponentAddress,
    q: QuantityModel,
    now: i64,
)
    requires
        d.life_cycle == AllowanceLifeCycle::Accumulating,
        consume_error(d, component, q, now) is None,
    ensures
        d.max_amount is None ==> consumed(d, q, now) == Some(d),
        d.max_amount is Some ==> ({
            let m = d.max_amount.unwrap();
            let left = accumulated(m, q);
            &&& 0 <= left.total() <= m.total()
            &&& (consumed(d, q, now) is None <==> left.total() == 0)
            &&& consumed(d, q, now) matches Some(d2) ==> d2.max_amount == Some(left)
        }),
{
    if d.max_amount is Some {
        let m = d.max_amount.unwrap();
        let left = accumulated(m, q);
        assert(q.arbitrary() >= 0);
        assert(q.named().len() * one() >= 0);
        match m {
            QuantityModel::Fungible(a) => {},
            QuantityModel::NonFungible(ids, n) => {
                let c = counted_take(ids, q);
                lemma_without_contains(q.named(), model_ids(ids));
                assert(without(q.named(), model_ids(ids)).len() * one() >= 0);
                lemma_whole_units(c, option_count(n));
                match ids {
                    Some(s) => {
                        lemma_without_contains(s, q.named());
                    },
                    None => {},
                }
                let new_ids = match ids {
                    Some(s) => Some(without(s, q.named())),
                    None => None,
                };
                assert(model_ids(new_ids).len() <= model_ids(ids).len());
                let new_n = match n {
                    Some(cn) => Some((cn - c / one()) as u64),
                    None => None,
                };
                assert(option_count(new_n) <= option_count(n));
                assert(option_count(new_n) >= 0);
                assert(left == QuantityModel::NonFungible(new_ids, new_n));
                assert(left.total() == option_count(new_n) * one() + model_ids(new_ids).len() * one());
                assert(m.total() == option_count(n) * one() + model_ids(ids).len() * one());
                assert(option_count(new_n) * one() <= option_count(n) * one()) by (nonlinear_arith)
                    requires
                        option_count(new_n) <= option_count(n),
                ;
                assert(model_ids(new_ids).len() * one() <= model_ids(ids).len() * one())
                    by (nonlinear_arith)
                    requires
                        model_ids(new_ids).len() <= model_ids(ids).len(),
                ;
                assert(option_count(new_n) * one() >= 0) by (nonlinear_arith)
                    requires
                        option_count(new_n) >= 0,
                ;
                assert(exhausted(left) <==> left.total() == 0) by (nonlinear_arith)
                    requires
                        option_count(new_n) >= 0,
                        left.total() == option_count(new_n) * 1_000_000_000_000_000_000
                            + model_ids(new_ids).len() * 1_000_000_000_000_000_000,
                        exhausted(left) <==> (option_count(new_n) == 0 && model_ids(new_ids).len()
                            == 0),
                ;
            },
        }
    }
}

/// Named-id precedence: taking a non-fungible quantity with named ids and
/// a count `k` from distinct held ids removes exactly the named ids and `k`
/// others, none of them named and none counted twice.
pub proof fn lemma_named_ids_first(
    held: Seq<NonFungibleLocalId>,
    named: Seq<NonFungibleLocalId>,
    k: int,
)
    requires
        held.no_duplicates(),
        named.no_duplicates(),
        includes(held, named),
        0 <= k <= held.len() - named.len(),
    ensures
        ({
            let taken = named + without(held, named).subrange(0, k);
            &&& taken.len() == named.len() + k
            &&& taken.no_duplicates()
            &&& taken.subrange(0, named.len() as int) == named
            &&& forall|j: int|
                named.len() <= j < taken.len() ==> !named.contains(#[trigger] taken[j])
                    && held.contains(taken[j])
            &&& without(held, taken).len() == held.len() - named.len() - k
        }),
{
    let rest = without(held, named);
    let taken = named + rest.subrange(0, k);
    lemma_without_len(held, named);
    lemma_without_contains(held, named);
    lemma_taken_split(held, named, k);
    assert(taken.subrange(0, named.len() as int) =~= named);
    assert forall|j: int| named.len() <= j < taken.len() implies !named.contains(
        #[trigger] taken[j],
    ) && held.contains(taken[j]) by {
        assert(taken[j] == rest[j - named.len()]);
        assert(rest.contains(rest[j - named.len()]));
    }
}


/// Named-id precedence, on the allowance side: each use of an accumulating
/// allowance with a limit lowers what remains by exactly the quantity's
/// total. A named id that the allowance also names leaves its id set and
/// is not counted against its count as well.
pub proof fn lemma_accumulating_counts_once(
    d: AllowanceModel,
    component: ComponentAddress,
    q: QuantityModel,
    now: i64,
)
    requires
        d.life_cycle == AllowanceLifeCycle::Accumulating,
        d.max_amount is Some,
        consume_error(d, component, q, now) is None,
        q.named().no_duplicates(),
        model_ids(crate::token_quantity::named_part(d.max_amount.unwrap())).no_duplicates(),
    ensures
        accumulated(d.max_amount.unwrap(), q).total() == d.max_amount.unwrap().total() - q.total(),
{
    let m = d.max_amount.unwrap();
    match m {
        QuantityModel::Fungible(_) => {},
        QuantityModel::NonFungible(ids, n) => {
            let named = q.named();
            let s = model_ids(ids);
            let c = counted_take(ids, q);
            lemma_without_contains(named, s);
            assert(without(named, s).len() * one() >= 0);
            lemma_whole_units(c, option_count(n));
            lemma_without_len_common(named, s);
            let common = named.to_set().intersect(s.to_set()).len();
            assert(named.to_set().intersect(s.to_set()) =~= s.to_set().intersect(named.to_set()));
            let new_ids = match ids {
                Some(v) => Some(without(v, named)),
                None => None,
            };
            match ids {
                Some(v) => {
                    lemma_without_len_common(v, named);
                },
                None => {
                    assert(s.to_set().intersect(named.to_set()) =~= Set::empty());
                    assert(model_ids(new_ids).len() == 0);
                },
            }
            assert(model_ids(new_ids).len() == s.len() - common);
            assert(without(named, s).len() == named.len() - common);
            let units = c / one();
            assert(units == q.arbitrary() / one() + named.len() - common) by {
                assert(c == q.arbitrary() + (named.len() - common) * one());
                assert(q.arbitrary() == option_count(
                    match q {
                        QuantityModel::NonFungible(_, k) => k,
                        QuantityModel::Fungible(_) => None,
                    },
                ) * one() || q is Fungible);
                vstd::arithmetic::div_mod::lemma_fundamental_div_mod(c, one());
                vstd::arithmetic::div_mod::lemma_fundamental_div_mod(q.arbitrary(), one());
                assert(q.arbitrary() % one() == 0) by {
                    vstd::arithmetic::div_mod::lemma_mod_multiples_vanish(
                        named.len() - common,
                        q.arbitrary(),
                        one(),
                    );
                }
                assert(c == (q.arbitrary() / one() + named.len() - common) * one()) by (nonlinear_arith)
                    requires
                        c == q.arbitrary() + (named.len() - common) * one(),
                        q.arbitrary() == one() * (q.arbitrary() / one()),
                ;
                vstd::arithmetic::div_mod::lemma_div_multiples_vanish(
                    q.arbitrary() / one() + named.len() - common,
                    one(),
                );
            }
            let new_n = match n {
                Some(cn) => Some((cn - units) as u64),
                None => None,
            };
            assert(accumulated(m, q) == QuantityModel::NonFungible(new_ids, new_n));
            match n {
                Some(cn) => {
                    assert(option_count(new_n) == cn - units);
                },
                None => {
                    assert(units == 0);
                },
            }
            assert(q.total() == q.arbitrary() + named.len() * one());
            assert(q.arbitrary() == (q.arbitrary() / one()) * one()) by (nonlinear_arith)
                requires
                    q.arbitrary() == one() * (q.arbitrary() / one()),
            ;
            assert(accumulated(m, q).total() == m.total() - q.total()) by (nonlinear_arith)
                requires
                    accumulated(m, q).total() == option_count(new_n) * one() + model_ids(
                        new_ids,
                    ).len() * one(),
                    m.total() == option_count(n) * one() + s.len() * one(),
                    option_count(new_n) == option_count(n) - units,
                    units == q.arbitrary() / one() + named.len() - common,
                    model_ids(new_ids).len() == s.len() - common,
                    q.total() == (q.arbitrary() / one()) * one() + named.len() * one(),
            ;
        },
    }
}


/// A deposit of a fungible resource with an allowance request, not
/// insisting on the allowance, is refused for no reason of trust: where a
/// pool can exist and the sum stays in range, it is accepted whether or not
/// the requestor is trusted, an allowance id being left where it is.
pub proof fn lemma_deposit_with_request_accepted(
    e: Escrow,
    owner: NonFungibleGlobalId,
    funds: Bucket,
    requestor: NonFungibleGlobalId,
)
    requires
        e.wf(),
        funds.wf(),
        funds.resource.fungible,
        e.pool_possible(owner),
        e.vault(owner, funds.resource) matches Some(v) ==> v.amount@ + funds.amount@ <= i128::MAX,
        e.trusts(owner, requestor) ==> e.next_allowance_id < u64::MAX,
    ensures
        e.deposit_error(owner, funds, Some(requestor), false) is None,
{
    if e.vault(owner, funds.resource) is Some {
        let v = e.vault(owner, funds.resource).unwrap();
        let j = choose|j: int| 0 <= j < e.vaults@.len() && e.vaults@[j].0 == (owner, funds.resource);
        lemma_lookup_at(e.vaults@, j);
        assert(v.resource == funds.resource);
        assert forall|x: NonFungibleLocalId| v.ids@.contains(x) implies !funds.ids@.contains(x) by {}
    }
}

/// A withdrawal through an allowance goes through where the allowance
/// admits the use, belongs to the pool it names, and that pool's vault can
/// supply the quantity.
pub proof fn lemma_allowance_withdrawal_accepted(
    e: Escrow,
    allowance: Bucket,
    q: QuantityModel,
    now: i64,
)
    requires
        badge_of(allowance) is Some,
        e.allowance(badge_of(allowance).unwrap()) is Some,
        consume_error(e.allowance(badge_of(allowance).unwrap()).unwrap(), e.component, q, now)
            is None,
        e.pool_badge(e.allowance(badge_of(allowance).unwrap()).unwrap().escrow_pool.1) == Some(
            allowance.resource,
        ),
        e.vault(
            e.allowance(badge_of(allowance).unwrap()).unwrap().escrow_pool.1,
            e.allowance(badge_of(allowance).unwrap()).unwrap().for_resource,
        ) is Some,
        e.vault(
            e.allowance(badge_of(allowance).unwrap()).unwrap().escrow_pool.1,
            e.allowance(badge_of(allowance).unwrap()).unwrap().for_resource,
        ).unwrap().can_supply(named_part(q), arbitrary_part(q)),
    ensures
        e.allowance_error(allowance, q, now, false) is None,
{
}

} // verus!
