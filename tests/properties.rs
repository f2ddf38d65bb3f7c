use escrow::address::{ComponentAddress, NonFungibleGlobalId, NonFungibleLocalId, ResourceAddress};
use escrow::allowance::{consume, AllowanceLifeCycle, AllowanceNfData};
use escrow::asking_type::AskingType;
use escrow::bucket::Bucket;
use escrow::decimal::Decimal;
use escrow::error::EscrowError;
use escrow::escrow::Escrow;
use escrow::mock_dex::{DexError, MockDex};
use escrow::token_quantity::TokenQuantity;

const COMPONENT: ComponentAddress = ComponentAddress { id: 9 };

fn dec(n: u64) -> Decimal {
    Decimal::from_u64(n)
}

fn frac(num: u64, den: u64) -> Decimal {
    Decimal::from_u64(num).checked_div(Decimal::from_u64(den)).unwrap()
}

fn ids(v: &[u64]) -> Vec<NonFungibleLocalId> {
    v.iter().map(|n| NonFungibleLocalId::integer(*n)).collect()
}

fn owner() -> NonFungibleGlobalId {
    NonFungibleGlobalId::new(ResourceAddress::new(300, false), NonFungibleLocalId::integer(1))
}

fn asset() -> ResourceAddress {
    ResourceAddress::new(301, true)
}

fn badge_id(b: &Bucket) -> NonFungibleGlobalId {
    NonFungibleGlobalId::new(b.resource_address(), b.non_fungible_local_ids()[0])
}

fn funded_escrow(amount: u64) -> Escrow {
    let mut e = Escrow::instantiate_escrow(COMPONENT);
    e.deposit_funds(owner(), Bucket::new_fungible(asset(), dec(amount)), None, false).unwrap();
    e
}

#[test]
fn scenario_one_off_allowance() {
    let mut e = funded_escrow(1000);
    let a = e
        .mint_allowance(&owner(), None, 0, AllowanceLifeCycle::OneOff, asset(), Some(TokenQuantity::Fungible(dec(100))))
        .unwrap();
    let (got, back) = e.withdraw_with_allowance(a, &TokenQuantity::Fungible(dec(100)), 10).unwrap();
    assert!(back.is_none(), "a one-off allowance is destroyed after use");
    assert_eq!(dec(100), got.amount());
    assert_eq!(dec(900), e.read_funds(owner(), asset()));
}

#[test]
fn scenario_accumulating_allowance() {
    let mut e = funded_escrow(1000);
    let a = e
        .mint_allowance(&owner(), None, 0, AllowanceLifeCycle::Accumulating, asset(), Some(TokenQuantity::Fungible(dec(100))))
        .unwrap();
    let id = badge_id(&a);
    let (got, back) = e.withdraw_with_allowance(a, &TokenQuantity::Fungible(dec(40)), 10).unwrap();
    assert_eq!(dec(40), got.amount());
    let a = back.expect("the allowance still exists");
    assert_eq!(Some(dec(60)), e.allowance_data(&id).unwrap().max_amount.map(|q| q.to_amount()));
    let (got, back) = e.withdraw_with_allowance(a, &TokenQuantity::Fungible(dec(60)), 10).unwrap();
    assert_eq!(dec(60), got.amount());
    assert!(back.is_none(), "an exhausted accumulating allowance is destroyed");
    assert!(e.allowance_data(&id).is_none());
}

#[test]
fn scenario_repeating_allowance_with_delay() {
    let mut e = funded_escrow(5000);
    let t: i64 = 1000;
    let a = e
        .mint_allowance(&owner(), None, 0, AllowanceLifeCycle::Repeating { min_delay: Some(500) }, asset(), None)
        .unwrap();
    let (got, back) = e.withdraw_with_allowance(a, &TokenQuantity::Fungible(dec(1000)), t).unwrap();
    assert_eq!(dec(1000), got.amount());
    let a = back.expect("a repeating allowance is never destroyed");
    let (err, a) = e.withdraw_with_allowance(a, &TokenQuantity::Fungible(dec(1000)), t + 499).unwrap_err();
    assert_eq!(EscrowError::NotYetValid, err);
    assert_eq!(Some(2009), err.code());
    let (got, back) = e.withdraw_with_allowance(a, &TokenQuantity::Fungible(dec(1000)), t + 500).unwrap();
    assert_eq!(dec(1000), got.amount());
    assert!(back.is_some());
}

#[test]
fn scenario_deposit_with_allowance_request() {
    let mut e = funded_escrow(10);
    let depositor = NonFungibleGlobalId::new(ResourceAddress::new(400, false), NonFungibleLocalId::integer(7));
    let r = e.deposit_funds(owner(), Bucket::new_fungible(asset(), dec(1000)), Some(depositor), false).unwrap();
    assert!(r.is_none(), "an untrusted depositor gets no allowance");
    assert_eq!(dec(1010), e.read_funds(owner(), asset()));

    e.add_trusted_nfgid(&owner(), depositor).unwrap();
    assert!(e.is_nfgid_trusted(owner(), depositor));
    let a = e
        .deposit_funds(owner(), Bucket::new_fungible(asset(), dec(1000)), Some(depositor), false)
        .unwrap()
        .expect("a trusted depositor gets an allowance");
    assert_eq!(dec(2010), e.read_funds(owner(), asset()));
    let data = e.allowance_data(&badge_id(&a)).unwrap();
    assert_eq!(AllowanceLifeCycle::Accumulating, data.life_cycle);
    assert_eq!(None, data.valid_until);
    assert_eq!(Some(TokenQuantity::Fungible(dec(1000))), data.max_amount);

    e.remove_trusted_nfgid(&owner(), depositor).unwrap();
    assert!(!e.is_nfgid_trusted(owner(), depositor));
    let r = e.deposit_funds(owner(), Bucket::new_fungible(asset(), dec(5)), Some(depositor), false).unwrap();
    assert!(r.is_none());
}

#[test]
fn scenario_market_buy_partial_fill() {
    let meme = ResourceAddress::new(500, true);
    let mut dex = MockDex::instantiate_mock_dex(meme);
    let mut e = Escrow::instantiate_escrow(COMPONENT);
    let maker = owner();
    dex.limit_sell_direct(maker, dec(2), None, Bucket::new_fungible(meme, dec(10))).unwrap();
    dex.limit_sell_direct(maker, dec(1), None, Bucket::new_fungible(meme, dec(10))).unwrap();
    // 24 buys the 10 at 1 (10 spent), then 7 at 2 (14 spent).
    let (got, change) = dex
        .market_buy_direct(&mut e, None, None, Bucket::new_fungible(ResourceAddress::xrd(), dec(24)), 0)
        .unwrap();
    assert_eq!(dec(17), got.unwrap().amount());
    assert_eq!(Decimal::zero(), change.amount());
    assert_eq!(1, dex.sell_book.len(), "the cheaper offer is exhausted and gone");
    assert_eq!(dec(2), dex.sell_book[0].0);
    // 35 more buys the 3 left at 2 (6 spent); the book ends with 29 unspent.
    let (got, change) = dex
        .market_buy_direct(&mut e, None, None, Bucket::new_fungible(ResourceAddress::xrd(), dec(35)), 0)
        .unwrap();
    assert_eq!(dec(3), got.unwrap().amount());
    assert_eq!(dec(29), change.amount());
    assert!(dex.sell_book.is_empty());
}

#[test]
fn market_sell_walks_bids_from_the_highest() {
    let meme = ResourceAddress::new(500, true);
    let mut dex = MockDex::instantiate_mock_dex(meme);
    let mut e = Escrow::instantiate_escrow(COMPONENT);
    dex.limit_buy_direct(owner(), dec(1), None, Bucket::new_fungible(ResourceAddress::xrd(), dec(10))).unwrap();
    dex.limit_buy_direct(owner(), dec(2), None, Bucket::new_fungible(ResourceAddress::xrd(), dec(10))).unwrap();
    // 8 tokens: 5 fetch 10 at 2, then 3 fetch 3 at 1.
    let (got, unsold) = dex.market_sell_direct(&mut e, None, None, Bucket::new_fungible(meme, dec(8)), 0).unwrap();
    assert_eq!(dec(13), got.unwrap().amount());
    assert_eq!(Decimal::zero(), unsold.amount());
}

#[test]
fn dex_refuses_bad_orders() {
    let meme = ResourceAddress::new(500, true);
    let mut dex = MockDex::instantiate_mock_dex(meme);
    let mut e = Escrow::instantiate_escrow(COMPONENT);
    let (err, _) = dex.limit_buy_direct(owner(), dec(1), None, Bucket::new_fungible(meme, dec(1))).unwrap_err();
    assert_eq!(DexError::WrongResource, err);
    let (err, _) = dex.limit_sell_direct(owner(), Decimal::zero(), None, Bucket::new_fungible(meme, dec(1))).unwrap_err();
    assert_eq!(DexError::NonPositivePrice, err);
    let (err, _) = dex.limit_sell_with_escrow(owner(), dec(1), None, Bucket::new_fungible(meme, dec(2))).unwrap_err();
    assert_eq!(DexError::NotOneAllowance, err);
    let (err, _) = dex
        .market_buy_direct(&mut e, None, Some(COMPONENT), Bucket::new_fungible(ResourceAddress::xrd(), dec(1)), 0)
        .unwrap_err();
    assert_eq!(DexError::MissingTrader, err);
}

#[test]
fn withdrawal_conserves_amounts() {
    let mut e = funded_escrow(1000);
    let mut holding = Bucket::new(asset());
    let before = e.read_funds(owner(), asset());
    let got = e.withdraw(&owner(), asset(), &TokenQuantity::Fungible(dec(123))).unwrap();
    holding.put(got);
    assert_eq!(dec(123), holding.amount());
    assert_eq!(before.checked_sub(dec(123)).unwrap(), e.read_funds(owner(), asset()));
}

#[test]
fn accumulating_remaining_never_grows() {
    let data = AllowanceNfData {
        escrow_pool: (COMPONENT, owner()),
        valid_until: None,
        valid_from: 0,
        life_cycle: AllowanceLifeCycle::Accumulating,
        for_resource: asset(),
        max_amount: Some(TokenQuantity::Fungible(dec(50))),
    };
    let (pool_owner, resource, after) = consume(&data, COMPONENT, &TokenQuantity::Fungible(dec(20)), 1).unwrap();
    assert_eq!(owner(), pool_owner);
    assert_eq!(asset(), resource);
    let after = after.unwrap();
    assert_eq!(Some(dec(30)), after.max_amount.as_ref().map(|q| q.to_amount()));
    let (_, _, after2) = consume(&after, COMPONENT, &TokenQuantity::Fungible(dec(30)), 1).unwrap();
    assert!(after2.is_none(), "destroyed exactly at zero");
    assert_eq!(
        Err(EscrowError::InsufficientFungibleAllowance),
        consume(&data, COMPONENT, &TokenQuantity::Fungible(dec(51)), 1).map(|_| ())
    );
    assert_eq!(
        Err(EscrowError::NotForThisEscrow),
        consume(&data, ComponentAddress { id: 10 }, &TokenQuantity::Fungible(dec(1)), 1).map(|_| ())
    );
}

#[test]
fn reading_a_missing_pool_gives_zero() {
    let e = Escrow::instantiate_escrow(COMPONENT);
    assert_eq!(Decimal::zero(), e.read_funds(owner(), asset()));
    let e = funded_escrow(5);
    assert_eq!(Decimal::zero(), e.read_funds(owner(), ResourceAddress::new(999, true)));
}

#[test]
fn named_ids_are_taken_before_arbitrary_ones() {
    let res = ResourceAddress::new(600, false);
    let mut vault = Bucket::new_non_fungible(res, ids(&[1, 2, 3, 4, 5, 6]));
    let taken = vault.take_quantity(&Some(ids(&[2, 5])), &Some(dec(2)));
    assert_eq!(ids(&[2, 5, 1, 3]), taken.non_fungible_local_ids());
    assert_eq!(dec(4), taken.amount());
    assert_eq!(ids(&[4, 6]), vault.non_fungible_local_ids());
    assert_eq!(dec(2), vault.amount());
}

#[test]
fn named_ids_inside_an_allowance_do_not_count_twice() {
    let res = ResourceAddress::new(600, false);
    let data = AllowanceNfData {
        escrow_pool: (COMPONENT, owner()),
        valid_until: None,
        valid_from: 0,
        life_cycle: AllowanceLifeCycle::Accumulating,
        for_resource: res,
        max_amount: Some(TokenQuantity::NonFungible(Some(ids(&[7, 8])), Some(2))),
    };
    // #7 is pre-approved; #9 counts against the cap, as do the 1 arbitrary.
    let (_, _, after) = consume(&data, COMPONENT, &TokenQuantity::NonFungible(Some(ids(&[7, 9])), Some(1)), 1)
        .unwrap();
    let after = after.unwrap();
    assert_eq!(Some(TokenQuantity::NonFungible(Some(ids(&[8])), Some(0))), after.max_amount);
    let over = consume(&data, COMPONENT, &TokenQuantity::NonFungible(Some(ids(&[9])), Some(2)), 1);
    assert_eq!(Err(EscrowError::InsufficientNonFungibleAllowance), over.map(|_| ()));
}

#[test]
fn decimal_arithmetic_truncates() {
    assert_eq!(frac(11, 10), Decimal { attos: 1_100_000_000_000_000_000 });
    assert_eq!(Decimal { attos: 333_333_333_333_333_333 }, frac(1, 3));
    assert_eq!(Some(dec(6)), dec(2).checked_mul(dec(3)));
    assert_eq!(Some(Decimal { attos: 1 }), Decimal { attos: 1_000_000_000 }.checked_mul(Decimal { attos: 1_000_000_000 }));
    assert_eq!(Some(Decimal::zero()), Decimal { attos: 1 }.checked_mul(Decimal { attos: 1 }));
    assert_eq!(None, Decimal { attos: i128::MAX }.checked_mul(dec(2)));
    assert_eq!(None, Decimal { attos: i128::MAX }.checked_div(Decimal { attos: 1 }));
    assert_eq!(Some(dec(1000)), dec(10).checked_div(frac(1, 100)));
    assert_eq!(Some(7), dec(7).to_whole_u64());
    assert_eq!(None, frac(3, 2).to_whole_u64());
    assert_eq!(None, Decimal { attos: -1 }.to_whole_u64());
    assert_eq!(None, Decimal { attos: i128::MAX }.checked_add(Decimal { attos: 1 }));
}

#[test]
fn quantities_count_named_and_arbitrary_tokens() {
    let q = TokenQuantity::NonFungible(Some(ids(&[1, 2, 3])), Some(5));
    assert_eq!(dec(8), q.to_amount());
    assert!(!q.is_zero());
    assert!(TokenQuantity::NonFungible(None, Some(0)).is_zero());
    assert!(TokenQuantity::Fungible(Decimal::zero()).is_zero());
    let (named, amount) = q.extract_max_values();
    assert_eq!(Some(ids(&[1, 2, 3])), named);
    assert_eq!(Some(dec(5)), amount);
    let (named, amount) = TokenQuantity::Fungible(dec(4)).extract_max_values();
    assert_eq!(None, named);
    assert_eq!(Some(dec(4)), amount);

    let f = ResourceAddress::new(1, true);
    let nf = ResourceAddress::new(2, false);
    assert!(TokenQuantity::check_token_quantity_sanity(&vec![
        (f, TokenQuantity::Fungible(dec(1))),
        (nf, TokenQuantity::NonFungible(None, Some(1))),
    ]));
    assert!(!TokenQuantity::check_token_quantity_sanity(&vec![(nf, TokenQuantity::Fungible(dec(1)))]));
    assert!(!TokenQuantity::check_token_quantity_sanity(&vec![(f, TokenQuantity::Fungible(Decimal { attos: -1 }))]));
    assert!(!TokenQuantity::check_token_quantity_sanity(&vec![(f, TokenQuantity::NonFungible(None, None))]));

    assert_eq!(dec(4), AskingType::NonFungible(Some(ids(&[9])), Some(3)).to_amount());
    assert_eq!(dec(2), AskingType::Fungible(dec(2)).to_amount());
    assert!(AskingType::check_asking_map_sanity(&vec![(f, AskingType::Fungible(dec(1)))]));
    assert!(!AskingType::check_asking_map_sanity(&vec![(nf, AskingType::Fungible(dec(1)))]));
}

#[test]
fn escrow_errors_for_each_refusal() {
    let mut e = funded_escrow(10);
    let stranger = NonFungibleGlobalId::new(ResourceAddress::new(999, false), NonFungibleLocalId::integer(1));
    assert_eq!(Err(EscrowError::PoolNotFound), e.withdraw(&stranger, asset(), &TokenQuantity::Fungible(dec(1))).map(|_| ()));
    assert_eq!(
        Err(EscrowError::ResourceNotFound),
        e.withdraw(&owner(), ResourceAddress::new(5, true), &TokenQuantity::Fungible(dec(1))).map(|_| ())
    );
    assert_eq!(Err(EscrowError::InsufficientFunds), e.withdraw(&owner(), asset(), &TokenQuantity::Fungible(dec(11))).map(|_| ()));
    assert_eq!(
        Err(EscrowError::NegativeMaxAmount),
        e.mint_allowance(&owner(), None, 0, AllowanceLifeCycle::OneOff, asset(), Some(TokenQuantity::Fungible(Decimal { attos: -1 })))
            .map(|_| ())
    );
    let a = e.mint_allowance(&owner(), None, 0, AllowanceLifeCycle::OneOff, asset(), None).unwrap();
    let (err, _) = e.subsidize_with_allowance(a, dec(1), 0).unwrap_err();
    assert_eq!(EscrowError::OnlyFeeResource, err);
    let res = ResourceAddress::new(600, false);
    let (err, _) = e
        .deposit_funds(owner(), Bucket::new_non_fungible(res, ids(&[1])), None, false)
        .map(|_| ())
        .and_then(|_| e.deposit_funds(owner(), Bucket::new_non_fungible(res, ids(&[1])), None, false).map(|_| ()))
        .unwrap_err();
    assert_eq!(EscrowError::CannotDeposit, err);
    let until = e
        .mint_allowance(&owner(), Some(5), 0, AllowanceLifeCycle::OneOff, asset(), None)
        .unwrap();
    let (err, _) = e.withdraw_with_allowance(until, &TokenQuantity::Fungible(dec(1)), 6).unwrap_err();
    assert_eq!(EscrowError::NoLongerValid, err);
    assert_eq!(Some(2011), err.code());
    let fake = Bucket::new_non_fungible(ResourceAddress::new(777, false), ids(&[1]));
    let (err, _) = e.withdraw_with_allowance(fake, &TokenQuantity::Fungible(dec(1)), 0).unwrap_err();
    assert_eq!(EscrowError::NotForThisEscrow, err);
    assert_eq!(None, err.code());
}

#[test]
fn trusted_resource_registry() {
    let mut e = funded_escrow(1);
    let res = ResourceAddress::new(450, false);
    assert!(!e.is_resource_trusted(owner(), res));
    e.add_trusted_resource(&owner(), res).unwrap();
    assert!(e.is_resource_trusted(owner(), res));
    e.remove_trusted_resource(&owner(), res).unwrap();
    assert!(!e.is_resource_trusted(owner(), res));
    assert!(e.pool_allowance_resource(owner()).is_some());
}

#[test]
fn allowance_use_refusals() {
    let res = ResourceAddress::new(600, false);
    let whole = AllowanceNfData {
        escrow_pool: (COMPONENT, owner()),
        valid_until: None,
        valid_from: 0,
        life_cycle: AllowanceLifeCycle::Accumulating,
        for_resource: res,
        max_amount: Some(TokenQuantity::NonFungible(None, Some(2))),
    };
    let half = frac(1, 2);
    assert_eq!(Err(EscrowError::TakeNotWhole), consume(&whole, COMPONENT, &TokenQuantity::Fungible(half), 1).map(|_| ()));
    let late = AllowanceNfData {
        escrow_pool: (COMPONENT, owner()),
        valid_until: None,
        valid_from: 0,
        life_cycle: AllowanceLifeCycle::Repeating { min_delay: Some(i64::MAX) },
        for_resource: asset(),
        max_amount: None,
    };
    assert_eq!(Err(EscrowError::Overflow), consume(&late, COMPONENT, &TokenQuantity::Fungible(dec(1)), 1).map(|_| ()));
    let (_, _, next) = consume(&late, COMPONENT, &TokenQuantity::Fungible(dec(1)), 0).unwrap();
    assert_eq!(i64::MAX, next.unwrap().valid_from);
}

#[test]
fn allowance_from_another_pool_is_refused() {
    let mut e = funded_escrow(100);
    let a = e.mint_allowance(&owner(), None, 0, AllowanceLifeCycle::OneOff, asset(), None).unwrap();
    // The pool's badge resource no longer matches the badge presented.
    e.pools[0].1 = ResourceAddress::new(12345, false);
    let (err, back) = e.withdraw_with_allowance(a, &TokenQuantity::Fungible(dec(1)), 0).unwrap_err();
    assert_eq!(EscrowError::NotForThisPool, err);
    assert_eq!(dec(100), e.read_funds(owner(), asset()));
    assert_eq!(dec(1), back.amount());
}

#[test]
fn mint_refuses_a_maximum_of_the_wrong_kind() {
    let mut e = funded_escrow(1);
    let nf = ResourceAddress::new(600, false);
    let r = e.mint_allowance(&owner(), None, 0, AllowanceLifeCycle::OneOff, nf, Some(TokenQuantity::Fungible(dec(1))));
    assert_eq!(Err(EscrowError::QuantityMismatch), r.map(|_| ()));
    let r = e.mint_allowance(&owner(), None, 0, AllowanceLifeCycle::OneOff, asset(), Some(TokenQuantity::NonFungible(None, Some(1))));
    assert_eq!(Err(EscrowError::QuantityMismatch), r.map(|_| ()));
}

#[test]
fn unlimited_accumulating_allowance_persists() {
    let mut e = funded_escrow(100);
    let a = e.mint_allowance(&owner(), None, 0, AllowanceLifeCycle::Accumulating, asset(), None).unwrap();
    let (got, back) = e.withdraw_with_allowance(a, &TokenQuantity::Fungible(dec(30)), 0).unwrap();
    assert_eq!(dec(30), got.amount());
    let a = back.expect("an unlimited accumulating allowance never reaches zero");
    let (got, back) = e.withdraw_with_allowance(a, &TokenQuantity::Fungible(dec(70)), 0).unwrap();
    assert_eq!(dec(70), got.amount());
    assert!(back.is_some());
}

#[test]
fn reduce_non_fungible_count_to_itself() {
    let mut e = funded_escrow(1);
    let nf = ResourceAddress::new(600, false);
    let a = e
        .mint_allowance(&owner(), None, 0, AllowanceLifeCycle::Accumulating, nf, Some(TokenQuantity::NonFungible(None, Some(5))))
        .unwrap();
    let id = badge_id(&a);
    e.reduce_allowance_to_amount(&id, dec(5)).unwrap();
    assert_eq!(Some(TokenQuantity::NonFungible(None, Some(5))), e.allowance_data(&id).unwrap().max_amount);
    assert_eq!(Some(2001), e.reduce_allowance_to_amount(&id, dec(6)).unwrap_err().code());
}

#[test]
fn allowance_backed_offer_leaves_when_burnt_and_proceeds_are_routed() {
    let meme = ResourceAddress::new(500, true);
    let mut dex = MockDex::instantiate_mock_dex(meme);
    let mut e = Escrow::instantiate_escrow(COMPONENT);
    let maker = owner();
    let taker = NonFungibleGlobalId::new(ResourceAddress::new(302, false), NonFungibleLocalId::integer(2));
    e.deposit_funds(maker, Bucket::new_fungible(meme, dec(100)), None, false).unwrap();
    let a = e
        .mint_allowance(&maker, None, 0, AllowanceLifeCycle::Accumulating, meme, Some(TokenQuantity::Fungible(dec(10))))
        .unwrap();
    dex.limit_sell_with_escrow(maker, dec(1), Some(COMPONENT), a).unwrap();
    dex.limit_sell_direct(maker, dec(2), None, Bucket::new_fungible(meme, dec(10))).unwrap();
    // 14 buys the 10 the allowance allows at 1, then 2 at 2.
    let (got, change) = dex
        .market_buy_direct(&mut e, Some(taker), Some(COMPONENT), Bucket::new_fungible(ResourceAddress::xrd(), dec(14)), 0)
        .unwrap();
    assert!(got.is_none(), "the purchase went into the taker's pool");
    assert_eq!(Decimal::zero(), change.amount());
    assert_eq!(dec(12), e.read_funds(taker, meme));
    assert_eq!(dec(90), e.read_funds(maker, meme));
    assert_eq!(dec(10), e.read_funds(maker, ResourceAddress::xrd()), "the allowance maker is paid into its pool");
    assert_eq!(1, dex.payouts_xrd.len(), "the direct maker without a payout pool is paid into the records");
    assert_eq!(dec(4), dex.payouts_xrd[0].1.amount());
    assert_eq!(1, dex.sell_book.len(), "the burnt allowance's offer left the book");
    assert_eq!(dec(2), dex.sell_book[0].0);
}
