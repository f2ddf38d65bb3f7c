use escrow::address::{ComponentAddress, NonFungibleGlobalId, NonFungibleLocalId, ResourceAddress};
use escrow::allowance::{AllowanceLifeCycle, AllowanceNfData};
use escrow::bucket::Bucket;
use escrow::decimal::Decimal;
use escrow::error::EscrowError;
use escrow::escrow::Escrow;
use escrow::token_quantity::TokenQuantity;

const ESCROW_COMPONENT: ComponentAddress = ComponentAddress { id: 77 };

fn dec(n: u64) -> Decimal {
    Decimal::from_u64(n)
}

fn ids(r: std::ops::Range<u64>) -> Vec<NonFungibleLocalId> {
    r.map(NonFungibleLocalId::integer).collect()
}

fn id_list(v: &[u64]) -> Vec<NonFungibleLocalId> {
    v.iter().map(|n| NonFungibleLocalId::integer(*n)).collect()
}

fn xrd() -> ResourceAddress {
    ResourceAddress::xrd()
}

fn badge(resource_id: u64, n: u64) -> NonFungibleGlobalId {
    NonFungibleGlobalId::new(ResourceAddress::new(resource_id, false), NonFungibleLocalId::integer(n))
}

fn new_escrow() -> Escrow {
    Escrow::instantiate_escrow(ESCROW_COMPONENT)
}

fn deposit_fungible(e: &mut Escrow, owner: NonFungibleGlobalId, res: ResourceAddress, n: u64) {
    let r = e.deposit_funds(owner, Bucket::new_fungible(res, dec(n)), None, false);
    assert!(matches!(r, Ok(None)));
}

fn deposit_ids(e: &mut Escrow, owner: NonFungibleGlobalId, res: ResourceAddress, v: Vec<NonFungibleLocalId>) {
    let r = e.deposit_funds(owner, Bucket::new_non_fungible(res, v), None, false);
    assert!(matches!(r, Ok(None)));
}

fn badge_id(b: &Bucket) -> NonFungibleGlobalId {
    NonFungibleGlobalId::new(b.resource_address(), b.non_fungible_local_ids()[0])
}

fn mint(
    e: &mut Escrow,
    owner: &NonFungibleGlobalId,
    valid_until: Option<i64>,
    valid_from: i64,
    life_cycle: AllowanceLifeCycle,
    res: ResourceAddress,
    max: Option<TokenQuantity>,
) -> Option<Bucket> {
    Some(e.mint_allowance(owner, valid_until, valid_from, life_cycle, res, max).expect("mint"))
}

fn withdraw_with(
    e: &mut Escrow,
    slot: &mut Option<Bucket>,
    q: TokenQuantity,
    now: i64,
) -> Result<Bucket, EscrowError> {
    let a = slot.take().expect("allowance is held");
    match e.withdraw_with_allowance(a, &q, now) {
        Ok((b, back)) => {
            *slot = back;
            Ok(b)
        },
        Err((err, back)) => {
            *slot = Some(back);
            Err(err)
        },
    }
}

fn subsidize_with(
    e: &mut Escrow,
    slot: &mut Option<Bucket>,
    amount: Decimal,
    now: i64,
) -> Result<Bucket, EscrowError> {
    let a = slot.take().expect("allowance is held");
    match e.subsidize_with_allowance(a, amount, now) {
        Ok((lock, back)) => {
            *slot = back;
            Ok(lock.funds)
        },
        Err((err, back)) => {
            *slot = Some(back);
            Err(err)
        },
    }
}

fn nf_data(e: &Escrow, b: &NonFungibleGlobalId) -> AllowanceNfData {
    e.allowance_data(b).expect("allowance exists")
}

#[test]
fn test_instantiate() {
    let e = new_escrow();
    assert_eq!(ESCROW_COMPONENT, e.component);
    assert!(e.pools.is_empty());
    assert!(e.allowances.is_empty());
}

#[test]
fn test_deposit_funds() {
    let mut e = new_escrow();
    let owner_badge = badge(10, 1);
    deposit_fungible(&mut e, owner_badge, xrd(), 100);
    assert_eq!(dec(100), e.read_funds(owner_badge, xrd()), "Component should be up 100 XRD");
    deposit_fungible(&mut e, owner_badge, xrd(), 50);
    assert_eq!(dec(150), e.read_funds(owner_badge, xrd()), "Owner should now have 150 XRD pooled");
}

#[test]
fn test_withdraw() {
    let mut e = new_escrow();
    let owner_badge = badge(10, 1);
    deposit_fungible(&mut e, owner_badge, xrd(), 100);
    let out = e.withdraw(&owner_badge, xrd(), &TokenQuantity::Fungible(dec(10))).unwrap();
    assert_eq!(dec(90), e.read_funds(owner_badge, xrd()), "Escrow should be down 10 XRD");
    assert_eq!(dec(10), out.amount(), "User should be up 10 XRD");
}

#[test]
fn test_withdraw_non_fungibles() {
    let mut e = new_escrow();
    let owner_badge = badge(10, 1);
    let nfts_res = ResourceAddress::new(20, false);
    for n in 0..20 {
        deposit_ids(&mut e, owner_badge, nfts_res, ids(n * 50..n * 50 + 50));
    }
    let before = e.read_funds(owner_badge, nfts_res);
    let out = e
        .withdraw(&owner_badge, nfts_res, &TokenQuantity::NonFungible(Some(id_list(&[1, 3])), None))
        .unwrap();
    assert_eq!(before.attos - dec(2).attos, e.read_funds(owner_badge, nfts_res).attos, "Escrow should be down 2 NFTs");
    assert_eq!(dec(2), out.amount(), "User should be up 2 NFTs");

    let before = e.read_funds(owner_badge, nfts_res);
    let out = e
        .withdraw(&owner_badge, nfts_res, &TokenQuantity::NonFungible(Some(id_list(&[10, 13])), Some(10)))
        .unwrap();
    assert_eq!(before.attos - dec(12).attos, e.read_funds(owner_badge, nfts_res).attos, "Escrow should be down 12 NFTs");
    assert_eq!(dec(12), out.amount(), "User should be up 12 NFTs");
    let got = out.non_fungible_local_ids();
    assert!(got.contains(&NonFungibleLocalId::integer(10)) && got.contains(&NonFungibleLocalId::integer(13)), "User should have the named nflids");

    let before = e.read_funds(owner_badge, nfts_res);
    let out = e.withdraw(&owner_badge, nfts_res, &TokenQuantity::NonFungible(None, Some(10))).unwrap();
    assert_eq!(before.attos - dec(10).attos, e.read_funds(owner_badge, nfts_res).attos, "Escrow should be down 10 NFTs");
    assert_eq!(dec(10), out.amount(), "User should be up 10 NFTs");
}

#[test]
fn test_withdraw_all_of() {
    let mut e = new_escrow();
    let owner_badge = badge(10, 1);
    deposit_fungible(&mut e, owner_badge, xrd(), 100);
    let out = e.withdraw_all_of(&owner_badge, xrd()).unwrap();
    assert_eq!(Decimal::zero(), e.read_funds(owner_badge, xrd()), "Escrow should be down 100 XRD");
    assert_eq!(dec(100), out.amount(), "User should be up 100 XRD");

    let nfts_res = ResourceAddress::new(21, false);
    deposit_ids(&mut e, owner_badge, nfts_res, ids(1..4));
    let out = e.withdraw_all_of(&owner_badge, nfts_res).unwrap();
    assert_eq!(Decimal::zero(), e.read_funds(owner_badge, nfts_res), "Escrow should be down 3 NFTs");
    assert_eq!(dec(3), out.amount(), "User should be up 3 NFTs");
}

#[test]
fn test_subsidize() {
    let mut e = new_escrow();
    let owner_badge = badge(10, 1);
    deposit_fungible(&mut e, owner_badge, xrd(), 100);
    let lock = e.subsidize(&owner_badge, dec(10)).unwrap();
    assert!(!lock.contingent);
    assert_eq!(dec(10), lock.funds.amount(), "Escrow should have paid the XRD fee");
    assert_eq!(dec(90), e.read_funds(owner_badge, xrd()));
}

#[test]
fn test_subsidize_contingent() {
    let mut e = new_escrow();
    let owner_badge = badge(10, 1);
    deposit_fungible(&mut e, owner_badge, xrd(), 100);
    let lock = e.subsidize_contingent(&owner_badge, dec(10)).unwrap();
    assert!(lock.contingent, "the reservation is spent only on success");
    assert_eq!(dec(10), lock.funds.amount(), "Escrow should have paid the XRD fee");
    assert_eq!(dec(90), e.read_funds(owner_badge, xrd()));
}

#[test]
fn test_mint_allowance() {
    let mut e = new_escrow();
    let owner_badge = badge(10, 1);
    let a = e
        .mint_allowance(&owner_badge, Some(50), 2, AllowanceLifeCycle::Accumulating, xrd(), Some(TokenQuantity::Fungible(dec(100))))
        .unwrap();
    let nfdata = nf_data(&e, &badge_id(&a));
    assert_eq!(ESCROW_COMPONENT, nfdata.escrow_pool.0, "allowance should reference correct escrow instance");
    assert_eq!(owner_badge, nfdata.escrow_pool.1, "owner should own the allowance's pool");
    assert_eq!(Some(50), nfdata.valid_until, "valid_until should be as we set it");
    assert_eq!(2, nfdata.valid_from, "valid_from should be as we set it");
    assert!(matches!(nfdata.life_cycle, AllowanceLifeCycle::Accumulating), "life_cycle should be as we set it");
    assert_eq!(xrd(), nfdata.for_resource, "for_resource should be as we set it");
    assert_eq!(Some(dec(100)), nfdata.max_amount.map(|v| v.to_amount()), "max_amount should be as we set it");
}

#[test]
fn test_reduce_allowance_to_amount() {
    let mut e = new_escrow();
    let owner_badge = badge(10, 1);
    let f = e
        .mint_allowance(&owner_badge, Some(50), 2, AllowanceLifeCycle::Accumulating, xrd(), Some(TokenQuantity::Fungible(dec(100))))
        .unwrap();
    let f_id = badge_id(&f);
    let err = e.reduce_allowance_to_amount(&f_id, Decimal { attos: -2_000_000_000_000_000_000 }).unwrap_err();
    assert_eq!(Some(2003), err.code());
    e.reduce_allowance_to_amount(&f_id, dec(25)).unwrap();
    assert_eq!(Some(dec(25)), nf_data(&e, &f_id).max_amount.map(|v| v.to_amount()), "max_amount should have been reduced");
    let err = e.reduce_allowance_to_amount(&f_id, dec(200)).unwrap_err();
    assert_eq!(Some(2000), err.code());

    let nf_resaddr = ResourceAddress::new(30, false);
    let nf1 = e
        .mint_allowance(&owner_badge, Some(50), 2, AllowanceLifeCycle::Accumulating, nf_resaddr, Some(TokenQuantity::NonFungible(Some(ids(0..50)), Some(100))))
        .unwrap();
    let nf1_id = badge_id(&nf1);
    let err = e.reduce_allowance_to_amount(&nf1_id, Decimal { attos: 1_500_000_000_000_000_000 }).unwrap_err();
    assert_eq!(Some(2004), err.code());
    e.reduce_allowance_to_amount(&nf1_id, dec(25)).unwrap();
    match nf_data(&e, &nf1_id).max_amount {
        Some(TokenQuantity::NonFungible(Some(nflids), Some(amount))) => {
            assert_eq!(25, amount, "max_amount should have been reduced");
            assert_eq!(50, nflids.len(), "nflids quantity should be unchanged");
        },
        _ => panic!("max_amount should be NonFungible"),
    }
    let err = e.reduce_allowance_to_amount(&nf1_id, dec(50)).unwrap_err();
    assert_eq!(Some(2001), err.code());

    let nf2 = e
        .mint_allowance(&owner_badge, Some(50), 2, AllowanceLifeCycle::Accumulating, nf_resaddr, Some(TokenQuantity::NonFungible(Some(ids(0..50)), None)))
        .unwrap();
    let err = e.reduce_allowance_to_amount(&badge_id(&nf2), dec(1)).unwrap_err();
    assert_eq!(Some(2002), err.code());
}

#[test]
fn test_reduce_allowance_by_nflids() {
    let mut e = new_escrow();
    let owner_badge = badge(10, 1);
    let f1 = e
        .mint_allowance(&owner_badge, Some(50), 2, AllowanceLifeCycle::Accumulating, xrd(), Some(TokenQuantity::Fungible(dec(100))))
        .unwrap();
    let err = e.reduce_allowance_by_nflids(&badge_id(&f1), &ids(0..10)).unwrap_err();
    assert_eq!(Some(2005), err.code());
    let f2 = e.mint_allowance(&owner_badge, Some(50), 2, AllowanceLifeCycle::Accumulating, xrd(), None).unwrap();
    let err = e.reduce_allowance_by_nflids(&badge_id(&f2), &ids(0..10)).unwrap_err();
    assert_eq!(Some(2007), err.code());
    let nf_resaddr = ResourceAddress::new(30, false);
    let nf3 = e
        .mint_allowance(&owner_badge, Some(50), 2, AllowanceLifeCycle::Accumulating, nf_resaddr, Some(TokenQuantity::NonFungible(None, Some(100))))
        .unwrap();
    let err = e.reduce_allowance_by_nflids(&badge_id(&nf3), &ids(0..10)).unwrap_err();
    assert_eq!(Some(2006), err.code());
    let nf4 = e
        .mint_allowance(&owner_badge, Some(50), 2, AllowanceLifeCycle::Accumulating, nf_resaddr, Some(TokenQuantity::NonFungible(Some(ids(0..50)), Some(100))))
        .unwrap();
    let nf4_id = badge_id(&nf4);
    e.reduce_allowance_by_nflids(&nf4_id, &ids(0..10)).unwrap();
    match nf_data(&e, &nf4_id).max_amount {
        Some(TokenQuantity::NonFungible(Some(nflids), Some(amount))) => {
            assert_eq!(100, amount, "max_amount should be unchanged");
            assert_eq!(40, nflids.len(), "nflids quantity should be down by 10");
            assert!(nflids == ids(10..50), "nflids should be 10-49 inclusive");
        },
        _ => panic!("max_amount should be NonFungible"),
    }
}

/// Alice's pool with 10000 of a fungible play resource, and the four
/// allowances that the fungible tests hand to Bob.
fn fungible_setup(e: &mut Escrow, alice: NonFungibleGlobalId, play: ResourceAddress) -> [Option<Bucket>; 4] {
    deposit_fungible(e, alice, play, 10000);
    let max = || Some(TokenQuantity::Fungible(dec(100)));
    let one_off = mint(e, &alice, Some(500), 2, AllowanceLifeCycle::OneOff, play, max());
    let acc = mint(e, &alice, Some(500), 2, AllowanceLifeCycle::Accumulating, play, max());
    let rep = mint(e, &alice, Some(500), 2, AllowanceLifeCycle::Repeating { min_delay: None }, play, max());
    let rep2 = mint(e, &alice, None, 2, AllowanceLifeCycle::Repeating { min_delay: Some(500) }, play, None);
    [one_off, acc, rep, rep2]
}

#[test]
fn test_withdraw_with_allowance_within_validity_period() {
    let mut e = new_escrow();
    let alice = badge(10, 1);
    let play = ResourceAddress::new(40, true);
    let [mut one_off, mut acc, mut rep, mut rep2] = fungible_setup(&mut e, alice, play);
    let res = one_off.as_ref().unwrap().resource_address();
    for a in [&acc, &rep, &rep2] {
        assert_eq!(res, a.as_ref().unwrap().resource_address(), "Allowances should be of the same NF resource");
    }
    let t = 400;
    assert!(withdraw_with(&mut e, &mut one_off, TokenQuantity::Fungible(dec(10000)), t).is_err());
    assert!(withdraw_with(&mut e, &mut acc, TokenQuantity::Fungible(dec(10000)), t).is_err());
    assert!(withdraw_with(&mut e, &mut rep, TokenQuantity::Fungible(dec(10000)), t).is_err());

    let got = withdraw_with(&mut e, &mut one_off, TokenQuantity::Fungible(dec(55)), t).unwrap();
    assert_eq!(dec(55), got.amount(), "Bob should be 55 funds up");
    assert!(one_off.is_none(), "Bob's one-off allowance should be burnt");

    let acc_id = badge_id(acc.as_ref().unwrap());
    let got = withdraw_with(&mut e, &mut acc, TokenQuantity::Fungible(dec(40)), t).unwrap();
    assert_eq!(dec(40), got.amount(), "Bob should be 40 funds up");
    assert_eq!(dec(60), nf_data(&e, &acc_id).max_amount.unwrap().to_amount(), "Accumulating allowance should be down 40 tokens");
    let got = withdraw_with(&mut e, &mut acc, TokenQuantity::Fungible(dec(60)), t).unwrap();
    assert_eq!(dec(60), got.amount(), "Bob should be 60 funds up");
    assert!(acc.is_none(), "Bob's accumulating allowance should be burnt");

    let got = withdraw_with(&mut e, &mut rep, TokenQuantity::Fungible(dec(10)), t).unwrap();
    assert_eq!(dec(10), got.amount(), "Bob should be 10 funds up");
    let got = withdraw_with(&mut e, &mut rep, TokenQuantity::Fungible(dec(100)), t).unwrap();
    assert_eq!(dec(100), got.amount(), "Bob should be 100 funds up");
    let got = withdraw_with(&mut e, &mut rep, TokenQuantity::Fungible(dec(100)), t).unwrap();
    assert_eq!(dec(100), got.amount(), "Bob should be 100 funds up");

    let got = withdraw_with(&mut e, &mut rep2, TokenQuantity::Fungible(dec(1000)), t).unwrap();
    assert_eq!(dec(1000), got.amount(), "Bob should be 1000 funds up");
    assert!(withdraw_with(&mut e, &mut rep2, TokenQuantity::Fungible(dec(100)), t).is_err());
    let got = withdraw_with(&mut e, &mut rep2, TokenQuantity::Fungible(dec(100)), 900).unwrap();
    assert_eq!(dec(100), got.amount(), "Bob should be 100 funds up");
}

#[test]
fn test_withdraw_with_allowance_fails_outside_vailidity_period() {
    let mut e = new_escrow();
    let alice = badge(10, 1);
    let play = ResourceAddress::new(40, true);
    let [mut one_off, mut acc, mut rep, _rep2] = fungible_setup(&mut e, alice, play);
    for now in [0, 600] {
        for slot in [&mut one_off, &mut acc, &mut rep] {
            assert!(withdraw_with(&mut e, slot, TokenQuantity::Fungible(dec(1)), now).is_err());
            assert!(slot.is_some());
        }
    }
}

/// Alice's pool with non-fungible play tokens #1..=#1000, and four
/// allowances for up to ten of them that the non-fungible tests hand to Bob.
fn non_fungible_setup(e: &mut Escrow, alice: NonFungibleGlobalId, play: ResourceAddress) -> [Option<Bucket>; 4] {
    for n in 0..20 {
        deposit_ids(e, alice, play, ids(1 + n * 50..1 + n * 50 + 50));
    }
    let max = || Some(TokenQuantity::NonFungible(None, Some(10)));
    let one_off = mint(e, &alice, Some(500), 2, AllowanceLifeCycle::OneOff, play, max());
    let acc = mint(e, &alice, Some(500), 2, AllowanceLifeCycle::Accumulating, play, max());
    let rep = mint(e, &alice, Some(500), 2, AllowanceLifeCycle::Repeating { min_delay: None }, play, max());
    let rep2 = mint(e, &alice, None, 2, AllowanceLifeCycle::Repeating { min_delay: Some(500) }, play, None);
    [one_off, acc, rep, rep2]
}

fn named(v: Vec<NonFungibleLocalId>, n: Option<u64>) -> TokenQuantity {
    TokenQuantity::NonFungible(Some(v), n)
}

#[test]
fn test_withdraw_non_fungibles_with_allowance_within_validity_period() {
    let mut e = new_escrow();
    let alice = badge(10, 1);
    let play = ResourceAddress::new(50, false);
    let [mut one_off, mut acc, mut rep, mut rep2] = non_fungible_setup(&mut e, alice, play);
    let t = 400;
    assert!(withdraw_with(&mut e, &mut one_off, named(ids(1..20), None), t).is_err());
    assert!(withdraw_with(&mut e, &mut acc, named(ids(1..20), None), t).is_err());
    assert!(withdraw_with(&mut e, &mut rep, named(ids(1..20), None), t).is_err());

    let got = withdraw_with(&mut e, &mut one_off, named(ids(1..6), None), t).unwrap();
    assert_eq!(dec(5), got.amount(), "Bob should be 5 NFTs up");
    assert!(one_off.is_none(), "Bob's one-off allowance should be burnt");

    let acc_id = badge_id(acc.as_ref().unwrap());
    let got = withdraw_with(&mut e, &mut acc, named(ids(11..15), None), t).unwrap();
    assert_eq!(dec(4), got.amount(), "Bob should be 4 NFTs up");
    assert_eq!(dec(6), nf_data(&e, &acc_id).max_amount.unwrap().to_amount(), "Accumulating allowance should be down 4 NFTs");
    let got = withdraw_with(&mut e, &mut acc, named(ids(15..21), None), t).unwrap();
    assert_eq!(dec(6), got.amount(), "Bob should be 6 NFTs up");
    assert!(acc.is_none(), "Bob's accumulating allowance should be burnt");

    let got = withdraw_with(&mut e, &mut rep, named(ids(801..805), None), t).unwrap();
    assert_eq!(dec(4), got.amount(), "Bob should be 4 NFTs up");
    let got = withdraw_with(&mut e, &mut rep, named(ids(811..821), None), t).unwrap();
    assert_eq!(dec(10), got.amount(), "Bob should be 10 NFTs up");
    let got = withdraw_with(&mut e, &mut rep, named(ids(821..831), None), t).unwrap();
    assert_eq!(dec(10), got.amount(), "Bob should be 10 NFTs up");

    let got = withdraw_with(&mut e, &mut rep2, named(ids(701..801), None), t).unwrap();
    assert_eq!(dec(100), got.amount(), "Bob should be 100 NFTs up");
    assert!(withdraw_with(&mut e, &mut rep2, named(ids(601..701), None), t).is_err());
    let got = withdraw_with(&mut e, &mut rep2, named(ids(501..601), None), 900).unwrap();
    assert_eq!(dec(100), got.amount(), "Bob should be 100 NFTs up");

    // Allowances with non-fungible limits.
    let mut one_off = mint(&mut e, &alice, None, 0, AllowanceLifeCycle::OneOff, play, Some(named(id_list(&[650, 651]), Some(10))));
    let mut acc = mint(&mut e, &alice, None, 0, AllowanceLifeCycle::Accumulating, play, Some(named(id_list(&[660, 661]), Some(10))));
    let mut rep = mint(&mut e, &alice, None, 0, AllowanceLifeCycle::Repeating { min_delay: None }, play, Some(named(id_list(&[670, 671]), Some(10))));
    let t = 900;
    let pulled = e.withdraw(&alice, play, &named(id_list(&[650, 651, 660, 661, 670, 671]), None)).unwrap();
    assert_eq!(dec(6), pulled.amount());
    deposit_ids(&mut e, alice, play, id_list(&[650, 651]));

    let err = withdraw_with(&mut e, &mut one_off, TokenQuantity::NonFungible(None, Some(12)), t).unwrap_err();
    assert_eq!(Some(2012), err.code());
    let err = withdraw_with(&mut e, &mut one_off, named(id_list(&[652]), Some(10)), t).unwrap_err();
    assert_eq!(Some(2012), err.code());
    let got = withdraw_with(&mut e, &mut one_off, named(id_list(&[650, 651]), Some(10)), t).unwrap();
    assert_eq!(dec(12), got.amount(), "Bob should be 12 NFTs up");
    let got_ids = got.non_fungible_local_ids();
    assert!(got_ids.contains(&NonFungibleLocalId::integer(650)) && got_ids.contains(&NonFungibleLocalId::integer(651)), "Bob should have the named nflids");
    assert!(one_off.is_none(), "This allowance should have been burned");

    deposit_ids(&mut e, alice, play, id_list(&[660]));
    let got = withdraw_with(&mut e, &mut acc, named(id_list(&[660]), Some(10)), t).unwrap();
    assert_eq!(dec(11), got.amount(), "Bob should be 11 NFTs up");
    assert!(got.non_fungible_local_ids().contains(&NonFungibleLocalId::integer(660)), "Bob should have the named nflid");
    deposit_ids(&mut e, alice, play, id_list(&[660]));
    let err = withdraw_with(&mut e, &mut acc, named(id_list(&[660]), None), t).unwrap_err();
    assert_eq!(Some(2012), err.code());
    let err = withdraw_with(&mut e, &mut acc, TokenQuantity::NonFungible(None, Some(1)), t).unwrap_err();
    assert_eq!(Some(2012), err.code());
    let err = withdraw_with(&mut e, &mut acc, named(id_list(&[661]), None), t).unwrap_err();
    assert_eq!(EscrowError::InsufficientFunds, err, "#661 is not in the pool");
    deposit_ids(&mut e, alice, play, id_list(&[661]));
    let got = withdraw_with(&mut e, &mut acc, named(id_list(&[661]), None), t).unwrap();
    assert_eq!(dec(1), got.amount(), "Bob should be 1 NFT up");
    assert!(got.non_fungible_local_ids().contains(&NonFungibleLocalId::integer(661)), "Bob should have the named nflid");
    assert!(acc.is_none(), "This allowance should have been burned");

    deposit_ids(&mut e, alice, play, id_list(&[670, 671]));
    let got = withdraw_with(&mut e, &mut rep, named(id_list(&[670, 671]), Some(5)), t).unwrap();
    assert_eq!(dec(7), got.amount(), "Bob should be 7 NFTs up");
    let got = withdraw_with(&mut e, &mut rep, TokenQuantity::NonFungible(None, Some(10)), t).unwrap();
    assert_eq!(dec(10), got.amount(), "Bob should be 10 NFTs up");
    deposit_ids(&mut e, alice, play, id_list(&[670, 671]));
    let got = withdraw_with(&mut e, &mut rep, named(id_list(&[670, 671]), Some(10)), t).unwrap();
    assert_eq!(dec(12), got.amount(), "Bob should be 12 NFTs up");
    let got_ids = got.non_fungible_local_ids();
    assert!(got_ids.contains(&NonFungibleLocalId::integer(670)) && got_ids.contains(&NonFungibleLocalId::integer(671)), "Bob should have the named nflids");
}

#[test]
fn test_withdraw_non_fungibles_with_allowance_fails_outside_validity_period() {
    let mut e = new_escrow();
    let alice = badge(10, 1);
    let play = ResourceAddress::new(50, false);
    let [mut one_off, mut acc, mut rep, _rep2] = non_fungible_setup(&mut e, alice, play);
    for now in [0, 600] {
        assert!(withdraw_with(&mut e, &mut one_off, named(ids(1..6), None), now).is_err());
        assert!(withdraw_with(&mut e, &mut acc, named(ids(11..15), None), now).is_err());
        assert!(withdraw_with(&mut e, &mut rep, named(ids(801..805), None), now).is_err());
    }
    assert!(one_off.is_some() && acc.is_some() && rep.is_some());
}

#[test]
fn test_subsidize_with_allowance() {
    let mut e = new_escrow();
    let alice = badge(10, 1);
    deposit_fungible(&mut e, alice, xrd(), 9000);
    let max = || Some(TokenQuantity::Fungible(dec(100)));
    let mut one_off = mint(&mut e, &alice, Some(500), 2, AllowanceLifeCycle::OneOff, xrd(), max());
    let mut acc = mint(&mut e, &alice, Some(500), 2, AllowanceLifeCycle::Accumulating, xrd(), max());
    let mut rep = mint(&mut e, &alice, Some(500), 2, AllowanceLifeCycle::Repeating { min_delay: None }, xrd(), max());
    let mut rep2 = mint(&mut e, &alice, None, 2, AllowanceLifeCycle::Repeating { min_delay: Some(500) }, xrd(), None);

    for slot in [&mut one_off, &mut acc, &mut rep] {
        assert_eq!(Some(2009), subsidize_with(&mut e, slot, dec(10), 0).unwrap_err().code());
    }
    let t = 120;
    for slot in [&mut one_off, &mut acc, &mut rep] {
        assert_eq!(Some(2010), subsidize_with(&mut e, slot, dec(200), t).unwrap_err().code());
    }
    let paid = subsidize_with(&mut e, &mut one_off, dec(10), t).unwrap();
    assert_eq!(dec(10), paid.amount(), "Escrow should have paid the XRD fee");
    assert!(one_off.is_none(), "This allowance should have been burned");
    for _ in 0..10 {
        let paid = subsidize_with(&mut e, &mut acc, dec(10), t).unwrap();
        assert_eq!(dec(10), paid.amount(), "Escrow should have paid the XRD fee");
    }
    assert!(acc.is_none(), "This allowance should have been burned");
    for _ in 0..100 {
        let paid = subsidize_with(&mut e, &mut rep, dec(10), t).unwrap();
        assert_eq!(dec(10), paid.amount(), "Escrow should have paid the XRD fee");
    }
    let paid = subsidize_with(&mut e, &mut rep2, dec(10), t).unwrap();
    assert_eq!(dec(10), paid.amount(), "Escrow should have paid the XRD fee");
    assert_eq!(Some(2009), subsidize_with(&mut e, &mut rep2, dec(10), t).unwrap_err().code());
    let t = 720;
    let paid = subsidize_with(&mut e, &mut rep2, dec(10), t).unwrap();
    assert_eq!(dec(10), paid.amount(), "Escrow should have paid the XRD fee");

    let mut one_off = mint(&mut e, &alice, Some(500), 2, AllowanceLifeCycle::OneOff, xrd(), max());
    let mut acc = mint(&mut e, &alice, Some(500), 2, AllowanceLifeCycle::Accumulating, xrd(), max());
    for slot in [&mut one_off, &mut acc, &mut rep] {
        assert_eq!(Some(2011), subsidize_with(&mut e, slot, dec(10), t).unwrap_err().code());
    }
}

#[test]
fn test_automatic_allowance() {
    let mut e = new_escrow();
    let alice_pool_badge = badge(10, 1);
    let play_nf = ResourceAddress::new(60, false);
    let play_f = ResourceAddress::new(61, true);
    let bob_trusted = badge(70, 1);
    let bob_untrusted = badge(70, 2);
    let bob_res_2_trusted = ResourceAddress::new(71, false);
    let bob_badge_2_1 = NonFungibleGlobalId::new(bob_res_2_trusted, NonFungibleLocalId::integer(1));

    deposit_fungible(&mut e, alice_pool_badge, play_f, 5000);
    for n in 0..10 {
        deposit_ids(&mut e, alice_pool_badge, play_nf, ids(n * 50..n * 50 + 50));
    }

    let untrusted_deposits: [(NonFungibleGlobalId, bool); 4] =
        [(bob_trusted, false), (bob_badge_2_1, false), (bob_trusted, true), (bob_badge_2_1, true)];
    for (who, fungible) in untrusted_deposits {
        let funds = if fungible {
            Bucket::new_fungible(play_f, dec(10))
        } else {
            Bucket::new_non_fungible(play_nf, id_list(&[500]))
        };
        let err = e.deposit_funds(alice_pool_badge, funds, Some(who), true).unwrap_err();
        assert_eq!(Some(2013), err.0.code());
    }

    e.add_trusted_nfgid(&alice_pool_badge, bob_trusted).unwrap();
    e.add_trusted_resource(&alice_pool_badge, bob_res_2_trusted).unwrap();

    let err = e.deposit_funds(alice_pool_badge, Bucket::new_fungible(play_f, dec(10)), Some(bob_untrusted), true).unwrap_err();
    assert_eq!(Some(2013), err.0.code());
    let err = e
        .deposit_funds(alice_pool_badge, Bucket::new_non_fungible(play_nf, id_list(&[510])), Some(bob_untrusted), true)
        .unwrap_err();
    assert_eq!(Some(2013), err.0.code());

    let mut allowance = e
        .deposit_funds(alice_pool_badge, Bucket::new_non_fungible(play_nf, id_list(&[500])), Some(bob_trusted), true)
        .unwrap();
    assert!(allowance.is_some());
    for q in [
        TokenQuantity::Fungible(dec(1)),
        named(id_list(&[499]), None),
        named(id_list(&[499]), Some(1)),
        named(id_list(&[500]), Some(1)),
    ] {
        assert_eq!(Some(2012), withdraw_with(&mut e, &mut allowance, q, 0).unwrap_err().code());
    }
    let got = withdraw_with(&mut e, &mut allowance, named(id_list(&[500]), None), 0).unwrap();
    assert!(got.non_fungible_local_ids().contains(&NonFungibleLocalId::integer(500)), "Bob should now have #500 back");
    assert!(allowance.is_none(), "The allowance should now be burned");

    let mut allowance = e
        .deposit_funds(alice_pool_badge, Bucket::new_non_fungible(play_nf, id_list(&[501])), Some(bob_badge_2_1), true)
        .unwrap();
    let got = withdraw_with(&mut e, &mut allowance, named(id_list(&[501]), None), 0).unwrap();
    assert!(got.non_fungible_local_ids().contains(&NonFungibleLocalId::integer(501)), "Bob should now have #501 back");
    assert!(allowance.is_none(), "The allowance should now be burned");

    let mut allowance = e
        .deposit_funds(alice_pool_badge, Bucket::new_fungible(play_f, dec(100)), Some(bob_trusted), true)
        .unwrap();
    assert_eq!(Some(2010), withdraw_with(&mut e, &mut allowance, TokenQuantity::Fungible(dec(101)), 0).unwrap_err().code());
    assert_eq!(Some(2010), withdraw_with(&mut e, &mut allowance, TokenQuantity::NonFungible(None, Some(101)), 0).unwrap_err().code());
    let got = withdraw_with(&mut e, &mut allowance, TokenQuantity::Fungible(dec(50)), 0).unwrap();
    assert_eq!(dec(50), got.amount(), "Bob should now have 50 tokens back");
    let got = withdraw_with(&mut e, &mut allowance, TokenQuantity::Fungible(dec(50)), 0).unwrap();
    assert_eq!(dec(50), got.amount(), "Bob should now have another 50 tokens back");
    assert!(allowance.is_none(), "The allowance should now be burned");

    let mut allowance = e
        .deposit_funds(alice_pool_badge, Bucket::new_fungible(play_f, dec(100)), Some(bob_badge_2_1), true)
        .unwrap();
    let got = withdraw_with(&mut e, &mut allowance, TokenQuantity::Fungible(dec(100)), 0).unwrap();
    assert_eq!(dec(100), got.amount(), "Bob should now have 100 tokens back");
    assert!(allowance.is_none(), "The allowance should now be burned");
}
