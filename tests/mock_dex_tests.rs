use escrow::address::{ComponentAddress, NonFungibleGlobalId, NonFungibleLocalId, ResourceAddress};
use escrow::allowance::AllowanceLifeCycle;
use escrow::bucket::Bucket;
use escrow::decimal::Decimal;
use escrow::escrow::Escrow;
use escrow::mock_dex::MockDex;
use escrow::token_quantity::TokenQuantity;

const ESCROW_COMPONENT: ComponentAddress = ComponentAddress { id: 5 };

fn dec(n: u64) -> Decimal {
    Decimal::from_u64(n)
}

fn frac(num: u64, den: u64) -> Decimal {
    Decimal::from_u64(num).checked_div(Decimal::from_u64(den)).unwrap()
}

fn xrd() -> ResourceAddress {
    ResourceAddress::xrd()
}

fn sub(a: Decimal, b: Decimal) -> Decimal {
    a.checked_sub(b).unwrap()
}

fn deposit(e: &mut Escrow, owner: NonFungibleGlobalId, res: ResourceAddress, amount: Decimal) {
    assert!(matches!(e.deposit_funds(owner, Bucket::new_fungible(res, amount), None, false), Ok(None)));
}

/// A market buy that must succeed: the tokens delivered to the taker (zero
/// where they went into escrow) and the native tokens spent.
fn market_buy(
    dex: &mut MockDex,
    e: &mut Escrow,
    trader: Option<NonFungibleGlobalId>,
    payout: Option<ComponentAddress>,
    pay: Decimal,
) -> (Decimal, Decimal) {
    let (got, change) = dex.market_buy_direct(e, trader, payout, Bucket::new_fungible(xrd(), pay), 0).unwrap();
    (got.map(|b| b.amount()).unwrap_or(Decimal::zero()), sub(pay, change.amount()))
}

/// A market sell that must succeed: the native tokens delivered to the
/// taker (zero where they went into escrow) and the tokens sold.
fn market_sell(
    dex: &mut MockDex,
    e: &mut Escrow,
    meme: ResourceAddress,
    trader: Option<NonFungibleGlobalId>,
    payout: Option<ComponentAddress>,
    amount: Decimal,
) -> (Decimal, Decimal) {
    let (got, unsold) = dex.market_sell_direct(e, trader, payout, Bucket::new_fungible(meme, amount), 0).unwrap();
    (got.map(|b| b.amount()).unwrap_or(Decimal::zero()), sub(amount, unsold.amount()))
}

#[test]
fn mock_dex_tests() {
    let meme = ResourceAddress::new(100, true);
    let mut dex = MockDex::instantiate_mock_dex(meme);
    let mut e = Escrow::instantiate_escrow(ESCROW_COMPONENT);
    let alice_badge = NonFungibleGlobalId::new(ResourceAddress::new(200, false), NonFungibleLocalId::integer(1));
    let bob_badge = NonFungibleGlobalId::new(ResourceAddress::new(201, false), NonFungibleLocalId::integer(1));
    let escrow = Some(ESCROW_COMPONENT);

    deposit(&mut e, alice_badge, meme, dec(1_000_000));
    deposit(&mut e, alice_badge, xrd(), dec(1_000));
    let alice_escrow_xrd_pre = e.read_funds(alice_badge, xrd());
    deposit(&mut e, bob_badge, xrd(), dec(1000));

    // Alice puts out several tranches of MEME for sale: 5k in all.
    let mut alice_meme_out = Decimal::zero();
    for price in [frac(1, 100), frac(1, 1000), frac(1, 10000), frac(1, 10), dec(1)] {
        dex.limit_sell_direct(alice_badge, price, escrow, Bucket::new_fungible(meme, dec(1000))).unwrap();
        alice_meme_out = alice_meme_out.checked_add(dec(1000)).unwrap();
    }
    assert_eq!(dec(5000), alice_meme_out, "Alice should be 5k MEME down");

    let (bought, spent) = market_buy(&mut dex, &mut e, None, None, dec(11));
    assert_eq!(dec(11), spent, "Bob should be 11 XRD down");
    assert_eq!(dec(2990), bought, "Bob should be 2990 MEME up");

    // Bob puts in limit buy orders.
    let mut bob_xrd_out = Decimal::zero();
    for price in [frac(1, 100), frac(1, 1000), frac(2, 100)] {
        dex.limit_buy_direct(bob_badge, price, None, Bucket::new_fungible(xrd(), dec(1000))).unwrap();
        bob_xrd_out = bob_xrd_out.checked_add(dec(1000)).unwrap();
    }
    assert_eq!(dec(3000), bob_xrd_out, "Bob should be 3000 XRD down");

    let (received, sold) = market_sell(&mut dex, &mut e, meme, None, None, dec(100_000));
    assert_eq!(dec(1500), received, "Alice should be 1500 XRD up");
    assert_eq!(dec(100_000), sold, "Alice should be 100k MEME down");

    let (bought, spent) = market_buy(&mut dex, &mut e, None, None, dec(2000));
    assert_eq!(frac(11001, 10), spent, "Bob should be 1100.1 XRD down");
    assert_eq!(dec(2010), bought, "Bob should be 2010 MEME up");

    let (bought, spent) = market_buy(&mut dex, &mut e, None, None, dec(2000));
    assert_eq!(Decimal::zero(), spent, "Bob should have spent no XRD");
    assert_eq!(Decimal::zero(), bought, "Bob should have received no MEME");

    let (received, sold) = market_sell(&mut dex, &mut e, meme, None, None, dec(1_200_000));
    assert_eq!(dec(1500), received, "Alice should be 1500 XRD up");
    assert_eq!(dec(1_050_000), sold, "Alice should be 1.05M MEME down");

    let (received, sold) = market_sell(&mut dex, &mut e, meme, None, None, dec(1_000_000));
    assert_eq!(Decimal::zero(), received, "Alice should have received no XRD");
    assert_eq!(Decimal::zero(), sold, "Alice should have spent no MEME");

    let alice_escrow_xrd_post = e.read_funds(alice_badge, xrd());
    assert_eq!(sub(alice_escrow_xrd_post, alice_escrow_xrd_pre), frac(11111, 10), "Alice should have earnt 1111.1 XRD");

    // Market trade with payout to escrow.
    dex.limit_sell_direct(alice_badge, frac(1, 10), escrow, Bucket::new_fungible(meme, dec(1000))).unwrap();
    let bob_escrow_meme_pre = e.read_funds(bob_badge, meme);
    let (bought, spent) = market_buy(&mut dex, &mut e, Some(bob_badge), escrow, dec(1));
    assert_eq!(dec(1), spent, "Bob should have spent 1 XRD");
    assert_eq!(Decimal::zero(), bought, "Bob should have received 0 MEME into his account");
    assert_eq!(sub(e.read_funds(bob_badge, meme), bob_escrow_meme_pre), dec(10), "Bob should have received 10 MEME into escrow");

    dex.limit_buy_direct(bob_badge, frac(1, 100), None, Bucket::new_fungible(xrd(), dec(10))).unwrap();
    let alice_escrow_xrd_pre = e.read_funds(alice_badge, xrd());
    let (received, sold) = market_sell(&mut dex, &mut e, meme, Some(alice_badge), escrow, dec(1000));
    assert_eq!(Decimal::zero(), received, "Alice should not have received XRD to her account");
    assert_eq!(dec(1000), sold, "Alice should be 1000 MEME down");
    assert_eq!(sub(e.read_funds(alice_badge, xrd()), alice_escrow_xrd_pre), dec(10), "Alice should have received 10 XRD into escrow");

    // Clear out the books.
    market_buy(&mut dex, &mut e, None, None, dec(2000));
    market_sell(&mut dex, &mut e, meme, None, None, dec(1_000_000));

    // Limit trades with tokens taken from escrow.
    let mint = |e: &mut Escrow, owner: &NonFungibleGlobalId, res: ResourceAddress, n: u64| {
        e.mint_allowance(owner, None, 0, AllowanceLifeCycle::Accumulating, res, Some(TokenQuantity::Fungible(dec(n))))
            .unwrap()
    };
    let a1 = mint(&mut e, &alice_badge, meme, 10_000);
    let a2 = mint(&mut e, &alice_badge, meme, 10_000);
    let a3 = mint(&mut e, &alice_badge, meme, 10_000);
    dex.limit_sell_with_escrow(alice_badge, frac(1, 10), escrow, a1).unwrap();
    dex.limit_sell_with_escrow(alice_badge, frac(1, 100), escrow, a2).unwrap();
    dex.limit_sell_with_escrow(alice_badge, dec(1), escrow, a3).unwrap();

    let alice_escrow_meme_pre = e.read_funds(alice_badge, meme);
    let alice_escrow_xrd_pre = e.read_funds(alice_badge, xrd());
    let (bought, spent) = market_buy(&mut dex, &mut e, None, None, dec(1000));
    assert_eq!(dec(1000), spent, "Bob should be down 1k XRD");
    assert_eq!(dec(19_000), bought, "Bob should be up 19k MEME");
    assert_eq!(sub(alice_escrow_meme_pre, e.read_funds(alice_badge, meme)), dec(19_000), "Alice's escrow should be down 19k MEME");
    assert_eq!(sub(e.read_funds(alice_badge, xrd()), alice_escrow_xrd_pre), dec(1000), "Alice's escrow should be up 1k XRD");

    let alice_escrow_meme_pre = e.read_funds(alice_badge, meme);
    let (bought, spent) = market_buy(&mut dex, &mut e, None, None, dec(100));
    assert_eq!(dec(100), spent, "Bob should be down 100 XRD");
    assert_eq!(dec(1_000), bought, "Bob should be up 1k MEME");
    assert_eq!(sub(alice_escrow_meme_pre, e.read_funds(alice_badge, meme)), dec(1_000), "Alice's escrow should be down 1k MEME");

    // Bob's allowance-based limit buys.
    let b1 = mint(&mut e, &bob_badge, xrd(), 100);
    let b2 = mint(&mut e, &bob_badge, xrd(), 100);
    let b3 = mint(&mut e, &bob_badge, xrd(), 100);
    dex.limit_buy_with_escrow(bob_badge, frac(1, 100), escrow, b1).unwrap();
    dex.limit_buy_with_escrow(bob_badge, frac(1, 1000), escrow, b2).unwrap();
    dex.limit_buy_with_escrow(bob_badge, frac(1, 10), escrow, b3).unwrap();

    let alice_escrow_xrd_pre = e.read_funds(alice_badge, xrd());
    let (received, sold) = market_sell(&mut dex, &mut e, meme, Some(alice_badge), escrow, dec(5_000));
    assert_eq!(Decimal::zero(), received, "Alice should not have received XRD to her account");
    assert_eq!(dec(5000), sold, "Alice should be 5000 MEME down");
    assert_eq!(sub(e.read_funds(alice_badge, xrd()), alice_escrow_xrd_pre), dec(140), "Alice should have received 140 XRD into escrow");
}
