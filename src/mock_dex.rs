//! A minimal order book for one token against the native resource, whose
//! resting offers are funded directly or through escrow allowances.
//!
//! One offer rests at each price point; a market order walks the opposite
//! book from the best price outward and fills greedily.
use vstd::prelude::*;
use crate::address::{ComponentAddress, NonFungibleGlobalId, ResourceAddress, xrd_spec};
use crate::allowance::AllowanceNfData;
use crate::bucket::Bucket;
use crate::decimal::{Decimal, div_spec, mul_spec, one};
use crate::escrow::{Escrow, allowance_became, badge_of, counters_moved, deposited};
use crate::allowance::{consumed, in_window};
use crate::table::lookup;
use crate::token_quantity::QuantityModel;
use crate::token_quantity::TokenQuantity;

verus! {

/// Why the order book refused an order.
#[derive(Clone, Copy, Debug, PartialEq, Eq, Structural)]
pub enum DexError {
    /// The tokens handed in are not of the resource this order needs.
    WrongResource,
    /// An allowance-backed order takes exactly one allowance badge.
    NotOneAllowance,
    /// A price must be above zero.
    NonPositivePrice,
    /// A payout to an escrow pool needs the trader's identity.
    MissingTrader,
}

/// Who placed an offer, and where its proceeds go.
#[derive(Clone, Copy, Debug, PartialEq, Eq, Structural)]
pub struct Actor {
    pub id_badge: NonFungibleGlobalId,
    pub escrow_payout_component: Option<ComponentAddress>,
}

/// What backs a resting offer.
#[derive(Debug)]
pub enum SourceOfFunds {
    /// The offered tokens themselves.
    Direct { actor: Actor, price_in_xrd: Decimal, vault: Bucket },
    /// An allowance badge on the maker's escrow pool.
    FromEscrow { actor: Actor, price_in_xrd: Decimal, vault: Bucket },
}

/// A resting offer.
#[derive(Debug)]
pub struct Offering {
    pub source_of_funds: SourceOfFunds,
}

impl Offering {
    /// The container that backs this offer.
    pub fn extract_vault(self) -> (r: Bucket)
        ensures
            r == match self.source_of_funds {
                SourceOfFunds::Direct { vault, .. } => vault,
                SourceOfFunds::FromEscrow { vault, .. } => vault,
            },
    {
        match self.source_of_funds {
            SourceOfFunds::Direct { vault, .. } => vault,
            SourceOfFunds::FromEscrow { vault, .. } => vault,
        }
    }

    /// A direct offer holds well-formed tokens of `resource`; an
    /// allowance-backed one holds a well-formed badge container.
    pub open spec fn wf(&self, resource: ResourceAddress) -> bool {
        match self.source_of_funds {
            SourceOfFunds::Direct { vault, .. } => vault.wf() && vault.resource == resource,
            SourceOfFunds::FromEscrow { vault, .. } => vault.wf(),
        }
    }
}

/// What happened at one offer a market order reached: the position of the
/// offer in the book as it stood, its price, the tokens bought or sold
/// there (none where nothing could be taken), what the taker paid for them,
/// and the escrow before and after.
pub struct Fill {
    pub source: int,
    pub price: int,
    pub quantity: int,
    pub cost: int,
    /// Whether anything was drawn from the offer (always, for a direct one).
    pub used: bool,
    /// The escrow as the offer found it.
    pub before: Escrow,
    /// The escrow as the offer left it.
    pub after: Escrow,
}

/// The smaller of two integers.
pub open spec fn min_int(a: int, b: int) -> int {
    if a <= b {
        a
    } else {
        b
    }
}

/// The tokens a direct offer holds; `None` for an allowance-backed one.
pub open spec fn direct_amount(o: Offering) -> Option<int> {
    match o.source_of_funds {
        SourceOfFunds::Direct { vault, .. } => Some(vault.amount@),
        SourceOfFunds::FromEscrow { .. } => None,
    }
}

/// Some fill took from the offer at position `k`.
pub open spec fn filled(fills: Seq<Fill>, k: int) -> bool {
    exists|i: int| 0 <= i < fills.len() && fills[i].source == k
}

/// The tokens received over all fills.
pub open spec fn total_quantity(fills: Seq<Fill>) -> int
    decreases fills.len(),
{
    if fills.len() == 0 {
        0
    } else {
        total_quantity(fills.drop_last()) + fills.last().quantity
    }
}

/// What was paid over all fills.
pub open spec fn total_cost(fills: Seq<Fill>) -> int
    decreases fills.len(),
{
    if fills.len() == 0 {
        0
    } else {
        total_cost(fills.drop_last()) + fills.last().cost
    }
}

/// Some offer of `book` rests at `price`.
pub open spec fn has_price(book: Seq<(Decimal, Offering)>, price: int) -> bool {
    exists|k: int| 0 <= k < book.len() && book[k].0@ == price
}

/// Prices strictly ascending.
pub open spec fn ascending(prices: Seq<(Decimal, Offering)>) -> bool {
    forall|i: int, j: int| 0 <= i < j < prices.len() ==> prices[i].0@ < prices[j].0@
}

/// Who placed an offer.
pub open spec fn offer_actor(o: Offering) -> Actor {
    match o.source_of_funds {
        SourceOfFunds::Direct { actor, .. } => actor,
        SourceOfFunds::FromEscrow { actor, .. } => actor,
    }
}

/// The allowance of an allowance-backed offer survives a use for `q` in
/// escrow `e` at `now`.
pub open spec fn allowance_survives(e: Escrow, o: Offering, q: int, now: i64) -> bool {
    match badge_of(offer_vault(o)) {
        Some(b) => match e.allowance(b) {
            Some(d) => consumed(d, QuantityModel::Fungible(q), now) is Some,
            None => false,
        },
        None => false,
    }
}

/// The container of an offer.
pub open spec fn offer_vault(o: Offering) -> Bucket {
    match o.source_of_funds {
        SourceOfFunds::Direct { vault, .. } => vault,
        SourceOfFunds::FromEscrow { vault, .. } => vault,
    }
}

/// What an allowance-backed offer can supply of `resource` from escrow `e`
/// at `now`: the least of what its allowance still allows (nothing outside
/// its validity window; no limit where it has none) and what the maker's
/// pool holds. `None` where the offer holds no single live allowance of
/// `e` for `resource`.
pub open spec fn escrow_supply(e: Escrow, o: Offering, resource: ResourceAddress, now: i64) -> Option<
    int,
> {
    match o.source_of_funds {
        SourceOfFunds::Direct { .. } => None,
        SourceOfFunds::FromEscrow { vault, .. } => match badge_of(vault) {
            None => None,
            Some(b) => match e.allowance(b) {
                None => None,
                Some(d) => if d.for_resource != resource {
                    None
                } else {
                    let held = e.balance(d.escrow_pool.1, resource);
                    Some(
                        if !in_window(d, now) {
                            min_int(0, held)
                        } else {
                            match d.max_amount {
                                Some(m) => min_int(m.total(), held),
                                None => held,
                            }
                        },
                    )
                },
            },
        },
    }
}

/// What a market order takes from an allowance-backed offer: the least of
/// what its funds reach, what the offer can supply, and the room left.
pub open spec fn supply_take(
    e: Escrow,
    o: Offering,
    resource: ResourceAddress,
    now: i64,
    reach: int,
    room: int,
) -> int {
    match escrow_supply(e, o, resource, now) {
        Some(s) => min_int(min_int(reach, s), room),
        None => 0,
    }
}

/// An allowance-backed offer is drawn on: it supplies something to take,
/// and the escrow accepts the withdrawal through its allowance.
pub open spec fn supply_ready(
    e: Escrow,
    o: Offering,
    resource: ResourceAddress,
    now: i64,
    reach: int,
    room: int,
) -> bool {
    &&& escrow_supply(e, o, resource, now) is Some
    &&& supply_take(e, o, resource, now, reach, room) >= 0
    &&& e.allowance_error(
        offer_vault(o),
        QuantityModel::Fungible(supply_take(e, o, resource, now, reach, room)),
        now,
        false,
    ) is None
}

/// `q` of `resource` left the maker's pool through the offer's allowance,
/// which was used for it; nothing else in the escrow changed.
pub open spec fn drawn(
    before: Escrow,
    after: Escrow,
    o: Offering,
    resource: ResourceAddress,
    q: int,
    now: i64,
) -> bool {
    &&& badge_of(offer_vault(o)) matches Some(b)
    &&& before.allowance(b) matches Some(d)
    &&& after.balance(d.escrow_pool.1, resource) == before.balance(d.escrow_pool.1, resource) - q
    &&& forall|k: (NonFungibleGlobalId, ResourceAddress)|
        k != (d.escrow_pool.1, resource) ==> #[trigger] lookup(after.vaults@, k) == lookup(
            before.vaults@,
            k,
        )
    &&& allowance_became(before, after, b, consumed(d, QuantityModel::Fungible(q), now))
    &&& after.pools == before.pools
    &&& after.trusted_nfgids == before.trusted_nfgids
    &&& after.trusted_res == before.trusted_res
    &&& counters_moved(before, after, 0, 0)
}

/// Record `i` of a market order is right: at a price of the book, paying
/// the quantity at that price (truncated), for no more than the funds left
/// reach. From a direct offer it takes all it can: the least of what the
/// funds reach, what the offer holds, and the room left; the escrow is not
/// touched. From an allowance-backed offer it takes what `supply_take`
/// says where the escrow accepts that withdrawal, and nothing otherwise.
pub open spec fn record_ok(
    fills: Seq<Fill>,
    i: int,
    book: Seq<(Decimal, Offering)>,
    funds: int,
    resource: ResourceAddress,
    now: i64,
    buy: bool,
) -> bool {
    let f = fills[i];
    let reach = reach_spec(funds - total_cost(fills.take(i)), f.price, buy);
    let room = i128::MAX - total_quantity(fills.take(i));
    let o = book[f.source].1;
    &&& 0 <= f.source < book.len()
    &&& book[f.source].0@ == f.price
    &&& f.quantity >= 0
    &&& f.cost == cost_spec(f.quantity, f.price, buy)
    &&& f.quantity <= reach
    &&& f.used == match direct_amount(o) {
        Some(_) => true,
        None => supply_ready(f.before, o, resource, now, reach, room),
    }
    &&& match direct_amount(o) {
        Some(a) => f.quantity == min_int(min_int(reach, a), room) && f.after == f.before,
        None => if supply_ready(f.before, o, resource, now, reach, room) {
            f.quantity == supply_take(f.before, o, resource, now, reach, room) && drawn(
                f.before,
                f.after,
                o,
                resource,
                f.quantity,
                now,
            )
        } else {
            f.quantity == 0 && f.after == f.before
        },
    }
}

/// What the book holds at a record's price after the walk: a direct offer
/// stays with what it held less the fill while anything is left, and
/// leaves otherwise; an allowance-backed offer stays, still holding its
/// badge, unless the walk drew on it and that use burnt its allowance.
pub open spec fn outcome_ok(
    book_after: Seq<(Decimal, Offering)>,
    f: Fill,
    book: Seq<(Decimal, Offering)>,
    now: i64,
) -> bool {
    let o0 = book[f.source].1;
    match direct_amount(o0) {
        Some(a) => if a - f.quantity > 0 {
            &&& offer_at(book_after, f.price) matches Some(o)
            &&& direct_amount(o) == Some(a - f.quantity)
            &&& offer_actor(o) == offer_actor(o0)
        } else {
            offer_at(book_after, f.price) is None
        },
        None => {
            &&& (offer_at(book_after, f.price) is Some <==> (!f.used || allowance_survives(
                f.before,
                o0,
                f.quantity,
                now,
            )))
            &&& offer_at(book_after, f.price) matches Some(o) ==> (offer_actor(o) == offer_actor(o0)
                && direct_amount(o) is None && badge_of(offer_vault(o)) == badge_of(
                offer_vault(o0),
            ))
        },
    }
}

/// The book after a walk: at each record's price as `outcome_ok` says, and
/// no price that the book did not have before.
pub open spec fn book_left_ok(
    fills: Seq<Fill>,
    book: Seq<(Decimal, Offering)>,
    book_after: Seq<(Decimal, Offering)>,
    now: i64,
) -> bool {
    &&& forall|a: int| 0 <= a < fills.len() ==> outcome_ok(book_after, #[trigger] fills[a], book, now)
    &&& forall|p: int| #[trigger] offer_at(book_after, p) is Some ==> has_price(book, p)
}

/// The records pass the escrow on from `escrow0`, each starting where the
/// one before ended.
pub open spec fn chained(fills: Seq<Fill>, escrow0: Escrow) -> bool {
    &&& fills.len() > 0 ==> fills[0].before == escrow0
    &&& forall|i: int| 0 <= i < fills.len() - 1 ==> (#[trigger] fills[i + 1]).before == fills[i].after
}

/// The escrow after all the records.
pub open spec fn escrow_after(fills: Seq<Fill>, escrow0: Escrow) -> Escrow {
    if fills.len() == 0 {
        escrow0
    } else {
        fills.last().after
    }
}

/// Every record is right, and they chain the escrow from `escrow0`.
pub open spec fn records_ok(
    fills: Seq<Fill>,
    book: Seq<(Decimal, Offering)>,
    funds: int,
    escrow0: Escrow,
    resource: ResourceAddress,
    now: i64,
    buy: bool,
) -> bool {
    &&& forall|i: int| 0 <= i < fills.len() ==> #[trigger] record_ok(fills, i, book, funds, resource, now, buy)
    &&& chained(fills, escrow0)
}

/// The records of a market buy: from offers of the sell book in its order,
/// so cheapest first, each right as `record_ok` says.
pub open spec fn buy_fills(
    fills: Seq<Fill>,
    book: Seq<(Decimal, Offering)>,
    funds: int,
    escrow0: Escrow,
    resource: ResourceAddress,
    now: i64,
) -> bool {
    &&& forall|i: int, j: int| 0 <= i < j < fills.len() ==> fills[i].source < fills[j].source
    &&& forall|i: int, j: int| 0 <= i < j < fills.len() ==> fills[i].price < fills[j].price
    &&& records_ok(fills, book, funds, escrow0, resource, now, true)
}

/// A market buy walked the first `v` offers of the sell book: each of them
/// has a record; the book afterwards holds, after those of them that stay
/// (none of them an empty direct offer), the offers not reached, unchanged; and where it ended before the book did, the
/// funds left buy nothing at the next price, or the purchase could hold no
/// more.
pub open spec fn buy_walked(
    fills: Seq<Fill>,
    book: Seq<(Decimal, Offering)>,
    book_after: Seq<(Decimal, Offering)>,
    funds_left: int,
    bought: int,
    v: int,
) -> bool {
    let rest = book.len() - v;
    &&& 0 <= v <= book.len()
    &&& rest <= book_after.len()
    &&& book_after.subrange(book_after.len() - rest, book_after.len() as int) == book.subrange(
        v,
        book.len() as int,
    )
    &&& forall|j: int|
        0 <= j < book_after.len() - rest ==> (direct_amount(#[trigger] book_after[j].1) matches Some(
            a,
        ) ==> a > 0)
    &&& forall|i: int| 0 <= i < fills.len() ==> (#[trigger] fills[i]).source < v
    &&& forall|k: int| 0 <= k < v ==> #[trigger] filled(fills, k)
    &&& v < book.len() ==> div_spec(funds_left, book[v].0@) == 0 || bought == i128::MAX
}

/// A market buy walked some first part of the sell book, as `buy_walked`
/// says.
pub open spec fn buy_walk_complete(
    fills: Seq<Fill>,
    book: Seq<(Decimal, Offering)>,
    book_after: Seq<(Decimal, Offering)>,
    funds_left: int,
    bought: int,
) -> bool {
    exists|v: int| #[trigger] buy_walked(fills, book, book_after, funds_left, bought, v)
}

/// The records of a market sell: from offers of the buy book in reverse
/// order, so highest bid first, each right as `record_ok` says.
pub open spec fn sell_fills(
    fills: Seq<Fill>,
    book: Seq<(Decimal, Offering)>,
    funds: int,
    escrow0: Escrow,
    resource: ResourceAddress,
    now: i64,
) -> bool {
    &&& forall|i: int, j: int| 0 <= i < j < fills.len() ==> fills[i].source > fills[j].source
    &&& forall|i: int, j: int| 0 <= i < j < fills.len() ==> fills[i].price > fills[j].price
    &&& records_ok(fills, book, funds, escrow0, resource, now, false)
}

/// A market sell walked the last `v` bids of the buy book, from the top:
/// each of them has a record; the book afterwards holds the bids not
/// reached, unchanged, and after them those reached that stay (none of them
/// an empty direct bid); and where it ended before the
/// book did, the tokens left fetch nothing at the next price, or the
/// proceeds could hold no more.
pub open spec fn sell_walked(
    fills: Seq<Fill>,
    book: Seq<(Decimal, Offering)>,
    book_after: Seq<(Decimal, Offering)>,
    funds_left: int,
    received: int,
    v: int,
) -> bool {
    let rest = book.len() - v;
    &&& 0 <= v <= book.len()
    &&& rest <= book_after.len()
    &&& book_after.subrange(0, rest) == book.subrange(0, rest)
    &&& forall|j: int|
        rest <= j < book_after.len() ==> (direct_amount(#[trigger] book_after[j].1) matches Some(a)
            ==> a > 0)
    &&& forall|i: int| 0 <= i < fills.len() ==> (#[trigger] fills[i]).source >= book.len() - v
    &&& forall|k: int| book.len() - v <= k < book.len() ==> #[trigger] filled(fills, k)
    &&& v < book.len() ==> mul_spec(funds_left, book[book.len() - 1 - v].0@) == 0 || received
        == i128::MAX
}

/// A market sell walked some top part of the buy book, as `sell_walked`
/// says.
pub open spec fn sell_walk_complete(
    fills: Seq<Fill>,
    book: Seq<(Decimal, Offering)>,
    book_after: Seq<(Decimal, Offering)>,
    funds_left: int,
    received: int,
) -> bool {
    exists|v: int| #[trigger] sell_walked(fills, book, book_after, funds_left, received, v)
}

/// The amount of `resource` held in payout records.
pub open spec fn record_total(rows: Seq<(NonFungibleGlobalId, Bucket)>, resource: ResourceAddress) -> int
    decreases rows.len(),
{
    if rows.len() == 0 {
        0
    } else {
        record_total(rows.drop_last(), resource) + if rows.last().1.resource == resource {
            rows.last().1.amount@
        } else {
            0
        }
    }
}

/// The amount of `resource` owed to makers in a list of payouts.
pub open spec fn payout_sum(rows: Seq<(Actor, Bucket)>, resource: ResourceAddress) -> int
    decreases rows.len(),
{
    if rows.len() == 0 {
        0
    } else {
        (if rows[0].1.resource == resource {
            rows[0].1.amount@
        } else {
            0
        }) + payout_sum(rows.drop_first(), resource)
    }
}

proof fn lemma_payout_sum_push(rows: Seq<(Actor, Bucket)>, row: (Actor, Bucket), resource: ResourceAddress)
    ensures
        payout_sum(rows.push(row), resource) == payout_sum(rows, resource) + if row.1.resource
            == resource {
            row.1.amount@
        } else {
            0
        },
    decreases rows.len(),
{
    if rows.len() > 0 {
        assert(rows.push(row).drop_first() =~= rows.drop_first().push(row));
        assert(rows.push(row)[0] == rows[0]);
        lemma_payout_sum_push(rows.drop_first(), row, resource);
    } else {
        assert(rows.push(row).drop_first() =~= rows);
        assert(rows.push(row)[0] == row);
    }
}

/// Makers' proceeds of `resource` held for them: in the book's payout
/// records and in the escrow's pools.
pub open spec fn proceeds_held(d: MockDex, e: Escrow, resource: ResourceAddress) -> int {
    record_total(d.payouts_xrd@, resource) + record_total(d.payouts_meme@, resource) + e.total(
        resource,
    )
}

/// Book payout records.
pub type Records = Seq<(NonFungibleGlobalId, Bucket)>;

/// One maker payout went where it belongs: into the maker's pool where the
/// maker named escrow `e0` for payouts and the pool accepts it, otherwise
/// into the book's payout records under the maker's id badge.
pub open spec fn routed(
    x0: Records,
    m0: Records,
    e0: Escrow,
    x1: Records,
    m1: Records,
    e1: Escrow,
    maker: Actor,
    payment: Bucket,
) -> bool {
    let to_pool = maker.escrow_payout_component == Some(e0.component) && e0.deposit_error(
        maker.id_badge,
        payment,
        None,
        false,
    ) is None;
    &&& to_pool ==> deposited(e0, e1, maker.id_badge, payment) && e1.allowances == e0.allowances
        && x1 == x0 && m1 == m0
    &&& !to_pool ==> e1 == e0 && if payment.resource == xrd_spec() {
        x1 == x0.push((maker.id_badge, payment)) && m1 == m0
    } else {
        m1 == m0.push((maker.id_badge, payment)) && x1 == x0
    }
}

/// The payouts `ps`, in order, each went where it belongs, taking the
/// records and the escrow from (`x0`, `m0`, `e0`) to (`x1`, `m1`, `e1`).
pub open spec fn paid_out(
    x0: Records,
    m0: Records,
    e0: Escrow,
    x1: Records,
    m1: Records,
    e1: Escrow,
    ps: Seq<(Actor, Bucket)>,
) -> bool
    decreases ps.len(),
{
    if ps.len() == 0 {
        x1 == x0 && m1 == m0 && e1 == e0
    } else {
        exists|xm: Records, mm: Records, em: Escrow|
            paid_out(x0, m0, e0, xm, mm, em, ps.drop_last()) && #[trigger] routed(
                xm,
                mm,
                em,
                x1,
                m1,
                e1,
                ps.last().0,
                ps.last().1,
            )
    }
}

/// What each maker is owed for the records, in order: the cost of every
/// record that drew on an offer, to the offer's maker.
pub open spec fn owed(fills: Seq<Fill>, book: Seq<(Decimal, Offering)>) -> Seq<(Actor, int)>
    decreases fills.len(),
{
    if fills.len() == 0 {
        Seq::empty()
    } else if fills.last().used {
        owed(fills.drop_last(), book).push(
            (offer_actor(book[fills.last().source].1), fills.last().cost),
        )
    } else {
        owed(fills.drop_last(), book)
    }
}

/// The payouts are what is owed, in `resource`.
pub open spec fn payouts_match(
    ps: Seq<(Actor, Bucket)>,
    due: Seq<(Actor, int)>,
    resource: ResourceAddress,
) -> bool {
    &&& ps.len() == due.len()
    &&& forall|i: int|
        0 <= i < ps.len() ==> (#[trigger] ps[i]).0 == due[i].0 && ps[i].1.amount@ == due[i].1
            && ps[i].1.resource == resource && ps[i].1.wf()
}

/// Escrow `e` would take `q` of the fungible `resource` into `owner`'s pool.
pub open spec fn accepts(e: Escrow, owner: NonFungibleGlobalId, resource: ResourceAddress, q: int) -> bool {
    &&& e.pool_possible(owner)
    &&& e.vault(owner, resource) matches Some(v) ==> v.amount@ + q <= i128::MAX
}

/// The taker's purchase of `q` of `resource`: into the trader's pool of
/// `e0` exactly where the trader named that escrow for payouts and it
/// accepts the deposit, and back to the taker otherwise.
pub open spec fn delivered(
    e0: Escrow,
    e1: Escrow,
    trader: Option<NonFungibleGlobalId>,
    payout_component: Option<ComponentAddress>,
    ret: Option<Bucket>,
    resource: ResourceAddress,
    q: int,
) -> bool {
    &&& ret is None <==> (payout_component == Some(e0.component) && trader is Some && accepts(
        e0,
        trader.unwrap(),
        resource,
        q,
    ))
    &&& ret is None ==> {
        &&& e1.balance(trader.unwrap(), resource) == e0.balance(trader.unwrap(), resource) + q
        &&& forall|k: (NonFungibleGlobalId, ResourceAddress)|
            k != (trader.unwrap(), resource) ==> #[trigger] lookup(e1.vaults@, k) == lookup(
                e0.vaults@,
                k,
            )
        &&& e1.allowances == e0.allowances
    }
    &&& ret matches Some(b) ==> e1 == e0 && b.amount@ == q && b.resource == resource && b.wf()
}

/// An order book for `meme_token` priced in the native resource.
pub struct MockDex {
    pub meme_token: ResourceAddress,
    /// Bids for the token, by price in the native resource, ascending.
    /// Direct bids hold native tokens.
    pub buy_book: Vec<(Decimal, Offering)>,
    /// Asks of the token, by price in the native resource, ascending.
    /// Direct asks hold the token.
    pub sell_book: Vec<(Decimal, Offering)>,
    /// Native-token proceeds held for makers without a payout pool.
    pub payouts_xrd: Vec<(NonFungibleGlobalId, Bucket)>,
    /// Token proceeds held for makers without a payout pool.
    pub payouts_meme: Vec<(NonFungibleGlobalId, Bucket)>,
    /// Containers of offers that left the book.
    pub garbage_heap: Vec<Bucket>,
}

/// Every entry of `book` has a positive price and a well-formed offer of
/// `resource`.
pub open spec fn book_wf(book: Seq<(Decimal, Offering)>, resource: ResourceAddress) -> bool {
    &&& ascending(book)
    &&& forall|i: int| 0 <= i < book.len() ==> (#[trigger] book[i]).0@ > 0 && book[i].1.wf(resource)
}

/// The smaller of an optional limit and what is available.
fn find_smallest(limit: Option<Decimal>, available: Decimal) -> (r: Decimal)
    ensures
        r@ == match limit {
            Some(l) => if l@ <= available@ {
                l@
            } else {
                available@
            },
            None => available@,
        },
{
    match limit {
        Some(l) => l.min(available),
        None => available,
    }
}

/// What an allowance still allows at `now`: nothing outside its validity
/// window, its remaining total within it, `None` where it is unlimited.
fn find_allowance_limit(data: &AllowanceNfData, now: i64) -> (r: Option<Decimal>)
    ensures
        !crate::allowance::in_window(data@, now) ==> r == Some(Decimal { attos: 0 }),
        crate::allowance::in_window(data@, now) ==> match data.max_amount {
            Some(q) => r matches Some(d) && d@ == q.total(),
            None => r is None,
        },
{
    if data.is_valid(now) {
        match &data.max_amount {
            Some(q) => Some(q.to_amount()),
            None => None,
        }
    } else {
        Some(Decimal { attos: 0 })
    }
}

/// A fill at `price` of `quantity` costs at most the funds that wanted it.
proof fn lemma_buy_cost_bounded(funds: int, price: int, quantity: int)
    requires
        funds >= 0,
        price > 0,
        0 <= quantity <= div_spec(funds, price),
    ensures
        0 <= mul_spec(quantity, price) <= funds,
{
    let s = one();
    let w = (funds * s) / price;
    vstd::arithmetic::div_mod::lemma_fundamental_div_mod(funds * s, price);
    assert(w * price <= funds * s) by (nonlinear_arith)
        requires
            funds * s == price * w + (funds * s) % price,
            (funds * s) % price >= 0,
    ;
    assert(quantity * price <= funds * s) by (nonlinear_arith)
        requires
            quantity <= w,
            w * price <= funds * s,
            price > 0,
            quantity >= 0,
    ;
    assert(quantity * price >= 0) by (nonlinear_arith)
        requires
            quantity >= 0,
            price > 0,
    ;
    vstd::arithmetic::div_mod::lemma_div_is_ordered(quantity * price, funds * s, s);
    vstd::arithmetic::div_mod::lemma_div_multiples_vanish(funds, s);
    vstd::arithmetic::div_mod::lemma_div_pos_is_pos(quantity * price, s);
}

/// A sale at `price` of `quantity` native tokens takes at most the tokens
/// that wanted them.
proof fn lemma_sell_cost_bounded(funds: int, price: int, quantity: int)
    requires
        funds >= 0,
        price > 0,
        0 <= quantity <= mul_spec(funds, price),
    ensures
        0 <= div_spec(quantity, price) <= funds,
{
    let s = one();
    let w = (funds * price) / s;
    vstd::arithmetic::div_mod::lemma_fundamental_div_mod(funds * price, s);
    assert(w * s <= funds * price) by (nonlinear_arith)
        requires
            funds * price == s * w + (funds * price) % s,
            (funds * price) % s >= 0,
    ;
    assert(quantity * s <= funds * price) by (nonlinear_arith)
        requires
            quantity <= w,
            w * s <= funds * price,
            s > 0,
            quantity >= 0,
    ;
    assert(quantity * s >= 0) by (nonlinear_arith)
        requires
            quantity >= 0,
            s > 0,
    ;
    vstd::arithmetic::div_mod::lemma_div_is_ordered(quantity * s, funds * price, price);
    vstd::arithmetic::div_mod::lemma_div_multiples_vanish(funds, price);
    assert(funds * price == price * funds) by (nonlinear_arith);
    assert(quantity * s == quantity * one());
    vstd::arithmetic::div_mod::lemma_div_pos_is_pos(quantity * s, price);
}


/// The most an incoming order still wants from an offer at `price`: for a
/// buy, what its native funds buy there; for a sell, what its tokens fetch
/// there. `None` where that exceeds the decimal range.
fn wanted_at(incoming: Decimal, price: Decimal, buy: bool) -> (r: Option<Decimal>)
    requires
        incoming@ >= 0,
        price@ > 0,
    ensures
        buy ==> (r is Some <==> div_spec(incoming@, price@) <= i128::MAX),
        !buy ==> (r is Some <==> mul_spec(incoming@, price@) <= i128::MAX),
        r matches Some(w) ==> w@ == if buy {
            div_spec(incoming@, price@)
        } else {
            mul_spec(incoming@, price@)
        },
{
    if buy {
        incoming.checked_div(price)
    } else {
        incoming.checked_mul(price)
    }
}

/// What the taker pays for `quantity` at `price`: native tokens for a buy,
/// tokens for a sell.
pub open spec fn cost_spec(quantity: int, price: int, buy: bool) -> int {
    if buy {
        mul_spec(quantity, price)
    } else {
        div_spec(quantity, price)
    }
}

/// The most a taker with `funds` can take at `price`.
pub open spec fn reach_spec(funds: int, price: int, buy: bool) -> int {
    if buy {
        div_spec(funds, price)
    } else {
        mul_spec(funds, price)
    }
}

/// The result of one offer's turn in a market order.
pub struct StepOutcome {
    /// The offer, as it stands afterwards.
    pub offering: Offering,
    /// Whether the walk should stop here.
    pub stop: bool,
    /// Whether the offer stays on the book.
    pub keep: bool,
    /// What was taken from the offer, what the taker paid, and to whom.
    pub fill: Option<(Bucket, Bucket, Actor)>,
}

/// Fills what `incoming` can take from one offer at `price`, within what
/// the offer holds (for an allowance-backed one: the smaller of what the
/// allowance still allows and what the maker's pool holds, both read now).
/// `room` is what the taker's purchase can still absorb.
fn step(
    escrow: &mut Escrow,
    offering: Offering,
    price: Decimal,
    buy: bool,
    incoming: &mut Bucket,
    room: Decimal,
    out_resource: ResourceAddress,
    now: i64,
) -> (r: StepOutcome)
    requires
        old(escrow).wf(),
        old(incoming).wf(),
        old(incoming).resource.fungible,
        price@ > 0,
        offering.wf(out_resource),
        out_resource.fungible,
        room@ >= 0,
    ensures
        final(escrow).wf(),
        final(incoming).wf(),
        final(incoming).resource == old(incoming).resource,
        r.offering.wf(out_resource),
        r.stop ==> r.keep && r.fill is None,
        r.fill is None ==> *final(incoming) == *old(incoming),
        r.stop ==> reach_spec(old(incoming).amount@, price@, buy) == 0 || room@ == 0,
        r.stop ==> r.offering == offering,
        r.stop ==> *final(escrow) == *old(escrow),
        !r.stop ==> offer_actor(r.offering) == offer_actor(offering),
        r.fill matches Some((_, _, a)) ==> a == offer_actor(offering),
        !r.stop ==> (direct_amount(offering) matches Some(a) ==> (r.fill matches Some((taken, _, _))
            && direct_amount(r.offering) == Some(a - taken.amount@) && (r.keep <==> a
            - taken.amount@ > 0))),
        !r.stop ==> (direct_amount(offering) is None ==> ((r.keep ==> badge_of(offer_vault(r.offering))
            == badge_of(offer_vault(offering))) && (r.keep <==> (r.fill matches Some((taken, _, _))
            ==> allowance_survives(*old(escrow), offering, taken.amount@, now))))),
        direct_amount(offering) is None ==> direct_amount(r.offering) is None,
        !r.stop && r.keep && direct_amount(offering) is Some ==> (direct_amount(r.offering) matches Some(
            a,
        ) && a > 0),
        r.fill is None ==> *final(escrow) == *old(escrow),
        direct_amount(offering) is Some ==> *final(escrow) == *old(escrow),
        !r.stop ==> (direct_amount(offering) is None ==> ((r.fill is Some <==> supply_ready(
            *old(escrow),
            offering,
            out_resource,
            now,
            reach_spec(old(incoming).amount@, price@, buy),
            room@,
        )) && (r.fill matches Some((taken, _, _)) ==> taken.amount@ == supply_take(
            *old(escrow),
            offering,
            out_resource,
            now,
            reach_spec(old(incoming).amount@, price@, buy),
            room@,
        ) && drawn(*old(escrow), *final(escrow), offering, out_resource, taken.amount@, now)))),
        !r.stop ==> (direct_amount(offering) matches Some(a) ==> (r.fill matches Some((taken, _, _))
            && taken.amount@ == min_int(
            min_int(reach_spec(old(incoming).amount@, price@, buy), a),
            room@,
        ))),
        r.fill matches Some((taken, payout, _)) ==> {
            &&& taken.wf() && payout.wf()
            &&& taken.resource == out_resource
            &&& payout.resource == old(incoming).resource
            &&& 0 <= taken.amount@ <= room@
            &&& taken.amount@ <= reach_spec(old(incoming).amount@, price@, buy)
            &&& payout.amount@ == cost_spec(taken.amount@, price@, buy)
            &&& final(incoming).amount@ == old(incoming).amount@ - payout.amount@
        },
{
    let wanted = wanted_at(incoming.amount, price, buy);
    match wanted {
        Some(w) => {
            if w.is_zero() || room.is_zero() {
                return StepOutcome { offering, stop: true, keep: true, fill: None };
            }
        },
        None => {
            if room.is_zero() {
                return StepOutcome { offering, stop: true, keep: true, fill: None };
            }
        },
    }
    let ghost reach = reach_spec(incoming.amount@, price@, buy);
    match offering.source_of_funds {
        SourceOfFunds::Direct { actor, price_in_xrd, mut vault } => {
            let avail = vault.amount;
            let mut take = match wanted {
                Some(w) => w.min(avail),
                None => avail,
            };
            take = take.min(room);
            proof {
                if buy {
                    lemma_buy_cost_bounded(incoming.amount@, price@, take@);
                } else {
                    lemma_sell_cost_bounded(incoming.amount@, price@, take@);
                }
            }
            let cost = if buy {
                take.checked_mul(price)
            } else {
                take.checked_div(price)
            };
            let cost = match cost {
                Some(c) => c,
                None => {
                    return StepOutcome {
                        offering: Offering {
                            source_of_funds: SourceOfFunds::Direct { actor, price_in_xrd, vault },
                        },
                        stop: false,
                        keep: true,
                        fill: None,
                    };
                },
            };
            let taken = vault.take_quantity(&None, &Some(take));
            let payout = incoming.take_quantity(&None, &Some(cost));
            let keep = !vault.is_empty();
            StepOutcome {
                offering: Offering {
                    source_of_funds: SourceOfFunds::Direct { actor, price_in_xrd, vault },
                },
                stop: false,
                keep,
                fill: Some((taken, payout, actor)),
            }
        },
        SourceOfFunds::FromEscrow { actor, price_in_xrd, mut vault } => {
            if vault.ids.len() != 1 {
                return StepOutcome {
                    offering: Offering {
                        source_of_funds: SourceOfFunds::FromEscrow { actor, price_in_xrd, vault },
                    },
                    stop: false,
                    keep: true,
                    fill: None,
                };
            }
            let badge = NonFungibleGlobalId { resource: vault.resource, local_id: vault.ids[0] };
            let data = match escrow.allowance_data(&badge) {
                Some(d) => d,
                None => {
                    return StepOutcome {
                        offering: Offering {
                            source_of_funds: SourceOfFunds::FromEscrow { actor, price_in_xrd, vault },
                        },
                        stop: false,
                        keep: true,
                        fill: None,
                    };
                },
            };
            let limit = find_allowance_limit(&data, now);
            let avail = escrow.read_funds(data.escrow_pool.1, out_resource);
            let max_avail = find_smallest(limit, avail);
            let mut take = match wanted {
                Some(w) => w.min(max_avail),
                None => max_avail,
            };
            take = take.min(room);
            let cost = if take.is_negative() || data.for_resource != out_resource {
                None
            } else {
                proof {
                    if buy {
                        lemma_buy_cost_bounded(incoming.amount@, price@, take@);
                    } else {
                        lemma_sell_cost_bounded(incoming.amount@, price@, take@);
                    }
                }
                if buy {
                    take.checked_mul(price)
                } else {
                    take.checked_div(price)
                }
            };
            let cost = match cost {
                Some(c) => c,
                None => {
                    return StepOutcome {
                        offering: Offering {
                            source_of_funds: SourceOfFunds::FromEscrow { actor, price_in_xrd, vault },
                        },
                        stop: false,
                        keep: true,
                        fill: None,
                    };
                },
            };
            let ghost orig_ids = vault.ids@;
            let allowance = vault.take_all();
            match escrow.withdraw_with_allowance(allowance, &TokenQuantity::Fungible(take), now) {
                Err((_, back)) => {
                    vault.put(back);
                    assert(vault.ids@ =~= orig_ids);
                    StepOutcome {
                        offering: Offering {
                            source_of_funds: SourceOfFunds::FromEscrow { actor, price_in_xrd, vault },
                        },
                        stop: false,
                        keep: true,
                        fill: None,
                    }
                },
                Ok((taken, back)) => {
                    let payout = incoming.take_quantity(&None, &Some(cost));
                    let keep = match back {
                        Some(b) => {
                            vault.put(b);
                            assert(vault.ids@ =~= orig_ids);
                            true
                        },
                        None => false,
                    };
                    StepOutcome {
                        offering: Offering {
                            source_of_funds: SourceOfFunds::FromEscrow { actor, price_in_xrd, vault },
                        },
                        stop: false,
                        keep,
                        fill: Some((taken, payout, actor)),
                    }
                },
            }
        },
    }
}


/// Every price of `book` is a price of `origin`.
pub open spec fn prices_from(book: Seq<(Decimal, Offering)>, origin: Seq<(Decimal, Offering)>) -> bool {
    forall|k: int| 0 <= k < book.len() ==> #[trigger] has_price(origin, book[k].0@)
}

proof fn lemma_prices_from_self(book: Seq<(Decimal, Offering)>)
    ensures
        prices_from(book, book),
{
    assert forall|k: int| 0 <= k < book.len() implies #[trigger] has_price(book, book[k].0@) by {
        assert(book[k].0@ == book[k].0@);
    }
}

/// A right record, starting from the escrow the records so far leave,
/// extends right records.
proof fn lemma_records_push(
    fills: Seq<Fill>,
    book: Seq<(Decimal, Offering)>,
    funds: int,
    escrow0: Escrow,
    resource: ResourceAddress,
    now: i64,
    buy: bool,
    f: Fill,
)
    requires
        records_ok(fills, book, funds, escrow0, resource, now, buy),
        f.before == escrow_after(fills, escrow0),
        record_ok(fills.push(f), fills.len() as int, book, funds, resource, now, buy),
    ensures
        records_ok(fills.push(f), book, funds, escrow0, resource, now, buy),
        escrow_after(fills.push(f), escrow0) == f.after,
        forall|k: int| filled(fills, k) ==> #[trigger] filled(fills.push(f), k),
        filled(fills.push(f), f.source),
{
    lemma_take_push(fills, f);
    let nf = fills.push(f);
    assert forall|i: int| 0 <= i < nf.len() implies #[trigger] record_ok(
        nf,
        i,
        book,
        funds,
        resource,
        now,
        buy,
    ) by {
        if i < fills.len() {
            assert(nf[i] == fills[i]);
            assert(nf.take(i) == fills.take(i));
            assert(record_ok(fills, i, book, funds, resource, now, buy));
        }
    }
    assert forall|i: int| 0 <= i < nf.len() - 1 implies (#[trigger] nf[i + 1]).before
        == nf[i].after by {
        assert(nf[i] == fills[i]);
        if i + 1 < fills.len() {
            assert(nf[i + 1] == fills[i + 1]);
        }
    }
    if fills.len() > 0 {
        assert(nf[0] == fills[0]);
    }
    assert forall|k: int| filled(fills, k) implies #[trigger] filled(nf, k) by {
        let i = choose|i: int| 0 <= i < fills.len() && fills[i].source == k;
        assert(nf[i] == fills[i]);
    }
    assert(nf[fills.len() as int] == f);
}

/// What the funds left reach is never negative.
proof fn lemma_reach_nonneg(funds: int, price: int, buy: bool)
    requires
        funds >= 0,
        price > 0,
    ensures
        reach_spec(funds, price, buy) >= 0,
        cost_spec(0, price, buy) == 0,
{
    assert(funds * price >= 0) by (nonlinear_arith)
        requires
            funds >= 0,
            price > 0,
    ;
    assert(funds * one() >= 0) by (nonlinear_arith)
        requires
            funds >= 0,
    ;
    vstd::arithmetic::div_mod::lemma_div_pos_is_pos(funds * price, one());
    vstd::arithmetic::div_mod::lemma_div_pos_is_pos(funds * one(), price);
    vstd::arithmetic::div_mod::lemma_div_of0(price);
    vstd::arithmetic::div_mod::lemma_div_of0(one());
}

/// Putting an offer back where it was, at the same price, keeps the book
/// well formed and its prices.
proof fn lemma_book_put_back(
    before: Seq<(Decimal, Offering)>,
    i: int,
    entry: (Decimal, Offering),
    origin: Seq<(Decimal, Offering)>,
    resource: ResourceAddress,
)
    requires
        book_wf(before, resource),
        prices_from(before, origin),
        0 <= i < before.len(),
        entry.0 == before[i].0,
        entry.1.wf(resource),
    ensures
        book_wf(before.remove(i).insert(i, entry), resource),
        prices_from(before.remove(i).insert(i, entry), origin),
        before.remove(i).insert(i, entry) == before.update(i, entry),
{
    let after = before.remove(i).insert(i, entry);
    assert(after =~= before.update(i, entry));
    assert forall|k: int| 0 <= k < after.len() implies #[trigger] has_price(origin, after[k].0@) by {
        assert(after[k].0 == before[k].0);
        assert(has_price(origin, before[k].0@));
    }
    assert forall|a: int, b: int| 0 <= a < b < after.len() implies after[a].0@ < after[b].0@ by {
        assert(after[a].0 == before[a].0);
        assert(after[b].0 == before[b].0);
    }
    assert forall|j: int| 0 <= j < after.len() implies (#[trigger] after[j]).0@ > 0 && after[j].1.wf(resource) by {
        if j != i {
            assert(after[j] == before[j]);
        }
    }
}

/// Removing an offer keeps the book well formed and its prices.
proof fn lemma_book_remove(
    before: Seq<(Decimal, Offering)>,
    i: int,
    origin: Seq<(Decimal, Offering)>,
    resource: ResourceAddress,
)
    requires
        book_wf(before, resource),
        prices_from(before, origin),
        0 <= i < before.len(),
    ensures
        book_wf(before.remove(i), resource),
        prices_from(before.remove(i), origin),
        forall|k: int| 0 <= k < before.remove(i).len() ==> before.remove(i)[k] == if k < i {
            before[k]
        } else {
            before[k + 1]
        },
{
    let after = before.remove(i);
    assert forall|k: int| 0 <= k < after.len() implies #[trigger] has_price(origin, after[k].0@) by {
        let kk = if k < i {
            k
        } else {
            k + 1
        };
        assert(before[kk] == after[k]);
        assert(has_price(origin, before[kk].0@));
    }
    assert forall|a: int, b: int| 0 <= a < b < after.len() implies after[a].0@ < after[b].0@ by {
        let aa = if a < i {
            a
        } else {
            a + 1
        };
        let bb = if b < i {
            b
        } else {
            b + 1
        };
        assert(before[aa] == after[a]);
        assert(before[bb] == after[b]);
    }
    assert forall|j: int| 0 <= j < after.len() implies (#[trigger] after[j]).0@ > 0 && after[j].1.wf(resource) by {
        let jj = if j < i {
            j
        } else {
            j + 1
        };
        assert(before[jj] == after[j]);
    }
}

proof fn lemma_take_push(fills: Seq<Fill>, f: Fill)
    ensures
        fills.push(f).take(fills.len() as int) == fills,
        forall|i: int| 0 <= i <= fills.len() ==> #[trigger] fills.push(f).take(i) == fills.take(i),
        total_cost(fills.push(f)) == total_cost(fills) + f.cost,
        total_quantity(fills.push(f)) == total_quantity(fills) + f.quantity,
{
    assert(fills.push(f).take(fills.len() as int) =~= fills);
    assert(fills.push(f).drop_last() =~= fills);
    assert forall|i: int| 0 <= i <= fills.len() implies #[trigger] fills.push(f).take(i) == fills.take(i) by {
        assert(fills.push(f).take(i) =~= fills.take(i));
    }
}

impl MockDex {
    /// Both books are well formed, the token is fungible, and containers
    /// held for makers are well formed.
    pub open spec fn wf(&self) -> bool {
        &&& self.meme_token.fungible
        &&& self.meme_token != xrd_spec()
        &&& book_wf(self.sell_book@, self.meme_token)
        &&& book_wf(self.buy_book@, xrd_spec())
    }

    /// A new, empty order book for `meme_token`.
    pub fn instantiate_mock_dex(meme_token: ResourceAddress) -> (r: MockDex)
        requires
            meme_token.fungible,
            meme_token != xrd_spec(),
        ensures
            r.wf(),
            r.meme_token == meme_token,
            r.buy_book@.len() == 0,
            r.sell_book@.len() == 0,
    {
        MockDex {
            meme_token,
            buy_book: Vec::new(),
            sell_book: Vec::new(),
            payouts_xrd: Vec::new(),
            payouts_meme: Vec::new(),
            garbage_heap: Vec::new(),
        }
    }

    /// Walks the sell book from the cheapest ask up, buying with `payment`
    /// into `purchased`, and lists what each maker is owed.
    fn walk_sell_book(
        &mut self,
        escrow: &mut Escrow,
        payment: &mut Bucket,
        purchased: &mut Bucket,
        payouts: &mut Vec<(Actor, Bucket)>,
        now: i64,
    ) -> (fills: Ghost<Seq<Fill>>)
        requires
            old(self).wf(),
            old(escrow).wf(),
            old(payment).wf(),
            old(payment).resource == xrd_spec(),
            old(purchased).wf(),
            old(purchased).resource == old(self).meme_token,
            old(purchased).amount@ == 0,
            old(payouts)@.len() == 0,
        ensures
            final(self).wf(),
            final(self).meme_token == old(self).meme_token,
            final(self).buy_book == old(self).buy_book,
            final(self).payouts_xrd == old(self).payouts_xrd,
            final(self).payouts_meme == old(self).payouts_meme,
            forall|r: ResourceAddress| #[trigger] payout_sum(final(payouts)@, r) == payout_sum(
                old(payouts)@,
                r,
            ) + if r == xrd_spec() {
                total_cost(fills@)
            } else {
                0
            },
            final(escrow).wf(),
            *final(escrow) == escrow_after(fills@, *old(escrow)),
            final(payment).wf(),
            final(payment).resource == xrd_spec(),
            final(purchased).wf(),
            final(purchased).resource == old(self).meme_token,
            forall|k: int| 0 <= k < final(payouts)@.len() ==> (#[trigger] final(payouts)@[k]).1.wf(),
            buy_fills(
                fills@,
                old(self).sell_book@,
                old(payment).amount@,
                *old(escrow),
                old(self).meme_token,
                now,
            ),
            buy_walk_complete(
                fills@,
                old(self).sell_book@,
                final(self).sell_book@,
                final(payment).amount@,
                final(purchased).amount@,
            ),
            book_left_ok(fills@, old(self).sell_book@, final(self).sell_book@, now),
            payouts_match(final(payouts)@, owed(fills@, old(self).sell_book@), xrd_spec()),
            final(payment).amount@ == old(payment).amount@ - total_cost(fills@),
            final(purchased).amount@ == total_quantity(fills@),
    {
        let ghost book0 = self.sell_book@;
        let ghost funds0 = payment.amount@;
        let ghost escrow0 = *escrow;
        let ghost mut fills: Seq<Fill> = Seq::empty();
        let ghost mut visited: int = 0;
        let meme = self.meme_token;
        proof {
            lemma_prices_from_self(book0);
        }
        let mut i: usize = 0;
        while i < self.sell_book.len()
            invariant
                self.meme_token == meme,
                meme.fungible,
                book_wf(self.sell_book@, meme),
                book_wf(self.buy_book@, xrd_spec()),
                self.buy_book == old(self).buy_book,
                self.payouts_xrd == old(self).payouts_xrd,
                self.payouts_meme == old(self).payouts_meme,
                forall|r: ResourceAddress| #[trigger] payout_sum(payouts@, r) == payout_sum(
                    old(payouts)@,
                    r,
                ) + if r == xrd_spec() {
                    total_cost(fills)
                } else {
                    0
                },
                book_wf(book0, meme),
                prices_from(self.sell_book@, book0),
                i <= self.sell_book@.len(),
                0 <= visited <= book0.len(),
                self.sell_book@.len() - i == book0.len() - visited,
                forall|j: int|
                    i <= j < self.sell_book@.len() ==> #[trigger] self.sell_book@[j] == book0[visited
                        + j - i],
                forall|a: int| 0 <= a < fills.len() ==> (#[trigger] fills[a]).source < visited,
                forall|a: int|
                    0 <= a < fills.len() ==> outcome_ok(self.sell_book@, #[trigger] fills[a], book0, now),
                payouts_match(payouts@, owed(fills, book0), xrd_spec()),
                forall|k: int| 0 <= k < visited ==> #[trigger] filled(fills, k),
                forall|j: int|
                    0 <= j < i ==> (direct_amount(#[trigger] self.sell_book@[j].1) matches Some(a)
                        ==> a > 0),
                forall|a: int, j: int|
                    0 <= a < fills.len() && i <= j < self.sell_book@.len() ==> (
                    #[trigger] fills[a]).price < (#[trigger] self.sell_book@[j]).0@,
                buy_fills(fills, book0, funds0, escrow0, meme, now),
                escrow.wf(),
                *escrow == escrow_after(fills, escrow0),
                payment.wf(),
                payment.resource == xrd_spec(),
                payment.amount@ == funds0 - total_cost(fills),
                purchased.wf(),
                purchased.resource == meme,
                purchased.amount@ == total_quantity(fills),
                forall|k: int| 0 <= k < payouts@.len() ==> (#[trigger] payouts@[k]).1.wf(),
            ensures
                visited == book0.len() || (visited < book0.len() && (div_spec(
                    payment.amount@,
                    book0[visited].0@,
                ) == 0 || purchased.amount@ == i128::MAX)),
            decreases self.sell_book.len() - i,
        {
            let ghost before = self.sell_book@;
            let (price, offering) = self.sell_book.remove(i);
            assert(before[i as int] == book0[visited]);
            let ghost e_before = *escrow;
            let room = Decimal { attos: i128::MAX - purchased.amount.attos };
            proof {
                lemma_reach_nonneg(payment.amount@, price@, true);
            }
            let out = step(escrow, offering, price, true, payment, room, meme, now);
            let StepOutcome { offering, stop, keep, fill } = out;
            let ghost old_fills = fills;
            match fill {
                Some((taken, payout, actor)) => {
                    let ghost f = Fill {
                        source: visited,
                        price: price@,
                        quantity: taken.amount@,
                        cost: payout.amount@,
                        used: true,
                        before: e_before,
                        after: *escrow,
                    };
                    proof {
                        lemma_take_push(fills, f);
                        assert(fills.push(f)[fills.len() as int] == f);
                        assert(record_ok(fills.push(f), fills.len() as int, book0, funds0, meme, now, true));
                        lemma_records_push(fills, book0, funds0, escrow0, meme, now, true, f);
                        assert forall|x: int, y: int| 0 <= x < y < fills.push(f).len() implies fills.push(f)[x].source
                            < fills.push(f)[y].source && fills.push(f)[x].price < fills.push(f)[y].price by {
                            assert(fills.push(f)[x] == fills[x]);
                            if y < fills.len() {
                                assert(fills.push(f)[y] == fills[y]);
                            } else {
                                assert(fills[x].price < before[i as int].0@);
                            }
                        }
                        fills = fills.push(f);
                    }
                    proof {
                        assert forall|r: ResourceAddress| #[trigger] payout_sum(
                            payouts@.push((actor, payout)),
                            r,
                        ) == payout_sum(payouts@, r) + if payout.resource == r {
                            payout.amount@
                        } else {
                            0
                        } by {
                            lemma_payout_sum_push(payouts@, (actor, payout), r);
                        }
                    }
                    let ghost ps0 = payouts@;
                    purchased.put(taken);
                    payouts.push((actor, payout));
                    proof {
                        let lf = fills.last();
                        assert(fills.drop_last() =~= old_fills);
                        assert(owed(fills, book0) == owed(old_fills, book0).push(
                            (offer_actor(book0[lf.source].1), lf.cost),
                        ));
                        assert forall|x: int| 0 <= x < payouts@.len() implies (
                        #[trigger] payouts@[x]).0 == owed(fills, book0)[x].0 && payouts@[x].1.amount@
                            == owed(fills, book0)[x].1 && payouts@[x].1.resource
                            == payout.resource && payouts@[x].1.wf() by {
                            if x < ps0.len() {
                                assert(payouts@[x] == ps0[x]);
                            }
                        }
                    }
                },
                None => {
                    if !stop {
                        let ghost f = Fill {
                            source: visited,
                            price: price@,
                            quantity: 0,
                            cost: 0,
                            used: false,
                            before: e_before,
                            after: e_before,
                        };
                        proof {
                            lemma_take_push(fills, f);
                            assert(fills.push(f)[fills.len() as int] == f);
                            assert(record_ok(fills.push(f), fills.len() as int, book0, funds0, meme, now, true));
                            lemma_records_push(fills, book0, funds0, escrow0, meme, now, true, f);
                            assert forall|x: int, y: int| 0 <= x < y < fills.push(f).len() implies fills.push(f)[x].source
                            < fills.push(f)[y].source && fills.push(f)[x].price < fills.push(f)[y].price by {
                            assert(fills.push(f)[x] == fills[x]);
                            if y < fills.len() {
                                assert(fills.push(f)[y] == fills[y]);
                            } else {
                                assert(fills[x].price < before[i as int].0@);
                            }
                        }
                            fills = fills.push(f);
                            assert(fills.drop_last() =~= old_fills);
                        }
                    }
                },
            }
            if keep {
                self.sell_book.insert(i, (price, offering));
                proof {
                    lemma_book_put_back(before, i as int, (price, offering), book0, meme);
                    lemma_outcomes_kept(old_fills, before, self.sell_book@, i as int, book0, now);
                    lemma_offer_at(self.sell_book@, i as int);
                    assert forall|a: int| 0 <= a < fills.len() implies outcome_ok(
                        self.sell_book@,
                        #[trigger] fills[a],
                        book0,
                        now,
                    ) by {
                        if a < old_fills.len() {
                            assert(fills[a] == old_fills[a]);
                        }
                    }
                }
                if stop {
                    break;
                }
                i = i + 1;
            } else {
                self.garbage_heap.push(offering.extract_vault());
                proof {
                    lemma_book_remove(before, i as int, book0, meme);
                    lemma_outcomes_kept(old_fills, before, self.sell_book@, i as int, book0, now);
                    lemma_offer_at_elsewhere(before, self.sell_book@, i as int, price@);
                    assert forall|a: int| 0 <= a < fills.len() implies outcome_ok(
                        self.sell_book@,
                        #[trigger] fills[a],
                        book0,
                        now,
                    ) by {
                        if a < old_fills.len() {
                            assert(fills[a] == old_fills[a]);
                        }
                    }
                }
            }
            proof {
                visited = visited + 1;
            }
        }
        proof {
            assert(self.sell_book@.subrange(
                self.sell_book@.len() - (book0.len() - visited),
                self.sell_book@.len() as int,
            ) =~= book0.subrange(visited, book0.len() as int));
            lemma_no_new_prices(self.sell_book@, book0);
            assert(buy_walked(
                fills,
                book0,
                self.sell_book@,
                payment.amount@,
                purchased.amount@,
                visited,
            ));
        }
        Ghost(fills)
    }

    /// Walks the buy book from the highest bid down, selling `selling` for
    /// native tokens into `purchased`, and lists what each maker is owed.
    fn walk_buy_book(
        &mut self,
        escrow: &mut Escrow,
        selling: &mut Bucket,
        purchased: &mut Bucket,
        payouts: &mut Vec<(Actor, Bucket)>,
        now: i64,
    ) -> (fills: Ghost<Seq<Fill>>)
        requires
            old(self).wf(),
            old(escrow).wf(),
            old(selling).wf(),
            old(selling).resource == old(self).meme_token,
            old(purchased).wf(),
            old(purchased).resource == xrd_spec(),
            old(purchased).amount@ == 0,
            old(payouts)@.len() == 0,
        ensures
            final(self).wf(),
            final(self).meme_token == old(self).meme_token,
            final(self).sell_book == old(self).sell_book,
            final(self).payouts_xrd == old(self).payouts_xrd,
            final(self).payouts_meme == old(self).payouts_meme,
            forall|r: ResourceAddress| #[trigger] payout_sum(final(payouts)@, r) == payout_sum(
                old(payouts)@,
                r,
            ) + if r == old(self).meme_token {
                total_cost(fills@)
            } else {
                0
            },
            final(escrow).wf(),
            *final(escrow) == escrow_after(fills@, *old(escrow)),
            final(selling).wf(),
            final(selling).resource == old(self).meme_token,
            final(purchased).wf(),
            final(purchased).resource == xrd_spec(),
            forall|k: int| 0 <= k < final(payouts)@.len() ==> (#[trigger] final(payouts)@[k]).1.wf(),
            sell_fills(fills@, old(self).buy_book@, old(selling).amount@, *old(escrow), xrd_spec(), now),
            sell_walk_complete(
                fills@,
                old(self).buy_book@,
                final(self).buy_book@,
                final(selling).amount@,
                final(purchased).amount@,
            ),
            book_left_ok(fills@, old(self).buy_book@, final(self).buy_book@, now),
            payouts_match(final(payouts)@, owed(fills@, old(self).buy_book@), old(self).meme_token),
            final(selling).amount@ == old(selling).amount@ - total_cost(fills@),
            final(purchased).amount@ == total_quantity(fills@),
    {
        let ghost book0 = self.buy_book@;
        let ghost funds0 = selling.amount@;
        let ghost escrow0 = *escrow;
        let ghost mut fills: Seq<Fill> = Seq::empty();
        let meme = self.meme_token;
        proof {
            lemma_prices_from_self(book0);
        }
        let mut i: usize = self.buy_book.len();
        while i > 0
            invariant
                self.meme_token == meme,
                meme.fungible,
                book_wf(self.sell_book@, meme),
                book_wf(self.buy_book@, xrd_spec()),
                self.sell_book == old(self).sell_book,
                self.payouts_xrd == old(self).payouts_xrd,
                self.payouts_meme == old(self).payouts_meme,
                forall|r: ResourceAddress| #[trigger] payout_sum(payouts@, r) == payout_sum(
                    old(payouts)@,
                    r,
                ) + if r == meme {
                    total_cost(fills)
                } else {
                    0
                },
                prices_from(self.buy_book@, book0),
                i <= self.buy_book@.len(),
                i <= book0.len(),
                forall|j: int| 0 <= j < i ==> #[trigger] self.buy_book@[j] == book0[j],
                forall|a: int| 0 <= a < fills.len() ==> (#[trigger] fills[a]).source >= i,
                forall|a: int|
                    0 <= a < fills.len() ==> outcome_ok(self.buy_book@, #[trigger] fills[a], book0, now),
                payouts_match(payouts@, owed(fills, book0), meme),
                forall|k: int| i <= k < book0.len() ==> #[trigger] filled(fills, k),
                forall|j: int|
                    i <= j < self.buy_book@.len() ==> (direct_amount(#[trigger] self.buy_book@[j].1) matches Some(
                        a,
                    ) ==> a > 0),
                forall|a: int, j: int|
                    0 <= a < fills.len() && 0 <= j < i ==> (#[trigger] fills[a]).price
                        > (#[trigger] self.buy_book@[j]).0@,
                sell_fills(fills, book0, funds0, escrow0, xrd_spec(), now),
                escrow.wf(),
                *escrow == escrow_after(fills, escrow0),
                selling.wf(),
                selling.resource == meme,
                selling.amount@ == funds0 - total_cost(fills),
                purchased.wf(),
                purchased.resource == xrd_spec(),
                purchased.amount@ == total_quantity(fills),
                forall|k: int| 0 <= k < payouts@.len() ==> (#[trigger] payouts@[k]).1.wf(),
            ensures
                i == 0 || (0 < i <= book0.len() && (mul_spec(selling.amount@, book0[i - 1].0@) == 0
                    || purchased.amount@ == i128::MAX)),
            decreases i,
        {
            let k = i - 1;
            let ghost before = self.buy_book@;
            let (price, offering) = self.buy_book.remove(k);
            assert(before[k as int] == book0[k as int]);
            let ghost e_before = *escrow;
            let room = Decimal { attos: i128::MAX - purchased.amount.attos };
            proof {
                lemma_reach_nonneg(selling.amount@, price@, false);
            }
            let out = step(escrow, offering, price, false, selling, room, ResourceAddress::xrd(), now);
            let StepOutcome { offering, stop, keep, fill } = out;
            let ghost old_fills = fills;
            match fill {
                Some((taken, payout, actor)) => {
                    let ghost f = Fill {
                        source: k as int,
                        price: price@,
                        quantity: taken.amount@,
                        cost: payout.amount@,
                        used: true,
                        before: e_before,
                        after: *escrow,
                    };
                    proof {
                        lemma_take_push(fills, f);
                        assert(fills.push(f)[fills.len() as int] == f);
                        assert(record_ok(fills.push(f), fills.len() as int, book0, funds0, xrd_spec(), now, false));
                        lemma_records_push(fills, book0, funds0, escrow0, xrd_spec(), now, false, f);
                        assert forall|x: int, y: int| 0 <= x < y < fills.push(f).len() implies fills.push(f)[x].source
                            > fills.push(f)[y].source && fills.push(f)[x].price > fills.push(f)[y].price by {
                            assert(fills.push(f)[x] == fills[x]);
                            if y < fills.len() {
                                assert(fills.push(f)[y] == fills[y]);
                            } else {
                                assert(fills[x].price > before[k as int].0@);
                            }
                        }
                        fills = fills.push(f);
                    }
                    proof {
                        assert forall|r: ResourceAddress| #[trigger] payout_sum(
                            payouts@.push((actor, payout)),
                            r,
                        ) == payout_sum(payouts@, r) + if payout.resource == r {
                            payout.amount@
                        } else {
                            0
                        } by {
                            lemma_payout_sum_push(payouts@, (actor, payout), r);
                        }
                    }
                    let ghost ps0 = payouts@;
                    purchased.put(taken);
                    payouts.push((actor, payout));
                    proof {
                        let lf = fills.last();
                        assert(fills.drop_last() =~= old_fills);
                        assert(owed(fills, book0) == owed(old_fills, book0).push(
                            (offer_actor(book0[lf.source].1), lf.cost),
                        ));
                        assert forall|x: int| 0 <= x < payouts@.len() implies (
                        #[trigger] payouts@[x]).0 == owed(fills, book0)[x].0 && payouts@[x].1.amount@
                            == owed(fills, book0)[x].1 && payouts@[x].1.resource
                            == payout.resource && payouts@[x].1.wf() by {
                            if x < ps0.len() {
                                assert(payouts@[x] == ps0[x]);
                            }
                        }
                    }
                },
                None => {
                    if !stop {
                        let ghost f = Fill {
                            source: k as int,
                            price: price@,
                            quantity: 0,
                            cost: 0,
                            used: false,
                            before: e_before,
                            after: e_before,
                        };
                        proof {
                            lemma_take_push(fills, f);
                            assert(fills.push(f)[fills.len() as int] == f);
                            assert(record_ok(fills.push(f), fills.len() as int, book0, funds0, xrd_spec(), now, false));
                            lemma_records_push(fills, book0, funds0, escrow0, xrd_spec(), now, false, f);
                            assert forall|x: int, y: int| 0 <= x < y < fills.push(f).len() implies fills.push(f)[x].source
                            > fills.push(f)[y].source && fills.push(f)[x].price > fills.push(f)[y].price by {
                            assert(fills.push(f)[x] == fills[x]);
                            if y < fills.len() {
                                assert(fills.push(f)[y] == fills[y]);
                            } else {
                                assert(fills[x].price > before[k as int].0@);
                            }
                        }
                            fills = fills.push(f);
                            assert(fills.drop_last() =~= old_fills);
                        }
                    }
                },
            }
            if keep {
                self.buy_book.insert(k, (price, offering));
                proof {
                    lemma_book_put_back(before, k as int, (price, offering), book0, xrd_spec());
                    lemma_outcomes_kept(old_fills, before, self.buy_book@, k as int, book0, now);
                    lemma_offer_at(self.buy_book@, k as int);
                    assert forall|a: int| 0 <= a < fills.len() implies outcome_ok(
                        self.buy_book@,
                        #[trigger] fills[a],
                        book0,
                        now,
                    ) by {
                        if a < old_fills.len() {
                            assert(fills[a] == old_fills[a]);
                        }
                    }
                }
                if stop {
                    break;
                }
            } else {
                self.garbage_heap.push(offering.extract_vault());
                proof {
                    lemma_book_remove(before, k as int, book0, xrd_spec());
                    lemma_outcomes_kept(old_fills, before, self.buy_book@, k as int, book0, now);
                    lemma_offer_at_elsewhere(before, self.buy_book@, k as int, price@);
                    assert forall|a: int| 0 <= a < fills.len() implies outcome_ok(
                        self.buy_book@,
                        #[trigger] fills[a],
                        book0,
                        now,
                    ) by {
                        if a < old_fills.len() {
                            assert(fills[a] == old_fills[a]);
                        }
                    }
                }
            }
            i = k;
        }
        proof {
            let v = book0.len() - i;
            assert(book0.len() - 1 - v == i - 1);
            assert(self.buy_book@.subrange(0, i as int) =~= book0.subrange(0, i as int));
            lemma_no_new_prices(self.buy_book@, book0);
            assert(sell_walked(fills, book0, self.buy_book@, selling.amount@, purchased.amount@, v));
        }
        Ghost(fills)
    }

    /// Holds `funds` for `recipient` in the book's own payout records.
    fn put_in_payout_vault(&mut self, recipient: &NonFungibleGlobalId, funds: Bucket)
        requires
            old(self).wf(),
        ensures
            final(self).wf(),
            final(self).meme_token == old(self).meme_token,
            final(self).buy_book == old(self).buy_book,
            final(self).sell_book == old(self).sell_book,
            forall|r: ResourceAddress| #[trigger] record_total(final(self).payouts_xrd@, r)
                + record_total(final(self).payouts_meme@, r) == record_total(old(self).payouts_xrd@, r)
                + record_total(old(self).payouts_meme@, r) + if funds.resource == r {
                funds.amount@
            } else {
                0
            },
            funds.resource == xrd_spec() ==> final(self).payouts_xrd@ == old(self).payouts_xrd@.push(
                (*recipient, funds),
            ) && final(self).payouts_meme == old(self).payouts_meme,
            funds.resource != xrd_spec() ==> final(self).payouts_meme@ == old(
                self).payouts_meme@.push((*recipient, funds)) && final(self).payouts_xrd
                == old(self).payouts_xrd,
    {
        let ghost xs = self.payouts_xrd@;
        let ghost ms = self.payouts_meme@;
        if funds.resource == ResourceAddress::xrd() {
            self.payouts_xrd.push((*recipient, funds));
            assert(self.payouts_xrd@.drop_last() =~= xs);
        } else {
            self.payouts_meme.push((*recipient, funds));
            assert(self.payouts_meme@.drop_last() =~= ms);
        }
    }

    /// Pays a maker: into their escrow pool where they named this escrow
    /// component for payouts and the pool accepts the funds, otherwise into
    /// the book's payout records.
    fn pay_maker(&mut self, escrow: &mut Escrow, maker: &Actor, payment: Bucket)
        requires
            old(self).wf(),
            old(escrow).wf(),
            payment.wf(),
        ensures
            final(self).wf(),
            final(escrow).wf(),
            final(self).meme_token == old(self).meme_token,
            final(self).buy_book == old(self).buy_book,
            final(self).sell_book == old(self).sell_book,
            final(escrow).allowances == old(escrow).allowances,
            routed(
                old(self).payouts_xrd@,
                old(self).payouts_meme@,
                *old(escrow),
                final(self).payouts_xrd@,
                final(self).payouts_meme@,
                *final(escrow),
                *maker,
                payment,
            ),
            forall|r: ResourceAddress| #[trigger] proceeds_held(*final(self), *final(escrow), r)
                == proceeds_held(*old(self), *old(escrow), r) + if payment.resource == r {
                payment.amount@
            } else {
                0
            },
            ({
                let to_pool = maker.escrow_payout_component == Some(old(escrow).component) && old(
                    escrow).deposit_error(maker.id_badge, payment, None, false) is None;
                &&& to_pool ==> deposited(*old(escrow), *final(escrow), maker.id_badge, payment)
                    && final(self).payouts_xrd == old(self).payouts_xrd && final(self).payouts_meme
                    == old(self).payouts_meme
                &&& !to_pool ==> *final(escrow) == *old(escrow) && (if payment.resource
                    == xrd_spec() {
                    final(self).payouts_xrd@ == old(self).payouts_xrd@.push((maker.id_badge, payment))
                } else {
                    final(self).payouts_meme@ == old(self).payouts_meme@.push(
                        (maker.id_badge, payment),
                    )
                })
            }),
    {
        match maker.escrow_payout_component {
            Some(component) => {
                if component == escrow.component {
                    match escrow.deposit_funds(maker.id_badge, payment, None, false) {
                        Ok(_) => {},
                        Err((_, back)) => {
                            self.put_in_payout_vault(&maker.id_badge, back);
                        },
                    }
                } else {
                    self.put_in_payout_vault(&maker.id_badge, payment);
                }
            },
            None => {
                self.put_in_payout_vault(&maker.id_badge, payment);
            },
        }
    }

    /// Pays every maker what the walk owes them.
    fn pay_makers(&mut self, escrow: &mut Escrow, payouts: Vec<(Actor, Bucket)>)
        requires
            old(self).wf(),
            old(escrow).wf(),
            forall|k: int| 0 <= k < payouts@.len() ==> (#[trigger] payouts@[k]).1.wf(),
        ensures
            final(self).wf(),
            final(escrow).wf(),
            final(self).meme_token == old(self).meme_token,
            final(self).buy_book == old(self).buy_book,
            final(self).sell_book == old(self).sell_book,
            final(escrow).allowances == old(escrow).allowances,
            forall|r: ResourceAddress| #[trigger] proceeds_held(*final(self), *final(escrow), r)
                == proceeds_held(*old(self), *old(escrow), r) + payout_sum(payouts@, r),
            paid_out(
                old(self).payouts_xrd@,
                old(self).payouts_meme@,
                *old(escrow),
                final(self).payouts_xrd@,
                final(self).payouts_meme@,
                *final(escrow),
                payouts@,
            ),
    {
        let ghost all = payouts@;
        let mut payouts = payouts;
        while payouts.len() > 0
            invariant
                self.wf(),
                escrow.wf(),
                self.meme_token == old(self).meme_token,
                self.buy_book == old(self).buy_book,
                self.sell_book == old(self).sell_book,
                escrow.allowances == old(escrow).allowances,
                forall|k: int| 0 <= k < payouts@.len() ==> (#[trigger] payouts@[k]).1.wf(),
                forall|r: ResourceAddress| #[trigger] proceeds_held(*self, *escrow, r) + payout_sum(
                    payouts@,
                    r,
                ) == proceeds_held(*old(self), *old(escrow), r) + payout_sum(all, r),
                payouts@.len() <= all.len(),
                payouts@ == all.subrange(all.len() - payouts@.len(), all.len() as int),
                paid_out(
                    old(self).payouts_xrd@,
                    old(self).payouts_meme@,
                    *old(escrow),
                    self.payouts_xrd@,
                    self.payouts_meme@,
                    *escrow,
                    all.take(all.len() - payouts@.len()),
                ),
            decreases payouts.len(),
        {
            let ghost rows = payouts@;
            let (actor, bucket) = payouts.remove(0);
            assert(rows[0].1.wf());
            assert forall|k: int| 0 <= k < payouts@.len() implies (#[trigger] payouts@[k]).1.wf() by {
                assert(payouts@[k] == rows[k + 1]);
            }
            assert(payouts@ =~= rows.drop_first());
            let ghost xs = self.payouts_xrd@;
            let ghost ms = self.payouts_meme@;
            let ghost es = *escrow;
            let ghost k = all.len() - rows.len();
            self.pay_maker(escrow, &actor, bucket);
            proof {
                assert(all.take(k + 1).drop_last() =~= all.take(k));
                assert(rows[0] == all[k]);
                assert(all.take(k + 1).last() == (actor, bucket));
                assert(routed(
                    xs,
                    ms,
                    es,
                    self.payouts_xrd@,
                    self.payouts_meme@,
                    *escrow,
                    all.take(k + 1).last().0,
                    all.take(k + 1).last().1,
                ));
                assert(all.subrange(all.len() - payouts@.len(), all.len() as int) =~= rows.drop_first());
            }
        }
    }

    /// Hands a market order's purchase to the taker: into the taker's
    /// escrow pool where they asked for that, this escrow component is the
    /// one named and the pool accepts it; otherwise back to the taker.
    fn deliver(
        escrow: &mut Escrow,
        trader: Option<NonFungibleGlobalId>,
        escrow_payout_component: Option<ComponentAddress>,
        purchased: Bucket,
    ) -> (r: Option<Bucket>)
        requires
            old(escrow).wf(),
            purchased.wf(),
        ensures
            final(escrow).wf(),
            r matches Some(b) ==> b == purchased && *final(escrow) == *old(escrow),
            forall|x: ResourceAddress| x != purchased.resource ==> #[trigger] final(escrow).total(x)
                == old(escrow).total(x),
            r is None <==> (escrow_payout_component == Some(old(escrow).component) && trader is Some
                && old(escrow).deposit_error(trader.unwrap(), purchased, None, false) is None),
            r is None ==> deposited(*old(escrow), *final(escrow), trader.unwrap(), purchased)
                && final(escrow).allowances == old(escrow).allowances,
            purchased.resource.fungible ==> delivered(
                *old(escrow),
                *final(escrow),
                trader,
                escrow_payout_component,
                r,
                purchased.resource,
                purchased.amount@,
            ),
    {
        proof {
            if purchased.resource.fungible && trader is Some {
                let t = trader.unwrap();
                assert(old(escrow).deposit_error(t, purchased, None, false) is None <==> accepts(
                    *old(escrow),
                    t,
                    purchased.resource,
                    purchased.amount@,
                )) by {
                    if old(escrow).vault(t, purchased.resource) is Some {
                        let v = old(escrow).vault(t, purchased.resource).unwrap();
                        let j = choose|j: int|
                            0 <= j < old(escrow).vaults@.len() && old(escrow).vaults@[j].0 == (
                            t,
                            purchased.resource,
                            );
                        crate::table::lemma_lookup_at(old(escrow).vaults@, j);
                        assert(v.resource == purchased.resource);
                        assert(purchased.ids@.len() == 0);
                        assert forall|x: crate::address::NonFungibleLocalId| v.ids@.contains(x)
                            implies !purchased.ids@.contains(x) by {}
                    }
                }
            }
        }
        match (escrow_payout_component, trader) {
            (Some(component), Some(trader)) => {
                if component == escrow.component {
                    match escrow.deposit_funds(trader, purchased, None, false) {
                        Ok(_) => None,
                        Err((_, back)) => Some(back),
                    }
                } else {
                    Some(purchased)
                }
            },
            _ => Some(purchased),
        }
    }

    /// Pays native tokens for the token, from the cheapest ask up, until
    /// the payment buys nothing more or the book ends. Returns the tokens
    /// bought (or `None` where they went into the taker's escrow pool) and
    /// the unspent payment. A partial fill is no error.
    pub fn market_buy_direct(
        &mut self,
        escrow: &mut Escrow,
        trader: Option<NonFungibleGlobalId>,
        escrow_payout_component: Option<ComponentAddress>,
        payment: Bucket,
        now: i64,
    ) -> (r: Result<(Option<Bucket>, Bucket), (DexError, Bucket)>)
        requires
            old(self).wf(),
            old(escrow).wf(),
            payment.wf(),
        ensures
            final(self).wf(),
            final(escrow).wf(),
            match r {
                Err((e, back)) => {
                    &&& back == payment
                    &&& *final(self) == *old(self)
                    &&& *final(escrow) == *old(escrow)
                    &&& (payment.resource != xrd_spec() && e == DexError::WrongResource) || (
                    payment.resource == xrd_spec() && escrow_payout_component is Some && trader is None
                        && e == DexError::MissingTrader)
                },
                Ok((ret, change)) => {
                    &&& payment.resource == xrd_spec()
                    &&& escrow_payout_component is Some ==> trader is Some
                    &&& change.wf() && change.resource == xrd_spec()
                    &&& ret is None ==> escrow_payout_component is Some
                    &&& exists|fills: Seq<Fill>|
                        {
                            &&& buy_fills(
                                fills,
                                old(self).sell_book@,
                                payment.amount@,
                                *old(escrow),
                                old(self).meme_token,
                                now,
                            )
                            &&& final(escrow).allowances == escrow_after(fills, *old(escrow)).allowances
                            &&& book_left_ok(fills, old(self).sell_book@, final(self).sell_book@, now)
                            &&& exists|mid: Escrow, ps: Seq<(Actor, Bucket)>|
                                {
                                    &&& paid_out(
                                        old(self).payouts_xrd@,
                                        old(self).payouts_meme@,
                                        escrow_after(fills, *old(escrow)),
                                        final(self).payouts_xrd@,
                                        final(self).payouts_meme@,
                                        mid,
                                        ps,
                                    )
                                    &&& payouts_match(ps, owed(fills, old(self).sell_book@), xrd_spec())
                                    &&& delivered(
                                        mid,
                                        *final(escrow),
                                        trader,
                                        escrow_payout_component,
                                        ret,
                                        old(self).meme_token,
                                        total_quantity(fills),
                                    )
                                }
                            &&& proceeds_held(*final(self), *final(escrow), xrd_spec())
                                == proceeds_held(*old(self), escrow_after(fills, *old(escrow)), xrd_spec())
                                + total_cost(fills)
                            &&& buy_walk_complete(
                                fills,
                                old(self).sell_book@,
                                final(self).sell_book@,
                                change.amount@,
                                total_quantity(fills),
                            )
                            &&& change.amount@ == payment.amount@ - total_cost(fills)
                            &&& ret matches Some(b) ==> b.wf() && b.resource == old(self).meme_token
                                && b.amount@ == total_quantity(fills)
                        }
                },
            },
    {
        if payment.resource != ResourceAddress::xrd() {
            return Err((DexError::WrongResource, payment));
        }
        if escrow_payout_component.is_some() && trader.is_none() {
            return Err((DexError::MissingTrader, payment));
        }
        let mut payment = payment;
        let mut purchased = Bucket::new(self.meme_token);
        let mut payouts: Vec<(Actor, Bucket)> = Vec::new();
        let ghost funds = payment.amount@;
        let fills = self.walk_sell_book(escrow, &mut payment, &mut purchased, &mut payouts, now);
        let ghost walked_dex = *self;
        let ghost walked_escrow = *escrow;
        let ghost due_payouts = payouts@;
        self.pay_makers(escrow, payouts);
        let ghost paid_escrow = *escrow;
        let ret = Self::deliver(escrow, trader, escrow_payout_component, purchased);
        proof {
            assert(payout_sum(Seq::<(Actor, Bucket)>::empty(), xrd_spec()) == 0);
            assert(payout_sum(due_payouts, xrd_spec()) == total_cost(fills@));
            assert(proceeds_held(walked_dex, walked_escrow, xrd_spec()) == proceeds_held(
                *old(self),
                escrow_after(fills@, *old(escrow)),
                xrd_spec(),
            ));
            assert(proceeds_held(*self, paid_escrow, xrd_spec()) == proceeds_held(
                walked_dex,
                walked_escrow,
                xrd_spec(),
            ) + total_cost(fills@));
            assert(escrow.total(xrd_spec()) == paid_escrow.total(xrd_spec()));
            assert(paid_out(
                old(self).payouts_xrd@,
                old(self).payouts_meme@,
                escrow_after(fills@, *old(escrow)),
                self.payouts_xrd@,
                self.payouts_meme@,
                paid_escrow,
                due_payouts,
            ));
            assert(delivered(
                paid_escrow,
                *escrow,
                trader,
                escrow_payout_component,
                ret,
                old(self).meme_token,
                total_quantity(fills@),
            ));
            assert(buy_fills(fills@, old(self).sell_book@, funds, *old(escrow), old(self).meme_token, now));
            assert(buy_walk_complete(
                fills@,
                old(self).sell_book@,
                self.sell_book@,
                payment.amount@,
                total_quantity(fills@),
            ));
        }
        Ok((ret, payment))
    }

    /// Sells the token for native tokens, from the highest bid down, until
    /// what is left fetches nothing more or the book ends. Returns the
    /// native tokens received (or `None` where they went into the taker's
    /// escrow pool) and the unsold tokens. A partial fill is no error.
    pub fn market_sell_direct(
        &mut self,
        escrow: &mut Escrow,
        trader: Option<NonFungibleGlobalId>,
        escrow_payout_component: Option<ComponentAddress>,
        selling: Bucket,
        now: i64,
    ) -> (r: Result<(Option<Bucket>, Bucket), (DexError, Bucket)>)
        requires
            old(self).wf(),
            old(escrow).wf(),
            selling.wf(),
        ensures
            final(self).wf(),
            final(escrow).wf(),
            match r {
                Err((e, back)) => {
                    &&& back == selling
                    &&& *final(self) == *old(self)
                    &&& *final(escrow) == *old(escrow)
                    &&& (selling.resource != old(self).meme_token && e == DexError::WrongResource) || (
                    selling.resource == old(self).meme_token && escrow_payout_component is Some
                        && trader is None && e == DexError::MissingTrader)
                },
                Ok((ret, unsold)) => {
                    &&& selling.resource == old(self).meme_token
                    &&& escrow_payout_component is Some ==> trader is Some
                    &&& unsold.wf() && unsold.resource == old(self).meme_token
                    &&& ret is None ==> escrow_payout_component is Some
                    &&& exists|fills: Seq<Fill>|
                        {
                            &&& sell_fills(
                                fills,
                                old(self).buy_book@,
                                selling.amount@,
                                *old(escrow),
                                xrd_spec(),
                                now,
                            )
                            &&& final(escrow).allowances == escrow_after(fills, *old(escrow)).allowances
                            &&& book_left_ok(fills, old(self).buy_book@, final(self).buy_book@, now)
                            &&& exists|mid: Escrow, ps: Seq<(Actor, Bucket)>|
                                {
                                    &&& paid_out(
                                        old(self).payouts_xrd@,
                                        old(self).payouts_meme@,
                                        escrow_after(fills, *old(escrow)),
                                        final(self).payouts_xrd@,
                                        final(self).payouts_meme@,
                                        mid,
                                        ps,
                                    )
                                    &&& payouts_match(ps, owed(fills, old(self).buy_book@), old(self).meme_token)
                                    &&& delivered(
                                        mid,
                                        *final(escrow),
                                        trader,
                                        escrow_payout_component,
                                        ret,
                                        xrd_spec(),
                                        total_quantity(fills),
                                    )
                                }
                            &&& proceeds_held(*final(self), *final(escrow), old(self).meme_token)
                                == proceeds_held(*old(self), escrow_after(fills, *old(escrow)), old(self).meme_token)
                                + total_cost(fills)
                            &&& sell_walk_complete(
                                fills,
                                old(self).buy_book@,
                                final(self).buy_book@,
                                unsold.amount@,
                                total_quantity(fills),
                            )
                            &&& unsold.amount@ == selling.amount@ - total_cost(fills)
                            &&& ret matches Some(b) ==> b.wf() && b.resource == xrd_spec()
                                && b.amount@ == total_quantity(fills)
                        }
                },
            },
    {
        if selling.resource != self.meme_token {
            return Err((DexError::WrongResource, selling));
        }
        if escrow_payout_component.is_some() && trader.is_none() {
            return Err((DexError::MissingTrader, selling));
        }
        let mut selling = selling;
        let mut purchased = Bucket::new(ResourceAddress::xrd());
        let mut payouts: Vec<(Actor, Bucket)> = Vec::new();
        let ghost funds = selling.amount@;
        let fills = self.walk_buy_book(escrow, &mut selling, &mut purchased, &mut payouts, now);
        let ghost walked_dex = *self;
        let ghost walked_escrow = *escrow;
        let ghost due_payouts = payouts@;
        let ghost meme = self.meme_token;
        self.pay_makers(escrow, payouts);
        let ghost paid_escrow = *escrow;
        let ret = Self::deliver(escrow, trader, escrow_payout_component, purchased);
        proof {
            assert(payout_sum(Seq::<(Actor, Bucket)>::empty(), meme) == 0);
            assert(payout_sum(due_payouts, meme) == total_cost(fills@));
            assert(proceeds_held(walked_dex, walked_escrow, meme) == proceeds_held(
                *old(self),
                escrow_after(fills@, *old(escrow)),
                meme,
            ));
            assert(proceeds_held(*self, paid_escrow, meme) == proceeds_held(walked_dex, walked_escrow, meme)
                + total_cost(fills@));
            assert(escrow.total(meme) == paid_escrow.total(meme));
            assert(paid_out(
                old(self).payouts_xrd@,
                old(self).payouts_meme@,
                escrow_after(fills@, *old(escrow)),
                self.payouts_xrd@,
                self.payouts_meme@,
                paid_escrow,
                due_payouts,
            ));
            assert(delivered(
                paid_escrow,
                *escrow,
                trader,
                escrow_payout_component,
                ret,
                xrd_spec(),
                total_quantity(fills@),
            ));
            assert(sell_fills(fills@, old(self).buy_book@, funds, *old(escrow), xrd_spec(), now));
            assert(sell_walk_complete(
                fills@,
                old(self).buy_book@,
                self.buy_book@,
                selling.amount@,
                total_quantity(fills@),
            ));
        }
        Ok((ret, selling))
    }
}


/// The offer resting at `price`, if any.
pub open spec fn offer_at(book: Seq<(Decimal, Offering)>, price: int) -> Option<Offering> {
    if has_price(book, price) {
        Some(book[choose|k: int| 0 <= k < book.len() && book[k].0@ == price].1)
    } else {
        None
    }
}

/// Changing or removing the entry at position `k` of an ascending book
/// leaves the offer at every other price as it was, and a removed entry's
/// price holds no offer.
proof fn lemma_offer_at_elsewhere(
    b: Seq<(Decimal, Offering)>,
    b2: Seq<(Decimal, Offering)>,
    k: int,
    p: int,
)
    requires
        ascending(b),
        ascending(b2),
        0 <= k < b.len(),
        (b2.len() == b.len() && b2[k].0 == b[k].0 && forall|j: int|
            0 <= j < b.len() && j != k ==> b2[j] == b[j]) || b2 == b.remove(k),
        p != b[k].0@ || b2 == b.remove(k),
        p == b[k].0@ ==> b2 == b.remove(k),
    ensures
        p != b[k].0@ ==> offer_at(b2, p) == offer_at(b, p),
        p == b[k].0@ ==> offer_at(b2, p) is None,
{
    if has_price(b, p) {
        let j = choose|j: int| 0 <= j < b.len() && b[j].0@ == p;
        lemma_offer_at(b, j);
        if j != k {
            if b2 == b.remove(k) {
                let j2 = if j < k { j } else { j - 1 };
                assert(b2[j2] == b[j]);
                lemma_offer_at(b2, j2);
            } else {
                assert(b2[j] == b[j]);
                lemma_offer_at(b2, j);
            }
        } else {
            assert(b2 == b.remove(k));
        }
    }
    if p == b[k].0@ || !has_price(b, p) {
        assert(!has_price(b2, p)) by {
            if has_price(b2, p) {
                let j = choose|j: int| 0 <= j < b2.len() && b2[j].0@ == p;
                if b2 == b.remove(k) {
                    let j2 = if j < k { j } else { j + 1 };
                    assert(b2[j] == b[j2]);
                    if j2 < k {
                        assert(b[j2].0@ < b[k].0@);
                    } else if j2 > k {
                        assert(b[k].0@ < b[j2].0@);
                    }
                } else {
                    if j == k {
                        assert(b2[k].0 == b[k].0);
                    } else {
                        assert(b2[j] == b[j]);
                    }
                }
            }
        }
    }
}

/// A book whose prices all come from `origin` holds an offer only at a
/// price of `origin`.
proof fn lemma_no_new_prices(book: Seq<(Decimal, Offering)>, origin: Seq<(Decimal, Offering)>)
    requires
        prices_from(book, origin),
    ensures
        forall|p: int| #[trigger] offer_at(book, p) is Some ==> has_price(origin, p),
{
    assert forall|p: int| #[trigger] offer_at(book, p) is Some implies has_price(origin, p) by {
        let k = choose|k: int| 0 <= k < book.len() && book[k].0@ == p;
        assert(has_price(origin, book[k].0@));
    }
}

/// Changing or removing the entry at position `k` keeps what the book
/// holds at the price of every record made before.
proof fn lemma_outcomes_kept(
    fills: Seq<Fill>,
    b: Seq<(Decimal, Offering)>,
    b2: Seq<(Decimal, Offering)>,
    k: int,
    book: Seq<(Decimal, Offering)>,
    now: i64,
)
    requires
        ascending(b),
        ascending(b2),
        0 <= k < b.len(),
        (b2.len() == b.len() && b2[k].0 == b[k].0 && forall|j: int|
            0 <= j < b.len() && j != k ==> b2[j] == b[j]) || b2 == b.remove(k),
        forall|a: int| 0 <= a < fills.len() ==> (#[trigger] fills[a]).price != b[k].0@,
        forall|a: int| 0 <= a < fills.len() ==> outcome_ok(b, #[trigger] fills[a], book, now),
    ensures
        forall|a: int| 0 <= a < fills.len() ==> outcome_ok(b2, #[trigger] fills[a], book, now),
{
    assert forall|a: int| 0 <= a < fills.len() implies outcome_ok(b2, #[trigger] fills[a], book, now) by {
        lemma_offer_at_elsewhere(b, b2, k, fills[a].price);
    }
}

/// In an ascending book, the offer at an entry's price is that entry's.
proof fn lemma_offer_at(book: Seq<(Decimal, Offering)>, k: int)
    requires
        ascending(book),
        0 <= k < book.len(),
    ensures
        offer_at(book, book[k].0@) == Some(book[k].1),
{
    assert(has_price(book, book[k].0@));
    let c = choose|c: int| 0 <= c < book.len() && book[c].0@ == book[k].0@;
    if c < k {
        assert(book[c].0@ < book[k].0@);
    } else if c > k {
        assert(book[k].0@ < book[c].0@);
    }
}

/// Where `entry` takes position `i` of an ascending book (replacing an
/// entry at the same price, or inserted between lower and higher prices),
/// the offer at its price is its offer, and no other price changes.
proof fn lemma_offer_at_placed(
    old_book: Seq<(Decimal, Offering)>,
    new_book: Seq<(Decimal, Offering)>,
    i: int,
    entry: (Decimal, Offering),
)
    requires
        ascending(old_book),
        ascending(new_book),
        0 <= i < new_book.len(),
        new_book[i] == entry,
        forall|k: int| 0 <= k < new_book.len() && k != i ==> has_price(old_book, (#[trigger] new_book[k]).0@) && offer_at(old_book, new_book[k].0@) == Some(new_book[k].1),
        forall|k: int| 0 <= k < old_book.len() && old_book[k].0@ != entry.0@ ==> has_price(new_book, (#[trigger] old_book[k]).0@),
    ensures
        offer_at(new_book, entry.0@) == Some(entry.1),
        forall|p: int| p != entry.0@ ==> #[trigger] offer_at(new_book, p) == offer_at(old_book, p),
{
    lemma_offer_at(new_book, i);
    assert forall|p: int| p != entry.0@ implies #[trigger] offer_at(new_book, p) == offer_at(old_book, p) by {
        if has_price(new_book, p) {
            let k = choose|k: int| 0 <= k < new_book.len() && new_book[k].0@ == p;
            lemma_offer_at(new_book, k);
        } else if has_price(old_book, p) {
            let k = choose|k: int| 0 <= k < old_book.len() && old_book[k].0@ == p;
            assert(has_price(new_book, old_book[k].0@));
        }
    }
}

impl MockDex {
    /// Rests `offering` at `price` in `book`, keeping it ascending; an
    /// offer already at that price leaves the book and its container is
    /// parked.
    fn insert_offering(
        book: &mut Vec<(Decimal, Offering)>,
        garbage: &mut Vec<Bucket>,
        price: Decimal,
        offering: Offering,
        resource: ResourceAddress,
    )
        requires
            book_wf(old(book)@, resource),
            price@ > 0,
            offering.wf(resource),
        ensures
            book_wf(final(book)@, resource),
            offer_at(final(book)@, price@) == Some(offering),
            forall|p: int| p != price@ ==> #[trigger] offer_at(final(book)@, p) == offer_at(old(book)@, p),
    {
        let ghost old_book = book@;
        let mut i: usize = 0;
        while i < book.len() && book[i].0.attos < price.attos
            invariant
                book@ == old_book,
                i <= book@.len(),
                forall|k: int| 0 <= k < i ==> (#[trigger] book@[k]).0@ < price@,
            decreases book.len() - i,
        {
            i = i + 1;
        }
        if i < book.len() && book[i].0.attos == price.attos {
            let (_, displaced) = book.remove(i);
            garbage.push(displaced.extract_vault());
            book.insert(i, (price, offering));
            proof {
                let nb = book@;
                assert(nb =~= old_book.update(i as int, (price, offering)));
                assert forall|a: int, b: int| 0 <= a < b < nb.len() implies nb[a].0@ < nb[b].0@ by {
                    assert(nb[a].0@ == old_book[a].0@);
                    assert(nb[b].0@ == old_book[b].0@);
                }
                assert forall|j: int| 0 <= j < nb.len() implies (#[trigger] nb[j]).0@ > 0 && nb[j].1.wf(resource) by {
                    if j != i {
                        assert(nb[j] == old_book[j]);
                    }
                }
                assert forall|k: int| 0 <= k < nb.len() && k != i implies has_price(old_book, (#[trigger] nb[k]).0@) && offer_at(old_book, nb[k].0@) == Some(nb[k].1) by {
                    assert(nb[k] == old_book[k]);
                    lemma_offer_at(old_book, k);
                }
                assert forall|k: int| 0 <= k < old_book.len() && old_book[k].0@ != price@ implies has_price(nb, (#[trigger] old_book[k]).0@) by {
                    assert(nb[k] == old_book[k]);
                }
                lemma_offer_at_placed(old_book, nb, i as int, (price, offering));
            }
        } else {
            book.insert(i, (price, offering));
            proof {
                let nb = book@;
                assert forall|k: int| 0 <= k < nb.len() implies #[trigger] nb[k] == if k < i {
                    old_book[k]
                } else if k == i {
                    (price, offering)
                } else {
                    old_book[k - 1]
                } by {}
                assert forall|a: int, b: int| 0 <= a < b < nb.len() implies nb[a].0@ < nb[b].0@ by {
                    if a < i && b > i {
                        assert(old_book[a].0@ < old_book[b - 1].0@ || a == b - 1);
                    }
                    if a == i && b > i && b - 1 > i {
                        assert(old_book[i as int].0@ < old_book[b - 1].0@);
                    }
                }
                assert forall|j: int| 0 <= j < nb.len() implies (#[trigger] nb[j]).0@ > 0 && nb[j].1.wf(resource) by {}
                assert forall|k: int| 0 <= k < nb.len() && k != i implies has_price(old_book, (#[trigger] nb[k]).0@) && offer_at(old_book, nb[k].0@) == Some(nb[k].1) by {
                    if k < i {
                        lemma_offer_at(old_book, k);
                    } else {
                        lemma_offer_at(old_book, k - 1);
                    }
                }
                assert forall|k: int| 0 <= k < old_book.len() && old_book[k].0@ != price@ implies has_price(nb, (#[trigger] old_book[k]).0@) by {
                    if k < i {
                        assert(nb[k] == old_book[k]);
                    } else {
                        assert(nb[k + 1] == old_book[k]);
                    }
                }
                lemma_offer_at_placed(old_book, nb, i as int, (price, offering));
            }
        }
    }

    /// Rests a bid at `price_in_xrd` per token, paid from `payment` (native
    /// tokens). Its proceeds go to `trader`'s pool in the escrow component
    /// `escrow_payout_component` where one is named, otherwise to the
    /// book's payout records.
    pub fn limit_buy_direct(
        &mut self,
        trader: NonFungibleGlobalId,
        price_in_xrd: Decimal,
        escrow_payout_component: Option<ComponentAddress>,
        payment: Bucket,
    ) -> (r: Result<(), (DexError, Bucket)>)
        requires
            old(self).wf(),
            payment.wf(),
        ensures
            final(self).wf(),
            match r {
                Err((e, back)) => back == payment && *final(self) == *old(self) && (
                (payment.resource != xrd_spec() && e == DexError::WrongResource) || (payment.resource
                    == xrd_spec() && price_in_xrd@ <= 0 && e == DexError::NonPositivePrice)),
                Ok(()) => {
                    &&& payment.resource == xrd_spec() && price_in_xrd@ > 0
                    &&& offer_at(final(self).buy_book@, price_in_xrd@) == Some(
                        Offering {
                            source_of_funds: SourceOfFunds::Direct {
                                actor: Actor { id_badge: trader, escrow_payout_component },
                                price_in_xrd,
                                vault: payment,
                            },
                        },
                    )
                    &&& forall|p: int|
                        p != price_in_xrd@ ==> #[trigger] offer_at(final(self).buy_book@, p) == offer_at(
                            old(self).buy_book@,
                            p,
                        )
                    &&& final(self).sell_book == old(self).sell_book
                },
            },
    {
        if payment.resource != ResourceAddress::xrd() {
            return Err((DexError::WrongResource, payment));
        }
        if price_in_xrd.attos <= 0 {
            return Err((DexError::NonPositivePrice, payment));
        }
        let offering = Offering {
            source_of_funds: SourceOfFunds::Direct {
                actor: Actor { id_badge: trader, escrow_payout_component },
                price_in_xrd,
                vault: payment,
            },
        };
        Self::insert_offering(
            &mut self.buy_book,
            &mut self.garbage_heap,
            price_in_xrd,
            offering,
            ResourceAddress::xrd(),
        );
        Ok(())
    }

    /// Rests a bid at `price_in_xrd` per token, paid through `allowance`, a
    /// single allowance badge on the trader's escrow pool of native tokens.
    pub fn limit_buy_with_escrow(
        &mut self,
        trader: NonFungibleGlobalId,
        price_in_xrd: Decimal,
        escrow_payout_component: Option<ComponentAddress>,
        allowance: Bucket,
    ) -> (r: Result<(), (DexError, Bucket)>)
        requires
            old(self).wf(),
            allowance.wf(),
        ensures
            final(self).wf(),
            match r {
                Err((e, back)) => back == allowance && *final(self) == *old(self) && (
                (allowance.amount@ != one() && e == DexError::NotOneAllowance) || (allowance.amount@
                    == one() && price_in_xrd@ <= 0 && e == DexError::NonPositivePrice)),
                Ok(()) => {
                    &&& allowance.amount@ == one() && price_in_xrd@ > 0
                    &&& offer_at(final(self).buy_book@, price_in_xrd@) == Some(
                        Offering {
                            source_of_funds: SourceOfFunds::FromEscrow {
                                actor: Actor { id_badge: trader, escrow_payout_component },
                                price_in_xrd,
                                vault: allowance,
                            },
                        },
                    )
                    &&& forall|p: int|
                        p != price_in_xrd@ ==> #[trigger] offer_at(final(self).buy_book@, p) == offer_at(
                            old(self).buy_book@,
                            p,
                        )
                    &&& final(self).sell_book == old(self).sell_book
                },
            },
    {
        if allowance.amount.attos != 1_000_000_000_000_000_000i128 {
            return Err((DexError::NotOneAllowance, allowance));
        }
        if price_in_xrd.attos <= 0 {
            return Err((DexError::NonPositivePrice, allowance));
        }
        let offering = Offering {
            source_of_funds: SourceOfFunds::FromEscrow {
                actor: Actor { id_badge: trader, escrow_payout_component },
                price_in_xrd,
                vault: allowance,
            },
        };
        Self::insert_offering(
            &mut self.buy_book,
            &mut self.garbage_heap,
            price_in_xrd,
            offering,
            ResourceAddress::xrd(),
        );
        Ok(())
    }

    /// Rests an ask of the tokens in `for_sale` at `price_in_xrd` each.
    pub fn limit_sell_direct(
        &mut self,
        trader: NonFungibleGlobalId,
        price_in_xrd: Decimal,
        escrow_payout_component: Option<ComponentAddress>,
        for_sale: Bucket,
    ) -> (r: Result<(), (DexError, Bucket)>)
        requires
            old(self).wf(),
            for_sale.wf(),
        ensures
            final(self).wf(),
            match r {
                Err((e, back)) => back == for_sale && *final(self) == *old(self) && (
                (for_sale.resource != old(self).meme_token && e == DexError::WrongResource) || (
                for_sale.resource == old(self).meme_token && price_in_xrd@ <= 0 && e
                    == DexError::NonPositivePrice)),
                Ok(()) => {
                    &&& for_sale.resource == old(self).meme_token && price_in_xrd@ > 0
                    &&& offer_at(final(self).sell_book@, price_in_xrd@) == Some(
                        Offering {
                            source_of_funds: SourceOfFunds::Direct {
                                actor: Actor { id_badge: trader, escrow_payout_component },
                                price_in_xrd,
                                vault: for_sale,
                            },
                        },
                    )
                    &&& forall|p: int|
                        p != price_in_xrd@ ==> #[trigger] offer_at(final(self).sell_book@, p) == offer_at(
                            old(self).sell_book@,
                            p,
                        )
                    &&& final(self).buy_book == old(self).buy_book
                },
            },
    {
        if for_sale.resource != self.meme_token {
            return Err((DexError::WrongResource, for_sale));
        }
        if price_in_xrd.attos <= 0 {
            return Err((DexError::NonPositivePrice, for_sale));
        }
        let offering = Offering {
            source_of_funds: SourceOfFunds::Direct {
                actor: Actor { id_badge: trader, escrow_payout_component },
                price_in_xrd,
                vault: for_sale,
            },
        };
        let meme = self.meme_token;
        Self::insert_offering(&mut self.sell_book, &mut self.garbage_heap, price_in_xrd, offering, meme);
        Ok(())
    }

    /// Rests an ask at `price_in_xrd` per token, supplied through
    /// `allowance`, a single allowance badge on the trader's escrow pool of
    /// the token.
    pub fn limit_sell_with_escrow(
        &mut self,
        trader: NonFungibleGlobalId,
        price_in_xrd: Decimal,
        escrow_payout_component: Option<ComponentAddress>,
        allowance: Bucket,
    ) -> (r: Result<(), (DexError, Bucket)>)
        requires
            old(self).wf(),
            allowance.wf(),
        ensures
            final(self).wf(),
            match r {
                Err((e, back)) => back == allowance && *final(self) == *old(self) && (
                (allowance.amount@ != one() && e == DexError::NotOneAllowance) || (allowance.amount@
                    == one() && price_in_xrd@ <= 0 && e == DexError::NonPositivePrice)),
                Ok(()) => {
                    &&& allowance.amount@ == one() && price_in_xrd@ > 0
                    &&& offer_at(final(self).sell_book@, price_in_xrd@) == Some(
                        Offering {
                            source_of_funds: SourceOfFunds::FromEscrow {
                                actor: Actor { id_badge: trader, escrow_payout_component },
                                price_in_xrd,
                                vault: allowance,
                            },
                        },
                    )
                    &&& forall|p: int|
                        p != price_in_xrd@ ==> #[trigger] offer_at(final(self).sell_book@, p) == offer_at(
                            old(self).sell_book@,
                            p,
                        )
                    &&& final(self).buy_book == old(self).buy_book
                },
            },
    {
        if allowance.amount.attos != 1_000_000_000_000_000_000i128 {
            return Err((DexError::NotOneAllowance, allowance));
        }
        if price_in_xrd.attos <= 0 {
            return Err((DexError::NonPositivePrice, allowance));
        }
        let offering = Offering {
            source_of_funds: SourceOfFunds::FromEscrow {
                actor: Actor { id_badge: trader, escrow_payout_component },
                price_in_xrd,
                vault: allowance,
            },
        };
        let meme = self.meme_token;
        Self::insert_offering(&mut self.sell_book, &mut self.garbage_heap, price_in_xrd, offering, meme);
        Ok(())
    }
}

} // verus!
