//! Placing orders: what is checked before the book sees one, and what is
//! written down once it has.

use vstd::prelude::*;

use crate::actor::Gone;
use crate::clearing::let_go;
use crate::jobs::lemma_filtered;
use crate::ledger::{Hold, LedgerView};
use crate::market::Market;
use crate::orders::{client_key, law_a_live_order_is_found_by_its_own_id, Log};
use crate::num::{clamp_i64, clamp_u64, max_int, max_u64, sat_add, usat_add, usat_sub};
use crate::text::{
    comma_list, copy_text, decimal, push_i64, push_list, push_u64, push_usize, quoted, quoted_text, signed_decimal,
};
use crate::trading::{
    lemma_fee_fits, same_response, Liquidity, Order, OrderKind, OrderRecord, OrderResponse, OrderStatus, Owner, Placement,
    Refused, Resting, Side, StopOrder, StopRequest, TimeInForce, Trader, TraderId, MAX_STOPS_PER_TRADER,
};

verus! {

/// Why a symbol takes no orders right now, in words.
#[derive(Debug)]
pub enum Closed {
    /// Its session is closed.
    Session(String),
    /// It is halted.
    Halted(String),
}

impl Closed {
    /// The reason in words.
    pub open spec fn words(self) -> Seq<char> {
        match self {
            Closed::Session(text) => text@,
            Closed::Halted(text) => text@,
        }
    }

    /// The reason in words.
    pub fn message(&self) -> (text: &String)
        ensures
            text@ == self.words(),
    {
        match self {
            Closed::Session(text) => text,
            Closed::Halted(text) => text,
        }
    }
}

/// Why a symbol turned an order away before it reached the book.
#[derive(Debug)]
pub enum OrderCheck {
    /// The order does not make sense.
    Invalid(String),
    /// The symbol takes no orders right now.
    Closed(Closed),
    /// It would trade with the trader's own resting orders, these.
    SelfTrade(Vec<u64>),
    /// A post-only order that would trade instead of resting.
    WouldCross { price_cents: i64, best_cents: i64 },
    /// The order to amend does not rest here.
    UnknownOrder(u64),
}

/// Why a submission could not be placed.
#[derive(Debug)]
pub enum PlaceError {
    /// The symbol is not listed (or was delisted a moment ago).
    UnknownSymbol,
    /// The symbol turned the order away before it reached the book.
    Check(OrderCheck),
    /// The account or the trader's shares would not fund it.
    Refused(Refused),
    /// The trader is not one this market knows.
    UnknownTrader(u64),
    /// The book itself refused the order.
    Invalid(String),
    /// The same `client_order_id` was already used for a different order.
    DuplicateClientId { client_order_id: String, order_id: u64 },
    /// The symbol has stopped.
    Gone,
}

impl From<Gone> for PlaceError {
    fn from(gone: Gone) -> (e: Self) {
        PlaceError::Gone
    }
}

impl vstd::std_specs::convert::FromSpecImpl<Gone> for PlaceError {
    open spec fn obeys_from_spec() -> bool {
        true
    }

    open spec fn from_spec(gone: Gone) -> Self {
        PlaceError::Gone
    }
}

impl From<OrderCheck> for PlaceError {
    fn from(e: OrderCheck) -> (r: Self) {
        PlaceError::Check(e)
    }
}

impl vstd::std_specs::convert::FromSpecImpl<OrderCheck> for PlaceError {
    open spec fn obeys_from_spec() -> bool {
        true
    }

    open spec fn from_spec(e: OrderCheck) -> Self {
        PlaceError::Check(e)
    }
}

impl PlaceError {
    /// The refusal in words; where the ledger refused, in the ledger's own.
    pub open spec fn words(self, ledger_words: Seq<char>) -> Seq<char> {
        match self {
            PlaceError::UnknownSymbol => "no such symbol"@,
            PlaceError::Check(OrderCheck::Invalid(message)) => message@,
            PlaceError::Invalid(message) => message@,
            PlaceError::Check(OrderCheck::Closed(closed)) => closed.words(),
            PlaceError::Check(OrderCheck::SelfTrade(ids)) => "the order would trade with the trader's own orders ["@
                + comma_list(ids@) + "]"@,
            PlaceError::Check(OrderCheck::WouldCross { price_cents, best_cents }) => "a post-only order at "@
                + signed_decimal(price_cents as int) + " would cross the market at "@ + signed_decimal(
                best_cents as int,
            ),
            PlaceError::Check(OrderCheck::UnknownOrder(id)) => "no such order: "@ + decimal(id as nat),
            PlaceError::Refused(e) => e.words(ledger_words),
            PlaceError::UnknownTrader(id) => "no such trader: "@ + decimal(id as nat),
            PlaceError::DuplicateClientId { client_order_id, order_id } => "client_order_id "@ + quoted_text(
                client_order_id@,
            ) + " was already used for order "@ + decimal(order_id as nat),
            PlaceError::Gone => "the symbol has stopped"@,
        }
    }

    /// The refusal in words.
    pub fn message(&self, ledger_words: &str) -> (text: String)
        ensures
            text@ == self.words(ledger_words@),
    {
        match self {
            PlaceError::UnknownSymbol => "no such symbol".to_owned(),
            PlaceError::Check(OrderCheck::Invalid(message)) => message.clone(),
            PlaceError::Invalid(message) => message.clone(),
            PlaceError::Check(OrderCheck::Closed(closed)) => closed.message().clone(),
            PlaceError::Check(OrderCheck::SelfTrade(ids)) => {
                let mut text = "the order would trade with the trader's own orders [".to_owned();
                push_list(&mut text, ids);
                text.append("]");
                text
            },
            PlaceError::Check(OrderCheck::WouldCross { price_cents, best_cents }) => {
                let mut text = "a post-only order at ".to_owned();
                push_i64(&mut text, *price_cents);
                text.append(" would cross the market at ");
                push_i64(&mut text, *best_cents);
                text
            },
            PlaceError::Check(OrderCheck::UnknownOrder(id)) => {
                let mut text = "no such order: ".to_owned();
                push_u64(&mut text, *id);
                text
            },
            PlaceError::Refused(e) => e.message(ledger_words),
            PlaceError::UnknownTrader(id) => {
                let mut text = "no such trader: ".to_owned();
                push_u64(&mut text, *id);
                text
            },
            PlaceError::DuplicateClientId { client_order_id, order_id } => {
                let mut text = "client_order_id ".to_owned();
                text.append(quoted(client_order_id.as_str()).as_str());
                text.append(" was already used for order ");
                push_u64(&mut text, *order_id);
                text
            },
            PlaceError::Gone => "the symbol has stopped".to_owned(),
        }
    }
}

/// An order request as the market sees it: what the trader asked for,
/// already cleaned.
#[derive(Debug)]
pub struct PlaceRequest {
    pub order: Order,
    pub client_order_id: Option<String>,
    pub post_only: bool,
    pub day: bool,
    pub expires_at_ms: Option<i64>,
    pub display_qty: Option<u64>,
}

impl PlaceRequest {
    /// The request a stop makes when it fires.
    pub fn fired(stop: &StopOrder) -> (request: PlaceRequest)
        ensures
            request.order.owner == Owner::Trader(TraderId(stop.trader_id)),
            request.order.side == stop.side,
            request.order.kind == (match stop.limit_price_cents {
                Some(price_cents) => OrderKind::Limit { price_cents },
                None => OrderKind::Market,
            }),
            request.order.tif == stop.tif,
            request.order.qty == stop.qty,
            request.client_order_id == stop.client_order_id,
            !request.post_only,
            !request.day,
            request.expires_at_ms is None,
            request.display_qty is None,
    {
        PlaceRequest {
            order: stop.order(),
            client_order_id: copy_text(&stop.client_order_id),
            post_only: false,
            day: false,
            expires_at_ms: None,
            display_qty: None,
        }
    }
}

/// What a symbol says of an order it would take.
#[derive(Clone, Copy, Debug, PartialEq, Eq, Structural)]
pub struct Prepared {
    /// Worst-case cash the order could consume.
    pub cost_cents: i64,
    /// Shares that resting buys already bid for.
    pub bid_shares: u64,
    /// When the order is withdrawn if it is still resting then.
    pub expires_at_ms: Option<i64>,
}

/// What placing an order came to.
#[derive(Debug)]
pub enum Placed {
    /// The order was sent, and this is what happened to it.
    New(OrderResponse),
    /// The same `client_order_id` had already been placed: this is the
    /// first response again, and nothing new happened.
    Replayed(OrderResponse),
}

/// What is to be done about an order.
#[derive(Debug)]
pub enum Sending {
    /// Nothing: it had been placed before, and this was the answer.
    Replayed(OrderResponse),
    /// Send it to the book, with no id below this one. What rests of it is
    /// withdrawn at `expires_at_ms`.
    Send { min_id: u64, expires_at_ms: Option<i64> },
}

impl Placed {
    /// What the caller is told, either way.
    pub open spec fn told(self) -> OrderResponse {
        match self {
            Placed::New(response) => response,
            Placed::Replayed(response) => response,
        }
    }

    /// What the caller is told, either way.
    pub fn response(&self) -> (response: &OrderResponse)
        ensures
            *response == self.told(),
    {
        match self {
            Placed::New(response) => response,
            Placed::Replayed(response) => response,
        }
    }
}

/// An amendment as the market sees it: which resting order, and what it
/// should become.
#[derive(Debug)]
pub struct Amendment {
    pub order_id: u64,
    /// A new price, or the old one.
    pub price_cents: Option<i64>,
    /// A new quantity, or what was left of the old one.
    pub qty: Option<u64>,
    pub post_only: bool,
    pub client_order_id: Option<String>,
}

impl Amendment {
    /// The order that takes the place of `resting`: the same side, at the new
    /// price or the old, for the new quantity or what was left.
    pub open spec fn replaces(&self, resting: Resting) -> Order {
        Order {
            owner: resting.owner,
            side: resting.side,
            kind: OrderKind::Limit {
                price_cents: match self.price_cents {
                    Some(price_cents) => price_cents,
                    None => resting.price_cents,
                },
            },
            tif: TimeInForce::Gtc,
            qty: match self.qty {
                Some(qty) => qty,
                None => resting.outstanding,
            },
        }
    }

    /// The order that takes the place of `resting`.
    pub fn replacement(&self, resting: &Resting) -> (order: Order)
        ensures
            order == self.replaces(*resting),
    {
        Order {
            owner: resting.owner,
            side: resting.side,
            kind: OrderKind::Limit {
                price_cents: match self.price_cents {
                    Some(price_cents) => price_cents,
                    None => resting.price_cents,
                },
            },
            tif: TimeInForce::Gtc,
            qty: match self.qty {
                Some(qty) => qty,
                None => resting.outstanding,
            },
        }
    }
}

/// What an amendment came to.
#[derive(Debug)]
pub struct Amended {
    pub replaced_order_id: u64,
    /// How much of the withdrawn order had filled before it went.
    pub replaced_filled: u64,
    pub order: OrderResponse,
}

impl Amended {
    /// `cancelled` was withdrawn, and `order` sent in its place.
    pub fn new(cancelled: &Resting, order: OrderResponse) -> (amended: Amended)
        ensures
            amended.replaced_order_id == cancelled.id,
            amended.replaced_filled == max_int(cancelled.qty - cancelled.outstanding, 0),
            amended.order == order,
    {
        Amended {
            replaced_order_id: cancelled.id,
            replaced_filled: usat_sub(cancelled.qty, cancelled.outstanding),
            order,
        }
    }
}

// ---------------------------------------------------------------------------
// What a symbol checks

/// Why an order that must rest cannot, if it cannot: it is a market order, it
/// is not good-till-cancelled, or its price is already tradable.
pub open spec fn post_only_fault(order: Order, best_bid: Option<i64>, best_ask: Option<i64>) -> Option<OrderFault> {
    match order.kind {
        OrderKind::Market => Some(OrderFault::TakesLiquidity),
        OrderKind::Limit { price_cents } => if !(order.tif is Gtc) {
            Some(OrderFault::TradesAtOnce)
        } else {
            match order.side {
                Side::Buy => if best_ask matches Some(ask) && ask <= price_cents {
                    Some(OrderFault::Crosses { price_cents, best_cents: best_ask->0 })
                } else {
                    None
                },
                Side::Sell => if best_bid matches Some(bid) && bid >= price_cents {
                    Some(OrderFault::Crosses { price_cents, best_cents: best_bid->0 })
                } else {
                    None
                },
            }
        },
    }
}

/// The ways a post-only order fails to rest.
pub enum OrderFault {
    TakesLiquidity,
    TradesAtOnce,
    Crosses { price_cents: i64, best_cents: i64 },
}

/// A post-only order must rest. It cannot if it is a market order, if it is
/// not good-till-cancelled, or if its price is already tradable.
pub fn check_post_only(order: &Order, best_bid: Option<i64>, best_ask: Option<i64>) -> (r: Result<(), OrderCheck>)
    ensures
        match post_only_fault(*order, best_bid, best_ask) {
            None => r is Ok,
            Some(OrderFault::TakesLiquidity) => r matches Err(OrderCheck::Invalid(text)) && text@
                == "a market order cannot be post-only: it exists to take liquidity"@,
            Some(OrderFault::TradesAtOnce) => r matches Err(OrderCheck::Invalid(text)) && text@
                == "a post-only order must be `gtc`: the others are there to trade at once"@,
            Some(OrderFault::Crosses { price_cents, best_cents }) => r == Err::<(), OrderCheck>(
                OrderCheck::WouldCross { price_cents, best_cents },
            ),
        },
{
    let price_cents: i64 = match order.kind {
        OrderKind::Limit { price_cents } => price_cents,
        OrderKind::Market => {
            return Err(
                OrderCheck::Invalid("a market order cannot be post-only: it exists to take liquidity".to_owned()),
            );
        },
    };
    match order.tif {
        TimeInForce::Gtc => {},
        _ => {
            return Err(
                OrderCheck::Invalid(
                    "a post-only order must be `gtc`: the others are there to trade at once".to_owned(),
                ),
            );
        },
    }
    match order.side {
        Side::Buy => match best_ask {
            Some(ask) => if ask <= price_cents {
                Err(OrderCheck::WouldCross { price_cents, best_cents: ask })
            } else {
                Ok(())
            },
            None => Ok(()),
        },
        Side::Sell => match best_bid {
            Some(bid) => if bid >= price_cents {
                Err(OrderCheck::WouldCross { price_cents, best_cents: bid })
            } else {
                Ok(())
            },
            None => Ok(()),
        },
    }
}

/// A resting order of the same owner's that an incoming order, reaching as
/// far as `worst`, would trade with.
pub open spec fn crosses(resting: Resting, order: Order, worst: i64) -> bool {
    &&& resting.owner == order.owner
    &&& resting.side != order.side
    &&& match order.side {
        Side::Buy => resting.price_cents <= worst,
        Side::Sell => resting.price_cents >= worst,
    }
}

/// The trader's own resting orders this one would trade with. Trading with
/// yourself moves no shares and no money but does print on the tape and move
/// the price, so it is refused rather than matched.
///
/// Only orders the incoming one would actually reach count: `worst` is how
/// far down the other side it would walk, and `None` where nothing would
/// trade at all.
pub fn self_crossing(resting: &Vec<Resting>, order: &Order, worst: Option<i64>) -> (ids: Vec<u64>)
    ensures
        ids@ == (match worst {
            Some(worst) => resting@.filter(|r: Resting| crosses(r, *order, worst)).map_values(|r: Resting| r.id),
            None => Seq::empty(),
        }),
{
    let mut ids: Vec<u64> = Vec::new();
    let worst: i64 = match worst {
        Some(worst) => worst,
        None => {
            return ids;
        },
    };
    let ghost hit = |r: Resting| crosses(r, *order, worst);
    let ghost id = |r: Resting| r.id;
    let mut i: usize = 0;
    proof {
        assert(ids@ =~= resting@.take(0).filter(hit).map_values(id)) by {
            reveal(Seq::filter);
        }
    }
    while i < resting.len()
        invariant
            i <= resting.len(),
            hit == (|r: Resting| crosses(r, *order, worst)),
            id == (|r: Resting| r.id),
            ids@ == resting@.take(i as int).filter(hit).map_values(id),
        decreases resting.len() - i,
    {
        let r = &resting[i];
        proof {
            crate::jobs::lemma_filter_take(resting@, hit, i as int);
        }
        let reached: bool = match order.side {
            Side::Buy => r.price_cents <= worst,
            Side::Sell => r.price_cents >= worst,
        };
        if r.owner == order.owner && r.side != order.side && reached {
            ids.push(r.id);
        }
        proof {
            assert(ids@ =~= resting@.take(i as int + 1).filter(hit).map_values(id));
        }
        i = i + 1;
    }
    proof {
        assert(resting@.take(resting@.len() as int) =~= resting@);
    }
    ids
}

/// What a symbol's book shows of an order that would be sent to it.
#[derive(Debug)]
pub struct BookView {
    /// Why the symbol takes no orders right now, if it does not.
    pub closed: Option<Closed>,
    pub best_bid: Option<i64>,
    pub best_ask: Option<i64>,
    /// The orders resting in the book.
    pub resting: Vec<Resting>,
    /// How far down the other side the order would walk, `None` where
    /// nothing would trade at all.
    pub worst: Option<i64>,
}

impl BookView {
    /// The resting orders of its own owner's that the order would trade with.
    pub open spec fn crossed(self, order: Order) -> Seq<u64> {
        match self.worst {
            Some(worst) => self.resting@.filter(|r: Resting| crosses(r, order, worst)).map_values(|r: Resting| r.id),
            None => Seq::empty(),
        }
    }
}

/// Check an order against its symbol before it reaches the book. A closed
/// session or a halt takes no new orders at all; an order that must rest has
/// to rest; and nobody trades with themselves.
pub fn check_order(view: BookView, order: &Order, post_only: bool) -> (r: Result<(), OrderCheck>)
    ensures
        match view.closed {
            Some(closed) => r == Err::<(), OrderCheck>(OrderCheck::Closed(closed)),
            None => match post_only_fault(*order, view.best_bid, view.best_ask) {
                Some(fault) if post_only => match fault {
                    OrderFault::TakesLiquidity => r matches Err(OrderCheck::Invalid(text)) && text@
                        == "a market order cannot be post-only: it exists to take liquidity"@,
                    OrderFault::TradesAtOnce => r matches Err(OrderCheck::Invalid(text)) && text@
                        == "a post-only order must be `gtc`: the others are there to trade at once"@,
                    OrderFault::Crosses { price_cents, best_cents } => r == Err::<(), OrderCheck>(
                        OrderCheck::WouldCross { price_cents, best_cents },
                    ),
                },
                _ => if view.crossed(*order).len() > 0 {
                    r matches Err(OrderCheck::SelfTrade(ids)) && ids@ == view.crossed(*order)
                } else {
                    r is Ok
                },
            },
        },
{
    match view.closed {
        Some(closed) => {
            return Err(OrderCheck::Closed(closed));
        },
        None => {},
    }
    if post_only {
        match check_post_only(order, view.best_bid, view.best_ask) {
            Ok(()) => {},
            Err(e) => {
                return Err(e);
            },
        }
    }
    let ids = self_crossing(&view.resting, order, view.worst);
    if ids.len() > 0 {
        return Err(OrderCheck::SelfTrade(ids));
    }
    Ok(())
}

/// The order of `trader`'s that an amendment replaces: it rests under that
/// id, and it is the trader's own.
pub open spec fn amends(resting: Resting, trader: TraderId, order_id: u64) -> bool {
    resting.id == order_id && resting.owner == Owner::Trader(trader)
}

/// The trader's order is among those resting.
pub open spec fn rests_among(resting: Seq<Resting>, trader: TraderId, order_id: u64) -> bool {
    exists|i: int| 0 <= i < resting.len() && amends(#[trigger] resting[i], trader, order_id)
}

/// Find the order an amendment replaces.
pub fn find_own(resting: &Vec<Resting>, trader: TraderId, order_id: u64) -> (r: Result<Resting, OrderCheck>)
    ensures
        match r {
            Ok(found) => resting@.contains(found) && amends(found, trader, order_id),
            Err(e) => {
                &&& e == OrderCheck::UnknownOrder(order_id)
                &&& !rests_among(resting@, trader, order_id)
            },
        },
{
    let mut i: usize = 0;
    while i < resting.len()
        invariant
            i <= resting.len(),
            forall|j: int| 0 <= j < i ==> !amends(#[trigger] resting@[j], trader, order_id),
        decreases resting.len() - i,
    {
        let found = resting[i];
        if found.id == order_id && found.owner == Owner::Trader(trader) {
            return Ok(found);
        }
        i = i + 1;
    }
    Err(OrderCheck::UnknownOrder(order_id))
}

// ---------------------------------------------------------------------------
// What the market checks and writes down

impl Market {
    /// The id the next trader order in a book whose counter is at `book_next`
    /// takes.
    pub fn allocate_order_id(&mut self, book_next: u64) -> (id: u64)
        requires
            old(self).wf(),
            old(self).next_order_id < u64::MAX,
            book_next < u64::MAX,
        ensures
            final(self).wf(),
            id == max_int(old(self).next_order_id as int, book_next as int),
            *final(self) == (Market { next_order_id: (id + 1) as u64, ..*old(self) }),
    {
        let id: u64 = max_u64(self.next_order_id, book_next);
        self.next_order_id = id + 1;
        id
    }

    /// The order a submission's `client_order_id` was used for before, if it
    /// carries one that was.
    pub open spec fn seen_before(&self, trader: TraderId, client_order_id: Option<String>) -> Option<OrderRecord> {
        match client_order_id {
            Some(id) => self.orders.log().by_client(trader.0, id@),
            None => None,
        }
    }

    /// The same order sent twice — a retry after a timeout, say — is placed
    /// once: the first response is replayed, and a re-used id that asks for
    /// something else is refused rather than quietly obeyed. `None` where the
    /// order is new.
    pub fn replayed(&self, trader: TraderId, symbol: &str, order: &Order, client_order_id: &Option<String>) -> (r: Option<
        Result<Placed, PlaceError>,
    >)
        requires
            self.wf(),
        ensures
            match self.seen_before(trader, *client_order_id) {
                None => r is None,
                Some(record) => match record.accepted {
                    Some(accepted) => if record.asked_for(*order, symbol@) {
                        r matches Some(Ok(Placed::Replayed(response))) && same_response(response, accepted)
                    } else {
                        r == Some(
                            Err::<Placed, PlaceError>(
                                PlaceError::DuplicateClientId {
                                    client_order_id: client_order_id->0,
                                    order_id: record.order_id,
                                },
                            ),
                        )
                    },
                    None => r == Some(
                        Err::<Placed, PlaceError>(
                            PlaceError::DuplicateClientId {
                                client_order_id: client_order_id->0,
                                order_id: record.order_id,
                            },
                        ),
                    ),
                },
            },
    {
        let id = match client_order_id {
            Some(id) => id,
            None => {
                return None;
            },
        };
        let record = match self.orders.order_by_client_id(trader, id.as_str()) {
            Some(record) => record,
            None => {
                return None;
            },
        };
        match &record.accepted {
            Some(accepted) => {
                if record.matches(order, symbol) {
                    return Some(Ok(Placed::Replayed(accepted.clone())));
                }
            },
            None => {},
        }
        Some(Err(PlaceError::DuplicateClientId { client_order_id: id.clone(), order_id: record.order_id }))
    }

    /// Shares a buy can still be filled from: those no trader holds or is
    /// already bidding for.
    pub open spec fn unheld(&self, symbol: Seq<char>, outstanding: u64, bid_shares: u64) -> u64 {
        let unheld = max_int(outstanding - clamp_u64(self.held_by_all(symbol)), 0);
        max_int(unheld - bid_shares, 0) as u64
    }

    /// Shares of `symbol` a buy can still be filled from.
    pub fn available_shares(&self, symbol: &str, outstanding: u64, bid_shares: u64) -> (shares: u64)
        requires
            self.wf(),
        ensures
            shares == self.unheld(symbol@, outstanding, bid_shares),
    {
        usat_sub(usat_sub(outstanding, self.held_shares(symbol)), bid_shares)
    }

    /// What an order costs at worst, the taker's fee included: a crossing
    /// order pays it out of the same cash, the moment it fills.
    pub open spec fn cost_with_fee(&self, cost_cents: i64) -> i64 {
        clamp_i64(cost_cents - self.fees.fee(Liquidity::Taker, cost_cents))
    }

    fn with_fee(&self, cost_cents: i64) -> (cents: i64)
        requires
            self.wf(),
            cost_cents > i64::MIN,
        ensures
            cents == self.cost_with_fee(cost_cents),
    {
        proof {
            lemma_fee_fits(self.fees, Liquidity::Taker, cost_cents);
        }
        sat_add(cost_cents, self.fees.taker_cost(cost_cents))
    }

    /// Why an order cannot be funded, if it cannot: a buy for more shares
    /// than are left, a trader nobody knows, or an account that would not
    /// pay for it or shares that are not there.
    pub open spec fn funding_fault(
        &self,
        ledger: &LedgerView,
        symbol: Seq<char>,
        trader: TraderId,
        order: Order,
        prepared: Prepared,
        outstanding: u64,
    ) -> Option<PlaceError> {
        let left = self.unheld(symbol, outstanding, prepared.bid_shares);
        if order.side is Buy && order.qty > left {
            Some(PlaceError::Refused(Refused::SupplyExhausted { needed: order.qty, available: left }))
        } else {
            match self.account_behind(trader) {
                None => Some(PlaceError::UnknownTrader(trader.0)),
                Some(account) => match self.traders.map()[trader.0].checked(
                    ledger,
                    &account,
                    symbol,
                    order.side,
                    order.qty,
                    self.cost_with_fee(prepared.cost_cents),
                ) {
                    Ok(()) => None,
                    Err(e) => Some(PlaceError::Refused(e)),
                },
            }
        }
    }

    /// The market is `self` with a resting order withdrawn to be replaced, and
    /// `r` is what is let go of and the order that takes its place.
    pub open spec fn amended(
        &self,
        after: &Market,
        trader: TraderId,
        symbol: Seq<char>,
        cancelled: Resting,
        amendment: Amendment,
        now_ms: i64,
        r: (Option<Hold>, Order),
    ) -> bool {
        &&& *after == (Market { traders: after.traders, orders: after.orders, ..*self })
        &&& after.orders.limit() == self.orders.limit()
        &&& after.orders.log() == self.orders.log().withdrawn(cancelled.id, symbol, cancelled.outstanding, now_ms)
        &&& self.withdrew(after, trader, symbol, cancelled, r.0)
        &&& r.1 == amendment.replaces(cancelled)
    }

    /// Take the order an amendment replaces out of the way: what it reserved
    /// is given back and its record cancelled, whatever becomes of the
    /// replacement, since it would otherwise be in the way of it both as
    /// liquidity and as a reservation. What comes back is the cash the ledger
    /// is to let go of, and the order to place instead.
    pub fn amend(&mut self, trader: TraderId, symbol: &str, cancelled: &Resting, amendment: &Amendment, now_ms: i64) -> (r: (
        Option<Hold>,
        Order,
    ))
        requires
            old(self).wf(),
        ensures
            final(self).wf(),
            old(self).amended(final(self), trader, symbol@, *cancelled, *amendment, now_ms, r),
    {
        let hold = self.release(trader, symbol, cancelled, now_ms);
        (hold, amendment.replacement(cancelled))
    }

    /// The money and share checks, before the book sees an order. `prepared`
    /// is the symbol's word on the order and `outstanding` the shares it has.
    ///
    /// A symbol has a fixed number of shares: a buy can only be filled from
    /// the ones no trader holds or is already bidding for. The account that
    /// would fund the order must be active, a buy must have the cash
    /// available, and a sell the shares.
    pub fn fund(
        &mut self,
        ledger: &LedgerView,
        symbol: &str,
        trader: TraderId,
        order: &Order,
        prepared: &Prepared,
        outstanding: u64,
    ) -> (r: Result<(), PlaceError>)
        requires
            old(self).wf(),
            ledger.wf(),
            prepared.cost_cents > i64::MIN,
        ensures
            final(self).wf(),
            match r {
                Ok(()) => old(self).funding_fault(ledger, symbol@, trader, *order, *prepared, outstanding) is None
                    && *final(self) == *old(self),
                Err(e) => {
                    &&& old(self).funding_fault(ledger, symbol@, trader, *order, *prepared, outstanding) == Some(e)
                    &&& *final(self) == (Market {
                        orders_refused: if e is Refused {
                            clamp_u64(old(self).orders_refused + 1)
                        } else {
                            old(self).orders_refused
                        },
                        ..*old(self)
                    })
                },
            },
    {
        if order.side == Side::Buy {
            let available: u64 = self.available_shares(symbol, outstanding, prepared.bid_shares);
            if order.qty > available {
                self.orders_refused = usat_add(self.orders_refused, 1);
                return Err(PlaceError::Refused(Refused::SupplyExhausted { needed: order.qty, available }));
            }
        }
        let cost: i64 = self.with_fee(prepared.cost_cents);
        match self.check_funds(ledger, symbol, trader, order.side, order.qty, cost) {
            Ok(()) => Ok(()),
            Err(e) => {
                match e {
                    PlaceError::Refused(_) => {
                        self.orders_refused = usat_add(self.orders_refused, 1);
                    },
                    _ => {},
                }
                Err(e)
            },
        }
    }

    /// The trader's account and shares would fund an order.
    fn check_funds(&self, ledger: &LedgerView, symbol: &str, trader: TraderId, side: Side, qty: u64, cost_cents: i64) -> (r:
        Result<(), PlaceError>)
        requires
            self.wf(),
            ledger.wf(),
        ensures
            r == (match self.account_behind(trader) {
                None => Err(PlaceError::UnknownTrader(trader.0)),
                Some(account) => match self.traders.map()[trader.0].checked(
                    ledger,
                    &account,
                    symbol@,
                    side,
                    qty,
                    cost_cents,
                ) {
                    Ok(()) => Ok(()),
                    Err(e) => Err(PlaceError::Refused(e)),
                },
            }),
    {
        match self.traders.get(&trader.0) {
            None => Err(PlaceError::UnknownTrader(trader.0)),
            Some(t) => {
                assert(self.trader_wf(trader.0));
                match self.accounts.get(&t.account_id.0) {
                    None => Err(PlaceError::UnknownTrader(trader.0)),
                    Some(account) => match t.check(ledger, account, symbol, side, qty, cost_cents) {
                        Ok(()) => Ok(()),
                        Err(e) => Err(PlaceError::Refused(e)),
                    },
                }
            },
        }
    }

    /// The money and share checks, and then the id the order is sent to its
    /// book with, whose counter is at `book_next`.
    pub fn fund_and_send(
        &mut self,
        ledger: &LedgerView,
        symbol: &str,
        trader: TraderId,
        order: &Order,
        prepared: &Prepared,
        outstanding: u64,
        book_next: u64,
    ) -> (r: Result<u64, PlaceError>)
        requires
            old(self).wf(),
            ledger.wf(),
            prepared.cost_cents > i64::MIN,
            old(self).next_order_id < u64::MAX,
            book_next < u64::MAX,
        ensures
            final(self).wf(),
            old(self).sends(
                final(self),
                ledger,
                symbol@,
                trader,
                *order,
                *prepared,
                outstanding,
                book_next,
                r,
            ),
    {
        match self.fund(ledger, symbol, trader, order, prepared, outstanding) {
            Ok(()) => Ok(self.allocate_order_id(book_next)),
            Err(e) => Err(e),
        }
    }

    /// What funding an order and taking an id for it comes to: a refusal,
    /// which is counted and changes nothing else, or an id no trader order
    /// has taken before.
    pub open spec fn sends(
        &self,
        after: &Market,
        ledger: &LedgerView,
        symbol: Seq<char>,
        trader: TraderId,
        order: Order,
        prepared: Prepared,
        outstanding: u64,
        book_next: u64,
        r: Result<u64, PlaceError>,
    ) -> bool {
        match self.funding_fault(ledger, symbol, trader, order, prepared, outstanding) {
            Some(e) => {
                &&& r == Err::<u64, PlaceError>(e)
                &&& *after == (Market {
                    orders_refused: if e is Refused {
                        clamp_u64(self.orders_refused + 1)
                    } else {
                        self.orders_refused
                    },
                    ..*self
                })
            },
            None => {
                let id = max_int(self.next_order_id as int, book_next as int);
                &&& r == Ok::<u64, PlaceError>(id as u64)
                &&& *after == (Market { next_order_id: (id + 1) as u64, ..*self })
            },
        }
    }

    /// What becomes of an order: a check that failed stands, a request seen
    /// before is answered as it was, and any other is funded and sent.
    pub open spec fn places(
        &self,
        after: &Market,
        ledger: &LedgerView,
        symbol: Seq<char>,
        trader: TraderId,
        request: PlaceRequest,
        word: Option<Result<Prepared, OrderCheck>>,
        outstanding: u64,
        book_next: u64,
        r: Result<Sending, PlaceError>,
    ) -> bool {
        match word {
            None => r == Err::<Sending, PlaceError>(PlaceError::UnknownSymbol) && *after == *self,
            Some(Err(check)) => r == Err::<Sending, PlaceError>(PlaceError::Check(check)) && *after == *self,
            Some(Ok(prepared)) => match self.seen_before(trader, request.client_order_id) {
                Some(record) => {
                    &&& *after == *self
                    &&& if record.accepted is Some && record.asked_for(request.order, symbol) {
                        r matches Ok(Sending::Replayed(response)) && same_response(response, record.accepted->0)
                    } else {
                        r == Err::<Sending, PlaceError>(
                            PlaceError::DuplicateClientId {
                                client_order_id: request.client_order_id->0,
                                order_id: record.order_id,
                            },
                        )
                    }
                },
                None => exists|sent: Result<u64, PlaceError>|
                    {
                        &&& #[trigger] self.sends(
                            after,
                            ledger,
                            symbol,
                            trader,
                            request.order,
                            prepared,
                            outstanding,
                            book_next,
                            sent,
                        )
                        &&& r == (match sent {
                            Ok(min_id) => Ok::<Sending, PlaceError>(
                                Sending::Send { min_id, expires_at_ms: prepared.expires_at_ms },
                            ),
                            Err(e) => Err(e),
                        })
                    },
            },
        }
    }

    /// Decide on an order: what the symbol says of it, whether it was sent
    /// before, and whether it is funded, in that order. `word` is what the
    /// symbol says, `None` where it is no longer listed.
    pub fn place(
        &mut self,
        ledger: &LedgerView,
        symbol: &str,
        trader: TraderId,
        request: &PlaceRequest,
        word: Option<Result<Prepared, OrderCheck>>,
        outstanding: u64,
        book_next: u64,
    ) -> (r: Result<Sending, PlaceError>)
        requires
            old(self).wf(),
            ledger.wf(),
            word matches Some(Ok(prepared)) ==> prepared.cost_cents > i64::MIN,
            old(self).next_order_id < u64::MAX,
            book_next < u64::MAX,
        ensures
            final(self).wf(),
            old(self).places(final(self), ledger, symbol@, trader, *request, word, outstanding, book_next, r),
    {
        let prepared = match word {
            None => {
                return Err(PlaceError::UnknownSymbol);
            },
            Some(Err(check)) => {
                return Err(PlaceError::Check(check));
            },
            Some(Ok(prepared)) => prepared,
        };
        match self.replayed(trader, symbol, &request.order, &request.client_order_id) {
            Some(Ok(placed)) => match placed {
                Placed::New(response) => {
                    return Ok(Sending::Replayed(response));
                },
                Placed::Replayed(response) => {
                    return Ok(Sending::Replayed(response));
                },
            },
            Some(Err(e)) => {
                return Err(e);
            },
            None => {},
        }
        let sent = self.fund_and_send(ledger, symbol, trader, &request.order, &prepared, outstanding, book_next);
        let ghost outcome = sent;
        match sent {
            Ok(min_id) => {
                assert(outcome == Ok::<u64, PlaceError>(min_id));
                Ok(Sending::Send { min_id, expires_at_ms: prepared.expires_at_ms })
            },
            Err(e) => Err(e),
        }
    }

    /// The book itself refused an order that was funded.
    pub fn turned_away(&mut self, message: String) -> (e: PlaceError)
        requires
            old(self).wf(),
        ensures
            final(self).wf(),
            e == PlaceError::Invalid(message),
            *final(self) == (Market { orders_refused: clamp_u64(old(self).orders_refused + 1), ..*old(self) }),
    {
        self.orders_refused = usat_add(self.orders_refused, 1);
        PlaceError::Invalid(message)
    }

    /// The book took an order, and its counter is now at `book_next`.
    pub fn sent(&mut self, book_next: u64)
        requires
            old(self).wf(),
        ensures
            final(self).wf(),
            *final(self) == (Market {
                next_order_id: max_int(old(self).next_order_id as int, book_next as int) as u64,
                orders_placed: clamp_u64(old(self).orders_placed + 1),
                ..*old(self)
            }),
    {
        self.next_order_id = max_u64(self.next_order_id, book_next);
        self.orders_placed = usat_add(self.orders_placed, 1);
    }

    /// Orders of `trader`'s in `symbol` rest for `remaining` more shares: a
    /// sell promises them.
    pub open spec fn promised(
        before: Map<u64, Trader>,
        after: Map<u64, Trader>,
        trader: TraderId,
        symbol: Seq<char>,
        side: Side,
        remaining: u64,
    ) -> bool {
        if side is Sell && remaining > 0 {
            &&& after == before.insert(trader.0, after[trader.0])
            &&& after[trader.0] == (Trader { reserved_shares: after[trader.0].reserved_shares, ..before[trader.0] })
            &&& after[trader.0].reserved_shares.map() == before[trader.0].promised_more(symbol, remaining)
        } else {
            after == before
        }
    }

    /// What of an order rests is reserved: the shares of a sell, the cash of
    /// a buy.
    pub open spec fn rested(
        &self,
        after: &Market,
        trader: TraderId,
        symbol: Seq<char>,
        order: Order,
        placement: Placement,
        hold: Option<Hold>,
    ) -> bool {
        match self.rests_at(trader, order, placement) {
            Some(price_cents) => {
                &&& Market::promised(
                    self.traders.map(),
                    after.traders.map(),
                    trader,
                    symbol,
                    order.side,
                    placement.remaining,
                )
                &&& hold == (if placement.remaining > 0 {
                    let_go(self.account_behind(trader)->0.wallet, order.side, placement.remaining, price_cents)
                } else {
                    None
                })
            },
            None => hold is None && after.traders == self.traders,
        }
    }

    /// The price an order rests at, where it does and somebody funds it.
    pub open spec fn rests_at(&self, trader: TraderId, order: Order, placement: Placement) -> Option<i64> {
        if placement.status is Resting && self.account_behind(trader) is Some {
            match order.kind {
                OrderKind::Limit { price_cents } => Some(price_cents),
                OrderKind::Market => None,
            }
        } else {
            None
        }
    }

    /// Reserve for what rests of an order the book took.
    fn reserve(&mut self, trader: TraderId, symbol: &str, order: &Order, placement: &Placement) -> (hold: Option<Hold>)
        requires
            old(self).wf(),
        ensures
            final(self).wf(),
            *final(self) == (Market { traders: final(self).traders, ..*old(self) }),
            old(self).rested(final(self), trader, symbol@, *order, *placement, hold),
    {
        let ghost before = *self;
        let price_cents: i64 = match order.kind {
            OrderKind::Limit { price_cents } => price_cents,
            OrderKind::Market => {
                return None;
            },
        };
        if placement.status != OrderStatus::Resting {
            return None;
        }
        match self.account_of(trader) {
            None => {
                return None;
            },
            Some(_) => {},
        }
        let mut hold: Option<Hold> = None;
        match self.traders.get_mut(&trader.0) {
            Some(t) => match self.accounts.get(&t.account_id.0) {
                Some(account) => {
                    assert(before.trader_wf(trader.0));
                    hold = t.reserve(account, symbol, order.side, placement.remaining, price_cents);
                },
                None => {},
            },
            None => {},
        }
        proof {
            if order.side is Buy || placement.remaining == 0 {
                assert(self.traders.map()[trader.0] == before.traders.map()[trader.0]);
                assert(self.traders.map() =~= before.traders.map());
            }
        }
        hold
    }

    /// The record of an order the book took, and of what it was answered.
    pub open spec fn record_of(
        client_order_id: Option<String>,
        trader: TraderId,
        symbol: String,
        order: Order,
        placement: Placement,
        answer: OrderResponse,
        clock_ms: i64,
        expires_at_ms: Option<i64>,
    ) -> OrderRecord {
        OrderRecord {
            expires_at_ms,
            ..OrderRecord::accepted_as(client_order_id, trader, symbol, order, placement, answer, clock_ms)
        }
    }

    /// Write down an order the book took, once its trades are booked: what
    /// rests of it is reserved, and its record goes into the log. Returns
    /// what the trader is told, and the cash the ledger is to hold back.
    pub fn file(
        &mut self,
        symbol: &str,
        trader: TraderId,
        order: &Order,
        client_order_id: Option<String>,
        placement: &Placement,
        clock_ms: i64,
        expires_at_ms: Option<i64>,
    ) -> (r: (OrderResponse, Option<Hold>))
        requires
            old(self).wf(),
        ensures
            final(self).wf(),
            *final(self) == (Market { traders: final(self).traders, orders: final(self).orders, ..*old(self) }),
            r.0.answers(symbol@, trader, order.side, order.qty, *placement),
            old(self).rested(final(self), trader, symbol@, *order, *placement, r.1),
            final(self).orders.limit() == old(self).orders.limit(),
            exists|name: String, answer: OrderResponse|
                {
                    let record = #[trigger] Market::record_of(
                        client_order_id,
                        trader,
                        name,
                        *order,
                        *placement,
                        answer,
                        clock_ms,
                        expires_at_ms,
                    );
                    &&& name@ == symbol@
                    &&& same_response(answer, r.0)
                    &&& final(self).orders.log() == old(self).orders.log().added(record).cut(
                        old(self).orders.limit(),
                    )
                },
    {
        let hold = self.reserve(trader, symbol, order, placement);
        let response = OrderResponse::new(symbol, trader, order.side, order.qty, placement);
        let name = symbol.to_owned();
        let answer = response.clone();
        let ghost kept = answer;
        let record = OrderRecord::new(client_order_id, trader, name, order, placement, answer, clock_ms).expiring_at(
            expires_at_ms,
        );
        proof {
            assert(record == Market::record_of(
                client_order_id,
                trader,
                name,
                *order,
                *placement,
                kept,
                clock_ms,
                expires_at_ms,
            ));
        }
        self.orders.record_order(record);
        (response, hold)
    }

    /// Why a stop is not held, if it is not: the trader holds too many
    /// already, is not known, or could not fund the order it fires.
    pub open spec fn stop_fault(&self, ledger: &LedgerView, symbol: Seq<char>, req: StopRequest, held: usize) -> Option<
        PlaceFault,
    > {
        let trader = TraderId(req.trader_id);
        let cost = StopOrder::worst_cost(req.limit_price_cents, req.stop_price_cents, req.qty);
        if held >= MAX_STOPS_PER_TRADER {
            Some(PlaceFault::TooMany)
        } else {
            match self.account_behind(trader) {
                None => Some(PlaceFault::Other(PlaceError::UnknownTrader(req.trader_id))),
                Some(account) => match self.traders.map()[trader.0].checked(
                    ledger,
                    &account,
                    symbol,
                    req.side,
                    req.qty,
                    self.cost_with_fee(cost),
                ) {
                    Ok(()) => None,
                    Err(e) => Some(PlaceFault::Other(PlaceError::Refused(e))),
                },
            }
        }
    }

    /// What becomes of a stop that is asked for.
    pub open spec fn stops(
        &self,
        after: &Market,
        ledger: &LedgerView,
        symbol: Seq<char>,
        req: StopRequest,
        held: usize,
        now_ms: i64,
        r: Result<StopOrder, PlaceError>,
    ) -> bool {
        match self.stop_fault(ledger, symbol, req, held) {
            None => {
                &&& r matches Ok(stop) && stop.symbol@ == symbol && stop == (StopOrder {
                    stop_id: self.next_stop_id,
                    trader_id: req.trader_id,
                    symbol: stop.symbol,
                    side: req.side,
                    qty: req.qty,
                    stop_price_cents: req.stop_price_cents,
                    limit_price_cents: req.limit_price_cents,
                    tif: req.tif,
                    client_order_id: req.client_order_id,
                    created_at_ms: now_ms,
                })
                &&& *after == (Market { next_stop_id: (self.next_stop_id + 1) as u64, ..*self })
            },
            Some(PlaceFault::TooMany) => {
                &&& r matches Err(PlaceError::Invalid(text)) && text@ == "a trader may hold "@ + decimal(
                    MAX_STOPS_PER_TRADER as nat,
                ) + " stops at once; cancel one first"@
                &&& *after == *self
            },
            Some(PlaceFault::Other(e)) => r == Err::<StopOrder, PlaceError>(e) && *after == *self,
        }
    }

    /// Hold a stop until the price reaches it. `held` is how many the trader
    /// holds already, in every symbol.
    ///
    /// The account is checked here so an obviously unfundable trigger is
    /// refused while the trader is still looking at the response, but nothing
    /// is reserved: a stop that never fires costs its owner nothing, and the
    /// real check is the one made when it does fire.
    pub fn place_stop(&mut self, ledger: &LedgerView, symbol: &str, req: StopRequest, held: usize, now_ms: i64) -> (r: Result<
        StopOrder,
        PlaceError,
    >)
        requires
            old(self).wf(),
            ledger.wf(),
            old(self).next_stop_id < u64::MAX,
            StopOrder::worst_cost(req.limit_price_cents, req.stop_price_cents, req.qty) > i64::MIN,
        ensures
            final(self).wf(),
            old(self).stops(final(self), ledger, symbol@, req, held, now_ms, r),
    {
        if held >= MAX_STOPS_PER_TRADER {
            let mut text = "a trader may hold ".to_owned();
            push_usize(&mut text, MAX_STOPS_PER_TRADER);
            text.append(" stops at once; cancel one first");
            return Err(PlaceError::Invalid(text));
        }
        let stop = StopOrder {
            stop_id: self.next_stop_id,
            trader_id: req.trader_id,
            symbol: symbol.to_owned(),
            side: req.side,
            qty: req.qty,
            stop_price_cents: req.stop_price_cents,
            limit_price_cents: req.limit_price_cents,
            tif: req.tif,
            client_order_id: req.client_order_id,
            created_at_ms: now_ms,
        };
        let cost: i64 = self.with_fee(stop.cost_cents());
        match self.check_funds(ledger, symbol, TraderId(stop.trader_id), stop.side, stop.qty, cost) {
            Ok(()) => {
                self.next_stop_id = self.next_stop_id + 1;
                Ok(stop)
            },
            Err(e) => Err(e),
        }
    }
}

/// Why a stop is not held.
pub enum PlaceFault {
    TooMany,
    Other(PlaceError),
}

// ---------------------------------------------------------------------------
// Laws

/// A buy that is funded leaves no more shares held and bid for than there
/// are: what the traders hold, what they bid for and what it asks for fit
/// into the shares outstanding.
pub proof fn law_a_funded_buy_fits_the_supply(
    market: &Market,
    ledger: &LedgerView,
    symbol: Seq<char>,
    trader: TraderId,
    order: Order,
    prepared: Prepared,
    outstanding: u64,
)
    requires
        market.held_by_all(symbol) >= 0,
        order.side is Buy,
        order.qty > 0,
        market.funding_fault(ledger, symbol, trader, order, prepared, outstanding) is None,
    ensures
        market.held_by_all(symbol) + prepared.bid_shares + order.qty <= outstanding,
{
}

/// Nobody trades with themselves: where the book shows none of an order's own
/// owner's orders in its way, none of those resting there is one it would
/// trade with.
pub proof fn law_an_order_that_passes_meets_none_of_its_owners(view: BookView, order: Order, resting: Resting, worst: i64)
    requires
        view.crossed(order).len() == 0,
        view.worst == Some(worst),
        view.resting@.contains(resting),
    ensures
        !crosses(resting, order, worst),
{
    let hit = |r: Resting| crosses(r, order, worst);
    let i = choose|i: int| 0 <= i < view.resting@.len() && view.resting@[i] == resting;
    if crosses(resting, order, worst) {
        view.resting@.lemma_filter_contains(hit, i);
        assert(view.resting@.filter(hit).len() > 0);
        assert(view.crossed(order) =~= view.resting@.filter(hit).map_values(|r: Resting| r.id));
    }
}

/// The shares of a symbol add up: what is held, what is bid for and what a
/// buy can still be filled from are the shares outstanding, where the first
/// two are no more than that.
pub proof fn law_the_shares_add_up(market: &Market, symbol: Seq<char>, outstanding: u64, bid_shares: u64)
    requires
        market.held_by_all(symbol) >= 0,
        market.held_by_all(symbol) + bid_shares <= outstanding,
    ensures
        market.held_by_all(symbol) + bid_shares + market.unheld(symbol, outstanding, bid_shares) == outstanding,
{
}

/// No two trader orders share an id, in one book or two: once an order has
/// taken an id the counter is past it, and an order allocated while the
/// counter is past it takes a larger one, wherever its book stands.
pub proof fn law_order_ids_are_never_taken_twice(before: u64, book_next: u64, later: u64, other_book_next: u64)
    requires
        later >= max_int(before as int, book_next as int) + 1,
    ensures
        max_int(later as int, other_book_next as int) > max_int(before as int, book_next as int),
{
}

/// A retry of a resting order is recognised: where no other order in the log
/// carries its `client_order_id`, the log answers that id with the record of
/// the first, which asked for the same and still holds what it was answered.
pub proof fn law_a_retry_of_a_resting_order_is_recognised(
    log: Log,
    cap: int,
    client_order_id: String,
    trader: TraderId,
    symbol: String,
    order: Order,
    placement: Placement,
    answer: OrderResponse,
    clock_ms: i64,
    expires_at_ms: Option<i64>,
)
    requires
        log.wf(),
        order.owner == Owner::Trader(trader),
        placement.status is Resting,
        forall|id: u64| #[trigger]
            log.orders.contains_key(id) && id != placement.id ==> client_key(log.orders[id]) != Some(
                (trader.0, client_order_id@),
            ),
    ensures
        ({
            let record = Market::record_of(
                Some(client_order_id),
                trader,
                symbol,
                order,
                placement,
                answer,
                clock_ms,
                expires_at_ms,
            );
            &&& log.added(record).cut(cap).by_client(trader.0, client_order_id@) == Some(record)
            &&& record.asked_for(order, symbol@)
            &&& record.accepted == Some(answer)
        }),
{
    let record = Market::record_of(
        Some(client_order_id),
        trader,
        symbol,
        order,
        placement,
        answer,
        clock_ms,
        expires_at_ms,
    );
    law_a_live_order_is_found_by_its_own_id(log, record, cap);
    assert(client_key(record) == Some((trader.0, client_order_id@)));
}

/// A limit order that is good till cancelled passes the post-only check
/// exactly where it would not trade on arrival: a buy below the best ask, a
/// sell above the best bid, either where there is none. One that is refused
/// is told its price and the one it would have met. No other order passes.
pub proof fn law_post_only_passes_where_nothing_would_trade(
    order: Order,
    best_bid: Option<i64>,
    best_ask: Option<i64>,
    r: Result<(), OrderCheck>,
)
    requires
        call_ensures(check_post_only, (&order, best_bid, best_ask), r),
    ensures
        r is Ok ==> order.kind is Limit && order.tif is Gtc,
        order.kind matches OrderKind::Limit { price_cents } ==> (order.tif is Gtc ==> {
            &&& order.side is Buy ==> (r is Ok <==> (best_ask matches Some(ask) ==> price_cents < ask))
            &&& order.side is Sell ==> (r is Ok <==> (best_bid matches Some(bid) ==> price_cents > bid))
            &&& order.side is Buy && r is Err ==> best_ask is Some && r == Err::<(), OrderCheck>(
                OrderCheck::WouldCross { price_cents, best_cents: best_ask->0 },
            )
            &&& order.side is Sell && r is Err ==> best_bid is Some && r == Err::<(), OrderCheck>(
                OrderCheck::WouldCross { price_cents, best_cents: best_bid->0 },
            )
        }),
{
}

/// The two sides of the book mirror each other: with every price negated and
/// the sides swapped, the post-only check comes to the same.
pub proof fn law_post_only_treats_both_sides_alike(
    price_cents: i64,
    tif: TimeInForce,
    qty: u64,
    owner: Owner,
    best: Option<i64>,
    other: Option<i64>,
    bought: Result<(), OrderCheck>,
    sold: Result<(), OrderCheck>,
    mirrored: Option<i64>,
)
    requires
        price_cents > i64::MIN,
        best matches Some(b) ==> b > i64::MIN,
        mirrored == (match best {
            Some(b) => Some((-b) as i64),
            None => None,
        }),
        call_ensures(
            check_post_only,
            (&Order { owner, side: Side::Buy, kind: OrderKind::Limit { price_cents }, tif, qty }, other, best),
            bought,
        ),
        call_ensures(
            check_post_only,
            (
                &Order {
                    owner,
                    side: Side::Sell,
                    kind: OrderKind::Limit { price_cents: (-price_cents) as i64 },
                    tif,
                    qty,
                },
                mirrored,
                other,
            ),
            sold,
        ),
    ensures
        bought is Ok <==> sold is Ok,
{
}

/// An order would trade with those of its owner's resting orders that stand
/// on the other side within the price it reaches, and with no others.
pub proof fn law_an_order_meets_its_owners_orders_on_the_other_side(
    resting: Vec<Resting>,
    order: Order,
    worst: Option<i64>,
    ids: Vec<u64>,
    id: u64,
)
    requires
        call_ensures(self_crossing, (&resting, &order, worst), ids),
    ensures
        worst is None ==> ids@.len() == 0,
        worst matches Some(worst) ==> (ids@.contains(id) <==> exists|i: int|
            {
                &&& 0 <= i < resting@.len()
                &&& (#[trigger] resting@[i]).id == id
                &&& resting@[i].owner == order.owner
                &&& resting@[i].side != order.side
                &&& order.side is Buy ==> resting@[i].price_cents <= worst
                &&& order.side is Sell ==> resting@[i].price_cents >= worst
            }),
{
    if worst is Some {
        let worst = worst->0;
        let keep = |r: Resting| crosses(r, order, worst);
        let met = resting@.filter(keep);
        assert forall|r: Resting| #[trigger] met.contains(r) <==> resting@.contains(r) && keep(r) by {
            lemma_filtered(resting@, keep, r);
        }
        if ids@.contains(id) {
            let j = choose|j: int| 0 <= j < ids@.len() && ids@[j] == id;
            assert(met.contains(met[j]));
            let i = choose|i: int| 0 <= i < resting@.len() && resting@[i] == met[j];
            assert(resting@[i].id == id);
        }
        if exists|i: int|
            {
                &&& 0 <= i < resting@.len()
                &&& (#[trigger] resting@[i]).id == id
                &&& resting@[i].owner == order.owner
                &&& resting@[i].side != order.side
                &&& order.side is Buy ==> resting@[i].price_cents <= worst
                &&& order.side is Sell ==> resting@[i].price_cents >= worst
            } {
            let i = choose|i: int|
                {
                    &&& 0 <= i < resting@.len()
                    &&& (#[trigger] resting@[i]).id == id
                    &&& resting@[i].owner == order.owner
                    &&& resting@[i].side != order.side
                    &&& order.side is Buy ==> resting@[i].price_cents <= worst
                    &&& order.side is Sell ==> resting@[i].price_cents >= worst
                };
            assert(resting@.contains(resting@[i]));
            assert(met.contains(resting@[i]));
            let j = choose|j: int| 0 <= j < met.len() && met[j] == resting@[i];
            assert(ids@[j] == id);
        }
    }
}

/// An order passes the book's checks where the symbol is open, the order is
/// not to rest and would trade, and it would meet none of its owner's.
pub proof fn law_an_order_passes_where_every_check_does(
    view: BookView,
    order: Order,
    post_only: bool,
    r: Result<(), OrderCheck>,
    resting: Result<(), OrderCheck>,
    own: Vec<u64>,
)
    requires
        call_ensures(check_order, (view, &order, post_only), r),
        call_ensures(check_post_only, (&order, view.best_bid, view.best_ask), resting),
        call_ensures(self_crossing, (&view.resting, &order, view.worst), own),
    ensures
        r is Ok <==> view.closed is None && (post_only ==> resting is Ok) && own@.len() == 0,
        view.closed matches Some(closed) ==> r == Err::<(), OrderCheck>(OrderCheck::Closed(closed)),
        view.closed is None && (post_only ==> resting is Ok) && own@.len() > 0 ==> (r matches Err(
            OrderCheck::SelfTrade(ids),
        ) && ids@ == own@),
        view.closed is None && post_only ==> (resting matches Err(OrderCheck::WouldCross { price_cents, best_cents })
            ==> r == Err::<(), OrderCheck>(OrderCheck::WouldCross { price_cents, best_cents })),
{
}

/// An order is found under its number and its owner, and only there.
pub proof fn law_a_trader_finds_its_own_order(
    resting: Vec<Resting>,
    trader: TraderId,
    order_id: u64,
    r: Result<Resting, OrderCheck>,
)
    requires
        call_ensures(find_own, (&resting, trader, order_id), r),
    ensures
        r matches Ok(found) ==> resting@.contains(found) && found.id == order_id && found.owner == Owner::Trader(trader),
        r is Ok <==> exists|i: int|
            0 <= i < resting@.len() && (#[trigger] resting@[i]).id == order_id && resting@[i].owner == Owner::Trader(
                trader,
            ),
        r is Err ==> r == Err::<Resting, OrderCheck>(OrderCheck::UnknownOrder(order_id)),
{
    if r is Ok {
        let i = choose|i: int| 0 <= i < resting@.len() && resting@[i] == r->Ok_0;
        assert(resting@[i].id == order_id);
    } else {
        assert(!rests_among(resting@, trader, order_id));
    }
}

/// What takes an order's place is for the quantity the amendment names,
/// whatever was left of the old one, and at the price it names; for what it
/// does not name, the order that was there settles it. The owner and the
/// side stay, and it rests till cancelled.
pub proof fn law_an_amendment_replaces_what_it_names(amendment: Amendment, resting: Resting, order: Order)
    requires
        call_ensures(Amendment::replacement, (&amendment, &resting), order),
    ensures
        amendment.qty matches Some(qty) ==> order.qty == qty,
        amendment.qty is None ==> order.qty == resting.outstanding,
        order.kind is Limit,
        amendment.price_cents matches Some(price) ==> order.kind == (OrderKind::Limit { price_cents: price }),
        amendment.price_cents is None ==> order.kind == (OrderKind::Limit { price_cents: resting.price_cents }),
        order.owner == resting.owner,
        order.side == resting.side,
        order.tif is Gtc,
{
}

/// The order an amendment sends is the one that takes the old one's place.
pub proof fn law_an_amendment_names_all_of_its_order(one: Amendment, other: Amendment, resting: Resting, order: Order)
    requires
        call_ensures(Amendment::replacement, (&one, &resting), order),
        call_ensures(Amendment::replacement, (&other, &resting), order),
        one.qty is Some && other.qty is Some,
        one.price_cents is Some && other.price_cents is Some,
    ensures
        one.qty == other.qty,
        one.price_cents == other.price_cents,
{
}

/// An amended order is told the number of the one it replaced, and what that
/// one had filled: that and what was outstanding are what it was for.
pub proof fn law_a_replaced_order_is_accounted_for(cancelled: Resting, order: OrderResponse, amended: Amended)
    requires
        call_ensures(Amended::new, (&cancelled, order), amended),
        cancelled.outstanding <= cancelled.qty,
    ensures
        amended.replaced_order_id == cancelled.id,
        amended.replaced_filled + cancelled.outstanding == cancelled.qty,
        amended.order == order,
{
}

/// A stop that fires is placed as the order it was held for, with nothing of
/// its own added.
pub proof fn law_a_fired_stop_is_placed_as_it_is(stop: StopOrder, request: PlaceRequest, order: Order)
    requires
        call_ensures(PlaceRequest::fired, (&stop,), request),
        call_ensures(StopOrder::order, (&stop,), order),
    ensures
        request.order == order,
        request.client_order_id == stop.client_order_id,
        !request.post_only && !request.day,
        request.expires_at_ms is None && request.display_qty is None,
{
}

/// What an order is checked against is its cost and the taker's fee on it,
/// whole cents of it.
pub proof fn law_an_order_is_checked_with_its_fee(market: &Market, cost_cents: i64)
    requires
        market.fees.bounded(),
        cost_cents >= 0,
        2 * cost_cents <= i64::MAX,
    ensures
        ({
            let fee = market.cost_with_fee(cost_cents) - cost_cents;
            &&& fee >= 0
            &&& 0 <= cost_cents * market.fees.taker_bps - fee * 10_000 < 10_000
        }),
{
    let rate = cost_cents * market.fees.taker_bps;
    assert(0 <= rate <= cost_cents * 10_000) by (nonlinear_arith)
        requires
            0 <= market.fees.taker_bps <= 10_000,
            cost_cents >= 0,
            rate == cost_cents * market.fees.taker_bps,
    ;
    assert(cost_cents * market.fees.bps(Liquidity::Taker) == rate) by (nonlinear_arith)
        requires
            market.fees.bps(Liquidity::Taker) == market.fees.taker_bps,
            rate == cost_cents * market.fees.taker_bps,
    ;
}

/// An order is funded exactly where there are shares to buy that nobody holds
/// or bids for, its trader has an account, the account is active, and it has
/// the cash for a buy with its fee, or the free shares for a sell.
pub proof fn law_an_order_is_funded_where_it_can_be_kept(
    market: &Market,
    ledger: &LedgerView,
    symbol: Seq<char>,
    trader: TraderId,
    order: Order,
    prepared: Prepared,
    outstanding: u64,
)
    requires
        market.held_by_all(symbol) >= 0,
        order.qty > 0,
    ensures
        market.funding_fault(ledger, symbol, trader, order, prepared, outstanding) is None <==> {
            let t = market.traders.map()[trader.0];
            let wallet = market.accounts.map()[t.account_id.0].wallet;
            let held = if t.positions.map().contains_key(symbol) {
                t.positions.map()[symbol].qty as int
            } else {
                0
            };
            let promised = if t.reserved_shares.map().contains_key(symbol) {
                t.reserved_shares.map()[symbol] as int
            } else {
                0
            };
            &&& order.side is Buy ==> market.held_by_all(symbol) + prepared.bid_shares + order.qty <= outstanding
            &&& market.traders.map().contains_key(trader.0)
            &&& market.accounts.map().contains_key(t.account_id.0)
            &&& ledger.wallets.map().contains_key(wallet.0)
            &&& ledger.wallets.map()[wallet.0].status is Active
            &&& order.side is Buy ==> 0 <= market.cost_with_fee(prepared.cost_cents)
                <= ledger.wallets.map()[wallet.0].available_cents
            &&& order.side is Sell ==> order.qty + promised <= held
        },
{
}

/// Orders that are sent one after the other get numbers that only grow, past
/// any that the book gave out itself. Nothing else changes, and a refusal
/// takes no number.
pub proof fn law_each_order_sent_has_a_number_of_its_own(
    first: &Market,
    second: &Market,
    third: &Market,
    ledger: &LedgerView,
    symbol: Seq<char>,
    trader: TraderId,
    order: Order,
    prepared: Prepared,
    outstanding: u64,
    book_next: u64,
    later: &LedgerView,
    elsewhere: Seq<char>,
    other: TraderId,
    another: Order,
    ready: Prepared,
    shares: u64,
    other_next: u64,
    one: u64,
    two: u64,
)
    requires
        first.sends(second, ledger, symbol, trader, order, prepared, outstanding, book_next, Ok(one)),
        second.sends(third, later, elsewhere, other, another, ready, shares, other_next, Ok(two)),
        first.next_order_id < u64::MAX,
        book_next < u64::MAX,
    ensures
        one >= first.next_order_id && one >= book_next,
        one == first.next_order_id || one == book_next,
        two > one,
        two >= other_next,
        *second == (Market { next_order_id: second.next_order_id, ..*first }),
{
}

/// An order that is not funded is refused for what was wrong with it, and
/// leaves the market as it was but for the count.
pub proof fn law_a_refused_order_changes_nothing(
    before: &Market,
    after: &Market,
    ledger: &LedgerView,
    symbol: Seq<char>,
    trader: TraderId,
    order: Order,
    prepared: Prepared,
    outstanding: u64,
    book_next: u64,
    e: PlaceError,
)
    requires
        before.sends(after, ledger, symbol, trader, order, prepared, outstanding, book_next, Err(e)),
        before.orders_refused < u64::MAX,
    ensures
        *after == (Market { orders_refused: after.orders_refused, ..*before }),
        e is Refused ==> after.orders_refused == before.orders_refused + 1,
        !(e is Refused) ==> after.orders_refused == before.orders_refused,
{
}

/// A request its trader sent before is answered as it was the first time,
/// one that reuses the name for something else is refused, and neither
/// changes anything or sends an order.
pub proof fn law_a_request_seen_before_sends_nothing(
    before: &Market,
    after: &Market,
    ledger: &LedgerView,
    symbol: Seq<char>,
    trader: TraderId,
    request: PlaceRequest,
    word: Option<Result<Prepared, OrderCheck>>,
    outstanding: u64,
    book_next: u64,
    r: Result<Sending, PlaceError>,
    record: OrderRecord,
)
    requires
        before.places(after, ledger, symbol, trader, request, word, outstanding, book_next, r),
        request.client_order_id is Some,
        before.orders.log().by_client(trader.0, request.client_order_id->0@) == Some(record),
    ensures
        *after == *before,
        !(r matches Ok(Sending::Send { .. })),
        r matches Ok(Sending::Replayed(response)) ==> record.accepted is Some && same_response(
            response,
            record.accepted->0,
        ) && record.asked_for(request.order, symbol),
        word matches Some(Ok(_)) && record.accepted is Some && record.asked_for(request.order, symbol) ==> r is Ok,
        word is None ==> r == Err::<Sending, PlaceError>(PlaceError::UnknownSymbol),
        word matches Some(Err(check)) ==> r == Err::<Sending, PlaceError>(PlaceError::Check(check)),
{
}

/// A new request whose checks passed is sent where it is funded, good until
/// the instant that was reckoned for it.
pub proof fn law_a_new_request_is_sent_where_it_is_funded(
    before: &Market,
    after: &Market,
    ledger: &LedgerView,
    symbol: Seq<char>,
    trader: TraderId,
    request: PlaceRequest,
    prepared: Prepared,
    outstanding: u64,
    book_next: u64,
    r: Result<Sending, PlaceError>,
)
    requires
        before.places(after, ledger, symbol, trader, request, Some(Ok(prepared)), outstanding, book_next, r),
        request.client_order_id matches Some(id) ==> before.orders.log().by_client(trader.0, id@) is None,
    ensures
        r is Ok <==> before.funding_fault(ledger, symbol, trader, request.order, prepared, outstanding) is None,
        r matches Ok(sending) ==> {
            &&& sending matches Sending::Send { min_id, expires_at_ms }
            &&& expires_at_ms == prepared.expires_at_ms
            &&& min_id >= book_next && min_id >= before.next_order_id
        },
        r matches Err(e) ==> before.funding_fault(ledger, symbol, trader, request.order, prepared, outstanding)
            == Some(e),
{
}

/// What rests of an order is reserved for: as many shares as remain of a
/// sell, its price for each that remains of a buy. An order of which nothing
/// rests reserves nothing, and no other trader or symbol is touched.
pub proof fn law_what_rests_is_reserved(
    before: &Market,
    after: &Market,
    trader: TraderId,
    symbol: Seq<char>,
    order: Order,
    placement: Placement,
    hold: Option<Hold>,
    other: TraderId,
    elsewhere: Seq<char>,
)
    requires
        before.rested(after, trader, symbol, order, placement, hold),
        before.account_behind(trader) is Some,
        order.kind matches OrderKind::Limit { price_cents } ==> 0 <= price_cents * placement.remaining <= i64::MAX,
        before.traders.map()[trader.0].promised(symbol) + placement.remaining <= u64::MAX,
        other != trader,
        elsewhere != symbol,
    ensures
        ({
            let rests = placement.status is Resting && order.kind is Limit && placement.remaining > 0;
            let (was, now) = (before.traders.map()[trader.0], after.traders.map()[trader.0]);
            &&& !rests ==> hold is None && now == was
            &&& rests && order.side is Buy ==> {
                &&& now == was
                &&& hold is Some
                &&& (hold->0).wallet == (before.account_behind(trader)->0).wallet
                &&& order.kind matches OrderKind::Limit { price_cents } && (hold->0).cents == price_cents
                    * placement.remaining
            }
            &&& rests && order.side is Sell ==> {
                &&& hold is None
                &&& now.promised(symbol) == was.promised(symbol) + placement.remaining
                &&& now.promised(elsewhere) == was.promised(elsewhere)
                &&& now.positions == was.positions && now.fills == was.fills
            }
        }),
        before.traders.map().contains_key(other.0) ==> after.traders.map()[other.0] == before.traders.map()[other.0],
{
}

/// Withdrawing an order gives back exactly what resting reserved for it: the
/// cash that was held is let go, and the shares that were promised are free
/// again.
pub proof fn law_withdrawing_undoes_resting(
    before: &Market,
    between: &Market,
    after: &Market,
    trader: TraderId,
    symbol: Seq<char>,
    order: Order,
    placement: Placement,
    held: Option<Hold>,
    cancelled: Resting,
    freed: Option<Hold>,
)
    requires
        before.rested(between, trader, symbol, order, placement, held),
        between.withdrew(after, trader, symbol, cancelled, freed),
        between.accounts == before.accounts,
        before.account_behind(trader) is Some,
        placement.status is Resting,
        placement.remaining > 0,
        order.kind == (OrderKind::Limit { price_cents: cancelled.price_cents }),
        cancelled.side == order.side,
        cancelled.outstanding == placement.remaining,
        before.traders.map()[trader.0].promised(symbol) + placement.remaining <= u64::MAX,
    ensures
        freed == held,
        after.traders.map()[trader.0].promised(symbol) == before.traders.map()[trader.0].promised(symbol),
        after.traders.map()[trader.0].positions == before.traders.map()[trader.0].positions,
{
}

/// A stop is held where its trader has room for one more, and its account
/// could pay for it now: at its limit, or at its trigger where it has none.
/// It gets a number of its own and is what was asked for; otherwise nothing
/// changes.
pub proof fn law_a_stop_is_held_as_it_was_asked_for(
    before: &Market,
    after: &Market,
    ledger: &LedgerView,
    symbol: Seq<char>,
    req: StopRequest,
    held: usize,
    now_ms: i64,
    r: Result<StopOrder, PlaceError>,
)
    requires
        before.stops(after, ledger, symbol, req, held, now_ms, r),
        before.next_stop_id < u64::MAX,
    ensures
        ({
            let t = before.traders.map()[req.trader_id];
            let account = before.accounts.map()[t.account_id.0];
            let price = match req.limit_price_cents {
                Some(price) => price,
                None => req.stop_price_cents,
            };
            r is Ok && i64::MIN <= price * req.qty <= i64::MAX ==> {
                &&& held < MAX_STOPS_PER_TRADER
                &&& before.traders.map().contains_key(req.trader_id)
                &&& before.accounts.map().contains_key(t.account_id.0)
                &&& ledger.wallets.map().contains_key(account.wallet.0)
                &&& ledger.wallets.map()[account.wallet.0].status is Active
                &&& req.side is Buy ==> before.cost_with_fee((price * req.qty) as i64)
                    <= ledger.wallets.map()[account.wallet.0].available_cents
                &&& req.side is Sell ==> req.qty <= t.free(symbol)
            }
        }),
        held >= MAX_STOPS_PER_TRADER ==> r is Err,
        held < MAX_STOPS_PER_TRADER && before.account_behind(TraderId(req.trader_id)) is Some && req.side is Sell
            && ledger.wallets.map().contains_key((before.account_behind(TraderId(req.trader_id))->0).wallet.0)
            && ledger.wallets.map()[(before.account_behind(TraderId(req.trader_id))->0).wallet.0].status is Active
            && req.qty <= before.traders.map()[req.trader_id].free(symbol) ==> r is Ok,
        r is Err ==> *after == *before,
        r matches Ok(stop) ==> {
            &&& stop.stop_id == before.next_stop_id && after.next_stop_id == stop.stop_id + 1
            &&& *after == (Market { next_stop_id: after.next_stop_id, ..*before })
            &&& stop.trader_id == req.trader_id && stop.symbol@ == symbol && stop.side == req.side
            &&& stop.qty == req.qty && stop.stop_price_cents == req.stop_price_cents
            &&& stop.limit_price_cents == req.limit_price_cents && stop.tif == req.tif
            &&& stop.client_order_id == req.client_order_id && stop.created_at_ms == now_ms
        },
{
}

/// The shares that can still be bought are those that nobody holds and nobody
/// has bid for: the three come to all there are, and where more is held and
/// bid for than that, none can be had.
pub proof fn law_the_shares_to_be_had_are_the_rest(
    market: Market,
    symbol: &str,
    outstanding: u64,
    bid_shares: u64,
    shares: u64,
)
    requires
        market.wf(),
        call_ensures(Market::available_shares, (&market, symbol, outstanding, bid_shares), shares),
        0 <= market.held_by_all(symbol@) <= u64::MAX,
    ensures
        market.held_by_all(symbol@) + bid_shares <= outstanding ==> shares + market.held_by_all(symbol@) + bid_shares
            == outstanding,
        market.held_by_all(symbol@) + bid_shares > outstanding ==> shares == 0,
{
}

/// Amending an order takes it off the record as withdrawn with what was
/// outstanding of it, leaves every other order as it was, and puts in its
/// place an order on the same side of the same trader.
pub proof fn law_an_amended_order_is_withdrawn_first(
    market: Market,
    after: Market,
    trader: TraderId,
    symbol: Seq<char>,
    cancelled: Resting,
    amendment: Amendment,
    now_ms: i64,
    r: (Option<Hold>, Order),
    other: u64,
)
    requires
        market.wf(),
        market.amended(&after, trader, symbol, cancelled, amendment, now_ms, r),
        market.orders.log().orders.contains_key(cancelled.id),
        market.orders.log().orders[cancelled.id].symbol@ == symbol,
        market.orders.log().orders[cancelled.id].status is Resting,
    ensures
        ({
            let record = after.orders.log().orders[cancelled.id];
            &&& record.status is Cancelled
            &&& record.remaining == cancelled.outstanding
            &&& record.updated_at_ms == now_ms
            &&& record.trader_id == market.orders.log().orders[cancelled.id].trader_id
        }),
        other != cancelled.id && market.orders.log().orders.contains_key(other) ==> after.orders.log().orders[other]
            == market.orders.log().orders[other],
        r.1.side == cancelled.side,
        r.1.owner == cancelled.owner,
        amendment.qty matches Some(qty) ==> r.1.qty == qty,
        amendment.qty is None ==> r.1.qty == cancelled.outstanding,
        after.accounts == market.accounts,
{
}

/// A request that was seen before is answered with what was answered then,
/// where it asks for the same; where it asks for something else, it is told
/// which order has its name. A request under no name, or a new one, is not
/// answered for.
pub proof fn law_a_seen_request_is_answered_again(
    market: Market,
    trader: TraderId,
    symbol: &str,
    order: Order,
    client_order_id: Option<String>,
    r: Option<Result<Placed, PlaceError>>,
)
    requires
        market.wf(),
        call_ensures(Market::replayed, (&market, trader, symbol, &order, &client_order_id), r),
    ensures
        client_order_id is None ==> r is None,
        client_order_id matches Some(id) ==> {
            let found = market.orders.log().by_client(trader.0, id@);
            &&& r is None <==> found is None
            &&& found matches Some(record) ==> {
                &&& record.accepted is Some && record.asked_for(order, symbol@) ==> (r matches Some(Ok(
                    Placed::Replayed(response),
                )) && same_response(response, record.accepted->0))
                &&& record.accepted is None || !record.asked_for(order, symbol@) ==> (r matches Some(Err(
                    PlaceError::DuplicateClientId { client_order_id: own, order_id },
                )) && own == id && order_id == record.order_id)
            }
        },
{
}

/// An order that failed a check, or whose symbol has stopped, fails for just
/// that.
pub proof fn law_a_failed_check_is_kept_as_the_cause(e: OrderCheck, r: PlaceError)
    requires
        call_ensures(<PlaceError as From<OrderCheck>>::from, (e,), r),
    ensures
        r == PlaceError::Check(e),
{
}

} // verus!
