//! Traders: positions, reservations for resting orders, and the shapes of
//! orders, trades and the book.
//!
//! A trader is a market-facing identity, not a wallet: its cash lives in the
//! [`Account`](crate::account::Account) it trades on, and that account's
//! money lives in the currency ledger.
//!
//! Nothing here posts a settlement. A fill moves currency between two parties
//! and the venue, and that is *one* balanced transaction; posting it once per
//! party would move it twice. The market has it posted, then hands each side
//! its transaction id and asks the trader to record what its share of it was.
//! How a position's cost and profit follow from its fills is reckoned outside
//! too: a method that books a fill takes the position that came of it.

use std::collections::VecDeque;

use vstd::prelude::*;

use crate::account::{
    newest, notional_cents, Account, AccountId, AccountStatus, Context, LedgerKind, MoneyError, UserId,
};
use crate::ledger::{wide_notional, Hold, LedgerView};
use crate::num::{clamp_i64, clamp_u64, max_int, sat_add, sat_sub, to_i64, usat_add, usat_sub};
use crate::table::Table;
use crate::text::{copy_text, decimal, push_u64, same_text};

verus! {

/// Identifies a trader.
#[derive(Clone, Copy, Debug, PartialEq, Eq, PartialOrd, Ord, Hash, Structural)]
pub struct TraderId(pub u64);

/// Which way an order trades.
#[derive(Clone, Copy, Debug, PartialEq, Eq, Structural)]
pub enum Side {
    Buy,
    Sell,
}

impl Side {
    /// The other side.
    pub open spec fn other(self) -> Side {
        match self {
            Side::Buy => Side::Sell,
            Side::Sell => Side::Buy,
        }
    }

    /// The other side.
    pub fn opposite(self) -> (side: Side)
        ensures
            side == self.other(),
    {
        match self {
            Side::Buy => Side::Sell,
            Side::Sell => Side::Buy,
        }
    }
}

/// How an order says what it will pay.
#[derive(Clone, Copy, Debug, PartialEq, Eq, Structural)]
pub enum OrderKind {
    Market,
    Limit { price_cents: i64 },
}

/// How long an order stands.
#[derive(Clone, Copy, Debug, PartialEq, Eq, Structural)]
pub enum TimeInForce {
    /// Until it is filled or cancelled.
    Gtc,
    /// What trades at once trades, the rest is withdrawn.
    Ioc,
    /// All of it at once, or none.
    Fok,
}

/// What has become of an order.
#[derive(Clone, Copy, Debug, PartialEq, Eq, Structural)]
pub enum OrderStatus {
    Resting,
    Filled,
    Cancelled,
}

/// Whose an order is.
#[derive(Clone, Copy, Debug, PartialEq, Eq, Structural)]
pub enum Owner {
    /// The liquidity the exchange quotes by itself.
    Synthetic,
    Trader(TraderId),
}

impl Owner {
    /// The trader, if it is one's.
    pub open spec fn who(self) -> Option<TraderId> {
        match self {
            Owner::Trader(id) => Some(id),
            Owner::Synthetic => None,
        }
    }

    /// The trader, if it is one's.
    pub fn trader(self) -> (r: Option<TraderId>)
        ensures
            r == self.who(),
    {
        match self {
            Owner::Trader(id) => Some(id),
            Owner::Synthetic => None,
        }
    }
}

/// An order as it is sent.
#[derive(Clone, Copy, Debug, PartialEq, Eq, Structural)]
pub struct Order {
    pub owner: Owner,
    pub side: Side,
    pub kind: OrderKind,
    pub tif: TimeInForce,
    pub qty: u64,
}

/// One side of a trade.
#[derive(Clone, Copy, Debug, PartialEq, Eq, Structural)]
pub struct Party {
    pub order: u64,
    pub owner: Owner,
}

/// One trade the book made.
#[derive(Clone, Copy, Debug, PartialEq, Eq, Structural)]
pub struct Trade {
    pub ts_ms: i64,
    pub price_cents: i64,
    pub qty: u64,
    pub taker_side: Side,
    pub taker: Party,
    pub maker: Party,
    /// The maker was hidden liquidity.
    pub hidden: bool,
}

/// An order as it rests in the book.
#[derive(Clone, Copy, Debug, PartialEq, Eq, Structural)]
pub struct Resting {
    pub id: u64,
    pub owner: Owner,
    pub side: Side,
    pub price_cents: i64,
    pub qty: u64,
    /// What is on show.
    pub remaining: u64,
    /// Everything still open: what is on show and what is held back.
    pub outstanding: u64,
    /// The slice an iceberg shows at a time; zero for an ordinary order.
    pub display: u64,
    pub ts_ms: i64,
}

/// What came of sending an order to the book.
#[derive(Debug)]
pub struct Placement {
    pub id: u64,
    pub status: OrderStatus,
    pub filled: u64,
    pub remaining: u64,
    /// Cash moved by the fills.
    pub notional_cents: i64,
    pub trades: Vec<Trade>,
}

/// What a trader has of one symbol, and what it cost.
#[derive(Clone, Copy, Debug, PartialEq, Eq, Structural)]
pub struct Position {
    pub qty: i64,
    pub cost_cents: i64,
    pub realised_pnl_cents: i64,
    pub cash_cents: i64,
}

impl Position {
    /// Nothing is held and nothing was ever made or lost.
    pub open spec fn blank(self) -> bool {
        self.qty == 0 && self.realised_pnl_cents == 0 && self.cash_cents == 0
    }

    /// The shares in it; a position that is short counts as nothing.
    pub open spec fn shares(self) -> u64 {
        if self.qty < 0 {
            0
        } else {
            self.qty as u64
        }
    }
}

/// Which side of the book a fill came from: `Maker` if the trader's order
/// was resting when it traded, `Taker` if it took what was there.
#[derive(Clone, Copy, Debug, PartialEq, Eq, Structural)]
pub enum Liquidity {
    Maker,
    Taker,
}

/// Who was on the other side of a fill: another trader, or the synthetic
/// liquidity the exchange quotes.
#[derive(Clone, Copy, Debug, PartialEq, Eq, Structural)]
pub enum Counterparty {
    Synthetic,
    Trader,
}

/// How an order was priced.
#[derive(Clone, Copy, Debug, PartialEq, Eq, Structural)]
pub enum OrderStyle {
    Market,
    Limit,
}

impl OrderStyle {
    /// How an order is priced, and at what price if it says.
    pub open spec fn style(kind: OrderKind) -> (OrderStyle, Option<i64>) {
        match kind {
            OrderKind::Market => (OrderStyle::Market, None),
            OrderKind::Limit { price_cents } => (OrderStyle::Limit, Some(price_cents)),
        }
    }

    /// How `order` is priced, and at what price if it says.
    pub fn of(order: &Order) -> (r: (Self, Option<i64>))
        ensures
            r == OrderStyle::style(order.kind),
    {
        match order.kind {
            OrderKind::Market => (OrderStyle::Market, None),
            OrderKind::Limit { price_cents } => (OrderStyle::Limit, Some(price_cents)),
        }
    }
}

/// What the venue charges for a fill, in basis points of its notional.
///
/// Maker-taker pricing, with one deliberate restriction: the taker pays and
/// the maker does not. A maker *rebate* is allowed, since it only ever
/// credits an account, but a maker *fee* is not: a maker's fill happens
/// later, against a reservation made when the order was accepted.
#[derive(Clone, Copy, Debug, PartialEq, Eq, Structural)]
pub struct Fees {
    /// Charged to whoever took liquidity. Never negative.
    pub taker_bps: i64,
    /// Paid to whoever provided it, as a negative number. Never positive.
    pub maker_bps: i64,
}

/// `a / b` rounded towards zero, for positive `b`.
pub open spec fn towards_zero(a: int, b: int) -> int {
    if a < 0 {
        -((-a) / b)
    } else {
        a / b
    }
}

impl Fees {
    /// The taker pays at most the whole of a fill and the maker is paid at
    /// most that.
    pub open spec fn bounded(self) -> bool {
        0 <= self.taker_bps <= 10_000 && -10_000 <= self.maker_bps <= 0
    }

    /// The basis points a side is charged: none below zero for a taker, none
    /// above it for a maker.
    pub open spec fn bps(self, liquidity: Liquidity) -> int {
        match liquidity {
            Liquidity::Taker => max_int(self.taker_bps as int, 0),
            Liquidity::Maker => -max_int(-self.maker_bps, 0),
        }
    }

    /// The fee on a fill, signed the way the ledger is: a charge or a rebate
    /// past what can be told is as large as can be told.
    pub open spec fn fee(self, liquidity: Liquidity, notional: i64) -> i64 {
        clamp_i64(-towards_zero(notional * self.bps(liquidity), 10_000))
    }

    /// The fee on a fill of `notional_cents`, signed the way the ledger is:
    /// negative takes money out of the account, positive puts it in.
    ///
    /// Truncated towards zero, so the venue never rounds a fee up and a fill
    /// too small to owe a whole cent owes nothing.
    pub fn on(&self, liquidity: Liquidity, notional_cents: i64) -> (fee: i64)
        ensures
            fee == self.fee(liquidity, notional_cents),
    {
        let bps: i64 = match liquidity {
            Liquidity::Taker => if self.taker_bps < 0 {
                0
            } else {
                self.taker_bps
            },
            Liquidity::Maker => if self.maker_bps > 0 {
                0
            } else {
                self.maker_bps
            },
        };
        if bps == 0 {
            assert(notional_cents * 0 == 0);
            return 0;
        }
        let n: i128 = notional_cents as i128;
        let b: i128 = bps as i128;
        proof {
            assert(-0x4000_0000_0000_0000_0000_0000_0000_0000 <= n * b <= 0x4000_0000_0000_0000_0000_0000_0000_0000)
                by (nonlinear_arith)
                requires
                    -0x8000_0000_0000_0000 <= n <= 0x8000_0000_0000_0000,
                    -0x8000_0000_0000_0000 <= b <= 0x8000_0000_0000_0000,
            ;
        }
        let product: i128 = n * b;
        let fee: i128 = if product < 0 { (-product) / 10_000 } else { -(product / 10_000) };
        to_i64(fee)
    }

    /// The worst a taker could be charged for a fill of `notional_cents`,
    /// as a positive number, for the cash check made before submitting.
    pub fn taker_cost(&self, notional_cents: i64) -> (cost: i64)
        requires
            self.fee(Liquidity::Taker, notional_cents) > i64::MIN,
        ensures
            cost == -self.fee(Liquidity::Taker, notional_cents),
    {
        -self.on(Liquidity::Taker, notional_cents)
    }
}

impl Default for Fees {
    /// A venue that charges nothing.
    fn default() -> (fees: Self)
        ensures
            fees.taker_bps == 0,
            fees.maker_bps == 0,
    {
        Fees { taker_bps: 0, maker_bps: 0 }
    }
}

/// At most all of a fill: a fee within these bounds is no larger than what it
/// is charged on.
pub proof fn lemma_fee_fits(fees: Fees, liquidity: Liquidity, notional: i64)
    requires
        fees.bounded(),
        notional > i64::MIN,
    ensures
        -fees.fee(liquidity, notional) <= (if notional < 0 { -notional } else { notional as int }),
        fees.fee(liquidity, notional) <= (if notional < 0 { -notional } else { notional as int }),
        fees.fee(liquidity, notional) > i64::MIN,
{
    let bps = fees.bps(liquidity);
    let size = if notional < 0 { -notional } else { notional as int };
    let rate = if bps < 0 { -bps } else { bps };
    let product = notional * bps;
    assert(-size * rate <= product <= size * rate && size * rate <= size * 10_000) by (nonlinear_arith)
        requires
            product == notional * bps,
            size == (if notional < 0 { -notional } else { notional as int }),
            rate == (if bps < 0 { -bps } else { bps }),
            rate <= 10_000,
    ;
    let whole = if product < 0 { -product } else { product };
    assert(0 <= whole <= size * 10_000) by (nonlinear_arith)
        requires
            whole == (if product < 0 { -product } else { product }),
            -size * rate <= product <= size * rate,
            size * rate <= size * 10_000,
    ;
    assert(0 <= whole / 10_000 <= size);
    assert(towards_zero(product, 10_000) == (if product < 0 { -(whole / 10_000) } else { whole / 10_000 }));
}

/// What the venue actually charged and paid on one fill.
///
/// Not the same thing as [`Fees`], which says what it *would* charge: a
/// rebate is capped at what the venue can pay.
#[derive(Clone, Copy, Debug, PartialEq, Eq, Structural)]
pub struct SettledFees {
    /// Charged to whoever took liquidity, signed the way the ledger is.
    pub taker_cents: i64,
    /// Paid to whoever provided it, signed the way the ledger is.
    pub maker_cents: i64,
}

impl SettledFees {
    /// One side's share.
    pub open spec fn share(self, liquidity: Liquidity) -> i64 {
        match liquidity {
            Liquidity::Taker => self.taker_cents,
            Liquidity::Maker => self.maker_cents,
        }
    }

    /// This side's share of it.
    pub fn on(self, liquidity: Liquidity) -> (cents: i64)
        ensures
            cents == self.share(liquidity),
    {
        match liquidity {
            Liquidity::Taker => self.taker_cents,
            Liquidity::Maker => self.maker_cents,
        }
    }
}

impl Default for SettledFees {
    fn default() -> (fees: Self)
        ensures
            fees.taker_cents == 0,
            fees.maker_cents == 0,
    {
        SettledFees { taker_cents: 0, maker_cents: 0 }
    }
}

/// One execution from a trader's point of view.
#[derive(Debug)]
pub struct FillRecord {
    pub id: u64,
    pub trader_id: u64,
    pub ts_ms: i64,
    pub symbol: String,
    pub order_id: u64,
    pub side: Side,
    pub qty: u64,
    pub price_cents: i64,
    /// `Maker` if the trader's order was resting, `Taker` if it took.
    pub liquidity: Liquidity,
    pub counterparty: Counterparty,
    /// The venue's fee, signed the way the ledger is: negative was taken out
    /// of the account, positive was a rebate paid in. Its own ledger entry,
    /// never folded into the price.
    pub fee_cents: i64,
}

impl Clone for FillRecord {
    fn clone(&self) -> (copy: Self)
        ensures
            copy == *self,
    {
        FillRecord {
            id: self.id,
            trader_id: self.trader_id,
            ts_ms: self.ts_ms,
            symbol: self.symbol.clone(),
            order_id: self.order_id,
            side: self.side,
            qty: self.qty,
            price_cents: self.price_cents,
            liquidity: self.liquidity,
            counterparty: self.counterparty,
            fee_cents: self.fee_cents,
        }
    }
}

/// Why an order was refused before reaching the exchange.
#[derive(Clone, Copy, Debug, PartialEq, Eq)]
pub enum Refused {
    /// The account would not fund the buy: frozen, closed or short of cash.
    Account(MoneyError),
    /// Not enough free shares for the sell.
    InsufficientShares { needed: u64, available: u64 },
    /// The buy asked for more shares than the symbol has left: every other
    /// share of it is already held by a trader or bid for by a resting order.
    SupplyExhausted { needed: u64, available: u64 },
}

impl From<MoneyError> for Refused {
    fn from(e: MoneyError) -> (r: Self) {
        Refused::Account(e)
    }
}

impl vstd::std_specs::convert::FromSpecImpl<MoneyError> for Refused {
    open spec fn obeys_from_spec() -> bool {
        true
    }

    open spec fn from_spec(e: MoneyError) -> Self {
        Refused::Account(e)
    }
}

impl Refused {
    /// The refusal in words; where the ledger refused, in the ledger's own.
    pub open spec fn words(self, ledger_words: Seq<char>) -> Seq<char> {
        match self {
            Refused::Account(e) => e.words(ledger_words),
            Refused::InsufficientShares { needed, available } => "insufficient shares: need "@ + decimal(needed as nat)
                + ", have "@ + decimal(available as nat) + " free"@,
            Refused::SupplyExhausted { needed, available } => "not enough shares left: want "@ + decimal(needed as nat)
                + ", "@ + decimal(available as nat) + " of the outstanding shares are unheld"@,
        }
    }

    /// The refusal in words.
    pub fn message(&self, ledger_words: &str) -> (text: String)
        ensures
            text@ == self.words(ledger_words@),
    {
        match *self {
            Refused::Account(e) => e.message(ledger_words),
            Refused::InsufficientShares { needed, available } => {
                let mut text = "insufficient shares: need ".to_owned();
                push_u64(&mut text, needed);
                text.append(", have ");
                push_u64(&mut text, available);
                text.append(" free");
                text
            },
            Refused::SupplyExhausted { needed, available } => {
                let mut text = "not enough shares left: want ".to_owned();
                push_u64(&mut text, needed);
                text.append(", ");
                push_u64(&mut text, available);
                text.append(" of the outstanding shares are unheld");
                text
            },
        }
    }
}

/// A market participant. No margin, no shorting: buys need cash in the
/// trader's account and sells need shares, and resting orders reserve both
/// until they fill or cancel.
pub struct Trader {
    pub id: TraderId,
    /// The user this trader belongs to.
    pub user_id: UserId,
    /// The account its cash moves through.
    pub account_id: AccountId,
    pub name: String,
    pub positions: Table<String, Position>,
    /// Shares committed to resting sell orders, per symbol.
    pub reserved_shares: Table<String, u64>,
    /// Most recent fills, oldest first.
    pub fills: VecDeque<FillRecord>,
    pub fill_cap: usize,
    pub next_fill_id: u64,
    pub created_at_ms: i64,
}

/// The two say the same of one trader.
pub open spec fn same_trader(a: Trader, b: Trader) -> bool {
    &&& a == (Trader { positions: a.positions, reserved_shares: a.reserved_shares, fills: a.fills, ..b })
    &&& a.positions.keys() == b.positions.keys()
    &&& a.positions.vals() == b.positions.vals()
    &&& a.reserved_shares.keys() == b.reserved_shares.keys()
    &&& a.reserved_shares.vals() == b.reserved_shares.vals()
    &&& a.fills@ == b.fills@
}

impl Clone for Trader {
    fn clone(&self) -> (copy: Self)
        ensures
            same_trader(copy, *self),
    {
        let mut fills: VecDeque<FillRecord> = VecDeque::new();
        let n: usize = self.fills.len();
        let mut i: usize = 0;
        while i < n
            invariant
                n == self.fills@.len(),
                i <= n,
                fills@ == self.fills@.take(i as int),
            decreases n - i,
        {
            fills.push_back(self.fills[i].clone());
            proof {
                assert(self.fills@.take(i as int + 1) =~= self.fills@.take(i as int).push(self.fills@[i as int]));
            }
            i = i + 1;
        }
        proof {
            assert(self.fills@.take(n as int) =~= self.fills@);
        }
        Trader {
            id: self.id,
            user_id: self.user_id,
            account_id: self.account_id,
            name: self.name.clone(),
            positions: self.positions.copied(),
            reserved_shares: self.reserved_shares.copied(),
            fills,
            fill_cap: self.fill_cap,
            next_fill_id: self.next_fill_id,
            created_at_ms: self.created_at_ms,
        }
    }
}

/// Positions by symbol, once the one in `symbol` has become `after`: one that
/// is flat and never made or lost anything is not kept.
pub open spec fn positions_with(positions: Map<Seq<char>, Position>, symbol: Seq<char>, after: Position) -> Map<
    Seq<char>,
    Position,
> {
    if after.blank() {
        positions.remove(symbol)
    } else {
        positions.insert(symbol, after)
    }
}

/// The rows a fill leaves in an account: the trade, and the fee where there
/// is one.
pub open spec fn fill_rows(side: Side, value: int, fee: i64) -> Seq<(LedgerKind, i64)> {
    let trade = match side {
        Side::Buy => (LedgerKind::Buy, (-value) as i64),
        Side::Sell => (LedgerKind::Sell, value as i64),
    };
    if fee != 0 {
        seq![trade, (LedgerKind::Fee, fee)]
    } else {
        seq![trade]
    }
}

/// The side of a trade that was taken or made.
pub open spec fn side_of(trade: Trade, liquidity: Liquidity) -> Side {
    if liquidity is Taker {
        trade.taker_side
    } else {
        trade.taker_side.other()
    }
}

/// The rows that one side of a trade leaves in an account.
pub open spec fn leg_rows(trade: Trade, liquidity: Liquidity, fee_cents: i64) -> Seq<(LedgerKind, i64)> {
    fill_rows(side_of(trade, liquidity), clamp_i64(trade.price_cents * trade.qty) as int, fee_cents)
}

/// What one side of a trade brings an account, its fee included.
pub open spec fn leg_cents(trade: Trade, liquidity: Liquidity, fee_cents: i64) -> i64 {
    let value = clamp_i64(trade.price_cents * trade.qty);
    match side_of(trade, liquidity) {
        Side::Buy => clamp_i64(-value + fee_cents),
        Side::Sell => clamp_i64(value + fee_cents),
    }
}

/// What one side of a trade brings an account, its fee included.
pub fn leg(trade: &Trade, liquidity: Liquidity, fee_cents: i64) -> (cents: i64)
    requires
        trade.price_cents * trade.qty > i64::MIN,
    ensures
        cents == leg_cents(*trade, liquidity, fee_cents),
{
    let value: i64 = notional_cents(trade.price_cents, trade.qty);
    let side = match liquidity {
        Liquidity::Taker => trade.taker_side,
        Liquidity::Maker => trade.taker_side.opposite(),
    };
    match side {
        Side::Buy => sat_add(-value, fee_cents),
        Side::Sell => sat_add(value, fee_cents),
    }
}

/// What the rows of one side of a trade say alike.
pub open spec fn fill_context(tx_id: u64, ts_ms: i64, symbol: String, order: u64) -> Context {
    Context { tx_id, ts_ms, symbol: Some(symbol), order_id: Some(order), memo: None }
}

/// The record of one side of a trade.
pub open spec fn fill_record(
    id: u64,
    trader: TraderId,
    symbol: String,
    trade: Trade,
    liquidity: Liquidity,
    fee_cents: i64,
) -> FillRecord {
    let mine = if liquidity is Taker {
        trade.taker
    } else {
        trade.maker
    };
    let theirs = if liquidity is Taker {
        trade.maker
    } else {
        trade.taker
    };
    FillRecord {
        id,
        trader_id: trader.0,
        ts_ms: trade.ts_ms,
        symbol,
        order_id: mine.order,
        side: if liquidity is Taker {
            trade.taker_side
        } else {
            trade.taker_side.other()
        },
        qty: trade.qty,
        price_cents: trade.price_cents,
        liquidity,
        counterparty: if theirs.owner is Trader {
            Counterparty::Trader
        } else {
            Counterparty::Synthetic
        },
        fee_cents,
    }
}

impl Trader {
    /// The trader's tables are in order.
    pub open spec fn wf(&self) -> bool {
        &&& self.positions.wf()
        &&& self.reserved_shares.wf()
    }

    /// How many fills the trader keeps: the cap, or as many as there are
    /// where that is more. A fill that is written pushes one out at the most,
    /// so a record that came longer than its cap stays as long as it is.
    pub open spec fn keeps(&self) -> int {
        max_int(max_int(self.fill_cap as int, self.fills@.len() as int), 1)
    }

    /// Who the trader is has not changed.
    pub open spec fn same_identity(&self, other: &Trader) -> bool {
        &&& self.id == other.id
        &&& self.user_id == other.user_id
        &&& self.account_id == other.account_id
        &&& self.name == other.name
        &&& self.fill_cap == other.fill_cap
        &&& self.created_at_ms == other.created_at_ms
    }

    /// Shares of a symbol the trader owns.
    pub open spec fn held(&self, symbol: Seq<char>) -> u64 {
        if self.positions.map().contains_key(symbol) {
            self.positions.map()[symbol].shares()
        } else {
            0
        }
    }

    /// Shares of a symbol promised to resting sells.
    pub open spec fn promised(&self, symbol: Seq<char>) -> u64 {
        if self.reserved_shares.map().contains_key(symbol) {
            self.reserved_shares.map()[symbol]
        } else {
            0
        }
    }

    /// Shares of a symbol the trader can still sell.
    pub open spec fn free(&self, symbol: Seq<char>) -> u64 {
        max_int(self.held(symbol) - self.promised(symbol), 0) as u64
    }

    /// A trader that holds nothing yet.
    pub fn new(
        id: TraderId,
        user_id: UserId,
        account_id: AccountId,
        name: String,
        fill_cap: usize,
        now_ms: i64,
    ) -> (trader: Self)
        ensures
            trader.wf(),
            trader.id == id,
            trader.user_id == user_id,
            trader.account_id == account_id,
            trader.name == name,
            trader.positions.map() == Map::<Seq<char>, Position>::empty(),
            trader.reserved_shares.map() == Map::<Seq<char>, u64>::empty(),
            trader.fills@ == Seq::<FillRecord>::empty(),
            trader.fill_cap == max_int(fill_cap as int, 1),
            trader.next_fill_id == 1,
            trader.created_at_ms == now_ms,
    {
        Trader {
            id,
            user_id,
            account_id,
            name,
            positions: Table::new(),
            reserved_shares: Table::new(),
            fills: VecDeque::new(),
            fill_cap: if fill_cap < 1 {
                1
            } else {
                fill_cap
            },
            next_fill_id: 1,
            created_at_ms: now_ms,
        }
    }

    /// The trader as the owner of an order.
    pub fn owner(&self) -> (owner: Owner)
        ensures
            owner == Owner::Trader(self.id),
    {
        Owner::Trader(self.id)
    }

    /// Shares of `symbol` the trader owns. Positions never go short — a sell
    /// is refused unless the shares are already there — so a negative one
    /// would be a broken invariant and counts as nothing.
    pub fn held_shares(&self, symbol: &str) -> (shares: u64)
        requires
            self.wf(),
        ensures
            shares == self.held(symbol@),
    {
        match self.positions.get(&symbol.to_owned()) {
            Some(position) => if position.qty < 0 {
                0
            } else {
                position.qty as u64
            },
            None => 0,
        }
    }

    /// Shares of `symbol` promised to resting sells.
    pub fn promised_shares(&self, symbol: &str) -> (shares: u64)
        requires
            self.wf(),
        ensures
            shares == self.promised(symbol@),
    {
        match self.reserved_shares.get(&symbol.to_owned()) {
            Some(shares) => *shares,
            None => 0,
        }
    }

    /// Shares of `symbol` the trader can still sell: what it holds, less what
    /// its resting sells have already promised away.
    pub fn free_shares(&self, symbol: &str) -> (shares: u64)
        requires
            self.wf(),
        ensures
            shares == self.free(symbol@),
    {
        usat_sub(self.held_shares(symbol), self.promised_shares(symbol))
    }

    /// Why an order is refused before it reaches the exchange, if it is.
    pub open spec fn checked(
        &self,
        ledger: &LedgerView,
        account: &Account,
        symbol: Seq<char>,
        side: Side,
        qty: u64,
        cost_cents: i64,
    ) -> Result<(), Refused> {
        match side {
            Side::Buy => match account.authorised(ledger, cost_cents) {
                Ok(()) => Ok(()),
                Err(e) => Err(Refused::Account(e)),
            },
            Side::Sell => match account.tradable(ledger) {
                Err(e) => Err(Refused::Account(e)),
                Ok(()) => if qty > self.free(symbol) {
                    Err(Refused::InsufficientShares { needed: qty, available: self.free(symbol) })
                } else {
                    Ok(())
                },
            },
        }
    }

    /// Validate an order against the trader's account before it reaches the
    /// exchange. `cost_cents` is the worst-case cash a buy could consume. A
    /// sell needs no cash but needs an account that is allowed to trade and,
    /// above all, the shares: there is no shorting, so `qty` may never exceed
    /// [`Trader::free_shares`].
    pub fn check(
        &self,
        ledger: &LedgerView,
        account: &Account,
        symbol: &str,
        side: Side,
        qty: u64,
        cost_cents: i64,
    ) -> (r: Result<(), Refused>)
        requires
            self.wf(),
            ledger.wf(),
        ensures
            r == self.checked(ledger, account, symbol@, side, qty, cost_cents),
    {
        match side {
            Side::Buy => match account.authorise(ledger, cost_cents) {
                Ok(()) => Ok(()),
                Err(e) => Err(Refused::Account(e)),
            },
            Side::Sell => {
                match account.check_tradable(ledger) {
                    Err(e) => {
                        return Err(Refused::Account(e));
                    },
                    Ok(()) => {},
                }
                let available: u64 = self.free_shares(symbol);
                if qty > available {
                    return Err(Refused::InsufficientShares { needed: qty, available });
                }
                Ok(())
            },
        }
    }

    /// Shares promised, once `remaining` more of `symbol` are.
    pub open spec fn promised_more(&self, symbol: Seq<char>, remaining: u64) -> Map<Seq<char>, u64> {
        self.reserved_shares.map().insert(symbol, clamp_u64(self.promised(symbol) + remaining))
    }

    /// Shares promised, once `qty` of `symbol` are no longer: a promise of
    /// nothing is not kept.
    pub open spec fn promised_less(&self, symbol: Seq<char>, qty: u64) -> Map<Seq<char>, u64> {
        let left = max_int(self.promised(symbol) - qty, 0) as u64;
        if left == 0 {
            self.reserved_shares.map().remove(symbol)
        } else {
            self.reserved_shares.map().insert(symbol, left)
        }
    }

    /// Reserve for the resting remainder of a just-submitted order: shares
    /// here for a sell, cash on the account for a buy, which comes back as a
    /// hold for the ledger to take.
    pub fn reserve(&mut self, account: &Account, symbol: &str, side: Side, remaining: u64, price_cents: i64) -> (hold:
        Option<Hold>)
        requires
            old(self).wf(),
        ensures
            final(self).wf(),
            final(self).same_identity(old(self)),
            final(self).positions == old(self).positions,
            final(self).fills == old(self).fills,
            final(self).next_fill_id == old(self).next_fill_id,
            remaining > 0 && side is Sell ==> final(self).reserved_shares.map() == old(self).promised_more(
                symbol@,
                remaining,
            ),
            remaining == 0 || side is Buy ==> final(self).reserved_shares == old(self).reserved_shares,
            hold == (if remaining > 0 && side is Buy {
                Some(
                    Hold {
                        wallet: account.wallet,
                        cents: max_int(clamp_i64(price_cents * remaining) as int, 0) as i64,
                    },
                )
            } else {
                None
            }),
    {
        if remaining == 0 {
            return None;
        }
        match side {
            Side::Buy => Some(account.reserve(notional_cents(price_cents, remaining))),
            Side::Sell => {
                let held: u64 = self.promised_shares(symbol);
                self.reserved_shares.insert(symbol.to_owned(), usat_add(held, remaining));
                None
            },
        }
    }

    /// Release the reservation of `qty` shares at `price` (a fill of a
    /// resting order, or a cancel): shares here for a sell, cash for a buy,
    /// which comes back as a hold for the ledger to let go of.
    pub fn release(&mut self, account: &Account, symbol: &str, side: Side, qty: u64, price_cents: i64) -> (hold: Option<
        Hold,
    >)
        requires
            old(self).wf(),
        ensures
            final(self).wf(),
            final(self).same_identity(old(self)),
            final(self).positions == old(self).positions,
            final(self).fills == old(self).fills,
            final(self).next_fill_id == old(self).next_fill_id,
            side is Sell ==> final(self).reserved_shares.map() == old(self).promised_less(symbol@, qty),
            side is Buy ==> final(self).reserved_shares == old(self).reserved_shares,
            hold == (if side is Buy {
                Some(
                    Hold {
                        wallet: account.wallet,
                        cents: max_int(clamp_i64(price_cents * qty) as int, 0) as i64,
                    },
                )
            } else {
                None
            }),
    {
        match side {
            Side::Buy => Some(account.release(notional_cents(price_cents, qty))),
            Side::Sell => {
                let key = symbol.to_owned();
                if self.reserved_shares.contains_key(&key) {
                    let left: u64 = usat_sub(self.promised_shares(symbol), qty);
                    if left == 0 {
                        self.reserved_shares.remove(&key);
                    } else {
                        self.reserved_shares.insert(key, left);
                    }
                }
                proof {
                    assert(self.reserved_shares.map() =~= old(self).promised_less(symbol@, qty));
                }
                None
            },
        }
    }

    /// Put `qty` units of `symbol` into the position at `price_cents` each:
    /// a purchase from the catalogue, which is not a fill and never touches
    /// a book. `after` is the position with the purchase in it.
    ///
    /// The money has already moved — `tx_id` names the balanced transaction
    /// that moved it — and the units have already been issued against the
    /// symbol. This is the holder's own view of both.
    pub fn acquire(
        &mut self,
        ledger: &LedgerView,
        account: &mut Account,
        symbol: &str,
        qty: u64,
        price_cents: i64,
        tx_id: u64,
        now_ms: i64,
        memo: Option<String>,
        after: Position,
    ) -> (held: i64)
        requires
            old(self).wf(),
            old(account).wf(),
            ledger.wf(),
            old(account).entries_total < u64::MAX,
            price_cents * qty > i64::MIN,
        ensures
            final(self).wf(),
            final(self).same_identity(old(self)),
            final(self).positions.map() == old(self).positions.map().insert(symbol@, after),
            final(self).reserved_shares == old(self).reserved_shares,
            final(self).fills == old(self).fills,
            final(self).next_fill_id == old(self).next_fill_id,
            held == after.qty,
            final(account).wf(),
            exists|context: Context|
                {
                    &&& context.tx_id == tx_id
                    &&& context.ts_ms == now_ms
                    &&& context.symbol matches Some(s) && s@ == symbol@
                    &&& context.order_id is None
                    &&& context.memo == memo
                    &&& final(account).wrote_split(
                        old(account),
                        ledger.balance_of(old(account).wallet),
                        seq![(LedgerKind::Purchase, (-clamp_i64(price_cents * qty)) as i64)],
                        context,
                    )
                },
    {
        let value: i64 = notional_cents(price_cents, qty);
        let context = Context { tx_id, ts_ms: now_ms, symbol: Some(symbol.to_owned()), order_id: None, memo };
        let mut rows: Vec<(LedgerKind, i64)> = Vec::new();
        rows.push((LedgerKind::Purchase, -value));
        account.record_split(ledger, &context, &rows);
        proof {
            assert(rows@ =~= seq![(LedgerKind::Purchase, (-clamp_i64(price_cents * qty)) as i64)]);
        }
        self.positions.insert(symbol.to_owned(), after);
        after.qty
    }

    /// Take `qty` units of `symbol` out of the position for good; `after` is
    /// the position once they are gone.
    ///
    /// Consuming is a sale at nothing: the units leave and nothing comes
    /// back, so what they cost becomes a realised loss and the account's
    /// cash is untouched.
    pub fn destroy(&mut self, symbol: &str, after: Position) -> (left: i64)
        requires
            old(self).wf(),
        ensures
            final(self).wf(),
            final(self).same_identity(old(self)),
            final(self).reserved_shares == old(self).reserved_shares,
            final(self).fills == old(self).fills,
            final(self).next_fill_id == old(self).next_fill_id,
            old(self).positions.map().contains_key(symbol@) ==> left == after.qty && final(self).positions.map()
                == positions_with(old(self).positions.map(), symbol@, after),
            !old(self).positions.map().contains_key(symbol@) ==> left == 0 && final(self).positions
                == old(self).positions,
    {
        if !self.positions.contains_key(&symbol.to_owned()) {
            return 0;
        }
        self.set_position(symbol, after);
        after.qty
    }

    /// The position in `symbol` has become `after`.
    fn set_position(&mut self, symbol: &str, after: Position)
        requires
            old(self).wf(),
        ensures
            final(self).wf(),
            final(self).same_identity(old(self)),
            final(self).positions.map() == positions_with(old(self).positions.map(), symbol@, after),
            final(self).reserved_shares == old(self).reserved_shares,
            final(self).fills == old(self).fills,
            final(self).next_fill_id == old(self).next_fill_id,
    {
        if after.qty == 0 && after.realised_pnl_cents == 0 && after.cash_cents == 0 {
            self.positions.remove(&symbol.to_owned());
        } else {
            self.positions.insert(symbol.to_owned(), after);
        }
    }

    /// The trader is `before` with one side of a trade booked.
    pub open spec fn booked(
        &self,
        before: &Trader,
        symbol: Seq<char>,
        trade: Trade,
        liquidity: Liquidity,
        fee_cents: i64,
        after: Position,
        record: FillRecord,
    ) -> bool {
        &&& self.same_identity(before)
        &&& self.positions.map() == positions_with(before.positions.map(), symbol, after)
        &&& self.reserved_shares == before.reserved_shares
        &&& self.next_fill_id == before.next_fill_id + 1
        &&& record.symbol@ == symbol
        &&& record == fill_record(before.next_fill_id, before.id, record.symbol, trade, liquidity, fee_cents)
        &&& self.fills@ == newest(before.fills@.push(record), before.keeps())
    }

    /// The account is `before` with the rows of one side of a trade written,
    /// the last of them closing on `closing`.
    pub open spec fn booked_on(
        after: &Account,
        before: &Account,
        closing: i64,
        symbol: Seq<char>,
        trade: Trade,
        liquidity: Liquidity,
        fee_cents: i64,
        tx_id: u64,
    ) -> bool {
        let order = if liquidity is Taker {
            trade.taker.order
        } else {
            trade.maker.order
        };
        exists|name: String|
            #[trigger] name@ == symbol && after.wrote_split(
                before,
                closing,
                leg_rows(trade, liquidity, fee_cents),
                fill_context(tx_id, trade.ts_ms, name, order),
            )
    }

    /// A trade was booked to a trader and its account: to the side of it the
    /// trader was on, to both where it was on both, and to neither where it
    /// was on none. The rows lead up to what the ledger says the account
    /// holds, less the `later_cents` that are still to be written.
    pub open spec fn traded(
        before: &Trader,
        after: &Trader,
        rows_before: &Account,
        rows_after: &Account,
        ledger: &LedgerView,
        symbol: Seq<char>,
        trade: Trade,
        fees: SettledFees,
        tx_id: u64,
        taken: Position,
        made: Position,
        later_cents: i64,
        fills: Seq<FillRecord>,
    ) -> bool {
        let me = Owner::Trader(before.id);
        let takes = trade.taker.owner == me;
        let makes = trade.maker.owner == me;
        let took = Liquidity::Taker;
        let gave = Liquidity::Maker;
        let balance = ledger.balance_of(rows_before.wallet);
        let closing = clamp_i64(balance - later_cents);
        if takes && makes {
            let rest = clamp_i64(leg_cents(trade, gave, fees.maker_cents) + later_cents);
            &&& fills.len() == 2
            &&& exists|between: Trader, rows: Account|
                {
                    &&& between.wf()
                    &&& rows.wf()
                    &&& #[trigger] between.booked(before, symbol, trade, took, fees.taker_cents, taken, fills[0])
                    &&& after.booked(&between, symbol, trade, gave, fees.maker_cents, made, fills[1])
                    &&& #[trigger] Trader::booked_on(
                        &rows,
                        rows_before,
                        clamp_i64(balance - rest),
                        symbol,
                        trade,
                        took,
                        fees.taker_cents,
                        tx_id,
                    )
                    &&& Trader::booked_on(rows_after, &rows, closing, symbol, trade, gave, fees.maker_cents, tx_id)
                }
        } else if takes {
            &&& fills.len() == 1
            &&& after.booked(before, symbol, trade, took, fees.taker_cents, taken, fills[0])
            &&& Trader::booked_on(rows_after, rows_before, closing, symbol, trade, took, fees.taker_cents, tx_id)
        } else if makes {
            &&& fills.len() == 1
            &&& after.booked(before, symbol, trade, gave, fees.maker_cents, made, fills[0])
            &&& Trader::booked_on(rows_after, rows_before, closing, symbol, trade, gave, fees.maker_cents, tx_id)
        } else {
            &&& fills.len() == 0
            &&& *after == *before
            &&& *rows_after == *rows_before
        }
    }

    /// Record a trade this trader took part in: the position, and the rows in
    /// the account's history. `taken` is the position once the taking side of
    /// the trade is in it, `made` once the making side is, for whichever of
    /// the two the trader was.
    ///
    /// The currency has already moved, and so has the reservation that was
    /// holding it back — `tx_id` names the one balanced transaction that
    /// moved it. What is left is each side's own view of it, and that is what
    /// this writes. Returns the fill records created (two for a self-trade).
    pub fn apply_trade(
        &mut self,
        ledger: &LedgerView,
        account: &mut Account,
        symbol: &str,
        trade: &Trade,
        fees: SettledFees,
        tx_id: u64,
        taken: Position,
        made: Position,
    ) -> (fills: Vec<FillRecord>)
        requires
            old(self).wf(),
            old(account).wf(),
            ledger.wf(),
            old(self).next_fill_id + 2 <= u64::MAX,
            old(account).entries_total + 4 <= u64::MAX,
            trade.price_cents * trade.qty > i64::MIN,
        ensures
            final(self).wf(),
            final(account).wf(),
            final(self).same_identity(old(self)),
            final(account).same_identity(old(account)),
            Trader::traded(
                old(self),
                final(self),
                old(account),
                final(account),
                ledger,
                symbol@,
                *trade,
                fees,
                tx_id,
                taken,
                made,
                0,
                fills@,
            ),
    {
        self.apply_trade_ahead(ledger, account, symbol, trade, fees, tx_id, taken, made, 0)
    }

    /// Record a trade this trader took part in, on an account that has
    /// `later_cents` of it still to be written: somebody else who trades on
    /// it was on the other side.
    pub fn apply_trade_ahead(
        &mut self,
        ledger: &LedgerView,
        account: &mut Account,
        symbol: &str,
        trade: &Trade,
        fees: SettledFees,
        tx_id: u64,
        taken: Position,
        made: Position,
        later_cents: i64,
    ) -> (fills: Vec<FillRecord>)
        requires
            old(self).wf(),
            old(account).wf(),
            ledger.wf(),
            old(self).next_fill_id + 2 <= u64::MAX,
            old(account).entries_total + 4 <= u64::MAX,
            trade.price_cents * trade.qty > i64::MIN,
        ensures
            final(self).wf(),
            final(account).wf(),
            final(self).same_identity(old(self)),
            final(account).same_identity(old(account)),
            Trader::traded(
                old(self),
                final(self),
                old(account),
                final(account),
                ledger,
                symbol@,
                *trade,
                fees,
                tx_id,
                taken,
                made,
                later_cents,
                fills@,
            ),
    {
        let me = self.owner();
        let mut fills: Vec<FillRecord> = Vec::new();
        let ghost between = *self;
        let ghost balance = ledger.balance_of(account.wallet);
        let mut rest: i64 = later_cents;
        if trade.maker.owner == me {
            rest = sat_add(leg(trade, Liquidity::Maker, fees.on(Liquidity::Maker)), later_cents);
        }
        if trade.taker.owner == me {
            let fee: i64 = fees.on(Liquidity::Taker);
            fills.push(self.book_fill(ledger, account, symbol, trade, Liquidity::Taker, fee, tx_id, taken, rest));
            proof {
                between = *self;
            }
        }
        let ghost rows = *account;
        if trade.maker.owner == me {
            let fee: i64 = fees.on(Liquidity::Maker);
            fills.push(self.book_fill(ledger, account, symbol, trade, Liquidity::Maker, fee, tx_id, made, later_cents));
        }
        proof {
            if trade.taker.owner == me && trade.maker.owner == me {
                assert(between.wf() && rows.wf());
                assert(between.booked(
                    old(self),
                    symbol@,
                    *trade,
                    Liquidity::Taker,
                    fees.taker_cents,
                    taken,
                    fills@[0],
                ));
                assert(self.booked(&between, symbol@, *trade, Liquidity::Maker, fees.maker_cents, made, fills@[1]));
                assert(Trader::booked_on(
                    &rows,
                    old(account),
                    clamp_i64(balance - rest),
                    symbol@,
                    *trade,
                    Liquidity::Taker,
                    fees.taker_cents,
                    tx_id,
                ));
                assert(Trader::booked_on(
                    account,
                    &rows,
                    clamp_i64(balance - later_cents),
                    symbol@,
                    *trade,
                    Liquidity::Maker,
                    fees.maker_cents,
                    tx_id,
                ));
            }
        }
        fills
    }

    /// Write one side of a settled trade into the account's history and the
    /// trader's position: the trade, then the fee, as two rows of the one
    /// transaction.
    fn book_fill(
        &mut self,
        ledger: &LedgerView,
        account: &mut Account,
        symbol: &str,
        trade: &Trade,
        liquidity: Liquidity,
        fee_cents: i64,
        tx_id: u64,
        after: Position,
        later_cents: i64,
    ) -> (record: FillRecord)
        requires
            old(self).wf(),
            old(account).wf(),
            ledger.wf(),
            old(self).next_fill_id < u64::MAX,
            old(account).entries_total + 2 <= u64::MAX,
            trade.price_cents * trade.qty > i64::MIN,
        ensures
            final(self).wf(),
            final(account).wf(),
            final(account).entries_total <= old(account).entries_total + 2,
            final(account).wallet == old(account).wallet,
            final(self).booked(old(self), symbol@, *trade, liquidity, fee_cents, after, record),
            Trader::booked_on(
                final(account),
                old(account),
                clamp_i64(ledger.balance_of(old(account).wallet) - later_cents),
                symbol@,
                *trade,
                liquidity,
                fee_cents,
                tx_id,
            ),
    {
        let value: i64 = notional_cents(trade.price_cents, trade.qty);
        let side = match liquidity {
            Liquidity::Taker => trade.taker_side,
            Liquidity::Maker => trade.taker_side.opposite(),
        };
        let order: u64 = match liquidity {
            Liquidity::Taker => trade.taker.order,
            Liquidity::Maker => trade.maker.order,
        };
        let mut rows: Vec<(LedgerKind, i64)> = Vec::new();
        match side {
            Side::Buy => {
                rows.push((LedgerKind::Buy, -value));
            },
            Side::Sell => {
                rows.push((LedgerKind::Sell, value));
            },
        }
        if fee_cents != 0 {
            rows.push((LedgerKind::Fee, fee_cents));
        }
        let name = symbol.to_owned();
        let context = Context { tx_id, ts_ms: trade.ts_ms, symbol: Some(name), order_id: Some(order), memo: None };
        account.record_split_ahead(ledger, later_cents, &context, &rows);
        proof {
            assert(rows@ =~= fill_rows(side, value as int, fee_cents));
            assert(context == fill_context(tx_id, trade.ts_ms, name, order));
        }
        self.set_position(symbol, after);
        self.record(symbol, trade, liquidity, fee_cents)
    }

    /// Write one side of a trade into the trader's own log.
    fn record(&mut self, symbol: &str, trade: &Trade, liquidity: Liquidity, fee_cents: i64) -> (record: FillRecord)
        requires
            old(self).wf(),
            old(self).next_fill_id < u64::MAX,
        ensures
            final(self).wf(),
            final(self).same_identity(old(self)),
            final(self).positions == old(self).positions,
            final(self).reserved_shares == old(self).reserved_shares,
            final(self).next_fill_id == old(self).next_fill_id + 1,
            record.symbol@ == symbol@,
            record == fill_record(old(self).next_fill_id, old(self).id, record.symbol, *trade, liquidity, fee_cents),
            final(self).fills@ == newest(old(self).fills@.push(record), old(self).keeps()),
    {
        let ghost before = *self;
        let mine = match liquidity {
            Liquidity::Taker => trade.taker,
            Liquidity::Maker => trade.maker,
        };
        let theirs = match liquidity {
            Liquidity::Taker => trade.maker,
            Liquidity::Maker => trade.taker,
        };
        let record = FillRecord {
            id: self.next_fill_id,
            trader_id: self.id.0,
            ts_ms: trade.ts_ms,
            symbol: symbol.to_owned(),
            order_id: mine.order,
            side: match liquidity {
                Liquidity::Taker => trade.taker_side,
                Liquidity::Maker => trade.taker_side.opposite(),
            },
            qty: trade.qty,
            price_cents: trade.price_cents,
            liquidity,
            counterparty: match theirs.owner {
                Owner::Trader(_) => Counterparty::Trader,
                Owner::Synthetic => Counterparty::Synthetic,
            },
            fee_cents,
        };
        self.next_fill_id = self.next_fill_id + 1;
        if self.fills.len() >= self.fill_cap {
            self.fills.pop_front();
        }
        self.fills.push_back(record.clone());
        proof {
            assert(self.fills@ =~= newest(before.fills@.push(record), before.keeps()));
        }
        record
    }
}

// ---------------------------------------------------------------------------
// Requests

/// What signing a trader up asks for. With no `user_id` a user is created for
/// the trader; with no `account_id` an account is opened for it and funded
/// with `cash_cents`.
#[derive(Debug)]
pub struct CreateTraderRequest {
    pub name: Option<String>,
    /// Starting cash; defaults to the server's `starting_cash_cents`.
    pub cash_cents: Option<i64>,
    /// Existing user to attach the trader to.
    pub user_id: Option<u64>,
    /// Existing account to trade on. It must belong to `user_id`, and
    /// `cash_cents` is then ignored.
    pub account_id: Option<u64>,
    /// Email for the user created alongside the trader.
    pub email: Option<String>,
}

/// What submitting an order asks for.
#[derive(Debug)]
pub struct OrderRequest {
    pub trader_id: u64,
    pub side: Side,
    pub qty: u64,
    pub kind: OrderKind,
    pub tif: TimeInForce,
    /// Caller-chosen id, unique per trader, that makes the submission
    /// idempotent: sending the same order twice places it once.
    pub client_order_id: Option<String>,
    /// The order must rest: if it would trade on arrival it is refused
    /// instead. Only meaningful for a `Gtc` limit order.
    pub post_only: bool,
    /// Show only this much at a time.
    pub display_qty: Option<u64>,
    /// Simulated time at which the order is withdrawn if it is still
    /// resting.
    pub expires_at_ms: Option<i64>,
    /// A day order: withdrawn at the close of the session it was sent in.
    pub day: bool,
}

/// What amending an order asks for: a new price, a new quantity, or both.
#[derive(Debug)]
pub struct AmendRequest {
    pub trader_id: u64,
    /// New limit price; unchanged if absent.
    pub price_cents: Option<i64>,
    /// New quantity; what is still resting if absent.
    pub qty: Option<u64>,
    /// A `client_order_id` for the replacement order.
    pub client_order_id: Option<String>,
    /// The replacement must rest.
    pub post_only: bool,
}

/// Longest `client_order_id` the server keeps.
pub const MAX_CLIENT_ORDER_ID: usize = 64;

/// Stops one trader may hold at once, across every symbol.
pub const MAX_STOPS_PER_TRADER: usize = 100;

/// What arming a stop asks for.
#[derive(Debug)]
pub struct StopRequest {
    pub trader_id: u64,
    pub side: Side,
    pub qty: u64,
    /// The price that fires it: above the market for a buy, below for a sell.
    pub stop_price_cents: i64,
    /// The limit the fired order carries. Absent makes it a stop-market.
    pub limit_price_cents: Option<i64>,
    pub tif: TimeInForce,
    /// Passed on to the order the trigger places.
    pub client_order_id: Option<String>,
}

/// A trigger held aside until the price touches it.
///
/// A stop is not an order: it rests nowhere, reserves nothing and takes no
/// queue position, and the book has never heard of it.
#[derive(Debug)]
pub struct StopOrder {
    pub stop_id: u64,
    pub trader_id: u64,
    pub symbol: String,
    pub side: Side,
    pub qty: u64,
    /// A buy fires at or above this price, a sell at or below.
    pub stop_price_cents: i64,
    /// The limit the order carries when it fires; `None` fires a market
    /// order.
    pub limit_price_cents: Option<i64>,
    /// The time in force of the order it fires, not of the trigger.
    pub tif: TimeInForce,
    /// Handed to the order the trigger places.
    pub client_order_id: Option<String>,
    pub created_at_ms: i64,
}

impl Clone for StopOrder {
    fn clone(&self) -> (copy: Self)
        ensures
            copy == *self,
    {
        StopOrder {
            stop_id: self.stop_id,
            trader_id: self.trader_id,
            symbol: self.symbol.clone(),
            side: self.side,
            qty: self.qty,
            stop_price_cents: self.stop_price_cents,
            limit_price_cents: self.limit_price_cents,
            tif: self.tif,
            client_order_id: copy_text(&self.client_order_id),
            created_at_ms: self.created_at_ms,
        }
    }
}

impl StopOrder {
    /// The order this fires.
    pub fn order(&self) -> (order: Order)
        ensures
            order == (Order {
                owner: Owner::Trader(TraderId(self.trader_id)),
                side: self.side,
                kind: match self.limit_price_cents {
                    Some(price_cents) => OrderKind::Limit { price_cents },
                    None => OrderKind::Market,
                },
                tif: self.tif,
                qty: self.qty,
            }),
    {
        Order {
            owner: Owner::Trader(TraderId(self.trader_id)),
            side: self.side,
            kind: match self.limit_price_cents {
                Some(price_cents) => OrderKind::Limit { price_cents },
                None => OrderKind::Market,
            },
            tif: self.tif,
            qty: self.qty,
        }
    }

    /// Whether a last price of `price_cents` reaches the trigger.
    pub fn triggered_by(&self, price_cents: i64) -> (r: bool)
        ensures
            r == (match self.side {
                Side::Buy => price_cents >= self.stop_price_cents,
                Side::Sell => price_cents <= self.stop_price_cents,
            }),
    {
        match self.side {
            Side::Buy => price_cents >= self.stop_price_cents,
            Side::Sell => price_cents <= self.stop_price_cents,
        }
    }

    /// Worst-case cash of the order a stop fires: its limit, or the trigger
    /// price where it carries none, for every share; the largest number where
    /// that does not fit.
    pub open spec fn worst_cost(limit_price_cents: Option<i64>, stop_price_cents: i64, qty: u64) -> i64 {
        let price = match limit_price_cents {
            Some(price) => price,
            None => stop_price_cents,
        };
        if i64::MIN <= price * qty <= i64::MAX {
            (price * qty) as i64
        } else {
            i64::MAX
        }
    }

    /// Worst-case cash the order it fires could consume, for the check made
    /// when the stop is accepted. A stop-market has no limit to work from,
    /// so the trigger price stands in for one.
    pub fn cost_cents(&self) -> (cents: i64)
        ensures
            cents == StopOrder::worst_cost(self.limit_price_cents, self.stop_price_cents, self.qty),
    {
        let price: i64 = match self.limit_price_cents {
            Some(price) => price,
            None => self.stop_price_cents,
        };
        let product: i128 = wide_notional(price, self.qty);
        if product < i64::MIN as i128 || product > i64::MAX as i128 {
            i64::MAX
        } else {
            product as i64
        }
    }
}

// ---------------------------------------------------------------------------
// Orders as they are recorded and answered

/// One trade as it appears on the tape and in order responses.
#[derive(Clone, Copy, Debug, PartialEq, Eq, Structural)]
pub struct TradeDto {
    pub ts_ms: i64,
    pub price_cents: i64,
    pub qty: u64,
    pub taker_side: Side,
    pub taker_order_id: u64,
    pub maker_order_id: u64,
    /// Trader ids, `None` for synthetic liquidity.
    pub taker_trader: Option<u64>,
    pub maker_trader: Option<u64>,
    /// The maker was hidden liquidity: the visible book was exhausted.
    pub hidden: bool,
}

/// The id of a trader, if it is one's.
pub open spec fn trader_number(owner: Owner) -> Option<u64> {
    match owner {
        Owner::Trader(id) => Some(id.0),
        Owner::Synthetic => None,
    }
}

fn trader_id_of(owner: Owner) -> (r: Option<u64>)
    ensures
        r == trader_number(owner),
{
    match owner {
        Owner::Trader(id) => Some(id.0),
        Owner::Synthetic => None,
    }
}

impl TradeDto {
    /// What is shown of a trade.
    pub open spec fn shown(t: Trade) -> TradeDto {
        TradeDto {
            ts_ms: t.ts_ms,
            price_cents: t.price_cents,
            qty: t.qty,
            taker_side: t.taker_side,
            taker_order_id: t.taker.order,
            maker_order_id: t.maker.order,
            taker_trader: trader_number(t.taker.owner),
            maker_trader: trader_number(t.maker.owner),
            hidden: t.hidden,
        }
    }

    /// What is shown of a trade.
    pub fn of(t: &Trade) -> (dto: TradeDto)
        ensures
            dto == TradeDto::shown(*t),
    {
        TradeDto {
            ts_ms: t.ts_ms,
            price_cents: t.price_cents,
            qty: t.qty,
            taker_side: t.taker_side,
            taker_order_id: t.taker.order,
            maker_order_id: t.maker.order,
            taker_trader: trader_id_of(t.taker.owner),
            maker_trader: trader_id_of(t.maker.owner),
            hidden: t.hidden,
        }
    }
}

/// A resting order as reported to its owner.
#[derive(Debug)]
pub struct OpenOrderDto {
    pub symbol: String,
    pub order_id: u64,
    pub trader_id: u64,
    pub side: Side,
    pub price_cents: i64,
    pub qty: u64,
    /// Everything still open: what is on show plus, for an iceberg, what is
    /// not.
    pub remaining: u64,
    /// The slice an iceberg shows at a time; `None` for an ordinary order.
    pub display_qty: Option<u64>,
    /// What is on show right now.
    pub shown_qty: u64,
    pub ts_ms: i64,
}

impl Clone for OpenOrderDto {
    fn clone(&self) -> (copy: Self)
        ensures
            copy == *self,
    {
        OpenOrderDto {
            symbol: self.symbol.clone(),
            order_id: self.order_id,
            trader_id: self.trader_id,
            side: self.side,
            price_cents: self.price_cents,
            qty: self.qty,
            remaining: self.remaining,
            display_qty: self.display_qty,
            shown_qty: self.shown_qty,
            ts_ms: self.ts_ms,
        }
    }
}

impl OpenOrderDto {
    /// `dto` is what is shown of a resting order in `symbol`.
    pub open spec fn shows(self, symbol: Seq<char>, r: Resting) -> bool {
        &&& self.symbol@ == symbol
        &&& self == (OpenOrderDto {
            symbol: self.symbol,
            order_id: r.id,
            trader_id: match r.owner {
                Owner::Trader(id) => id.0,
                Owner::Synthetic => 0,
            },
            side: r.side,
            price_cents: r.price_cents,
            qty: r.qty,
            remaining: r.outstanding,
            display_qty: if r.display > 0 {
                Some(r.display)
            } else {
                None
            },
            shown_qty: r.remaining,
            ts_ms: r.ts_ms,
        })
    }

    /// What is shown of a resting order.
    pub fn from_resting(symbol: &str, r: &Resting) -> (dto: Self)
        ensures
            dto.shows(symbol@, *r),
    {
        OpenOrderDto {
            symbol: symbol.to_owned(),
            order_id: r.id,
            trader_id: match r.owner {
                Owner::Trader(id) => id.0,
                Owner::Synthetic => 0,
            },
            side: r.side,
            price_cents: r.price_cents,
            qty: r.qty,
            remaining: r.outstanding,
            display_qty: if r.display > 0 {
                Some(r.display)
            } else {
                None
            },
            shown_qty: r.remaining,
            ts_ms: r.ts_ms,
        }
    }
}

/// Response to a submitted order.
#[derive(Debug)]
pub struct OrderResponse {
    pub symbol: String,
    pub trader_id: u64,
    pub order_id: u64,
    pub side: Side,
    pub qty: u64,
    pub filled: u64,
    pub remaining: u64,
    pub status: OrderStatus,
    pub notional_cents: i64,
    pub trades: Vec<TradeDto>,
}

/// The two responses say the same.
pub open spec fn same_response(a: OrderResponse, b: OrderResponse) -> bool {
    &&& a == (OrderResponse { trades: a.trades, ..b })
    &&& a.trades@ == b.trades@
}

/// The two, where there are any, say the same.
pub open spec fn same_accepted(a: Option<OrderResponse>, b: Option<OrderResponse>) -> bool {
    match (a, b) {
        (Some(x), Some(y)) => same_response(x, y),
        (None, None) => true,
        _ => false,
    }
}

impl Clone for OrderResponse {
    fn clone(&self) -> (copy: Self)
        ensures
            same_response(copy, *self),
    {
        let mut trades: Vec<TradeDto> = Vec::new();
        let mut i: usize = 0;
        while i < self.trades.len()
            invariant
                i <= self.trades.len(),
                trades@ == self.trades@.take(i as int),
            decreases self.trades.len() - i,
        {
            trades.push(self.trades[i]);
            proof {
                assert(self.trades@.take(i as int + 1) =~= self.trades@.take(i as int).push(self.trades@[i as int]));
            }
            i = i + 1;
        }
        proof {
            assert(self.trades@.take(self.trades@.len() as int) =~= self.trades@);
        }
        OrderResponse {
            symbol: self.symbol.clone(),
            trader_id: self.trader_id,
            order_id: self.order_id,
            side: self.side,
            qty: self.qty,
            filled: self.filled,
            remaining: self.remaining,
            status: self.status,
            notional_cents: self.notional_cents,
            trades,
        }
    }
}

impl OrderResponse {
    /// The response answers an order of `trader`'s in `symbol` with what the
    /// book made of it.
    pub open spec fn answers(self, symbol: Seq<char>, trader: TraderId, side: Side, qty: u64, p: Placement) -> bool {
        &&& self.symbol@ == symbol
        &&& self.trader_id == trader.0
        &&& self.order_id == p.id
        &&& self.side == side
        &&& self.qty == qty
        &&& self.filled == p.filled
        &&& self.remaining == p.remaining
        &&& self.status == p.status
        &&& self.notional_cents == p.notional_cents
        &&& self.trades@ == p.trades@.map_values(|t: Trade| TradeDto::shown(t))
    }

    /// Answer an order with what the book made of it.
    pub fn new(symbol: &str, trader: TraderId, side: Side, qty: u64, p: &Placement) -> (response: Self)
        ensures
            response.answers(symbol@, trader, side, qty, *p),
    {
        let mut trades: Vec<TradeDto> = Vec::new();
        let mut i: usize = 0;
        while i < p.trades.len()
            invariant
                i <= p.trades.len(),
                trades@ == p.trades@.take(i as int).map_values(|t: Trade| TradeDto::shown(t)),
            decreases p.trades.len() - i,
        {
            trades.push(TradeDto::of(&p.trades[i]));
            proof {
                assert(p.trades@.take(i as int + 1) =~= p.trades@.take(i as int).push(p.trades@[i as int]));
                assert(trades@ =~= p.trades@.take(i as int + 1).map_values(|t: Trade| TradeDto::shown(t)));
            }
            i = i + 1;
        }
        proof {
            assert(p.trades@.take(p.trades@.len() as int) =~= p.trades@);
        }
        OrderResponse {
            symbol: symbol.to_owned(),
            trader_id: trader.0,
            order_id: p.id,
            side,
            qty,
            filled: p.filled,
            remaining: p.remaining,
            status: p.status,
            notional_cents: p.notional_cents,
            trades,
        }
    }
}

/// Response to an amendment: the order that was withdrawn, and the one that
/// took its place.
#[derive(Debug)]
pub struct AmendResponse {
    /// The order that was cancelled to make way.
    pub replaced_order_id: u64,
    /// Shares of the replaced order that had already filled.
    pub replaced_filled: u64,
    pub order: OrderResponse,
}

/// One submitted order for as long as the log keeps it: what was asked for,
/// what has happened to it since, and the id the caller gave it.
#[derive(Debug)]
pub struct OrderRecord {
    pub order_id: u64,
    /// The caller's own id for this order, if it gave one.
    pub client_order_id: Option<String>,
    pub trader_id: u64,
    pub symbol: String,
    pub side: Side,
    pub kind: OrderStyle,
    /// The limit price; `None` for a market order.
    pub price_cents: Option<i64>,
    pub tif: TimeInForce,
    /// Shares asked for.
    pub qty: u64,
    /// Shares executed so far.
    pub filled: u64,
    /// Shares not executed: resting, or withdrawn when cancelled.
    pub remaining: u64,
    /// `Resting` while it is live, then `Filled` or `Cancelled`.
    pub status: OrderStatus,
    /// Cash moved by the fills so far.
    pub notional_cents: i64,
    pub submitted_at_ms: i64,
    pub updated_at_ms: i64,
    /// Simulated time this order is withdrawn at if it is still resting.
    pub expires_at_ms: Option<i64>,
    /// The response the submission returned, replayed verbatim if the same
    /// `client_order_id` arrives again.
    pub accepted: Option<OrderResponse>,
}

/// The two records say the same.
pub open spec fn same_record(a: OrderRecord, b: OrderRecord) -> bool {
    &&& a == (OrderRecord { accepted: a.accepted, ..b })
    &&& same_accepted(a.accepted, b.accepted)
}

impl Clone for OrderRecord {
    fn clone(&self) -> (copy: Self)
        ensures
            same_record(copy, *self),
    {
        OrderRecord {
            order_id: self.order_id,
            client_order_id: copy_text(&self.client_order_id),
            trader_id: self.trader_id,
            symbol: self.symbol.clone(),
            side: self.side,
            kind: self.kind,
            price_cents: self.price_cents,
            tif: self.tif,
            qty: self.qty,
            filled: self.filled,
            remaining: self.remaining,
            status: self.status,
            notional_cents: self.notional_cents,
            submitted_at_ms: self.submitted_at_ms,
            updated_at_ms: self.updated_at_ms,
            expires_at_ms: self.expires_at_ms,
            accepted: match &self.accepted {
                Some(response) => Some(response.clone()),
                None => None,
            },
        }
    }
}

impl OrderRecord {
    /// The record of a just-accepted order.
    pub open spec fn accepted_as(
        client_order_id: Option<String>,
        trader: TraderId,
        symbol: String,
        order: Order,
        placement: Placement,
        response: OrderResponse,
        ts_ms: i64,
    ) -> OrderRecord {
        OrderRecord {
            order_id: placement.id,
            client_order_id,
            trader_id: trader.0,
            symbol,
            side: order.side,
            kind: OrderStyle::style(order.kind).0,
            price_cents: OrderStyle::style(order.kind).1,
            tif: order.tif,
            qty: order.qty,
            filled: placement.filled,
            remaining: placement.remaining,
            status: placement.status,
            notional_cents: placement.notional_cents,
            submitted_at_ms: ts_ms,
            updated_at_ms: ts_ms,
            expires_at_ms: None,
            accepted: Some(response),
        }
    }

    /// Record a just-accepted order and the response it produced.
    pub fn new(
        client_order_id: Option<String>,
        trader: TraderId,
        symbol: String,
        order: &Order,
        placement: &Placement,
        response: OrderResponse,
        ts_ms: i64,
    ) -> (record: Self)
        ensures
            record == OrderRecord::accepted_as(
                client_order_id,
                trader,
                symbol,
                *order,
                *placement,
                response,
                ts_ms,
            ),
    {
        let (kind, price_cents) = OrderStyle::of(order);
        OrderRecord {
            order_id: placement.id,
            client_order_id,
            trader_id: trader.0,
            symbol,
            side: order.side,
            kind,
            price_cents,
            tif: order.tif,
            qty: order.qty,
            filled: placement.filled,
            remaining: placement.remaining,
            status: placement.status,
            notional_cents: placement.notional_cents,
            submitted_at_ms: ts_ms,
            updated_at_ms: ts_ms,
            expires_at_ms: None,
            accepted: Some(response),
        }
    }

    /// Withdraw this order at `at_ms` if it is still resting then.
    pub fn expiring_at(self, at_ms: Option<i64>) -> (record: Self)
        ensures
            record == (OrderRecord { expires_at_ms: at_ms, ..self }),
    {
        OrderRecord { expires_at_ms: at_ms, ..self }
    }

    /// The order is live and its time is up at `now_ms`.
    pub open spec fn expired(self, now_ms: i64) -> bool {
        self.live() && (self.expires_at_ms matches Some(at) && at <= now_ms)
    }

    /// This order is live and its time is up at `now_ms`.
    pub fn has_expired(&self, now_ms: i64) -> (r: bool)
        ensures
            r == self.expired(now_ms),
    {
        self.is_live() && match self.expires_at_ms {
            Some(at) => at <= now_ms,
            None => false,
        }
    }

    /// The order is neither filled nor cancelled.
    pub open spec fn live(self) -> bool {
        self.status is Resting
    }

    /// The order is neither filled nor cancelled: the book still has it.
    pub fn is_live(&self) -> (r: bool)
        ensures
            r == self.live(),
    {
        self.status == OrderStatus::Resting
    }

    /// The record once `qty` more shares have filled at `price_cents`.
    pub open spec fn filled_by(self, qty: u64, price_cents: i64, ts_ms: i64) -> OrderRecord {
        if !self.live() {
            self
        } else {
            let remaining = max_int(self.remaining - qty, 0) as u64;
            OrderRecord {
                filled: clamp_u64(self.filled + qty),
                remaining,
                notional_cents: clamp_i64(self.notional_cents + clamp_i64(price_cents * qty)),
                status: if remaining == 0 {
                    OrderStatus::Filled
                } else {
                    OrderStatus::Resting
                },
                updated_at_ms: ts_ms,
                ..self
            }
        }
    }

    /// Book an execution against a resting order. Fills of the submission
    /// itself are already in the placement, so only later ones land here.
    pub fn fill(&mut self, qty: u64, price_cents: i64, ts_ms: i64)
        ensures
            *final(self) == old(self).filled_by(qty, price_cents, ts_ms),
    {
        if !self.is_live() {
            return;
        }
        self.filled = usat_add(self.filled, qty);
        self.remaining = usat_sub(self.remaining, qty);
        self.notional_cents = sat_add(self.notional_cents, notional_cents(price_cents, qty));
        if self.remaining == 0 {
            self.status = OrderStatus::Filled;
        }
        self.updated_at_ms = ts_ms;
    }

    /// The record once the remainder has been withdrawn.
    pub open spec fn cancelled_with(self, remaining: u64, ts_ms: i64) -> OrderRecord {
        if !self.live() {
            self
        } else {
            OrderRecord { remaining, status: OrderStatus::Cancelled, updated_at_ms: ts_ms, ..self }
        }
    }

    /// The remainder was withdrawn from the book.
    pub fn cancel(&mut self, remaining: u64, ts_ms: i64)
        ensures
            *final(self) == old(self).cancelled_with(remaining, ts_ms),
    {
        if !self.is_live() {
            return;
        }
        self.remaining = remaining;
        self.status = OrderStatus::Cancelled;
        self.updated_at_ms = ts_ms;
    }

    /// The order asked for the same thing.
    pub open spec fn asked_for(self, order: Order, symbol: Seq<char>) -> bool {
        &&& self.symbol@ == symbol
        &&& self.trader_id == (match order.owner {
            Owner::Trader(id) => id.0,
            Owner::Synthetic => 0,
        })
        &&& self.side == order.side
        &&& self.kind == OrderStyle::style(order.kind).0
        &&& self.price_cents == OrderStyle::style(order.kind).1
        &&& self.tif == order.tif
        &&& self.qty == order.qty
    }

    /// The submission this order was accepted with matches `order` — the same
    /// order, sent twice.
    pub fn matches(&self, order: &Order, symbol: &str) -> (r: bool)
        ensures
            r == self.asked_for(*order, symbol@),
    {
        let (kind, price_cents) = OrderStyle::of(order);
        let trader: u64 = match order.owner {
            Owner::Trader(id) => id.0,
            Owner::Synthetic => 0,
        };
        let same_price: bool = match (self.price_cents, price_cents) {
            (Some(a), Some(b)) => a == b,
            (None, None) => true,
            _ => false,
        };
        same_text(self.symbol.as_str(), symbol) && self.trader_id == trader && self.side == order.side && self.kind
            == kind && same_price && self.tif == order.tif && self.qty == order.qty
    }
}

/// One price of the book, and what is offered at it.
#[derive(Clone, Copy, Debug, PartialEq, Eq, Structural)]
pub struct Level {
    pub price_cents: i64,
    pub qty: u64,
}

/// Top of the book on both sides.
#[derive(Debug)]
pub struct BookDto {
    pub bids: Vec<Level>,
    pub asks: Vec<Level>,
}

// ---------------------------------------------------------------------------
// What people own

/// One position in a portfolio.
#[derive(Debug)]
pub struct PositionDto {
    pub symbol: String,
    pub qty: i64,
    pub cost_cents: i64,
    pub mark_cents: i64,
    pub market_value_cents: i64,
    pub unrealised_pnl_cents: i64,
    pub realised_pnl_cents: i64,
    /// Shares promised to resting sell orders.
    pub reserved_shares: u64,
    /// `qty − reserved_shares`: the most this trader may still sell.
    pub free_shares: u64,
}

/// What one user owns of one symbol: their traders' positions in it, added
/// up. A user can never sell more of a symbol than `free_shares` here, and
/// no single trader more than its own share of it.
#[derive(Debug)]
pub struct HoldingDto {
    pub symbol: String,
    /// Shares owned.
    pub qty: u64,
    /// Of those, promised to resting sell orders.
    pub reserved_shares: u64,
    /// `qty − reserved_shares`: what the user can still sell.
    pub free_shares: u64,
    /// Cost basis of the open position, in cents.
    pub cost_cents: i64,
    /// The symbol's reference price.
    pub mark_cents: i64,
    pub market_value_cents: i64,
    pub unrealised_pnl_cents: i64,
    pub realised_pnl_cents: i64,
    /// The user's traders holding this symbol, by id.
    pub traders: Vec<u64>,
}

impl HoldingDto {
    /// An empty holding of `symbol`, to be filled with [`HoldingDto::add`]
    /// and closed off with [`HoldingDto::mark`].
    pub fn empty(symbol: &str) -> (holding: Self)
        ensures
            holding.symbol@ == symbol@,
            holding.qty == 0,
            holding.reserved_shares == 0,
            holding.free_shares == 0,
            holding.cost_cents == 0,
            holding.mark_cents == 0,
            holding.market_value_cents == 0,
            holding.unrealised_pnl_cents == 0,
            holding.realised_pnl_cents == 0,
            holding.traders@ == Seq::<u64>::empty(),
    {
        HoldingDto {
            symbol: symbol.to_owned(),
            qty: 0,
            reserved_shares: 0,
            free_shares: 0,
            cost_cents: 0,
            mark_cents: 0,
            market_value_cents: 0,
            unrealised_pnl_cents: 0,
            realised_pnl_cents: 0,
            traders: Vec::new(),
        }
    }

    /// The holding is `before` with what one trader holds of the symbol added.
    pub open spec fn added(&self, before: &HoldingDto, trader: &Trader) -> bool {
        let symbol = before.symbol@;
        if !trader.positions.map().contains_key(symbol) {
            *self == *before
        } else {
            let position = trader.positions.map()[symbol];
            let held = trader.held(symbol);
            &&& self.symbol == before.symbol
            &&& self.qty == clamp_u64(before.qty + held)
            &&& self.reserved_shares == clamp_u64(
                before.reserved_shares + max_int(held - trader.free(symbol), 0),
            )
            &&& self.free_shares == before.free_shares
            &&& self.cost_cents == clamp_i64(before.cost_cents + position.cost_cents)
            &&& self.mark_cents == before.mark_cents
            &&& self.market_value_cents == before.market_value_cents
            &&& self.unrealised_pnl_cents == before.unrealised_pnl_cents
            &&& self.realised_pnl_cents == clamp_i64(before.realised_pnl_cents + position.realised_pnl_cents)
            &&& self.traders@ == before.traders@.push(trader.id.0)
        }
    }

    /// Add what one trader holds of the symbol.
    pub fn add(&mut self, trader: &Trader)
        requires
            trader.wf(),
        ensures
            final(self).added(old(self), trader),
    {
        let key = self.symbol.clone();
        let held: u64 = trader.held_shares(key.as_str());
        let free: u64 = trader.free_shares(key.as_str());
        match trader.positions.get(&key) {
            None => {},
            Some(position) => {
                self.qty = usat_add(self.qty, held);
                self.reserved_shares = usat_add(self.reserved_shares, usat_sub(held, free));
                self.cost_cents = sat_add(self.cost_cents, position.cost_cents);
                self.realised_pnl_cents = sat_add(self.realised_pnl_cents, position.realised_pnl_cents);
                self.traders.push(trader.id.0);
            },
        }
    }

    /// The holding valued at `mark_cents`.
    pub open spec fn marked(self, mark_cents: i64) -> HoldingDto {
        let value = clamp_i64(mark_cents * self.qty);
        HoldingDto {
            free_shares: max_int(self.qty - self.reserved_shares, 0) as u64,
            mark_cents,
            market_value_cents: value,
            unrealised_pnl_cents: clamp_i64(value - self.cost_cents),
            ..self
        }
    }

    /// Value the holding at `mark_cents` once every trader has been added.
    pub fn mark(&mut self, mark_cents: i64)
        ensures
            *final(self) == old(self).marked(mark_cents),
    {
        self.free_shares = usat_sub(self.qty, self.reserved_shares);
        self.mark_cents = mark_cents;
        self.market_value_cents = notional_cents(mark_cents, self.qty);
        self.unrealised_pnl_cents = sat_sub(self.market_value_cents, self.cost_cents);
    }
}

/// Every share a user owns.
#[derive(Debug)]
pub struct UserHoldingsResponse {
    pub user_id: u64,
    /// Shares owned across every symbol and every trader of the user.
    pub shares_owned: u64,
    /// Of those, promised to resting sell orders.
    pub reserved_shares: u64,
    /// What the user could sell right now.
    pub free_shares: u64,
    /// The holdings at the reference prices.
    pub market_value_cents: i64,
    /// One entry per symbol the user holds, by ticker.
    pub holdings: Vec<HoldingDto>,
}

/// The numbers added up.
pub open spec fn sum_of(numbers: Seq<int>) -> int
    decreases numbers.len(),
{
    if numbers.len() == 0 {
        0
    } else {
        sum_of(numbers.drop_last()) + numbers.last()
    }
}

/// The numbers added up one by one from `start`, stopping at the ends of the
/// range.
pub open spec fn sat_sum_of(numbers: Seq<int>) -> i64
    decreases numbers.len(),
{
    if numbers.len() == 0 {
        0
    } else {
        clamp_i64(sat_sum_of(numbers.drop_last()) + numbers.last())
    }
}

/// One more number is added last.
pub proof fn lemma_sum_push(numbers: Seq<int>, n: int)
    ensures
        sum_of(numbers.push(n)) == sum_of(numbers) + n,
        sat_sum_of(numbers.push(n)) == clamp_i64(sat_sum_of(numbers) + n),
{
    assert(numbers.push(n).drop_last() =~= numbers);
}

impl UserHoldingsResponse {
    /// Total up `holdings` for one user.
    pub fn new(user_id: u64, holdings: Vec<HoldingDto>) -> (response: Self)
        ensures
            response.user_id == user_id,
            response.holdings == holdings,
            response.shares_owned == clamp_u64(sum_of(holdings@.map_values(|h: HoldingDto| h.qty as int))),
            response.reserved_shares == clamp_u64(
                sum_of(holdings@.map_values(|h: HoldingDto| h.reserved_shares as int)),
            ),
            response.free_shares == clamp_u64(sum_of(holdings@.map_values(|h: HoldingDto| h.free_shares as int))),
            response.market_value_cents == sat_sum_of(
                holdings@.map_values(|h: HoldingDto| h.market_value_cents as int),
            ),
    {
        let mut shares_owned: u64 = 0;
        let mut reserved_shares: u64 = 0;
        let mut free_shares: u64 = 0;
        let mut market_value_cents: i64 = 0;
        let mut i: usize = 0;
        let ghost f1 = |h: HoldingDto| h.qty as int;
        let ghost f2 = |h: HoldingDto| h.reserved_shares as int;
        let ghost f3 = |h: HoldingDto| h.free_shares as int;
        let ghost f4 = |h: HoldingDto| h.market_value_cents as int;
        while i < holdings.len()
            invariant
                i <= holdings.len(),
                f1 == (|h: HoldingDto| h.qty as int),
                f2 == (|h: HoldingDto| h.reserved_shares as int),
                f3 == (|h: HoldingDto| h.free_shares as int),
                f4 == (|h: HoldingDto| h.market_value_cents as int),
                sum_of(holdings@.take(i as int).map_values(f1)) >= 0,
                sum_of(holdings@.take(i as int).map_values(f2)) >= 0,
                sum_of(holdings@.take(i as int).map_values(f3)) >= 0,
                shares_owned == clamp_u64(sum_of(holdings@.take(i as int).map_values(f1))),
                reserved_shares == clamp_u64(sum_of(holdings@.take(i as int).map_values(f2))),
                free_shares == clamp_u64(sum_of(holdings@.take(i as int).map_values(f3))),
                market_value_cents == sat_sum_of(holdings@.take(i as int).map_values(f4)),
            decreases holdings.len() - i,
        {
            let h = &holdings[i];
            proof {
                let shorter = holdings@.take(i as int);
                let longer = holdings@.take(i as int + 1);
                assert(longer.map_values(f1) =~= shorter.map_values(f1).push(h.qty as int));
                assert(longer.map_values(f2) =~= shorter.map_values(f2).push(h.reserved_shares as int));
                assert(longer.map_values(f3) =~= shorter.map_values(f3).push(h.free_shares as int));
                assert(longer.map_values(f4) =~= shorter.map_values(f4).push(h.market_value_cents as int));
                lemma_sum_push(shorter.map_values(f1), h.qty as int);
                lemma_sum_push(shorter.map_values(f2), h.reserved_shares as int);
                lemma_sum_push(shorter.map_values(f3), h.free_shares as int);
                lemma_sum_push(shorter.map_values(f4), h.market_value_cents as int);
            }
            shares_owned = usat_add(shares_owned, h.qty);
            reserved_shares = usat_add(reserved_shares, h.reserved_shares);
            free_shares = usat_add(free_shares, h.free_shares);
            market_value_cents = sat_add(market_value_cents, h.market_value_cents);
            i = i + 1;
        }
        proof {
            assert(holdings@.take(holdings@.len() as int) =~= holdings@);
        }
        UserHoldingsResponse { user_id, shares_owned, reserved_shares, free_shares, market_value_cents, holdings }
    }
}

/// One trader's stake in a symbol.
#[derive(Clone, Copy, Debug, PartialEq, Eq, Structural)]
pub struct HolderDto {
    pub trader_id: u64,
    pub user_id: u64,
    pub qty: u64,
    pub reserved_shares: u64,
    pub free_shares: u64,
}

impl HolderDto {
    /// A trader's stake in a symbol, where it has one.
    pub open spec fn stake(trader: &Trader, symbol: Seq<char>) -> Option<HolderDto> {
        if trader.held(symbol) == 0 {
            None
        } else {
            Some(
                HolderDto {
                    trader_id: trader.id.0,
                    user_id: trader.user_id.0,
                    qty: trader.held(symbol),
                    reserved_shares: (trader.held(symbol) - trader.free(symbol)) as u64,
                    free_shares: trader.free(symbol),
                },
            )
        }
    }

    /// `trader`'s stake in `symbol`, or `None` if it holds none of it.
    pub fn new(trader: &Trader, symbol: &str) -> (r: Option<Self>)
        requires
            trader.wf(),
        ensures
            r == HolderDto::stake(trader, symbol@),
    {
        let qty: u64 = trader.held_shares(symbol);
        if qty == 0 {
            return None;
        }
        let free: u64 = trader.free_shares(symbol);
        Some(
            HolderDto {
                trader_id: trader.id.0,
                user_id: trader.user_id.0,
                qty,
                reserved_shares: usat_sub(qty, free),
                free_shares: free,
            },
        )
    }
}

/// A trader as its owner sees it.
#[derive(Debug)]
pub struct PortfolioDto {
    pub id: u64,
    pub user_id: u64,
    pub account_id: u64,
    pub name: String,
    pub created_at_ms: i64,
    pub account_status: AccountStatus,
    /// The account's balance.
    pub cash_cents: i64,
    pub reserved_cents: i64,
    pub free_cash_cents: i64,
    /// Cash plus positions at the reference price.
    pub equity_cents: i64,
    pub realised_pnl_cents: i64,
    pub unrealised_pnl_cents: i64,
    pub positions: Vec<PositionDto>,
    pub open_orders: Vec<OpenOrderDto>,
    /// Triggers waiting for a price, oldest first.
    pub stops: Vec<StopOrder>,
    /// Newest first.
    pub fills: Vec<FillRecord>,
    /// The key that proves a request speaks for the trader's user, shown
    /// **once**: in the response that created them, and `None` after.
    pub api_key: Option<String>,
}

/// A trader in a list.
#[derive(Clone, Debug)]
pub struct TraderSummary {
    pub id: u64,
    pub user_id: u64,
    pub account_id: u64,
    pub name: String,
    pub account_status: AccountStatus,
    pub cash_cents: i64,
    pub equity_cents: i64,
    pub positions: usize,
    pub open_orders: usize,
}

// ---------------------------------------------------------------------------
// Laws

/// A taker is never paid and a maker is never charged, whatever the venue's
/// basis points say, on a fill that is worth something.
pub proof fn law_takers_pay_and_makers_do_not(fees: Fees, notional: i64)
    requires
        notional >= 0,
    ensures
        fees.fee(Liquidity::Taker, notional) <= 0,
        fees.fee(Liquidity::Maker, notional) >= 0,
{
    assert(notional * fees.bps(Liquidity::Taker) >= 0) by (nonlinear_arith)
        requires
            notional >= 0,
            fees.bps(Liquidity::Taker) >= 0,
    ;
    assert(notional * fees.bps(Liquidity::Maker) <= 0) by (nonlinear_arith)
        requires
            notional >= 0,
            fees.bps(Liquidity::Maker) <= 0,
    ;
}

/// The venue never rounds a fee up, and a fill too small to owe a whole cent
/// owes nothing.
pub proof fn law_a_fee_is_never_rounded_up(fees: Fees, notional: i64)
    requires
        notional >= 0,
    ensures
        -fees.fee(Liquidity::Taker, notional) * 10_000 <= notional * fees.bps(Liquidity::Taker),
        notional * fees.bps(Liquidity::Taker) < 10_000 ==> fees.fee(Liquidity::Taker, notional) == 0,
{
    assert(notional * fees.bps(Liquidity::Taker) >= 0) by (nonlinear_arith)
        requires
            notional >= 0,
            fees.bps(Liquidity::Taker) >= 0,
    ;
}

/// What is promised is never free: a trader never has more to sell than it
/// holds less what its resting sells took, and a sell of more is refused.
pub proof fn law_a_sell_never_exceeds_what_is_free(
    trader: &Trader,
    ledger: &LedgerView,
    account: &Account,
    symbol: Seq<char>,
    qty: u64,
    cost_cents: i64,
)
    ensures
        trader.free(symbol) <= trader.held(symbol),
        trader.checked(ledger, account, symbol, Side::Sell, qty, cost_cents) is Ok ==> qty + trader.promised(symbol)
            <= trader.held(symbol) || qty == 0,
{
}

/// Releasing what was reserved puts the promise back where it was, and leaves
/// every other symbol alone.
pub proof fn law_release_undoes_reserve(trader: &Trader, after: &Trader, symbol: Seq<char>, qty: u64)
    requires
        after.reserved_shares.map() == trader.promised_more(symbol, qty),
        trader.promised(symbol) + qty <= u64::MAX,
    ensures
        ({
            let back = after.promised_less(symbol, qty);
            &&& (if back.contains_key(symbol) {
                back[symbol]
            } else {
                0
            }) == trader.promised(symbol)
            &&& forall|other: Seq<char>|
                other != symbol ==> (#[trigger] back.contains_key(other) <==> trader.reserved_shares.map().contains_key(
                    other,
                ))
            &&& forall|other: Seq<char>|
                other != symbol && #[trigger] back.contains_key(other) ==> back[other]
                    == trader.reserved_shares.map()[other]
        }),
{
}

/// Shares are neither lost nor made up as an order fills: while it is live
/// and is filled by no more than it has left, what it filled and what it has
/// left add up to what they added up to before.
pub proof fn law_fills_conserve_an_order(record: OrderRecord, qty: u64, price_cents: i64, ts_ms: i64)
    requires
        record.live(),
        qty <= record.remaining,
        record.filled + qty <= u64::MAX,
    ensures
        record.filled_by(qty, price_cents, ts_ms).filled + record.filled_by(qty, price_cents, ts_ms).remaining
            == record.filled + record.remaining,
        record.filled_by(qty, price_cents, ts_ms).live() <==> qty < record.remaining,
{
}

/// What has finished stays as it is: neither a fill nor a cancel changes it.
pub proof fn law_finished_orders_do_not_change(record: OrderRecord, qty: u64, price_cents: i64, ts_ms: i64)
    requires
        !record.live(),
    ensures
        record.filled_by(qty, price_cents, ts_ms) == record,
        record.cancelled_with(qty, ts_ms) == record,
{
}


/// A stop waits until the price reaches it, and fires from there on.
pub proof fn law_a_stop_fires_from_its_price_on(stop: StopOrder, price_cents: i64, fired: bool)
    requires
        call_ensures(StopOrder::triggered_by, (&stop, price_cents), fired),
    ensures
        price_cents == stop.stop_price_cents ==> fired,
        stop.side is Buy && price_cents > stop.stop_price_cents ==> fired,
        stop.side is Buy && price_cents < stop.stop_price_cents ==> !fired,
        stop.side is Sell && price_cents < stop.stop_price_cents ==> fired,
        stop.side is Sell && price_cents > stop.stop_price_cents ==> !fired,
{
}

/// The two sides are each other's opposite.
pub proof fn law_a_side_is_its_opposites_opposite(side: Side, other: Side, back: Side)
    requires
        call_ensures(Side::opposite, (side,), other),
        call_ensures(Side::opposite, (other,), back),
    ensures
        other != side,
        back == side,
{
}

/// A stop that fires asks for what it was held for: its quantity, on its
/// side, for its owner, at its limit where it has one and at the market where
/// it has none. It is reckoned to cost its quantity at that price.
pub proof fn law_a_stop_asks_for_what_it_was_held_for(stop: StopOrder, order: Order, cost_cents: i64)
    requires
        call_ensures(StopOrder::order, (&stop,), order),
        call_ensures(StopOrder::cost_cents, (&stop,), cost_cents),
    ensures
        order.owner == Owner::Trader(TraderId(stop.trader_id)),
        order.side == stop.side,
        order.qty == stop.qty,
        order.tif == stop.tif,
        order.kind is Market <==> stop.limit_price_cents is None,
        order.kind matches OrderKind::Limit { price_cents } ==> stop.limit_price_cents == Some(price_cents),
        order.kind matches OrderKind::Limit { price_cents } ==> (i64::MIN <= price_cents * order.qty <= i64::MAX
            ==> cost_cents == price_cents * order.qty),
        order.kind is Market && i64::MIN <= stop.stop_price_cents * order.qty <= i64::MAX ==> cost_cents
            == stop.stop_price_cents * order.qty,
{
}

/// A taker pays its rate of what it traded, whole cents of it, and a maker is
/// paid its own: neither is ever rounded up.
pub proof fn law_a_fee_is_the_whole_cents_of_its_rate(fees: Fees, notional: i64, taken: i64, made: i64)
    requires
        fees.bounded(),
        notional >= 0,
        call_ensures(Fees::on, (&fees, Liquidity::Taker, notional), taken),
        call_ensures(Fees::on, (&fees, Liquidity::Maker, notional), made),
    ensures
        taken <= 0 <= made,
        0 <= notional * fees.taker_bps + taken * 10_000 < 10_000,
        0 <= -(notional * fees.maker_bps) - made * 10_000 < 10_000,
{
    let (taker, maker) = (notional * fees.taker_bps, -(notional * fees.maker_bps));
    assert(0 <= taker <= notional * 10_000) by (nonlinear_arith)
        requires
            0 <= fees.taker_bps <= 10_000,
            notional >= 0,
            taker == notional * fees.taker_bps,
    ;
    assert(0 <= maker <= notional * 10_000) by (nonlinear_arith)
        requires
            -10_000 <= fees.maker_bps <= 0,
            notional >= 0,
            maker == -(notional * fees.maker_bps),
    ;
    assert(notional * fees.bps(Liquidity::Maker) == -maker) by (nonlinear_arith)
        requires
            fees.bps(Liquidity::Maker) == fees.maker_bps,
            maker == -(notional * fees.maker_bps),
    ;
    assert(notional * fees.bps(Liquidity::Taker) == taker) by (nonlinear_arith)
        requires
            fees.bps(Liquidity::Taker) == fees.taker_bps,
            taker == notional * fees.taker_bps,
    ;
}

/// What an order has to be able to pay for is what a taker would be charged.
pub proof fn law_a_takers_cost_is_its_fee(fees: Fees, notional: i64, fee: i64, cost: i64)
    requires
        call_ensures(Fees::on, (&fees, Liquidity::Taker, notional), fee),
        call_ensures(Fees::taker_cost, (&fees, notional), cost),
    ensures
        cost == -fee,
{
}

/// What was settled on each side is charged to that side.
pub proof fn law_a_settled_fee_is_its_own_sides(fees: SettledFees, taken: i64, made: i64)
    requires
        call_ensures(SettledFees::on, (fees, Liquidity::Taker), taken),
        call_ensures(SettledFees::on, (fees, Liquidity::Maker), made),
    ensures
        taken == fees.taker_cents,
        made == fees.maker_cents,
{
}

/// What a trader holds of a symbol is its position in it, what it has
/// promised is what its resting sells reserve, and what is free is the rest.
pub proof fn law_held_shares_are_promised_or_free(trader: Trader, symbol: &str, held: u64, promised: u64, free: u64)
    requires
        call_ensures(Trader::held_shares, (&trader, symbol), held),
        call_ensures(Trader::promised_shares, (&trader, symbol), promised),
        call_ensures(Trader::free_shares, (&trader, symbol), free),
    ensures
        trader.positions.map().contains_key(symbol@) && trader.positions.map()[symbol@].qty >= 0 ==> held
            == trader.positions.map()[symbol@].qty,
        !trader.positions.map().contains_key(symbol@) ==> held == 0,
        trader.reserved_shares.map().contains_key(symbol@) ==> promised == trader.reserved_shares.map()[symbol@],
        !trader.reserved_shares.map().contains_key(symbol@) ==> promised == 0,
        promised <= held ==> free + promised == held,
        promised > held ==> free == 0,
{
}

/// A buy passes where the account is active and what is free in its wallet
/// covers the cost. What the trader holds is no part of it.
pub proof fn law_a_buy_passes_where_it_can_be_paid_for(
    trader: Trader,
    ledger: LedgerView,
    account: Account,
    symbol: &str,
    qty: u64,
    cost_cents: i64,
    r: Result<(), Refused>,
)
    requires
        call_ensures(Trader::check, (&trader, &ledger, &account, symbol, Side::Buy, qty, cost_cents), r),
    ensures
        r is Ok <==> {
            &&& ledger.wallets.map().contains_key(account.wallet.0)
            &&& ledger.wallets.map()[account.wallet.0].status is Active
            &&& 0 <= cost_cents <= ledger.wallets.map()[account.wallet.0].available_cents
        },
{
}

/// A sell passes where the account is active and the shares are held and not
/// promised to another sell. What it would cost is no part of it.
pub proof fn law_a_sell_passes_where_the_shares_are_free(
    trader: Trader,
    ledger: LedgerView,
    account: Account,
    symbol: &str,
    qty: u64,
    cost_cents: i64,
    free: u64,
    r: Result<(), Refused>,
)
    requires
        call_ensures(Trader::check, (&trader, &ledger, &account, symbol, Side::Sell, qty, cost_cents), r),
        call_ensures(Trader::free_shares, (&trader, symbol), free),
    ensures
        r is Ok <==> {
            &&& ledger.wallets.map().contains_key(account.wallet.0)
            &&& ledger.wallets.map()[account.wallet.0].status is Active
            &&& qty <= free
        },
        r matches Err(Refused::InsufficientShares { needed, available }) ==> needed == qty && available == free && needed
            > available,
        !(r matches Err(Refused::SupplyExhausted { .. })),
{
}

/// Reserving shares promises that many more of the symbol, giving them back
/// that many fewer and never less than none; no other symbol is touched.
pub proof fn law_reserving_and_giving_back_move_one_symbol(trader: &Trader, symbol: Seq<char>, qty: u64, other: Seq<char>)
    requires
        trader.promised(symbol) + qty <= u64::MAX,
        other != symbol,
    ensures
        trader.promised_more(symbol, qty).contains_key(symbol),
        trader.promised_more(symbol, qty)[symbol] == trader.promised(symbol) + qty,
        qty < trader.promised(symbol) ==> trader.promised_less(symbol, qty).contains_key(symbol)
            && trader.promised_less(symbol, qty)[symbol] == trader.promised(symbol) - qty,
        qty >= trader.promised(symbol) ==> !trader.promised_less(symbol, qty).contains_key(symbol),
        trader.promised_more(symbol, qty).contains_key(other) == trader.reserved_shares.map().contains_key(other),
        trader.promised_less(symbol, qty).contains_key(other) == trader.reserved_shares.map().contains_key(other),
        trader.reserved_shares.map().contains_key(other) ==> trader.promised_more(symbol, qty)[other]
            == trader.reserved_shares.map()[other] && trader.promised_less(symbol, qty)[other]
            == trader.reserved_shares.map()[other],
{
}

/// A position that has anything in it is kept, a blank one is not, and the
/// positions in other symbols are as they were.
pub proof fn law_a_position_is_kept_while_there_is_anything_in_it(
    positions: Map<Seq<char>, Position>,
    symbol: Seq<char>,
    after: Position,
    other: Seq<char>,
)
    requires
        other != symbol,
    ensures
        after.qty != 0 || after.realised_pnl_cents != 0 || after.cash_cents != 0 ==> positions_with(
            positions,
            symbol,
            after,
        ).contains_key(symbol) && positions_with(positions, symbol, after)[symbol] == after,
        after.qty == 0 && after.realised_pnl_cents == 0 && after.cash_cents == 0 ==> !positions_with(
            positions,
            symbol,
            after,
        ).contains_key(symbol),
        positions_with(positions, symbol, after).contains_key(other) == positions.contains_key(other),
        positions.contains_key(other) ==> positions_with(positions, symbol, after)[other] == positions[other],
{
}

/// What one side of a trade pays for the shares, the other is paid: the two
/// legs come to the fees alone. The buyer's leg is minus the value and its
/// fee, whichever of the two took.
pub proof fn law_the_legs_of_a_trade_come_to_its_fees(
    trade: Trade,
    taker_fee: i64,
    maker_fee: i64,
    taken: i64,
    made: i64,
)
    requires
        call_ensures(leg, (&trade, Liquidity::Taker, taker_fee), taken),
        call_ensures(leg, (&trade, Liquidity::Maker, maker_fee), made),
        -i64::MAX <= trade.price_cents * trade.qty <= i64::MAX,
        i64::MIN <= taker_fee - trade.price_cents * trade.qty <= i64::MAX,
        i64::MIN <= taker_fee + trade.price_cents * trade.qty <= i64::MAX,
        i64::MIN <= maker_fee - trade.price_cents * trade.qty <= i64::MAX,
        i64::MIN <= maker_fee + trade.price_cents * trade.qty <= i64::MAX,
    ensures
        taken + made == taker_fee + maker_fee,
        trade.taker_side is Buy ==> taken == taker_fee - trade.price_cents * trade.qty,
        trade.taker_side is Sell ==> taken == taker_fee + trade.price_cents * trade.qty,
{
}

/// The rows a side of a trade leaves in a history come to that side's leg:
/// one for the shares, named for what that side did, and one for the fee
/// where there is any.
pub proof fn law_the_rows_of_a_leg_come_to_it(trade: Trade, liquidity: Liquidity, fee_cents: i64, cents: i64)
    requires
        call_ensures(leg, (&trade, liquidity, fee_cents), cents),
        -i64::MAX <= trade.price_cents * trade.qty <= i64::MAX,
        i64::MIN <= fee_cents - trade.price_cents * trade.qty <= i64::MAX,
        i64::MIN <= fee_cents + trade.price_cents * trade.qty <= i64::MAX,
    ensures
        ({
            let rows = leg_rows(trade, liquidity, fee_cents);
            let buys = (liquidity is Taker) == (trade.taker_side is Buy);
            &&& rows.len() == (if fee_cents == 0 { 1int } else { 2 })
            &&& rows[0].0 == (if buys { LedgerKind::Buy } else { LedgerKind::Sell })
            &&& rows[0].1 + fee_cents == cents
            &&& rows.len() == 2 ==> rows[1] == (LedgerKind::Fee, fee_cents)
            &&& buys ==> rows[0].1 == -(trade.price_cents * trade.qty)
            &&& !buys ==> rows[0].1 == trade.price_cents * trade.qty
        }),
{
}

/// The two records of a trade tell of the same shares at the same price and
/// time, on opposite sides, each under its own order. Each says whether a
/// trader stood on the other side.
pub proof fn law_the_two_fills_of_a_trade_mirror_each_other(
    trade: Trade,
    taker: TraderId,
    maker: TraderId,
    taker_id: u64,
    maker_id: u64,
    symbol: String,
    taker_fee: i64,
    maker_fee: i64,
)
    ensures
        ({
            let took = fill_record(taker_id, taker, symbol, trade, Liquidity::Taker, taker_fee);
            let made = fill_record(maker_id, maker, symbol, trade, Liquidity::Maker, maker_fee);
            &&& took.side == trade.taker_side && made.side != took.side
            &&& took.order_id == trade.taker.order && made.order_id == trade.maker.order
            &&& took.qty == trade.qty && made.qty == trade.qty
            &&& took.price_cents == trade.price_cents && made.price_cents == trade.price_cents
            &&& took.ts_ms == trade.ts_ms && made.ts_ms == trade.ts_ms
            &&& took.symbol == symbol && made.symbol == symbol
            &&& took.id == taker_id && made.id == maker_id
            &&& took.trader_id == taker.0 && made.trader_id == maker.0
            &&& took.fee_cents == taker_fee && made.fee_cents == maker_fee
            &&& took.liquidity is Taker && made.liquidity is Maker
            &&& took.counterparty is Trader <==> trade.maker.owner is Trader
            &&& made.counterparty is Trader <==> trade.taker.owner is Trader
        }),
{
}

/// A fill adds what traded to what an order filled and what it came to, and
/// leaves what the order asked for alone. It is filled when nothing remains.
pub proof fn law_a_fill_counts_what_traded(record: OrderRecord, qty: u64, price_cents: i64, ts_ms: i64)
    requires
        record.status is Resting,
        qty <= record.remaining,
        record.filled + qty <= u64::MAX,
        i64::MIN <= price_cents * qty <= i64::MAX,
        i64::MIN <= record.notional_cents + price_cents * qty <= i64::MAX,
    ensures
        ({
            let after = record.filled_by(qty, price_cents, ts_ms);
            &&& after.filled == record.filled + qty
            &&& after.remaining == record.remaining - qty
            &&& after.notional_cents == record.notional_cents + price_cents * qty
            &&& after.updated_at_ms == ts_ms
            &&& after.status == (if qty == record.remaining {
                OrderStatus::Filled
            } else {
                OrderStatus::Resting
            })
            &&& after == (OrderRecord {
                filled: after.filled,
                remaining: after.remaining,
                notional_cents: after.notional_cents,
                status: after.status,
                updated_at_ms: after.updated_at_ms,
                ..record
            })
        }),
{
}

/// A cancelled order no longer rests. What it filled, and what that came to,
/// stand.
pub proof fn law_a_cancelled_order_keeps_what_it_filled(record: OrderRecord, remaining: u64, ts_ms: i64)
    requires
        record.status is Resting,
    ensures
        ({
            let after = record.cancelled_with(remaining, ts_ms);
            &&& after.status is Cancelled
            &&& after.remaining == remaining
            &&& after.updated_at_ms == ts_ms
            &&& after == (OrderRecord { remaining, status: after.status, updated_at_ms: ts_ms, ..record })
        }),
{
}

/// An order expires at its instant and not before, only while it rests, and
/// one that has no instant never.
pub proof fn law_an_order_expires_at_its_instant(record: OrderRecord, now_ms: i64, gone: bool)
    requires
        call_ensures(OrderRecord::has_expired, (&record, now_ms), gone),
    ensures
        record.expires_at_ms is None ==> !gone,
        !(record.status is Resting) ==> !gone,
        record.status is Resting && record.expires_at_ms is Some ==> (gone <==> record.expires_at_ms->0 <= now_ms),
{
}

/// An order is live while it rests, and given an instant it is that order
/// still.
pub proof fn law_an_order_is_live_while_it_rests(record: OrderRecord, live: bool, at_ms: Option<i64>, timed: OrderRecord)
    requires
        call_ensures(OrderRecord::is_live, (&record,), live),
        call_ensures(OrderRecord::expiring_at, (record, at_ms), timed),
    ensures
        live <==> record.status is Resting,
        timed.expires_at_ms == at_ms,
        timed == (OrderRecord { expires_at_ms: at_ms, ..record }),
{
}

/// A record answers for one request only: two orders it matches ask for the
/// same, and it matches both in no more than one symbol.
pub proof fn law_a_record_matches_one_request(
    record: OrderRecord,
    one: Order,
    other: Order,
    symbol: &str,
    elsewhere: &str,
)
    requires
        call_ensures(OrderRecord::matches, (&record, &one, symbol), true),
        call_ensures(OrderRecord::matches, (&record, &other, elsewhere), true),
    ensures
        symbol@ == elsewhere@,
        one.side == other.side,
        one.qty == other.qty,
        one.tif == other.tif,
        one.kind == other.kind,
        one.owner is Trader && other.owner is Trader ==> one.owner == other.owner,
{
}

/// What is written down of an order is what was asked and what the book made
/// of it, and so is what its owner is told.
pub proof fn law_an_order_is_filed_as_it_was_answered(
    client_order_id: Option<String>,
    trader: TraderId,
    symbol: String,
    name: &str,
    order: Order,
    placement: Placement,
    response: OrderResponse,
    ts_ms: i64,
    record: OrderRecord,
)
    requires
        name@ == symbol@,
        call_ensures(OrderResponse::new, (name, trader, order.side, order.qty, &placement), response),
        call_ensures(
            OrderRecord::new,
            (client_order_id, trader, symbol, &order, &placement, response, ts_ms),
            record,
        ),
    ensures
        record.order_id == placement.id && response.order_id == placement.id,
        record.trader_id == trader.0 && response.trader_id == trader.0,
        record.side == order.side && response.side == order.side,
        record.qty == order.qty && response.qty == order.qty,
        record.filled == placement.filled && response.filled == placement.filled,
        record.remaining == placement.remaining && response.remaining == placement.remaining,
        record.status == placement.status && response.status == placement.status,
        record.notional_cents == placement.notional_cents && response.notional_cents == placement.notional_cents,
        record.tif == order.tif,
        record.kind is Market <==> order.kind is Market,
        order.kind matches OrderKind::Limit { price_cents } ==> record.price_cents == Some(price_cents),
        order.kind is Market ==> record.price_cents is None,
        response.symbol@ == symbol@,
        record.symbol == symbol && record.client_order_id == client_order_id,
        record.submitted_at_ms == ts_ms && record.updated_at_ms == ts_ms && record.expires_at_ms is None,
        record.accepted == Some(response),
        response.trades@.len() == placement.trades@.len(),
        forall|i: int| #![trigger response.trades@[i]] #![trigger placement.trades@[i]]
            0 <= i < placement.trades@.len() ==> {
                let (told, trade) = (response.trades@[i], placement.trades@[i]);
                &&& told.qty == trade.qty && told.price_cents == trade.price_cents && told.ts_ms == trade.ts_ms
                &&& told.taker_side == trade.taker_side && told.hidden == trade.hidden
                &&& told.taker_order_id == trade.taker.order && told.maker_order_id == trade.maker.order
                &&& told.taker_trader is Some <==> trade.taker.owner is Trader
                &&& told.maker_trader is Some <==> trade.maker.owner is Trader
                &&& told.taker_trader matches Some(id) ==> trade.taker.owner == Owner::Trader(TraderId(id))
                &&& told.maker_trader matches Some(id) ==> trade.maker.owner == Owner::Trader(TraderId(id))
            },
{
}

/// An open order is shown with all that is still to fill of it, the part in
/// the book apart.
pub proof fn law_an_open_order_is_shown_whole(symbol: &str, resting: Resting, dto: OpenOrderDto)
    requires
        call_ensures(OpenOrderDto::from_resting, (symbol, &resting), dto),
    ensures
        dto.symbol@ == symbol@,
        dto.order_id == resting.id,
        dto.side == resting.side,
        dto.price_cents == resting.price_cents,
        dto.qty == resting.qty,
        dto.remaining == resting.outstanding,
        dto.shown_qty == resting.remaining,
        dto.ts_ms == resting.ts_ms,
        resting.owner matches Owner::Trader(id) ==> dto.trader_id == id.0,
        dto.display_qty is Some <==> resting.display > 0,
        dto.display_qty matches Some(n) ==> n == resting.display,
{
}

/// A trader's stake in a symbol is its whole position, split into what it has
/// promised and what is free. Who holds nothing has none.
pub proof fn law_a_stake_is_a_whole_position(
    trader: Trader,
    symbol: &str,
    stake: Option<HolderDto>,
    held: u64,
    free: u64,
)
    requires
        call_ensures(HolderDto::new, (&trader, symbol), stake),
        call_ensures(Trader::held_shares, (&trader, symbol), held),
        call_ensures(Trader::free_shares, (&trader, symbol), free),
    ensures
        stake is Some <==> held > 0,
        stake matches Some(s) ==> {
            &&& s.qty == held
            &&& s.free_shares == free
            &&& s.reserved_shares + s.free_shares == s.qty
            &&& s.trader_id == trader.id.0
            &&& s.user_id == trader.user_id.0
        },
{
}

/// A holding is worth its mark for every share, and has made the difference
/// to what it cost. What is not reserved is free.
pub proof fn law_a_holding_is_worth_its_mark(holding: HoldingDto, mark_cents: i64)
    requires
        holding.reserved_shares <= holding.qty,
        i64::MIN <= mark_cents * holding.qty <= i64::MAX,
        i64::MIN <= mark_cents * holding.qty - holding.cost_cents <= i64::MAX,
    ensures
        ({
            let marked = holding.marked(mark_cents);
            &&& marked.mark_cents == mark_cents
            &&& marked.market_value_cents == mark_cents * holding.qty
            &&& marked.unrealised_pnl_cents + holding.cost_cents == marked.market_value_cents
            &&& marked.free_shares + marked.reserved_shares == marked.qty
            &&& marked == (HoldingDto {
                mark_cents: marked.mark_cents,
                market_value_cents: marked.market_value_cents,
                unrealised_pnl_cents: marked.unrealised_pnl_cents,
                free_shares: marked.free_shares,
                ..holding
            })
        }),
{
}

/// A holding counts the shares, the cost and the gain of every trader that
/// is added to it, and names the trader.
pub proof fn law_a_holding_counts_every_trader(before: HoldingDto, trader: Trader, after: HoldingDto)
    requires
        after.added(&before, &trader),
        trader.positions.map().contains_key(before.symbol@),
        trader.positions.map()[before.symbol@].qty >= 0,
        before.qty + trader.positions.map()[before.symbol@].qty <= u64::MAX,
        before.reserved_shares + trader.positions.map()[before.symbol@].qty <= u64::MAX,
        i64::MIN <= before.cost_cents + trader.positions.map()[before.symbol@].cost_cents <= i64::MAX,
        i64::MIN <= before.realised_pnl_cents + trader.positions.map()[before.symbol@].realised_pnl_cents <= i64::MAX,
    ensures
        after.qty == before.qty + trader.positions.map()[before.symbol@].qty,
        after.cost_cents == before.cost_cents + trader.positions.map()[before.symbol@].cost_cents,
        after.realised_pnl_cents == before.realised_pnl_cents + trader.positions.map()[before.symbol@].realised_pnl_cents,
        after.qty - after.reserved_shares == before.qty - before.reserved_shares + trader.free(before.symbol@),
        after.traders@ == before.traders@.push(trader.id.0),
{
}

/// What a user holds altogether grows by each holding that is added.
pub proof fn law_holdings_are_totalled(
    user_id: u64,
    holdings: Vec<HoldingDto>,
    more: Vec<HoldingDto>,
    one: HoldingDto,
    before: UserHoldingsResponse,
    after: UserHoldingsResponse,
)
    requires
        call_ensures(UserHoldingsResponse::new, (user_id, holdings), before),
        call_ensures(UserHoldingsResponse::new, (user_id, more), after),
        more@ == holdings@.push(one),
        before.shares_owned + one.qty < u64::MAX,
        before.reserved_shares + one.reserved_shares < u64::MAX,
        before.free_shares + one.free_shares < u64::MAX,
        i64::MIN <= before.market_value_cents + one.market_value_cents <= i64::MAX,
    ensures
        after.user_id == user_id,
        after.shares_owned == before.shares_owned + one.qty,
        after.reserved_shares == before.reserved_shares + one.reserved_shares,
        after.free_shares == before.free_shares + one.free_shares,
        after.market_value_cents == before.market_value_cents + one.market_value_cents,
        holdings@.len() == 0 ==> before.shares_owned == 0 && before.reserved_shares == 0 && before.free_shares == 0
            && before.market_value_cents == 0,
{
    let qty = |h: HoldingDto| h.qty as int;
    let reserved = |h: HoldingDto| h.reserved_shares as int;
    let free = |h: HoldingDto| h.free_shares as int;
    let value = |h: HoldingDto| h.market_value_cents as int;
    assert(more@.map_values(qty) =~= holdings@.map_values(qty).push(one.qty as int));
    assert(more@.map_values(reserved) =~= holdings@.map_values(reserved).push(one.reserved_shares as int));
    assert(more@.map_values(free) =~= holdings@.map_values(free).push(one.free_shares as int));
    assert(more@.map_values(value) =~= holdings@.map_values(value).push(one.market_value_cents as int));
    lemma_sum_push(holdings@.map_values(qty), one.qty as int);
    lemma_sum_push(holdings@.map_values(reserved), one.reserved_shares as int);
    lemma_sum_push(holdings@.map_values(free), one.free_shares as int);
    lemma_sum_push(holdings@.map_values(value), one.market_value_cents as int);
    lemma_sum_of_none_is_negative(holdings@.map_values(qty));
    lemma_sum_of_none_is_negative(holdings@.map_values(reserved));
    lemma_sum_of_none_is_negative(holdings@.map_values(free));
}

/// Numbers that are not negative do not add up to less than nothing.
pub proof fn lemma_sum_of_none_is_negative(numbers: Seq<int>)
    requires
        forall|i: int| 0 <= i < numbers.len() ==> numbers[i] >= 0,
    ensures
        sum_of(numbers) >= 0,
    decreases numbers.len(),
{
    if numbers.len() > 0 {
        assert(numbers.last() >= 0);
        lemma_sum_of_none_is_negative(numbers.drop_last());
    }
}

/// A fill touches one position of its trader and nothing else the trader has:
/// every other symbol, and all that is promised, stay as they were. The fill
/// is the newest of its fills, under a number of its own.
pub proof fn law_a_fill_touches_one_position(
    before: Trader,
    after: Trader,
    symbol: Seq<char>,
    trade: Trade,
    liquidity: Liquidity,
    fee_cents: i64,
    position: Position,
    record: FillRecord,
    other: Seq<char>,
)
    requires
        before.wf(),
        after.wf(),
        after.booked(&before, symbol, trade, liquidity, fee_cents, position, record),
    ensures
        other != symbol ==> after.held(other) == before.held(other) && after.positions.map().contains_key(other)
            == before.positions.map().contains_key(other) && after.positions.map()[other]
            == before.positions.map()[other],
        after.held(symbol) == position.shares() || position.blank(),
        after.promised(other) == before.promised(other),
        after.promised(symbol) == before.promised(symbol),
        after.id == before.id,
        after.account_id == before.account_id,
        record.id == before.next_fill_id,
        after.next_fill_id == before.next_fill_id + 1,
        before.keeps() >= 1 ==> after.fills@.len() > 0 && after.fills@.last() == record,
{
}

/// An order that an account may not pay for is refused for just that.
pub proof fn law_a_money_refusal_is_kept_as_the_cause(e: MoneyError, r: Refused)
    requires
        call_ensures(<Refused as From<MoneyError>>::from, (e,), r),
    ensures
        r == Refused::Account(e),
{
}

} // verus!
