//! What the market shows of itself: a trader's portfolio, a user's holdings,
//! where a symbol's shares are, and where the currency sits.

use vstd::prelude::*;

use crate::account::{Account, AccountDto, AccountId, User, UserDto, UserId};
use crate::api::{ApiError, Caller};
use crate::jobs::{lemma_filter_take, lemma_filtered};
use crate::ledger::{LedgerView, Wallet, WalletKind, WalletStatus};
use crate::market::{Directory, Market};
use crate::num::{clamp_i64, clamp_u64, clamp_usize, count_add, sat_add, usat_add};
use crate::orders::law_a_traders_orders_are_its_own;
use crate::table::{text_before, Key, Table};
use crate::text::{copy_text, decimal, opt_text, same_text};
use crate::trading::{
    lemma_sum_push, same_record, sat_sum_of, sum_of, FillRecord, HolderDto, HoldingDto, OpenOrderDto, OrderRecord,
    OrderStatus, Owner, PortfolioDto, Position, PositionDto, Resting, StopOrder, Trader, TraderId, TraderSummary,
    UserHoldingsResponse,
};

verus! {

// ---------------------------------------------------------------------------
// Symbols as records see them

/// A symbol as a trader's records see it: what it is worth, and what the
/// trader has resting and armed on it.
#[derive(Debug)]
pub struct SymbolView {
    pub symbol: String,
    /// The reference price, which positions are marked to.
    pub mark_cents: i64,
    /// Every trader's resting orders.
    pub open_orders: Vec<OpenOrderDto>,
    /// Every trader's stops.
    pub stops: Vec<StopOrder>,
}

/// The orders that belong to traders.
pub open spec fn traders_own(orders: Seq<Resting>) -> Seq<Resting> {
    orders.filter(|o: Resting| o.owner is Trader)
}

/// The list shows these orders, one by one.
pub open spec fn shows_all(shown: Seq<OpenOrderDto>, symbol: Seq<char>, orders: Seq<Resting>) -> bool {
    &&& shown.len() == orders.len()
    &&& forall|i: int| 0 <= i < shown.len() ==> (#[trigger] shown[i]).shows(symbol, orders[i])
}

impl SymbolView {
    /// What the records see of a symbol with this book.
    pub fn of(symbol: &str, mark_cents: i64, orders: &Vec<Resting>, stops: Vec<StopOrder>) -> (view: Self)
        ensures
            view.symbol@ == symbol@,
            view.mark_cents == mark_cents,
            shows_all(view.open_orders@, symbol@, traders_own(orders@)),
            view.stops == stops,
    {
        let mut open_orders: Vec<OpenOrderDto> = Vec::new();
        let ghost theirs = |o: Resting| o.owner is Trader;
        let mut i: usize = 0;
        proof {
            assert(orders@.take(0).filter(theirs) =~= Seq::<Resting>::empty()) by {
                reveal(Seq::filter);
            }
        }
        while i < orders.len()
            invariant
                i <= orders.len(),
                theirs == (|o: Resting| o.owner is Trader),
                shows_all(open_orders@, symbol@, orders@.take(i as int).filter(theirs)),
            decreases orders.len() - i,
        {
            let order = &orders[i];
            let ghost shown = open_orders@;
            if order.owner.trader().is_some() {
                open_orders.push(OpenOrderDto::from_resting(symbol, order));
            }
            proof {
                lemma_filter_take(orders@, theirs, i as int);
                let kept = orders@.take(i as int + 1).filter(theirs);
                assert forall|j: int| 0 <= j < open_orders@.len() implies (#[trigger] open_orders@[j]).shows(
                    symbol@,
                    kept[j],
                ) by {
                    if j < shown.len() {
                        assert(shown[j].shows(symbol@, orders@.take(i as int).filter(theirs)[j]));
                    }
                }
            }
            i = i + 1;
        }
        proof {
            assert(orders@.take(orders@.len() as int) =~= orders@);
        }
        SymbolView { symbol: symbol.to_owned(), mark_cents, open_orders, stops }
    }
}

/// What one trader has resting in the first `n` symbols.
pub open spec fn open_orders_in(views: Seq<SymbolView>, n: int, trader: u64) -> Seq<OpenOrderDto>
    decreases n,
{
    if n <= 0 {
        Seq::empty()
    } else {
        open_orders_in(views, n - 1, trader) + views[n - 1].open_orders@.filter(
            |o: OpenOrderDto| o.trader_id == trader,
        )
    }
}

/// The stops one trader holds in the first `n` symbols.
pub open spec fn stops_in(views: Seq<SymbolView>, n: int, trader: u64) -> Seq<StopOrder>
    decreases n,
{
    if n <= 0 {
        Seq::empty()
    } else {
        stops_in(views, n - 1, trader) + views[n - 1].stops@.filter(|s: StopOrder| s.trader_id == trader)
    }
}

/// One trader's orders among these.
pub fn orders_of_trader(orders: &Vec<OpenOrderDto>, trader: TraderId) -> (found: Vec<OpenOrderDto>)
    ensures
        found@ == orders@.filter(|o: OpenOrderDto| o.trader_id == trader.0),
{
    let mut found: Vec<OpenOrderDto> = Vec::new();
    let ghost theirs = |o: OpenOrderDto| o.trader_id == trader.0;
    let mut i: usize = 0;
    proof {
        assert(orders@.take(0).filter(theirs) =~= Seq::<OpenOrderDto>::empty()) by {
            reveal(Seq::filter);
        }
    }
    while i < orders.len()
        invariant
            i <= orders.len(),
            theirs == (|o: OpenOrderDto| o.trader_id == trader.0),
            found@ == orders@.take(i as int).filter(theirs),
        decreases orders.len() - i,
    {
        if orders[i].trader_id == trader.0 {
            found.push(orders[i].clone());
        }
        proof {
            lemma_filter_take(orders@, theirs, i as int);
        }
        i = i + 1;
    }
    proof {
        assert(orders@.take(orders@.len() as int) =~= orders@);
    }
    found
}

/// One trader's stops among these. Stops are private: they say what a trader
/// intends to do, which is nobody else's business.
pub fn stops_of_trader(stops: &Vec<StopOrder>, trader: TraderId) -> (found: Vec<StopOrder>)
    ensures
        found@ == stops@.filter(|s: StopOrder| s.trader_id == trader.0),
{
    let mut found: Vec<StopOrder> = Vec::new();
    let ghost theirs = |s: StopOrder| s.trader_id == trader.0;
    let mut i: usize = 0;
    proof {
        assert(stops@.take(0).filter(theirs) =~= Seq::<StopOrder>::empty()) by {
            reveal(Seq::filter);
        }
    }
    while i < stops.len()
        invariant
            i <= stops.len(),
            theirs == (|s: StopOrder| s.trader_id == trader.0),
            found@ == stops@.take(i as int).filter(theirs),
        decreases stops.len() - i,
    {
        if stops[i].trader_id == trader.0 {
            found.push(stops[i].clone());
        }
        proof {
            lemma_filter_take(stops@, theirs, i as int);
        }
        i = i + 1;
    }
    proof {
        assert(stops@.take(stops@.len() as int) =~= stops@);
    }
    found
}

/// Everything a trader has resting, symbol by symbol.
pub fn open_orders_of(views: &Vec<SymbolView>, trader: TraderId) -> (found: Vec<OpenOrderDto>)
    ensures
        found@ == open_orders_in(views@, views@.len() as int, trader.0),
{
    let mut found: Vec<OpenOrderDto> = Vec::new();
    let mut i: usize = 0;
    while i < views.len()
        invariant
            i <= views.len(),
            found@ == open_orders_in(views@, i as int, trader.0),
        decreases views.len() - i,
    {
        let mut theirs = orders_of_trader(&views[i].open_orders, trader);
        found.append(&mut theirs);
        i = i + 1;
    }
    found
}

/// Every stop a trader holds, symbol by symbol, oldest first within each.
pub fn stops_of(views: &Vec<SymbolView>, trader: TraderId) -> (found: Vec<StopOrder>)
    ensures
        found@ == stops_in(views@, views@.len() as int, trader.0),
{
    let mut found: Vec<StopOrder> = Vec::new();
    let mut i: usize = 0;
    while i < views.len()
        invariant
            i <= views.len(),
            found@ == stops_in(views@, i as int, trader.0),
        decreases views.len() - i,
    {
        let mut theirs = stops_of_trader(&views[i].stops, trader);
        found.append(&mut theirs);
        i = i + 1;
    }
    found
}

/// What the first symbol by this name among the first views is marked at, and
/// zero where there is none.
pub open spec fn mark_in(views: Seq<SymbolView>, symbol: Seq<char>) -> i64
    decreases views.len(),
{
    if views.len() == 0 {
        0
    } else if views[0].symbol@ == symbol {
        views[0].mark_cents
    } else {
        mark_in(views.skip(1), symbol)
    }
}

/// The price a symbol is marked at, and zero where it is not listed.
pub fn mark_of(views: &Vec<SymbolView>, symbol: &str) -> (cents: i64)
    ensures
        cents == mark_in(views@, symbol@),
{
    let mut i: usize = 0;
    proof {
        assert(views@.skip(0) =~= views@);
    }
    while i < views.len()
        invariant
            i <= views.len(),
            mark_in(views@, symbol@) == mark_in(views@.skip(i as int), symbol@),
        decreases views.len() - i,
    {
        proof {
            assert(views@.skip(i as int)[0] == views@[i as int]);
            assert(views@.skip(i as int).skip(1) =~= views@.skip(i as int + 1));
        }
        if same_text(views[i].symbol.as_str(), symbol) {
            return views[i].mark_cents;
        }
        i = i + 1;
    }
    0
}

// ---------------------------------------------------------------------------
// What a user owns

/// What one user's traders among the first `n` hold of a symbol, added up.
pub struct Stake {
    pub qty: u64,
    pub reserved: u64,
    pub cost: i64,
    pub realised: i64,
    pub traders: Seq<u64>,
}

/// A trader of `user`'s that has a position in `symbol`.
pub open spec fn holds_for(trader: Trader, user: UserId, symbol: Seq<char>) -> bool {
    trader.user_id == user && trader.positions.map().contains_key(symbol)
}

/// What one user's traders among the first `n` hold of a symbol, added up one
/// by one and stopping at the ends of the range.
pub open spec fn stake_in(traders: Seq<Trader>, n: int, user: UserId, symbol: Seq<char>) -> Stake
    decreases n,
{
    if n <= 0 {
        Stake { qty: 0, reserved: 0, cost: 0, realised: 0, traders: Seq::empty() }
    } else {
        let before = stake_in(traders, n - 1, user, symbol);
        let trader = traders[n - 1];
        if !holds_for(trader, user, symbol) {
            before
        } else {
            let position = trader.positions.map()[symbol];
            Stake {
                qty: clamp_u64(before.qty + trader.held(symbol)),
                reserved: clamp_u64(before.reserved + (trader.held(symbol) - trader.free(symbol))),
                cost: clamp_i64(before.cost + position.cost_cents),
                realised: clamp_i64(before.realised + position.realised_pnl_cents),
                traders: before.traders.push(trader.id.0),
            }
        }
    }
}

impl HoldingDto {
    /// The holding is this stake, not yet valued.
    pub open spec fn adds_up(self, stake: Stake) -> bool {
        &&& self.qty == stake.qty
        &&& self.reserved_shares == stake.reserved
        &&& self.free_shares == 0
        &&& self.cost_cents == stake.cost
        &&& self.mark_cents == 0
        &&& self.market_value_cents == 0
        &&& self.unrealised_pnl_cents == 0
        &&& self.realised_pnl_cents == stake.realised
        &&& self.traders@ == stake.traders
    }

    /// The holding is this stake valued at `mark_cents`.
    pub open spec fn values(self, stake: Stake, mark_cents: i64) -> bool {
        let value = clamp_i64(mark_cents * stake.qty);
        &&& self.qty == stake.qty
        &&& self.reserved_shares == stake.reserved
        &&& self.free_shares == if stake.qty >= stake.reserved {
            stake.qty - stake.reserved
        } else {
            0
        }
        &&& self.cost_cents == stake.cost
        &&& self.mark_cents == mark_cents
        &&& self.market_value_cents == value
        &&& self.unrealised_pnl_cents == clamp_i64(value - stake.cost)
        &&& self.realised_pnl_cents == stake.realised
        &&& self.traders@ == stake.traders
    }
}

/// One of the first `n` traders has a position in `symbol` for `user`.
pub open spec fn somebody_holds(traders: Seq<Trader>, n: int, user: UserId, symbol: Seq<char>) -> bool {
    exists|i: int| 0 <= i < n && holds_for(#[trigger] traders[i], user, symbol)
}

/// These are the holdings of `user`, one for each symbol that a trader of
/// theirs has a position in, by ticker.
pub open spec fn is_holdings(holdings: Seq<HoldingDto>, traders: Seq<Trader>, user: UserId, views: Seq<SymbolView>) -> bool {
    &&& forall|i: int, j: int|
        0 <= i < j < holdings.len() ==> text_before(
            (#[trigger] holdings[i]).symbol@,
            (#[trigger] holdings[j]).symbol@,
        )
    &&& forall|i: int|
        0 <= i < holdings.len() ==> somebody_holds(
            traders,
            traders.len() as int,
            user,
            (#[trigger] holdings[i]).symbol@,
        ) && holdings[i].values(
            stake_in(traders, traders.len() as int, user, holdings[i].symbol@),
            mark_in(views, holdings[i].symbol@),
        )
    &&& forall|symbol: Seq<char>| #[trigger]
        somebody_holds(traders, traders.len() as int, user, symbol) ==> exists|i: int|
            0 <= i < holdings.len() && (#[trigger] holdings[i]).symbol@ == symbol
}

impl Market {
    /// Every trader stands well by itself.
    proof fn lemma_traders_wf(&self, i: int)
        requires
            self.wf(),
            0 <= i < self.traders.vals().len(),
        ensures
            self.traders.vals()[i].wf(),
    {
        self.traders.lemma_at(i);
        assert(self.traders.map().contains_key(self.traders.keys()[i]));
        assert(self.trader_wf(self.traders.keys()[i]));
    }

    /// The symbols that a user's traders have positions in.
    fn symbols_held(&self, user: UserId) -> (symbols: Table<String, ()>)
        requires
            self.wf(),
        ensures
            symbols.wf(),
            forall|symbol: Seq<char>| #[trigger]
                symbols.map().contains_key(symbol) == somebody_holds(
                    self.traders.vals(),
                    self.traders.vals().len() as int,
                    user,
                    symbol,
                ),
    {
        let ghost traders = self.traders.vals();
        let mut symbols: Table<String, ()> = Table::new();
        let n: usize = self.traders.len();
        let mut i: usize = 0;
        while i < n
            invariant
                self.wf(),
                traders == self.traders.vals(),
                n == traders.len(),
                n == self.traders.keys().len(),
                i <= n,
                symbols.wf(),
                forall|symbol: Seq<char>| #[trigger]
                    symbols.map().contains_key(symbol) == somebody_holds(traders, i as int, user, symbol),
            decreases n - i,
        {
            let trader = self.traders.val_at(i);
            let ghost before = symbols.map();
            proof {
                self.lemma_traders_wf(i as int);
            }
            if trader.user_id == user {
                let m: usize = trader.positions.len();
                let mut k: usize = 0;
                while k < m
                    invariant
                        trader.wf(),
                        m == trader.positions.keys().len(),
                        k <= m,
                        symbols.wf(),
                        forall|symbol: Seq<char>| #[trigger]
                            symbols.map().contains_key(symbol) == (before.contains_key(symbol) || exists|j: int|
                                0 <= j < k && #[trigger] trader.positions.keys()[j] == symbol),
                    decreases m - k,
                {
                    let symbol = trader.positions.key_at(k);
                    let ghost earlier = symbols.map();
                    symbols.insert(symbol.clone(), ());
                    proof {
                        assert forall|name: Seq<char>| #[trigger] symbols.map().contains_key(name) == (
                        before.contains_key(name) || exists|j: int|
                            0 <= j < k + 1 && #[trigger] trader.positions.keys()[j] == name) by {
                            assert(earlier.contains_key(name) == (before.contains_key(name) || exists|j: int|
                                0 <= j < k && #[trigger] trader.positions.keys()[j] == name));
                            assert(trader.positions.keys()[k as int] == symbol@);
                        }
                    }
                    k = k + 1;
                }
            }
            proof {
                assert forall|symbol: Seq<char>| #[trigger] symbols.map().contains_key(symbol) == somebody_holds(
                    traders,
                    i as int + 1,
                    user,
                    symbol,
                ) by {
                    assert(before.contains_key(symbol) == somebody_holds(traders, i as int, user, symbol));
                    if somebody_holds(traders, i as int, user, symbol) {
                        let j = choose|j: int| 0 <= j < i && holds_for(#[trigger] traders[j], user, symbol);
                        assert(holds_for(traders[j], user, symbol));
                    }
                    if trader.positions.map().contains_key(symbol) {
                        trader.positions.lemma_placed(symbol);
                        let place = trader.positions.place(symbol);
                        assert(trader.positions.keys()[place] == symbol);
                    }
                    if trader.user_id == user && exists|j: int|
                        0 <= j < trader.positions.keys().len() && #[trigger] trader.positions.keys()[j] == symbol {
                        let j = choose|j: int|
                            0 <= j < trader.positions.keys().len() && #[trigger] trader.positions.keys()[j] == symbol;
                        trader.positions.lemma_at(j);
                        assert(holds_for(traders[i as int], user, symbol));
                    }
                }
            }
            i = i + 1;
        }
        symbols
    }

    /// What a user's traders hold of one symbol.
    fn holding(&self, user: UserId, symbol: &str) -> (holding: HoldingDto)
        requires
            self.wf(),
        ensures
            holding.symbol@ == symbol@,
            holding.adds_up(stake_in(self.traders.vals(), self.traders.vals().len() as int, user, symbol@)),
    {
        let ghost traders = self.traders.vals();
        let mut holding = HoldingDto::empty(symbol);
        let n: usize = self.traders.len();
        let mut i: usize = 0;
        while i < n
            invariant
                self.wf(),
                traders == self.traders.vals(),
                n == traders.len(),
                n == self.traders.keys().len(),
                i <= n,
                holding.symbol@ == symbol@,
                holding.adds_up(stake_in(traders, i as int, user, symbol@)),
            decreases n - i,
        {
            let trader = self.traders.val_at(i);
            proof {
                self.lemma_traders_wf(i as int);
            }
            if trader.user_id == user {
                holding.add(trader);
            }
            i = i + 1;
        }
        holding
    }

    /// What `user` owns, one entry per symbol, added up across every trader
    /// of theirs and marked to `views`. Ordered by ticker.
    pub fn user_holdings(&self, user: UserId, views: &Vec<SymbolView>) -> (holdings: Vec<HoldingDto>)
        requires
            self.wf(),
        ensures
            is_holdings(holdings@, self.traders.vals(), user, views@),
    {
        let ghost traders = self.traders.vals();
        let symbols = self.symbols_held(user);
        let mut holdings: Vec<HoldingDto> = Vec::new();
        let n: usize = symbols.len();
        let mut i: usize = 0;
        while i < n
            invariant
                self.wf(),
                traders == self.traders.vals(),
                symbols.wf(),
                n == symbols.keys().len(),
                i <= n,
                forall|symbol: Seq<char>| #[trigger]
                    symbols.map().contains_key(symbol) == somebody_holds(traders, traders.len() as int, user, symbol),
                holdings@.len() == i,
                forall|j: int|
                    0 <= j < i ==> (#[trigger] holdings@[j]).symbol@ == symbols.keys()[j] && holdings@[j].values(
                        stake_in(traders, traders.len() as int, user, symbols.keys()[j]),
                        mark_in(views@, symbols.keys()[j]),
                    ),
            decreases n - i,
        {
            let symbol = symbols.key_at(i);
            let mut holding = self.holding(user, symbol.as_str());
            let mark: i64 = mark_of(views, symbol.as_str());
            holding.mark(mark);
            holdings.push(holding);
            i = i + 1;
        }
        proof {
            assert forall|a: int, b: int| 0 <= a < b < holdings@.len() implies text_before(
                (#[trigger] holdings@[a]).symbol@,
                (#[trigger] holdings@[b]).symbol@,
            ) by {
                assert(String::before(symbols.keys()[a], symbols.keys()[b]));
            }
            assert forall|a: int| 0 <= a < holdings@.len() implies somebody_holds(
                traders,
                traders.len() as int,
                user,
                (#[trigger] holdings@[a]).symbol@,
            ) by {
                symbols.lemma_at(a);
                assert(symbols.map().contains_key(symbols.keys()[a]));
            }
            assert forall|symbol: Seq<char>| #[trigger]
                somebody_holds(traders, traders.len() as int, user, symbol) implies exists|a: int|
                0 <= a < holdings@.len() && (#[trigger] holdings@[a]).symbol@ == symbol by {
                assert(symbols.map().contains_key(symbol));
                symbols.lemma_placed(symbol);
                assert(holdings@[symbols.place(symbol)].symbol@ == symbol);
            }
        }
        holdings
    }
}

// ---------------------------------------------------------------------------
// Traders as their owners see them

/// What a position is worth, as the exchange values it.
#[derive(Clone, Copy, Debug, PartialEq, Eq, Structural)]
pub struct Valuation {
    /// The reference price it was valued at.
    pub mark_cents: i64,
    pub market_value_cents: i64,
    pub unrealised_pnl_cents: i64,
}

/// The ids of one user's traders.
pub open spec fn traders_of(traders: Seq<Trader>, user: UserId) -> Seq<u64> {
    traders.filter(|t: Trader| t.user_id == user).map_values(|t: Trader| t.id.0)
}

/// The row shows a trader's position at a place.
pub open spec fn shows_position(row: PositionDto, trader: Trader, i: int, value: Valuation) -> bool {
    let symbol = trader.positions.keys()[i];
    let position = trader.positions.vals()[i];
    &&& row.symbol@ == symbol
    &&& row.qty == position.qty
    &&& row.cost_cents == position.cost_cents
    &&& row.mark_cents == value.mark_cents
    &&& row.market_value_cents == value.market_value_cents
    &&& row.unrealised_pnl_cents == value.unrealised_pnl_cents
    &&& row.realised_pnl_cents == position.realised_pnl_cents
    &&& row.reserved_shares == trader.promised(symbol)
    &&& row.free_shares == trader.free(symbol)
}

/// The market values, added up.
pub open spec fn worth(values: Seq<Valuation>) -> i64 {
    sat_sum_of(values.map_values(|v: Valuation| v.market_value_cents as int))
}

/// The portfolio is what its owner sees of a trader.
pub open spec fn shows_portfolio(
    dto: PortfolioDto,
    trader: Trader,
    account: Account,
    ledger: &LedgerView,
    values: Seq<Valuation>,
    views: Seq<SymbolView>,
) -> bool {
    &&& dto.id == trader.id.0
    &&& dto.user_id == trader.user_id.0
    &&& dto.account_id == trader.account_id.0
    &&& dto.name@ == trader.name@
    &&& dto.created_at_ms == trader.created_at_ms
    &&& dto.account_status == ledger.status_of(account.wallet)
    &&& dto.cash_cents == ledger.balance_of(account.wallet)
    &&& dto.reserved_cents == ledger.reserved_of(account.wallet)
    &&& dto.free_cash_cents == ledger.available_of(account.wallet)
    &&& dto.equity_cents == clamp_i64(ledger.balance_of(account.wallet) + worth(values))
    &&& dto.realised_pnl_cents == sat_sum_of(
        trader.positions.vals().map_values(|p: Position| p.realised_pnl_cents as int),
    )
    &&& dto.unrealised_pnl_cents == sat_sum_of(values.map_values(|v: Valuation| v.unrealised_pnl_cents as int))
    &&& dto.positions@.len() == trader.positions.keys().len()
    &&& forall|i: int|
        0 <= i < dto.positions@.len() ==> shows_position(#[trigger] dto.positions@[i], trader, i, values[i])
    &&& dto.open_orders@ == open_orders_in(views, views.len() as int, trader.id.0)
    &&& dto.stops@ == stops_in(views, views.len() as int, trader.id.0)
    &&& dto.fills@ == trader.fills@.reverse()
    &&& dto.api_key is None
}

/// A trader's positions, and what they made and are worth in all.
struct Marked {
    rows: Vec<PositionDto>,
    value: i64,
    unrealised: i64,
    realised: i64,
}

/// Value every position of a trader.
fn mark_positions(trader: &Trader, values: &Vec<Valuation>) -> (marked: Marked)
    requires
        trader.wf(),
        values@.len() == trader.positions.keys().len(),
    ensures
        marked.rows@.len() == values@.len(),
        forall|i: int|
            0 <= i < marked.rows@.len() ==> shows_position(#[trigger] marked.rows@[i], *trader, i, values@[i]),
        marked.value == worth(values@),
        marked.unrealised == sat_sum_of(values@.map_values(|v: Valuation| v.unrealised_pnl_cents as int)),
        marked.realised == sat_sum_of(
            trader.positions.vals().map_values(|p: Position| p.realised_pnl_cents as int),
        ),
{
    let ghost positions = trader.positions.vals();
    let ghost f1 = |v: Valuation| v.market_value_cents as int;
    let ghost f2 = |v: Valuation| v.unrealised_pnl_cents as int;
    let ghost f3 = |p: Position| p.realised_pnl_cents as int;
    let mut rows: Vec<PositionDto> = Vec::new();
    let mut value: i64 = 0;
    let mut unrealised: i64 = 0;
    let mut realised: i64 = 0;
    let mut i: usize = 0;
    while i < values.len()
        invariant
            trader.wf(),
            values@.len() == trader.positions.keys().len(),
            positions == trader.positions.vals(),
            positions.len() == values@.len(),
            f1 == (|v: Valuation| v.market_value_cents as int),
            f2 == (|v: Valuation| v.unrealised_pnl_cents as int),
            f3 == (|p: Position| p.realised_pnl_cents as int),
            i <= values.len(),
            rows@.len() == i,
            forall|j: int| 0 <= j < i ==> shows_position(#[trigger] rows@[j], *trader, j, values@[j]),
            value == sat_sum_of(values@.take(i as int).map_values(f1)),
            unrealised == sat_sum_of(values@.take(i as int).map_values(f2)),
            realised == sat_sum_of(positions.take(i as int).map_values(f3)),
        decreases values.len() - i,
    {
        let symbol = trader.positions.key_at(i);
        let position = trader.positions.val_at(i);
        let v = values[i];
        proof {
            let (shorter, longer) = (values@.take(i as int), values@.take(i as int + 1));
            assert(longer.map_values(f1) =~= shorter.map_values(f1).push(v.market_value_cents as int));
            assert(longer.map_values(f2) =~= shorter.map_values(f2).push(v.unrealised_pnl_cents as int));
            lemma_sum_push(shorter.map_values(f1), v.market_value_cents as int);
            lemma_sum_push(shorter.map_values(f2), v.unrealised_pnl_cents as int);
            let held = positions.take(i as int);
            assert(positions.take(i as int + 1).map_values(f3) =~= held.map_values(f3).push(
                position.realised_pnl_cents as int,
            ));
            lemma_sum_push(held.map_values(f3), position.realised_pnl_cents as int);
        }
        value = sat_add(value, v.market_value_cents);
        unrealised = sat_add(unrealised, v.unrealised_pnl_cents);
        realised = sat_add(realised, position.realised_pnl_cents);
        rows.push(
            PositionDto {
                symbol: symbol.clone(),
                qty: position.qty,
                cost_cents: position.cost_cents,
                mark_cents: v.mark_cents,
                market_value_cents: v.market_value_cents,
                unrealised_pnl_cents: v.unrealised_pnl_cents,
                realised_pnl_cents: position.realised_pnl_cents,
                reserved_shares: trader.promised_shares(symbol.as_str()),
                free_shares: trader.free_shares(symbol.as_str()),
            },
        );
        i = i + 1;
    }
    proof {
        assert(values@.take(values@.len() as int) =~= values@);
        assert(positions.take(positions.len() as int) =~= positions);
    }
    Marked { rows, value, unrealised, realised }
}

/// A trader's fills, newest first.
fn newest_fills(trader: &Trader) -> (fills: Vec<FillRecord>)
    ensures
        fills@ == trader.fills@.reverse(),
{
    let mut fills: Vec<FillRecord> = Vec::new();
    let n: usize = trader.fills.len();
    let mut i: usize = 0;
    while i < n
        invariant
            n == trader.fills@.len(),
            i <= n,
            fills@.len() == i,
            forall|j: int| 0 <= j < i ==> #[trigger] fills@[j] == trader.fills@[n - 1 - j],
        decreases n - i,
    {
        fills.push(trader.fills[n - 1 - i].clone());
        i = i + 1;
    }
    proof {
        assert(fills@ =~= trader.fills@.reverse());
    }
    fills
}

impl Market {
    /// What a trader's owner sees of it. `values` says what each of its
    /// positions is worth, in order of their tickers.
    pub fn portfolio(&self, ledger: &LedgerView, id: TraderId, values: &Vec<Valuation>, views: &Vec<SymbolView>) -> (r:
        Result<PortfolioDto, ApiError>)
        requires
            self.wf(),
            ledger.wf(),
            self.traders.map().contains_key(id.0) ==> values@.len() == self.traders.map()[id.0].positions.keys().len(),
        ensures
            match r {
                Ok(dto) => self.traders.map().contains_key(id.0) && self.account_behind(id) is Some && shows_portfolio(
                    dto,
                    self.traders.map()[id.0],
                    self.account_behind(id)->0,
                    ledger,
                    values@,
                    views@,
                ),
                Err(e) => if !self.traders.map().contains_key(id.0) {
                    e.says(404, "unknown_trader"@, "no such trader: "@ + decimal(id.0 as nat))
                } else {
                    self.account_behind(id) is None && e.says(
                        404,
                        "unknown_account"@,
                        "no such account: "@ + decimal(self.traders.map()[id.0].account_id.0 as nat),
                    )
                },
            },
    {
        let trader = match self.traders.get(&id.0) {
            Some(trader) => trader,
            None => {
                return Err(ApiError::unknown_trader(id.0));
            },
        };
        assert(self.trader_wf(id.0));
        let account = match self.accounts.get(&trader.account_id.0) {
            Some(account) => account,
            None => {
                return Err(ApiError::unknown_account(trader.account_id.0));
            },
        };
        let marked = mark_positions(trader, values);
        Ok(
            PortfolioDto {
                id: trader.id.0,
                user_id: trader.user_id.0,
                account_id: trader.account_id.0,
                name: trader.name.clone(),
                created_at_ms: trader.created_at_ms,
                account_status: account.status(ledger),
                cash_cents: account.balance_cents(ledger),
                reserved_cents: account.reserved_cents(ledger),
                free_cash_cents: account.available_cents(ledger),
                equity_cents: sat_add(account.balance_cents(ledger), marked.value),
                realised_pnl_cents: marked.realised,
                unrealised_pnl_cents: marked.unrealised,
                positions: marked.rows,
                open_orders: open_orders_of(views, trader.id),
                stops: stops_of(views, trader.id),
                fills: newest_fills(trader),
                api_key: None,
            },
        )
    }

    /// One of the caller's traders, in a list. `values` says what each of its
    /// positions is worth, in order of their tickers.
    pub fn trader_summary(
        &self,
        ledger: &LedgerView,
        trader: &Trader,
        values: &Vec<Valuation>,
        views: &Vec<SymbolView>,
    ) -> (summary: TraderSummary)
        requires
            self.wf(),
            ledger.wf(),
            trader.wf(),
            values@.len() == trader.positions.keys().len(),
        ensures
            ({
                let held = self.accounts.map().contains_key(trader.account_id.0);
                let wallet = self.accounts.map()[trader.account_id.0].wallet;
                let cash = if held {
                    ledger.balance_of(wallet)
                } else {
                    0
                };
                &&& summary.id == trader.id.0
                &&& summary.user_id == trader.user_id.0
                &&& summary.account_id == trader.account_id.0
                &&& summary.name@ == trader.name@
                &&& summary.account_status == if held {
                    ledger.status_of(wallet)
                } else {
                    WalletStatus::Active
                }
                &&& summary.cash_cents == cash
                &&& summary.equity_cents == clamp_i64(cash + worth(values@))
                &&& summary.positions == trader.positions.keys().len()
                &&& summary.open_orders == open_orders_in(views@, views@.len() as int, trader.id.0).len()
            }),
    {
        let (cash, status): (i64, WalletStatus) = match self.accounts.get(&trader.account_id.0) {
            Some(account) => (account.balance_cents(ledger), account.status(ledger)),
            None => (0, WalletStatus::Active),
        };
        let marked = mark_positions(trader, values);
        TraderSummary {
            id: trader.id.0,
            user_id: trader.user_id.0,
            account_id: trader.account_id.0,
            name: trader.name.clone(),
            account_status: status,
            cash_cents: cash,
            equity_cents: sat_add(cash, marked.value),
            positions: trader.positions.len(),
            open_orders: open_orders_of(views, trader.id).len(),
        }
    }

    /// The ids of a user's traders, lowest first.
    pub fn traders_of(&self, user: UserId) -> (ids: Vec<u64>)
        requires
            self.wf(),
        ensures
            ids@ == traders_of(self.traders.vals(), user),
    {
        let ghost traders = self.traders.vals();
        let ghost theirs = |t: Trader| t.user_id == user;
        let ghost number = |t: Trader| t.id.0;
        let mut ids: Vec<u64> = Vec::new();
        let n: usize = self.traders.len();
        let mut i: usize = 0;
        proof {
            assert(traders.take(0).filter(theirs).map_values(number) =~= Seq::<u64>::empty()) by {
                reveal(Seq::filter);
            }
        }
        while i < n
            invariant
                self.wf(),
                traders == self.traders.vals(),
                theirs == (|t: Trader| t.user_id == user),
                number == (|t: Trader| t.id.0),
                n == traders.len(),
                n == self.traders.keys().len(),
                i <= n,
                ids@ == traders.take(i as int).filter(theirs).map_values(number),
            decreases n - i,
        {
            let trader = self.traders.val_at(i);
            if trader.user_id == user {
                ids.push(trader.id.0);
            }
            proof {
                lemma_filter_take(traders, theirs, i as int);
                assert(ids@ =~= traders.take(i as int + 1).filter(theirs).map_values(number));
            }
            i = i + 1;
        }
        proof {
            assert(traders.take(n as int) =~= traders);
        }
        ids
    }
}

// ---------------------------------------------------------------------------
// Users and accounts as their owners see them

/// The balances of the first `n` of these accounts that there are, added up.
pub open spec fn balances_in(ids: Seq<AccountId>, n: int, accounts: Map<u64, Account>, ledger: &LedgerView) -> i64
    decreases n,
{
    if n <= 0 {
        0
    } else {
        let before = balances_in(ids, n - 1, accounts, ledger);
        if accounts.contains_key(ids[n - 1].0) {
            clamp_i64(before + ledger.balance_of(accounts[ids[n - 1].0].wallet))
        } else {
            before
        }
    }
}

/// Everything these holdings are worth, and how many shares they are.
pub open spec fn holdings_total(holdings: Seq<HoldingDto>, shares: u64, cents: i64) -> bool {
    &&& shares == clamp_u64(sum_of(holdings.map_values(|h: HoldingDto| h.qty as int)))
    &&& cents == sat_sum_of(holdings.map_values(|h: HoldingDto| h.market_value_cents as int))
}

/// What a user sees of themselves.
pub open spec fn shows_user(dto: UserDto, user: User, market: &Market, ledger: &LedgerView, views: Seq<SymbolView>) -> bool {
    &&& dto.id == user.id.0
    &&& dto.name@ == user.name@
    &&& opt_text(dto.email) == opt_text(user.email)
    &&& dto.created_at_ms == user.created_at_ms
    &&& dto.accounts@ == user.accounts@.map_values(|a: AccountId| a.0)
    &&& dto.traders@ == traders_of(market.traders.vals(), user.id)
    &&& dto.balance_cents == balances_in(
        user.accounts@,
        user.accounts@.len() as int,
        market.accounts.map(),
        ledger,
    )
    &&& exists|holdings: Seq<HoldingDto>| #[trigger]
        is_holdings(holdings, market.traders.vals(), user.id, views) && holdings_total(
            holdings,
            dto.shares_owned,
            dto.holdings_value_cents,
        )
    &&& dto.api_key is None
}

impl Market {
    /// What a user sees of themselves.
    pub fn user_dto(&self, ledger: &LedgerView, id: UserId, views: &Vec<SymbolView>) -> (r: Result<UserDto, ApiError>)
        requires
            self.wf(),
            ledger.wf(),
        ensures
            match r {
                Ok(dto) => self.users.map().contains_key(id.0) && shows_user(
                    dto,
                    self.users.map()[id.0],
                    self,
                    ledger,
                    views@,
                ),
                Err(e) => !self.users.map().contains_key(id.0) && e.says(
                    404,
                    "unknown_user"@,
                    "no such user: "@ + decimal(id.0 as nat),
                ),
            },
    {
        let user = match self.users.get(&id.0) {
            Some(user) => user,
            None => {
                return Err(ApiError::unknown_user(id.0));
            },
        };
        assert(self.user_wf(id.0));
        let mut accounts: Vec<u64> = Vec::new();
        let mut balance: i64 = 0;
        let mut i: usize = 0;
        while i < user.accounts.len()
            invariant
                self.wf(),
                ledger.wf(),
                i <= user.accounts.len(),
                accounts@.len() == i,
                forall|j: int| 0 <= j < i ==> accounts@[j] == (#[trigger] user.accounts@[j]).0,
                balance == balances_in(user.accounts@, i as int, self.accounts.map(), ledger),
            decreases user.accounts.len() - i,
        {
            let account = user.accounts[i];
            accounts.push(account.0);
            match self.accounts.get(&account.0) {
                Some(held) => {
                    balance = sat_add(balance, held.balance_cents(ledger));
                },
                None => {},
            }
            i = i + 1;
        }
        proof {
            assert(accounts@ =~= user.accounts@.map_values(|a: AccountId| a.0));
        }
        let owned = UserHoldingsResponse::new(id.0, self.user_holdings(id, views));
        proof {
            assert(is_holdings(owned.holdings@, self.traders.vals(), user.id, views@));
            assert(holdings_total(owned.holdings@, owned.shares_owned, owned.market_value_cents));
        }
        Ok(
            UserDto {
                id: user.id.0,
                name: user.name.clone(),
                email: copy_text(&user.email),
                created_at_ms: user.created_at_ms,
                accounts,
                traders: self.traders_of(user.id),
                balance_cents: balance,
                shares_owned: owned.shares_owned,
                holdings_value_cents: owned.market_value_cents,
                api_key: None,
            },
        )
    }

    /// The trader on an account, by number: the first there is.
    pub open spec fn number_on(&self, account: AccountId, number: Option<u64>) -> bool {
        match number {
            Some(id) => exists|i: int| #[trigger] self.first_on(i, account) && id == self.traders.vals()[i].id.0,
            None => forall|i: int|
                0 <= i < self.traders.vals().len() ==> (#[trigger] self.traders.vals()[i]).account_id != account,
        }
    }

    /// An account as its owner sees it.
    pub fn account_view(&self, ledger: &LedgerView, account: &Account) -> (dto: AccountDto)
        requires
            self.wf(),
            ledger.wf(),
        ensures
            dto == AccountDto::shown(account, ledger, dto.trader_id),
            self.number_on(account.id, dto.trader_id),
    {
        let trader_id: Option<u64> = match self.trader_on(account.id) {
            Some(trader) => Some(trader.id.0),
            None => None,
        };
        AccountDto::new(account, ledger, trader_id)
    }

    /// An account as its owner sees it, by id.
    pub fn account_dto(&self, ledger: &LedgerView, id: AccountId) -> (r: Result<AccountDto, ApiError>)
        requires
            self.wf(),
            ledger.wf(),
        ensures
            match r {
                Ok(dto) => self.accounts.map().contains_key(id.0) && dto == AccountDto::shown(
                    &self.accounts.map()[id.0],
                    ledger,
                    dto.trader_id,
                ) && self.number_on(id, dto.trader_id),
                Err(e) => !self.accounts.map().contains_key(id.0) && e.says(
                    404,
                    "unknown_account"@,
                    "no such account: "@ + decimal(id.0 as nat),
                ),
            },
    {
        match self.accounts.get(&id.0) {
            Some(account) => {
                assert(self.account_wf(id.0));
                Ok(self.account_view(ledger, account))
            },
            None => Err(ApiError::unknown_account(id.0)),
        }
    }

    /// The accounts of a user, each as it is shown.
    pub open spec fn shows_accounts(&self, accounts: Seq<AccountDto>, ledger: &LedgerView, user: UserId) -> bool {
        let theirs = self.accounts.vals().filter(|a: Account| a.user_id == user);
        &&& accounts.len() == theirs.len()
        &&& forall|i: int|
            0 <= i < accounts.len() ==> (#[trigger] accounts[i]) == AccountDto::shown(
                &theirs[i],
                ledger,
                accounts[i].trader_id,
            ) && self.number_on(theirs[i].id, accounts[i].trader_id)
    }

    /// A user's accounts as they see them, by id.
    pub fn accounts_of(&self, ledger: &LedgerView, user: UserId) -> (accounts: Vec<AccountDto>)
        requires
            self.wf(),
            ledger.wf(),
        ensures
            self.shows_accounts(accounts@, ledger, user),
    {
        let ghost all = self.accounts.vals();
        let ghost own = |a: Account| a.user_id == user;
        let mut accounts: Vec<AccountDto> = Vec::new();
        let n: usize = self.accounts.len();
        let mut i: usize = 0;
        proof {
            assert(all.take(0).filter(own) =~= Seq::<Account>::empty()) by {
                reveal(Seq::filter);
            }
        }
        while i < n
            invariant
                self.wf(),
                ledger.wf(),
                all == self.accounts.vals(),
                own == (|a: Account| a.user_id == user),
                n == all.len(),
                n == self.accounts.keys().len(),
                i <= n,
                accounts@.len() == all.take(i as int).filter(own).len(),
                forall|j: int|
                    0 <= j < accounts@.len() ==> (#[trigger] accounts@[j]) == AccountDto::shown(
                        &all.take(i as int).filter(own)[j],
                        ledger,
                        accounts@[j].trader_id,
                    ) && self.number_on(all.take(i as int).filter(own)[j].id, accounts@[j].trader_id),
            decreases n - i,
        {
            let account = self.accounts.val_at(i);
            let ghost before = accounts@;
            if account.user_id == user {
                accounts.push(self.account_view(ledger, account));
            }
            proof {
                lemma_filter_take(all, own, i as int);
                let kept = all.take(i as int + 1).filter(own);
                assert forall|j: int| 0 <= j < accounts@.len() implies (#[trigger] accounts@[j]) == AccountDto::shown(
                    &kept[j],
                    ledger,
                    accounts@[j].trader_id,
                ) && self.number_on(kept[j].id, accounts@[j].trader_id) by {
                    if j < before.len() {
                        assert(before[j] == accounts@[j]);
                    }
                }
            }
            i = i + 1;
        }
        proof {
            assert(all.take(n as int) =~= all);
        }
        accounts
    }

    /// The newest orders of a trader that stand as asked for, as many as asked
    /// for.
    pub open spec fn shows_history(
        &self,
        found: Seq<OrderRecord>,
        trader: TraderId,
        status: Option<OrderStatus>,
        limit: usize,
    ) -> bool {
        let log = self.orders.log();
        let ids = log.ids_of(trader.0).filter(|id: u64| stands(log.orders[id], status));
        &&& found.len() == if ids.len() < limit {
            ids.len()
        } else {
            limit as nat
        }
        &&& forall|i: int| 0 <= i < found.len() ==> same_record(#[trigger] found[i], log.orders[ids[i]])
    }

    /// A trader's orders that stand as `status` says, newest first, and no
    /// more than `limit` of them.
    pub fn order_history(&self, trader: TraderId, status: Option<OrderStatus>, limit: usize) -> (found: Vec<OrderRecord>)
        requires
            self.wf(),
        ensures
            self.shows_history(found@, trader, status, limit),
    {
        let ghost log = self.orders.log();
        let ghost ids = log.ids_of(trader.0);
        let ghost keep = |id: u64| stands(log.orders[id], status);
        let records = self.orders.orders_of(trader);
        let mut found: Vec<OrderRecord> = Vec::new();
        let mut i: usize = 0;
        proof {
            assert(ids.take(0).filter(keep) =~= Seq::<u64>::empty()) by {
                reveal(Seq::filter);
            }
        }
        while i < records.len() && found.len() < limit
            invariant
                log == self.orders.log(),
                ids == log.ids_of(trader.0),
                keep == (|id: u64| stands(log.orders[id], status)),
                records@.len() == ids.len(),
                forall|j: int| 0 <= j < records@.len() ==> *#[trigger] records@[j] == log.orders[ids[j]],
                i <= records.len(),
                found@.len() <= limit,
                found@.len() == ids.take(i as int).filter(keep).len(),
                forall|j: int|
                    0 <= j < found@.len() ==> same_record(
                        #[trigger] found@[j],
                        log.orders[ids.take(i as int).filter(keep)[j]],
                    ),
            decreases records.len() - i,
        {
            let record = records[i];
            let ghost before = found@;
            let kept: bool = match status {
                Some(wanted) => record.status == wanted,
                None => true,
            };
            if kept {
                found.push(record.clone());
            }
            proof {
                lemma_filter_take(ids, keep, i as int);
                let longer = ids.take(i as int + 1).filter(keep);
                assert forall|j: int| 0 <= j < found@.len() implies same_record(
                    #[trigger] found@[j],
                    log.orders[longer[j]],
                ) by {
                    if j < before.len() {
                        assert(before[j] == found@[j]);
                    }
                }
            }
            i = i + 1;
        }
        proof {
            lemma_filter_prefix(ids, keep, i as int);
            assert(ids.take(ids.len() as int) =~= ids);
        }
        found
    }
}

/// An order stands as `status` says.
pub open spec fn stands(record: OrderRecord, status: Option<OrderStatus>) -> bool {
    match status {
        Some(wanted) => record.status == wanted,
        None => true,
    }
}

/// What is kept of a beginning is the beginning of what is kept.
proof fn lemma_filter_prefix<T>(s: Seq<T>, keep: spec_fn(T) -> bool, n: int)
    requires
        0 <= n <= s.len(),
    ensures
        s.take(n).filter(keep).len() <= s.filter(keep).len(),
        forall|i: int|
            0 <= i < s.take(n).filter(keep).len() ==> #[trigger] s.take(n).filter(keep)[i] == s.filter(keep)[i],
{
    assert(s =~= s.take(n) + s.skip(n));
    Seq::filter_distributes_over_add(s.take(n), s.skip(n), keep);
}

// ---------------------------------------------------------------------------
// Where a symbol's shares are

/// Where a symbol's shares are. The four numbers add up:
/// `outstanding = held + bid_for + available`.
#[derive(Debug)]
pub struct SharesDto {
    pub symbol: String,
    /// Shares in existence.
    pub shares_outstanding: u64,
    /// Held by traders.
    pub held_shares: u64,
    /// Bid for by traders' resting buy orders.
    pub bid_shares: u64,
    /// Neither held nor bid for: what a buy can still be filled from.
    pub available_shares: u64,
    pub price_cents: i64,
    /// `price × shares_outstanding`.
    pub market_cap_cents: i64,
    /// The caller's own traders holding shares, largest stake first. Who
    /// else holds them is nobody's business: the totals above are public,
    /// the names behind them are not.
    pub holders: Vec<HolderDto>,
}

/// The caller's own stakes among the first `n` traders.
pub open spec fn stakes_of(traders: Seq<Trader>, n: int, caller: Option<Caller>, symbol: Seq<char>) -> Seq<HolderDto>
    decreases n,
{
    if n <= 0 {
        Seq::empty()
    } else {
        let before = stakes_of(traders, n - 1, caller, symbol);
        let own = caller matches Some(c) && c.0 == traders[n - 1].user_id;
        match HolderDto::stake(&traders[n - 1], symbol) {
            Some(stake) => if own {
                before.push(stake)
            } else {
                before
            },
            None => before,
        }
    }
}

/// One stake is listed before another: it is larger, or as large and of a
/// trader with a lower id.
pub open spec fn ranks_before(a: HolderDto, b: HolderDto) -> bool {
    a.qty > b.qty || (a.qty == b.qty && a.trader_id <= b.trader_id)
}

/// The stakes are in order.
pub open spec fn ranked(holders: Seq<HolderDto>) -> bool {
    forall|i: int, j: int| 0 <= i < j < holders.len() ==> ranks_before(#[trigger] holders[i], #[trigger] holders[j])
}

/// Put a stake in its place.
fn rank(holders: &mut Vec<HolderDto>, stake: HolderDto)
    requires
        ranked(old(holders)@),
    ensures
        ranked(final(holders)@),
        final(holders)@.to_multiset() == old(holders)@.to_multiset().insert(stake),
{
    let ghost before = holders@;
    let mut at: usize = 0;
    while at < holders.len() && (holders[at].qty > stake.qty || (holders[at].qty == stake.qty && holders[at].trader_id
        <= stake.trader_id))
        invariant
            holders@ == before,
            at <= holders.len(),
            forall|i: int| 0 <= i < at ==> ranks_before(#[trigger] holders@[i], stake),
        decreases holders.len() - at,
    {
        at = at + 1;
    }
    holders.insert(at, stake);
    proof {
        let after = holders@;
        assert(after =~= before.insert(at as int, stake));
        broadcast use vstd::seq_lib::group_to_multiset_ensures;

        before.to_multiset_ensures();
        assert forall|i: int, j: int| 0 <= i < j < after.len() implies ranks_before(
            #[trigger] after[i],
            #[trigger] after[j],
        ) by {
            let old_i = if i < at {
                i
            } else {
                i - 1
            };
            let old_j = if j < at {
                j
            } else {
                j - 1
            };
            if i != at && j != at {
                assert(after[i] == before[old_i] && after[j] == before[old_j]);
            } else if i == at {
                assert(after[j] == before[old_j]);
                assert(ranks_before(stake, before[at as int]));
                if old_j > at {
                    assert(ranks_before(before[at as int], before[old_j]));
                }
            } else {
                assert(after[i] == before[old_i]);
            }
        }
    }
}

impl SharesDto {
    /// Where the shares of a symbol are, as `caller` may see it.
    pub fn new(
        market: &Market,
        symbol: &str,
        shares_outstanding: u64,
        bid_shares: u64,
        price_cents: i64,
        market_cap_cents: i64,
        caller: Option<Caller>,
    ) -> (shares: Self)
        requires
            market.wf(),
        ensures
            shares.symbol@ == symbol@,
            shares.shares_outstanding == shares_outstanding,
            shares.held_shares == clamp_u64(market.held_by_all(symbol@)),
            shares.bid_shares == bid_shares,
            shares.available_shares == market.unheld(symbol@, shares_outstanding, bid_shares),
            shares.price_cents == price_cents,
            shares.market_cap_cents == market_cap_cents,
            ranked(shares.holders@),
            shares.holders@.to_multiset() == stakes_of(
                market.traders.vals(),
                market.traders.vals().len() as int,
                caller,
                symbol@,
            ).to_multiset(),
    {
        let ghost traders = market.traders.vals();
        let mut holders: Vec<HolderDto> = Vec::new();
        let n: usize = market.traders.len();
        let mut i: usize = 0;
        while i < n
            invariant
                market.wf(),
                traders == market.traders.vals(),
                n == traders.len(),
                n == market.traders.keys().len(),
                i <= n,
                ranked(holders@),
                holders@.to_multiset() == stakes_of(traders, i as int, caller, symbol@).to_multiset(),
            decreases n - i,
        {
            let trader = market.traders.val_at(i);
            proof {
                market.lemma_traders_wf(i as int);
                stakes_of(traders, i as int, caller, symbol@).to_multiset_ensures();
            }
            let own: bool = match caller {
                Some(c) => c.0 == trader.user_id,
                None => false,
            };
            if own {
                match HolderDto::new(trader, symbol) {
                    Some(stake) => {
                        rank(&mut holders, stake);
                    },
                    None => {},
                }
            }
            i = i + 1;
        }
        SharesDto {
            symbol: symbol.to_owned(),
            shares_outstanding,
            held_shares: market.held_shares(symbol),
            bid_shares,
            available_shares: market.available_shares(symbol, shares_outstanding, bid_shares),
            price_cents,
            market_cap_cents,
            holders,
        }
    }
}

// ---------------------------------------------------------------------------
// The market as a whole

/// What the market counts of itself.
#[derive(Clone, Copy, Debug, PartialEq, Eq, Structural)]
pub struct MarketHealth {
    pub symbols: usize,
    pub ticks_total: u64,
    pub trades_total: u64,
    pub resting_orders: usize,
    pub stops_held: usize,
    pub users: usize,
    pub accounts: usize,
    pub traders: usize,
    pub cash_cents: i64,
    pub orders_placed: u64,
    pub orders_refused: u64,
    pub fills_booked: u64,
    /// Fills the book made that the ledger then refused to settle, since
    /// start-up. Always zero in a healthy market: everything settlement
    /// needs is made true before it is called, because by then the book has
    /// already traded and cannot be unwound. A number above zero means
    /// shares moved and money did not, and the market should be reconciled.
    pub settlement_failures: u64,
    pub events_logged: usize,
}

/// What one symbol counts of itself.
#[derive(Clone, Copy, Debug, PartialEq, Eq, Structural)]
pub struct SymbolCounts {
    pub ticks_total: u64,
    pub trades_total: u64,
    /// Orders of traders resting in its book.
    pub resting_orders: usize,
    pub stops_held: usize,
}

/// The balance of every account, added up by id.
pub open spec fn cash_in(accounts: Seq<Account>, n: int, ledger: &LedgerView) -> i64
    decreases n,
{
    if n <= 0 {
        0
    } else {
        clamp_i64(cash_in(accounts, n - 1, ledger) + ledger.balance_of(accounts[n - 1].wallet))
    }
}

impl Market {
    /// The counts the market reports of itself, with what each symbol that
    /// answered counts.
    pub fn health(&self, ledger: &LedgerView, symbols: &Vec<SymbolCounts>) -> (health: MarketHealth)
        requires
            self.wf(),
            ledger.wf(),
        ensures
            health.symbols == self.listings.tickers@.len(),
            health.ticks_total == clamp_u64(sum_of(symbols@.map_values(|s: SymbolCounts| s.ticks_total as int))),
            health.trades_total == clamp_u64(sum_of(symbols@.map_values(|s: SymbolCounts| s.trades_total as int))),
            health.resting_orders == clamp_usize(
                sum_of(symbols@.map_values(|s: SymbolCounts| s.resting_orders as int)) as nat,
            ),
            health.stops_held == clamp_usize(
                sum_of(symbols@.map_values(|s: SymbolCounts| s.stops_held as int)) as nat,
            ),
            health.users == self.users.keys().len(),
            health.accounts == self.accounts.keys().len(),
            health.traders == self.traders.keys().len(),
            health.cash_cents == cash_in(self.accounts.vals(), self.accounts.vals().len() as int, ledger),
            health.orders_placed == self.orders_placed,
            health.orders_refused == self.orders_refused,
            health.fills_booked == self.fills_booked,
            health.settlement_failures == self.settlement_failures,
            health.events_logged == self.events.events@.len(),
    {
        let n: usize = self.accounts.len();
        let mut cash: i64 = 0;
        let mut i: usize = 0;
        while i < n
            invariant
                self.wf(),
                ledger.wf(),
                n == self.accounts.vals().len(),
                n == self.accounts.keys().len(),
                i <= n,
                cash == cash_in(self.accounts.vals(), i as int, ledger),
            decreases n - i,
        {
            cash = sat_add(cash, self.accounts.val_at(i).balance_cents(ledger));
            i = i + 1;
        }
        let ghost f1 = |s: SymbolCounts| s.ticks_total as int;
        let ghost f2 = |s: SymbolCounts| s.trades_total as int;
        let ghost f3 = |s: SymbolCounts| s.resting_orders as int;
        let ghost f4 = |s: SymbolCounts| s.stops_held as int;
        let mut ticks_total: u64 = 0;
        let mut trades_total: u64 = 0;
        let mut resting_orders: usize = 0;
        let mut stops_held: usize = 0;
        let mut k: usize = 0;
        while k < symbols.len()
            invariant
                k <= symbols.len(),
                f1 == (|s: SymbolCounts| s.ticks_total as int),
                f2 == (|s: SymbolCounts| s.trades_total as int),
                f3 == (|s: SymbolCounts| s.resting_orders as int),
                f4 == (|s: SymbolCounts| s.stops_held as int),
                sum_of(symbols@.take(k as int).map_values(f1)) >= 0,
                sum_of(symbols@.take(k as int).map_values(f2)) >= 0,
                sum_of(symbols@.take(k as int).map_values(f3)) >= 0,
                sum_of(symbols@.take(k as int).map_values(f4)) >= 0,
                ticks_total == clamp_u64(sum_of(symbols@.take(k as int).map_values(f1))),
                trades_total == clamp_u64(sum_of(symbols@.take(k as int).map_values(f2))),
                resting_orders == clamp_usize(sum_of(symbols@.take(k as int).map_values(f3)) as nat),
                stops_held == clamp_usize(sum_of(symbols@.take(k as int).map_values(f4)) as nat),
            decreases symbols.len() - k,
        {
            let s = symbols[k];
            proof {
                let shorter = symbols@.take(k as int);
                let longer = symbols@.take(k as int + 1);
                assert(longer.map_values(f1) =~= shorter.map_values(f1).push(s.ticks_total as int));
                assert(longer.map_values(f2) =~= shorter.map_values(f2).push(s.trades_total as int));
                assert(longer.map_values(f3) =~= shorter.map_values(f3).push(s.resting_orders as int));
                assert(longer.map_values(f4) =~= shorter.map_values(f4).push(s.stops_held as int));
                lemma_sum_push(shorter.map_values(f1), s.ticks_total as int);
                lemma_sum_push(shorter.map_values(f2), s.trades_total as int);
                lemma_sum_push(shorter.map_values(f3), s.resting_orders as int);
                lemma_sum_push(shorter.map_values(f4), s.stops_held as int);
            }
            ticks_total = usat_add(ticks_total, s.ticks_total);
            trades_total = usat_add(trades_total, s.trades_total);
            resting_orders = count_add(resting_orders, s.resting_orders);
            stops_held = count_add(stops_held, s.stops_held);
            k = k + 1;
        }
        proof {
            assert(symbols@.take(symbols@.len() as int) =~= symbols@);
        }
        MarketHealth {
            symbols: self.listings.len(),
            ticks_total,
            trades_total,
            resting_orders,
            stops_held,
            users: self.users.len(),
            accounts: self.accounts.len(),
            traders: self.traders.len(),
            cash_cents: cash,
            orders_placed: self.orders_placed,
            orders_refused: self.orders_refused,
            fills_booked: self.fills_booked,
            settlement_failures: self.settlement_failures,
            events_logged: self.events.events.len(),
        }
    }
}

/// How much currency exists, and where it sits.
#[derive(Clone, Copy, Debug, PartialEq, Eq, Structural)]
pub struct SupplyDto {
    /// Created since genesis, genesis included.
    pub minted_cents: i64,
    /// Destroyed since.
    pub burned_cents: i64,
    /// `minted − burned`.
    pub outstanding_cents: i64,
    /// What the wallets actually hold. Equal to `outstanding_cents` unless
    /// something is wrong, which `balanced` says.
    pub circulating_cents: i64,
    /// The two agree: currency is conserved.
    pub balanced: bool,
    /// Waiting in treasury to be handed out.
    pub treasury_cents: i64,
    /// Collected in fees.
    pub venue_cents: i64,
    /// Set aside to fund dividends and buyouts, across every symbol.
    pub issuer_cents: i64,
    /// Held by players, across every account.
    pub player_cents: i64,
    /// What unfunded liquidity has put into players' hands beyond its float.
    pub synthetic_debt_cents: i64,
    /// Wallets open, the four the world always has included.
    pub wallets: usize,
}

/// The balances of the wallets of one kind among the first `n`, added up.
pub open spec fn kept_in(wallets: Seq<Wallet>, n: int, kind: WalletKind) -> i64
    decreases n,
{
    if n <= 0 {
        0
    } else if wallets[n - 1].kind == kind {
        clamp_i64(kept_in(wallets, n - 1, kind) + wallets[n - 1].balance_cents)
    } else {
        kept_in(wallets, n - 1, kind)
    }
}

/// The number where it fits, and the largest one where it does not.
pub open spec fn fits_or_most(cents: i128) -> i64 {
    if i64::MIN <= cents <= i64::MAX {
        cents as i64
    } else {
        i64::MAX
    }
}

fn narrow(cents: i128) -> (r: i64)
    ensures
        r == fits_or_most(cents),
{
    if cents >= i64::MIN as i128 && cents <= i64::MAX as i128 {
        cents as i64
    } else {
        i64::MAX
    }
}

impl SupplyDto {
    /// What the wallets of one kind hold between them.
    fn by_kind(ledger: &LedgerView, kind: WalletKind) -> (cents: i64)
        requires
            ledger.wf(),
        ensures
            cents == kept_in(ledger.wallets.vals(), ledger.wallets.vals().len() as int, kind),
    {
        let n: usize = ledger.wallets.len();
        let mut cents: i64 = 0;
        let mut i: usize = 0;
        while i < n
            invariant
                ledger.wf(),
                n == ledger.wallets.vals().len(),
                n == ledger.wallets.keys().len(),
                i <= n,
                cents == kept_in(ledger.wallets.vals(), i as int, kind),
            decreases n - i,
        {
            let wallet = ledger.wallets.val_at(i);
            if wallet.kind == kind {
                cents = sat_add(cents, wallet.balance_cents);
            }
            i = i + 1;
        }
        cents
    }

    /// Read it off the ledger.
    pub fn of(ledger: &LedgerView) -> (supply: Self)
        requires
            ledger.wf(),
        ensures
            ({
                let wallets = ledger.wallets.vals();
                let n = wallets.len() as int;
                supply == (SupplyDto {
                    minted_cents: ledger.minted_cents,
                    burned_cents: ledger.burned_cents,
                    outstanding_cents: ledger.outstanding_cents,
                    circulating_cents: fits_or_most(ledger.circulating_cents),
                    balanced: ledger.circulating_cents == ledger.outstanding_cents,
                    treasury_cents: kept_in(wallets, n, WalletKind::Treasury),
                    venue_cents: kept_in(wallets, n, WalletKind::Venue),
                    issuer_cents: kept_in(wallets, n, WalletKind::Issuer),
                    player_cents: kept_in(wallets, n, WalletKind::Player),
                    synthetic_debt_cents: fits_or_most(ledger.synthetic_debt_cents),
                    wallets: wallets.len() as usize,
                })
            }),
    {
        SupplyDto {
            minted_cents: ledger.minted_cents,
            burned_cents: ledger.burned_cents,
            outstanding_cents: ledger.outstanding_cents,
            circulating_cents: narrow(ledger.circulating_cents),
            balanced: ledger.circulating_cents == ledger.outstanding_cents as i128,
            treasury_cents: SupplyDto::by_kind(ledger, WalletKind::Treasury),
            venue_cents: SupplyDto::by_kind(ledger, WalletKind::Venue),
            issuer_cents: SupplyDto::by_kind(ledger, WalletKind::Issuer),
            player_cents: SupplyDto::by_kind(ledger, WalletKind::Player),
            synthetic_debt_cents: narrow(ledger.synthetic_debt_cents),
            wallets: ledger.wallets.len(),
        }
    }
}

// ---------------------------------------------------------------------------
// Who hears what

/// What a message on the stream is about.
#[derive(Clone, Copy, Debug, PartialEq, Eq, Structural)]
pub enum Notice {
    /// The first message on every connection.
    Hello,
    /// The last tick of one engine step for one symbol.
    Tick,
    /// An event was accepted.
    Event,
    /// A trader's order executed, in whole or part.
    Fill(TraderId),
    /// A symbol stopped trading, or started again.
    Status,
    /// A resting order was withdrawn by the venue rather than by its owner.
    OrderExpired(TraderId),
    /// A symbol was listed.
    Listed,
    /// A symbol was delisted.
    Delisted,
    /// A stop fired.
    StopTriggered(TraderId),
}

impl Notice {
    /// The trader a message is for, where it is not for everybody.
    pub open spec fn only_for(self) -> Option<TraderId> {
        match self {
            Notice::Fill(trader) => Some(trader),
            Notice::StopTriggered(trader) => Some(trader),
            _ => None,
        }
    }

    /// Whether a stream opened by `viewer` carries the message. Ticks and
    /// events are public; a fill belongs to the trader that made it, so it
    /// goes only to a stream that proved it speaks for that trader.
    pub fn visible_to(self, viewer: Option<UserId>, directory: &Directory) -> (r: bool)
        requires
            directory.wf(),
        ensures
            r == match self.only_for() {
                Some(trader) => viewer is Some && directory.owners.map().contains_key(trader.0)
                    && directory.owners.map()[trader.0] == (viewer->0).0,
                None => true,
            },
    {
        let trader = match self {
            Notice::Fill(trader) => trader,
            Notice::StopTriggered(trader) => trader,
            _ => {
                return true;
            },
        };
        match (viewer, directory.owner_of(trader)) {
            (Some(user), Some(owner)) => user == owner,
            _ => false,
        }
    }
}

// ---------------------------------------------------------------------------
// Laws

/// Who else holds a symbol is nobody's business: whoever asks is shown their
/// own traders and no others, and somebody without a key is shown none.
pub proof fn law_holders_are_the_callers_own(
    traders: Seq<Trader>,
    n: int,
    caller: Option<Caller>,
    symbol: Seq<char>,
    i: int,
)
    requires
        0 <= n <= traders.len(),
        0 <= i < stakes_of(traders, n, caller, symbol).len(),
    ensures
        caller matches Some(c) && stakes_of(traders, n, caller, symbol)[i].user_id == c.0.0,
        stakes_of(traders, n, caller, symbol)[i].qty > 0,
    decreases n,
{
    if n > 0 {
        let before = stakes_of(traders, n - 1, caller, symbol);
        if i < before.len() {
            law_holders_are_the_callers_own(traders, n - 1, caller, symbol, i);
        }
    }
}

/// What a user is shown to own is never more than what their traders hold
/// between them, and what is promised of it is never free.
pub proof fn law_promised_shares_are_not_free(holding: HoldingDto, stake: Stake, mark_cents: i64)
    requires
        holding.values(stake, mark_cents),
    ensures
        holding.free_shares <= holding.qty,
        holding.reserved_shares <= holding.qty ==> holding.free_shares + holding.reserved_shares == holding.qty,
{
}

/// The orders shown to a trader are all its own that rest in any symbol, and
/// nobody else's.
pub proof fn law_a_trader_sees_its_own_orders(
    views: Vec<SymbolView>,
    trader: TraderId,
    found: Vec<OpenOrderDto>,
    order: OpenOrderDto,
)
    requires
        call_ensures(open_orders_of, (&views, trader), found),
    ensures
        found@.contains(order) <==> order.trader_id == trader.0 && exists|i: int|
            0 <= i < views@.len() && (#[trigger] views@[i]).open_orders@.contains(order),
{
    lemma_orders_in(views@, views@.len() as int, trader.0, order);
}

proof fn lemma_orders_in(views: Seq<SymbolView>, n: int, trader: u64, order: OpenOrderDto)
    requires
        0 <= n <= views.len(),
    ensures
        open_orders_in(views, n, trader).contains(order) <==> order.trader_id == trader && exists|i: int|
            0 <= i < n && (#[trigger] views[i]).open_orders@.contains(order),
    decreases n,
{
    if n > 0 {
        let own = |o: OpenOrderDto| o.trader_id == trader;
        lemma_orders_in(views, n - 1, trader, order);
        lemma_filtered(views[n - 1].open_orders@, own, order);
        lemma_contains_either(
            open_orders_in(views, n - 1, trader),
            views[n - 1].open_orders@.filter(own),
            order,
        );
    }
}

/// What two lists hold one after the other is what either holds.
proof fn lemma_contains_either<T>(a: Seq<T>, b: Seq<T>, x: T)
    ensures
        (a + b).contains(x) <==> a.contains(x) || b.contains(x),
{
    if a.contains(x) {
        let i = choose|i: int| 0 <= i < a.len() && a[i] == x;
        assert((a + b)[i] == x);
    }
    if b.contains(x) {
        let i = choose|i: int| 0 <= i < b.len() && b[i] == x;
        assert((a + b)[a.len() + i] == x);
    }
    if (a + b).contains(x) {
        let i = choose|i: int| 0 <= i < (a + b).len() && (a + b)[i] == x;
        if i < a.len() {
            assert(a[i] == x);
        } else {
            assert(b[i - a.len()] == x);
        }
    }
}

/// The stops shown to a trader are all its own that are held in any symbol,
/// and nobody else's.
pub proof fn law_a_trader_sees_its_own_stops(
    views: Vec<SymbolView>,
    trader: TraderId,
    found: Vec<StopOrder>,
    stop: StopOrder,
)
    requires
        call_ensures(stops_of, (&views, trader), found),
    ensures
        found@.contains(stop) <==> stop.trader_id == trader.0 && exists|i: int|
            0 <= i < views@.len() && (#[trigger] views@[i]).stops@.contains(stop),
{
    lemma_stops_in(views@, views@.len() as int, trader.0, stop);
}

proof fn lemma_stops_in(views: Seq<SymbolView>, n: int, trader: u64, stop: StopOrder)
    requires
        0 <= n <= views.len(),
    ensures
        stops_in(views, n, trader).contains(stop) <==> stop.trader_id == trader && exists|i: int|
            0 <= i < n && (#[trigger] views[i]).stops@.contains(stop),
    decreases n,
{
    if n > 0 {
        let own = |s: StopOrder| s.trader_id == trader;
        lemma_stops_in(views, n - 1, trader, stop);
        lemma_filtered(views[n - 1].stops@, own, stop);
        lemma_contains_either(stops_in(views, n - 1, trader), views[n - 1].stops@.filter(own), stop);
    }
}

/// A symbol's orders are shown without those of its synthetic traders, each
/// under the trader who sent it.
pub proof fn law_synthetic_orders_are_not_shown(
    symbol: &str,
    mark_cents: i64,
    orders: Vec<Resting>,
    stops: Vec<StopOrder>,
    view: SymbolView,
    i: int,
)
    requires
        call_ensures(SymbolView::of, (symbol, mark_cents, &orders, stops), view),
        0 <= i < view.open_orders@.len(),
    ensures
        exists|j: int|
            0 <= j < orders@.len() && (#[trigger] orders@[j]).id == view.open_orders@[i].order_id
                && orders@[j].owner == Owner::Trader(TraderId(view.open_orders@[i].trader_id)) && orders@[j].outstanding
                == view.open_orders@[i].remaining && orders@[j].price_cents == view.open_orders@[i].price_cents,
        view.mark_cents == mark_cents,
{
    let own = |o: Resting| o.owner is Trader;
    let shown = traders_own(orders@);
    assert(view.open_orders@[i].shows(symbol@, shown[i]));
    assert(shown.contains(shown[i]));
    lemma_filtered(orders@, own, shown[i]);
    let j = choose|j: int| 0 <= j < orders@.len() && orders@[j] == shown[i];
    assert(orders@[j].id == view.open_orders@[i].order_id);
}

/// A symbol is marked to its own price: the one it is listed with first, and
/// at nothing where it is not listed.
pub proof fn law_a_symbol_is_marked_to_its_price(views: Vec<SymbolView>, symbol: &str, cents: i64, i: int)
    requires
        call_ensures(mark_of, (&views, symbol), cents),
    ensures
        0 <= i < views@.len() && views@[i].symbol@ == symbol@ && (forall|j: int|
            0 <= j < i ==> (#[trigger] views@[j]).symbol@ != symbol@) ==> cents == views@[i].mark_cents,
        (forall|j: int| 0 <= j < views@.len() ==> (#[trigger] views@[j]).symbol@ != symbol@) ==> cents == 0,
{
    if 0 <= i < views@.len() && views@[i].symbol@ == symbol@ && (forall|j: int|
        0 <= j < i ==> (#[trigger] views@[j]).symbol@ != symbol@) {
        lemma_marked(views@, symbol@, i);
    }
    if forall|j: int| 0 <= j < views@.len() ==> (#[trigger] views@[j]).symbol@ != symbol@ {
        lemma_unmarked(views@, symbol@);
    }
}

proof fn lemma_marked(views: Seq<SymbolView>, symbol: Seq<char>, i: int)
    requires
        0 <= i < views.len(),
        views[i].symbol@ == symbol,
        forall|j: int| 0 <= j < i ==> (#[trigger] views[j]).symbol@ != symbol,
    ensures
        mark_in(views, symbol) == views[i].mark_cents,
    decreases views.len(),
{
    if i > 0 {
        assert(views[0].symbol@ != symbol);
        assert forall|j: int| 0 <= j < i - 1 implies (#[trigger] views.skip(1)[j]).symbol@ != symbol by {
            assert(views[j + 1].symbol@ != symbol);
        }
        lemma_marked(views.skip(1), symbol, i - 1);
    }
}

proof fn lemma_unmarked(views: Seq<SymbolView>, symbol: Seq<char>)
    requires
        forall|j: int| 0 <= j < views.len() ==> (#[trigger] views[j]).symbol@ != symbol,
    ensures
        mark_in(views, symbol) == 0,
    decreases views.len(),
{
    if views.len() > 0 {
        assert(views[0].symbol@ != symbol);
        assert forall|j: int| 0 <= j < views.len() - 1 implies (#[trigger] views.skip(1)[j]).symbol@ != symbol by {
            assert(views[j + 1].symbol@ != symbol);
        }
        lemma_unmarked(views.skip(1), symbol);
    }
}

/// What a user has in a symbol is what its traders hold of it between them,
/// and what of that is not promised is what the market calls free: the two
/// ways of counting come to the same.
pub proof fn law_a_users_stake_is_what_its_traders_hold(market: Market, user: UserId, symbol: Seq<char>)
    requires
        market.wf(),
        market.held_by_all(symbol) <= u64::MAX,
    ensures
        ({
            let stake = stake_in(market.traders.vals(), market.traders.vals().len() as int, user, symbol);
            &&& stake.qty - stake.reserved == market.free_for(user, symbol)
            &&& stake.qty <= market.held_by_all(symbol)
            &&& (forall|i: int|
                0 <= i < market.traders.vals().len() ==> (#[trigger] market.traders.vals()[i]).user_id == user)
                ==> stake.qty == market.held_by_all(symbol)
        }),
{
    let traders = market.traders.vals();
    assert(traders.take(traders.len() as int) =~= traders);
    lemma_stake(traders, traders.len() as int, user, symbol);
}

proof fn lemma_stake(traders: Seq<Trader>, n: int, user: UserId, symbol: Seq<char>)
    requires
        0 <= n <= traders.len(),
        sum_of(traders.take(n).map_values(|t: Trader| t.held(symbol) as int)) <= u64::MAX,
    ensures
        ({
            let stake = stake_in(traders, n, user, symbol);
            let held = sum_of(traders.take(n).map_values(|t: Trader| t.held(symbol) as int));
            let free = sum_of(
                traders.take(n).map_values(
                    |t: Trader|
                        if t.user_id == user {
                            t.free(symbol) as int
                        } else {
                            0
                        },
                ),
            );
            &&& 0 <= stake.reserved <= stake.qty <= held
            &&& stake.qty - stake.reserved == free
            &&& (forall|i: int| 0 <= i < n ==> (#[trigger] traders[i]).user_id == user) ==> stake.qty == held
        }),
    decreases n,
{
    let all = |t: Trader| t.held(symbol) as int;
    let own = |t: Trader|
        if t.user_id == user {
            t.free(symbol) as int
        } else {
            0
        };
    if n > 0 {
        let front = traders.take(n - 1);
        let last = traders[n - 1];
        assert(traders.take(n).map_values(all).drop_last() =~= front.map_values(all));
        assert(traders.take(n).map_values(own).drop_last() =~= front.map_values(own));
        assert(traders.take(n).map_values(all).last() == last.held(symbol));
        lemma_stake(traders, n - 1, user, symbol);
    }
}

/// A sole holder's stake is its position: the shares, what they cost and what
/// they made.
pub proof fn law_a_sole_holders_stake_is_its_position(
    traders: Seq<Trader>,
    n: int,
    user: UserId,
    symbol: Seq<char>,
    i: int,
)
    requires
        0 <= i < n <= traders.len(),
        holds_for(traders[i], user, symbol),
        forall|j: int| 0 <= j < n && j != i ==> !holds_for(#[trigger] traders[j], user, symbol),
    ensures
        ({
            let stake = stake_in(traders, n, user, symbol);
            let position = traders[i].positions.map()[symbol];
            &&& stake.qty == position.shares()
            &&& stake.reserved + traders[i].free(symbol) == stake.qty
            &&& stake.cost == position.cost_cents
            &&& stake.realised == position.realised_pnl_cents
            &&& stake.traders == seq![traders[i].id.0]
        }),
    decreases n,
{
    if i < n - 1 {
        assert(!holds_for(traders[n - 1], user, symbol));
        law_a_sole_holders_stake_is_its_position(traders, n - 1, user, symbol, i);
    } else {
        lemma_no_stake(traders, n - 1, user, symbol);
    }
}

proof fn lemma_no_stake(traders: Seq<Trader>, n: int, user: UserId, symbol: Seq<char>)
    requires
        n <= traders.len(),
        forall|j: int| 0 <= j < n ==> !holds_for(#[trigger] traders[j], user, symbol),
    ensures
        stake_in(traders, n, user, symbol) == (Stake {
            qty: 0,
            reserved: 0,
            cost: 0,
            realised: 0,
            traders: Seq::empty(),
        }),
    decreases n,
{
    if n > 0 {
        assert(!holds_for(traders[n - 1], user, symbol));
        lemma_no_stake(traders, n - 1, user, symbol);
    }
}

/// A holding is worth its shares at the mark, and has made on paper what that
/// is more than they cost.
pub proof fn law_a_holding_is_valued_at_its_mark(holding: HoldingDto, stake: Stake, mark_cents: i64)
    requires
        holding.values(stake, mark_cents),
        i64::MIN <= mark_cents * stake.qty <= i64::MAX,
        i64::MIN <= mark_cents * stake.qty - stake.cost <= i64::MAX,
    ensures
        holding.market_value_cents == mark_cents * holding.qty,
        holding.unrealised_pnl_cents + holding.cost_cents == holding.market_value_cents,
        holding.realised_pnl_cents == stake.realised,
        holding.mark_cents == mark_cents,
{
}

/// What positions are worth is what each of them is worth, added up.
pub proof fn law_positions_are_worth_their_values(values: Seq<Valuation>, one: Valuation)
    ensures
        worth(Seq::<Valuation>::empty()) == 0,
        i64::MIN <= worth(values) + one.market_value_cents <= i64::MAX ==> worth(values.push(one)) == worth(values)
            + one.market_value_cents,
{
    let value = |v: Valuation| v.market_value_cents as int;
    assert(values.push(one).map_values(value) =~= values.map_values(value).push(one.market_value_cents as int));
    lemma_sum_push(values.map_values(value), one.market_value_cents as int);
    assert(Seq::<Valuation>::empty().map_values(value).len() == 0);
}

/// A portfolio is the trader's cash and what its positions are worth; its
/// fills are the trader's, newest first; and what is promised of a position is
/// not free. A summary of the same trader says the same.
pub proof fn law_a_portfolio_and_its_summary_agree(
    market: Market,
    ledger: LedgerView,
    id: TraderId,
    values: Vec<Valuation>,
    views: Vec<SymbolView>,
    r: Result<PortfolioDto, ApiError>,
    summary: TraderSummary,
)
    requires
        market.wf(),
        ledger.wf(),
        market.traders.map().contains_key(id.0),
        values@.len() == market.traders.map()[id.0].positions.keys().len(),
        call_ensures(Market::portfolio, (&market, &ledger, id, &values, &views), r),
        call_ensures(
            Market::trader_summary,
            (&market, &ledger, &market.traders.map()[id.0], &values, &views),
            summary,
        ),
    ensures
        r is Ok <==> market.accounts.map().contains_key(market.traders.map()[id.0].account_id.0),
        r matches Ok(dto) ==> {
            let trader = market.traders.map()[id.0];
            let wallet = market.accounts.map()[trader.account_id.0].wallet;
            &&& dto.id == id.0 && summary.id == id.0
            &&& dto.user_id == trader.user_id.0 && dto.account_id == trader.account_id.0
            &&& dto.cash_cents == ledger.balance_of(wallet) && summary.cash_cents == dto.cash_cents
            &&& dto.reserved_cents == ledger.reserved_of(wallet)
            &&& dto.free_cash_cents == ledger.available_of(wallet)
            &&& summary.equity_cents == dto.equity_cents && summary.account_status == dto.account_status
            &&& i64::MIN <= dto.cash_cents + worth(values@) <= i64::MAX ==> dto.equity_cents == dto.cash_cents + worth(
                values@,
            )
            &&& summary.positions == dto.positions@.len()
            &&& summary.open_orders == dto.open_orders@.len()
            &&& dto.fills@.len() == trader.fills@.len()
            &&& trader.fills@.len() > 0 ==> dto.fills@[0] == trader.fills@.last()
        },
{
    assert(market.trader_wf(id.0));
}

/// A position is shown as it stands, valued as it was valued, with what is
/// promised of it held apart from what is free.
pub proof fn law_a_position_is_shown_whole(row: PositionDto, trader: Trader, i: int, value: Valuation)
    requires
        trader.wf(),
        0 <= i < trader.positions.keys().len(),
        shows_position(row, trader, i, value),
    ensures
        ({
            let symbol = trader.positions.keys()[i];
            let position = trader.positions.map()[symbol];
            &&& row.symbol@ == symbol
            &&& row.qty == position.qty && row.cost_cents == position.cost_cents
            &&& row.realised_pnl_cents == position.realised_pnl_cents
            &&& row.market_value_cents == value.market_value_cents
            &&& row.unrealised_pnl_cents == value.unrealised_pnl_cents
            &&& row.mark_cents == value.mark_cents
            &&& row.reserved_shares <= trader.held(symbol) ==> row.free_shares + row.reserved_shares == trader.held(
                symbol,
            )
        }),
{
    trader.positions.lemma_at(i);
}

/// A user's traders are all that are the user's, and no others.
pub proof fn law_a_users_traders_are_its_own(market: Market, user: UserId, ids: Vec<u64>, id: u64)
    requires
        market.wf(),
        call_ensures(Market::traders_of, (&market, user), ids),
    ensures
        ids@.contains(id) <==> market.traders.map().contains_key(id) && market.traders.map()[id].user_id == user,
{
    let own = |t: Trader| t.user_id == user;
    let number = |t: Trader| t.id.0;
    let found = market.traders.vals().filter(own);
    market.traders.lemma_listed();
    if ids@.contains(id) {
        let i = choose|i: int| 0 <= i < ids@.len() && ids@[i] == id;
        assert(found.contains(found[i]));
        lemma_filtered(market.traders.vals(), own, found[i]);
        let j = choose|j: int| 0 <= j < market.traders.vals().len() && market.traders.vals()[j] == found[i];
        market.traders.lemma_at(j);
        assert(market.trader_wf(market.traders.keys()[j]));
    }
    if market.traders.map().contains_key(id) && market.traders.map()[id].user_id == user {
        let j = market.traders.place(id);
        market.traders.lemma_placed(id);
        assert(market.trader_wf(id));
        let one = market.traders.map()[id];
        assert(market.traders.vals()[j] == one);
        assert(market.traders.vals().contains(one));
        lemma_filtered(market.traders.vals(), own, one);
        let i = choose|i: int| 0 <= i < found.len() && found[i] == one;
        assert(ids@[i] == id);
    }
}

/// The accounts shown to a user are all the user's, and no others, each with
/// its own balance.
pub proof fn law_a_user_sees_its_own_accounts(
    market: Market,
    ledger: LedgerView,
    user: UserId,
    accounts: Vec<AccountDto>,
    id: u64,
    i: int,
)
    requires
        market.wf(),
        ledger.wf(),
        call_ensures(Market::accounts_of, (&market, &ledger, user), accounts),
    ensures
        0 <= i < accounts@.len() ==> {
            &&& accounts@[i].user_id == user.0
            &&& market.accounts.map().contains_key(accounts@[i].id)
            &&& market.accounts.map()[accounts@[i].id].user_id == user
            &&& accounts@[i].balance_cents == ledger.balance_of(market.accounts.map()[accounts@[i].id].wallet)
        },
        market.accounts.map().contains_key(id) && market.accounts.map()[id].user_id == user ==> exists|k: int|
            0 <= k < accounts@.len() && (#[trigger] accounts@[k]).id == id,
{
    let own = |a: Account| a.user_id == user;
    let theirs = market.accounts.vals().filter(own);
    market.accounts.lemma_listed();
    if 0 <= i < accounts@.len() {
        assert(theirs.contains(theirs[i]));
        lemma_filtered(market.accounts.vals(), own, theirs[i]);
        let j = choose|j: int| 0 <= j < market.accounts.vals().len() && market.accounts.vals()[j] == theirs[i];
        market.accounts.lemma_at(j);
        assert(market.account_wf(market.accounts.keys()[j]));
        assert(accounts@[i].id == theirs[i].id.0);
    }
    if market.accounts.map().contains_key(id) && market.accounts.map()[id].user_id == user {
        let j = market.accounts.place(id);
        market.accounts.lemma_placed(id);
        assert(market.account_wf(id));
        let one = market.accounts.map()[id];
        assert(market.accounts.vals()[j] == one);
        assert(market.accounts.vals().contains(one));
        lemma_filtered(market.accounts.vals(), own, one);
        let k = choose|k: int| 0 <= k < theirs.len() && theirs[k] == one;
        assert(accounts@[k].id == id);
    }
}

/// A user's balance is what the wallets of its accounts hold, added up; an
/// account that is not there adds nothing.
pub proof fn law_a_users_balance_is_its_accounts(
    ids: Seq<AccountId>,
    n: int,
    accounts: Map<u64, Account>,
    ledger: &LedgerView,
)
    requires
        0 < n <= ids.len(),
    ensures
        balances_in(ids, 0, accounts, ledger) == 0,
        !accounts.contains_key(ids[n - 1].0) ==> balances_in(ids, n, accounts, ledger) == balances_in(
            ids,
            n - 1,
            accounts,
            ledger,
        ),
        accounts.contains_key(ids[n - 1].0) && i64::MIN <= balances_in(ids, n - 1, accounts, ledger)
            + ledger.balance_of(accounts[ids[n - 1].0].wallet) <= i64::MAX ==> balances_in(ids, n, accounts, ledger)
            == balances_in(ids, n - 1, accounts, ledger) + ledger.balance_of(accounts[ids[n - 1].0].wallet),
{
}

/// An order history is the trader's own, standing as was asked for, no longer
/// than was asked for; with room to spare, nothing is left out.
pub proof fn law_an_order_history_is_the_traders_own(
    market: Market,
    trader: TraderId,
    status: Option<OrderStatus>,
    limit: usize,
    found: Vec<OrderRecord>,
    i: int,
    id: u64,
)
    requires
        market.wf(),
        call_ensures(Market::order_history, (&market, trader, status, limit), found),
    ensures
        found@.len() <= limit,
        0 <= i < found@.len() ==> found@[i].trader_id == trader.0 && (status matches Some(wanted) ==> found@[i].status
            == wanted),
        found@.len() < limit && market.orders.log().orders.contains_key(id)
            && market.orders.log().orders[id].trader_id == trader.0 && (status matches Some(wanted) ==>
            market.orders.log().orders[id].status == wanted) ==> exists|k: int|
            0 <= k < found@.len() && same_record(#[trigger] found@[k], market.orders.log().orders[id]),
{
    let log = market.orders.log();
    let keep = |id: u64| stands(log.orders[id], status);
    let all = log.ids_of(trader.0);
    let ids = all.filter(keep);
    market.orders.lemma_wf();
    if 0 <= i < found@.len() {
        assert(ids.contains(ids[i]));
        lemma_filtered(all, keep, ids[i]);
        law_a_traders_orders_are_its_own(log, trader.0, ids[i]);
        assert(same_record(found@[i], log.orders[ids[i]]));
    }
    if found@.len() < limit && log.orders.contains_key(id) && log.orders[id].trader_id == trader.0 && stands(
        log.orders[id],
        status,
    ) {
        law_a_traders_orders_are_its_own(log, trader.0, id);
        lemma_filtered(all, keep, id);
        let k = choose|k: int| 0 <= k < ids.len() && ids[k] == id;
        assert(same_record(found@[k], log.orders[id]));
    }
}

/// Whoever asks is shown every stake of its own traders.
pub proof fn law_every_stake_of_the_callers_is_shown(
    traders: Seq<Trader>,
    n: int,
    caller: Caller,
    symbol: Seq<char>,
    i: int,
)
    requires
        0 <= i < n <= traders.len(),
        traders[i].user_id == caller.0,
        traders[i].held(symbol) > 0,
    ensures
        exists|k: int|
            0 <= k < stakes_of(traders, n, Some(caller), symbol).len() && (#[trigger] stakes_of(
                traders,
                n,
                Some(caller),
                symbol,
            )[k]).trader_id == traders[i].id.0 && stakes_of(traders, n, Some(caller), symbol)[k].qty
                == traders[i].held(symbol),
    decreases n,
{
    let all = stakes_of(traders, n, Some(caller), symbol);
    if i == n - 1 {
        assert(all.last().trader_id == traders[i].id.0);
        assert(all[all.len() - 1].qty == traders[i].held(symbol));
    } else {
        law_every_stake_of_the_callers_is_shown(traders, n - 1, caller, symbol, i);
        let before = stakes_of(traders, n - 1, Some(caller), symbol);
        let k = choose|k: int|
            0 <= k < before.len() && (#[trigger] before[k]).trader_id == traders[i].id.0 && before[k].qty
                == traders[i].held(symbol);
        assert(all[k] == before[k]);
    }
}

/// Holders are ranked by what they hold, the largest first, and the earlier
/// trader first where two hold the same.
pub proof fn law_the_largest_holder_comes_first(holders: Seq<HolderDto>, i: int, j: int)
    requires
        ranked(holders),
        0 <= i < j < holders.len(),
    ensures
        holders[i].qty >= holders[j].qty,
        holders[i].qty == holders[j].qty ==> holders[i].trader_id <= holders[j].trader_id,
{
    assert(ranks_before(holders[i], holders[j]));
}

/// The shares of a symbol are held, bid for or there to be had: the three come
/// to what is outstanding, as long as no more is held and bid for than that.
pub proof fn law_a_symbols_shares_are_all_accounted_for(
    market: Market,
    symbol: &str,
    shares_outstanding: u64,
    bid_shares: u64,
    price_cents: i64,
    market_cap_cents: i64,
    caller: Option<Caller>,
    shares: SharesDto,
)
    requires
        market.wf(),
        call_ensures(
            SharesDto::new,
            (&market, symbol, shares_outstanding, bid_shares, price_cents, market_cap_cents, caller),
            shares,
        ),
        0 <= market.held_by_all(symbol@),
        market.held_by_all(symbol@) + bid_shares <= shares_outstanding,
    ensures
        shares.held_shares + shares.bid_shares + shares.available_shares == shares.shares_outstanding,
        shares.held_shares == market.held_by_all(symbol@),
        shares.shares_outstanding == shares_outstanding,
{
}

/// What is kept in wallets of one kind: a wallet of that kind adds its balance
/// and one of another kind nothing.
pub proof fn law_a_wallet_is_counted_under_its_kind(wallets: Seq<Wallet>, n: int, kind: WalletKind)
    requires
        0 < n <= wallets.len(),
    ensures
        kept_in(wallets, 0, kind) == 0,
        wallets[n - 1].kind != kind ==> kept_in(wallets, n, kind) == kept_in(wallets, n - 1, kind),
        wallets[n - 1].kind == kind && i64::MIN <= kept_in(wallets, n - 1, kind) + wallets[n - 1].balance_cents
            <= i64::MAX ==> kept_in(wallets, n, kind) == kept_in(wallets, n - 1, kind) + wallets[n - 1].balance_cents,
{
}

/// The supply is what was minted and not burned; it is balanced where the
/// wallets hold just that, and each kind of wallet is told for itself.
pub proof fn law_the_supply_is_told_as_it_is(ledger: LedgerView, supply: SupplyDto)
    requires
        ledger.wf(),
        call_ensures(SupplyDto::of, (&ledger,), supply),
    ensures
        supply.minted_cents == ledger.minted_cents,
        supply.burned_cents == ledger.burned_cents,
        supply.outstanding_cents == ledger.outstanding_cents,
        supply.balanced <==> ledger.circulating_cents == ledger.outstanding_cents,
        supply.balanced ==> supply.circulating_cents == supply.outstanding_cents,
        i64::MIN <= ledger.circulating_cents <= i64::MAX ==> supply.circulating_cents == ledger.circulating_cents,
        i64::MIN <= ledger.synthetic_debt_cents <= i64::MAX ==> supply.synthetic_debt_cents
            == ledger.synthetic_debt_cents,
        supply.treasury_cents == kept_in(
            ledger.wallets.vals(),
            ledger.wallets.vals().len() as int,
            WalletKind::Treasury,
        ),
        supply.venue_cents == kept_in(ledger.wallets.vals(), ledger.wallets.vals().len() as int, WalletKind::Venue),
        supply.issuer_cents == kept_in(ledger.wallets.vals(), ledger.wallets.vals().len() as int, WalletKind::Issuer),
        supply.player_cents == kept_in(ledger.wallets.vals(), ledger.wallets.vals().len() as int, WalletKind::Player),
{
}

/// The cash in all accounts is what their wallets hold, added up.
pub proof fn law_the_cash_is_in_the_wallets(accounts: Seq<Account>, n: int, ledger: &LedgerView)
    requires
        0 < n <= accounts.len(),
    ensures
        cash_in(accounts, 0, ledger) == 0,
        i64::MIN <= cash_in(accounts, n - 1, ledger) + ledger.balance_of(accounts[n - 1].wallet) <= i64::MAX
            ==> cash_in(accounts, n, ledger) == cash_in(accounts, n - 1, ledger) + ledger.balance_of(
            accounts[n - 1].wallet,
        ),
{
}

/// A fill and a stop that fired are shown to the user whose trader it was and
/// to nobody else; everything else is shown to everybody.
pub proof fn law_private_notices_go_to_their_owner(
    notice: Notice,
    viewer: Option<UserId>,
    directory: Directory,
    r: bool,
)
    requires
        directory.wf(),
        call_ensures(Notice::visible_to, (notice, viewer, &directory), r),
    ensures
        notice matches Notice::Fill(trader) ==> (r <==> viewer is Some && directory.owners.map().contains_key(trader.0)
            && directory.owners.map()[trader.0] == (viewer->0).0),
        notice matches Notice::StopTriggered(trader) ==> (r <==> viewer is Some
            && directory.owners.map().contains_key(trader.0) && directory.owners.map()[trader.0] == (viewer->0).0),
        !(notice is Fill) && !(notice is StopTriggered) ==> r,
{
}

/// A user's holdings are one for each symbol that a trader of the user's has a
/// position in, and none besides, in the order of their tickers; each is worth
/// the user's stake at the symbol's mark.
pub proof fn law_a_users_holdings_are_told_once_each(
    market: Market,
    user: UserId,
    views: Vec<SymbolView>,
    holdings: Vec<HoldingDto>,
    i: int,
    j: int,
    t: int,
    symbol: Seq<char>,
)
    requires
        market.wf(),
        call_ensures(Market::user_holdings, (&market, user, &views), holdings),
    ensures
        0 <= i < j < holdings@.len() ==> text_before(holdings@[i].symbol@, holdings@[j].symbol@),
        0 <= i < holdings@.len() ==> {
            &&& exists|k: int|
                0 <= k < market.traders.vals().len() && (#[trigger] market.traders.vals()[k]).user_id == user
                    && market.traders.vals()[k].positions.map().contains_key(holdings@[i].symbol@)
            &&& holdings@[i].mark_cents == mark_in(views@, holdings@[i].symbol@)
            &&& holdings@[i].qty == stake_in(
                market.traders.vals(),
                market.traders.vals().len() as int,
                user,
                holdings@[i].symbol@,
            ).qty
        },
        0 <= t < market.traders.vals().len() && market.traders.vals()[t].user_id == user
            && market.traders.vals()[t].positions.map().contains_key(symbol) ==> exists|k: int|
            0 <= k < holdings@.len() && (#[trigger] holdings@[k]).symbol@ == symbol,
{
    let traders = market.traders.vals();
    let n = traders.len() as int;
    if 0 <= i < holdings@.len() {
        assert(somebody_holds(traders, n, user, holdings@[i].symbol@));
        let k = choose|k: int| 0 <= k < n && holds_for(#[trigger] traders[k], user, holdings@[i].symbol@);
        assert(traders[k].user_id == user);
    }
    if 0 <= t < n && traders[t].user_id == user && traders[t].positions.map().contains_key(symbol) {
        assert(holds_for(traders[t], user, symbol));
        assert(somebody_holds(traders, n, user, symbol));
    }
}

/// A user is shown under its own number with its own accounts and traders, and
/// never with a key.
pub proof fn law_a_user_is_shown_whole(
    market: Market,
    ledger: LedgerView,
    id: UserId,
    views: Vec<SymbolView>,
    r: Result<UserDto, ApiError>,
)
    requires
        market.wf(),
        ledger.wf(),
        call_ensures(Market::user_dto, (&market, &ledger, id, &views), r),
    ensures
        r is Ok <==> market.users.map().contains_key(id.0),
        r matches Ok(dto) ==> {
            let user = market.users.map()[id.0];
            &&& dto.id == id.0
            &&& dto.accounts@.len() == user.accounts@.len()
            &&& forall|i: int| 0 <= i < dto.accounts@.len() ==> #[trigger] dto.accounts@[i] == user.accounts@[i].0
            &&& dto.traders@ == traders_of(market.traders.vals(), id)
            &&& dto.balance_cents == balances_in(
                user.accounts@,
                user.accounts@.len() as int,
                market.accounts.map(),
                &ledger,
            )
            &&& dto.api_key is None
        },
        r matches Err(e) ==> e.status == 404,
{
    if r is Ok {
        assert(market.user_wf(id.0));
    }
}

/// What holdings come to is the shares of them all and what they are all
/// worth.
pub proof fn law_holdings_come_to_their_sum(holdings: Seq<HoldingDto>, one: HoldingDto, shares: u64, cents: i64)
    requires
        holdings_total(holdings, shares, cents),
        0 <= sum_of(holdings.map_values(|h: HoldingDto| h.qty as int)),
        shares + one.qty <= u64::MAX,
        sum_of(holdings.map_values(|h: HoldingDto| h.qty as int)) <= u64::MAX,
        i64::MIN <= cents + one.market_value_cents <= i64::MAX,
    ensures
        holdings_total(holdings.push(one), (shares + one.qty) as u64, (cents + one.market_value_cents) as i64),
{
    let qty = |h: HoldingDto| h.qty as int;
    let value = |h: HoldingDto| h.market_value_cents as int;
    assert(holdings.push(one).map_values(qty) =~= holdings.map_values(qty).push(one.qty as int));
    assert(holdings.push(one).map_values(value) =~= holdings.map_values(value).push(one.market_value_cents as int));
    lemma_sum_push(holdings.map_values(qty), one.qty as int);
    lemma_sum_push(holdings.map_values(value), one.market_value_cents as int);
}

/// An account is shown as itself, with the balance of its own wallet and, where
/// somebody trades on it, a trader that does.
pub proof fn law_an_account_is_shown_with_its_trader(
    market: Market,
    ledger: LedgerView,
    id: AccountId,
    r: Result<AccountDto, ApiError>,
)
    requires
        market.wf(),
        ledger.wf(),
        call_ensures(Market::account_dto, (&market, &ledger, id), r),
    ensures
        r is Ok <==> market.accounts.map().contains_key(id.0),
        r matches Ok(dto) ==> {
            let account = market.accounts.map()[id.0];
            &&& dto.id == id.0 && dto.user_id == account.user_id.0 && dto.wallet_id == account.wallet.0
            &&& dto.balance_cents == ledger.balance_of(account.wallet)
            &&& dto.reserved_cents == ledger.reserved_of(account.wallet)
            &&& dto.available_cents == ledger.available_of(account.wallet)
            &&& dto.deposited_cents == account.deposited_cents && dto.withdrawn_cents == account.withdrawn_cents
            &&& dto.trader_id matches Some(trader) ==> market.traders.map().contains_key(trader)
                && market.traders.map()[trader].account_id == id
        },
{
    if r is Ok {
        assert(market.account_wf(id.0));
        let dto = r->Ok_0;
        if dto.trader_id is Some {
            let i = choose|i: int| #[trigger]
                market.first_on(i, id) && dto.trader_id->0 == market.traders.vals()[i].id.0;
            market.traders.lemma_listed();
            market.traders.lemma_at(i);
            assert(market.trader_wf(market.traders.keys()[i]));
        }
    }
}

} // verus!
