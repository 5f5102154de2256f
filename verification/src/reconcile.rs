//! Read-only checks across accounts, traders and books.
//!
//! They run over a [`Save`]: the one consistent picture of the whole market
//! there is, taken in one go or read from disk, which is how a save file is
//! validated before anything is built from it.

use vstd::prelude::*;

use crate::account::{history_faults, listed, views, Account, User};
use crate::jobs::{Job, JobStatus};
use crate::ledger::{wide_notional, LedgerView, WalletKind};
use crate::num::clamp_usize;
use crate::orders::ClientKey;
use crate::save::{push_issue, AssetKind, Budget, RewardRule, Save, SymbolSave};
use crate::table::{in_order, lemma_in_order_holds, lemma_in_order_insert, vals_below, Table};
use crate::text::{decimal, eq_ignoring_case, push_u128, push_u64, quoted, quoted_text, same_ignoring_case};
use crate::trading::{Owner, Resting, Side, Trader};

verus! {

/// A consistent snapshot's reconciliation results. Ledger checks cover only
/// retained entries; synthetic liquidity has no independently held inventory.
#[derive(Debug)]
pub struct Reconciliation {
    pub valid: bool,
    pub accounts_checked: usize,
    pub traders_checked: usize,
    pub symbols_checked: usize,
    pub resting_orders_checked: usize,
    /// Wallets in the currency ledger, the four the world always has
    /// included.
    pub wallets_checked: usize,
    /// Currency created since genesis.
    pub minted_cents: i64,
    /// Currency destroyed.
    pub burned_cents: i64,
    /// `minted − burned`: what every wallet but issuance must add up to.
    pub outstanding_cents: i64,
    /// What the wallets actually hold, added up.
    pub circulating_cents: i128,
    /// What unfunded liquidity has put into players' hands beyond its float.
    pub synthetic_debt_cents: i128,
    /// Jobs still in the furnace.
    pub jobs_running: usize,
    /// Budget wallets rewards are paid from.
    pub budgets_checked: usize,
    pub issues: Vec<String>,
}

// ---------------------------------------------------------------------------
// Who is who

/// Where each id stands last.
pub open spec fn places(ids: Seq<u64>) -> Map<u64, usize>
    decreases ids.len(),
{
    if ids.len() == 0 {
        Map::empty()
    } else {
        places(ids.drop_last()).insert(ids.last(), (ids.len() - 1) as usize)
    }
}

/// The ids of accounts.
pub open spec fn account_ids(accounts: Seq<Account>) -> Seq<u64> {
    accounts.map_values(|a: Account| a.id.0)
}

/// The ids of traders.
pub open spec fn trader_ids(traders: Seq<Trader>) -> Seq<u64> {
    traders.map_values(|t: Trader| t.id.0)
}

/// Things by ascending id, and the last of those that share one.
pub open spec fn by_id<T>(things: Seq<T>, ids: Seq<u64>) -> Seq<T> {
    in_order(places(ids)).map_values(|i: usize| things[i as int])
}

/// Every place leads into the list, to its own id.
pub proof fn lemma_places(ids: Seq<u64>)
    requires
        ids.len() <= usize::MAX,
    ensures
        forall|id: u64| #[trigger]
            places(ids).contains_key(id) ==> places(ids)[id] < ids.len() && ids[places(ids)[id] as int] == id,
        forall|id: u64| #[trigger] places(ids).contains_key(id) == ids.contains(id),
    decreases ids.len(),
{
    if ids.len() > 0 {
        let shorter = ids.drop_last();
        lemma_places(shorter);
        assert forall|id: u64| #[trigger] places(ids).contains_key(id) implies places(ids)[id] < ids.len()
            && ids[places(ids)[id] as int] == id by {
            if id != ids.last() {
                assert(places(shorter).contains_key(id));
                assert(shorter[places(shorter)[id] as int] == ids[places(shorter)[id] as int]);
            }
        }
        assert forall|id: u64| #[trigger] places(ids).contains_key(id) == ids.contains(id) by {
            assert(places(shorter).contains_key(id) == shorter.contains(id));
            if ids.contains(id) && id != ids.last() {
                let j = choose|j: int| 0 <= j < ids.len() && ids[j] == id;
                assert(shorter[j] == id);
            }
            if shorter.contains(id) {
                let j = choose|j: int| 0 <= j < shorter.len() && shorter[j] == id;
                assert(ids[j] == id);
            }
            assert(ids[ids.len() - 1] == ids.last());
        }
    }
}

/// Where each id stands last.
fn index(ids: &Vec<u64>) -> (table: Table<u64, usize>)
    ensures
        table.wf(),
        table.map() == places(ids@),
{
    let mut table: Table<u64, usize> = Table::new();
    let mut i: usize = 0;
    proof {
        assert(ids@.take(0) =~= Seq::<u64>::empty());
    }
    while i < ids.len()
        invariant
            i <= ids.len(),
            table.wf(),
            table.map() == places(ids@.take(i as int)),
        decreases ids.len() - i,
    {
        proof {
            let longer = ids@.take(i as int + 1);
            assert(longer.drop_last() =~= ids@.take(i as int));
            assert(longer.last() == ids@[i as int]);
        }
        table.insert(ids[i], i);
        i = i + 1;
    }
    proof {
        assert(ids@.take(ids@.len() as int) =~= ids@);
    }
    table
}

pub(crate) fn ids_of_accounts(accounts: &Vec<Account>) -> (ids: Vec<u64>)
    ensures
        ids@ == account_ids(accounts@),
{
    let mut ids: Vec<u64> = Vec::new();
    let mut i: usize = 0;
    while i < accounts.len()
        invariant
            i <= accounts.len(),
            ids@.len() == i,
            forall|j: int| 0 <= j < i ==> ids@[j] == (#[trigger] accounts@[j]).id.0,
        decreases accounts.len() - i,
    {
        ids.push(accounts[i].id.0);
        i = i + 1;
    }
    proof {
        assert(ids@ =~= account_ids(accounts@));
    }
    ids
}

pub(crate) fn ids_of_traders(traders: &Vec<Trader>) -> (ids: Vec<u64>)
    ensures
        ids@ == trader_ids(traders@),
{
    let mut ids: Vec<u64> = Vec::new();
    let mut i: usize = 0;
    while i < traders.len()
        invariant
            i <= traders.len(),
            ids@.len() == i,
            forall|j: int| 0 <= j < i ==> ids@[j] == (#[trigger] traders@[j]).id.0,
        decreases traders.len() - i,
    {
        ids.push(traders[i].id.0);
        i = i + 1;
    }
    proof {
        assert(ids@ =~= trader_ids(traders@));
    }
    ids
}

// ---------------------------------------------------------------------------
// What rests

/// `x` in 128 bits, or the end of the range it lies beyond.
pub open spec fn clamp_i128(x: int) -> i128 {
    if x < i128::MIN {
        i128::MIN
    } else if x > i128::MAX {
        i128::MAX
    } else {
        x as i128
    }
}

/// `x` in 128 bits without a sign, or the largest number.
pub open spec fn clamp_u128(x: int) -> u128 {
    if x > u128::MAX {
        u128::MAX
    } else {
        x as u128
    }
}

/// What the resting orders hold back: cash by account, and shares by trader
/// and symbol.
#[verifier::ext_equal]
pub struct Tally {
    pub cash: Map<u64, i128>,
    pub sells: Map<(u64, Seq<char>), u128>,
}

impl Tally {
    /// Nothing rests.
    pub open spec fn empty() -> Tally {
        Tally { cash: Map::empty(), sells: Map::empty() }
    }

    /// Cash held back in an account.
    pub open spec fn cash_of(self, account: u64) -> i128 {
        if self.cash.contains_key(account) {
            self.cash[account]
        } else {
            0
        }
    }

    /// Shares of a symbol promised by a trader.
    pub open spec fn sells_of(self, trader: u64, symbol: Seq<char>) -> u128 {
        if self.sells.contains_key((trader, symbol)) {
            self.sells[(trader, symbol)]
        } else {
            0
        }
    }

    /// With one more order resting.
    pub open spec fn with(self, symbol: Seq<char>, order: Resting, traders: Seq<Trader>) -> Tally {
        match order.owner {
            Owner::Trader(id) => if !places(trader_ids(traders)).contains_key(id.0) {
                self
            } else {
                let account = traders[places(trader_ids(traders))[id.0] as int].account_id.0;
                match order.side {
                    Side::Buy => Tally {
                        cash: self.cash.insert(
                            account,
                            clamp_i128(self.cash_of(account) + order.price_cents * order.outstanding),
                        ),
                        ..self
                    },
                    Side::Sell => Tally {
                        sells: self.sells.insert(
                            (id.0, symbol),
                            clamp_u128(self.sells_of(id.0, symbol) + order.outstanding),
                        ),
                        ..self
                    },
                }
            },
            Owner::Synthetic => self,
        }
    }

    /// With the first `n` of a symbol's orders resting.
    pub open spec fn with_all(self, symbol: Seq<char>, orders: Seq<Resting>, n: int, traders: Seq<Trader>) -> Tally
        decreases n,
    {
        if n <= 0 {
            self
        } else {
            self.with_all(symbol, orders, n - 1, traders).with(symbol, orders[n - 1], traders)
        }
    }

    /// With everything that rests in the first `n` symbols.
    pub open spec fn resting(symbols: Seq<SymbolSave>, n: int, traders: Seq<Trader>) -> Tally
        decreases n,
    {
        if n <= 0 {
            Tally::empty()
        } else {
            Tally::resting(symbols, n - 1, traders).with_all(
                symbols[n - 1].symbol@,
                symbols[n - 1].orders@,
                symbols[n - 1].orders@.len() as int,
                traders,
            )
        }
    }
}

/// Orders of traders among the first `n`.
pub open spec fn traders_orders(orders: Seq<Resting>, n: int) -> nat
    decreases n,
{
    if n <= 0 {
        0
    } else {
        traders_orders(orders, n - 1) + if orders[n - 1].owner is Trader {
            1nat
        } else {
            0
        }
    }
}

/// Orders of traders in the first `n` symbols.
pub open spec fn orders_checked(symbols: Seq<SymbolSave>, n: int) -> nat
    decreases n,
{
    if n <= 0 {
        0
    } else {
        orders_checked(symbols, n - 1) + traders_orders(symbols[n - 1].orders@, symbols[n - 1].orders@.len() as int)
    }
}

/// Shares that known traders bid for with the first `n` orders.
pub open spec fn bid_for(orders: Seq<Resting>, n: int, traders: Seq<Trader>) -> int
    decreases n,
{
    if n <= 0 {
        0
    } else {
        let order = orders[n - 1];
        bid_for(orders, n - 1, traders) + match order.owner {
            Owner::Trader(id) => if places(trader_ids(traders)).contains_key(id.0) && order.side is Buy {
                order.outstanding as int
            } else {
                0
            },
            Owner::Synthetic => 0,
        }
    }
}

/// What a trader's position in a symbol says it holds.
pub open spec fn position_qty(t: Trader, symbol: Seq<char>) -> int {
    if t.positions.map().contains_key(symbol) {
        t.positions.map()[symbol].qty as int
    } else {
        0
    }
}

/// What the first `n` traders hold of a symbol, added up.
pub open spec fn held_by(traders: Seq<Trader>, n: int, symbol: Seq<char>) -> int
    decreases n,
{
    if n <= 0 {
        0
    } else {
        held_by(traders, n - 1, symbol) + position_qty(traders[n - 1], symbol)
    }
}

/// What is wrong with one resting order.
pub open spec fn order_fault(symbol: Seq<char>, order: Resting, traders: Seq<Trader>) -> Seq<Seq<char>> {
    let name = symbol + " order "@ + decimal(order.id as nat);
    match order.owner {
        Owner::Synthetic => Seq::empty(),
        Owner::Trader(id) => if !places(trader_ids(traders)).contains_key(id.0) {
            seq![name + " references missing trader "@ + decimal(id.0 as nat)]
        } else {
            listed(order.remaining == 0 || order.outstanding > order.qty, name + " has invalid remaining quantity"@)
        },
    }
}

/// What is wrong with the first `n` orders of a symbol.
pub open spec fn order_faults(symbol: Seq<char>, orders: Seq<Resting>, n: int, traders: Seq<Trader>) -> Seq<Seq<char>>
    decreases n,
{
    if n <= 0 {
        Seq::empty()
    } else {
        order_faults(symbol, orders, n - 1, traders) + order_fault(symbol, orders[n - 1], traders)
    }
}

/// What is wrong with the supply of a symbol, of which so much is held and
/// so much bid for.
///
/// A good's units exist only because they were issued, and are only ever
/// somewhere: what is issued and not yet consumed is exactly what the holders
/// hold. A stock quoted by synthetic liquidity can be bought from the shares
/// nobody holds, so the resting bids are spoken for as well.
pub open spec fn supply_fault(symbol: SymbolSave, held: int, bids: int) -> Seq<Seq<char>> {
    let name = symbol.symbol@;
    if held < 0 {
        seq![name + " holdings are negative"@]
    } else {
        match symbol.info {
            None => Seq::empty(),
            Some(info) => match info.asset {
                AssetKind::Good => listed(
                    held != info.units_outstanding,
                    name + " holdings ("@ + decimal(held as nat) + ") differ from units issued less consumed ("@
                        + decimal(info.units_outstanding as nat) + ")"@,
                ),
                AssetKind::Stock => if symbol.synthetic && held + bids > info.units_outstanding {
                    seq![name + " holdings and resting bids exceed outstanding supply"@]
                } else {
                    listed(held > info.units_outstanding, name + " holdings exceed outstanding supply"@)
                },
            },
        }
    }
}

/// What is wrong with one symbol: its orders, then its supply.
pub open spec fn symbol_fault(symbol: SymbolSave, traders: Seq<Trader>) -> Seq<Seq<char>> {
    let all = by_id(traders, trader_ids(traders));
    order_faults(symbol.symbol@, symbol.orders@, symbol.orders@.len() as int, traders) + supply_fault(
        symbol,
        held_by(all, all.len() as int, symbol.symbol@),
        bid_for(symbol.orders@, symbol.orders@.len() as int, traders),
    )
}

/// What is wrong with the first `n` symbols.
pub open spec fn symbol_faults(symbols: Seq<SymbolSave>, n: int, traders: Seq<Trader>) -> Seq<Seq<char>>
    decreases n,
{
    if n <= 0 {
        Seq::empty()
    } else {
        symbol_faults(symbols, n - 1, traders) + symbol_fault(symbols[n - 1], traders)
    }
}

/// Every trader's tables are in order.
pub open spec fn traders_wf(traders: Seq<Trader>) -> bool {
    forall|i: int| 0 <= i < traders.len() ==> (#[trigger] traders[i]).wf()
}

/// What all the traders hold of a symbol.
fn held_in(traders: &Vec<Trader>, order: &Table<u64, usize>, symbol: &str) -> (held: i128)
    requires
        traders_wf(traders@),
        order.wf(),
        order.map() == places(trader_ids(traders@)),
    ensures
        ({
            let all = by_id(traders@, trader_ids(traders@));
            held == held_by(all, all.len() as int, symbol@)
        }),
        -0x8000_0000_0000_0000_0000_0000_0000_0000 <= held <= 0x7fff_ffff_ffff_ffff_ffff_ffff_ffff_ffff,
{
    let ghost all = by_id(traders@, trader_ids(traders@));
    let n: usize = order.len();
    let key = symbol.to_owned();
    let mut held: i128 = 0;
    let mut i: usize = 0;
    proof {
        assert(traders@.len() == traders.len());
        lemma_places(trader_ids(traders@));
        order.lemma_in_order();
        assert(all.len() == n);
    }
    while i < n
        invariant
            i <= n,
            n == order.keys().len(),
            order.wf(),
            order.map() == places(trader_ids(traders@)),
            order.vals() == in_order(places(trader_ids(traders@))),
            all == by_id(traders@, trader_ids(traders@)),
            all.len() == n,
            traders_wf(traders@),
            forall|id: u64| #[trigger]
                places(trader_ids(traders@)).contains_key(id) ==> places(trader_ids(traders@))[id] < traders@.len(),
            key@ == symbol@,
            held == held_by(all, i as int, symbol@),
            -0x8000_0000_0000_0000 * i <= held <= 0x8000_0000_0000_0000 * i,
        decreases n - i,
    {
        let place: usize = *order.val_at(i);
        let trader = &traders[place];
        proof {
            assert(all[i as int] == traders@[place as int]);
        }
        match trader.positions.get(&key) {
            Some(position) => {
                held = held + position.qty as i128;
            },
            None => {},
        }
        i = i + 1;
    }
    held
}

fn sat_add_i128(a: i128, b: i128) -> (r: i128)
    ensures
        r == clamp_i128(a + b),
{
    match a.checked_add(b) {
        Some(r) => r,
        None => if b < 0 {
            i128::MIN
        } else {
            i128::MAX
        },
    }
}

fn sat_add_u128(a: u128, b: u128) -> (r: u128)
    ensures
        r == clamp_u128(a + b),
{
    match a.checked_add(b) {
        Some(r) => r,
        None => u128::MAX,
    }
}

fn one_more(n: usize) -> (r: usize)
    ensures
        forall|count: nat| n == #[trigger] clamp_usize(count) ==> r == clamp_usize(count + 1),
{
    if n < usize::MAX {
        n + 1
    } else {
        n
    }
}

/// Check one resting order, and add what it holds back to the tally.
fn check_order(
    symbol: &str,
    order: &Resting,
    traders: &Vec<Trader>,
    index: &Table<u64, usize>,
    cash: &mut Table<u64, i128>,
    sells: &mut Table<ClientKey, u128>,
    issues: &mut Vec<String>,
)
    requires
        index.wf(),
        index.map() == places(trader_ids(traders@)),
        old(cash).wf(),
        old(sells).wf(),
    ensures
        final(cash).wf(),
        final(sells).wf(),
        (Tally { cash: final(cash).map(), sells: final(sells).map() }) == (Tally {
            cash: old(cash).map(),
            sells: old(sells).map(),
        }).with(symbol@, *order, traders@),
        views(final(issues)@) == views(old(issues)@) + order_fault(symbol@, *order, traders@),
{
    let ghost start = views(issues@);
    let ghost tally = Tally { cash: cash.map(), sells: sells.map() };
    proof {
        assert(start + Seq::<Seq<char>>::empty() =~= start);
        assert(traders@.len() == traders.len());
        lemma_places(trader_ids(traders@));
    }
    let id: u64 = match order.owner {
        Owner::Synthetic => {
            return;
        },
        Owner::Trader(id) => id.0,
    };
    let place: usize = match index.get(&id) {
        Some(place) => *place,
        None => {
            let mut text = symbol.to_owned();
            text.append(" order ");
            push_u64(&mut text, order.id);
            text.append(" references missing trader ");
            push_u64(&mut text, id);
            push_issue(issues, text);
            proof {
                assert(views(issues@) =~= start + order_fault(symbol@, *order, traders@));
            }
            return;
        },
    };
    if order.remaining == 0 || order.outstanding > order.qty {
        let mut text = symbol.to_owned();
        text.append(" order ");
        push_u64(&mut text, order.id);
        text.append(" has invalid remaining quantity");
        push_issue(issues, text);
    }
    proof {
        assert(views(issues@) =~= start + order_fault(symbol@, *order, traders@));
    }
    match order.side {
        Side::Buy => {
            let account: u64 = traders[place].account_id.0;
            let so_far: i128 = match cash.get(&account) {
                Some(cents) => *cents,
                None => 0,
            };
            cash.insert(account, sat_add_i128(so_far, wide_notional(order.price_cents, order.outstanding)));
        },
        Side::Sell => {
            let key = ClientKey { trader: id, id: symbol.to_owned() };
            let so_far: u128 = match sells.get(&key) {
                Some(shares) => *shares,
                None => 0,
            };
            sells.insert(key, sat_add_u128(so_far, order.outstanding as u128));
        },
    }
    proof {
        assert((Tally { cash: cash.map(), sells: sells.map() }) =~= tally.with(symbol@, *order, traders@));
    }
}

/// Check the supply of a symbol.
fn check_supply(symbol: &SymbolSave, held: i128, bids: u128, issues: &mut Vec<String>)
    requires
        bids <= 0xffff_ffff_ffff_ffff * 0xffff_ffff_ffff_ffff,
    ensures
        views(final(issues)@) == views(old(issues)@) + supply_fault(*symbol, held as int, bids as int),
{
    let ghost start = views(issues@);
    if held < 0 {
        let mut text = symbol.symbol.clone();
        text.append(" holdings are negative");
        push_issue(issues, text);
    } else {
        match &symbol.info {
            None => {},
            Some(info) => {
                let out: u128 = info.units_outstanding as u128;
                let held: u128 = held as u128;
                match info.asset {
                    AssetKind::Good => {
                        if held != out {
                            let mut text = symbol.symbol.clone();
                            text.append(" holdings (");
                            push_u128(&mut text, held);
                            text.append(") differ from units issued less consumed (");
                            push_u128(&mut text, out);
                            text.append(")");
                            push_issue(issues, text);
                        }
                    },
                    AssetKind::Stock => {
                        if symbol.synthetic && (bids > out || held > out - bids) {
                            let mut text = symbol.symbol.clone();
                            text.append(" holdings and resting bids exceed outstanding supply");
                            push_issue(issues, text);
                        } else if held > out {
                            let mut text = symbol.symbol.clone();
                            text.append(" holdings exceed outstanding supply");
                            push_issue(issues, text);
                        }
                    },
                }
            },
        }
    }
    proof {
        assert(views(issues@) =~= start + supply_fault(*symbol, held as int, bids as int));
    }
}

/// Check every symbol. Returns how many orders of traders rest.
fn check_symbols(
    symbols: &Vec<SymbolSave>,
    traders: &Vec<Trader>,
    index: &Table<u64, usize>,
    cash: &mut Table<u64, i128>,
    sells: &mut Table<ClientKey, u128>,
    issues: &mut Vec<String>,
) -> (checked: usize)
    requires
        traders_wf(traders@),
        index.wf(),
        index.map() == places(trader_ids(traders@)),
        old(cash).wf(),
        old(sells).wf(),
        old(cash).map() == Map::<u64, i128>::empty(),
        old(sells).map() == Map::<(u64, Seq<char>), u128>::empty(),
    ensures
        final(cash).wf(),
        final(sells).wf(),
        (Tally { cash: final(cash).map(), sells: final(sells).map() }) == Tally::resting(
            symbols@,
            symbols@.len() as int,
            traders@,
        ),
        views(final(issues)@) == views(old(issues)@) + symbol_faults(symbols@, symbols@.len() as int, traders@),
        checked == clamp_usize(orders_checked(symbols@, symbols@.len() as int)),
{
    let ghost start = views(issues@);
    let mut checked: usize = 0;
    let mut i: usize = 0;
    proof {
        assert(start + symbol_faults(symbols@, 0, traders@) =~= start);
        assert((Tally { cash: cash.map(), sells: sells.map() }) =~= Tally::empty());
    }
    while i < symbols.len()
        invariant
            i <= symbols.len(),
            traders_wf(traders@),
            index.wf(),
            index.map() == places(trader_ids(traders@)),
            cash.wf(),
            sells.wf(),
            (Tally { cash: cash.map(), sells: sells.map() }) == Tally::resting(symbols@, i as int, traders@),
            views(issues@) == start + symbol_faults(symbols@, i as int, traders@),
            checked == clamp_usize(orders_checked(symbols@, i as int)),
        decreases symbols.len() - i,
    {
        let symbol = &symbols[i];
        let ghost so_far = views(issues@);
        let ghost before = Tally::resting(symbols@, i as int, traders@);
        let ghost counted = orders_checked(symbols@, i as int);
        let held: i128 = held_in(traders, index, symbol.symbol.as_str());
        let mut bids: u128 = 0;
        let mut j: usize = 0;
        proof {
            assert(so_far + order_faults(symbol.symbol@, symbol.orders@, 0, traders@) =~= so_far);
        }
        while j < symbol.orders.len()
            invariant
                j <= symbol.orders.len(),
                index.wf(),
                index.map() == places(trader_ids(traders@)),
                cash.wf(),
                sells.wf(),
                (Tally { cash: cash.map(), sells: sells.map() }) == before.with_all(
                    symbol.symbol@,
                    symbol.orders@,
                    j as int,
                    traders@,
                ),
                views(issues@) == so_far + order_faults(symbol.symbol@, symbol.orders@, j as int, traders@),
                checked == clamp_usize(counted + traders_orders(symbol.orders@, j as int)),
                bids == bid_for(symbol.orders@, j as int, traders@),
                bids <= 0xffff_ffff_ffff_ffff * j,
            decreases symbol.orders.len() - j,
        {
            let order = &symbol.orders[j];
            let ghost now = views(issues@);
            check_order(symbol.symbol.as_str(), order, traders, index, cash, sells, issues);
            proof {
                let upto = order_faults(symbol.symbol@, symbol.orders@, j as int, traders@);
                let one = order_fault(symbol.symbol@, *order, traders@);
                assert(so_far + upto + one =~= so_far + (upto + one));
            }
            match order.owner {
                Owner::Synthetic => {},
                Owner::Trader(id) => {
                    checked = one_more(checked);
                    if index.contains_key(&id.0) && order.side == Side::Buy {
                        proof {
                            assert(0xffff_ffff_ffff_ffff * (j + 1) <= 0xffff_ffff_ffff_ffff * 0xffff_ffff_ffff_ffff)
                                by (nonlinear_arith)
                                requires
                                    j + 1 <= 0xffff_ffff_ffff_ffff,
                            ;
                        }
                        bids = bids + order.outstanding as u128;
                    }
                },
            }
            j = j + 1;
        }
        proof {
            assert(0xffff_ffff_ffff_ffff * j <= 0xffff_ffff_ffff_ffff * 0xffff_ffff_ffff_ffff) by (nonlinear_arith)
                requires
                    j <= 0xffff_ffff_ffff_ffff,
            ;
        }
        check_supply(symbol, held, bids, issues);
        proof {
            let orders = order_faults(symbol.symbol@, symbol.orders@, symbol.orders@.len() as int, traders@);
            let supply = supply_fault(*symbol, held as int, bids as int);
            let upto = symbol_faults(symbols@, i as int, traders@);
            assert(so_far + orders + supply =~= start + (upto + (orders + supply)));
        }
        i = i + 1;
    }
    checked
}

// ---------------------------------------------------------------------------
// Accounts

/// The issues, each with its owner in front.
pub open spec fn prefixed(prefix: Seq<char>, issues: Seq<Seq<char>>) -> Seq<Seq<char>> {
    issues.map_values(|issue: Seq<char>| prefix + issue)
}

/// Write issues down with their owner in front.
fn push_prefixed(issues: &mut Vec<String>, prefix: &str, more: &Vec<String>)
    ensures
        views(final(issues)@) == views(old(issues)@) + prefixed(prefix@, views(more@)),
{
    let ghost start = views(issues@);
    let ghost all = prefixed(prefix@, views(more@));
    let mut i: usize = 0;
    proof {
        assert(start + all.take(0) =~= start);
    }
    while i < more.len()
        invariant
            i <= more.len(),
            all == prefixed(prefix@, views(more@)),
            all.len() == more@.len(),
            views(issues@) == start + all.take(i as int),
        decreases more.len() - i,
    {
        let mut text = prefix.to_owned();
        text.append(more[i].as_str());
        push_issue(issues, text);
        proof {
            assert(text@ == all[i as int]);
            assert(start + all.take(i as int + 1) =~= (start + all.take(i as int)).push(text@));
        }
        i = i + 1;
    }
    proof {
        assert(all.take(all.len() as int) =~= all);
    }
}

/// What is wrong with one account: its user, its wallet, its history, and
/// the cash held back for its orders.
pub open spec fn account_fault(account: Account, ledger: &LedgerView, users: Seq<u64>, tally: Tally) -> Seq<Seq<char>> {
    let name = "account "@ + decimal(account.id.0 as nat);
    listed(!users.contains(account.user_id.0), name + " has inconsistent identity or missing user"@) + prefixed(
        name + ": "@,
        account.faults(ledger) + history_faults(
            account.history(),
            account.entries_total,
            ledger.balance_of(account.wallet),
        ),
    ) + listed(
        ledger.reserved_of(account.wallet) != tally.cash_of(account.id.0),
        name + " cash reservation differs from resting buys"@,
    )
}

/// What is wrong with the first `n` accounts.
pub open spec fn account_faults(accounts: Seq<Account>, n: int, ledger: &LedgerView, users: Seq<u64>, tally: Tally) -> Seq<
    Seq<char>,
>
    decreases n,
{
    if n <= 0 {
        Seq::empty()
    } else {
        account_faults(accounts, n - 1, ledger, users, tally) + account_fault(
            accounts[n - 1],
            ledger,
            users,
            tally,
        )
    }
}

/// Check one account.
fn check_account(
    account: &Account,
    ledger: &LedgerView,
    users: &Table<u64, usize>,
    cash: &Table<u64, i128>,
    issues: &mut Vec<String>,
    Ghost(ids): Ghost<Seq<u64>>,
    Ghost(tally): Ghost<Tally>,
)
    requires
        ledger.wf(),
        account.history().len() <= i64::MAX,
        users.wf(),
        forall|id: u64| #[trigger] users.map().contains_key(id) == ids.contains(id),
        cash.wf(),
        cash.map() == tally.cash,
    ensures
        views(final(issues)@) == views(old(issues)@) + account_fault(*account, ledger, ids, tally),
{
    let ghost start = views(issues@);
    let mut name = "account ".to_owned();
    push_u64(&mut name, account.id.0);
    if !users.contains_key(&account.user_id.0) {
        let mut text = name.clone();
        text.append(" has inconsistent identity or missing user");
        push_issue(issues, text);
    }
    let ghost first = views(issues@);
    let mut prefix = name.clone();
    prefix.append(": ");
    push_prefixed(issues, prefix.as_str(), &account.issues(ledger));
    push_prefixed(issues, prefix.as_str(), &account.ledger_issues(ledger));
    let ghost second = views(issues@);
    let held: i128 = match cash.get(&account.id.0) {
        Some(cents) => *cents,
        None => 0,
    };
    if account.reserved_cents(ledger) as i128 != held {
        let mut text = name.clone();
        text.append(" cash reservation differs from resting buys");
        push_issue(issues, text);
    }
    proof {
        let a = account.faults(ledger);
        let b = history_faults(account.history(), account.entries_total, ledger.balance_of(account.wallet));
        assert(prefixed(prefix@, a) + prefixed(prefix@, b) =~= prefixed(prefix@, a + b));
        assert(views(issues@) =~= start + account_fault(*account, ledger, ids, tally));
    }
}

/// Every history is short enough to be audited.
pub open spec fn histories_fit(accounts: Seq<Account>) -> bool {
    forall|i: int| 0 <= i < accounts.len() ==> (#[trigger] accounts[i]).history().len() <= i64::MAX
}

/// Check every account, by id.
fn check_accounts(
    accounts: &Vec<Account>,
    index: &Table<u64, usize>,
    ledger: &LedgerView,
    users: &Table<u64, usize>,
    cash: &Table<u64, i128>,
    issues: &mut Vec<String>,
    Ghost(ids): Ghost<Seq<u64>>,
    Ghost(tally): Ghost<Tally>,
)
    requires
        ledger.wf(),
        histories_fit(accounts@),
        index.wf(),
        index.map() == places(account_ids(accounts@)),
        users.wf(),
        forall|id: u64| #[trigger] users.map().contains_key(id) == ids.contains(id),
        cash.wf(),
        cash.map() == tally.cash,
    ensures
        ({
            let all = by_id(accounts@, account_ids(accounts@));
            views(final(issues)@) == views(old(issues)@) + account_faults(all, all.len() as int, ledger, ids, tally)
        }),
{
    let ghost start = views(issues@);
    let ghost all = by_id(accounts@, account_ids(accounts@));
    let n: usize = index.len();
    let mut i: usize = 0;
    proof {
        assert(accounts@.len() == accounts.len());
        lemma_places(account_ids(accounts@));
        index.lemma_in_order();
        assert(all.len() == n);
        assert(start + account_faults(all, 0, ledger, ids, tally) =~= start);
    }
    while i < n
        invariant
            i <= n,
            n == index.keys().len(),
            index.wf(),
            index.map() == places(account_ids(accounts@)),
            index.vals() == in_order(places(account_ids(accounts@))),
            all == by_id(accounts@, account_ids(accounts@)),
            all.len() == n,
            forall|id: u64| #[trigger]
                places(account_ids(accounts@)).contains_key(id) ==> places(account_ids(accounts@))[id] < accounts@.len(),
            ledger.wf(),
            histories_fit(accounts@),
            users.wf(),
            forall|id: u64| #[trigger] users.map().contains_key(id) == ids.contains(id),
            cash.wf(),
            cash.map() == tally.cash,
            views(issues@) == start + account_faults(all, i as int, ledger, ids, tally),
        decreases n - i,
    {
        let place: usize = *index.val_at(i);
        let account = &accounts[place];
        proof {
            assert(all[i as int] == accounts@[place as int]);
        }
        check_account(account, ledger, users, cash, issues, Ghost(ids), Ghost(tally));
        proof {
            let upto = account_faults(all, i as int, ledger, ids, tally);
            let one = account_fault(*account, ledger, ids, tally);
            assert(start + upto + one =~= start + (upto + one));
        }
        i = i + 1;
    }
}

// ---------------------------------------------------------------------------
// Traders

/// A symbol by this name is listed, in whatever case.
pub open spec fn is_listed(symbols: Seq<SymbolSave>, ticker: Seq<char>) -> bool {
    exists|i: int| 0 <= i < symbols.len() && same_ignoring_case((#[trigger] symbols[i]).symbol@, ticker)
}

fn symbol_listed(symbols: &Vec<SymbolSave>, ticker: &str) -> (r: bool)
    ensures
        r == is_listed(symbols@, ticker@),
{
    let mut i: usize = 0;
    while i < symbols.len()
        invariant
            i <= symbols.len(),
            forall|j: int| 0 <= j < i ==> !same_ignoring_case((#[trigger] symbols@[j]).symbol@, ticker@),
        decreases symbols.len() - i,
    {
        if eq_ignoring_case(symbols[i].symbol.as_str(), ticker) {
            return true;
        }
        i = i + 1;
    }
    false
}

/// What is wrong with the first `n` positions of a trader.
pub open spec fn position_faults(t: Trader, n: int, symbols: Seq<SymbolSave>) -> Seq<Seq<char>>
    decreases n,
{
    if n <= 0 {
        Seq::empty()
    } else {
        let ticker = t.positions.keys()[n - 1];
        position_faults(t, n - 1, symbols) + listed(
            !is_listed(symbols, ticker) || t.positions.vals()[n - 1].qty < 0,
            "trader "@ + decimal(t.id.0 as nat) + " has an invalid "@ + ticker + " position"@,
        )
    }
}

/// What is wrong with what a trader promises of the first `n` symbols.
pub open spec fn promise_faults(t: Trader, symbols: Seq<SymbolSave>, n: int, tally: Tally) -> Seq<Seq<char>>
    decreases n,
{
    if n <= 0 {
        Seq::empty()
    } else {
        let ticker = symbols[n - 1].symbol@;
        let name = "trader "@ + decimal(t.id.0 as nat) + " "@ + ticker;
        promise_faults(t, symbols, n - 1, tally) + listed(
            t.promised(ticker) != tally.sells_of(t.id.0, ticker),
            name + " share reservation differs from resting sells"@,
        ) + listed(t.promised(ticker) > t.held(ticker), name + " reserved shares exceed holdings"@)
    }
}

/// The first `n` symbols a trader promises shares of that nobody lists.
pub open spec fn stray_promises(t: Trader, n: int, symbols: Seq<SymbolSave>) -> Seq<Seq<char>>
    decreases n,
{
    if n <= 0 {
        Seq::empty()
    } else {
        let ticker = t.reserved_shares.keys()[n - 1];
        stray_promises(t, n - 1, symbols) + listed(
            !is_listed(symbols, ticker),
            "trader "@ + decimal(t.id.0 as nat) + " reserves unknown symbol "@ + ticker,
        )
    }
}

/// The trader's account is there and belongs to the same user.
pub open spec fn account_matches(t: Trader, accounts: Seq<Account>) -> bool {
    let all = places(account_ids(accounts));
    all.contains_key(t.account_id.0) && accounts[all[t.account_id.0] as int].user_id == t.user_id
}

/// What is wrong with one trader.
pub open spec fn trader_fault(t: Trader, symbols: Seq<SymbolSave>, accounts: Seq<Account>, users: Seq<u64>, tally: Tally) -> Seq<
    Seq<char>,
> {
    let name = "trader "@ + decimal(t.id.0 as nat);
    listed(!users.contains(t.user_id.0), name + " has inconsistent identity or missing user"@) + listed(
        !account_matches(t, accounts),
        name + " account is missing or belongs to another user"@,
    ) + position_faults(t, t.positions.keys().len() as int, symbols) + promise_faults(
        t,
        symbols,
        symbols.len() as int,
        tally,
    ) + stray_promises(t, t.reserved_shares.keys().len() as int, symbols)
}

/// What is wrong with the first `n` traders.
pub open spec fn trader_faults(
    traders: Seq<Trader>,
    n: int,
    symbols: Seq<SymbolSave>,
    accounts: Seq<Account>,
    users: Seq<u64>,
    tally: Tally,
) -> Seq<Seq<char>>
    decreases n,
{
    if n <= 0 {
        Seq::empty()
    } else {
        trader_faults(traders, n - 1, symbols, accounts, users, tally) + trader_fault(
            traders[n - 1],
            symbols,
            accounts,
            users,
            tally,
        )
    }
}

/// Check what one trader holds and promises.
fn check_holdings(
    t: &Trader,
    symbols: &Vec<SymbolSave>,
    sells: &Table<ClientKey, u128>,
    issues: &mut Vec<String>,
    Ghost(tally): Ghost<Tally>,
)
    requires
        t.wf(),
        sells.wf(),
        sells.map() == tally.sells,
    ensures
        views(final(issues)@) == views(old(issues)@) + position_faults(*t, t.positions.keys().len() as int, symbols@)
            + promise_faults(*t, symbols@, symbols@.len() as int, tally) + stray_promises(
            *t,
            t.reserved_shares.keys().len() as int,
            symbols@,
        ),
{
    let ghost start = views(issues@);
    let mut name = "trader ".to_owned();
    push_u64(&mut name, t.id.0);
    let n: usize = t.positions.len();
    let mut i: usize = 0;
    proof {
        assert(start + position_faults(*t, 0, symbols@) =~= start);
    }
    while i < n
        invariant
            i <= n,
            t.wf(),
            n == t.positions.keys().len(),
            name@ == "trader "@ + decimal(t.id.0 as nat),
            views(issues@) == start + position_faults(*t, i as int, symbols@),
        decreases n - i,
    {
        let ticker = t.positions.key_at(i);
        let position = t.positions.val_at(i);
        let ghost so_far = views(issues@);
        let wrong: bool = !symbol_listed(symbols, ticker.as_str()) || position.qty < 0;
        if wrong {
            let mut text = name.clone();
            text.append(" has an invalid ");
            text.append(ticker.as_str());
            text.append(" position");
            push_issue(issues, text);
        }
        proof {
            assert(views(issues@) =~= start + position_faults(*t, i as int + 1, symbols@));
        }
        i = i + 1;
    }
    let ghost first = views(issues@);
    let mut j: usize = 0;
    proof {
        assert(first + promise_faults(*t, symbols@, 0, tally) =~= first);
    }
    while j < symbols.len()
        invariant
            j <= symbols.len(),
            t.wf(),
            sells.wf(),
            sells.map() == tally.sells,
            name@ == "trader "@ + decimal(t.id.0 as nat),
            views(issues@) == first + promise_faults(*t, symbols@, j as int, tally),
        decreases symbols.len() - j,
    {
        let ticker = symbols[j].symbol.as_str();
        let reserved: u64 = t.promised_shares(ticker);
        let key = ClientKey { trader: t.id.0, id: ticker.to_owned() };
        let resting: u128 = match sells.get(&key) {
            Some(shares) => *shares,
            None => 0,
        };
        if reserved as u128 != resting {
            let mut text = name.clone();
            text.append(" ");
            text.append(ticker);
            text.append(" share reservation differs from resting sells");
            push_issue(issues, text);
        }
        if reserved > t.held_shares(ticker) {
            let mut text = name.clone();
            text.append(" ");
            text.append(ticker);
            text.append(" reserved shares exceed holdings");
            push_issue(issues, text);
        }
        proof {
            assert(views(issues@) =~= first + promise_faults(*t, symbols@, j as int + 1, tally));
        }
        j = j + 1;
    }
    let ghost second = views(issues@);
    let m: usize = t.reserved_shares.len();
    let mut k: usize = 0;
    proof {
        assert(second + stray_promises(*t, 0, symbols@) =~= second);
    }
    while k < m
        invariant
            k <= m,
            t.wf(),
            m == t.reserved_shares.keys().len(),
            name@ == "trader "@ + decimal(t.id.0 as nat),
            views(issues@) == second + stray_promises(*t, k as int, symbols@),
        decreases m - k,
    {
        let ticker = t.reserved_shares.key_at(k);
        if !symbol_listed(symbols, ticker.as_str()) {
            let mut text = name.clone();
            text.append(" reserves unknown symbol ");
            text.append(ticker.as_str());
            push_issue(issues, text);
        }
        proof {
            assert(views(issues@) =~= second + stray_promises(*t, k as int + 1, symbols@));
        }
        k = k + 1;
    }
}

/// Check one trader.
fn check_trader(
    t: &Trader,
    symbols: &Vec<SymbolSave>,
    accounts: &Vec<Account>,
    account_index: &Table<u64, usize>,
    users: &Table<u64, usize>,
    sells: &Table<ClientKey, u128>,
    issues: &mut Vec<String>,
    Ghost(ids): Ghost<Seq<u64>>,
    Ghost(tally): Ghost<Tally>,
)
    requires
        t.wf(),
        account_index.wf(),
        account_index.map() == places(account_ids(accounts@)),
        users.wf(),
        forall|id: u64| #[trigger] users.map().contains_key(id) == ids.contains(id),
        sells.wf(),
        sells.map() == tally.sells,
    ensures
        views(final(issues)@) == views(old(issues)@) + trader_fault(*t, symbols@, accounts@, ids, tally),
{
    let ghost start = views(issues@);
    if !users.contains_key(&t.user_id.0) {
        let mut text = "trader ".to_owned();
        push_u64(&mut text, t.id.0);
        text.append(" has inconsistent identity or missing user");
        push_issue(issues, text);
    }
    proof {
        assert(accounts@.len() == accounts.len());
        lemma_places(account_ids(accounts@));
    }
    let matches_user: bool = match account_index.get(&t.account_id.0) {
        Some(place) => accounts[*place].user_id == t.user_id,
        None => false,
    };
    if !matches_user {
        let mut text = "trader ".to_owned();
        push_u64(&mut text, t.id.0);
        text.append(" account is missing or belongs to another user");
        push_issue(issues, text);
    }
    let ghost first = views(issues@);
    check_holdings(t, symbols, sells, issues, Ghost(tally));
    proof {
        assert(views(issues@) =~= start + trader_fault(*t, symbols@, accounts@, ids, tally));
    }
}

/// Check every trader, by id.
fn check_traders(
    traders: &Vec<Trader>,
    index: &Table<u64, usize>,
    symbols: &Vec<SymbolSave>,
    accounts: &Vec<Account>,
    account_index: &Table<u64, usize>,
    users: &Table<u64, usize>,
    sells: &Table<ClientKey, u128>,
    issues: &mut Vec<String>,
    Ghost(ids): Ghost<Seq<u64>>,
    Ghost(tally): Ghost<Tally>,
)
    requires
        traders_wf(traders@),
        index.wf(),
        index.map() == places(trader_ids(traders@)),
        account_index.wf(),
        account_index.map() == places(account_ids(accounts@)),
        users.wf(),
        forall|id: u64| #[trigger] users.map().contains_key(id) == ids.contains(id),
        sells.wf(),
        sells.map() == tally.sells,
    ensures
        ({
            let all = by_id(traders@, trader_ids(traders@));
            views(final(issues)@) == views(old(issues)@) + trader_faults(
                all,
                all.len() as int,
                symbols@,
                accounts@,
                ids,
                tally,
            )
        }),
{
    let ghost start = views(issues@);
    let ghost all = by_id(traders@, trader_ids(traders@));
    let n: usize = index.len();
    let mut i: usize = 0;
    proof {
        assert(traders@.len() == traders.len());
        lemma_places(trader_ids(traders@));
        index.lemma_in_order();
        assert(all.len() == n);
        assert(start + trader_faults(all, 0, symbols@, accounts@, ids, tally) =~= start);
    }
    while i < n
        invariant
            i <= n,
            n == index.keys().len(),
            index.wf(),
            index.map() == places(trader_ids(traders@)),
            index.vals() == in_order(places(trader_ids(traders@))),
            all == by_id(traders@, trader_ids(traders@)),
            all.len() == n,
            forall|id: u64| #[trigger]
                places(trader_ids(traders@)).contains_key(id) ==> places(trader_ids(traders@))[id] < traders@.len(),
            traders_wf(traders@),
            account_index.wf(),
            account_index.map() == places(account_ids(accounts@)),
            users.wf(),
            forall|id: u64| #[trigger] users.map().contains_key(id) == ids.contains(id),
            sells.wf(),
            sells.map() == tally.sells,
            views(issues@) == start + trader_faults(all, i as int, symbols@, accounts@, ids, tally),
        decreases n - i,
    {
        let place: usize = *index.val_at(i);
        let trader = &traders[place];
        proof {
            assert(all[i as int] == traders@[place as int]);
        }
        check_trader(
            trader,
            symbols,
            accounts,
            account_index,
            users,
            sells,
            issues,
            Ghost(ids),
            Ghost(tally),
        );
        proof {
            let upto = trader_faults(all, i as int, symbols@, accounts@, ids, tally);
            let one = trader_fault(*trader, symbols@, accounts@, ids, tally);
            assert(start + upto + one =~= start + (upto + one));
        }
        i = i + 1;
    }
}

// ---------------------------------------------------------------------------
// Wallets

/// Each wallet that the first `n` accounts name, with how many of them name
/// it.
pub open spec fn wallet_counts(accounts: Seq<Account>, n: int) -> Map<u64, (u64, u64)>
    decreases n,
{
    if n <= 0 {
        Map::empty()
    } else {
        let before = wallet_counts(accounts, n - 1);
        let wallet = accounts[n - 1].wallet.0;
        let so_far = if before.contains_key(wallet) {
            before[wallet].1
        } else {
            0
        };
        before.insert(wallet, (wallet, (so_far + 1) as u64))
    }
}

/// The wallets among the first `n` that more than one account names.
pub open spec fn shared_wallets(counts: Seq<(u64, u64)>, n: int) -> Seq<Seq<char>>
    decreases n,
{
    if n <= 0 {
        Seq::empty()
    } else {
        shared_wallets(counts, n - 1) + listed(
            counts[n - 1].1 > 1,
            "wallet "@ + decimal(counts[n - 1].0 as nat) + " is shared by "@ + decimal(counts[n - 1].1 as nat)
                + " accounts"@,
        )
    }
}

/// What is wrong with who owns which wallet. Every account's wallet is its
/// own: two accounts sharing one would let a balance be spent twice over and
/// still add up.
pub open spec fn wallet_faults(accounts: Seq<Account>) -> Seq<Seq<char>> {
    let counts = in_order(wallet_counts(accounts, accounts.len() as int));
    shared_wallets(counts, counts.len() as int)
}

/// No more accounts name a wallet than there are.
proof fn lemma_wallet_counts(accounts: Seq<Account>, n: int)
    requires
        0 <= n <= accounts.len(),
        n <= u64::MAX,
    ensures
        forall|w: u64| #[trigger]
            wallet_counts(accounts, n).contains_key(w) ==> wallet_counts(accounts, n)[w].0 == w && 1
                <= wallet_counts(accounts, n)[w].1 <= n,
    decreases n,
{
    if n > 0 {
        lemma_wallet_counts(accounts, n - 1);
        let before = wallet_counts(accounts, n - 1);
        assert forall|w: u64| #[trigger] wallet_counts(accounts, n).contains_key(w) implies wallet_counts(
            accounts,
            n,
        )[w].0 == w && 1 <= wallet_counts(accounts, n)[w].1 <= n by {
            assert(before.contains_key(w) ==> before[w].1 <= n - 1);
        }
    }
}

/// Check that no two accounts share a wallet.
fn check_wallets(accounts: &Vec<Account>, index: &Table<u64, usize>, issues: &mut Vec<String>)
    requires
        index.wf(),
        index.map() == places(account_ids(accounts@)),
    ensures
        views(final(issues)@) == views(old(issues)@) + wallet_faults(by_id(accounts@, account_ids(accounts@))),
{
    let ghost start = views(issues@);
    let ghost all = by_id(accounts@, account_ids(accounts@));
    let n: usize = index.len();
    let mut counts: Table<u64, (u64, u64)> = Table::new();
    let mut i: usize = 0;
    proof {
        assert(accounts@.len() == accounts.len());
        lemma_places(account_ids(accounts@));
        index.lemma_in_order();
        assert(counts.map() =~= wallet_counts(all, 0));
    }
    while i < n
        invariant
            i <= n,
            n == index.keys().len(),
            index.wf(),
            index.map() == places(account_ids(accounts@)),
            index.vals() == in_order(places(account_ids(accounts@))),
            all == by_id(accounts@, account_ids(accounts@)),
            all.len() == n,
            forall|id: u64| #[trigger]
                places(account_ids(accounts@)).contains_key(id) ==> places(account_ids(accounts@))[id] < accounts@.len(),
            counts.wf(),
            counts.map() == wallet_counts(all, i as int),
        decreases n - i,
    {
        let place: usize = *index.val_at(i);
        let wallet: u64 = accounts[place].wallet.0;
        proof {
            assert(all[i as int] == accounts@[place as int]);
            lemma_wallet_counts(all, i as int);
        }
        let so_far: u64 = match counts.get(&wallet) {
            Some(count) => count.1,
            None => 0,
        };
        counts.insert(wallet, (wallet, so_far + 1));
        i = i + 1;
    }
    let m: usize = counts.len();
    let ghost rows = in_order(wallet_counts(all, all.len() as int));
    let mut j: usize = 0;
    proof {
        counts.lemma_in_order();
        assert(start + shared_wallets(rows, 0) =~= start);
    }
    while j < m
        invariant
            j <= m,
            m == counts.keys().len(),
            counts.wf(),
            counts.vals() == rows,
            views(issues@) == start + shared_wallets(rows, j as int),
        decreases m - j,
    {
        let row = counts.val_at(j);
        if row.1 > 1 {
            let mut text = "wallet ".to_owned();
            push_u64(&mut text, row.0);
            text.append(" is shared by ");
            push_u64(&mut text, row.1);
            text.append(" accounts");
            push_issue(issues, text);
        }
        proof {
            assert(views(issues@) =~= start + shared_wallets(rows, j as int + 1));
        }
        j = j + 1;
    }
}

// ---------------------------------------------------------------------------
// Jobs

/// Jobs still running among the first `n`.
pub open spec fn running_jobs(jobs: Seq<Job>, n: int) -> nat
    decreases n,
{
    if n <= 0 {
        0
    } else {
        running_jobs(jobs, n - 1) + if jobs[n - 1].status == JobStatus::Running {
            1nat
        } else {
            0
        }
    }
}

/// What is wrong with one job. A running one is a promise, so what it needs
/// to be kept has to still be there; what it will deliver is its own.
pub open spec fn job_fault(job: Job, traders: Seq<u64>, accounts: Seq<u64>) -> Seq<Seq<char>> {
    if job.status != JobStatus::Running {
        Seq::empty()
    } else {
        let name = "job "@ + decimal(job.id as nat);
        listed(
            !traders.contains(job.trader_id),
            name + " is running for missing trader "@ + decimal(job.trader_id as nat),
        ) + listed(
            !accounts.contains(job.account_id),
            name + " names missing account "@ + decimal(job.account_id as nat),
        )
    }
}

/// What is wrong with the first `n` jobs.
pub open spec fn job_faults(jobs: Seq<Job>, n: int, traders: Seq<u64>, accounts: Seq<u64>) -> Seq<Seq<char>>
    decreases n,
{
    if n <= 0 {
        Seq::empty()
    } else {
        job_faults(jobs, n - 1, traders, accounts) + job_fault(jobs[n - 1], traders, accounts)
    }
}

/// No more jobs run than there are.
proof fn lemma_running(jobs: Seq<Job>, n: int)
    requires
        0 <= n,
    ensures
        running_jobs(jobs, n) <= n,
    decreases n,
{
    if n > 0 {
        lemma_running(jobs, n - 1);
    }
}

/// Check every job.
fn check_jobs(
    jobs: &Vec<Job>,
    traders: &Table<u64, usize>,
    accounts: &Table<u64, usize>,
    issues: &mut Vec<String>,
    Ghost(trader_ids): Ghost<Seq<u64>>,
    Ghost(account_ids): Ghost<Seq<u64>>,
) -> (running: usize)
    requires
        traders.wf(),
        accounts.wf(),
        forall|id: u64| #[trigger] traders.map().contains_key(id) == trader_ids.contains(id),
        forall|id: u64| #[trigger] accounts.map().contains_key(id) == account_ids.contains(id),
    ensures
        running == running_jobs(jobs@, jobs@.len() as int),
        views(final(issues)@) == views(old(issues)@) + job_faults(
            jobs@,
            jobs@.len() as int,
            trader_ids,
            account_ids,
        ),
{
    let ghost start = views(issues@);
    let mut running: usize = 0;
    let mut i: usize = 0;
    proof {
        assert(start + job_faults(jobs@, 0, trader_ids, account_ids) =~= start);
    }
    while i < jobs.len()
        invariant
            i <= jobs.len(),
            traders.wf(),
            accounts.wf(),
            forall|id: u64| #[trigger] traders.map().contains_key(id) == trader_ids.contains(id),
            forall|id: u64| #[trigger] accounts.map().contains_key(id) == account_ids.contains(id),
            running == running_jobs(jobs@, i as int),
            views(issues@) == start + job_faults(jobs@, i as int, trader_ids, account_ids),
        decreases jobs.len() - i,
    {
        let job = &jobs[i];
        proof {
            lemma_running(jobs@, i as int);
        }
        if job.status == JobStatus::Running {
            running = running + 1;
            if !traders.contains_key(&job.trader_id) {
                let mut text = "job ".to_owned();
                push_u64(&mut text, job.id);
                text.append(" is running for missing trader ");
                push_u64(&mut text, job.trader_id);
                push_issue(issues, text);
            }
            if !accounts.contains_key(&job.account_id) {
                let mut text = "job ".to_owned();
                push_u64(&mut text, job.id);
                text.append(" names missing account ");
                push_u64(&mut text, job.account_id);
                push_issue(issues, text);
            }
        }
        proof {
            assert(views(issues@) =~= start + job_faults(jobs@, i as int + 1, trader_ids, account_ids));
        }
        i = i + 1;
    }
    running
}

// ---------------------------------------------------------------------------
// Budgets and the rules that spend them

/// What is wrong with one budget.
pub open spec fn budget_fault(budget: Budget, ledger: &LedgerView) -> Seq<Seq<char>> {
    let name = "budget "@ + quoted_text(budget.name@) + " names wallet "@ + decimal(budget.wallet.0 as nat);
    if !ledger.has(budget.wallet) {
        seq![name + " which the ledger does not have"@]
    } else {
        listed(
            ledger.at(budget.wallet).kind != WalletKind::Budget,
            name + ", which is a "@ + ledger.at(budget.wallet).label@ + " wallet"@,
        )
    }
}

/// What is wrong with the first `n` budgets.
pub open spec fn budget_faults(budgets: Seq<Budget>, n: int, ledger: &LedgerView) -> Seq<Seq<char>>
    decreases n,
{
    if n <= 0 {
        Seq::empty()
    } else {
        budget_faults(budgets, n - 1, ledger) + budget_fault(budgets[n - 1], ledger)
    }
}

/// A budget of this id is open.
pub open spec fn budget_open(budgets: Seq<Budget>, id: u64) -> bool {
    exists|i: int| 0 <= i < budgets.len() && (#[trigger] budgets[i]).id == id
}

/// What is wrong with the first `n` rules.
pub open spec fn rule_faults(rules: Seq<RewardRule>, n: int, budgets: Seq<Budget>) -> Seq<Seq<char>>
    decreases n,
{
    if n <= 0 {
        Seq::empty()
    } else {
        rule_faults(rules, n - 1, budgets) + listed(
            !budget_open(budgets, rules[n - 1].budget),
            "reward rule "@ + decimal(rules[n - 1].id as nat) + " pays out of budget "@ + decimal(
                rules[n - 1].budget as nat,
            ) + ", which is not open"@,
        )
    }
}

/// Check every budget.
fn check_budgets(budgets: &Vec<Budget>, ledger: &LedgerView, issues: &mut Vec<String>)
    requires
        ledger.wf(),
    ensures
        views(final(issues)@) == views(old(issues)@) + budget_faults(budgets@, budgets@.len() as int, ledger),
{
    let ghost start = views(issues@);
    let mut i: usize = 0;
    proof {
        assert(start + budget_faults(budgets@, 0, ledger) =~= start);
    }
    while i < budgets.len()
        invariant
            i <= budgets.len(),
            ledger.wf(),
            views(issues@) == start + budget_faults(budgets@, i as int, ledger),
        decreases budgets.len() - i,
    {
        let budget = &budgets[i];
        let mut text = "budget ".to_owned();
        text.append(quoted(budget.name.as_str()).as_str());
        text.append(" names wallet ");
        push_u64(&mut text, budget.wallet.0);
        match ledger.wallet(budget.wallet) {
            None => {
                text.append(" which the ledger does not have");
                push_issue(issues, text);
            },
            Some(wallet) => {
                if wallet.kind != WalletKind::Budget {
                    text.append(", which is a ");
                    text.append(wallet.label.as_str());
                    text.append(" wallet");
                    push_issue(issues, text);
                }
            },
        }
        proof {
            assert(views(issues@) =~= start + budget_faults(budgets@, i as int + 1, ledger));
        }
        i = i + 1;
    }
}

/// A budget of this id is open.
fn is_budget_open(budgets: &Vec<Budget>, id: u64) -> (r: bool)
    ensures
        r == budget_open(budgets@, id),
{
    let mut i: usize = 0;
    while i < budgets.len()
        invariant
            i <= budgets.len(),
            forall|j: int| 0 <= j < i ==> (#[trigger] budgets@[j]).id != id,
        decreases budgets.len() - i,
    {
        if budgets[i].id == id {
            return true;
        }
        i = i + 1;
    }
    false
}

/// Check every rule.
fn check_rules(rules: &Vec<RewardRule>, budgets: &Vec<Budget>, issues: &mut Vec<String>)
    ensures
        views(final(issues)@) == views(old(issues)@) + rule_faults(rules@, rules@.len() as int, budgets@),
{
    let ghost start = views(issues@);
    let mut i: usize = 0;
    proof {
        assert(start + rule_faults(rules@, 0, budgets@) =~= start);
    }
    while i < rules.len()
        invariant
            i <= rules.len(),
            views(issues@) == start + rule_faults(rules@, i as int, budgets@),
        decreases rules.len() - i,
    {
        let rule = rules[i];
        if !is_budget_open(budgets, rule.budget) {
            let mut text = "reward rule ".to_owned();
            push_u64(&mut text, rule.id);
            text.append(" pays out of budget ");
            push_u64(&mut text, rule.budget);
            text.append(", which is not open");
            push_issue(issues, text);
        }
        proof {
            assert(views(issues@) =~= start + rule_faults(rules@, i as int + 1, budgets@));
        }
        i = i + 1;
    }
}

// ---------------------------------------------------------------------------
// The whole

/// The ids of users.
pub open spec fn user_ids(users: Seq<User>) -> Seq<u64> {
    users.map_values(|u: User| u.id.0)
}

pub(crate) fn ids_of_users(users: &Vec<User>) -> (ids: Vec<u64>)
    ensures
        ids@ == user_ids(users@),
{
    let mut ids: Vec<u64> = Vec::new();
    let mut i: usize = 0;
    while i < users.len()
        invariant
            i <= users.len(),
            ids@.len() == i,
            forall|j: int| 0 <= j < i ==> ids@[j] == (#[trigger] users@[j]).id.0,
        decreases users.len() - i,
    {
        ids.push(users[i].id.0);
        i = i + 1;
    }
    proof {
        assert(ids@ =~= user_ids(users@));
    }
    ids
}

/// A save that can be read: the tables in it are in order, and its histories
/// are short enough to be audited.
pub open spec fn readable(save: &Save) -> bool {
    &&& save.market.ledger.wf()
    &&& traders_wf(save.market.traders@)
    &&& histories_fit(save.market.accounts@)
}

/// Everything wrong with a save, in the order it is reported.
pub open spec fn save_faults(save: &Save) -> Seq<Seq<char>> {
    let symbols = save.symbols@;
    let ledger = &save.market.ledger;
    let users = user_ids(save.market.users@);
    let accounts = save.market.accounts@;
    let traders = save.market.traders@;
    let all_accounts = by_id(accounts, account_ids(accounts));
    let all_traders = by_id(traders, trader_ids(traders));
    let tally = Tally::resting(symbols, symbols.len() as int, traders);
    symbol_faults(symbols, symbols.len() as int, traders) + account_faults(
        all_accounts,
        all_accounts.len() as int,
        ledger,
        users,
        tally,
    ) + trader_faults(all_traders, all_traders.len() as int, symbols, accounts, users, tally) + prefixed(
        "ledger: "@,
        views(ledger.findings@),
    ) + wallet_faults(all_accounts) + job_faults(
        save.market.jobs@,
        save.market.jobs@.len() as int,
        trader_ids(traders),
        account_ids(accounts),
    ) + budget_faults(save.market.budgets@, save.market.budgets@.len() as int, ledger) + rule_faults(
        save.market.rules@,
        save.market.rules@.len() as int,
        save.market.budgets@,
    )
}

/// Reconcile actual resting orders with cash and share reservations,
/// ownership, outstanding supply and the retained cash ledgers without
/// changing state.
///
/// This also answers the question the whole economy rests on: does the money
/// add up? What the ledger finds wrong with its own sum is among the issues.
pub fn reconcile(save: &Save) -> (report: Reconciliation)
    requires
        readable(save),
    ensures
        views(report.issues@) == save_faults(save),
        report.valid == (save_faults(save).len() == 0),
        report.accounts_checked == by_id(save.market.accounts@, account_ids(save.market.accounts@)).len(),
        report.traders_checked == by_id(save.market.traders@, trader_ids(save.market.traders@)).len(),
        report.symbols_checked == save.symbols@.len(),
        report.resting_orders_checked == clamp_usize(orders_checked(save.symbols@, save.symbols@.len() as int)),
        report.wallets_checked == save.market.ledger.wallets.keys().len(),
        report.minted_cents == save.market.ledger.minted_cents,
        report.burned_cents == save.market.ledger.burned_cents,
        report.outstanding_cents == save.market.ledger.outstanding_cents,
        report.circulating_cents == save.market.ledger.circulating_cents,
        report.synthetic_debt_cents == save.market.ledger.synthetic_debt_cents,
        report.jobs_running == running_jobs(save.market.jobs@, save.market.jobs@.len() as int),
        report.budgets_checked == save.market.budgets@.len(),
{
    let market = &save.market;
    let ledger = &market.ledger;
    let users = index(&ids_of_users(&market.users));
    let accounts = index(&ids_of_accounts(&market.accounts));
    let traders = index(&ids_of_traders(&market.traders));
    let ghost user_list = user_ids(market.users@);
    let ghost account_list = account_ids(market.accounts@);
    let ghost trader_list = trader_ids(market.traders@);
    proof {
        assert(market.users@.len() == market.users.len());
        assert(market.accounts@.len() == market.accounts.len());
        assert(market.traders@.len() == market.traders.len());
        lemma_places(user_list);
        lemma_places(account_list);
        lemma_places(trader_list);
        accounts.lemma_in_order();
        traders.lemma_in_order();
    }
    let mut issues: Vec<String> = Vec::new();
    let mut cash: Table<u64, i128> = Table::new();
    let mut sells: Table<ClientKey, u128> = Table::new();
    let resting: usize = check_symbols(&save.symbols, &market.traders, &traders, &mut cash, &mut sells, &mut issues);
    let ghost tally = Tally::resting(save.symbols@, save.symbols@.len() as int, market.traders@);
    check_accounts(
        &market.accounts,
        &accounts,
        ledger,
        &users,
        &cash,
        &mut issues,
        Ghost(user_list),
        Ghost(tally),
    );
    check_traders(
        &market.traders,
        &traders,
        &save.symbols,
        &market.accounts,
        &accounts,
        &users,
        &sells,
        &mut issues,
        Ghost(user_list),
        Ghost(tally),
    );
    push_prefixed(&mut issues, "ledger: ", &ledger.findings);
    check_wallets(&market.accounts, &accounts, &mut issues);
    let jobs_running: usize = check_jobs(
        &market.jobs,
        &traders,
        &accounts,
        &mut issues,
        Ghost(trader_list),
        Ghost(account_list),
    );
    check_budgets(&market.budgets, ledger, &mut issues);
    check_rules(&market.rules, &market.budgets, &mut issues);
    proof {
        assert(views(issues@) =~= save_faults(save));
    }
    Reconciliation {
        valid: issues.len() == 0,
        accounts_checked: accounts.len(),
        traders_checked: traders.len(),
        symbols_checked: save.symbols.len(),
        resting_orders_checked: resting,
        wallets_checked: ledger.wallets.len(),
        minted_cents: ledger.minted_cents,
        burned_cents: ledger.burned_cents,
        outstanding_cents: ledger.outstanding_cents,
        circulating_cents: ledger.circulating_cents,
        synthetic_debt_cents: ledger.synthetic_debt_cents,
        jobs_running,
        budgets_checked: market.budgets.len(),
        issues,
    }
}

// ---------------------------------------------------------------------------
// What a save that reconciles is

proof fn lemma_no_account_fault(accounts: Seq<Account>, n: int, i: int, ledger: &LedgerView, users: Seq<u64>, tally: Tally)
    requires
        0 <= i < n,
        account_faults(accounts, n, ledger, users, tally).len() == 0,
    ensures
        account_fault(accounts[i], ledger, users, tally).len() == 0,
    decreases n,
{
    if i < n - 1 {
        lemma_no_account_fault(accounts, n - 1, i, ledger, users, tally);
    }
}

proof fn lemma_no_trader_fault(
    traders: Seq<Trader>,
    n: int,
    i: int,
    symbols: Seq<SymbolSave>,
    accounts: Seq<Account>,
    users: Seq<u64>,
    tally: Tally,
)
    requires
        0 <= i < n,
        trader_faults(traders, n, symbols, accounts, users, tally).len() == 0,
    ensures
        trader_fault(traders[i], symbols, accounts, users, tally).len() == 0,
    decreases n,
{
    if i < n - 1 {
        lemma_no_trader_fault(traders, n - 1, i, symbols, accounts, users, tally);
    }
}

proof fn lemma_no_promise_fault(t: Trader, symbols: Seq<SymbolSave>, n: int, i: int, tally: Tally)
    requires
        0 <= i < n,
        promise_faults(t, symbols, n, tally).len() == 0,
    ensures
        t.promised(symbols[i].symbol@) == tally.sells_of(t.id.0, symbols[i].symbol@),
        t.promised(symbols[i].symbol@) <= t.held(symbols[i].symbol@),
    decreases n,
{
    if i < n - 1 {
        lemma_no_promise_fault(t, symbols, n - 1, i, tally);
    }
}

proof fn lemma_named_twice(accounts: Seq<Account>, n: int, i: int, j: int)
    requires
        0 <= i < j < n <= accounts.len(),
        n <= u64::MAX,
        accounts[i].wallet == accounts[j].wallet,
    ensures
        wallet_counts(accounts, n).contains_key(accounts[i].wallet.0),
        wallet_counts(accounts, n)[accounts[i].wallet.0].1 > 1,
    decreases n,
{
    lemma_wallet_counts(accounts, n - 1);
    if j < n - 1 {
        lemma_named_twice(accounts, n - 1, i, j);
    } else {
        lemma_named(accounts, n - 1, i);
    }
}

proof fn lemma_named(accounts: Seq<Account>, n: int, i: int)
    requires
        0 <= i < n <= accounts.len(),
        n <= u64::MAX,
    ensures
        wallet_counts(accounts, n).contains_key(accounts[i].wallet.0),
        wallet_counts(accounts, n)[accounts[i].wallet.0].1 >= 1,
    decreases n,
{
    lemma_wallet_counts(accounts, n);
    if i < n - 1 {
        lemma_named(accounts, n - 1, i);
    }
    assert(wallet_counts(accounts, n).contains_key(accounts[i].wallet.0));
}

proof fn lemma_no_shared_wallet(counts: Seq<(u64, u64)>, n: int, i: int)
    requires
        0 <= i < n,
        shared_wallets(counts, n).len() == 0,
    ensures
        counts[i].1 <= 1,
    decreases n,
{
    if i < n - 1 {
        lemma_no_shared_wallet(counts, n - 1, i);
    }
}

/// In a save that reconciles, the cash an account holds back is exactly what
/// its traders' resting buys would cost, and it is never more than the
/// account has.
pub proof fn law_a_reconciled_account_holds_back_its_bids(save: &Save, i: int)
    requires
        save_faults(save).len() == 0,
        0 <= i < by_id(save.market.accounts@, account_ids(save.market.accounts@)).len(),
    ensures
        ({
            let account = by_id(save.market.accounts@, account_ids(save.market.accounts@))[i];
            let ledger = &save.market.ledger;
            let tally = Tally::resting(save.symbols@, save.symbols@.len() as int, save.market.traders@);
            &&& ledger.has(account.wallet)
            &&& ledger.reserved_of(account.wallet) == tally.cash_of(account.id.0)
            &&& ledger.reserved_of(account.wallet) <= ledger.balance_of(account.wallet)
            &&& user_ids(save.market.users@).contains(account.user_id.0)
        }),
{
    let accounts = save.market.accounts@;
    let all = by_id(accounts, account_ids(accounts));
    let users = user_ids(save.market.users@);
    let tally = Tally::resting(save.symbols@, save.symbols@.len() as int, save.market.traders@);
    lemma_no_account_fault(all, all.len() as int, i, &save.market.ledger, users, tally);
    let account = all[i];
    let name = "account "@ + decimal(account.id.0 as nat);
    let own = account.faults(&save.market.ledger) + history_faults(
        account.history(),
        account.entries_total,
        save.market.ledger.balance_of(account.wallet),
    );
    assert(prefixed(name + ": "@, own).len() == own.len());
    assert(account.faults(&save.market.ledger).len() == 0);
}

/// In a save that reconciles, the shares a trader promises of a symbol are
/// exactly what its resting sells would deliver, and it holds them all.
pub proof fn law_a_reconciled_trader_promises_its_asks(save: &Save, i: int, s: int)
    requires
        save_faults(save).len() == 0,
        0 <= i < by_id(save.market.traders@, trader_ids(save.market.traders@)).len(),
        0 <= s < save.symbols@.len(),
    ensures
        ({
            let trader = by_id(save.market.traders@, trader_ids(save.market.traders@))[i];
            let ticker = save.symbols@[s].symbol@;
            let tally = Tally::resting(save.symbols@, save.symbols@.len() as int, save.market.traders@);
            &&& trader.promised(ticker) == tally.sells_of(trader.id.0, ticker)
            &&& trader.promised(ticker) <= trader.held(ticker)
            &&& account_matches(trader, save.market.accounts@)
        }),
{
    let symbols = save.symbols@;
    let traders = save.market.traders@;
    let all = by_id(traders, trader_ids(traders));
    let users = user_ids(save.market.users@);
    let tally = Tally::resting(symbols, symbols.len() as int, traders);
    lemma_no_trader_fault(all, all.len() as int, i, symbols, save.market.accounts@, users, tally);
    lemma_no_promise_fault(all[i], symbols, symbols.len() as int, s, tally);
}

/// There are no more places than ids.
proof fn lemma_few_places(ids: Seq<u64>)
    ensures
        in_order(places(ids)).len() <= ids.len(),
    decreases ids.len(),
{
    if ids.len() == 0 {
        lemma_nothing_in_order(0x1_0000_0000_0000_0000);
    } else {
        lemma_few_places(ids.drop_last());
        lemma_in_order_insert(places(ids.drop_last()), ids.last(), (ids.len() - 1) as usize);
    }
}

proof fn lemma_nothing_in_order(n: nat)
    ensures
        vals_below(Map::<u64, usize>::empty(), n).len() == 0,
    decreases n,
{
    if n > 0 {
        lemma_nothing_in_order((n - 1) as nat);
    }
}

/// In a save that reconciles, no two accounts share a wallet.
pub proof fn law_a_reconciled_wallet_has_one_owner(save: &Save, i: int, j: int)
    requires
        save_faults(save).len() == 0,
        0 <= i < j < by_id(save.market.accounts@, account_ids(save.market.accounts@)).len(),
    ensures
        ({
            let all = by_id(save.market.accounts@, account_ids(save.market.accounts@));
            all[i].wallet != all[j].wallet
        }),
{
    let accounts = save.market.accounts@;
    let all = by_id(accounts, account_ids(accounts));
    assert(accounts.len() == save.market.accounts.len());
    lemma_few_places(account_ids(accounts));
    if all[i].wallet == all[j].wallet {
        let named = wallet_counts(all, all.len() as int);
        let counts = in_order(named);
        let wallet = all[i].wallet.0;
        lemma_named_twice(all, all.len() as int, i, j);
        lemma_in_order_holds(named, wallet);
        let at = choose|at: int| 0 <= at < counts.len() && counts[at] == named[wallet];
        assert(shared_wallets(counts, counts.len() as int).len() == 0);
        lemma_no_shared_wallet(counts, counts.len() as int, at);
    }
}

/// A resting order counts for what it holds back and for nothing else: a buy
/// for its price times what is outstanding of it, in the account its trader
/// trades on; a sell for its shares, of its trader and its symbol. An order of
/// nobody's holds nothing back.
pub proof fn law_a_resting_order_counts_for_what_it_holds(
    tally: Tally,
    symbol: Seq<char>,
    order: Resting,
    traders: Seq<Trader>,
    i: int,
    account: u64,
    trader: u64,
    ticker: Seq<char>,
)
    requires
        traders.len() <= usize::MAX,
        trader_ids(traders).no_duplicates(),
        0 <= i < traders.len(),
        order.owner == Owner::Trader(traders[i].id),
        order.price_cents >= 0,
    ensures
        ({
            let after = tally.with(symbol, order, traders);
            let own = traders[i].account_id.0;
            &&& order.side is Buy && i128::MIN <= tally.cash_of(own) + order.price_cents * order.outstanding <= i128::MAX
                ==> after.cash_of(own) == tally.cash_of(own) + order.price_cents * order.outstanding
            &&& order.side is Sell || account != own ==> after.cash_of(account) == tally.cash_of(account)
            &&& order.side is Sell && tally.sells_of(traders[i].id.0, symbol) + order.outstanding <= u128::MAX
                ==> after.sells_of(traders[i].id.0, symbol) == tally.sells_of(traders[i].id.0, symbol)
                + order.outstanding
            &&& order.side is Buy || trader != traders[i].id.0 || ticker != symbol ==> after.sells_of(trader, ticker)
                == tally.sells_of(trader, ticker)
        }),
        tally.with(symbol, Resting { owner: Owner::Synthetic, ..order }, traders) == tally,
{
    let ids = trader_ids(traders);
    lemma_places(ids);
    assert(ids[i] == traders[i].id.0);
    assert(ids.contains(ids[i]));
    assert(places(ids).contains_key(ids[i]));
    let at = places(ids)[ids[i]] as int;
    assert(ids[at] == ids[i]);
    assert(at == i);
}

/// An order passes where its trader is there, something of it is left and no
/// more is outstanding than was asked for; what nobody sent always passes.
pub proof fn law_an_order_passes_where_it_is_sound(symbol: Seq<char>, order: Resting, traders: Seq<Trader>)
    requires
        traders.len() <= usize::MAX,
    ensures
        order_fault(symbol, order, traders).len() == 0 <==> (match order.owner {
            Owner::Synthetic => true,
            Owner::Trader(id) => trader_ids(traders).contains(id.0) && order.remaining > 0 && order.outstanding
                <= order.qty,
        }),
{
    lemma_places(trader_ids(traders));
}

/// Holdings pass where they are covered: of a good just what was issued, of a
/// stock no more than is outstanding, with what is bid for where the symbol is
/// made a market in.
pub proof fn law_holdings_pass_where_they_are_covered(symbol: SymbolSave, held: int, bids: int)
    requires
        bids >= 0,
    ensures
        supply_fault(symbol, held, bids).len() == 0 <==> held >= 0 && (symbol.info matches Some(info) ==> (
        match info.asset {
            AssetKind::Good => held == info.units_outstanding,
            AssetKind::Stock => held <= info.units_outstanding && (symbol.synthetic ==> held + bids
                <= info.units_outstanding),
        })),
{
}

/// What is held of a symbol is what every trader's position says, added up.
pub proof fn law_holdings_are_the_positions(traders: Seq<Trader>, n: int, symbol: Seq<char>)
    requires
        0 < n <= traders.len(),
    ensures
        held_by(traders, 0, symbol) == 0,
        held_by(traders, n, symbol) - held_by(traders, n - 1, symbol) == (if traders[n
            - 1].positions.map().contains_key(symbol) {
            traders[n - 1].positions.map()[symbol].qty as int
        } else {
            0
        }),
{
}

/// What is bid for is what is outstanding of the traders' buys, added up.
pub proof fn law_bids_are_the_traders_buys(orders: Seq<Resting>, n: int, traders: Seq<Trader>)
    requires
        traders.len() <= usize::MAX,
        0 < n <= orders.len(),
    ensures
        bid_for(orders, 0, traders) == 0,
        bid_for(orders, n, traders) - bid_for(orders, n - 1, traders) == (if orders[n - 1].side is Buy && (orders[n
            - 1].owner matches Owner::Trader(id) && trader_ids(traders).contains(id.0)) {
            orders[n - 1].outstanding as int
        } else {
            0
        }),
{
    lemma_places(trader_ids(traders));
}

/// A job passes where it has stopped or where its trader and its account are
/// there.
pub proof fn law_a_job_passes_where_it_is_sound(job: Job, traders: Seq<u64>, accounts: Seq<u64>)
    ensures
        job_fault(job, traders, accounts).len() == 0 <==> (job.status is Running ==> traders.contains(job.trader_id)
            && accounts.contains(job.account_id)),
{
}

/// A budget passes where its wallet is there and is a budget's.
pub proof fn law_a_budget_passes_where_it_is_sound(budget: Budget, ledger: &LedgerView)
    ensures
        budget_fault(budget, ledger).len() == 0 <==> ledger.has(budget.wallet) && ledger.at(budget.wallet).kind
            == WalletKind::Budget,
{
}

/// An account passes where its user is there, nothing is wrong with it or its
/// history, and its wallet holds back just what its traders' buys need.
pub proof fn law_an_account_passes_where_it_is_sound(
    account: Account,
    ledger: &LedgerView,
    users: Seq<u64>,
    tally: Tally,
)
    ensures
        account_fault(account, ledger, users, tally).len() == 0 <==> {
            &&& users.contains(account.user_id.0)
            &&& account.faults(ledger).len() == 0
            &&& history_faults(account.history(), account.entries_total, ledger.balance_of(account.wallet)).len() == 0
            &&& ledger.reserved_of(account.wallet) == tally.cash_of(account.id.0)
        },
{
}

/// A trader passes where its user and its account are there and belong
/// together, it holds nothing that is not listed and no less than nothing, and
/// what it promised is what it has resting to sell and no more than it holds.
pub proof fn law_a_trader_passes_where_it_is_sound(
    t: Trader,
    symbols: Seq<SymbolSave>,
    accounts: Seq<Account>,
    users: Seq<u64>,
    tally: Tally,
)
    ensures
        trader_fault(t, symbols, accounts, users, tally).len() == 0 <==> {
            &&& users.contains(t.user_id.0)
            &&& account_matches(t, accounts)
            &&& forall|i: int|
                0 <= i < t.positions.keys().len() ==> is_listed(symbols, #[trigger] t.positions.keys()[i])
                    && t.positions.vals()[i].qty >= 0
            &&& forall|s: int|
                0 <= s < symbols.len() ==> t.promised((#[trigger] symbols[s]).symbol@) == tally.sells_of(
                    t.id.0,
                    symbols[s].symbol@,
                ) && t.promised(symbols[s].symbol@) <= t.held(symbols[s].symbol@)
            &&& forall|i: int|
                0 <= i < t.reserved_shares.keys().len() ==> is_listed(symbols, #[trigger] t.reserved_shares.keys()[i])
        },
{
    lemma_position_faults(t, t.positions.keys().len() as int, symbols);
    lemma_promise_faults(t, symbols, symbols.len() as int, tally);
    lemma_stray_promises(t, t.reserved_shares.keys().len() as int, symbols);
}

proof fn lemma_position_faults(t: Trader, n: int, symbols: Seq<SymbolSave>)
    requires
        0 <= n,
    ensures
        position_faults(t, n, symbols).len() == 0 <==> forall|i: int|
            0 <= i < n ==> is_listed(symbols, #[trigger] t.positions.keys()[i]) && t.positions.vals()[i].qty >= 0,
    decreases n,
{
    if n > 0 {
        lemma_position_faults(t, n - 1, symbols);
        if forall|i: int|
            0 <= i < n ==> is_listed(symbols, #[trigger] t.positions.keys()[i]) && t.positions.vals()[i].qty >= 0 {
            assert(is_listed(symbols, t.positions.keys()[n - 1]));
        }
    }
}

proof fn lemma_promise_faults(t: Trader, symbols: Seq<SymbolSave>, n: int, tally: Tally)
    requires
        0 <= n <= symbols.len(),
    ensures
        promise_faults(t, symbols, n, tally).len() == 0 <==> forall|s: int|
            0 <= s < n ==> t.promised((#[trigger] symbols[s]).symbol@) == tally.sells_of(t.id.0, symbols[s].symbol@)
                && t.promised(symbols[s].symbol@) <= t.held(symbols[s].symbol@),
    decreases n,
{
    if n > 0 {
        lemma_promise_faults(t, symbols, n - 1, tally);
        if forall|s: int|
            0 <= s < n ==> t.promised((#[trigger] symbols[s]).symbol@) == tally.sells_of(t.id.0, symbols[s].symbol@)
                && t.promised(symbols[s].symbol@) <= t.held(symbols[s].symbol@) {
            assert(t.promised(symbols[n - 1].symbol@) <= t.held(symbols[n - 1].symbol@));
        }
    }
}

proof fn lemma_stray_promises(t: Trader, n: int, symbols: Seq<SymbolSave>)
    requires
        0 <= n,
    ensures
        stray_promises(t, n, symbols).len() == 0 <==> forall|i: int|
            0 <= i < n ==> is_listed(symbols, #[trigger] t.reserved_shares.keys()[i]),
    decreases n,
{
    if n > 0 {
        lemma_stray_promises(t, n - 1, symbols);
        if forall|i: int| 0 <= i < n ==> is_listed(symbols, #[trigger] t.reserved_shares.keys()[i]) {
            assert(is_listed(symbols, t.reserved_shares.keys()[n - 1]));
        }
    }
}

/// Everybody is checked: with numbers of their own, all of them, whatever
/// order they are kept in.
pub proof fn law_everybody_is_checked<T>(things: Seq<T>, ids: Seq<u64>, i: int)
    requires
        things.len() == ids.len(),
        ids.len() <= usize::MAX,
        ids.no_duplicates(),
        0 <= i < things.len(),
    ensures
        by_id(things, ids).contains(things[i]),
{
    lemma_places(ids);
    assert(ids.contains(ids[i]));
    assert(places(ids).contains_key(ids[i]));
    let at = places(ids)[ids[i]];
    assert(ids[at as int] == ids[i]);
    assert(at == i);
    lemma_in_order_holds(places(ids), ids[i]);
    let order = in_order(places(ids));
    let k = choose|k: int| 0 <= k < order.len() && order[k] == at;
    assert(by_id(things, ids)[k] == things[i]);
}

/// The jobs that are counted are those that are running.
pub proof fn law_running_jobs_are_counted(jobs: Seq<Job>, n: int)
    requires
        0 < n <= jobs.len(),
    ensures
        running_jobs(jobs, 0) == 0,
        running_jobs(jobs, n) == running_jobs(jobs, n - 1) + (if jobs[n - 1].status is Running {
            1nat
        } else {
            0
        }),
        running_jobs(jobs, n) <= n,
{
    lemma_running(jobs, n);
}

/// A market that reconciles holds together: what rests is sound, what is held
/// is covered, what is running is somebody's, what pays out has something to
/// pay from, and the ledger finds nothing wrong with itself.
pub proof fn law_a_market_that_reconciles_holds_together(save: Save, report: Reconciliation, i: int, j: int)
    requires
        readable(&save),
        call_ensures(reconcile, (&save,), report),
        report.valid,
        save.market.traders@.len() <= usize::MAX,
    ensures
        report.issues@.len() == 0,
        save.market.ledger.findings@.len() == 0,
        0 <= i < save.symbols@.len() && 0 <= j < save.symbols@[i].orders@.len() ==> (
        save.symbols@[i].orders@[j].owner matches Owner::Trader(id) ==> trader_ids(save.market.traders@).contains(id.0)
            && save.symbols@[i].orders@[j].remaining > 0 && save.symbols@[i].orders@[j].outstanding
            <= save.symbols@[i].orders@[j].qty),
        0 <= i < save.symbols@.len() ==> {
            let all = by_id(save.market.traders@, trader_ids(save.market.traders@));
            let held = held_by(all, all.len() as int, save.symbols@[i].symbol@);
            &&& held >= 0
            &&& save.symbols@[i].info matches Some(info) ==> held <= info.units_outstanding && (info.asset is Good
                ==> held == info.units_outstanding)
        },
        0 <= i < save.market.jobs@.len() && save.market.jobs@[i].status is Running ==> trader_ids(
            save.market.traders@,
        ).contains(save.market.jobs@[i].trader_id) && account_ids(save.market.accounts@).contains(
            save.market.jobs@[i].account_id,
        ),
        0 <= i < save.market.budgets@.len() ==> save.market.ledger.has(save.market.budgets@[i].wallet)
            && save.market.ledger.at(save.market.budgets@[i].wallet).kind == WalletKind::Budget,
        0 <= i < save.market.rules@.len() ==> exists|k: int|
            0 <= k < save.market.budgets@.len() && (#[trigger] save.market.budgets@[k]).id
                == save.market.rules@[i].budget,
{
    let traders = save.market.traders@;
    assert(views(report.issues@).len() == 0);
    assert(prefixed("ledger: "@, views(save.market.ledger.findings@)).len() == 0);
    assert(views(save.market.ledger.findings@).len() == save.market.ledger.findings@.len());
    if 0 <= i < save.symbols@.len() {
        lemma_no_symbol_fault(save.symbols@, save.symbols@.len() as int, i, traders);
        let symbol = save.symbols@[i];
        let all = by_id(traders, trader_ids(traders));
        let held = held_by(all, all.len() as int, symbol.symbol@);
        let bids = bid_for(symbol.orders@, symbol.orders@.len() as int, traders);
        lemma_bids(symbol.orders@, symbol.orders@.len() as int, traders);
        law_holdings_pass_where_they_are_covered(symbol, held, bids);
        if 0 <= j < symbol.orders@.len() {
            lemma_no_order_fault(symbol.symbol@, symbol.orders@, symbol.orders@.len() as int, j, traders);
            law_an_order_passes_where_it_is_sound(symbol.symbol@, symbol.orders@[j], traders);
        }
    }
    if 0 <= i < save.market.jobs@.len() {
        lemma_no_job_fault(
            save.market.jobs@,
            save.market.jobs@.len() as int,
            i,
            trader_ids(traders),
            account_ids(save.market.accounts@),
        );
    }
    if 0 <= i < save.market.budgets@.len() {
        lemma_no_budget_fault(save.market.budgets@, save.market.budgets@.len() as int, i, &save.market.ledger);
    }
    if 0 <= i < save.market.rules@.len() {
        lemma_no_rule_fault(save.market.rules@, save.market.rules@.len() as int, i, save.market.budgets@);
    }
}

proof fn lemma_bids(orders: Seq<Resting>, n: int, traders: Seq<Trader>)
    ensures
        bid_for(orders, n, traders) >= 0,
    decreases n,
{
    if n > 0 {
        lemma_bids(orders, n - 1, traders);
    }
}

proof fn lemma_no_symbol_fault(symbols: Seq<SymbolSave>, n: int, i: int, traders: Seq<Trader>)
    requires
        0 <= i < n,
        symbol_faults(symbols, n, traders).len() == 0,
    ensures
        symbol_fault(symbols[i], traders).len() == 0,
    decreases n,
{
    if i < n - 1 {
        lemma_no_symbol_fault(symbols, n - 1, i, traders);
    }
}

proof fn lemma_no_order_fault(symbol: Seq<char>, orders: Seq<Resting>, n: int, i: int, traders: Seq<Trader>)
    requires
        0 <= i < n,
        order_faults(symbol, orders, n, traders).len() == 0,
    ensures
        order_fault(symbol, orders[i], traders).len() == 0,
    decreases n,
{
    if i < n - 1 {
        lemma_no_order_fault(symbol, orders, n - 1, i, traders);
    }
}

proof fn lemma_no_job_fault(jobs: Seq<Job>, n: int, i: int, traders: Seq<u64>, accounts: Seq<u64>)
    requires
        0 <= i < n,
        job_faults(jobs, n, traders, accounts).len() == 0,
    ensures
        job_fault(jobs[i], traders, accounts).len() == 0,
    decreases n,
{
    if i < n - 1 {
        lemma_no_job_fault(jobs, n - 1, i, traders, accounts);
    }
}

proof fn lemma_no_budget_fault(budgets: Seq<Budget>, n: int, i: int, ledger: &LedgerView)
    requires
        0 <= i < n,
        budget_faults(budgets, n, ledger).len() == 0,
    ensures
        budget_fault(budgets[i], ledger).len() == 0,
    decreases n,
{
    if i < n - 1 {
        lemma_no_budget_fault(budgets, n - 1, i, ledger);
    }
}

proof fn lemma_no_rule_fault(rules: Seq<RewardRule>, n: int, i: int, budgets: Seq<Budget>)
    requires
        0 <= i < n,
        rule_faults(rules, n, budgets).len() == 0,
    ensures
        budget_open(budgets, rules[i].budget),
    decreases n,
{
    if i < n - 1 {
        lemma_no_rule_fault(rules, n - 1, i, budgets);
    }
}

} // verus!
