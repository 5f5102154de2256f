//! Building a market, from nothing or from a save, and taking the save.
//!
//! A snapshot holds everything the server needs to carry on after a restart:
//! the same people, the same money, the same orders and the same numbers to
//! hand out next.

use std::collections::VecDeque;

use vstd::prelude::*;

use crate::account::{newest, same_account, same_user, Account, User};
use crate::auth::{law_keyring_round_trips_through_its_pairs, pair_views, Keyring, Ring};
use crate::events::{same_event, EventLog, EventRecord};
use crate::jobs::{lemma_filter_take, lemma_filtered, Job};
use crate::journal::CommandRecord;
use crate::ledger::{LedgerView, WalletId};
use crate::listings::Listings;
use crate::market::{Directory, Market, Wallets};
use crate::num::{max_int, max_u64};
use crate::options::{law_fees_are_bounded, Options};
use crate::orders::{client_key, lemma_kept, Log, OrderLog};
use crate::reconcile::{account_ids, lemma_places, places, trader_ids, traders_wf, user_ids};
use crate::save::{
    id_fault, id_faults, identity_faults, ids_checked, Budget, MarketSave, RewardRule, Save, SymbolSave,
    STATE_VERSION,
};
use crate::table::Table;
use crate::tickers::Tickers;
use crate::trading::{same_accepted, same_record, same_response, same_trader, OrderRecord, OrderResponse, Trader};

verus! {

/// What a market is built with.
pub struct MarketParts {
    pub wallets: Wallets,
    pub issuers: Table<String, WalletId>,
    /// The symbols, in listing order.
    pub tickers: Vec<String>,
    pub directory: Directory,
    /// Oldest first.
    pub events: VecDeque<EventRecord>,
    pub next_event_id: u64,
    pub users: Table<u64, User>,
    pub next_user_id: u64,
    pub accounts: Table<u64, Account>,
    pub next_account_id: u64,
    pub traders: Table<u64, Trader>,
    pub next_trader_id: u64,
    pub next_stop_id: u64,
    pub next_order_id: u64,
    /// Oldest first, with their accepted responses.
    pub orders: Vec<OrderRecord>,
}

impl MarketParts {
    /// Everybody stands under their own id, below the next one to be handed
    /// out, and the directory knows whose each trader is.
    pub open spec fn wf(&self) -> bool {
        &&& self.directory.wf()
        &&& self.issuers.wf()
        &&& self.users.wf()
        &&& self.accounts.wf()
        &&& self.traders.wf()
        &&& forall|id: u64| #[trigger]
            self.users.map().contains_key(id) ==> self.users.map()[id].id.0 == id && id < max_int(
                self.next_user_id as int,
                1,
            )
        &&& forall|id: u64| #[trigger]
            self.accounts.map().contains_key(id) ==> self.accounts.map()[id].id.0 == id && id < max_int(
                self.next_account_id as int,
                1,
            ) && self.accounts.map()[id].wf()
        &&& forall|id: u64| #[trigger]
            self.traders.map().contains_key(id) ==> self.traders.map()[id].id.0 == id && id < max_int(
                self.next_trader_id as int,
                1,
            ) && self.traders.map()[id].wf() && self.directory.owners.map()[id] == self.traders.map()[id].user_id.0
        &&& forall|id: u64| #[trigger]
            self.directory.owners.map().contains_key(id) == self.traders.map().contains_key(id)
    }
}

/// The log that recording the first `n` orders leaves, in a log of `cap`.
pub open spec fn rebuilt(records: Seq<OrderRecord>, n: int, cap: int) -> Log
    decreases n,
{
    if n <= 0 {
        Log { orders: Map::empty(), ids: Seq::empty(), clients: Map::empty() }
    } else {
        rebuilt(records, n - 1, cap).added(records[n - 1]).cut(cap)
    }
}

/// The symbols without an issuer wallet.
pub open spec fn unfunded(tickers: Seq<String>, issuers: Map<Seq<char>, WalletId>) -> Seq<String> {
    tickers.filter(|t: String| !issuers.contains_key(t@))
}

/// The market is built of these parts, as `options` say.
pub open spec fn built_of(market: &Market, parts: &MarketParts, options: &Options) -> bool {
    &&& market.listings.tickers == parts.tickers
    &&& market.listings.max == options.max_symbols
    &&& market.directory == parts.directory
    &&& market.events.cap == max_int(options.event_log as int, 1)
    &&& market.events.events@ == newest(parts.events@, max_int(options.event_log as int, 1))
    &&& market.events.next_id == max_int(parts.next_event_id as int, 1)
    &&& market.wallets == parts.wallets
    &&& market.issuers == parts.issuers
    &&& market.settlement_failures == 0
    &&& market.users == parts.users
    &&& market.next_user_id == max_int(parts.next_user_id as int, 1)
    &&& market.accounts == parts.accounts
    &&& market.next_account_id == max_int(parts.next_account_id as int, 1)
    &&& market.traders == parts.traders
    &&& market.next_trader_id == max_int(parts.next_trader_id as int, 1)
    &&& market.next_stop_id == max_int(parts.next_stop_id as int, 1)
    &&& market.next_order_id == max_int(parts.next_order_id as int, 1)
    &&& market.orders.limit() == max_int(options.order_log as int, 1)
    &&& market.orders.log() == rebuilt(
        parts.orders@,
        parts.orders@.len() as int,
        max_int(options.order_log as int, 1),
    )
    &&& market.fill_log == options.fill_log
    &&& market.ledger_log == options.ledger_log
    &&& market.orders_placed == 0
    &&& market.orders_refused == 0
    &&& market.fills_booked == 0
    &&& market.fees == options.charges()
    &&& market.issuer_float_cents == options.issuer_float_cents
}

/// Record orders, oldest first, through the same door as a live order, so the
/// index and the eviction order come out the same.
fn record_all(records: Vec<OrderRecord>, cap: usize) -> (log: OrderLog)
    ensures
        log.wf(),
        log.limit() == max_int(cap as int, 1),
        log.log() == rebuilt(records@, records@.len() as int, max_int(cap as int, 1)),
{
    let mut log = OrderLog::new(cap);
    let ghost all = records@;
    for record in it: records
        invariant
            it.seq() == all,
            log.wf(),
            log.limit() == max_int(cap as int, 1),
            log.log() == rebuilt(all, it.index(), max_int(cap as int, 1)),
    {
        log.record_order(record);
    }
    log
}

impl Market {
    /// Assemble the market. Returns it with the symbols whose issuers are
    /// still to be funded: a fresh world's are listed by being built, and a
    /// restored world already has them, so funding them again would be paying
    /// the same float twice.
    pub fn build(parts: MarketParts, options: &Options) -> (r: (Market, Vec<String>))
        requires
            parts.wf(),
        ensures
            r.0.wf(),
            built_of(&r.0, &parts, options),
            r.1@ == unfunded(parts.tickers@, parts.issuers.map()),
    {
        let mut owed: Vec<String> = Vec::new();
        let ghost tickers = parts.tickers@;
        let ghost bare = |t: String| !parts.issuers.map().contains_key(t@);
        let mut i: usize = 0;
        proof {
            assert(tickers.take(0).filter(bare) =~= Seq::<String>::empty()) by {
                reveal(Seq::filter);
            }
        }
        while i < parts.tickers.len()
            invariant
                parts.issuers.wf(),
                tickers == parts.tickers@,
                bare == (|t: String| !parts.issuers.map().contains_key(t@)),
                i <= parts.tickers.len(),
                owed@ == tickers.take(i as int).filter(bare),
            decreases parts.tickers.len() - i,
        {
            if !parts.issuers.contains_key(&parts.tickers[i]) {
                owed.push(parts.tickers[i].clone());
            }
            proof {
                lemma_filter_take(tickers, bare, i as int);
            }
            i = i + 1;
        }
        proof {
            assert(tickers.take(tickers.len() as int) =~= tickers);
            law_fees_are_bounded(*options);
        }
        let market = Market {
            listings: Listings { tickers: parts.tickers, max: options.max_symbols },
            directory: parts.directory,
            events: EventLog::continued(parts.events, options.event_log, parts.next_event_id),
            wallets: parts.wallets,
            issuers: parts.issuers,
            settlement_failures: 0,
            users: parts.users,
            next_user_id: max_u64(parts.next_user_id, 1),
            accounts: parts.accounts,
            next_account_id: max_u64(parts.next_account_id, 1),
            traders: parts.traders,
            next_trader_id: max_u64(parts.next_trader_id, 1),
            next_stop_id: max_u64(parts.next_stop_id, 1),
            next_order_id: max_u64(parts.next_order_id, 1),
            orders: record_all(parts.orders, options.order_log),
            fill_log: options.fill_log,
            ledger_log: options.ledger_log,
            orders_placed: 0,
            orders_refused: 0,
            fills_booked: 0,
            fees: options.fees(),
            issuer_float_cents: options.issuer_float_cents,
        };
        (market, owed)
    }

    /// A market with nobody in it yet.
    pub fn fresh(wallets: Wallets, tickers: Vec<String>, options: &Options) -> (r: (Market, Vec<String>))
        ensures
            r.0.wf(),
            r.0.wallets == wallets,
            r.0.listings.tickers == tickers,
            r.0.listings.max == options.max_symbols,
            r.0.users.map() == Map::<u64, User>::empty(),
            r.0.accounts.map() == Map::<u64, Account>::empty(),
            r.0.traders.map() == Map::<u64, Trader>::empty(),
            r.0.issuers.map() == Map::<Seq<char>, WalletId>::empty(),
            r.0.next_user_id == 1,
            r.0.next_account_id == 1,
            r.0.next_trader_id == 1,
            r.0.next_stop_id == 1,
            r.0.next_order_id == 1,
            r.0.events.next_id == 1,
            r.0.events.events@ == Seq::<EventRecord>::empty(),
            r.0.events.cap == max_int(options.event_log as int, 1),
            r.0.directory.keys.ring() == Ring::empty(),
            r.0.directory.keys.issued() == Map::<u64, Seq<char>>::empty(),
            r.0.directory.owners.map() == Map::<u64, u64>::empty(),
            r.0.orders.limit() == max_int(options.order_log as int, 1),
            r.0.orders.log() == (Log { orders: Map::empty(), ids: Seq::empty(), clients: Map::empty() }),
            r.0.settlement_failures == 0,
            r.0.orders_placed == 0,
            r.0.orders_refused == 0,
            r.0.fills_booked == 0,
            r.0.fees == options.charges(),
            r.0.fill_log == options.fill_log,
            r.0.ledger_log == options.ledger_log,
            r.0.issuer_float_cents == options.issuer_float_cents,
            r.1@ == unfunded(tickers@, Map::empty()),
    {
        let parts = MarketParts {
            wallets,
            issuers: Table::new(),
            tickers,
            directory: Directory { keys: Keyring::default(), owners: Table::new() },
            events: VecDeque::new(),
            next_event_id: 1,
            users: Table::new(),
            next_user_id: 1,
            accounts: Table::new(),
            next_account_id: 1,
            traders: Table::new(),
            next_trader_id: 1,
            next_stop_id: 1,
            next_order_id: 1,
            orders: Vec::new(),
        };
        Market::build(parts, options)
    }
}

// ---------------------------------------------------------------------------
// From a save

/// The users of a list stand in the table, each under its own id and the last
/// of those that share one.
pub open spec fn holds_users(table: Map<u64, User>, list: Seq<User>) -> bool {
    &&& forall|id: u64| #[trigger] table.contains_key(id) == places(user_ids(list)).contains_key(id)
    &&& forall|id: u64| #[trigger]
        table.contains_key(id) ==> same_user(table[id], list[places(user_ids(list))[id] as int])
}

fn table_of_users(list: &Vec<User>) -> (table: Table<u64, User>)
    ensures
        table.wf(),
        holds_users(table.map(), list@),
{
    let mut table: Table<u64, User> = Table::new();
    let ghost ids = user_ids(list@);
    let mut i: usize = 0;
    proof {
        assert(ids.take(0) =~= Seq::<u64>::empty());
    }
    while i < list.len()
        invariant
            ids == user_ids(list@),
            i <= list.len(),
            table.wf(),
            forall|id: u64| #[trigger] table.map().contains_key(id) == places(ids.take(i as int)).contains_key(id),
            forall|id: u64| #[trigger]
                table.map().contains_key(id) ==> same_user(table.map()[id], list@[places(ids.take(i as int))[id] as int]),
        decreases list.len() - i,
    {
        let ghost before = table.map();
        let ghost placed = places(ids.take(i as int));
        table.insert(list[i].id.0, list[i].clone());
        proof {
            let longer = ids.take(i as int + 1);
            assert(longer.drop_last() =~= ids.take(i as int));
            assert(longer.last() == list@[i as int].id.0);
            assert(places(longer) == placed.insert(list@[i as int].id.0, i));
            assert forall|id: u64| #[trigger] table.map().contains_key(id) == places(longer).contains_key(id) by {
                assert(before.contains_key(id) == placed.contains_key(id));
            }
            assert forall|id: u64| #[trigger] table.map().contains_key(id) implies same_user(
                table.map()[id],
                list@[places(longer)[id] as int],
            ) by {
                if id != list@[i as int].id.0 {
                    assert(before.contains_key(id));
                }
            }
        }
        i = i + 1;
    }
    proof {
        assert(ids.take(ids.len() as int) =~= ids);
    }
    table
}

/// The accounts of a list stand in the table, each under its own id and the last
/// of those that share one.
pub open spec fn holds_accounts(table: Map<u64, Account>, list: Seq<Account>) -> bool {
    &&& forall|id: u64| #[trigger] table.contains_key(id) == places(account_ids(list)).contains_key(id)
    &&& forall|id: u64| #[trigger]
        table.contains_key(id) ==> same_account(table[id], list[places(account_ids(list))[id] as int])
}

fn table_of_accounts(list: &Vec<Account>) -> (table: Table<u64, Account>)
    ensures
        table.wf(),
        holds_accounts(table.map(), list@),
{
    let mut table: Table<u64, Account> = Table::new();
    let ghost ids = account_ids(list@);
    let mut i: usize = 0;
    proof {
        assert(ids.take(0) =~= Seq::<u64>::empty());
    }
    while i < list.len()
        invariant
            ids == account_ids(list@),
            i <= list.len(),
            table.wf(),
            forall|id: u64| #[trigger] table.map().contains_key(id) == places(ids.take(i as int)).contains_key(id),
            forall|id: u64| #[trigger]
                table.map().contains_key(id) ==> same_account(
                    table.map()[id],
                    list@[places(ids.take(i as int))[id] as int],
                ),
        decreases list.len() - i,
    {
        let ghost before = table.map();
        let ghost placed = places(ids.take(i as int));
        table.insert(list[i].id.0, list[i].clone());
        proof {
            let longer = ids.take(i as int + 1);
            assert(longer.drop_last() =~= ids.take(i as int));
            assert(longer.last() == list@[i as int].id.0);
            assert(places(longer) == placed.insert(list@[i as int].id.0, i));
            assert forall|id: u64| #[trigger] table.map().contains_key(id) == places(longer).contains_key(id) by {
                assert(before.contains_key(id) == placed.contains_key(id));
            }
            assert forall|id: u64| #[trigger] table.map().contains_key(id) implies same_account(
                table.map()[id],
                list@[places(longer)[id] as int],
            ) by {
                if id != list@[i as int].id.0 {
                    assert(before.contains_key(id));
                }
            }
        }
        i = i + 1;
    }
    proof {
        assert(ids.take(ids.len() as int) =~= ids);
    }
    table
}

/// The traders of a list stand in the table, each under its own id and the last
/// of those that share one.
pub open spec fn holds_traders(table: Map<u64, Trader>, list: Seq<Trader>) -> bool {
    &&& forall|id: u64| #[trigger] table.contains_key(id) == places(trader_ids(list)).contains_key(id)
    &&& forall|id: u64| #[trigger]
        table.contains_key(id) ==> same_trader(table[id], list[places(trader_ids(list))[id] as int])
}

fn table_of_traders(list: &Vec<Trader>) -> (table: Table<u64, Trader>)
    ensures
        table.wf(),
        holds_traders(table.map(), list@),
{
    let mut table: Table<u64, Trader> = Table::new();
    let ghost ids = trader_ids(list@);
    let mut i: usize = 0;
    proof {
        assert(ids.take(0) =~= Seq::<u64>::empty());
    }
    while i < list.len()
        invariant
            ids == trader_ids(list@),
            i <= list.len(),
            table.wf(),
            forall|id: u64| #[trigger] table.map().contains_key(id) == places(ids.take(i as int)).contains_key(id),
            forall|id: u64| #[trigger]
                table.map().contains_key(id) ==> same_trader(
                    table.map()[id],
                    list@[places(ids.take(i as int))[id] as int],
                ),
        decreases list.len() - i,
    {
        let ghost before = table.map();
        let ghost placed = places(ids.take(i as int));
        table.insert(list[i].id.0, list[i].clone());
        proof {
            let longer = ids.take(i as int + 1);
            assert(longer.drop_last() =~= ids.take(i as int));
            assert(longer.last() == list@[i as int].id.0);
            assert(places(longer) == placed.insert(list@[i as int].id.0, i));
            assert forall|id: u64| #[trigger] table.map().contains_key(id) == places(longer).contains_key(id) by {
                assert(before.contains_key(id) == placed.contains_key(id));
            }
            assert forall|id: u64| #[trigger] table.map().contains_key(id) implies same_trader(
                table.map()[id],
                list@[places(longer)[id] as int],
            ) by {
                if id != list@[i as int].id.0 {
                    assert(before.contains_key(id));
                }
            }
        }
        i = i + 1;
    }
    proof {
        assert(ids.take(ids.len() as int) =~= ids);
    }
    table
}

/// The ids of answered orders.
pub open spec fn answered_ids(answers: Seq<(u64, OrderResponse)>) -> Seq<u64> {
    answers.map_values(|a: (u64, OrderResponse)| a.0)
}

/// The response an order was accepted with, where one was kept: the last of
/// those that share its id.
pub open spec fn answer_of(answers: Seq<(u64, OrderResponse)>, id: u64) -> Option<OrderResponse> {
    let all = places(answered_ids(answers));
    if all.contains_key(id) {
        Some(answers[all[id] as int].1)
    } else {
        None
    }
}

/// The saved orders, each with the response it was accepted with.
pub open spec fn reattached(records: Seq<OrderRecord>, orders: Seq<OrderRecord>, answers: Seq<(u64, OrderResponse)>) -> bool {
    &&& records.len() == orders.len()
    &&& forall|i: int|
        0 <= i < records.len() ==> same_record(
            #[trigger] records[i],
            OrderRecord { accepted: answer_of(answers, orders[i].order_id), ..orders[i] },
        )
}

fn reattach(orders: &Vec<OrderRecord>, answers: &Vec<(u64, OrderResponse)>) -> (records: Vec<OrderRecord>)
    ensures
        reattached(records@, orders@, answers@),
{
    let ghost ids = answered_ids(answers@);
    let mut all: Table<u64, usize> = Table::new();
    let mut i: usize = 0;
    proof {
        assert(ids.take(0) =~= Seq::<u64>::empty());
    }
    while i < answers.len()
        invariant
            ids == answered_ids(answers@),
            i <= answers.len(),
            all.wf(),
            all.map() == places(ids.take(i as int)),
        decreases answers.len() - i,
    {
        all.insert(answers[i].0, i);
        proof {
            let longer = ids.take(i as int + 1);
            assert(longer.drop_last() =~= ids.take(i as int));
            assert(longer.last() == answers@[i as int].0);
        }
        i = i + 1;
    }
    proof {
        assert(ids.take(ids.len() as int) =~= ids);
        assert(answers@.len() == answers.len());
        lemma_places(ids);
    }
    let mut records: Vec<OrderRecord> = Vec::new();
    let mut j: usize = 0;
    while j < orders.len()
        invariant
            ids == answered_ids(answers@),
            all.wf(),
            all.map() == places(ids),
            forall|id: u64| #[trigger] places(ids).contains_key(id) ==> places(ids)[id] < ids.len(),
            j <= orders.len(),
            records@.len() == j,
            forall|k: int|
                0 <= k < j ==> same_record(
                    #[trigger] records@[k],
                    OrderRecord { accepted: answer_of(answers@, orders@[k].order_id), ..orders@[k] },
                ),
        decreases orders.len() - j,
    {
        let mut record = orders[j].clone();
        record.accepted = match all.get(&record.order_id) {
            Some(place) => Some(answers[*place].1.clone()),
            None => None,
        };
        records.push(record);
        j = j + 1;
    }
    records
}

/// Whose each trader is.
fn owners_of(traders: &Table<u64, Trader>) -> (owners: Table<u64, u64>)
    requires
        traders.wf(),
    ensures
        owners.wf(),
        forall|id: u64| #[trigger] owners.map().contains_key(id) == traders.map().contains_key(id),
        forall|id: u64| #[trigger] traders.map().contains_key(id) ==> owners.map()[id] == traders.map()[id].user_id.0,
{
    let mut owners: Table<u64, u64> = Table::new();
    let n: usize = traders.len();
    let mut i: usize = 0;
    while i < n
        invariant
            traders.wf(),
            n == traders.keys().len(),
            i <= n,
            owners.wf(),
            forall|id: u64| #[trigger]
                owners.map().contains_key(id) == (traders.map().contains_key(id) && traders.place(id) < i),
            forall|id: u64| #[trigger]
                owners.map().contains_key(id) ==> owners.map()[id] == traders.map()[id].user_id.0,
        decreases n - i,
    {
        let id: u64 = *traders.key_at(i);
        let trader = traders.val_at(i);
        let ghost before = owners.map();
        owners.insert(id, trader.user_id.0);
        proof {
            traders.lemma_at(i as int);
            assert forall|other: u64| #[trigger] owners.map().contains_key(other) == (traders.map().contains_key(other)
                && traders.place(other) < i + 1) by {
                assert(before.contains_key(other) == (traders.map().contains_key(other) && traders.place(other) < i));
                if traders.map().contains_key(other) {
                    traders.lemma_placed(other);
                    if traders.place(other) == i {
                        assert(traders.keys()[i as int] == other);
                    }
                }
            }
            assert forall|other: u64| #[trigger] owners.map().contains_key(other) implies owners.map()[other]
                == traders.map()[other].user_id.0 by {
                if other != id {
                    assert(before.contains_key(other));
                }
            }
        }
        i = i + 1;
    }
    proof {
        assert forall|id: u64| #[trigger] owners.map().contains_key(id) == traders.map().contains_key(id) by {
            if traders.map().contains_key(id) {
                traders.lemma_placed(id);
            }
        }
        assert forall|id: u64| #[trigger] traders.map().contains_key(id) implies owners.map()[id]
            == traders.map()[id].user_id.0 by {
            assert(owners.map().contains_key(id));
        }
    }
    owners
}

/// The issuer wallets of a save, by symbol, the last of those that share one.
pub open spec fn issuers_of(pairs: Seq<(String, WalletId)>) -> Map<Seq<char>, WalletId>
    decreases pairs.len(),
{
    if pairs.len() == 0 {
        Map::empty()
    } else {
        issuers_of(pairs.drop_last()).insert(pairs.last().0@, pairs.last().1)
    }
}

/// The issuer wallets of a save, for the symbols that are known. Money set
/// aside for one that nothing names any more stays in the ledger, and the
/// symbol is given another wallet if it is ever listed again.
fn table_of_issuers(pairs: &Vec<(String, WalletId)>, known: &Tickers) -> (table: Table<String, WalletId>)
    requires
        known.wf(),
    ensures
        table.wf(),
        table.map() == issuers_of(pairs@).restrict(known.set()),
{
    let mut table: Table<String, WalletId> = Table::new();
    let mut i: usize = 0;
    proof {
        assert(pairs@.take(0) =~= Seq::<(String, WalletId)>::empty());
        assert(table.map() =~= issuers_of(pairs@.take(0)).restrict(known.set()));
    }
    while i < pairs.len()
        invariant
            i <= pairs.len(),
            table.wf(),
            known.wf(),
            table.map() == issuers_of(pairs@.take(i as int)).restrict(known.set()),
        decreases pairs.len() - i,
    {
        if known.knows(&pairs[i].0) {
            table.insert(pairs[i].0.clone(), pairs[i].1);
        }
        proof {
            let longer = pairs@.take(i as int + 1);
            assert(longer.drop_last() =~= pairs@.take(i as int));
            assert(longer.last() == pairs@[i as int]);
            assert(table.map() =~= issuers_of(longer).restrict(known.set()));
        }
        i = i + 1;
    }
    proof {
        assert(pairs@.take(pairs@.len() as int) =~= pairs@);
    }
    table
}

/// Two lists of events that say the same.
pub open spec fn same_events(a: Seq<EventRecord>, b: Seq<EventRecord>) -> bool {
    &&& a.len() == b.len()
    &&& forall|i: int| 0 <= i < a.len() ==> same_event(#[trigger] a[i], b[i])
}

fn queue_of_events(events: &Vec<EventRecord>) -> (queue: VecDeque<EventRecord>)
    ensures
        same_events(queue@, events@),
{
    let mut queue: VecDeque<EventRecord> = VecDeque::new();
    let mut i: usize = 0;
    while i < events.len()
        invariant
            i <= events.len(),
            queue@.len() == i,
            forall|j: int| 0 <= j < i ==> same_event(#[trigger] queue@[j], events@[j]),
        decreases events.len() - i,
    {
        queue.push_back(events[i].clone());
        i = i + 1;
    }
    queue
}

/// Every id of a list is below the next to be handed out.
pub open spec fn ids_below(ids: Seq<u64>, next: u64) -> bool {
    forall|i: int| 0 <= i < ids.len() ==> #[trigger] ids[i] < next
}

/// A save that a market can be built from: nobody has an id that is still to
/// be handed out, and everybody's tables are in order.
pub open spec fn restorable(save: &MarketSave) -> bool {
    &&& ids_below(user_ids(save.users@), save.next_user_id)
    &&& ids_below(account_ids(save.accounts@), save.next_account_id)
    &&& ids_below(trader_ids(save.traders@), save.next_trader_id)
    &&& traders_wf(save.traders@)
}

/// The market carries on from a save.
pub open spec fn restored_from(
    market: &Market,
    save: &MarketSave,
    tickers: Seq<String>,
    known: Set<Seq<char>>,
    options: &Options,
) -> bool {
    &&& market.listings.tickers@ == tickers
    &&& market.listings.max == options.max_symbols
    &&& market.directory.keys.ring() == Ring::empty().put_all(pair_views(save.api_keys@))
    &&& market.directory.keys.issued() == Map::<u64, Seq<char>>::empty()
    &&& holds_users(market.users.map(), save.users@)
    &&& holds_accounts(market.accounts.map(), save.accounts@)
    &&& holds_traders(market.traders.map(), save.traders@)
    &&& market.issuers.map() == issuers_of(save.issuers@).restrict(known)
    &&& market.wallets == save.wallets
    &&& market.events.cap == max_int(options.event_log as int, 1)
    &&& same_events(market.events.events@, newest(save.events@, max_int(options.event_log as int, 1)))
    &&& market.events.next_id == max_int(save.next_event_id as int, 1)
    &&& market.next_user_id == max_int(save.next_user_id as int, 1)
    &&& market.next_account_id == max_int(save.next_account_id as int, 1)
    &&& market.next_trader_id == max_int(save.next_trader_id as int, 1)
    &&& market.next_stop_id == max_int(save.next_stop_id as int, 1)
    &&& market.next_order_id == max_int(save.next_order_id as int, 1)
    &&& market.orders.limit() == max_int(options.order_log as int, 1)
    &&& exists|records: Seq<OrderRecord>| #[trigger]
        reattached(records, save.orders@, save.order_responses@) && market.orders.log() == rebuilt(
            records,
            records.len() as int,
            max_int(options.order_log as int, 1),
        )
    &&& market.fees == options.charges()
    &&& market.fill_log == options.fill_log
    &&& market.ledger_log == options.ledger_log
    &&& market.issuer_float_cents == options.issuer_float_cents
    &&& market.settlement_failures == 0
    &&& market.orders_placed == 0
    &&& market.orders_refused == 0
    &&& market.fills_booked == 0
}

impl Market {
    /// Build the market from a save instead of from nothing: it carries on
    /// with the same users, money and orders. `tickers` are the symbols that
    /// could be rebuilt, in listing order, and `known` those that anything
    /// names.
    pub fn restore(save: &MarketSave, tickers: Vec<String>, known: &Tickers, options: &Options) -> (r: (Market, Vec<String>))
        requires
            restorable(save),
            known.wf(),
        ensures
            r.0.wf(),
            restored_from(&r.0, save, tickers@, known.set(), options),
            r.1@ == unfunded(tickers@, issuers_of(save.issuers@).restrict(known.set())),
    {
        let users = table_of_users(&save.users);
        let accounts = table_of_accounts(&save.accounts);
        let traders = table_of_traders(&save.traders);
        let owners = owners_of(&traders);
        let mut pairs: Vec<(String, u64)> = Vec::new();
        let mut i: usize = 0;
        while i < save.api_keys.len()
            invariant
                i <= save.api_keys.len(),
                pairs@.len() == i,
                forall|j: int|
                    0 <= j < i ==> (#[trigger] pairs@[j]).0@ == save.api_keys@[j].0@ && pairs@[j].1
                        == save.api_keys@[j].1,
            decreases save.api_keys.len() - i,
        {
            pairs.push((save.api_keys[i].0.clone(), save.api_keys[i].1));
            i = i + 1;
        }
        proof {
            assert(pair_views(pairs@) =~= pair_views(save.api_keys@));
            assert(save.users@.len() == save.users.len());
            assert(save.accounts@.len() == save.accounts.len());
            assert(save.traders@.len() == save.traders.len());
            lemma_places(user_ids(save.users@));
            lemma_places(account_ids(save.accounts@));
            lemma_places(trader_ids(save.traders@));
        }
        let events = queue_of_events(&save.events);
        let ghost kept = events@;
        let records = reattach(&save.orders, &save.order_responses);
        let ghost recorded = records@;
        let parts = MarketParts {
            wallets: save.wallets,
            issuers: table_of_issuers(&save.issuers, known),
            tickers,
            directory: Directory { keys: Keyring::from_pairs(pairs), owners },
            events,
            next_event_id: save.next_event_id,
            users,
            next_user_id: save.next_user_id,
            accounts,
            next_account_id: save.next_account_id,
            traders,
            next_trader_id: save.next_trader_id,
            next_stop_id: save.next_stop_id,
            next_order_id: save.next_order_id,
            orders: records,
        };
        proof {
            assert forall|id: u64| #[trigger] parts.users.map().contains_key(id) implies parts.users.map()[id].id.0
                == id && id < max_int(parts.next_user_id as int, 1) by {
                let place = places(user_ids(save.users@))[id] as int;
                assert(places(user_ids(save.users@)).contains_key(id));
                assert(user_ids(save.users@)[place] == id);
            }
            assert forall|id: u64| #[trigger] parts.accounts.map().contains_key(id) implies parts.accounts.map()[id].id.0
                == id && id < max_int(parts.next_account_id as int, 1) && parts.accounts.map()[id].wf() by {
                let place = places(account_ids(save.accounts@))[id] as int;
                assert(places(account_ids(save.accounts@)).contains_key(id));
                assert(account_ids(save.accounts@)[place] == id);
            }
            assert forall|id: u64| #[trigger] parts.traders.map().contains_key(id) implies parts.traders.map()[id].id.0
                == id && id < max_int(parts.next_trader_id as int, 1) && parts.traders.map()[id].wf()
                && parts.directory.owners.map()[id] == parts.traders.map()[id].user_id.0 by {
                let place = places(trader_ids(save.traders@))[id] as int;
                assert(places(trader_ids(save.traders@)).contains_key(id));
                assert(trader_ids(save.traders@)[place] == id);
                assert(save.traders@[place].wf());
            }
        }
        let r = Market::build(parts, options);
        proof {
            let cap = max_int(options.event_log as int, 1);
            let (ours, theirs) = (newest(kept, cap), newest(save.events@, cap));
            assert forall|j: int| 0 <= j < ours.len() implies same_event(#[trigger] ours[j], theirs[j]) by {
                let shift = if kept.len() > cap {
                    kept.len() - cap
                } else {
                    0
                };
                assert(same_event(kept[j + shift], save.events@[j + shift]));
            }
            assert(reattached(recorded, save.orders@, save.order_responses@));
        }
        r
    }
}

// ---------------------------------------------------------------------------
// Taking the save

/// What one symbol hands a snapshot.
pub struct SymbolReport {
    pub save: SymbolSave,
    /// The simulated time its own clock has reached.
    pub clock_ms: i64,
    /// The id its book would give the next order.
    pub book_next: u64,
}

/// What a snapshot holds that is kept outside the market.
pub struct World {
    pub ledger: LedgerView,
    pub npc_users: Vec<u64>,
    pub jobs: Vec<Job>,
    pub budgets: Vec<Budget>,
    pub rules: Vec<RewardRule>,
    pub journal_seq: u64,
    pub commands: Vec<CommandRecord>,
}

/// The furthest the market and the first `n` symbols have reached: usually
/// the clock, but an engine step can leave a symbol ahead of it.
pub open spec fn furthest(now_ms: i64, symbols: Seq<SymbolReport>, n: int) -> int
    decreases n,
{
    if n <= 0 {
        now_ms as int
    } else {
        max_int(furthest(now_ms, symbols, n - 1), symbols[n - 1].clock_ms as int)
    }
}

/// The lowest order id that neither the market nor one of the first `n` books
/// has handed out.
pub open spec fn next_free(next: u64, symbols: Seq<SymbolReport>, n: int) -> int
    decreases n,
{
    if n <= 0 {
        next as int
    } else {
        max_int(next_free(next, symbols, n - 1), symbols[n - 1].book_next as int)
    }
}

/// Two lists of people that say the same.
pub open spec fn same_users(a: Seq<User>, b: Seq<User>) -> bool {
    &&& a.len() == b.len()
    &&& forall|i: int| 0 <= i < a.len() ==> same_user(#[trigger] a[i], b[i])
}

/// Two lists of accounts that say the same.
pub open spec fn same_accounts(a: Seq<Account>, b: Seq<Account>) -> bool {
    &&& a.len() == b.len()
    &&& forall|i: int| 0 <= i < a.len() ==> same_account(#[trigger] a[i], b[i])
}

/// Two lists of traders that say the same.
pub open spec fn same_traders(a: Seq<Trader>, b: Seq<Trader>) -> bool {
    &&& a.len() == b.len()
    &&& forall|i: int| 0 <= i < a.len() ==> same_trader(#[trigger] a[i], b[i])
}

/// The saved orders are the ones the log holds, in the order they were
/// accepted.
pub open spec fn saves_orders(saved: Seq<OrderRecord>, log: Log) -> bool {
    &&& saved.len() == log.kept().len()
    &&& forall|i: int| 0 <= i < saved.len() ==> same_record(#[trigger] saved[i], log.orders[log.kept()[i]])
}

/// The responses are those of the orders that were answered, in order.
pub open spec fn saves_answers(answers: Seq<(u64, OrderResponse)>, orders: Seq<OrderRecord>) -> bool {
    let answered = orders.filter(|o: OrderRecord| o.accepted is Some);
    &&& answers.len() == answered.len()
    &&& forall|i: int|
        0 <= i < answers.len() ==> (#[trigger] answers[i]).0 == answered[i].order_id && same_response(
            answers[i].1,
            answered[i].accepted->0,
        )
}

/// The pairs are the issuers, by symbol.
pub open spec fn saves_issuers(pairs: Seq<(String, WalletId)>, issuers: &Table<String, WalletId>) -> bool {
    &&& pairs.len() == issuers.keys().len()
    &&& forall|i: int|
        0 <= i < pairs.len() ==> (#[trigger] pairs[i]).0@ == issuers.keys()[i] && pairs[i].1 == issuers.vals()[i]
}

/// The save is the market as it stands.
pub open spec fn snapshot_of(save: &MarketSave, market: &Market) -> bool {
    &&& save.wallets == market.wallets
    &&& saves_issuers(save.issuers@, &market.issuers)
    &&& same_users(save.users@, market.users.vals())
    &&& same_accounts(save.accounts@, market.accounts.vals())
    &&& same_traders(save.traders@, market.traders.vals())
    &&& saves_orders(save.orders@, market.orders.log())
    &&& saves_answers(save.order_responses@, save.orders@)
    &&& same_events(save.events@, market.events.events@)
    &&& pair_views(save.api_keys@) == market.directory.keys.saved()
    &&& save.next_user_id == market.next_user_id
    &&& save.next_account_id == market.next_account_id
    &&& save.next_trader_id == market.next_trader_id
    &&& save.next_event_id == market.events.next_id
    &&& save.next_stop_id == market.next_stop_id
}

impl Market {
    fn saved_users(&self) -> (users: Vec<User>)
        requires
            self.wf(),
        ensures
            same_users(users@, self.users.vals()),
    {
        let mut users: Vec<User> = Vec::new();
        let n: usize = self.users.len();
        let mut i: usize = 0;
        while i < n
            invariant
                self.wf(),
                n == self.users.keys().len(),
                n == self.users.vals().len(),
                i <= n,
                users@.len() == i,
                forall|j: int| 0 <= j < i ==> same_user(#[trigger] users@[j], self.users.vals()[j]),
            decreases n - i,
        {
            users.push(self.users.val_at(i).clone());
            i = i + 1;
        }
        users
    }

    fn saved_accounts(&self) -> (accounts: Vec<Account>)
        requires
            self.wf(),
        ensures
            same_accounts(accounts@, self.accounts.vals()),
    {
        let mut accounts: Vec<Account> = Vec::new();
        let n: usize = self.accounts.len();
        let mut i: usize = 0;
        while i < n
            invariant
                self.wf(),
                n == self.accounts.keys().len(),
                n == self.accounts.vals().len(),
                i <= n,
                accounts@.len() == i,
                forall|j: int| 0 <= j < i ==> same_account(#[trigger] accounts@[j], self.accounts.vals()[j]),
            decreases n - i,
        {
            accounts.push(self.accounts.val_at(i).clone());
            i = i + 1;
        }
        accounts
    }

    fn saved_traders(&self) -> (traders: Vec<Trader>)
        requires
            self.wf(),
        ensures
            same_traders(traders@, self.traders.vals()),
    {
        let mut traders: Vec<Trader> = Vec::new();
        let n: usize = self.traders.len();
        let mut i: usize = 0;
        while i < n
            invariant
                self.wf(),
                n == self.traders.keys().len(),
                n == self.traders.vals().len(),
                i <= n,
                traders@.len() == i,
                forall|j: int| 0 <= j < i ==> same_trader(#[trigger] traders@[j], self.traders.vals()[j]),
            decreases n - i,
        {
            traders.push(self.traders.val_at(i).clone());
            i = i + 1;
        }
        traders
    }

    fn saved_issuers(&self) -> (pairs: Vec<(String, WalletId)>)
        requires
            self.wf(),
        ensures
            saves_issuers(pairs@, &self.issuers),
    {
        let mut pairs: Vec<(String, WalletId)> = Vec::new();
        let n: usize = self.issuers.len();
        let mut i: usize = 0;
        while i < n
            invariant
                self.wf(),
                n == self.issuers.keys().len(),
                i <= n,
                pairs@.len() == i,
                forall|j: int|
                    0 <= j < i ==> (#[trigger] pairs@[j]).0@ == self.issuers.keys()[j] && pairs@[j].1
                        == self.issuers.vals()[j],
            decreases n - i,
        {
            pairs.push((self.issuers.key_at(i).clone(), *self.issuers.val_at(i)));
            i = i + 1;
        }
        pairs
    }

    /// Everything the server would need to carry on after a restart: a copy of
    /// every symbol and of the clearing, taken in one go so nothing is halfway
    /// through anything.
    pub fn snapshot(&self, world: World, symbols: Vec<SymbolReport>, now_ms: i64, saved_at_ms: i64) -> (save: Save)
        requires
            self.wf(),
        ensures
            save.version == STATE_VERSION,
            save.saved_at_ms == saved_at_ms,
            save.sim_now_ms == furthest(now_ms, symbols@, symbols@.len() as int),
            save.symbols@ == symbols@.map_values(|s: SymbolReport| s.save),
            snapshot_of(&save.market, self),
            save.market.next_order_id == next_free(self.next_order_id, symbols@, symbols@.len() as int),
            save.market.ledger == world.ledger,
            save.market.npc_users == world.npc_users,
            save.market.jobs == world.jobs,
            save.market.budgets == world.budgets,
            save.market.rules == world.rules,
            save.market.journal_seq == world.journal_seq,
            save.market.commands == world.commands,
    {
        let mut sim_now_ms: i64 = now_ms;
        let mut next_order_id: u64 = self.next_order_id;
        let mut saves: Vec<SymbolSave> = Vec::new();
        let ghost all = symbols@;
        let ghost pick = |s: SymbolReport| s.save;
        proof {
            assert(all.take(0).map_values(pick) =~= Seq::<SymbolSave>::empty());
        }
        for symbol in it: symbols
            invariant
                it.seq() == all,
                pick == (|s: SymbolReport| s.save),
                sim_now_ms == furthest(now_ms, all, it.index()),
                next_order_id == next_free(self.next_order_id, all, it.index()),
                saves@ == all.take(it.index()).map_values(pick),
        {
            if symbol.clock_ms > sim_now_ms {
                sim_now_ms = symbol.clock_ms;
            }
            next_order_id = max_u64(next_order_id, symbol.book_next);
            saves.push(symbol.save);
            proof {
                let i = it.index();
                assert(all.take(i + 1).map_values(pick) =~= all.take(i).map_values(pick).push(all[i].save));
            }
        }
        proof {
            assert(all.take(all.len() as int) =~= all);
        }
        let orders = self.orders.to_saved();
        let order_responses = answers_in(&orders);
        let mut events: Vec<EventRecord> = Vec::new();
        let n: usize = self.events.events.len();
        let mut i: usize = 0;
        while i < n
            invariant
                n == self.events.events@.len(),
                i <= n,
                events@.len() == i,
                forall|j: int| 0 <= j < i ==> same_event(#[trigger] events@[j], self.events.events@[j]),
            decreases n - i,
        {
            events.push(self.events.events[i].clone());
            i = i + 1;
        }
        Save {
            version: STATE_VERSION,
            saved_at_ms,
            sim_now_ms,
            symbols: saves,
            market: MarketSave {
                ledger: world.ledger,
                wallets: self.wallets,
                issuers: self.saved_issuers(),
                npc_users: world.npc_users,
                jobs: world.jobs,
                budgets: world.budgets,
                rules: world.rules,
                users: self.saved_users(),
                accounts: self.saved_accounts(),
                traders: self.saved_traders(),
                orders,
                order_responses,
                events,
                api_keys: self.directory.keys.pairs(),
                next_user_id: self.next_user_id,
                next_account_id: self.next_account_id,
                next_trader_id: self.next_trader_id,
                next_event_id: self.events.next_id,
                next_stop_id: self.next_stop_id,
                next_order_id,
                journal_seq: world.journal_seq,
                commands: world.commands,
            },
        }
    }
}

/// The response of every order that was answered.
fn answers_in(orders: &Vec<OrderRecord>) -> (answers: Vec<(u64, OrderResponse)>)
    ensures
        saves_answers(answers@, orders@),
{
    let ghost keep = |o: OrderRecord| o.accepted is Some;
    let mut answers: Vec<(u64, OrderResponse)> = Vec::new();
    let mut i: usize = 0;
    proof {
        assert(orders@.take(0).filter(keep) =~= Seq::<OrderRecord>::empty()) by {
            reveal(Seq::filter);
        }
    }
    while i < orders.len()
        invariant
            keep == (|o: OrderRecord| o.accepted is Some),
            i <= orders.len(),
            answers@.len() == orders@.take(i as int).filter(keep).len(),
            forall|j: int|
                0 <= j < answers@.len() ==> (#[trigger] answers@[j]).0 == orders@.take(i as int).filter(keep)[j].order_id
                    && same_response(answers@[j].1, orders@.take(i as int).filter(keep)[j].accepted->0),
        decreases orders.len() - i,
    {
        let ghost before = answers@;
        match &orders[i].accepted {
            Some(response) => {
                answers.push((orders[i].order_id, response.clone()));
            },
            None => {},
        }
        proof {
            lemma_filter_take(orders@, keep, i as int);
            let kept = orders@.take(i as int + 1).filter(keep);
            assert forall|j: int| 0 <= j < answers@.len() implies (#[trigger] answers@[j]).0 == kept[j].order_id
                && same_response(answers@[j].1, kept[j].accepted->0) by {
                if j < before.len() {
                    assert(before[j] == answers@[j]);
                }
            }
        }
        i = i + 1;
    }
    proof {
        assert(orders@.take(orders@.len() as int) =~= orders@);
    }
    answers
}

// ---------------------------------------------------------------------------
// Laws

proof fn lemma_no_id_fault(name: Seq<char>, ids: Seq<u64>, next: u64, n: int, i: int)
    requires
        0 <= i < n <= ids.len(),
        id_faults(name, ids, next, n).len() == 0,
    ensures
        !id_fault(ids, next, i),
    decreases n,
{
    if i < n - 1 {
        lemma_no_id_fault(name, ids, next, n - 1, i);
    }
}

proof fn lemma_ids_below(name: Seq<char>, ids: Seq<u64>, next: u64)
    requires
        ids_checked(name, ids, next).len() == 0,
    ensures
        ids_below(ids, next),
{
    assert forall|i: int| 0 <= i < ids.len() implies #[trigger] ids[i] < next by {
        lemma_no_id_fault(name, ids, next, ids.len() as int, i);
    }
}

/// A save whose identities check out can be restored: nobody in it has an id
/// that is still to be handed out.
pub proof fn law_a_validated_save_can_be_restored(save: &Save)
    requires
        identity_faults(save).len() == 0,
        traders_wf(save.market.traders@),
    ensures
        restorable(&save.market),
{
    let market = &save.market;
    lemma_ids_below("user"@, user_ids(market.users@), market.next_user_id);
    lemma_ids_below("account"@, account_ids(market.accounts@), market.next_account_id);
    lemma_ids_below("trader"@, trader_ids(market.traders@), market.next_trader_id);
}

proof fn lemma_users_come_back(before: &Market, saved: Seq<User>, after: Map<u64, User>)
    requires
        before.wf(),
        same_users(saved, before.users.vals()),
        holds_users(after, saved),
    ensures
        forall|id: u64| #[trigger] after.contains_key(id) == before.users.map().contains_key(id),
        forall|id: u64| #[trigger] after.contains_key(id) ==> same_user(after[id], before.users.map()[id]),
{
    let table = before.users;
    table.lemma_fits();
    let ids = user_ids(saved);
    assert forall|i: int| 0 <= i < ids.len() implies #[trigger] ids[i] == table.keys()[i] by {
        table.lemma_at(i);
        assert(table.map().contains_key(table.keys()[i]));
        assert(before.user_wf(table.keys()[i]));
        assert(same_user(saved[i], table.vals()[i]));
    }
    assert(ids.no_duplicates()) by {
        assert forall|i: int, j: int| 0 <= i < ids.len() && 0 <= j < ids.len() && i != j implies ids[i] != ids[j] by {
            if table.keys()[i] == table.keys()[j] {
                table.lemma_distinct(i, j);
            }
        }
    }
    lemma_places(ids);
    assert forall|id: u64| #[trigger] after.contains_key(id) == table.map().contains_key(id) by {
        assert(places(ids).contains_key(id) == ids.contains(id));
        if ids.contains(id) {
            let i = choose|i: int| 0 <= i < ids.len() && ids[i] == id;
            table.lemma_at(i);
        }
        if table.map().contains_key(id) {
            table.lemma_placed(id);
            assert(ids[table.place(id)] == id);
        }
    }
    assert forall|id: u64| #[trigger] after.contains_key(id) implies same_user(after[id], table.map()[id]) by {
        assert(table.map().contains_key(id));
        table.lemma_placed(id);
        let place = table.place(id);
        assert(places(ids).contains_key(id));
        assert(ids[places(ids)[id] as int] == id);
        assert(ids[place] == id);
        assert(places(ids)[id] == place);
        assert(same_user(saved[place], table.vals()[place]));
    }
}

proof fn lemma_accounts_come_back(before: &Market, saved: Seq<Account>, after: Map<u64, Account>)
    requires
        before.wf(),
        same_accounts(saved, before.accounts.vals()),
        holds_accounts(after, saved),
    ensures
        forall|id: u64| #[trigger] after.contains_key(id) == before.accounts.map().contains_key(id),
        forall|id: u64| #[trigger] after.contains_key(id) ==> same_account(after[id], before.accounts.map()[id]),
{
    let table = before.accounts;
    table.lemma_fits();
    let ids = account_ids(saved);
    assert forall|i: int| 0 <= i < ids.len() implies #[trigger] ids[i] == table.keys()[i] by {
        table.lemma_at(i);
        assert(table.map().contains_key(table.keys()[i]));
        assert(before.account_wf(table.keys()[i]));
        assert(same_account(saved[i], table.vals()[i]));
    }
    assert(ids.no_duplicates()) by {
        assert forall|i: int, j: int| 0 <= i < ids.len() && 0 <= j < ids.len() && i != j implies ids[i] != ids[j] by {
            if table.keys()[i] == table.keys()[j] {
                table.lemma_distinct(i, j);
            }
        }
    }
    lemma_places(ids);
    assert forall|id: u64| #[trigger] after.contains_key(id) == table.map().contains_key(id) by {
        assert(places(ids).contains_key(id) == ids.contains(id));
        if ids.contains(id) {
            let i = choose|i: int| 0 <= i < ids.len() && ids[i] == id;
            table.lemma_at(i);
        }
        if table.map().contains_key(id) {
            table.lemma_placed(id);
            assert(ids[table.place(id)] == id);
        }
    }
    assert forall|id: u64| #[trigger] after.contains_key(id) implies same_account(after[id], table.map()[id]) by {
        assert(table.map().contains_key(id));
        table.lemma_placed(id);
        let place = table.place(id);
        assert(places(ids).contains_key(id));
        assert(ids[places(ids)[id] as int] == id);
        assert(ids[place] == id);
        assert(places(ids)[id] == place);
        assert(same_account(saved[place], table.vals()[place]));
    }
}

proof fn lemma_traders_come_back(before: &Market, saved: Seq<Trader>, after: Map<u64, Trader>)
    requires
        before.wf(),
        same_traders(saved, before.traders.vals()),
        holds_traders(after, saved),
    ensures
        forall|id: u64| #[trigger] after.contains_key(id) == before.traders.map().contains_key(id),
        forall|id: u64| #[trigger] after.contains_key(id) ==> same_trader(after[id], before.traders.map()[id]),
{
    let table = before.traders;
    table.lemma_fits();
    let ids = trader_ids(saved);
    assert forall|i: int| 0 <= i < ids.len() implies #[trigger] ids[i] == table.keys()[i] by {
        table.lemma_at(i);
        assert(table.map().contains_key(table.keys()[i]));
        assert(before.trader_wf(table.keys()[i]));
        assert(same_trader(saved[i], table.vals()[i]));
    }
    assert(ids.no_duplicates()) by {
        assert forall|i: int, j: int| 0 <= i < ids.len() && 0 <= j < ids.len() && i != j implies ids[i] != ids[j] by {
            if table.keys()[i] == table.keys()[j] {
                table.lemma_distinct(i, j);
            }
        }
    }
    lemma_places(ids);
    assert forall|id: u64| #[trigger] after.contains_key(id) == table.map().contains_key(id) by {
        assert(places(ids).contains_key(id) == ids.contains(id));
        if ids.contains(id) {
            let i = choose|i: int| 0 <= i < ids.len() && ids[i] == id;
            table.lemma_at(i);
        }
        if table.map().contains_key(id) {
            table.lemma_placed(id);
            assert(ids[table.place(id)] == id);
        }
    }
    assert forall|id: u64| #[trigger] after.contains_key(id) implies same_trader(after[id], table.map()[id]) by {
        assert(table.map().contains_key(id));
        table.lemma_placed(id);
        let place = table.place(id);
        assert(places(ids).contains_key(id));
        assert(ids[places(ids)[id] as int] == id);
        assert(ids[place] == id);
        assert(places(ids)[id] == place);
        assert(same_trader(saved[place], table.vals()[place]));
    }
}

/// A market restored from its own snapshot has the same people, with the same
/// accounts and traders, down to every row, position and fill, and the same
/// numbers to hand out next.
pub proof fn law_a_snapshot_brings_everybody_back(
    before: &Market,
    save: &MarketSave,
    after: &Market,
    tickers: Seq<String>,
    known: Set<Seq<char>>,
    options: &Options,
)
    requires
        before.wf(),
        snapshot_of(save, before),
        restored_from(after, save, tickers, known, options),
    ensures
        forall|id: u64| #[trigger] after.users.map().contains_key(id) == before.users.map().contains_key(id),
        forall|id: u64| #[trigger]
            after.users.map().contains_key(id) ==> same_user(after.users.map()[id], before.users.map()[id]),
        forall|id: u64| #[trigger] after.accounts.map().contains_key(id) == before.accounts.map().contains_key(id),
        forall|id: u64| #[trigger]
            after.accounts.map().contains_key(id) ==> same_account(
                after.accounts.map()[id],
                before.accounts.map()[id],
            ),
        forall|id: u64| #[trigger] after.traders.map().contains_key(id) == before.traders.map().contains_key(id),
        forall|id: u64| #[trigger]
            after.traders.map().contains_key(id) ==> same_trader(after.traders.map()[id], before.traders.map()[id]),
        after.next_user_id == max_int(before.next_user_id as int, 1),
        after.next_account_id == max_int(before.next_account_id as int, 1),
        after.next_trader_id == max_int(before.next_trader_id as int, 1),
        after.next_stop_id == max_int(before.next_stop_id as int, 1),
        after.wallets == before.wallets,
{
    lemma_users_come_back(before, save.users@, after.users.map());
    lemma_accounts_come_back(before, save.accounts@, after.accounts.map());
    lemma_traders_come_back(before, save.traders@, after.traders.map());
}

/// A market restored from its own snapshot knows every key it knew, and gives
/// each to the same user.
pub proof fn law_a_snapshot_brings_every_key_back(
    before: &Market,
    save: &MarketSave,
    after: &Market,
    tickers: Seq<String>,
    known: Set<Seq<char>>,
    options: &Options,
    digest: Seq<char>,
)
    requires
        before.wf(),
        snapshot_of(save, before),
        restored_from(after, save, tickers, known, options),
    ensures
        after.directory.keys.ring().speaks_for(digest) == before.directory.keys.ring().speaks_for(digest),
        forall|user: u64| !#[trigger] after.directory.keys.issued().contains_key(user),
{
    law_keyring_round_trips_through_its_pairs(before.directory.keys);
}

proof fn lemma_issuers(pairs: Seq<(String, WalletId)>, issuers: &Table<String, WalletId>, n: int)
    requires
        issuers.wf(),
        saves_issuers(pairs, issuers),
        0 <= n <= pairs.len(),
    ensures
        forall|symbol: Seq<char>| #[trigger]
            issuers_of(pairs.take(n)).contains_key(symbol) == (issuers.map().contains_key(symbol) && issuers.place(
                symbol,
            ) < n),
        forall|symbol: Seq<char>| #[trigger]
            issuers_of(pairs.take(n)).contains_key(symbol) ==> issuers_of(pairs.take(n))[symbol]
                == issuers.map()[symbol],
    decreases n,
{
    if n == 0 {
        assert(pairs.take(0) =~= Seq::<(String, WalletId)>::empty());
        assert forall|symbol: Seq<char>| !(#[trigger] issuers.map().contains_key(symbol) && issuers.place(symbol)
            < 0) by {
            if issuers.map().contains_key(symbol) {
                issuers.lemma_placed(symbol);
            }
        }
        assert forall|symbol: Seq<char>| #[trigger] issuers_of(pairs.take(0)).contains_key(symbol) == (
        issuers.map().contains_key(symbol) && issuers.place(symbol) < 0) by {
            if issuers.map().contains_key(symbol) {
                issuers.lemma_placed(symbol);
            }
        }
    } else {
        lemma_issuers(pairs, issuers, n - 1);
        let longer = pairs.take(n);
        assert(longer.drop_last() =~= pairs.take(n - 1));
        let last = issuers.keys()[n - 1];
        assert(longer.last() == pairs[n - 1]);
        issuers.lemma_at(n - 1);
        issuers.lemma_placed(last);
        if issuers.place(last) != n - 1 {
            issuers.lemma_distinct(issuers.place(last), n - 1);
        }
        assert forall|symbol: Seq<char>| #[trigger] issuers_of(longer).contains_key(symbol) == (
        issuers.map().contains_key(symbol) && issuers.place(symbol) < n) by {
            assert(issuers_of(pairs.take(n - 1)).contains_key(symbol) == (issuers.map().contains_key(symbol)
                && issuers.place(symbol) < n - 1));
            if issuers.map().contains_key(symbol) {
                issuers.lemma_placed(symbol);
                if issuers.place(symbol) == n - 1 {
                    assert(issuers.keys()[n - 1] == symbol);
                }
            }
        }
        assert forall|symbol: Seq<char>| #[trigger] issuers_of(longer).contains_key(symbol) implies issuers_of(
            longer,
        )[symbol] == issuers.map()[symbol] by {
            if symbol != last {
                assert(issuers_of(pairs.take(n - 1)).contains_key(symbol));
            }
        }
    }
}

/// A market restored from its own snapshot pays the dividends of every symbol
/// that is known out of the wallet it did before, so no float is paid twice.
pub proof fn law_a_snapshot_brings_every_issuer_back(
    before: &Market,
    save: &MarketSave,
    after: &Market,
    tickers: Seq<String>,
    known: Set<Seq<char>>,
    options: &Options,
)
    requires
        before.wf(),
        snapshot_of(save, before),
        restored_from(after, save, tickers, known, options),
    ensures
        after.issuers.map() == before.issuers.map().restrict(known),
{
    let pairs = save.issuers@;
    lemma_issuers(pairs, &before.issuers, pairs.len() as int);
    assert(pairs.take(pairs.len() as int) =~= pairs);
    assert forall|symbol: Seq<char>| #[trigger] issuers_of(pairs).contains_key(symbol)
        == before.issuers.map().contains_key(symbol) by {
        if before.issuers.map().contains_key(symbol) {
            before.issuers.lemma_placed(symbol);
        }
    }
    assert(after.issuers.map() =~= before.issuers.map().restrict(known));
}

/// A market restored from its own snapshot has the same events on record, as
/// far as its log is long enough for them.
pub proof fn law_a_snapshot_brings_the_events_back(
    before: &Market,
    save: &MarketSave,
    after: &Market,
    tickers: Seq<String>,
    known: Set<Seq<char>>,
    options: &Options,
)
    requires
        before.wf(),
        before.events.events@.len() <= max_int(options.event_log as int, 1),
        snapshot_of(save, before),
        restored_from(after, save, tickers, known, options),
    ensures
        same_events(after.events.events@, before.events.events@),
        after.events.next_id == max_int(before.events.next_id as int, 1),
{
    let kept = after.events.events@;
    assert forall|i: int| 0 <= i < kept.len() implies same_event(#[trigger] kept[i], before.events.events@[i]) by {
        assert(same_event(kept[i], save.events@[i]));
        assert(same_event(save.events@[i], before.events.events@[i]));
    }
}

/// The ids of orders.
pub open spec fn order_ids(orders: Seq<OrderRecord>) -> Seq<u64> {
    orders.map_values(|o: OrderRecord| o.order_id)
}

/// Recording orders in a log that has room for them all loses none.
proof fn lemma_rebuilt(records: Seq<OrderRecord>, n: int, cap: int)
    requires
        0 <= n <= records.len(),
        n <= cap,
    ensures
        rebuilt(records, n, cap).ids == order_ids(records).take(n),
        rebuilt(records, n, cap).orders.dom().finite(),
        rebuilt(records, n, cap).orders.len() <= n,
        forall|id: u64| #[trigger]
            rebuilt(records, n, cap).orders.contains_key(id) == order_ids(records).take(n).contains(id),
        forall|id: u64| #[trigger]
            rebuilt(records, n, cap).orders.contains_key(id) ==> exists|i: int|
                0 <= i < n && (#[trigger] records[i]).order_id == id && rebuilt(records, n, cap).orders[id] == records[i],
        n > 0 ==> rebuilt(records, n, cap) == rebuilt(records, n - 1, cap).added(records[n - 1]),
    decreases n,
{
    let ids = order_ids(records);
    if n == 0 {
        assert(ids.take(0) =~= Seq::<u64>::empty());
        assert(rebuilt(records, 0, cap).orders.dom() =~= Set::empty());
    } else {
        lemma_rebuilt(records, n - 1, cap);
        let before = rebuilt(records, n - 1, cap);
        let record = records[n - 1];
        let (front, whole) = (ids.take(n - 1), ids.take(n));
        let after = before.added(record);
        assert(after.orders.len() <= n);
        assert(after.cut(cap) == after);
        assert(ids.take(n) =~= ids.take(n - 1).push(record.order_id));
        assert forall|id: u64| #[trigger] after.orders.contains_key(id) == ids.take(n).contains(id) by {
            assert(before.orders.contains_key(id) == front.contains(id));
            if whole.contains(id) {
                let j = choose|j: int| 0 <= j < whole.len() && whole[j] == id;
                if j < n - 1 {
                    assert(front[j] == id);
                }
            }
            if front.contains(id) {
                let j = choose|j: int| 0 <= j < front.len() && front[j] == id;
                assert(whole[j] == id);
            }
            if id == record.order_id {
                assert(whole[n - 1] == id);
            }
        }
        assert forall|id: u64| #[trigger] after.orders.contains_key(id) implies exists|i: int|
            0 <= i < n && (#[trigger] records[i]).order_id == id && after.orders[id] == records[i] by {
            if id == record.order_id {
                assert(records[n - 1].order_id == id);
            } else {
                assert(before.orders.contains_key(id));
                let i = choose|i: int|
                    0 <= i < n - 1 && (#[trigger] records[i]).order_id == id && before.orders[id] == records[i];
                assert(records[i].order_id == id && after.orders[id] == records[i]);
            }
        }
    }
}

/// Two records are of one order exactly where they have one own id, as far as
/// they have any.
spec fn own_ids_agree(records: Seq<OrderRecord>) -> bool {
    forall|i: int, j: int|
        #![trigger records[i], records[j]]
        0 <= i < records.len() && 0 <= j < records.len() ==> (records[i].order_id == records[j].order_id ==> client_key(
            records[i],
        ) == client_key(records[j])) && (client_key(records[i]) is Some && client_key(records[i]) == client_key(
            records[j],
        ) ==> records[i].order_id == records[j].order_id)
}

/// Recording orders whose own ids agree in a log that has room for them all
/// indexes them by their own ids.
proof fn lemma_rebuilt_index(records: Seq<OrderRecord>, n: int, cap: int)
    requires
        0 <= n <= records.len(),
        n <= cap,
        own_ids_agree(records),
    ensures
        rebuilt(records, n, cap).indexed(),
    decreases n,
{
    if n > 0 {
        lemma_rebuilt_index(records, n - 1, cap);
        lemma_rebuilt(records, n - 1, cap);
        lemma_rebuilt(records, n, cap);
        let before = rebuilt(records, n - 1, cap);
        let record = records[n - 1];
        let after = before.added(record);
        assert forall|id: u64| #[trigger] after.orders.contains_key(id) implies (client_key(after.orders[id]) matches Some(
            key,
        ) ==> after.clients.contains_key(key) && after.clients[key] == id) by {
            if id != record.order_id {
                assert(before.orders.contains_key(id));
                let i = choose|i: int|
                    0 <= i < n - 1 && (#[trigger] records[i]).order_id == id && before.orders[id] == records[i];
                assert(records[i].order_id != records[n - 1].order_id);
            }
        }
        assert forall|key: (u64, Seq<char>)| #[trigger] after.clients.contains_key(key) implies after.orders.contains_key(
            after.clients[key],
        ) && client_key(after.orders[after.clients[key]]) == Some(key) by {
            if client_key(record) != Some(key) {
                assert(before.clients.contains_key(key));
                let id = before.clients[key];
                assert(before.orders.contains_key(id));
                let i = choose|i: int|
                    0 <= i < n - 1 && (#[trigger] records[i]).order_id == id && before.orders[id] == records[i];
                assert(client_key(records[i]) == Some(key));
                assert(records[i].order_id != records[n - 1].order_id);
            }
        }
    }
}

/// What a filter keeps was there.
proof fn lemma_filter_source<T>(s: Seq<T>, keep: spec_fn(T) -> bool, p: int)
    requires
        0 <= p < s.filter(keep).len(),
    ensures
        exists|j: int| 0 <= j < s.len() && s[j] == s.filter(keep)[p],
    decreases s.len(),
{
    reveal(Seq::filter);
    if s.len() > 0 {
        let front = s.drop_last();
        if p < front.filter(keep).len() {
            lemma_filter_source(front, keep, p);
            let j = choose|j: int| 0 <= j < front.len() && front[j] == front.filter(keep)[p];
            assert(s[j] == s.filter(keep)[p]);
        } else {
            assert(s[s.len() - 1] == s.filter(keep)[p]);
        }
    }
}

/// An order is answered with the response it was saved with. Where more than
/// one entry has its id, they all have the same.
proof fn lemma_answers(orders: Seq<OrderRecord>, answers: Seq<(u64, OrderResponse)>, i: int)
    requires
        forall|a: int, b: int|
            #![trigger orders[a], orders[b]]
            0 <= a < orders.len() && 0 <= b < orders.len() && orders[a].order_id == orders[b].order_id ==> same_accepted(
                orders[a].accepted,
                orders[b].accepted,
            ),
        saves_answers(answers, orders),
        answers.len() <= usize::MAX,
        0 <= i < orders.len(),
    ensures
        same_accepted(answer_of(answers, orders[i].order_id), orders[i].accepted),
{
    let keep = |o: OrderRecord| o.accepted is Some;
    let answered = orders.filter(keep);
    let ids = answered_ids(answers);
    let id = orders[i].order_id;
    lemma_places(ids);
    assert forall|p: int| 0 <= p < answered.len() implies (#[trigger] answered[p]).accepted is Some && exists|j: int|
        0 <= j < orders.len() && orders[j] == answered[p] by {
        lemma_filter_source(orders, keep, p);
        orders.lemma_filter_pred(keep, p);
    }
    if places(ids).contains_key(id) {
        let p = places(ids)[id] as int;
        assert(ids[p] == id);
        assert(answers[p].0 == answered[p].order_id);
        let j = choose|j: int| 0 <= j < orders.len() && orders[j] == answered[p];
        assert(orders[j].order_id == orders[i].order_id);
    } else {
        if orders[i].accepted is Some {
            assert(keep(orders[i]));
            orders.lemma_filter_contains(keep, i);
            let p = choose|p: int| 0 <= p < answered.len() && answered[p] == orders[i];
            assert(answers[p].0 == id);
            assert(ids[p] == id);
        }
    }
}

/// What is restored of a log is what was saved of it.
proof fn lemma_records_come_back(log: Log, saved: Seq<OrderRecord>, answers: Seq<(u64, OrderResponse)>, records: Seq<OrderRecord>)
    requires
        log.wf(),
        saves_orders(saved, log),
        saves_answers(answers, saved),
        answers.len() <= usize::MAX,
        reattached(records, saved, answers),
    ensures
        records.len() == log.kept().len(),
        order_ids(records) == log.kept(),
        forall|i: int|
            0 <= i < records.len() ==> log.orders.contains_key((#[trigger] records[i]).order_id) && same_record(
                records[i],
                log.orders[records[i].order_id],
            ),
{
    let kept = log.kept();
    let here = |id: u64| log.orders.contains_key(id);
    assert forall|i: int| 0 <= i < kept.len() implies log.orders.contains_key(#[trigger] kept[i]) by {
        log.ids.lemma_filter_pred(here, i);
    }
    assert forall|i: int| 0 <= i < kept.len() implies (#[trigger] saved[i]).order_id == kept[i] && same_record(
        saved[i],
        log.orders[kept[i]],
    ) by {
        assert(same_record(saved[i], log.orders[kept[i]]));
        assert(log.orders.contains_key(kept[i]));
    }
    assert forall|i: int| 0 <= i < kept.len() implies (#[trigger] records[i]).order_id == kept[i] && same_record(
        records[i],
        log.orders[kept[i]],
    ) by {
        assert(saved[i].order_id == kept[i]);
        assert(same_record(records[i], OrderRecord { accepted: answer_of(answers, saved[i].order_id), ..saved[i] }));
        lemma_answers(saved, answers, i);
    }
    assert(order_ids(records) =~= kept);
}

/// A market restored from its own snapshot has the same orders on record, in
/// the order they were accepted and each with the response it was accepted
/// with, as far as its log has room for them.
pub proof fn law_a_snapshot_brings_the_orders_back(
    before: &Market,
    save: &MarketSave,
    after: &Market,
    tickers: Seq<String>,
    known: Set<Seq<char>>,
    options: &Options,
)
    requires
        before.wf(),
        before.orders.log().kept().len() <= max_int(options.order_log as int, 1),
        snapshot_of(save, before),
        restored_from(after, save, tickers, known, options),
    ensures
        after.orders.log().ids == before.orders.log().kept(),
        forall|id: u64| #[trigger]
            after.orders.log().orders.contains_key(id) == before.orders.log().orders.contains_key(id),
        forall|id: u64| #[trigger]
            after.orders.log().orders.contains_key(id) ==> same_record(
                after.orders.log().orders[id],
                before.orders.log().orders[id],
            ),
{
    let log = before.orders.log();
    let kept = log.kept();
    let cap = max_int(options.order_log as int, 1);
    before.orders.lemma_wf();
    let records = choose|records: Seq<OrderRecord>| #[trigger]
        reattached(records, save.orders@, save.order_responses@) && after.orders.log() == rebuilt(
            records,
            records.len() as int,
            cap,
        );
    assert(save.order_responses@.len() == save.order_responses.len());
    lemma_records_come_back(log, save.orders@, save.order_responses@, records);
    lemma_rebuilt(records, records.len() as int, cap);
    assert(kept.take(kept.len() as int) =~= kept);
    assert forall|id: u64| #[trigger] after.orders.log().orders.contains_key(id) == log.orders.contains_key(id) by {
        lemma_kept(log, id);
    }
    assert forall|id: u64| #[trigger] after.orders.log().orders.contains_key(id) implies same_record(
        after.orders.log().orders[id],
        log.orders[id],
    ) by {
        let i = choose|i: int|
            0 <= i < records.len() && (#[trigger] records[i]).order_id == id && after.orders.log().orders[id] == records[i];
        assert(log.orders.contains_key(records[i].order_id));
    }
}

/// A market restored from its own snapshot answers a repeated submission as
/// it would have before: each caller's own id finds the order it was given
/// for, and one that was never used finds nothing. The index is as true as it
/// was.
pub proof fn law_a_snapshot_brings_own_order_ids_back(
    before: &Market,
    save: &MarketSave,
    after: &Market,
    tickers: Seq<String>,
    known: Set<Seq<char>>,
    options: &Options,
    trader: u64,
    own_id: Seq<char>,
)
    requires
        before.wf(),
        before.orders.log().indexed(),
        before.orders.log().kept().len() <= max_int(options.order_log as int, 1),
        snapshot_of(save, before),
        restored_from(after, save, tickers, known, options),
    ensures
        match (after.orders.log().by_client(trader, own_id), before.orders.log().by_client(trader, own_id)) {
            (Some(now), Some(earlier)) => same_record(now, earlier),
            (None, None) => true,
            _ => false,
        },
        after.orders.log().indexed(),
{
    let log = before.orders.log();
    let cap = max_int(options.order_log as int, 1);
    let key = (trader, own_id);
    before.orders.lemma_wf();
    let records = choose|records: Seq<OrderRecord>| #[trigger]
        reattached(records, save.orders@, save.order_responses@) && after.orders.log() == rebuilt(
            records,
            records.len() as int,
            cap,
        );
    assert(save.order_responses@.len() == save.order_responses.len());
    lemma_records_come_back(log, save.orders@, save.order_responses@, records);
    assert(own_ids_agree(records)) by {
        assert forall|i: int, j: int|
            #![trigger records[i], records[j]]
            0 <= i < records.len() && 0 <= j < records.len() implies (records[i].order_id == records[j].order_id
            ==> client_key(records[i]) == client_key(records[j])) && (client_key(records[i]) is Some && client_key(
            records[i],
        ) == client_key(records[j]) ==> records[i].order_id == records[j].order_id) by {
            assert(log.orders.contains_key(records[i].order_id));
            assert(log.orders.contains_key(records[j].order_id));
            assert(client_key(records[i]) == client_key(log.orders[records[i].order_id]));
            assert(client_key(records[j]) == client_key(log.orders[records[j].order_id]));
        }
    }
    lemma_rebuilt_index(records, records.len() as int, cap);
    law_a_snapshot_brings_the_orders_back(before, save, after, tickers, known, options);
    let back = after.orders.log();
    if back.clients.contains_key(key) {
        let id = back.clients[key];
        assert(back.orders.contains_key(id));
        assert(client_key(log.orders[id]) == Some(key));
    }
    if log.clients.contains_key(key) {
        let id = log.clients[key];
        assert(back.orders.contains_key(id));
        assert(client_key(back.orders[id]) == Some(key));
    }
}

/// A save is taken at the furthest instant that any symbol has reached: not
/// before any of them, and never later than the furthest.
pub proof fn law_a_save_is_taken_at_the_furthest_instant(now_ms: i64, symbols: Seq<SymbolReport>, n: int, i: int)
    requires
        0 <= n <= symbols.len(),
    ensures
        furthest(now_ms, symbols, n) >= now_ms,
        0 <= i < n ==> furthest(now_ms, symbols, n) >= symbols[i].clock_ms,
        furthest(now_ms, symbols, n) == now_ms || exists|j: int|
            0 <= j < n && (#[trigger] symbols[j]).clock_ms == furthest(now_ms, symbols, n),
    decreases n,
{
    if n > 0 {
        law_a_save_is_taken_at_the_furthest_instant(now_ms, symbols, n - 1, i);
        assert(symbols[n - 1].clock_ms <= furthest(now_ms, symbols, n));
    }
}

/// The next order's number is past every number that any book has given out:
/// the largest of what they and the market would give next.
pub proof fn law_the_next_order_is_past_every_book(next: u64, symbols: Seq<SymbolReport>, n: int, i: int)
    requires
        0 <= n <= symbols.len(),
    ensures
        next_free(next, symbols, n) >= next,
        0 <= i < n ==> next_free(next, symbols, n) >= symbols[i].book_next,
        next_free(next, symbols, n) == next || exists|j: int|
            0 <= j < n && (#[trigger] symbols[j]).book_next == next_free(next, symbols, n),
    decreases n,
{
    if n > 0 {
        law_the_next_order_is_past_every_book(next, symbols, n - 1, i);
        assert(symbols[n - 1].book_next <= next_free(next, symbols, n));
    }
}

/// The symbols left to be funded are those without a wallet of their issuer's,
/// and no others.
pub proof fn law_a_symbol_is_funded_once(tickers: Seq<String>, issuers: Map<Seq<char>, WalletId>, ticker: String)
    ensures
        unfunded(tickers, issuers).contains(ticker) <==> tickers.contains(ticker) && !issuers.contains_key(ticker@),
{
    lemma_filtered(tickers, |t: String| !issuers.contains_key(t@), ticker);
}

/// An issuer's wallet is the one it was last paired with.
pub proof fn law_an_issuer_keeps_its_last_wallet(
    pairs: Seq<(String, WalletId)>,
    symbol: String,
    wallet: WalletId,
    other: Seq<char>,
)
    requires
        other != symbol@,
    ensures
        issuers_of(pairs.push((symbol, wallet))).contains_key(symbol@),
        issuers_of(pairs.push((symbol, wallet)))[symbol@] == wallet,
        issuers_of(pairs.push((symbol, wallet))).contains_key(other) == issuers_of(pairs).contains_key(other),
        issuers_of(pairs).contains_key(other) ==> issuers_of(pairs.push((symbol, wallet)))[other] == issuers_of(
            pairs,
        )[other],
{
    assert(pairs.push((symbol, wallet)).drop_last() =~= pairs);
}

/// What is restored is numbered on from where it was left, and starts counting
/// what it does anew.
pub proof fn law_a_restored_market_counts_on(
    save: &MarketSave,
    market: &Market,
    tickers: Seq<String>,
    known: Set<Seq<char>>,
    options: &Options,
)
    requires
        restored_from(market, save, tickers, known, options),
    ensures
        market.next_order_id >= save.next_order_id,
        save.next_order_id >= 1 ==> market.next_order_id == save.next_order_id,
        market.next_stop_id >= save.next_stop_id,
        market.next_user_id >= save.next_user_id,
        market.next_account_id >= save.next_account_id,
        market.next_trader_id >= save.next_trader_id,
        market.wallets == save.wallets,
        market.listings.tickers@ == tickers,
        market.orders_placed == 0 && market.orders_refused == 0 && market.fills_booked == 0
            && market.settlement_failures == 0,
{
}

} // verus!
