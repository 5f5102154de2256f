//! The tickers a save names.
//!
//! A save is the symbol table: the symbols it names are the symbols there
//! are, and a record that names one no longer listed (a fill or a row of a
//! delisted company) still means that one. Whatever else is kept by ticker
//! comes back for the tickers that something names.

use std::collections::VecDeque;

use vstd::prelude::*;

use crate::account::{Account, LedgerEntry};
use crate::events::EventRecord;
use crate::jobs::{Job, Line};
use crate::reconcile::traders_wf;
use crate::save::{Save, SymbolSave};
use crate::table::Table;
use crate::text::opt_text;
use crate::trading::{FillRecord, OrderRecord, OrderResponse, StopOrder, Trader};

verus! {

/// Every text that one of the items gives.
pub open spec fn texts_of<T>(items: Seq<T>, gives: spec_fn(T) -> Set<Seq<char>>) -> Set<Seq<char>>
    decreases items.len(),
{
    if items.len() == 0 {
        Set::empty()
    } else {
        texts_of(items.drop_last(), gives).union(gives(items.last()))
    }
}

/// The text, where there is one.
pub open spec fn maybe_text(text: Option<String>) -> Set<Seq<char>> {
    match opt_text(text) {
        Some(text) => set![text],
        None => Set::empty(),
    }
}

/// The tickers a listing and its stops name.
pub open spec fn named_by_symbol(symbol: SymbolSave) -> Set<Seq<char>> {
    (match symbol.info {
        Some(info) => set![info.symbol@],
        None => Set::empty(),
    }).union(texts_of(symbol.stops@, |x: StopOrder| set![x.symbol@]))
}

/// The tickers the rows of an account name.
pub open spec fn named_by_account(account: Account) -> Set<Seq<char>> {
    texts_of(account.ledger@, |x: LedgerEntry| maybe_text(x.symbol))
}

/// The tickers a trader's positions, promises and fills name.
pub open spec fn named_by_trader(trader: Trader) -> Set<Seq<char>> {
    trader.positions.map().dom().union(trader.reserved_shares.map().dom()).union(
        texts_of(trader.fills@, |x: FillRecord| set![x.symbol@]),
    )
}

/// The tickers an event names.
pub open spec fn named_by_event(event: EventRecord) -> Set<Seq<char>> {
    texts_of(event.symbols@, |s: String| set![s@])
}

/// The goods a job takes and makes.
pub open spec fn named_by_job(job: Job) -> Set<Seq<char>> {
    texts_of(job.inputs@, |x: Line| set![x.symbol@]).union(texts_of(job.outputs@, |x: Line| set![x.symbol@]))
}

/// The tickers a save names.
pub open spec fn named_in(save: Save) -> Set<Seq<char>> {
    let market = save.market;
    texts_of(save.symbols@, |x: SymbolSave| named_by_symbol(x)).union(
        texts_of(market.accounts@, |x: Account| named_by_account(x)),
    ).union(texts_of(market.traders@, |x: Trader| named_by_trader(x))).union(
        texts_of(market.orders@, |x: OrderRecord| set![x.symbol@]),
    ).union(texts_of(market.order_responses@, |x: (u64, OrderResponse)| set![x.1.symbol@])).union(
        texts_of(market.events@, |x: EventRecord| named_by_event(x)),
    ).union(texts_of(market.jobs@, |x: Job| named_by_job(x)))
}

/// One item more gives what it gives.
proof fn lemma_one_more<T>(items: Seq<T>, gives: spec_fn(T) -> Set<Seq<char>>, i: int)
    requires
        0 <= i < items.len(),
    ensures
        texts_of(items.take(i + 1), gives) == texts_of(items.take(i), gives).union(gives(items[i])),
{
    assert(items.take(i + 1).drop_last() =~= items.take(i));
    assert(items.take(i + 1).last() == items[i]);
}

/// A set of tickers.
pub struct Tickers {
    known: Table<String, ()>,
}

impl Tickers {
    /// The tickers.
    pub closed spec fn set(&self) -> Set<Seq<char>> {
        self.known.map().dom()
    }

    /// The set is in order.
    pub closed spec fn wf(&self) -> bool {
        self.known.wf()
    }

    /// No ticker at all.
    pub fn new() -> (tickers: Self)
        ensures
            tickers.wf(),
            tickers.set() == Set::<Seq<char>>::empty(),
    {
        let tickers = Tickers { known: Table::new() };
        proof {
            assert(tickers.set() =~= Set::<Seq<char>>::empty());
        }
        tickers
    }

    /// The ticker is known.
    pub fn knows(&self, ticker: &String) -> (r: bool)
        requires
            self.wf(),
        ensures
            r == self.set().contains(ticker@),
    {
        self.known.contains_key(ticker)
    }

    /// Learn a ticker.
    pub fn learn(&mut self, ticker: &String)
        requires
            old(self).wf(),
        ensures
            final(self).wf(),
            final(self).set() == old(self).set().union(set![ticker@]),
    {
        let ghost before = *self;
        self.known.insert(ticker.clone(), ());
        proof {
            assert(self.set() =~= before.set().union(set![ticker@]));
        }
    }

    /// Learn the ticker of a row, where it has one.
    fn learn_maybe(&mut self, ticker: &Option<String>)
        requires
            old(self).wf(),
        ensures
            final(self).wf(),
            final(self).set() == old(self).set().union(maybe_text(*ticker)),
    {
        match ticker {
            Some(ticker) => {
                self.learn(ticker);
            },
            None => {
                assert(self.set() =~= self.set().union(maybe_text(None)));
            },
        }
    }

    /// Learn every ticker of a list.
    pub fn learn_all(&mut self, tickers: &Vec<String>)
        requires
            old(self).wf(),
        ensures
            final(self).wf(),
            final(self).set() == old(self).set().union(texts_of(tickers@, |s: String| set![s@])),
    {
        let ghost start = self.set();
        let ghost gives = |s: String| set![s@];
        let mut i: usize = 0;
        proof {
            assert(start =~= start.union(texts_of(tickers@.take(0), gives)));
        }
        while i < tickers.len()
            invariant
                i <= tickers.len(),
                self.wf(),
                gives == (|s: String| set![s@]),
                self.set() == start.union(texts_of(tickers@.take(i as int), gives)),
            decreases tickers.len() - i,
        {
            self.learn(&tickers[i]);
            proof {
                lemma_one_more(tickers@, gives, i as int);
                assert(self.set() =~= start.union(texts_of(tickers@.take(i as int + 1), gives)));
            }
            i = i + 1;
        }
        proof {
            assert(tickers@.take(tickers@.len() as int) =~= tickers@);
        }
    }

    /// Learn what stops name.
    fn learn_stops(&mut self, items: &Vec<StopOrder>)
        requires
            old(self).wf(),
        ensures
            final(self).wf(),
            final(self).set() == old(self).set().union(texts_of(items@, |x: StopOrder| set![x.symbol@])),
    {
        let ghost start = self.set();
        let ghost gives = |x: StopOrder| set![x.symbol@];
        let n: usize = items.len();
        let mut i: usize = 0;
        proof {
            assert(start =~= start.union(texts_of(items@.take(0), gives)));
        }
        while i < n
            invariant
                n == items@.len(),
                i <= n,
                self.wf(),
                gives == (|x: StopOrder| set![x.symbol@]),
                self.set() == start.union(texts_of(items@.take(i as int), gives)),
            decreases n - i,
        {
            self.learn(&items[i].symbol);
            proof {
                lemma_one_more(items@, gives, i as int);
                assert(self.set() =~= start.union(texts_of(items@.take(i as int + 1), gives)));
            }
            i = i + 1;
        }
        proof {
            assert(items@.take(n as int) =~= items@);
        }
    }

    /// Learn what the rows of a history name.
    fn learn_rows(&mut self, items: &VecDeque<LedgerEntry>)
        requires
            old(self).wf(),
        ensures
            final(self).wf(),
            final(self).set() == old(self).set().union(texts_of(items@, |x: LedgerEntry| maybe_text(x.symbol))),
    {
        let ghost start = self.set();
        let ghost gives = |x: LedgerEntry| maybe_text(x.symbol);
        let n: usize = items.len();
        let mut i: usize = 0;
        proof {
            assert(start =~= start.union(texts_of(items@.take(0), gives)));
        }
        while i < n
            invariant
                n == items@.len(),
                i <= n,
                self.wf(),
                gives == (|x: LedgerEntry| maybe_text(x.symbol)),
                self.set() == start.union(texts_of(items@.take(i as int), gives)),
            decreases n - i,
        {
            self.learn_maybe(&items[i].symbol);
            proof {
                lemma_one_more(items@, gives, i as int);
                assert(self.set() =~= start.union(texts_of(items@.take(i as int + 1), gives)));
            }
            i = i + 1;
        }
        proof {
            assert(items@.take(n as int) =~= items@);
        }
    }

    /// Learn what fills name.
    fn learn_fills(&mut self, items: &VecDeque<FillRecord>)
        requires
            old(self).wf(),
        ensures
            final(self).wf(),
            final(self).set() == old(self).set().union(texts_of(items@, |x: FillRecord| set![x.symbol@])),
    {
        let ghost start = self.set();
        let ghost gives = |x: FillRecord| set![x.symbol@];
        let n: usize = items.len();
        let mut i: usize = 0;
        proof {
            assert(start =~= start.union(texts_of(items@.take(0), gives)));
        }
        while i < n
            invariant
                n == items@.len(),
                i <= n,
                self.wf(),
                gives == (|x: FillRecord| set![x.symbol@]),
                self.set() == start.union(texts_of(items@.take(i as int), gives)),
            decreases n - i,
        {
            self.learn(&items[i].symbol);
            proof {
                lemma_one_more(items@, gives, i as int);
                assert(self.set() =~= start.union(texts_of(items@.take(i as int + 1), gives)));
            }
            i = i + 1;
        }
        proof {
            assert(items@.take(n as int) =~= items@);
        }
    }

    /// Learn the goods of some lines.
    fn learn_lines(&mut self, items: &Vec<Line>)
        requires
            old(self).wf(),
        ensures
            final(self).wf(),
            final(self).set() == old(self).set().union(texts_of(items@, |x: Line| set![x.symbol@])),
    {
        let ghost start = self.set();
        let ghost gives = |x: Line| set![x.symbol@];
        let n: usize = items.len();
        let mut i: usize = 0;
        proof {
            assert(start =~= start.union(texts_of(items@.take(0), gives)));
        }
        while i < n
            invariant
                n == items@.len(),
                i <= n,
                self.wf(),
                gives == (|x: Line| set![x.symbol@]),
                self.set() == start.union(texts_of(items@.take(i as int), gives)),
            decreases n - i,
        {
            self.learn(&items[i].symbol);
            proof {
                lemma_one_more(items@, gives, i as int);
                assert(self.set() =~= start.union(texts_of(items@.take(i as int + 1), gives)));
            }
            i = i + 1;
        }
        proof {
            assert(items@.take(n as int) =~= items@);
        }
    }

    /// Learn what orders name.
    fn learn_orders(&mut self, items: &Vec<OrderRecord>)
        requires
            old(self).wf(),
        ensures
            final(self).wf(),
            final(self).set() == old(self).set().union(texts_of(items@, |x: OrderRecord| set![x.symbol@])),
    {
        let ghost start = self.set();
        let ghost gives = |x: OrderRecord| set![x.symbol@];
        let n: usize = items.len();
        let mut i: usize = 0;
        proof {
            assert(start =~= start.union(texts_of(items@.take(0), gives)));
        }
        while i < n
            invariant
                n == items@.len(),
                i <= n,
                self.wf(),
                gives == (|x: OrderRecord| set![x.symbol@]),
                self.set() == start.union(texts_of(items@.take(i as int), gives)),
            decreases n - i,
        {
            self.learn(&items[i].symbol);
            proof {
                lemma_one_more(items@, gives, i as int);
                assert(self.set() =~= start.union(texts_of(items@.take(i as int + 1), gives)));
            }
            i = i + 1;
        }
        proof {
            assert(items@.take(n as int) =~= items@);
        }
    }

    /// Learn what responses name.
    fn learn_responses(&mut self, items: &Vec<(u64, OrderResponse)>)
        requires
            old(self).wf(),
        ensures
            final(self).wf(),
            final(self).set() == old(self).set().union(texts_of(items@, |x: (u64, OrderResponse)| set![x.1.symbol@])),
    {
        let ghost start = self.set();
        let ghost gives = |x: (u64, OrderResponse)| set![x.1.symbol@];
        let n: usize = items.len();
        let mut i: usize = 0;
        proof {
            assert(start =~= start.union(texts_of(items@.take(0), gives)));
        }
        while i < n
            invariant
                n == items@.len(),
                i <= n,
                self.wf(),
                gives == (|x: (u64, OrderResponse)| set![x.1.symbol@]),
                self.set() == start.union(texts_of(items@.take(i as int), gives)),
            decreases n - i,
        {
            self.learn(&items[i].1.symbol);
            proof {
                lemma_one_more(items@, gives, i as int);
                assert(self.set() =~= start.union(texts_of(items@.take(i as int + 1), gives)));
            }
            i = i + 1;
        }
        proof {
            assert(items@.take(n as int) =~= items@);
        }
    }

    /// Learn the keys of a table.
    fn learn_keys<V>(&mut self, table: &Table<String, V>)
        requires
            old(self).wf(),
            table.wf(),
        ensures
            final(self).wf(),
            final(self).set() == old(self).set().union(table.map().dom()),
    {
        let ghost start = self.set();
        let n: usize = table.len();
        let mut i: usize = 0;
        proof {
            table.lemma_listed();
            assert(start =~= start.union(table.keys().take(0).to_set()));
        }
        while i < n
            invariant
                table.wf(),
                n == table.keys().len(),
                i <= n,
                self.wf(),
                self.set() == start.union(table.keys().take(i as int).to_set()),
            decreases n - i,
        {
            self.learn(table.key_at(i));
            proof {
                let shorter = table.keys().take(i as int);
                let longer = table.keys().take(i as int + 1);
                assert(longer =~= shorter.push(table.keys()[i as int]));
                assert(longer.to_set() =~= shorter.to_set().insert(table.keys()[i as int])) by {
                    shorter.lemma_push_to_set_commute(table.keys()[i as int]);
                }
                assert(self.set() =~= start.union(longer.to_set()));
            }
            i = i + 1;
        }
        proof {
            assert(table.keys().take(n as int) =~= table.keys());
        }
    }

    /// Learn what the listings name.
    fn learn_symbols(&mut self, items: &Vec<SymbolSave>)
        requires
            old(self).wf(),
        ensures
            final(self).wf(),
            final(self).set() == old(self).set().union(texts_of(items@, |x: SymbolSave| named_by_symbol(x))),
    {
        let ghost start = self.set();
        let ghost gives = |x: SymbolSave| named_by_symbol(x);
        let n: usize = items.len();
        let mut i: usize = 0;
        proof {
            assert(start =~= start.union(texts_of(items@.take(0), gives)));
        }
        while i < n
            invariant
                n == items@.len(),
                i <= n,
                self.wf(),
                gives == (|x: SymbolSave| named_by_symbol(x)),
                self.set() == start.union(texts_of(items@.take(i as int), gives)),
            decreases n - i,
        {
            let ghost before = self.set();
            let symbol = &items[i];
            match &symbol.info {
                Some(info) => {
                    self.learn(&info.symbol);
                },
                None => {},
            }
            self.learn_stops(&symbol.stops);
            proof {
                assert(self.set() =~= before.union(named_by_symbol(*symbol)));
                lemma_one_more(items@, gives, i as int);
                assert(self.set() =~= start.union(texts_of(items@.take(i as int + 1), gives)));
            }
            i = i + 1;
        }
        proof {
            assert(items@.take(n as int) =~= items@);
        }
    }

    /// Learn what the accounts name.
    fn learn_accounts(&mut self, items: &Vec<Account>)
        requires
            old(self).wf(),
        ensures
            final(self).wf(),
            final(self).set() == old(self).set().union(texts_of(items@, |x: Account| named_by_account(x))),
    {
        let ghost start = self.set();
        let ghost gives = |x: Account| named_by_account(x);
        let n: usize = items.len();
        let mut i: usize = 0;
        proof {
            assert(start =~= start.union(texts_of(items@.take(0), gives)));
        }
        while i < n
            invariant
                n == items@.len(),
                i <= n,
                self.wf(),
                gives == (|x: Account| named_by_account(x)),
                self.set() == start.union(texts_of(items@.take(i as int), gives)),
            decreases n - i,
        {
            self.learn_rows(&items[i].ledger);
            proof {
                lemma_one_more(items@, gives, i as int);
                assert(self.set() =~= start.union(texts_of(items@.take(i as int + 1), gives)));
            }
            i = i + 1;
        }
        proof {
            assert(items@.take(n as int) =~= items@);
        }
    }

    /// Learn what the traders name.
    fn learn_traders(&mut self, items: &Vec<Trader>)
        requires
            old(self).wf(),
            traders_wf(items@),
        ensures
            final(self).wf(),
            final(self).set() == old(self).set().union(texts_of(items@, |x: Trader| named_by_trader(x))),
    {
        let ghost start = self.set();
        let ghost gives = |x: Trader| named_by_trader(x);
        let n: usize = items.len();
        let mut i: usize = 0;
        proof {
            assert(start =~= start.union(texts_of(items@.take(0), gives)));
        }
        while i < n
            invariant
                n == items@.len(),
                i <= n,
                self.wf(),
                traders_wf(items@),
                gives == (|x: Trader| named_by_trader(x)),
                self.set() == start.union(texts_of(items@.take(i as int), gives)),
            decreases n - i,
        {
            let ghost before = self.set();
            let trader = &items[i];
            self.learn_keys(&trader.positions);
            self.learn_keys(&trader.reserved_shares);
            self.learn_fills(&trader.fills);
            proof {
                assert(self.set() =~= before.union(named_by_trader(*trader)));
                lemma_one_more(items@, gives, i as int);
                assert(self.set() =~= start.union(texts_of(items@.take(i as int + 1), gives)));
            }
            i = i + 1;
        }
        proof {
            assert(items@.take(n as int) =~= items@);
        }
    }

    /// Learn what the events name.
    fn learn_events(&mut self, items: &Vec<EventRecord>)
        requires
            old(self).wf(),
        ensures
            final(self).wf(),
            final(self).set() == old(self).set().union(texts_of(items@, |x: EventRecord| named_by_event(x))),
    {
        let ghost start = self.set();
        let ghost gives = |x: EventRecord| named_by_event(x);
        let n: usize = items.len();
        let mut i: usize = 0;
        proof {
            assert(start =~= start.union(texts_of(items@.take(0), gives)));
        }
        while i < n
            invariant
                n == items@.len(),
                i <= n,
                self.wf(),
                gives == (|x: EventRecord| named_by_event(x)),
                self.set() == start.union(texts_of(items@.take(i as int), gives)),
            decreases n - i,
        {
            self.learn_all(&items[i].symbols);
            proof {
                lemma_one_more(items@, gives, i as int);
                assert(self.set() =~= start.union(texts_of(items@.take(i as int + 1), gives)));
            }
            i = i + 1;
        }
        proof {
            assert(items@.take(n as int) =~= items@);
        }
    }

    /// Learn what the jobs name.
    fn learn_jobs(&mut self, items: &Vec<Job>)
        requires
            old(self).wf(),
        ensures
            final(self).wf(),
            final(self).set() == old(self).set().union(texts_of(items@, |x: Job| named_by_job(x))),
    {
        let ghost start = self.set();
        let ghost gives = |x: Job| named_by_job(x);
        let n: usize = items.len();
        let mut i: usize = 0;
        proof {
            assert(start =~= start.union(texts_of(items@.take(0), gives)));
        }
        while i < n
            invariant
                n == items@.len(),
                i <= n,
                self.wf(),
                gives == (|x: Job| named_by_job(x)),
                self.set() == start.union(texts_of(items@.take(i as int), gives)),
            decreases n - i,
        {
            let ghost before = self.set();
            self.learn_lines(&items[i].inputs);
            self.learn_lines(&items[i].outputs);
            proof {
                assert(self.set() =~= before.union(named_by_job(items@[i as int])));
                lemma_one_more(items@, gives, i as int);
                assert(self.set() =~= start.union(texts_of(items@.take(i as int + 1), gives)));
            }
            i = i + 1;
        }
        proof {
            assert(items@.take(n as int) =~= items@);
        }
    }

    /// Learn every ticker that a save names.
    pub fn learn_save(&mut self, save: &Save)
        requires
            old(self).wf(),
            traders_wf(save.market.traders@),
        ensures
            final(self).wf(),
            final(self).set() == old(self).set().union(named_in(*save)),
    {
        let ghost start = self.set();
        self.learn_symbols(&save.symbols);
        self.learn_accounts(&save.market.accounts);
        self.learn_traders(&save.market.traders);
        self.learn_orders(&save.market.orders);
        self.learn_responses(&save.market.order_responses);
        self.learn_events(&save.market.events);
        self.learn_jobs(&save.market.jobs);
        proof {
            assert(self.set() =~= start.union(named_in(*save)));
        }
    }
}

// ---------------------------------------------------------------------------
// Laws

/// An item's texts are among those of the list it is in.
proof fn lemma_given<T>(items: Seq<T>, gives: spec_fn(T) -> Set<Seq<char>>, i: int, text: Seq<char>)
    requires
        0 <= i < items.len(),
        gives(items[i]).contains(text),
    ensures
        texts_of(items, gives).contains(text),
    decreases items.len(),
{
    if i < items.len() - 1 {
        lemma_given(items.drop_last(), gives, i, text);
    }
}

/// A save names what it lists, so whatever is kept for a listed symbol comes
/// back with it.
pub proof fn law_a_save_names_its_listings(save: Save, i: int)
    requires
        0 <= i < save.symbols@.len(),
        save.symbols@[i].info is Some,
    ensures
        named_in(save).contains((save.symbols@[i].info->0).symbol@),
{
    let gives = |x: SymbolSave| named_by_symbol(x);
    lemma_given(save.symbols@, gives, i, (save.symbols@[i].info->0).symbol@);
}

/// A save names what its traders hold, listed or not.
pub proof fn law_a_save_names_what_is_held(save: Save, i: int, ticker: Seq<char>)
    requires
        0 <= i < save.market.traders@.len(),
        save.market.traders@[i].positions.map().contains_key(ticker),
    ensures
        named_in(save).contains(ticker),
{
    let gives = |x: Trader| named_by_trader(x);
    lemma_given(save.market.traders@, gives, i, ticker);
}

/// A save names the symbol of every order it keeps and of every answer it
/// remembers.
pub proof fn law_a_save_names_what_was_ordered(save: Save, i: int)
    ensures
        0 <= i < save.market.orders@.len() ==> named_in(save).contains(save.market.orders@[i].symbol@),
        0 <= i < save.market.order_responses@.len() ==> named_in(save).contains(
            save.market.order_responses@[i].1.symbol@,
        ),
{
    if 0 <= i < save.market.orders@.len() {
        lemma_given(
            save.market.orders@,
            |x: OrderRecord| set![x.symbol@],
            i,
            save.market.orders@[i].symbol@,
        );
    }
    if 0 <= i < save.market.order_responses@.len() {
        lemma_given(
            save.market.order_responses@,
            |x: (u64, OrderResponse)| set![x.1.symbol@],
            i,
            save.market.order_responses@[i].1.symbol@,
        );
    }
}

/// A save names the symbol of every stop that a symbol holds.
pub proof fn law_a_save_names_what_is_armed(save: Save, i: int, j: int)
    requires
        0 <= i < save.symbols@.len(),
        0 <= j < save.symbols@[i].stops@.len(),
    ensures
        named_in(save).contains(save.symbols@[i].stops@[j].symbol@),
{
    let text = save.symbols@[i].stops@[j].symbol@;
    lemma_given(save.symbols@[i].stops@, |x: StopOrder| set![x.symbol@], j, text);
    lemma_given(save.symbols@, |x: SymbolSave| named_by_symbol(x), i, text);
}

/// A save names every symbol that a trader traded or has promised shares of.
pub proof fn law_a_save_names_what_was_traded(save: Save, i: int, j: int, ticker: Seq<char>)
    requires
        0 <= i < save.market.traders@.len(),
    ensures
        0 <= j < save.market.traders@[i].fills@.len() ==> named_in(save).contains(
            save.market.traders@[i].fills@[j].symbol@,
        ),
        save.market.traders@[i].reserved_shares.map().contains_key(ticker) ==> named_in(save).contains(ticker),
{
    let trader = save.market.traders@[i];
    let gives = |x: Trader| named_by_trader(x);
    if 0 <= j < trader.fills@.len() {
        let text = trader.fills@[j].symbol@;
        lemma_given(trader.fills@, |x: FillRecord| set![x.symbol@], j, text);
        lemma_given(save.market.traders@, gives, i, text);
    }
    if trader.reserved_shares.map().contains_key(ticker) {
        lemma_given(save.market.traders@, gives, i, ticker);
    }
}

/// A save names the symbol of every row in an account's history that has one.
pub proof fn law_a_save_names_what_was_settled(save: Save, i: int, j: int)
    requires
        0 <= i < save.market.accounts@.len(),
        0 <= j < save.market.accounts@[i].ledger@.len(),
        save.market.accounts@[i].ledger@[j].symbol is Some,
    ensures
        named_in(save).contains((save.market.accounts@[i].ledger@[j].symbol->0)@),
{
    let text = (save.market.accounts@[i].ledger@[j].symbol->0)@;
    lemma_given(save.market.accounts@[i].ledger@, |x: LedgerEntry| maybe_text(x.symbol), j, text);
    lemma_given(save.market.accounts@, |x: Account| named_by_account(x), i, text);
}

/// A save names every symbol that an event was about.
pub proof fn law_a_save_names_what_the_news_was_about(save: Save, i: int, j: int)
    requires
        0 <= i < save.market.events@.len(),
        0 <= j < save.market.events@[i].symbols@.len(),
    ensures
        named_in(save).contains(save.market.events@[i].symbols@[j]@),
{
    let text = save.market.events@[i].symbols@[j]@;
    lemma_given(save.market.events@[i].symbols@, |s: String| set![s@], j, text);
    lemma_given(save.market.events@, |x: EventRecord| named_by_event(x), i, text);
}

/// A save names every symbol that a job takes in or gives out.
pub proof fn law_a_save_names_what_is_made(save: Save, i: int, j: int)
    requires
        0 <= i < save.market.jobs@.len(),
    ensures
        0 <= j < save.market.jobs@[i].inputs@.len() ==> named_in(save).contains(
            save.market.jobs@[i].inputs@[j].symbol@,
        ),
        0 <= j < save.market.jobs@[i].outputs@.len() ==> named_in(save).contains(
            save.market.jobs@[i].outputs@[j].symbol@,
        ),
{
    let job = save.market.jobs@[i];
    let gives = |x: Job| named_by_job(x);
    if 0 <= j < job.inputs@.len() {
        let text = job.inputs@[j].symbol@;
        lemma_given(job.inputs@, |x: Line| set![x.symbol@], j, text);
        lemma_given(save.market.jobs@, gives, i, text);
    }
    if 0 <= j < job.outputs@.len() {
        let text = job.outputs@[j].symbol@;
        lemma_given(job.outputs@, |x: Line| set![x.symbol@], j, text);
        lemma_given(save.market.jobs@, gives, i, text);
    }
}

/// A save names nothing that does not occur in it: an empty one names nothing.
pub proof fn law_nothing_is_named_out_of_nothing<T>(items: Seq<T>, gives: spec_fn(T) -> Set<Seq<char>>, text: Seq<char>)
    ensures
        texts_of(items, gives).contains(text) <==> exists|i: int|
            0 <= i < items.len() && gives(#[trigger] items[i]).contains(text),
    decreases items.len(),
{
    if items.len() > 0 {
        let front = items.drop_last();
        law_nothing_is_named_out_of_nothing(front, gives, text);
        if exists|i: int| 0 <= i < items.len() && gives(#[trigger] items[i]).contains(text) {
            let i = choose|i: int| 0 <= i < items.len() && gives(#[trigger] items[i]).contains(text);
            if i < front.len() {
                assert(gives(front[i]).contains(text));
            }
        }
        if texts_of(front, gives).contains(text) {
            let i = choose|i: int| 0 <= i < front.len() && gives(#[trigger] front[i]).contains(text);
            assert(gives(items[i]).contains(text));
        }
        if gives(items.last()).contains(text) {
            assert(gives(items[items.len() - 1]).contains(text));
        }
    }
}

} // verus!
