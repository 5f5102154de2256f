//! The order log: every order the market still remembers, in the order they
//! were accepted.
//!
//! The book itself only knows orders while they rest, so this is where an
//! order that has filled or been cancelled can still be looked up. The log is
//! bounded: the oldest *finished* orders go first, and a live order is never
//! dropped. It also keeps which order a caller's own id was used for, so that
//! a repeated submission is answered rather than placed again.

use std::collections::VecDeque;

use vstd::prelude::*;

use crate::num::max_int;
use crate::table::{in_order, text_before, Key, Table};
use crate::jobs::{lemma_filter_take, lemma_filtered};
use crate::text::same_text;
use crate::trading::{same_record, OrderRecord, TraderId};

verus! {

/// A trader and the id that trader gave an order.
pub struct ClientKey {
    pub trader: u64,
    pub id: String,
}

impl View for ClientKey {
    type V = (u64, Seq<char>);

    open spec fn view(&self) -> (u64, Seq<char>) {
        (self.trader, self.id@)
    }
}

impl Key for ClientKey {
    open spec fn before(a: (u64, Seq<char>), b: (u64, Seq<char>)) -> bool {
        a.0 < b.0 || (a.0 == b.0 && text_before(a.1, b.1))
    }

    proof fn before_irreflexive(a: (u64, Seq<char>)) {
        <String as Key>::before_irreflexive(a.1);
    }

    proof fn before_transitive(a: (u64, Seq<char>), b: (u64, Seq<char>), c: (u64, Seq<char>)) {
        if a.0 == b.0 && b.0 == c.0 {
            <String as Key>::before_transitive(a.1, b.1, c.1);
        }
    }

    proof fn before_total(a: (u64, Seq<char>), b: (u64, Seq<char>)) {
        <String as Key>::before_total(a.1, b.1);
    }

    fn precedes(&self, other: &Self) -> (r: bool) {
        self.trader < other.trader || (self.trader == other.trader && self.id.precedes(&other.id))
    }
}

/// The orders by id, the ids in the order they were accepted, and the order
/// each caller's own id was used for.
#[verifier::ext_equal]
pub struct Log {
    pub orders: Map<u64, OrderRecord>,
    pub ids: Seq<u64>,
    pub clients: Map<(u64, Seq<char>), u64>,
}

/// The key a record's own id is kept under, if it has one.
pub open spec fn client_key(record: OrderRecord) -> Option<(u64, Seq<char>)> {
    match record.client_order_id {
        Some(id) => Some((record.trader_id, id@)),
        None => None,
    }
}

impl Log {
    /// The log once `record` has been added and nothing yet dropped.
    pub open spec fn added(self, record: OrderRecord) -> Log {
        Log {
            orders: self.orders.insert(record.order_id, record),
            ids: self.ids.push(record.order_id),
            clients: match client_key(record) {
                Some(key) => self.clients.insert(key, record.order_id),
                None => self.clients,
            },
        }
    }

    /// The order accepted at a place has finished.
    pub open spec fn finished(self, place: int) -> bool {
        self.orders.contains_key(self.ids[place]) && !self.orders[self.ids[place]].live()
    }

    /// The order accepted at `place` is the oldest that has finished.
    pub open spec fn oldest_finished(self, place: int) -> bool {
        &&& 0 <= place < self.ids.len()
        &&& self.finished(place)
        &&& forall|earlier: int| 0 <= earlier < place ==> !#[trigger] self.finished(earlier)
    }

    /// The log without the order accepted at `place`, its own id included.
    pub open spec fn dropped(self, place: int) -> Log {
        let id = self.ids[place];
        Log {
            orders: self.orders.remove(id),
            ids: self.ids.remove(place),
            clients: match client_key(self.orders[id]) {
                Some(key) => self.clients.remove(key),
                None => self.clients,
            },
        }
    }

    /// The log once the oldest finished orders have gone, one by one, until
    /// it holds no more than `cap` or nothing in it has finished.
    pub open spec fn cut(self, cap: int) -> Log
        decreases self.ids.len(),
    {
        if self.orders.len() > cap && exists|place: int| self.oldest_finished(place) {
            let place = choose|place: int| self.oldest_finished(place);
            self.dropped(place).cut(cap)
        } else {
            self
        }
    }

    /// The order a caller's own id was used for, where the log still holds
    /// it.
    pub open spec fn by_client(self, trader: u64, id: Seq<char>) -> Option<OrderRecord> {
        if self.clients.contains_key((trader, id)) && self.orders.contains_key(self.clients[(trader, id)]) {
            Some(self.orders[self.clients[(trader, id)]])
        } else {
            None
        }
    }

    /// The ids of a trader's orders, newest first.
    pub open spec fn ids_of(self, trader: u64) -> Seq<u64> {
        self.ids.filter(|id: u64| self.orders.contains_key(id) && self.orders[id].trader_id == trader).reverse()
    }

    /// The log with one order changed.
    pub open spec fn with(self, id: u64, record: OrderRecord) -> Log {
        Log { orders: self.orders.insert(id, record), ..self }
    }

    /// Every order stands under its own id and was accepted.
    pub open spec fn wf(self) -> bool {
        &&& self.orders.dom().finite()
        &&& forall|id: u64| #[trigger]
            self.orders.contains_key(id) ==> self.orders[id].order_id == id && self.ids.contains(id)
    }

    /// The callers' own ids name the orders they were given for, each of them
    /// and no others.
    pub open spec fn indexed(self) -> bool {
        &&& forall|id: u64| #[trigger]
            self.orders.contains_key(id) ==> (client_key(self.orders[id]) matches Some(key) ==> self.clients.contains_key(
                key,
            ) && self.clients[key] == id)
        &&& forall|key: (u64, Seq<char>)| #[trigger]
            self.clients.contains_key(key) ==> self.orders.contains_key(self.clients[key]) && client_key(
                self.orders[self.clients[key]],
            ) == Some(key)
    }
}

/// Every order the log still holds.
pub struct OrderLog {
    orders: Table<u64, OrderRecord>,
    ids: VecDeque<u64>,
    clients: Table<ClientKey, u64>,
    cap: usize,
}

impl OrderLog {
    /// The log.
    pub closed spec fn log(&self) -> Log {
        Log { orders: self.orders.map(), ids: self.ids@, clients: self.clients.map() }
    }

    /// How many orders it holds, where that many have finished.
    pub closed spec fn limit(&self) -> int {
        self.cap as int
    }

    /// The orders, by id.
    pub closed spec fn by_id(&self) -> Seq<OrderRecord> {
        self.orders.vals()
    }

    /// The log is in order.
    pub closed spec fn wf(&self) -> bool {
        &&& self.orders.wf()
        &&& self.clients.wf()
        &&& self.cap >= 1
        &&& self.log().wf()
    }

    /// A log in order is one whose orders are.
    pub proof fn lemma_wf(&self)
        requires
            self.wf(),
        ensures
            self.log().wf(),
    {
    }

    /// An empty log of `cap` orders, or one.
    pub fn new(cap: usize) -> (log: Self)
        ensures
            log.wf(),
            log.limit() == max_int(cap as int, 1),
            log.log() == (Log { orders: Map::empty(), ids: Seq::empty(), clients: Map::empty() }),
    {
        let log = OrderLog {
            orders: Table::new(),
            ids: VecDeque::new(),
            clients: Table::new(),
            cap: if cap < 1 {
                1
            } else {
                cap
            },
        };
        proof {
            assert(log.log() =~= (Log { orders: Map::empty(), ids: Seq::empty(), clients: Map::empty() }));
        }
        log
    }

    /// Orders held.
    pub fn len(&self) -> (n: usize)
        requires
            self.wf(),
        ensures
            n == self.log().orders.len(),
            n == self.by_id().len(),
    {
        self.orders.len()
    }

    /// The order at a position, by id.
    pub fn at(&self, i: usize) -> (record: &OrderRecord)
        requires
            self.wf(),
            i < self.by_id().len(),
        ensures
            *record == self.by_id()[i as int],
            self.log().orders.contains_key(record.order_id),
            self.log().orders[record.order_id] == *record,
    {
        proof {
            self.orders.lemma_at(i as int);
        }
        self.orders.val_at(i)
    }

    /// One order by id, whatever became of it — as long as the log still
    /// holds it.
    pub fn order(&self, order_id: u64) -> (r: Option<&OrderRecord>)
        requires
            self.wf(),
        ensures
            match r {
                Some(record) => self.log().orders.contains_key(order_id) && *record == self.log().orders[order_id],
                None => !self.log().orders.contains_key(order_id),
            },
    {
        self.orders.get(&order_id)
    }

    /// A trader's orders, newest first.
    pub fn orders_of(&self, trader: TraderId) -> (records: Vec<&OrderRecord>)
        requires
            self.wf(),
        ensures
            records@.len() == self.log().ids_of(trader.0).len(),
            forall|i: int|
                0 <= i < records@.len() ==> *#[trigger] records@[i] == self.log().orders[self.log().ids_of(
                    trader.0,
                )[i]],
    {
        let mut records: Vec<&OrderRecord> = Vec::new();
        let ghost log = self.log();
        let ghost theirs = |id: u64| log.orders.contains_key(id) && log.orders[id].trader_id == trader.0;
        let n: usize = self.ids.len();
        let mut i: usize = n;
        proof {
            assert(log.ids.skip(n as int).filter(theirs).len() == 0) by {
                reveal(Seq::filter);
            }
        }
        while i > 0
            invariant
                self.wf(),
                log == self.log(),
                theirs == (|id: u64| log.orders.contains_key(id) && log.orders[id].trader_id == trader.0),
                n == log.ids.len(),
                i <= n,
                records@.len() == log.ids.skip(i as int).filter(theirs).len(),
                forall|j: int|
                    0 <= j < records@.len() ==> *#[trigger] records@[j] == log.orders[log.ids.skip(i as int).filter(
                        theirs,
                    ).reverse()[j]],
            decreases i,
        {
            let id: u64 = self.ids[i - 1];
            proof {
                lemma_filter_front(log.ids, theirs, i - 1);
            }
            match self.orders.get(&id) {
                Some(record) => {
                    if record.trader_id == trader.0 {
                        records.push(record);
                    }
                },
                None => {},
            }
            proof {
                let tail = log.ids.skip(i as int).filter(theirs);
                let longer = log.ids.skip(i - 1).filter(theirs);
                if theirs(id) {
                    assert(longer == seq![id] + tail);
                    assert(longer.reverse() =~= tail.reverse().push(id));
                } else {
                    assert(longer == tail);
                }
            }
            i = i - 1;
        }
        proof {
            assert(log.ids.skip(0) =~= log.ids);
            assert(self.log().ids_of(trader.0) == log.ids.filter(theirs).reverse());
        }
        records
    }

    /// The order a `client_order_id` was already used for, if any. A repeat
    /// submission is answered from this rather than sent to the book again.
    pub fn order_by_client_id(&self, trader: TraderId, client_id: &str) -> (r: Option<&OrderRecord>)
        requires
            self.wf(),
        ensures
            match r {
                Some(record) => self.log().by_client(trader.0, client_id@) == Some(*record),
                None => self.log().by_client(trader.0, client_id@) is None,
            },
    {
        let key = ClientKey { trader: trader.0, id: client_id.to_owned() };
        match self.clients.get(&key) {
            Some(id) => self.orders.get(id),
            None => None,
        }
    }

    /// The position of the oldest order that has finished.
    fn find_finished(&self) -> (r: Option<usize>)
        requires
            self.wf(),
        ensures
            match r {
                Some(place) => self.log().oldest_finished(place as int),
                None => forall|place: int| !self.log().oldest_finished(place),
            },
    {
        let mut i: usize = 0;
        while i < self.ids.len()
            invariant
                self.wf(),
                i <= self.ids.len(),
                forall|earlier: int| 0 <= earlier < i ==> !#[trigger] self.log().finished(earlier),
            decreases self.ids.len() - i,
        {
            match self.orders.get(&self.ids[i]) {
                Some(record) => {
                    if !record.is_live() {
                        assert(self.log().finished(i as int));
                        return Some(i);
                    }
                },
                None => {},
            }
            assert(!self.log().finished(i as int));
            i = i + 1;
        }
        None
    }

    /// Add an accepted order to the log, evicting the oldest finished ones
    /// once it is over its cap. Live orders are never evicted.
    pub fn record_order(&mut self, record: OrderRecord)
        requires
            old(self).wf(),
        ensures
            final(self).wf(),
            final(self).limit() == old(self).limit(),
            final(self).log() == old(self).log().added(record).cut(old(self).limit()),
    {
        let ghost before = *self;
        let id: u64 = record.order_id;
        match &record.client_order_id {
            Some(client_id) => {
                self.clients.insert(ClientKey { trader: record.trader_id, id: client_id.clone() }, id);
            },
            None => {},
        }
        self.orders.insert(id, record);
        self.ids.push_back(id);
        proof {
            self.orders.lemma_len();
            assert(self.log() =~= before.log().added(record));
            lemma_added(before.log(), record);
        }
        let ghost whole = self.log();
        let mut going: bool = true;
        while going
            invariant
                self.wf(),
                self.cap == before.cap,
                before == *old(self),
                whole == before.log().added(record),
                whole.cut(before.limit()) == self.log().cut(before.limit()),
                !going ==> self.log() == whole.cut(before.limit()),
            decreases
                self.ids@.len(),
                if going {
                    1int
                } else {
                    0
                },
        {
            proof {
                self.orders.lemma_len();
            }
            if self.orders.len() <= self.cap {
                going = false;
            } else {
                match self.find_finished() {
                    None => {
                        going = false;
                    },
                    Some(place) => {
                        let ghost middle = *self;
                        proof {
                            lemma_oldest_is_one(middle.log(), place as int);
                        }
                        let gone: u64 = self.ids[place];
                        self.ids.remove(place);
                        match self.orders.remove(&gone) {
                            Some(old_record) => match old_record.client_order_id {
                                Some(client_id) => {
                                    let key = ClientKey { trader: old_record.trader_id, id: client_id };
                                    self.clients.remove(&key);
                                },
                                None => {},
                            },
                            None => {},
                        }
                        proof {
                            self.orders.lemma_len();
                            assert(self.log() =~= middle.log().dropped(place as int));
                            lemma_dropped(middle.log(), place as int);
                        }
                    },
                }
            }
        }
    }

    /// An order in `symbol` traded: its record moves on, where the log holds
    /// it and it is that symbol's.
    pub fn fill(&mut self, order_id: u64, symbol: &str, qty: u64, price_cents: i64, ts_ms: i64)
        requires
            old(self).wf(),
        ensures
            final(self).wf(),
            final(self).limit() == old(self).limit(),
            final(self).log() == old(self).log().filled(order_id, symbol@, qty, price_cents, ts_ms),
    {
        let ghost before = *self;
        let found = match self.orders.get(&order_id) {
            Some(record) => same_text(record.symbol.as_str(), symbol),
            None => false,
        };
        if found {
            match self.orders.get_mut(&order_id) {
                Some(record) => {
                    record.fill(qty, price_cents, ts_ms);
                },
                None => {},
            }
            proof {
                self.orders.lemma_len();
                assert(self.log() =~= before.log().with(
                    order_id,
                    before.log().orders[order_id].filled_by(qty, price_cents, ts_ms),
                ));
            }
        }
    }

    /// An order in `symbol` was withdrawn with `remaining` left: its record is
    /// cancelled, where the log holds it and it is that symbol's.
    pub fn cancel(&mut self, order_id: u64, symbol: &str, remaining: u64, ts_ms: i64)
        requires
            old(self).wf(),
        ensures
            final(self).wf(),
            final(self).limit() == old(self).limit(),
            final(self).log() == old(self).log().withdrawn(order_id, symbol@, remaining, ts_ms),
    {
        let ghost before = *self;
        let found = match self.orders.get(&order_id) {
            Some(record) => same_text(record.symbol.as_str(), symbol),
            None => false,
        };
        if found {
            match self.orders.get_mut(&order_id) {
                Some(record) => {
                    record.cancel(remaining, ts_ms);
                },
                None => {},
            }
            proof {
                self.orders.lemma_len();
                assert(self.log() =~= before.log().withdrawn(order_id, symbol@, remaining, ts_ms));
            }
        }
    }

    /// The orders in `symbol` whose time is up, by id, and whose they are.
    pub fn due(&self, symbol: &str, now_ms: i64) -> (due: Vec<(u64, TraderId)>)
        requires
            self.wf(),
        ensures
            due@ == self.by_id().filter(|o: OrderRecord| o.symbol@ == symbol@ && o.expired(now_ms)).map_values(
                |o: OrderRecord| (o.order_id, TraderId(o.trader_id)),
            ),
    {
        let mut due: Vec<(u64, TraderId)> = Vec::new();
        let n: usize = self.orders.len();
        let ghost ripe = |o: OrderRecord| o.symbol@ == symbol@ && o.expired(now_ms);
        let ghost pair = |o: OrderRecord| (o.order_id, TraderId(o.trader_id));
        let mut i: usize = 0;
        proof {
            assert(due@ =~= self.by_id().take(0).filter(ripe).map_values(pair)) by {
                reveal(Seq::filter);
            }
        }
        while i < n
            invariant
                self.wf(),
                n == self.by_id().len(),
                i <= n,
                ripe == (|o: OrderRecord| o.symbol@ == symbol@ && o.expired(now_ms)),
                pair == (|o: OrderRecord| (o.order_id, TraderId(o.trader_id))),
                due@ == self.by_id().take(i as int).filter(ripe).map_values(pair),
            decreases n - i,
        {
            let record = self.orders.val_at(i);
            proof {
                lemma_filter_take(self.by_id(), ripe, i as int);
            }
            let ghost before = due@;
            if same_text(record.symbol.as_str(), symbol) && record.has_expired(now_ms) {
                due.push((record.order_id, TraderId(record.trader_id)));
            }
            proof {
                assert(due@ =~= self.by_id().take(i as int + 1).filter(ripe).map_values(pair));
            }
            i = i + 1;
        }
        proof {
            assert(self.by_id().take(n as int) =~= self.by_id());
        }
        due
    }

    /// Every order the log holds, oldest first, for a save file.
    pub fn to_saved(&self) -> (saved: Vec<OrderRecord>)
        requires
            self.wf(),
        ensures
            saved@.len() == self.log().kept().len(),
            forall|i: int|
                0 <= i < saved@.len() ==> same_record(
                    #[trigger] saved@[i],
                    self.log().orders[self.log().kept()[i]],
                ),
    {
        let mut saved: Vec<OrderRecord> = Vec::new();
        let ghost log = self.log();
        let ghost here = |id: u64| log.orders.contains_key(id);
        let mut i: usize = 0;
        proof {
            assert(log.ids.take(0).filter(here).len() == 0) by {
                reveal(Seq::filter);
            }
        }
        while i < self.ids.len()
            invariant
                self.wf(),
                log == self.log(),
                here == (|id: u64| log.orders.contains_key(id)),
                i <= self.ids.len(),
                saved@.len() == log.ids.take(i as int).filter(here).len(),
                forall|j: int|
                    0 <= j < saved@.len() ==> same_record(
                        #[trigger] saved@[j],
                        log.orders[log.ids.take(i as int).filter(here)[j]],
                    ),
            decreases self.ids.len() - i,
        {
            proof {
                lemma_filter_take(log.ids, here, i as int);
            }
            match self.orders.get(&self.ids[i]) {
                Some(record) => {
                    saved.push(record.clone());
                },
                None => {},
            }
            i = i + 1;
        }
        proof {
            assert(log.ids.take(log.ids.len() as int) =~= log.ids);
            assert(log.kept() == log.ids.filter(here));
        }
        saved
    }
}

impl Log {
    /// The log once an order in `symbol` traded.
    pub open spec fn filled(self, order_id: u64, symbol: Seq<char>, qty: u64, price_cents: i64, ts_ms: i64) -> Log {
        if self.orders.contains_key(order_id) && self.orders[order_id].symbol@ == symbol {
            self.with(order_id, self.orders[order_id].filled_by(qty, price_cents, ts_ms))
        } else {
            self
        }
    }

    /// The log once an order in `symbol` was withdrawn with `remaining` left.
    pub open spec fn withdrawn(self, order_id: u64, symbol: Seq<char>, remaining: u64, ts_ms: i64) -> Log {
        if self.orders.contains_key(order_id) && self.orders[order_id].symbol@ == symbol {
            self.with(order_id, self.orders[order_id].cancelled_with(remaining, ts_ms))
        } else {
            self
        }
    }

    /// The ids of the orders it holds, in the order they were accepted.
    pub open spec fn kept(self) -> Seq<u64> {
        self.ids.filter(|id: u64| self.orders.contains_key(id))
    }
}

/// What a filter keeps of a tail, once one more element stands in front.
pub proof fn lemma_filter_front<T>(s: Seq<T>, keep: spec_fn(T) -> bool, i: int)
    requires
        0 <= i < s.len(),
    ensures
        s.skip(i).filter(keep) == (if keep(s[i]) {
            seq![s[i]] + s.skip(i + 1).filter(keep)
        } else {
            s.skip(i + 1).filter(keep)
        }),
{
    let tail = s.skip(i + 1);
    assert(s.skip(i) =~= seq![s[i]] + tail);
    Seq::filter_distributes_over_add(seq![s[i]], tail, keep);
    assert(seq![s[i]].filter(keep) =~= if keep(s[i]) {
        seq![s[i]]
    } else {
        Seq::empty()
    }) by {
        reveal(Seq::filter);
        assert(seq![s[i]].drop_last() =~= Seq::<T>::empty());
        assert(Seq::<T>::empty().filter(keep) =~= Seq::<T>::empty());
    }
    if !keep(s[i]) {
        assert(Seq::<T>::empty() + tail.filter(keep) =~= tail.filter(keep));
    }
}

/// An order added to a log in order leaves it in order.
proof fn lemma_added(log: Log, record: OrderRecord)
    requires
        log.wf(),
    ensures
        log.added(record).wf(),
{
    let after = log.added(record);
    assert forall|id: u64| #[trigger] after.orders.contains_key(id) implies after.orders[id].order_id == id
        && after.ids.contains(id) by {
        if id == record.order_id {
            assert(after.ids[log.ids.len() as int] == id);
        } else {
            assert(log.orders.contains_key(id));
            let i = log.ids.index_of(id);
            assert(after.ids[i] == id);
        }
    }
}

/// An order dropped from a log in order leaves it in order.
proof fn lemma_dropped(log: Log, place: int)
    requires
        log.wf(),
        0 <= place < log.ids.len(),
    ensures
        log.dropped(place).wf(),
{
    let after = log.dropped(place);
    assert forall|id: u64| #[trigger] after.orders.contains_key(id) implies after.orders[id].order_id == id
        && after.ids.contains(id) by {
        assert(log.orders.contains_key(id));
        let i = log.ids.index_of(id);
        assert(log.ids[i] == id);
        if i < place {
            assert(after.ids[i] == id);
        } else {
            assert(after.ids[i - 1] == id);
        }
    }
}

/// What is saved of a log in order is every order it holds.
pub proof fn lemma_kept(log: Log, id: u64)
    requires
        log.wf(),
    ensures
        log.kept().contains(id) == log.orders.contains_key(id),
{
    let here = |id: u64| log.orders.contains_key(id);
    if log.orders.contains_key(id) {
        let i = log.ids.index_of(id);
        assert(here(log.ids[i]));
        log.ids.lemma_filter_contains(here, i);
    }
    if log.kept().contains(id) {
        let i = choose|i: int| 0 <= i < log.kept().len() && log.kept()[i] == id;
        log.ids.lemma_filter_pred(here, i);
    }
}

proof fn lemma_oldest_is_one(log: Log, place: int)
    requires
        log.oldest_finished(place),
    ensures
        (choose|p: int| log.oldest_finished(p)) == place,
{
    let p = choose|p: int| log.oldest_finished(p);
    if p < place {
        assert(!log.finished(p));
    }
    if place < p {
        assert(!log.finished(place));
    }
}

// ---------------------------------------------------------------------------
// Laws

/// A live order is never evicted, however full the log is.
pub proof fn law_live_orders_are_never_evicted(log: Log, cap: int, id: u64)
    requires
        log.orders.contains_key(id),
        log.orders[id].live(),
    ensures
        log.cut(cap).orders.contains_key(id),
        log.cut(cap).orders[id] == log.orders[id],
    decreases log.ids.len(),
{
    if log.orders.len() > cap && exists|place: int| log.oldest_finished(place) {
        let place = choose|place: int| log.oldest_finished(place);
        assert(log.finished(place));
        law_live_orders_are_never_evicted(log.dropped(place), cap, id);
    }
}

/// A log over its cap holds nothing that has finished: as long as something
/// has, it is cut until it fits.
pub proof fn law_the_log_is_over_its_cap_only_where_all_is_live(log: Log, cap: int)
    ensures
        log.cut(cap).orders.len() <= cap || forall|place: int|
            0 <= place < log.cut(cap).ids.len() ==> !#[trigger] log.cut(cap).finished(place),
    decreases log.ids.len(),
{
    if log.orders.len() > cap && exists|place: int| log.oldest_finished(place) {
        let place = choose|place: int| log.oldest_finished(place);
        law_the_log_is_over_its_cap_only_where_all_is_live(log.dropped(place), cap);
        assert(log.cut(cap) == log.dropped(place).cut(cap));
    } else {
        assert(log.cut(cap) == log);
        if log.orders.len() > cap {
            assert forall|place: int| 0 <= place < log.ids.len() implies !#[trigger] log.finished(place) by {
                if log.finished(place) {
                    lemma_some_is_oldest(log, place);
                }
            }
        }
    }
}

proof fn lemma_some_is_oldest(log: Log, place: int)
    requires
        0 <= place < log.ids.len(),
        log.finished(place),
    ensures
        exists|p: int| log.oldest_finished(p),
    decreases place,
{
    if exists|earlier: int| 0 <= earlier < place && #[trigger] log.finished(earlier) {
        let earlier = choose|earlier: int| 0 <= earlier < place && #[trigger] log.finished(earlier);
        lemma_some_is_oldest(log, earlier);
    } else {
        assert(log.oldest_finished(place));
    }
}

/// An order that was just recorded under an id of its caller's own is what
/// that id finds, while it is live.
pub proof fn law_a_live_order_is_found_by_its_own_id(log: Log, record: OrderRecord, cap: int)
    requires
        record.live(),
        client_key(record) is Some,
        forall|id: u64| #[trigger] log.orders.contains_key(id) && id != record.order_id ==> client_key(log.orders[id])
            != client_key(record),
    ensures
        ({
            let key = client_key(record)->0;
            log.added(record).cut(cap).by_client(key.0, key.1) == Some(record)
        }),
{
    let key = client_key(record)->0;
    let whole = log.added(record);
    assert(whole.orders.contains_key(record.order_id));
    lemma_client_stays(whole, record, cap);
}

proof fn lemma_client_stays(log: Log, record: OrderRecord, cap: int)
    requires
        record.live(),
        client_key(record) is Some,
        log.orders.contains_key(record.order_id),
        log.orders[record.order_id] == record,
        log.clients.contains_key(client_key(record)->0),
        log.clients[client_key(record)->0] == record.order_id,
        forall|id: u64| #[trigger] log.orders.contains_key(id) && id != record.order_id ==> client_key(log.orders[id])
            != client_key(record),
    ensures
        log.cut(cap).by_client((client_key(record)->0).0, (client_key(record)->0).1) == Some(record),
    decreases log.ids.len(),
{
    let key = client_key(record)->0;
    assert((key.0, key.1) == key);
    if log.orders.len() > cap && exists|place: int| log.oldest_finished(place) {
        let place = choose|place: int| log.oldest_finished(place);
        assert(log.finished(place));
        let next = log.dropped(place);
        assert(log.ids[place] != record.order_id);
        assert(next.orders.contains_key(record.order_id));
        lemma_client_stays(next, record, cap);
    }
}

/// Recording an order under a fresh id, with an own id that finds nothing,
/// keeps the index of own ids true, whatever is evicted for it.
pub proof fn law_recording_keeps_the_index(log: Log, record: OrderRecord, cap: int)
    requires
        log.wf(),
        log.indexed(),
        !log.orders.contains_key(record.order_id),
        client_key(record) matches Some(key) ==> log.by_client(key.0, key.1) is None,
    ensures
        log.added(record).cut(cap).wf(),
        log.added(record).cut(cap).indexed(),
{
    let after = log.added(record);
    lemma_added(log, record);
    assert(after.indexed()) by {
        assert forall|id: u64| #[trigger] after.orders.contains_key(id) implies (client_key(after.orders[id]) matches Some(
            key,
        ) ==> after.clients.contains_key(key) && after.clients[key] == id) by {
            if id != record.order_id {
                assert(log.orders.contains_key(id));
                if client_key(log.orders[id]) is Some && client_key(log.orders[id]) == client_key(record) {
                    let key = client_key(record)->0;
                    assert((key.0, key.1) == key);
                }
            }
        }
        assert forall|key: (u64, Seq<char>)| #[trigger] after.clients.contains_key(key) implies after.orders.contains_key(
            after.clients[key],
        ) && client_key(after.orders[after.clients[key]]) == Some(key) by {
            if client_key(record) != Some(key) {
                assert(log.clients.contains_key(key));
            }
        }
    }
    lemma_cut_keeps_the_index(after, cap);
}

proof fn lemma_cut_keeps_the_index(log: Log, cap: int)
    requires
        log.wf(),
        log.indexed(),
    ensures
        log.cut(cap).wf(),
        log.cut(cap).indexed(),
    decreases log.ids.len(),
{
    if log.orders.len() > cap && exists|place: int| log.oldest_finished(place) {
        let place = choose|place: int| log.oldest_finished(place);
        let after = log.dropped(place);
        let gone = log.ids[place];
        assert(log.finished(place));
        lemma_dropped(log, place);
        assert forall|id: u64| #[trigger] after.orders.contains_key(id) implies (client_key(after.orders[id]) matches Some(
            key,
        ) ==> after.clients.contains_key(key) && after.clients[key] == id) by {
            assert(log.orders.contains_key(id));
            assert(log.orders.contains_key(gone));
        }
        assert forall|key: (u64, Seq<char>)| #[trigger] after.clients.contains_key(key) implies after.orders.contains_key(
            after.clients[key],
        ) && client_key(after.orders[after.clients[key]]) == Some(key) by {
            assert(log.clients.contains_key(key));
        }
        lemma_cut_keeps_the_index(after, cap);
    }
}

/// An order that trades or is withdrawn keeps its own id, and the index of
/// them stays true.
pub proof fn law_changing_an_order_keeps_the_index(
    log: Log,
    order_id: u64,
    symbol: Seq<char>,
    qty: u64,
    price_cents: i64,
    ts_ms: i64,
)
    requires
        log.wf(),
        log.indexed(),
    ensures
        log.filled(order_id, symbol, qty, price_cents, ts_ms).wf(),
        log.filled(order_id, symbol, qty, price_cents, ts_ms).indexed(),
        log.withdrawn(order_id, symbol, qty, ts_ms).wf(),
        log.withdrawn(order_id, symbol, qty, ts_ms).indexed(),
{
    if log.orders.contains_key(order_id) {
        lemma_with(log, order_id, log.orders[order_id].filled_by(qty, price_cents, ts_ms));
        lemma_with(log, order_id, log.orders[order_id].cancelled_with(qty, ts_ms));
    }
}

proof fn lemma_with(log: Log, id: u64, record: OrderRecord)
    requires
        log.wf(),
        log.indexed(),
        log.orders.contains_key(id),
        record.order_id == id,
        client_key(record) == client_key(log.orders[id]),
    ensures
        log.with(id, record).wf(),
        log.with(id, record).indexed(),
{
    let after = log.with(id, record);
    assert forall|other: u64| #[trigger] after.orders.contains_key(other) implies (client_key(
        after.orders[other],
    ) matches Some(key) ==> after.clients.contains_key(key) && after.clients[key] == other) && after.orders[other].order_id
        == other && after.ids.contains(other) by {
        assert(log.orders.contains_key(other));
    }
    assert forall|key: (u64, Seq<char>)| #[trigger] after.clients.contains_key(key) implies after.orders.contains_key(
        after.clients[key],
    ) && client_key(after.orders[after.clients[key]]) == Some(key) by {
        assert(log.clients.contains_key(key));
    }
}

/// The orders are listed by id: ascending, each once, and none left out. The
/// orders held settle the list.
pub proof fn law_orders_are_listed_by_id(log: &OrderLog)
    requires
        log.wf(),
    ensures
        log.by_id() == in_order(log.log().orders),
        log.by_id().len() == log.log().orders.len(),
        forall|i: int, j: int|
            0 <= i < j < log.by_id().len() ==> (#[trigger] log.by_id()[i]).order_id < (#[trigger] log.by_id()[j]).order_id,
        forall|i: int|
            0 <= i < log.by_id().len() ==> log.log().orders.contains_key((#[trigger] log.by_id()[i]).order_id)
                && log.log().orders[log.by_id()[i].order_id] == log.by_id()[i],
        forall|id: u64| #[trigger] log.log().orders.contains_key(id) ==> log.by_id().contains(log.log().orders[id]),
{
    let table = &log.orders;
    table.lemma_in_order();
    table.lemma_listed();
    assert forall|i: int| 0 <= i < log.by_id().len() implies log.log().orders.contains_key(
        (#[trigger] log.by_id()[i]).order_id,
    ) && log.log().orders[log.by_id()[i].order_id] == log.by_id()[i] && log.by_id()[i].order_id == table.keys()[i] by {
        table.lemma_at(i);
        assert(log.log().orders.contains_key(table.keys()[i]));
    }
    assert forall|i: int, j: int| 0 <= i < j < log.by_id().len() implies (#[trigger] log.by_id()[i]).order_id < (
    #[trigger] log.by_id()[j]).order_id by {
        assert(u64::before(table.keys()[i], table.keys()[j]));
    }
    assert forall|id: u64| #[trigger] log.log().orders.contains_key(id) implies log.by_id().contains(
        log.log().orders[id],
    ) by {
        table.lemma_placed(id);
        assert(log.by_id()[table.place(id)] == log.log().orders[id]);
    }
}

/// The orders that are due in a symbol are those resting there whose instant
/// has come, each with its owner, and no others.
pub proof fn law_the_due_orders_are_those_whose_instant_has_come(
    log: OrderLog,
    symbol: &str,
    now_ms: i64,
    due: Vec<(u64, TraderId)>,
    id: u64,
    trader: TraderId,
)
    requires
        log.wf(),
        call_ensures(OrderLog::due, (&log, symbol, now_ms), due),
    ensures
        due@.contains((id, trader)) <==> {
            &&& log.log().orders.contains_key(id)
            &&& log.log().orders[id].symbol@ == symbol@
            &&& log.log().orders[id].status is Resting
            &&& log.log().orders[id].expires_at_ms is Some
            &&& log.log().orders[id].expires_at_ms->0 <= now_ms
            &&& log.log().orders[id].trader_id == trader.0
        },
{
    law_orders_are_listed_by_id(&log);
    let ripe = |o: OrderRecord| o.symbol@ == symbol@ && o.expired(now_ms);
    let found = log.by_id().filter(ripe);
    if due@.contains((id, trader)) {
        let i = choose|i: int| 0 <= i < due@.len() && due@[i] == (id, trader);
        assert(found.contains(found[i]));
        lemma_filtered(log.by_id(), ripe, found[i]);
        let j = choose|j: int| 0 <= j < log.by_id().len() && log.by_id()[j] == found[i];
        assert(log.log().orders.contains_key(log.by_id()[j].order_id));
    }
    if log.log().orders.contains_key(id) && log.log().orders[id].symbol@ == symbol@ && log.log().orders[id].expired(
        now_ms,
    ) && log.log().orders[id].trader_id == trader.0 {
        let record = log.log().orders[id];
        assert(log.by_id().contains(record));
        lemma_filtered(log.by_id(), ripe, record);
        let k = choose|k: int| 0 <= k < log.by_id().len() && log.by_id()[k] == record;
        log.lemma_wf();
        assert(record.order_id == id);
        let i = choose|i: int| 0 <= i < found.len() && found[i] == record;
        assert(due@[i] == (id, trader));
    }
}

/// A trader's orders are all of its own that are kept, and no other's.
pub proof fn law_a_traders_orders_are_its_own(log: Log, trader: u64, id: u64)
    requires
        log.wf(),
    ensures
        log.ids_of(trader).contains(id) <==> log.orders.contains_key(id) && log.orders[id].trader_id == trader,
{
    let own = |id: u64| log.orders.contains_key(id) && log.orders[id].trader_id == trader;
    lemma_filtered(log.ids, own, id);
    let kept = log.ids.filter(own);
    if kept.contains(id) {
        let i = choose|i: int| 0 <= i < kept.len() && kept[i] == id;
        assert(kept.reverse()[kept.len() - 1 - i] == id);
    }
    if kept.reverse().contains(id) {
        let i = choose|i: int| 0 <= i < kept.len() && kept.reverse()[i] == id;
        assert(kept[kept.len() - 1 - i] == id);
    }
}

/// A trader's orders are listed newest first: one that is recorded comes
/// before all that were there.
pub proof fn law_the_newest_order_is_listed_first(log: Log, record: OrderRecord)
    requires
        !log.ids.contains(record.order_id),
    ensures
        log.added(record).ids_of(record.trader_id) == seq![record.order_id] + log.ids_of(record.trader_id),
        forall|other: u64| other != record.trader_id ==> #[trigger] log.added(record).ids_of(other) == log.ids_of(other),
{
    lemma_added_to_its_trader(log, record, record.trader_id);
    assert forall|other: u64| other != record.trader_id implies #[trigger] log.added(record).ids_of(other)
        == log.ids_of(other) by {
        lemma_added_to_its_trader(log, record, other);
    }
}

/// What recording an order does to the list of one trader.
proof fn lemma_added_to_its_trader(log: Log, record: OrderRecord, trader: u64)
    requires
        !log.ids.contains(record.order_id),
    ensures
        log.added(record).ids_of(trader) == (if trader == record.trader_id {
            seq![record.order_id] + log.ids_of(trader)
        } else {
            log.ids_of(trader)
        }),
{
    let after = log.added(record);
    let here = |id: u64| after.orders.contains_key(id) && after.orders[id].trader_id == trader;
    let before = |id: u64| log.orders.contains_key(id) && log.orders[id].trader_id == trader;
    assert forall|i: int| 0 <= i < log.ids.len() implies here(#[trigger] log.ids[i]) == before(log.ids[i]) by {
        assert(log.ids.contains(log.ids[i]));
    }
    lemma_filters_agree(log.ids, here, before);
    reveal(Seq::filter);
    assert(after.ids.drop_last() =~= log.ids);
    if trader == record.trader_id {
        assert(after.ids.filter(here) == log.ids.filter(before).push(record.order_id));
        assert(log.ids.filter(before).push(record.order_id).reverse() =~= seq![record.order_id] + log.ids.filter(
            before,
        ).reverse());
    } else {
        assert(after.ids.filter(here) == log.ids.filter(before));
    }
}

/// Filters that agree on every element keep the same.
proof fn lemma_filters_agree<T>(s: Seq<T>, one: spec_fn(T) -> bool, other: spec_fn(T) -> bool)
    requires
        forall|i: int| 0 <= i < s.len() ==> one(#[trigger] s[i]) == other(s[i]),
    ensures
        s.filter(one) == s.filter(other),
    decreases s.len(),
{
    reveal(Seq::filter);
    if s.len() > 0 {
        assert forall|i: int| 0 <= i < s.len() - 1 implies one(#[trigger] s.drop_last()[i]) == other(
            s.drop_last()[i],
        ) by {
            assert(one(s[i]) == other(s[i]));
        }
        lemma_filters_agree(s.drop_last(), one, other);
        assert(one(s[s.len() - 1]) == other(s[s.len() - 1]));
    }
}

/// A record is found by its own client's name for it: it is that trader's,
/// and carries that name.
pub proof fn law_a_clients_name_finds_its_own_order(log: Log, trader: u64, id: Seq<char>)
    requires
        log.indexed(),
    ensures
        log.by_client(trader, id) matches Some(record) ==> {
            &&& record.trader_id == trader
            &&& record.client_order_id is Some
            &&& record.client_order_id->0@ == id
            &&& log.orders.contains_key(log.clients[(trader, id)])
        },
        forall|n: u64|
            #![trigger log.orders[n]]
            log.orders.contains_key(n) && log.orders[n].trader_id == trader && log.orders[n].client_order_id is Some
                && log.orders[n].client_order_id->0@ == id ==> log.by_client(trader, id) == Some(log.orders[n]),
{
    assert forall|n: u64|
        #![trigger log.orders[n]]
        log.orders.contains_key(n) && log.orders[n].trader_id == trader && log.orders[n].client_order_id is Some
            && log.orders[n].client_order_id->0@ == id implies log.by_client(trader, id) == Some(log.orders[n]) by {
        assert(client_key(log.orders[n]) == Some((trader, id)));
    }
}

/// A fill or a withdrawal touches the one order it names, and that only in
/// its own symbol.
pub proof fn law_an_order_is_changed_alone(
    log: Log,
    order_id: u64,
    symbol: Seq<char>,
    qty: u64,
    price_cents: i64,
    ts_ms: i64,
    other: u64,
)
    requires
        log.orders.contains_key(other),
        other != order_id || log.orders[other].symbol@ != symbol,
    ensures
        log.filled(order_id, symbol, qty, price_cents, ts_ms).orders[other] == log.orders[other],
        log.withdrawn(order_id, symbol, qty, ts_ms).orders[other] == log.orders[other],
        log.filled(order_id, symbol, qty, price_cents, ts_ms).ids == log.ids,
        log.withdrawn(order_id, symbol, qty, ts_ms).ids == log.ids,
{
}

/// Making room keeps what it keeps as it was, and makes none where there is
/// enough.
pub proof fn law_what_is_kept_is_kept_as_it_was(log: Log, cap: int, id: u64)
    ensures
        log.orders.len() <= cap ==> log.cut(cap) == log,
        log.cut(cap).orders.contains_key(id) ==> log.orders.contains_key(id) && log.cut(cap).orders[id]
            == log.orders[id],
    decreases log.ids.len(),
{
    if log.orders.len() > cap && exists|place: int| log.oldest_finished(place) {
        let place = choose|place: int| log.oldest_finished(place);
        law_what_is_kept_is_kept_as_it_was(log.dropped(place), cap, id);
    }
}

/// Room is made from the oldest on: an order that is finished is not kept
/// while a later one that is finished goes.
pub proof fn law_the_oldest_finished_orders_go_first(log: Log, cap: int, i: int, j: int)
    requires
        log.ids.no_duplicates(),
        0 <= i < j < log.ids.len(),
        log.orders.contains_key(log.ids[i]),
        log.orders.contains_key(log.ids[j]),
        !(log.orders[log.ids[i]].status is Resting),
        !(log.orders[log.ids[j]].status is Resting),
        log.cut(cap).orders.contains_key(log.ids[i]),
    ensures
        log.cut(cap).orders.contains_key(log.ids[j]),
    decreases log.ids.len(),
{
    if log.orders.len() > cap && exists|place: int| log.oldest_finished(place) {
        let place = choose|place: int| log.oldest_finished(place);
        assert(log.finished(i));
        assert(place <= i);
        let after = log.dropped(place);
        if place == i {
            law_what_is_kept_is_kept_as_it_was(after, cap, log.ids[i]);
        } else {
            assert(after.ids[i - 1] == log.ids[i]);
            assert(after.ids[j - 1] == log.ids[j]);
            assert forall|x: int, y: int| 0 <= x < after.ids.len() && 0 <= y < after.ids.len() && x != y implies
                after.ids[x] != after.ids[y] by {
                let (a, b) = (if x < place { x } else { x + 1 }, if y < place { y } else { y + 1 });
                assert(log.ids[a] != log.ids[b]);
            }
            law_the_oldest_finished_orders_go_first(after, cap, i - 1, j - 1);
        }
    }
}

} // verus!
