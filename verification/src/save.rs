//! A saved market: what it holds, and what has to be true of it before
//! anything is built from it.

use vstd::prelude::*;

use crate::account::{listed, views, Account, User};
use crate::events::EventRecord;
use crate::jobs::Job;
use crate::journal::CommandRecord;
use crate::ledger::{LedgerView, WalletId};
use crate::market::Wallets;
use crate::reconcile::{
    account_ids, ids_of_accounts, ids_of_traders, ids_of_users, readable, reconcile, save_faults, trader_ids, user_ids,
};
use crate::table::Table;
use crate::text::{chars_of, decimal, push_u64, same_text, text_between};
use crate::trading::{OrderRecord, OrderResponse, Resting, StopOrder, Trader};

verus! {

/// Current save format. Any other version, older or newer, is refused.
pub const STATE_VERSION: u32 = 9;

/// What kind of thing a symbol is.
#[derive(Clone, Copy, Debug, PartialEq, Eq, Structural)]
pub enum AssetKind {
    /// A company with a fixed number of shares.
    Stock,
    /// A good whose count production and consumption move.
    Good,
}

/// What a saved listing is.
#[derive(Debug)]
pub struct SymbolInfo {
    /// Its ticker.
    pub symbol: String,
    pub asset: AssetKind,
    /// Shares outstanding, or units issued less consumed.
    pub units_outstanding: u64,
}

/// One saved symbol, as far as the checks read it.
#[derive(Debug)]
pub struct SymbolSave {
    /// Ticker.
    pub symbol: String,
    /// What the listing is; a file without it cannot be used.
    pub info: Option<SymbolInfo>,
    /// What the book finds wrong with its own state.
    pub book_fault: Option<String>,
    /// Synthetic liquidity quotes the symbol.
    pub synthetic: bool,
    /// Every order resting in the book.
    pub orders: Vec<Resting>,
    /// Triggers still waiting for a price.
    pub stops: Vec<StopOrder>,
}

/// A wallet that rewards are paid from.
#[derive(Debug)]
pub struct Budget {
    pub id: u64,
    pub name: String,
    pub wallet: WalletId,
}

/// A rule that pays out of a budget.
#[derive(Clone, Copy, Debug, PartialEq, Eq, Structural)]
pub struct RewardRule {
    pub id: u64,
    pub budget: u64,
}

/// The people, their money and everything written down about them.
pub struct MarketSave {
    /// Every wallet in the world and the supply behind them.
    pub ledger: LedgerView,
    /// The four wallets the world always has.
    pub wallets: Wallets,
    /// Per symbol, the wallet its payouts come out of.
    pub issuers: Vec<(String, WalletId)>,
    /// The users that the world runs itself.
    pub npc_users: Vec<u64>,
    /// Every job, running and finished, oldest first.
    pub jobs: Vec<Job>,
    pub budgets: Vec<Budget>,
    pub rules: Vec<RewardRule>,
    pub users: Vec<User>,
    pub accounts: Vec<Account>,
    pub traders: Vec<Trader>,
    pub orders: Vec<OrderRecord>,
    /// The response each order was accepted with, by order id.
    pub order_responses: Vec<(u64, OrderResponse)>,
    /// Accepted events, oldest first.
    pub events: Vec<EventRecord>,
    /// `(SHA-256 digest, user id)`, so credentials work without being saved.
    pub api_keys: Vec<(String, u64)>,
    pub next_user_id: u64,
    pub next_account_id: u64,
    pub next_trader_id: u64,
    pub next_event_id: u64,
    pub next_stop_id: u64,
    /// The lowest id a new order may take.
    pub next_order_id: u64,
    /// The journal sequence this snapshot includes.
    pub journal_seq: u64,
    /// What each idempotency key answered, oldest first.
    pub commands: Vec<CommandRecord>,
}

/// Everything needed to carry on where the server left off.
pub struct Save {
    /// [`STATE_VERSION`] at the time of writing.
    pub version: u32,
    /// Wall-clock time the file was written.
    pub saved_at_ms: i64,
    /// Simulated time the market had reached. Start-up continues from here.
    pub sim_now_ms: i64,
    /// One entry per listed symbol, in listing order.
    pub symbols: Vec<SymbolSave>,
    pub market: MarketSave,
}

/// Why a save could not be written or read.
#[derive(Debug)]
pub enum SaveError {
    /// The file could not be read or written, in words.
    Io(String),
    /// The file is not what this server writes, in words.
    Format(String),
    /// The snapshot has inconsistent accounting, ownership or identity state.
    Invalid(Vec<String>),
    /// Written by a different version of the format.
    Version { found: u32, expected: u32 },
}

/// Texts with a semicolon and a space between them.
pub open spec fn joined(texts: Seq<String>) -> Seq<char>
    decreases texts.len(),
{
    if texts.len() == 0 {
        Seq::empty()
    } else if texts.len() == 1 {
        texts[0]@
    } else {
        joined(texts.drop_last()) + "; "@ + texts.last()@
    }
}

impl SaveError {
    /// The reason in words.
    pub open spec fn words(self) -> Seq<char> {
        match self {
            SaveError::Io(e) => "state file: "@ + e@,
            SaveError::Format(e) => "state file is not readable: "@ + e@,
            SaveError::Invalid(issues) => "state file has inconsistent state: "@ + joined(issues@),
            SaveError::Version { found, expected } => "state file is version "@ + decimal(found as nat)
                + ", this build reads "@ + decimal(expected as nat),
        }
    }

    /// The reason in words.
    pub fn message(&self) -> (text: String)
        ensures
            text@ == self.words(),
    {
        match self {
            SaveError::Io(e) => {
                let mut text = "state file: ".to_owned();
                text.append(e.as_str());
                text
            },
            SaveError::Format(e) => {
                let mut text = "state file is not readable: ".to_owned();
                text.append(e.as_str());
                text
            },
            SaveError::Invalid(issues) => {
                let mut text = "state file has inconsistent state: ".to_owned();
                push_joined(&mut text, issues);
                text
            },
            SaveError::Version { found, expected } => {
                let mut text = "state file is version ".to_owned();
                push_u64(&mut text, *found as u64);
                text.append(", this build reads ");
                push_u64(&mut text, *expected as u64);
                text
            },
        }
    }
}

/// Write texts at the end of `out`, with a semicolon and a space between
/// them.
fn push_joined(out: &mut String, texts: &Vec<String>)
    ensures
        final(out)@ == old(out)@ + joined(texts@),
{
    let ghost start = out@;
    let mut i: usize = 0;
    proof {
        assert(texts@.take(0) =~= Seq::<String>::empty());
        assert(start + joined(texts@.take(0)) =~= start);
    }
    while i < texts.len()
        invariant
            i <= texts.len(),
            out@ == start + joined(texts@.take(i as int)),
        decreases texts.len() - i,
    {
        let ghost before = out@;
        proof {
            let longer = texts@.take(i as int + 1);
            assert(longer.drop_last() =~= texts@.take(i as int));
            assert(longer.last() == texts@[i as int]);
        }
        if i > 0 {
            out.append("; ");
        }
        out.append(texts[i].as_str());
        proof {
            let n = texts@[i as int]@;
            if i > 0 {
                assert(start + joined(texts@.take(i as int)) + "; "@ + n =~= start + (joined(texts@.take(i as int))
                    + "; "@ + n));
            } else {
                assert(before =~= start);
            }
        }
        i = i + 1;
    }
    proof {
        assert(texts@.take(texts@.len() as int) =~= texts@);
    }
}

/// Whether this build can use a file of a version.
pub fn check_version(found: u32) -> (r: Result<(), SaveError>)
    ensures
        r == (if found == STATE_VERSION {
            Ok::<(), SaveError>(())
        } else {
            Err(SaveError::Version { found, expected: STATE_VERSION })
        }),
{
    if found == STATE_VERSION {
        Ok(())
    } else {
        Err(SaveError::Version { found, expected: STATE_VERSION })
    }
}

/// The file name the temporary file for a file of this name goes under:
/// beside it, so the rename that replaces it stays on one filesystem.
pub fn temp_path(file: &str) -> (name: String)
    ensures
        name@ == file@ + ".tmp"@,
{
    let mut name = file.to_owned();
    name.append(".tmp");
    name
}

// ---------------------------------------------------------------------------
// Identities

/// One more issue.
pub(crate) fn push_issue(issues: &mut Vec<String>, text: String)
    ensures
        views(final(issues)@) == views(old(issues)@).push(text@),
{
    let ghost before = issues@;
    issues.push(text);
    proof {
        assert(views(issues@) =~= views(before).push(text@));
    }
}

/// The counter that hands out ids has run out, or never started.
pub open spec fn spent(next: u64) -> bool {
    next == 0 || next == u64::MAX
}

/// An id at a place in a list is wrong: zero, not handed out yet, or there
/// before.
pub open spec fn id_fault(ids: Seq<u64>, next: u64, i: int) -> bool {
    ids[i] == 0 || ids[i] >= next || ids.take(i).contains(ids[i])
}

/// An issue for each of the first `n` ids that is wrong.
pub open spec fn id_faults(name: Seq<char>, ids: Seq<u64>, next: u64, n: int) -> Seq<Seq<char>>
    decreases n,
{
    if n <= 0 {
        Seq::empty()
    } else {
        id_faults(name, ids, next, n - 1) + listed(
            id_fault(ids, next, n - 1),
            name + " ids are duplicated, zero, or overlap the next id"@,
        )
    }
}

/// What is wrong with a list of ids and the counter that handed them out.
pub open spec fn ids_checked(name: Seq<char>, ids: Seq<u64>, next: u64) -> Seq<Seq<char>> {
    listed(spent(next), name + " id counter is invalid or exhausted"@) + id_faults(name, ids, next, ids.len() as int)
}

/// An id that is in the list and could have been handed out.
pub open spec fn good_id(ids: Seq<u64>, next: u64, id: u64) -> bool {
    ids.contains(id) && 0 < id < next
}

/// Check a list of ids and the counter that handed them out. Returns the ids
/// that are good, each once.
pub fn check_ids(name: &str, ids: &Vec<u64>, next: u64, issues: &mut Vec<String>) -> (good: Table<u64, ()>)
    ensures
        good.wf(),
        forall|id: u64| #[trigger] good.map().contains_key(id) == good_id(ids@, next, id),
        views(final(issues)@) == views(old(issues)@) + ids_checked(name@, ids@, next),
{
    let ghost start = views(issues@);
    let mut seen: Table<u64, ()> = Table::new();
    if next == 0 || next == u64::MAX {
        let mut text = name.to_owned();
        text.append(" id counter is invalid or exhausted");
        push_issue(issues, text);
    }
    let ghost first = listed(spent(next), name@ + " id counter is invalid or exhausted"@);
    proof {
        assert(views(issues@) =~= start + first);
        assert(start + first + id_faults(name@, ids@, next, 0) =~= start + first);
    }
    let mut i: usize = 0;
    while i < ids.len()
        invariant
            i <= ids.len(),
            seen.wf(),
            forall|id: u64| #[trigger] seen.map().contains_key(id) == good_id(ids@.take(i as int), next, id),
            views(issues@) == start + first + id_faults(name@, ids@, next, i as int),
        decreases ids.len() - i,
    {
        let id: u64 = ids[i];
        let ghost shorter = ids@.take(i as int);
        let ghost longer = ids@.take(i as int + 1);
        let ghost before = seen.map();
        proof {
            assert(longer =~= shorter.push(id));
            assert(longer[i as int] == id);
        }
        let wrong: bool = if id == 0 || id >= next {
            true
        } else {
            match seen.insert(id, ()) {
                Some(_) => true,
                None => false,
            }
        };
        proof {
            assert(wrong == id_fault(ids@, next, i as int));
            assert forall|k: u64| #[trigger] seen.map().contains_key(k) == good_id(longer, next, k) by {
                assert(before.contains_key(k) == good_id(shorter, next, k));
                if longer.contains(k) && k != id {
                    let j = choose|j: int| 0 <= j < longer.len() && longer[j] == k;
                    assert(shorter[j] == k);
                }
                if shorter.contains(k) {
                    let j = choose|j: int| 0 <= j < shorter.len() && shorter[j] == k;
                    assert(longer[j] == k);
                }
            }
        }
        let ghost so_far = views(issues@);
        if wrong {
            let mut text = name.to_owned();
            text.append(" ids are duplicated, zero, or overlap the next id");
            push_issue(issues, text);
        }
        proof {
            let text = name@ + " ids are duplicated, zero, or overlap the next id"@;
            assert(views(issues@) =~= so_far + listed(wrong, text));
            assert(start + first + id_faults(name@, ids@, next, i as int) + listed(wrong, text) =~= start + first
                + id_faults(name@, ids@, next, i as int + 1));
        }
        i = i + 1;
    }
    proof {
        assert(ids@.take(ids@.len() as int) =~= ids@);
        assert(start + first + id_faults(name@, ids@, next, ids@.len() as int) =~= start + ids_checked(
            name@,
            ids@,
            next,
        ));
    }
    seen
}

// ---------------------------------------------------------------------------
// Listings

/// The symbol carries a listing for `name`.
pub open spec fn is_listing_of(symbol: SymbolSave, name: Seq<char>) -> bool {
    symbol.info matches Some(info) && info.symbol@ == name
}

/// One of the first `n` symbols carries a listing for `name`.
pub open spec fn listed_before(symbols: Seq<SymbolSave>, n: int, name: Seq<char>) -> bool {
    exists|j: int| 0 <= j < n && is_listing_of(#[trigger] symbols[j], name)
}

/// What is wrong with the listing at a place: the file is the symbol table,
/// so every listing names itself, and it names itself once.
pub open spec fn listing_fault(symbols: Seq<SymbolSave>, i: int) -> Seq<Seq<char>> {
    let symbol = symbols[i];
    let book = match symbol.book_fault {
        Some(issue) => seq![symbol.symbol@ + " book: "@ + issue@],
        None => Seq::empty(),
    };
    book + match symbol.info {
        None => seq![symbol.symbol@ + " carries no listing"@],
        Some(info) => listed(
            symbol.symbol@ != info.symbol@,
            symbol.symbol@ + " is filed under a listing for "@ + info.symbol@,
        ) + listed(listed_before(symbols, i, info.symbol@), info.symbol@ + " is listed more than once"@),
    }
}

/// What is wrong with the first `n` listings.
pub open spec fn listing_faults(symbols: Seq<SymbolSave>, n: int) -> Seq<Seq<char>>
    decreases n,
{
    if n <= 0 {
        Seq::empty()
    } else {
        listing_faults(symbols, n - 1) + listing_fault(symbols, n - 1)
    }
}

/// Check the symbol table.
fn check_listings(symbols: &Vec<SymbolSave>, issues: &mut Vec<String>)
    ensures
        views(final(issues)@) == views(old(issues)@) + listing_faults(symbols@, symbols@.len() as int),
{
    let ghost start = views(issues@);
    let mut seen: Table<String, ()> = Table::new();
    let mut i: usize = 0;
    proof {
        assert(start + listing_faults(symbols@, 0) =~= start);
    }
    while i < symbols.len()
        invariant
            i <= symbols.len(),
            seen.wf(),
            forall|name: Seq<char>| #[trigger] seen.map().contains_key(name) == listed_before(symbols@, i as int, name),
            views(issues@) == start + listing_faults(symbols@, i as int),
        decreases symbols.len() - i,
    {
        let symbol = &symbols[i];
        let ghost so_far = views(issues@);
        let ghost before = seen.map();
        match &symbol.book_fault {
            Some(issue) => {
                let mut text = symbol.symbol.clone();
                text.append(" book: ");
                text.append(issue.as_str());
                push_issue(issues, text);
            },
            None => {},
        }
        match &symbol.info {
            None => {
                let mut text = symbol.symbol.clone();
                text.append(" carries no listing");
                push_issue(issues, text);
            },
            Some(info) => {
                if !same_text(symbol.symbol.as_str(), info.symbol.as_str()) {
                    let mut text = symbol.symbol.clone();
                    text.append(" is filed under a listing for ");
                    text.append(info.symbol.as_str());
                    push_issue(issues, text);
                }
                let again: bool = match seen.insert(info.symbol.clone(), ()) {
                    Some(_) => true,
                    None => false,
                };
                if again {
                    let mut text = info.symbol.clone();
                    text.append(" is listed more than once");
                    push_issue(issues, text);
                }
            },
        }
        proof {
            assert(views(issues@) =~= so_far + listing_fault(symbols@, i as int));
            assert(start + listing_faults(symbols@, i as int) + listing_fault(symbols@, i as int) =~= start
                + listing_faults(symbols@, i as int + 1));
            assert forall|name: Seq<char>| #[trigger] seen.map().contains_key(name) == listed_before(
                symbols@,
                i as int + 1,
                name,
            ) by {
                assert(before.contains_key(name) == listed_before(symbols@, i as int, name));
                if is_listing_of(symbols@[i as int], name) {
                    assert(listed_before(symbols@, i as int + 1, name));
                }
                if listed_before(symbols@, i as int, name) {
                    let j = choose|j: int| 0 <= j < i && is_listing_of(#[trigger] symbols@[j], name);
                    assert(is_listing_of(symbols@[j], name));
                }
            }
        }
        i = i + 1;
    }
}

// ---------------------------------------------------------------------------
// Stops

/// The stops of the first `n` symbols, in order.
pub open spec fn stops_before(symbols: Seq<SymbolSave>, n: int) -> Seq<StopOrder>
    decreases n,
{
    if n <= 0 {
        Seq::empty()
    } else {
        stops_before(symbols, n - 1) + symbols[n - 1].stops@
    }
}

/// One of the stops has this id.
pub open spec fn has_stop(stops: Seq<StopOrder>, id: u64) -> bool {
    exists|j: int| 0 <= j < stops.len() && (#[trigger] stops[j]).stop_id == id
}

/// What is wrong with a stop filed under a symbol, after the ones before it.
pub open spec fn stop_fault(
    before: Seq<StopOrder>,
    stop: StopOrder,
    symbol: Seq<char>,
    next: u64,
    traders: Seq<u64>,
) -> Seq<Seq<char>> {
    let name = "stop "@ + decimal(stop.stop_id as nat);
    listed(
        stop.stop_id == 0 || stop.stop_id >= next || has_stop(before, stop.stop_id),
        "stop ids are duplicated, zero, or overlap the next id"@,
    ) + listed(!traders.contains(stop.trader_id), name + " has no trader"@) + listed(
        stop.symbol@ != symbol,
        name + " is filed under another symbol"@,
    ) + listed(
        stop.qty == 0 || stop.stop_price_cents <= 0 || (stop.limit_price_cents matches Some(p) && p <= 0),
        name + " has an invalid size or price"@,
    )
}

/// What is wrong with the first `n` stops of one symbol.
pub open spec fn stop_faults(
    before: Seq<StopOrder>,
    stops: Seq<StopOrder>,
    n: int,
    symbol: Seq<char>,
    next: u64,
    traders: Seq<u64>,
) -> Seq<Seq<char>>
    decreases n,
{
    if n <= 0 {
        Seq::empty()
    } else {
        stop_faults(before, stops, n - 1, symbol, next, traders) + stop_fault(
            before + stops.take(n - 1),
            stops[n - 1],
            symbol,
            next,
            traders,
        )
    }
}

/// What is wrong with the stops of the first `n` symbols.
pub open spec fn all_stop_faults(symbols: Seq<SymbolSave>, n: int, next: u64, traders: Seq<u64>) -> Seq<Seq<char>>
    decreases n,
{
    if n <= 0 {
        Seq::empty()
    } else {
        all_stop_faults(symbols, n - 1, next, traders) + stop_faults(
            stops_before(symbols, n - 1),
            symbols[n - 1].stops@,
            symbols[n - 1].stops@.len() as int,
            symbols[n - 1].symbol@,
            next,
            traders,
        )
    }
}

/// The ids of stops that could have been handed out.
spec fn stop_ids(stops: Seq<StopOrder>, next: u64, ids: Map<u64, ()>) -> bool {
    forall|id: u64| #[trigger] ids.contains_key(id) == (has_stop(stops, id) && 0 < id < next)
}

/// Check one stop, and remember its id.
fn check_stop(
    stop: &StopOrder,
    symbol: &str,
    next: u64,
    traders: &Table<u64, ()>,
    seen: &mut Table<u64, ()>,
    issues: &mut Vec<String>,
    Ghost(before): Ghost<Seq<StopOrder>>,
    Ghost(ids): Ghost<Seq<u64>>,
)
    requires
        traders.wf(),
        forall|id: u64| #[trigger] traders.map().contains_key(id) == ids.contains(id),
        old(seen).wf(),
        stop_ids(before, next, old(seen).map()),
    ensures
        final(seen).wf(),
        stop_ids(before.push(*stop), next, final(seen).map()),
        views(final(issues)@) == views(old(issues)@) + stop_fault(before, *stop, symbol@, next, ids),
{
    let ghost start = views(issues@);
    let ghost was = seen.map();
    let wrong: bool = if stop.stop_id == 0 || stop.stop_id >= next {
        true
    } else {
        match seen.insert(stop.stop_id, ()) {
            Some(_) => true,
            None => false,
        }
    };
    proof {
        let longer = before.push(*stop);
        assert forall|id: u64| #[trigger] seen.map().contains_key(id) == (has_stop(longer, id) && 0 < id < next) by {
            assert(was.contains_key(id) == (has_stop(before, id) && 0 < id < next));
            if has_stop(before, id) {
                let j = choose|j: int| 0 <= j < before.len() && (#[trigger] before[j]).stop_id == id;
                assert(longer[j].stop_id == id);
            }
            if has_stop(longer, id) && id != stop.stop_id {
                let j = choose|j: int| 0 <= j < longer.len() && (#[trigger] longer[j]).stop_id == id;
                assert(before[j].stop_id == id);
            }
            assert(longer[before.len() as int] == *stop);
        }
    }
    if wrong {
        push_issue(issues, "stop ids are duplicated, zero, or overlap the next id".to_owned());
    }
    if !traders.contains_key(&stop.trader_id) {
        let mut text = "stop ".to_owned();
        push_u64(&mut text, stop.stop_id);
        text.append(" has no trader");
        push_issue(issues, text);
    }
    if !same_text(stop.symbol.as_str(), symbol) {
        let mut text = "stop ".to_owned();
        push_u64(&mut text, stop.stop_id);
        text.append(" is filed under another symbol");
        push_issue(issues, text);
    }
    let no_limit: bool = match stop.limit_price_cents {
        Some(p) => p <= 0,
        None => false,
    };
    if stop.qty == 0 || stop.stop_price_cents <= 0 || no_limit {
        let mut text = "stop ".to_owned();
        push_u64(&mut text, stop.stop_id);
        text.append(" has an invalid size or price");
        push_issue(issues, text);
    }
    proof {
        assert(views(issues@) =~= start + stop_fault(before, *stop, symbol@, next, ids));
    }
}

/// Check every stop the symbols hold.
fn check_stops(symbols: &Vec<SymbolSave>, next: u64, trader_ids: &Vec<u64>, issues: &mut Vec<String>)
    ensures
        views(final(issues)@) == views(old(issues)@) + all_stop_faults(
            symbols@,
            symbols@.len() as int,
            next,
            trader_ids@,
        ),
{
    let ghost start = views(issues@);
    let traders = set_of(trader_ids);
    let mut seen: Table<u64, ()> = Table::new();
    let mut i: usize = 0;
    proof {
        assert(start + all_stop_faults(symbols@, 0, next, trader_ids@) =~= start);
    }
    while i < symbols.len()
        invariant
            i <= symbols.len(),
            traders.wf(),
            forall|id: u64| #[trigger] traders.map().contains_key(id) == trader_ids@.contains(id),
            seen.wf(),
            stop_ids(stops_before(symbols@, i as int), next, seen.map()),
            views(issues@) == start + all_stop_faults(symbols@, i as int, next, trader_ids@),
        decreases symbols.len() - i,
    {
        let symbol = &symbols[i];
        let ghost so_far = views(issues@);
        let ghost before = stops_before(symbols@, i as int);
        let mut j: usize = 0;
        proof {
            assert(before + symbol.stops@.take(0) =~= before);
            assert(so_far + stop_faults(before, symbol.stops@, 0, symbol.symbol@, next, trader_ids@) =~= so_far);
        }
        while j < symbol.stops.len()
            invariant
                j <= symbol.stops.len(),
                traders.wf(),
                forall|id: u64| #[trigger] traders.map().contains_key(id) == trader_ids@.contains(id),
                seen.wf(),
                stop_ids(before + symbol.stops@.take(j as int), next, seen.map()),
                views(issues@) == so_far + stop_faults(
                    before,
                    symbol.stops@,
                    j as int,
                    symbol.symbol@,
                    next,
                    trader_ids@,
                ),
            decreases symbol.stops.len() - j,
        {
            let ghost now = views(issues@);
            let ghost earlier = before + symbol.stops@.take(j as int);
            check_stop(
                &symbol.stops[j],
                symbol.symbol.as_str(),
                next,
                &traders,
                &mut seen,
                issues,
                Ghost(earlier),
                Ghost(trader_ids@),
            );
            proof {
                let stop = symbol.stops@[j as int];
                assert(earlier.push(stop) =~= before + symbol.stops@.take(j as int + 1));
                let upto = stop_faults(before, symbol.stops@, j as int, symbol.symbol@, next, trader_ids@);
                let one = stop_fault(earlier, stop, symbol.symbol@, next, trader_ids@);
                assert(so_far + upto + one =~= so_far + (upto + one));
            }
            j = j + 1;
        }
        proof {
            assert(symbol.stops@.take(symbol.stops@.len() as int) =~= symbol.stops@);
            let upto = all_stop_faults(symbols@, i as int, next, trader_ids@);
            let here = stop_faults(
                before,
                symbol.stops@,
                symbol.stops@.len() as int,
                symbol.symbol@,
                next,
                trader_ids@,
            );
            assert(start + upto + here =~= start + (upto + here));
        }
        i = i + 1;
    }
}

/// The numbers of a list, each once.
fn set_of(numbers: &Vec<u64>) -> (set: Table<u64, ()>)
    ensures
        set.wf(),
        forall|n: u64| #[trigger] set.map().contains_key(n) == numbers@.contains(n),
{
    let mut set: Table<u64, ()> = Table::new();
    let mut i: usize = 0;
    while i < numbers.len()
        invariant
            i <= numbers.len(),
            set.wf(),
            forall|n: u64| #[trigger] set.map().contains_key(n) == numbers@.take(i as int).contains(n),
        decreases numbers.len() - i,
    {
        let ghost before = set.map();
        set.insert(numbers[i], ());
        proof {
            let shorter = numbers@.take(i as int);
            let longer = numbers@.take(i as int + 1);
            assert(longer =~= shorter.push(numbers@[i as int]));
            assert forall|n: u64| #[trigger] set.map().contains_key(n) == longer.contains(n) by {
                assert(before.contains_key(n) == shorter.contains(n));
                if shorter.contains(n) {
                    let j = choose|j: int| 0 <= j < shorter.len() && shorter[j] == n;
                    assert(longer[j] == n);
                }
                if longer.contains(n) && n != numbers@[i as int] {
                    let j = choose|j: int| 0 <= j < longer.len() && longer[j] == n;
                    assert(shorter[j] == n);
                }
                assert(longer[i as int] == numbers@[i as int]);
            }
        }
        i = i + 1;
    }
    proof {
        assert(numbers@.take(numbers@.len() as int) =~= numbers@);
    }
    set
}

// ---------------------------------------------------------------------------
// API keys

/// A digest as the keyring writes it: `sha256:` and 64 lower-case hex digits.
pub open spec fn is_digest(digest: Seq<char>) -> bool {
    digest.len() == 71 && digest.subrange(0, 7) == "sha256:"@ && forall|i: int|
        7 <= i < digest.len() ==> is_lower_hex(#[trigger] digest[i])
}

/// A lower-case hex digit.
pub open spec fn is_lower_hex(c: char) -> bool {
    '0' <= c <= '9' || 'a' <= c <= 'f'
}

fn well_formed_digest(digest: &str) -> (r: bool)
    ensures
        r == is_digest(digest@),
{
    let chars = chars_of(digest);
    if chars.len() != 71 {
        return false;
    }
    let prefix = text_between(&chars, 0, 7);
    if !same_text(prefix.as_str(), "sha256:") {
        return false;
    }
    let mut i: usize = 7;
    while i < chars.len()
        invariant
            7 <= i <= chars.len(),
            chars@ == digest@,
            forall|j: int| 7 <= j < i ==> is_lower_hex(#[trigger] digest@[j]),
        decreases chars.len() - i,
    {
        let c = chars[i];
        let hex: bool = ('0' <= c && c <= '9') || ('a' <= c && c <= 'f');
        if !hex {
            assert(!is_lower_hex(digest@[i as int]));
            return false;
        }
        i = i + 1;
    }
    true
}

/// One of the first `n` keys belongs to this user.
pub open spec fn has_key(keys: Seq<(String, u64)>, n: int, user: u64) -> bool {
    exists|j: int| 0 <= j < n && (#[trigger] keys[j]).1 == user
}

/// The key at a place is the first of a user there is.
pub open spec fn first_key(keys: Seq<(String, u64)>, users: Seq<u64>, next: u64, i: int) -> bool {
    good_id(users, next, keys[i].1) && !has_key(keys, i, keys[i].1)
}

/// The first key of some user, among the first `n`, has this digest.
pub open spec fn digest_taken(keys: Seq<(String, u64)>, users: Seq<u64>, next: u64, n: int, digest: Seq<char>) -> bool {
    exists|j: int| 0 <= j < n && (#[trigger] keys[j]).0@ == digest && first_key(keys, users, next, j)
}

/// What is wrong with the key at a place: its user is there and has no other,
/// its digest is nobody else's, and it is a digest.
pub open spec fn key_fault(keys: Seq<(String, u64)>, users: Seq<u64>, next: u64, i: int) -> Seq<Seq<char>> {
    listed(
        !first_key(keys, users, next, i) || digest_taken(keys, users, next, i, keys[i].0@),
        "API key ownership is missing or duplicated"@,
    ) + listed(!is_digest(keys[i].0@), "API key digest has an invalid format"@)
}

/// What is wrong with the first `n` keys.
pub open spec fn key_faults(keys: Seq<(String, u64)>, users: Seq<u64>, next: u64, n: int) -> Seq<Seq<char>>
    decreases n,
{
    if n <= 0 {
        Seq::empty()
    } else {
        key_faults(keys, users, next, n - 1) + key_fault(keys, users, next, n - 1)
    }
}

/// A user with no key whom the world does not run itself: nothing can reach
/// them.
pub open spec fn unreachable_user(keys: Seq<(String, u64)>, users: Seq<u64>, next: u64, npcs: Seq<u64>, user: u64) -> bool {
    good_id(users, next, user) && !has_key(keys, keys.len() as int, user) && !npcs.contains(user)
}

/// Check who can sign in.
fn check_keys(
    keys: &Vec<(String, u64)>,
    users: &Table<u64, ()>,
    npcs: &Vec<u64>,
    issues: &mut Vec<String>,
    Ghost(ids): Ghost<Seq<u64>>,
    Ghost(next): Ghost<u64>,
)
    requires
        users.wf(),
        forall|id: u64| #[trigger] users.map().contains_key(id) == good_id(ids, next, id),
    ensures
        views(final(issues)@) == views(old(issues)@) + key_faults(keys@, ids, next, keys@.len() as int) + listed(
            exists|user: u64| unreachable_user(keys@, ids, next, npcs@, user),
            "every user must have exactly one API key digest, or be an NPC's"@,
        ),
{
    let ghost start = views(issues@);
    let mut keyed: Table<u64, ()> = Table::new();
    let mut digests: Table<String, ()> = Table::new();
    let mut i: usize = 0;
    proof {
        assert(start + key_faults(keys@, ids, next, 0) =~= start);
    }
    while i < keys.len()
        invariant
            i <= keys.len(),
            users.wf(),
            forall|id: u64| #[trigger] users.map().contains_key(id) == good_id(ids, next, id),
            keyed.wf(),
            forall|id: u64| #[trigger]
                keyed.map().contains_key(id) == (good_id(ids, next, id) && has_key(keys@, i as int, id)),
            digests.wf(),
            forall|digest: Seq<char>| #[trigger]
                digests.map().contains_key(digest) == digest_taken(keys@, ids, next, i as int, digest),
            views(issues@) == start + key_faults(keys@, ids, next, i as int),
        decreases keys.len() - i,
    {
        let user: u64 = keys[i].1;
        let digest = keys[i].0.as_str();
        let ghost taken = digests.map();
        let ghost had = keyed.map();
        let fresh: bool = users.contains_key(&user) && !keyed.contains_key(&user);
        assert(fresh == first_key(keys@, ids, next, i as int)) by {
            assert(users.map().contains_key(user) == good_id(ids, next, user));
            assert(keyed.map().contains_key(user) == (good_id(ids, next, user) && has_key(keys@, i as int, user)));
        }
        let mut wrong: bool = !fresh;
        if fresh {
            keyed.insert(user, ());
            let copy = digest.to_owned();
            wrong = digests.contains_key(&copy);
            if !wrong {
                digests.insert(copy, ());
            }
        }
        if wrong {
            push_issue(issues, "API key ownership is missing or duplicated".to_owned());
        }
        if !well_formed_digest(digest) {
            push_issue(issues, "API key digest has an invalid format".to_owned());
        }
        proof {
            assert(taken.contains_key(digest@) == digest_taken(keys@, ids, next, i as int, digest@));
            assert(views(issues@) =~= start + key_faults(keys@, ids, next, i as int + 1));
            assert forall|id: u64| #[trigger] keyed.map().contains_key(id) == (good_id(ids, next, id) && has_key(
                keys@,
                i as int + 1,
                id,
            )) by {
                lemma_one_more_key(keys@, i as int, id);
                assert(had.contains_key(id) == (good_id(ids, next, id) && has_key(keys@, i as int, id)));
            }
            assert forall|text: Seq<char>| #[trigger] digests.map().contains_key(text) == digest_taken(
                keys@,
                ids,
                next,
                i as int + 1,
                text,
            ) by {
                lemma_one_more_digest(keys@, ids, next, i as int, text);
                assert(taken.contains_key(text) == digest_taken(keys@, ids, next, i as int, text));
            }
        }
        i = i + 1;
    }
    let house = set_of(npcs);
    let ghost all = views(issues@);
    let n: usize = users.len();
    let mut stranded: bool = false;
    let mut j: usize = 0;
    while j < n
        invariant
            j <= n,
            n == users.keys().len(),
            users.wf(),
            keyed.wf(),
            house.wf(),
            forall|id: u64| #[trigger] users.map().contains_key(id) == good_id(ids, next, id),
            forall|id: u64| #[trigger]
                keyed.map().contains_key(id) == (good_id(ids, next, id) && has_key(keys@, keys@.len() as int, id)),
            forall|id: u64| #[trigger] house.map().contains_key(id) == npcs@.contains(id),
            stranded == exists|k: int|
                0 <= k < j && unreachable_user(keys@, ids, next, npcs@, #[trigger] users.keys()[k]),
        decreases n - j,
    {
        let user: u64 = *users.key_at(j);
        let lost: bool = !keyed.contains_key(&user) && !house.contains_key(&user);
        proof {
            users.lemma_at(j as int);
            assert(users.map().contains_key(user));
            assert(keyed.map().contains_key(user) == (good_id(ids, next, user) && has_key(
                keys@,
                keys@.len() as int,
                user,
            )));
            assert(house.map().contains_key(user) == npcs@.contains(user));
            assert(lost == unreachable_user(keys@, ids, next, npcs@, users.keys()[j as int]));
        }
        if lost {
            stranded = true;
        }
        j = j + 1;
    }
    if stranded {
        push_issue(issues, "every user must have exactly one API key digest, or be an NPC's".to_owned());
    }
    proof {
        if exists|user: u64| unreachable_user(keys@, ids, next, npcs@, user) {
            let user = choose|user: u64| unreachable_user(keys@, ids, next, npcs@, user);
            assert(users.map().contains_key(user));
            users.lemma_placed(user);
            assert(unreachable_user(keys@, ids, next, npcs@, users.keys()[users.place(user)]));
            assert(stranded);
        }
        assert(views(issues@) =~= all + listed(stranded, "every user must have exactly one API key digest, or be an NPC's"@));
    }
}

/// One more key is one more user.
proof fn lemma_one_more_key(keys: Seq<(String, u64)>, i: int, user: u64)
    requires
        0 <= i < keys.len(),
    ensures
        has_key(keys, i + 1, user) == (has_key(keys, i, user) || keys[i].1 == user),
{
    if has_key(keys, i + 1, user) && keys[i].1 != user {
        let j = choose|j: int| 0 <= j < i + 1 && (#[trigger] keys[j]).1 == user;
        assert(0 <= j < i && keys[j].1 == user);
    }
    if has_key(keys, i, user) {
        let j = choose|j: int| 0 <= j < i && (#[trigger] keys[j]).1 == user;
        assert(0 <= j < i + 1 && keys[j].1 == user);
    }
}

/// One more first key is one more digest.
proof fn lemma_one_more_digest(keys: Seq<(String, u64)>, users: Seq<u64>, next: u64, i: int, digest: Seq<char>)
    requires
        0 <= i < keys.len(),
    ensures
        digest_taken(keys, users, next, i + 1, digest) == (digest_taken(keys, users, next, i, digest) || (first_key(
            keys,
            users,
            next,
            i,
        ) && keys[i].0@ == digest)),
{
    if digest_taken(keys, users, next, i, digest) {
        let j = choose|j: int|
            0 <= j < i && (#[trigger] keys[j]).0@ == digest && first_key(keys, users, next, j);
        assert(keys[j].0@ == digest);
    }
}

// ---------------------------------------------------------------------------
// The whole file

/// The ids of events.
pub open spec fn event_ids(events: Seq<EventRecord>) -> Seq<u64> {
    events.map_values(|e: EventRecord| e.id)
}

fn ids_of_events(events: &Vec<EventRecord>) -> (ids: Vec<u64>)
    ensures
        ids@ == event_ids(events@),
{
    let mut ids: Vec<u64> = Vec::new();
    let mut i: usize = 0;
    while i < events.len()
        invariant
            i <= events.len(),
            ids@.len() == i,
            forall|j: int| 0 <= j < i ==> ids@[j] == (#[trigger] events@[j]).id,
        decreases events.len() - i,
    {
        ids.push(events[i].id);
        i = i + 1;
    }
    proof {
        assert(ids@ =~= event_ids(events@));
    }
    ids
}

/// Everything wrong with who and what a save names: its symbol table, the ids
/// it hands out, its stops and its keys.
pub open spec fn identity_faults(save: &Save) -> Seq<Seq<char>> {
    let market = &save.market;
    let users = user_ids(market.users@);
    let keys = market.api_keys@;
    listing_faults(save.symbols@, save.symbols@.len() as int) + ids_checked("user"@, users, market.next_user_id)
        + ids_checked("account"@, account_ids(market.accounts@), market.next_account_id) + ids_checked(
        "trader"@,
        trader_ids(market.traders@),
        market.next_trader_id,
    ) + ids_checked("event"@, event_ids(market.events@), market.next_event_id) + listed(
        spent(market.next_stop_id),
        "stop id counter is invalid or exhausted"@,
    ) + all_stop_faults(
        save.symbols@,
        save.symbols@.len() as int,
        market.next_stop_id,
        trader_ids(market.traders@),
    ) + key_faults(keys, users, market.next_user_id, keys.len() as int) + listed(
        exists|user: u64| unreachable_user(keys, users, market.next_user_id, market.npc_users@, user),
        "every user must have exactly one API key digest, or be an NPC's"@,
    )
}

/// What a file is refused for: everything wrong with its identities, or with
/// none of that, everything that does not reconcile.
pub open spec fn refused_for(save: &Save) -> Seq<Seq<char>> {
    if identity_faults(save).len() > 0 {
        identity_faults(save)
    } else {
        save_faults(save)
    }
}

/// Validate before tables can silently discard duplicate identities on
/// restore.
pub fn validate_accounting(save: &Save) -> (r: Result<(), SaveError>)
    requires
        readable(save),
    ensures
        match r {
            Ok(()) => refused_for(save).len() == 0,
            Err(SaveError::Invalid(issues)) => issues@.len() > 0 && views(issues@) == refused_for(save),
            Err(_) => false,
        },
{
    let market = &save.market;
    let mut issues: Vec<String> = Vec::new();
    check_listings(&save.symbols, &mut issues);
    let users = check_ids("user", &ids_of_users(&market.users), market.next_user_id, &mut issues);
    check_ids("account", &ids_of_accounts(&market.accounts), market.next_account_id, &mut issues);
    let traders = ids_of_traders(&market.traders);
    check_ids("trader", &traders, market.next_trader_id, &mut issues);
    check_ids("event", &ids_of_events(&market.events), market.next_event_id, &mut issues);
    if market.next_stop_id == 0 || market.next_stop_id == u64::MAX {
        push_issue(&mut issues, "stop id counter is invalid or exhausted".to_owned());
    }
    check_stops(&save.symbols, market.next_stop_id, &traders, &mut issues);
    check_keys(
        &market.api_keys,
        &users,
        &market.npc_users,
        &mut issues,
        Ghost(user_ids(market.users@)),
        Ghost(market.next_user_id),
    );
    proof {
        assert(views(issues@) =~= identity_faults(save));
    }
    if issues.len() > 0 {
        return Err(SaveError::Invalid(issues));
    }
    let report = reconcile(save);
    if report.valid {
        Ok(())
    } else {
        Err(SaveError::Invalid(report.issues))
    }
}

/// Numbers pass where each is its own, above zero and below the next one, and
/// the next one can still be given out; otherwise something is said of them.
pub proof fn law_numbers_pass_where_they_are_sound(name: Seq<char>, ids: Seq<u64>, next: u64)
    ensures
        ids_checked(name, ids, next).len() == 0 <==> {
            &&& 0 < next < u64::MAX
            &&& ids.no_duplicates()
            &&& forall|i: int| 0 <= i < ids.len() ==> 0 < #[trigger] ids[i] < next
        },
{
    lemma_id_faults(name, ids, next, ids.len() as int);
    if ids.no_duplicates() {
        assert forall|i: int| 0 <= i < ids.len() implies !#[trigger] ids.take(i).contains(ids[i]) by {
            if ids.take(i).contains(ids[i]) {
                let j = choose|j: int| 0 <= j < i && ids.take(i)[j] == ids[i];
                assert(ids[j] == ids[i]);
            }
        }
    }
    if forall|i: int| 0 <= i < ids.len() ==> !id_fault(ids, next, i) {
        assert forall|i: int, j: int| 0 <= i < ids.len() && 0 <= j < ids.len() && i != j implies ids[i] != ids[j] by {
            let (a, b) = if i < j { (i, j) } else { (j, i) };
            assert(!id_fault(ids, next, b));
            if ids[a] == ids[b] {
                assert(ids.take(b)[a] == ids[b]);
            }
        }
        assert forall|i: int| 0 <= i < ids.len() implies 0 < #[trigger] ids[i] < next by {
            assert(!id_fault(ids, next, i));
        }
    }
}

proof fn lemma_id_faults(name: Seq<char>, ids: Seq<u64>, next: u64, n: int)
    requires
        0 <= n <= ids.len(),
    ensures
        id_faults(name, ids, next, n).len() == 0 <==> forall|i: int| 0 <= i < n ==> !id_fault(ids, next, i),
    decreases n,
{
    if n > 0 {
        lemma_id_faults(name, ids, next, n - 1);
    }
}

/// A stop passes where it has a number of its own, a trader that is there, the
/// symbol it is filed under, and a size and prices above zero.
pub proof fn law_a_stop_passes_where_it_is_sound(
    before: Seq<StopOrder>,
    stop: StopOrder,
    symbol: Seq<char>,
    next: u64,
    traders: Seq<u64>,
)
    ensures
        stop_fault(before, stop, symbol, next, traders).len() == 0 <==> {
            &&& 0 < stop.stop_id < next
            &&& forall|j: int| 0 <= j < before.len() ==> (#[trigger] before[j]).stop_id != stop.stop_id
            &&& traders.contains(stop.trader_id)
            &&& stop.symbol@ == symbol
            &&& stop.qty > 0 && stop.stop_price_cents > 0
            &&& stop.limit_price_cents matches Some(p) ==> p > 0
        },
{
}

/// A listing passes where it names itself, nothing is wrong with its book, and
/// no listing before it has its name.
pub proof fn law_a_listing_passes_where_it_is_sound(symbols: Seq<SymbolSave>, i: int)
    requires
        0 <= i < symbols.len(),
    ensures
        listing_fault(symbols, i).len() == 0 <==> {
            &&& symbols[i].book_fault is None
            &&& symbols[i].info is Some
            &&& (symbols[i].info->0).symbol@ == symbols[i].symbol@
            &&& forall|j: int|
                0 <= j < i && (#[trigger] symbols[j]).info is Some ==> (symbols[j].info->0).symbol@ != (
                symbols[i].info->0).symbol@
        },
{
    if symbols[i].info is Some {
        let name = (symbols[i].info->0).symbol@;
        if listed_before(symbols, i, name) {
            let j = choose|j: int| 0 <= j < i && is_listing_of(#[trigger] symbols[j], name);
            assert(symbols[j].info is Some && (symbols[j].info->0).symbol@ == name);
        } else {
            assert forall|j: int| 0 <= j < i && (#[trigger] symbols[j]).info is Some implies (
            symbols[j].info->0).symbol@ != name by {
                assert(!is_listing_of(symbols[j], name));
            }
        }
    }
}

/// A key's digest has the form of one: what is kept of a key that was hashed
/// always does.
pub proof fn law_a_hashed_key_has_the_form_of_one(bytes: Seq<u8>)
    requires
        bytes.len() == 32,
    ensures
        is_digest("sha256:"@ + crate::text::hex(bytes)),
{
    reveal_strlit("sha256:");
    crate::text::law_bytes_in_hex_can_be_told_apart(bytes, bytes);
    let digest = "sha256:"@ + crate::text::hex(bytes);
    assert(digest.subrange(0, 7) =~= "sha256:"@);
    assert forall|i: int| 7 <= i < digest.len() implies is_lower_hex(#[trigger] digest[i]) by {
        assert(digest[i] == crate::text::hex(bytes)[i - 7]);
    }
}

/// Keys pass where each has the form of a digest, belongs to a user that is
/// there, and no user and no digest comes twice.
pub proof fn law_keys_pass_where_they_are_sound(keys: Seq<(String, u64)>, users: Seq<u64>, next: u64, n: int)
    requires
        0 <= n <= keys.len(),
    ensures
        key_faults(keys, users, next, n).len() == 0 <==> {
            &&& forall|i: int|
                0 <= i < n ==> is_digest((#[trigger] keys[i]).0@) && users.contains(keys[i].1) && 0 < keys[i].1 < next
            &&& forall|i: int, j: int|
                0 <= i < j < n ==> (#[trigger] keys[i]).1 != (#[trigger] keys[j]).1 && keys[i].0@ != keys[j].0@
        },
    decreases n,
{
    if n > 0 {
        law_keys_pass_where_they_are_sound(keys, users, next, n - 1);
        let last = n - 1;
        if key_faults(keys, users, next, n).len() == 0 {
            assert forall|i: int, j: int| 0 <= i < j < n implies (#[trigger] keys[i]).1 != (#[trigger] keys[j]).1
                && keys[i].0@ != keys[j].0@ by {
                if j == last {
                    if keys[i].1 == keys[j].1 {
                        assert(has_key(keys, last, keys[last].1));
                    }
                    if keys[i].0@ == keys[j].0@ {
                        lemma_first_of_its_user(keys, users, next, last, i);
                        assert(digest_taken(keys, users, next, last, keys[last].0@));
                    }
                }
            }
        }
        if (forall|i: int|
            0 <= i < n ==> is_digest((#[trigger] keys[i]).0@) && users.contains(keys[i].1) && 0 < keys[i].1 < next) && (
        forall|i: int, j: int|
            0 <= i < j < n ==> (#[trigger] keys[i]).1 != (#[trigger] keys[j]).1 && keys[i].0@ != keys[j].0@) {
            assert(!has_key(keys, last, keys[last].1));
            assert(!digest_taken(keys, users, next, last, keys[last].0@));
            assert(is_digest(keys[last].0@));
        }
    }
}

proof fn lemma_first_of_its_user(keys: Seq<(String, u64)>, users: Seq<u64>, next: u64, n: int, i: int)
    requires
        0 <= i < n <= keys.len(),
        forall|k: int| 0 <= k < n ==> users.contains((#[trigger] keys[k]).1) && 0 < keys[k].1 < next,
        forall|k: int, l: int| 0 <= k < l < n ==> (#[trigger] keys[k]).1 != (#[trigger] keys[l]).1,
    ensures
        first_key(keys, users, next, i),
{
    assert(users.contains(keys[i].1));
    assert(!has_key(keys, i, keys[i].1));
}

/// A save that is taken is sound: every user, account, trader and event has a
/// number of its own below the next one, every listing names itself once, and
/// every user can be reached by a key unless nobody needs to.
pub proof fn law_a_save_that_is_taken_is_sound(save: Save, r: Result<(), SaveError>, user: u64, i: int)
    requires
        readable(&save),
        call_ensures(validate_accounting, (&save,), r),
        r is Ok,
    ensures
        user_ids(save.market.users@).no_duplicates(),
        account_ids(save.market.accounts@).no_duplicates(),
        trader_ids(save.market.traders@).no_duplicates(),
        event_ids(save.market.events@).no_duplicates(),
        0 < save.market.next_stop_id < u64::MAX,
        0 < save.market.next_user_id < u64::MAX,
        0 < save.market.next_account_id < u64::MAX,
        0 < save.market.next_trader_id < u64::MAX,
        0 <= i < save.market.users@.len() ==> 0 < save.market.users@[i].id.0 < save.market.next_user_id,
        0 <= i < save.market.accounts@.len() ==> 0 < save.market.accounts@[i].id.0 < save.market.next_account_id,
        0 <= i < save.market.traders@.len() ==> 0 < save.market.traders@[i].id.0 < save.market.next_trader_id,
        0 <= i < save.symbols@.len() ==> save.symbols@[i].info is Some && (save.symbols@[i].info->0).symbol@
            == save.symbols@[i].symbol@ && save.symbols@[i].book_fault is None,
        0 <= i < save.market.api_keys@.len() ==> is_digest(save.market.api_keys@[i].0@) && user_ids(
            save.market.users@,
        ).contains(save.market.api_keys@[i].1),
        user_ids(save.market.users@).contains(user) && !save.market.npc_users@.contains(user) ==> exists|k: int|
            0 <= k < save.market.api_keys@.len() && (#[trigger] save.market.api_keys@[k]).1 == user,
        save_faults(&save).len() == 0,
{
    let market = save.market;
    let users = user_ids(market.users@);
    law_numbers_pass_where_they_are_sound("user"@, users, market.next_user_id);
    law_numbers_pass_where_they_are_sound("account"@, account_ids(market.accounts@), market.next_account_id);
    law_numbers_pass_where_they_are_sound("trader"@, trader_ids(market.traders@), market.next_trader_id);
    law_numbers_pass_where_they_are_sound("event"@, event_ids(market.events@), market.next_event_id);
    law_keys_pass_where_they_are_sound(market.api_keys@, users, market.next_user_id, market.api_keys@.len() as int);
    if 0 <= i < market.users@.len() {
        assert(users[i] == market.users@[i].id.0);
    }
    if 0 <= i < market.accounts@.len() {
        assert(account_ids(market.accounts@)[i] == market.accounts@[i].id.0);
    }
    if 0 <= i < market.traders@.len() {
        assert(trader_ids(market.traders@)[i] == market.traders@[i].id.0);
    }
    if 0 <= i < save.symbols@.len() {
        lemma_no_listing_fault(save.symbols@, save.symbols@.len() as int, i);
        law_a_listing_passes_where_it_is_sound(save.symbols@, i);
    }
    if users.contains(user) && !market.npc_users@.contains(user) {
        let k = choose|k: int| 0 <= k < users.len() && users[k] == user;
        assert(0 < users[k] < market.next_user_id);
        assert(!unreachable_user(market.api_keys@, users, market.next_user_id, market.npc_users@, user));
        assert(has_key(market.api_keys@, market.api_keys@.len() as int, user));
    }
}

proof fn lemma_no_listing_fault(symbols: Seq<SymbolSave>, n: int, i: int)
    requires
        0 <= i < n <= symbols.len(),
        listing_faults(symbols, n).len() == 0,
    ensures
        listing_fault(symbols, i).len() == 0,
    decreases n,
{
    if i < n - 1 {
        lemma_no_listing_fault(symbols, n - 1, i);
    }
}

/// Every stop of a save that is taken is sound.
pub proof fn law_the_stops_of_a_save_are_sound(save: Save, r: Result<(), SaveError>, s: int, i: int)
    requires
        readable(&save),
        call_ensures(validate_accounting, (&save,), r),
        r is Ok,
        0 <= s < save.symbols@.len(),
        0 <= i < save.symbols@[s].stops@.len(),
    ensures
        ({
            let stop = save.symbols@[s].stops@[i];
            &&& 0 < stop.stop_id < save.market.next_stop_id
            &&& trader_ids(save.market.traders@).contains(stop.trader_id)
            &&& stop.symbol@ == save.symbols@[s].symbol@
            &&& stop.qty > 0 && stop.stop_price_cents > 0
            &&& stop.limit_price_cents matches Some(p) ==> p > 0
        }),
{
    let next = save.market.next_stop_id;
    let traders = trader_ids(save.market.traders@);
    let symbols = save.symbols@;
    lemma_no_stop_faults(symbols, symbols.len() as int, s, next, traders);
    let before = stops_before(symbols, s);
    let stops = symbols[s].stops@;
    lemma_no_stop_fault(before, stops, stops.len() as int, i, symbols[s].symbol@, next, traders);
    law_a_stop_passes_where_it_is_sound(before + stops.take(i), stops[i], symbols[s].symbol@, next, traders);
}

proof fn lemma_no_stop_faults(symbols: Seq<SymbolSave>, n: int, s: int, next: u64, traders: Seq<u64>)
    requires
        0 <= s < n <= symbols.len(),
        all_stop_faults(symbols, n, next, traders).len() == 0,
    ensures
        stop_faults(
            stops_before(symbols, s),
            symbols[s].stops@,
            symbols[s].stops@.len() as int,
            symbols[s].symbol@,
            next,
            traders,
        ).len() == 0,
    decreases n,
{
    if s < n - 1 {
        lemma_no_stop_faults(symbols, n - 1, s, next, traders);
    }
}

proof fn lemma_no_stop_fault(
    before: Seq<StopOrder>,
    stops: Seq<StopOrder>,
    n: int,
    i: int,
    symbol: Seq<char>,
    next: u64,
    traders: Seq<u64>,
)
    requires
        0 <= i < n <= stops.len(),
        stop_faults(before, stops, n, symbol, next, traders).len() == 0,
    ensures
        stop_fault(before + stops.take(i), stops[i], symbol, next, traders).len() == 0,
    decreases n,
{
    if i < n - 1 {
        lemma_no_stop_fault(before, stops, n - 1, i, symbol, next, traders);
    }
}

/// A save is read by the version that wrote it and by no other.
pub proof fn law_a_save_is_read_by_its_version(found: u32, r: Result<(), SaveError>)
    requires
        call_ensures(check_version, (found,), r),
    ensures
        r is Ok <==> found == 9,
{
}

} // verus!
