//! The command journal: what was asked for, in the order it was granted.
//!
//! A snapshot is written every so often; everything that happens between two
//! snapshots would be lost when the process stops without one. The journal
//! closes that gap by writing down the *commands* rather than the state they
//! produced: one line for each, after a line that says where it starts.
//!
//! A command that carried an idempotency key and has been seen before with
//! the same payload is answered with the recorded response, and nothing is
//! applied; the same key over a different payload is a conflict. A command
//! that was refused changed nothing and is not written down. Once a line
//! cannot be written, the market is ahead of the disk, and every later
//! command is refused.

use std::collections::VecDeque;

use vstd::prelude::*;

use crate::account::{newest, views, AccountStatus, UserId};
use crate::api::ApiError;
use crate::auth::{digest_of, digest_text};
use crate::events::{GameEventKind, Real, SimEvent};
use crate::num::{max_int, max_u64};
use crate::table::Table;
use crate::text::{
    chars_of, decimal, first_of, opt_text, push_u64, quoted_text, same_text, split_at_first, text_between, trim, trimmed,
};
use crate::trading::{AmendRequest, OrderRequest, StopRequest};

verus! {

/// Format of the journal file. A file written by another version is refused
/// rather than half-understood.
pub const JOURNAL_VERSION: u32 = 1;

/// What a payload digest starts from, so that it is never a digest of
/// anything else.
pub const COMMAND_DOMAIN: &'static str = "fehu-command-v1\0";

/// Who asked for a command.
///
/// Resolved from the credential on the request, never from its body, and
/// written down so that a replayed command is applied under the same
/// authority it was accepted under.
#[derive(Clone, Copy, Debug, PartialEq, Eq, Structural)]
pub enum Principal {
    /// A player, proved by their API key.
    User { id: u64 },
    /// The operator, proved by the admin key (or by there being none).
    Operator,
    /// Nobody: a route that needs no credential, such as signing up.
    Anonymous,
    /// The engine loop. Only ever [`Command::Step`].
    Engine,
}

impl Principal {
    /// The user this speaks for, if it speaks for one.
    pub fn user(self) -> (r: Option<UserId>)
        ensures
            r == (match self {
                Principal::User { id } => Some(UserId(id)),
                _ => None,
            }),
    {
        match self {
            Principal::User { id } => Some(UserId(id)),
            _ => None,
        }
    }
}

/// A listing, as the journal keeps it: the cleaned request, with the seed
/// resolved so that replay builds the same company.
#[derive(Debug)]
pub struct Listing {
    pub symbol: String,
    pub name: String,
    pub sector: String,
    pub description: String,
    pub shares_outstanding: u64,
    pub seed: u64,
    pub start_price_cents: i64,
    pub drift: Real,
    pub volatility: Real,
    pub history_days: usize,
    pub source: String,
    pub note: Option<String>,
}

/// Everything that changes the market, as one enum.
///
/// Each variant is what a route accepted once it had been authorised,
/// validated and cleaned, so the journal holds canonical values.
#[derive(Debug)]
pub enum Command {
    /// Register a user and install the API key digest generated for them.
    /// The key itself is never journaled.
    CreateUser { name: Option<String>, email: Option<String>, key_digest: String },
    /// Open another account for a user and fund it from the faucet.
    OpenAccount { user_id: u64, name: Option<String>, cash_cents: i64 },
    /// The one-call sign-up, or a trader on an existing user or account.
    CreateTrader {
        caller: Option<u64>,
        user_id: Option<u64>,
        account_id: Option<u64>,
        name: Option<String>,
        email: Option<String>,
        cash_cents: i64,
        /// Set when a user is created alongside the trader.
        key_digest: Option<String>,
    },
    /// Operator: create currency into an account.
    Mint { account_id: u64, amount_cents: i64, memo: Option<String> },
    /// Operator: destroy currency out of an account.
    Burn { account_id: u64, amount_cents: i64, memo: Option<String> },
    /// Operator: [`Command::Mint`] addressed by trader instead of account.
    MintToTrader { trader_id: u64, amount_cents: i64, memo: Option<String> },
    /// Freeze or unfreeze (operator), or close (owner).
    SetAccountStatus {
        account_id: u64,
        status: AccountStatus,
        /// The owner closing their own account; `None` for an operator.
        owner: Option<u64>,
    },
    PlaceOrder { symbol: String, order: OrderRequest },
    AmendOrder { symbol: String, order_id: u64, amend: AmendRequest },
    CancelOrder { symbol: String, trader_id: u64, order_id: u64 },
    CancelAll { trader_id: u64 },
    PlaceStop { symbol: String, stop: StopRequest },
    CancelStop { symbol: String, trader_id: u64, stop_id: u64 },
    ListSymbol { listing: Listing },
    Delist { symbol: String, cents_per_share: Option<i64>, source: String, note: Option<String> },
    Dividend { symbol: String, cents_per_share: i64, source: String, note: Option<String> },
    Halt { symbol: String },
    Resume { symbol: String },
    /// A raw simulator event pushed at one symbol.
    SimEvent { symbol: String, event: SimEvent, source: String, note: Option<String> },
    /// A game event from the catalogue, at one symbol or at all of them.
    GameEvent {
        kind: GameEventKind,
        magnitude: Real,
        symbol: Option<String>,
        source: String,
        note: Option<String>,
    },
    /// The engine tick: advance every symbol to the entry's instant.
    Step,
}

impl Command {
    /// A short name for the command.
    pub open spec fn called(self) -> Seq<char> {
        match self {
            Command::CreateUser { .. } => "create_user"@,
            Command::OpenAccount { .. } => "open_account"@,
            Command::CreateTrader { .. } => "create_trader"@,
            Command::Mint { .. } => "mint"@,
            Command::Burn { .. } => "burn"@,
            Command::MintToTrader { .. } => "mint_to_trader"@,
            Command::SetAccountStatus { .. } => "set_account_status"@,
            Command::PlaceOrder { .. } => "place_order"@,
            Command::AmendOrder { .. } => "amend_order"@,
            Command::CancelOrder { .. } => "cancel_order"@,
            Command::CancelAll { .. } => "cancel_all"@,
            Command::PlaceStop { .. } => "place_stop"@,
            Command::CancelStop { .. } => "cancel_stop"@,
            Command::ListSymbol { .. } => "list_symbol"@,
            Command::Delist { .. } => "delist"@,
            Command::Dividend { .. } => "dividend"@,
            Command::Halt { .. } => "halt"@,
            Command::Resume { .. } => "resume"@,
            Command::SimEvent { .. } => "sim_event"@,
            Command::GameEvent { .. } => "game_event"@,
            Command::Step => "step"@,
        }
    }

    /// A short name for logs.
    pub fn kind(&self) -> (name: &'static str)
        ensures
            name@ == self.called(),
    {
        match self {
            Command::CreateUser { .. } => "create_user",
            Command::OpenAccount { .. } => "open_account",
            Command::CreateTrader { .. } => "create_trader",
            Command::Mint { .. } => "mint",
            Command::Burn { .. } => "burn",
            Command::MintToTrader { .. } => "mint_to_trader",
            Command::SetAccountStatus { .. } => "set_account_status",
            Command::PlaceOrder { .. } => "place_order",
            Command::AmendOrder { .. } => "amend_order",
            Command::CancelOrder { .. } => "cancel_order",
            Command::CancelAll { .. } => "cancel_all",
            Command::PlaceStop { .. } => "place_stop",
            Command::CancelStop { .. } => "cancel_stop",
            Command::ListSymbol { .. } => "list_symbol",
            Command::Delist { .. } => "delist",
            Command::Dividend { .. } => "dividend",
            Command::Halt { .. } => "halt",
            Command::Resume { .. } => "resume",
            Command::SimEvent { .. } => "sim_event",
            Command::GameEvent { .. } => "game_event",
            Command::Step => "step",
        }
    }

    /// `asked` is this command with everything the server chose for it
    /// blanked: what two deliveries of one request have in common.
    pub open spec fn asks(self, asked: Command) -> bool {
        match self {
            Command::CreateUser { name, email, .. } => asked matches Command::CreateUser {
                name: n,
                email: e,
                key_digest,
            } && n == name && e == email && key_digest@ == ""@,
            Command::CreateTrader { caller, user_id, account_id, name, email, cash_cents, .. } => asked
                == (Command::CreateTrader {
                caller,
                user_id,
                account_id,
                name,
                email,
                cash_cents,
                key_digest: None,
            }),
            _ => asked == self,
        }
    }

    /// The two ask for the same, whatever the server chose for either.
    pub open spec fn same_request(self, other: Command) -> bool {
        match (self, other) {
            (
                Command::CreateUser { name, email, .. },
                Command::CreateUser { name: other_name, email: other_email, .. },
            ) => name == other_name && email == other_email,
            (
                Command::CreateTrader { caller, user_id, account_id, name, email, cash_cents, .. },
                Command::CreateTrader { key_digest, .. },
            ) => other == (Command::CreateTrader { caller, user_id, account_id, name, email, cash_cents, key_digest }),
            _ => self == other,
        }
    }

    /// The two read the same, field by field.
    pub open spec fn reads_as(self, other: Command) -> bool {
        match (self, other) {
            (
                Command::CreateUser { name, email, key_digest },
                Command::CreateUser { name: other_name, email: other_email, key_digest: other_digest },
            ) => name == other_name && email == other_email && key_digest@ == other_digest@,
            _ => self == other,
        }
    }

    /// This command with everything the server chose for it blanked.
    pub fn as_asked(self) -> (asked: Command)
        ensures
            self.asks(asked),
    {
        match self {
            Command::CreateUser { name, email, .. } => Command::CreateUser {
                name,
                email,
                key_digest: "".to_owned(),
            },
            Command::CreateTrader { caller, user_id, account_id, name, email, cash_cents, .. } => Command::CreateTrader {
                caller,
                user_id,
                account_id,
                name,
                email,
                cash_cents,
                key_digest: None,
            },
            other => other,
        }
    }
}

/// What is hashed of a command that is written down so.
pub open spec fn hashed(asked: Seq<u8>) -> Seq<u8> {
    vstd::utf8::encode_utf8(COMMAND_DOMAIN@) + asked
}

/// A digest of a command, for telling a retry from a different request that
/// reused its key. `asked` is [`Command::as_asked`] as it is written down:
/// values the server generated while accepting the request are blanked first,
/// because a retry generates fresh ones.
pub fn payload_hash(asked: &Vec<u8>) -> (digest: String)
    ensures
        digest@ == digest_text(hashed(asked@)),
{
    let mut bytes: Vec<u8> = COMMAND_DOMAIN.as_bytes_vec();
    let mut i: usize = 0;
    let ghost start = bytes@;
    proof {
        assert(start + asked@.take(0) =~= start);
    }
    while i < asked.len()
        invariant
            i <= asked.len(),
            bytes@ == start + asked@.take(i as int),
        decreases asked.len() - i,
    {
        bytes.push(asked[i]);
        proof {
            assert(start + asked@.take(i as int + 1) =~= (start + asked@.take(i as int)).push(asked@[i as int]));
        }
        i = i + 1;
    }
    proof {
        assert(asked@.take(asked@.len() as int) =~= asked@);
    }
    digest_of(&bytes)
}

/// One accepted command, in the order it was accepted.
#[derive(Debug)]
pub struct JournalEntry {
    /// Dense and increasing, continuing from the snapshot this file follows.
    pub seq: u64,
    pub principal: Principal,
    pub idempotency_key: Option<String>,
    pub payload_hash: String,
    /// Simulated time the command runs at. Replay pins the market to it.
    pub at_ms: i64,
    /// Wall-clock time it arrived, for the timestamps a record carries.
    pub wall_ms: i64,
    pub command: Command,
}

/// The response a command was acknowledged with, kept so a client that lost
/// the answer can have it back.
#[derive(Debug, PartialEq, Eq)]
pub struct CommandRecord {
    pub key: String,
    pub seq: u64,
    pub principal: Principal,
    pub kind: String,
    pub payload_hash: String,
    pub status: u16,
    pub wall_ms: i64,
    /// The response body as it was sent, minus any one-time credential in
    /// it: a journal that held API keys would be a list of them.
    pub result: String,
}

impl Clone for CommandRecord {
    fn clone(&self) -> (copy: Self)
        ensures
            copy == *self,
    {
        CommandRecord {
            key: self.key.clone(),
            seq: self.seq,
            principal: self.principal,
            kind: self.kind.clone(),
            payload_hash: self.payload_hash.clone(),
            status: self.status,
            wall_ms: self.wall_ms,
            result: self.result.clone(),
        }
    }
}

// ---------------------------------------------------------------------------
// The idempotency index

/// The record kept under a key, among records oldest first.
pub open spec fn under_key(records: Seq<CommandRecord>, key: Seq<char>) -> Option<CommandRecord>
    decreases records.len(),
{
    if records.len() == 0 {
        None
    } else if records[0].key@ == key {
        Some(records[0])
    } else {
        under_key(records.skip(1), key)
    }
}

/// No key is used twice.
pub open spec fn keys_distinct(records: Seq<CommandRecord>) -> bool {
    forall|i: int, j: int|
        #![trigger records[i], records[j]]
        0 <= i < j < records.len() ==> records[i].key@ != records[j].key@
}

/// The records once another has been remembered: a key that is held already
/// keeps its record, and the oldest go where there are too many.
pub open spec fn remembered(records: Seq<CommandRecord>, record: CommandRecord, cap: int) -> Seq<CommandRecord> {
    if under_key(records, record.key@) is Some {
        records
    } else {
        newest(records.push(record), cap)
    }
}

/// The records once a run of others has been remembered, in order.
pub open spec fn remembered_all(records: Seq<CommandRecord>, more: Seq<CommandRecord>, cap: int) -> Seq<CommandRecord>
    decreases more.len(),
{
    if more.len() == 0 {
        records
    } else {
        remembered(remembered_all(records, more.drop_last(), cap), more.last(), cap)
    }
}

/// The idempotency index: which keys have been used, and what they answered.
///
/// Bounded, oldest evicted first. An evicted key is one whose retry would
/// have to be re-applied rather than replayed, so the cap is a trade between
/// memory and how late a retry may arrive.
pub struct CommandLog {
    by_key: Table<String, CommandRecord>,
    order: VecDeque<String>,
    cap: usize,
}

impl CommandLog {
    /// The records held, oldest first.
    pub closed spec fn log(&self) -> Seq<CommandRecord> {
        self.order@.map_values(|k: String| self.by_key.map()[k@])
    }

    /// How many keys are held.
    pub closed spec fn limit(&self) -> int {
        self.cap as int
    }

    /// Every key in the order has its record, and the other way round.
    spec fn indexed(&self) -> bool {
        &&& self.by_key.wf()
        &&& self.by_key.map().dom().finite()
        &&& self.by_key.map().len() == self.order@.len()
        &&& forall|i: int|
            0 <= i < self.order@.len() ==> self.by_key.map().contains_key(#[trigger] self.order@[i]@)
                && self.by_key.map()[self.order@[i]@].key@ == self.order@[i]@
        &&& forall|key: Seq<char>| #[trigger]
            self.by_key.map().contains_key(key) ==> exists|i: int|
                0 <= i < self.order@.len() && #[trigger] self.order@[i]@ == key
    }

    /// The log is in order: no key is held twice, and no more than the cap.
    pub closed spec fn wf(&self) -> bool {
        &&& self.indexed()
        &&& self.cap >= 1
        &&& self.order@.len() <= self.cap
        &&& keys_distinct(self.log())
    }

    /// A log in order holds no key twice, and has room for at least one.
    pub proof fn lemma_distinct(&self)
        requires
            self.wf(),
        ensures
            keys_distinct(self.log()),
            self.limit() >= 1,
            self.log().len() <= self.limit(),
    {
    }

    /// An empty log of `cap` keys, or one.
    pub fn new(cap: usize) -> (log: Self)
        ensures
            log.wf(),
            log.log() == Seq::<CommandRecord>::empty(),
            log.limit() == max_int(cap as int, 1),
    {
        let log = CommandLog {
            by_key: Table::new(),
            order: VecDeque::new(),
            cap: if cap < 1 {
                1
            } else {
                cap
            },
        };
        proof {
            log.by_key.lemma_len();
            assert(log.log() =~= Seq::<CommandRecord>::empty());
        }
        log
    }

    proof fn lemma_found(&self, key: Seq<char>)
        requires
            self.wf(),
        ensures
            under_key(self.log(), key) == (if self.by_key.map().contains_key(key) {
                Some(self.by_key.map()[key])
            } else {
                None
            }),
            under_key(self.log(), key) matches Some(record) ==> record.key@ == key,
    {
        if self.by_key.map().contains_key(key) {
            let i = choose|i: int| 0 <= i < self.order@.len() && #[trigger] self.order@[i]@ == key;
            assert(self.log()[i] == self.by_key.map()[key]);
            lemma_under_key_at(self.log(), i);
        } else {
            assert forall|i: int| 0 <= i < self.log().len() implies (#[trigger] self.log()[i]).key@ != key by {
                assert(self.by_key.map().contains_key(self.order@[i]@));
            }
            lemma_not_under_key(self.log(), key);
        }
    }

    /// What `key` answered, if it is still held.
    pub fn get(&self, key: &str) -> (r: Option<&CommandRecord>)
        requires
            self.wf(),
        ensures
            match r {
                Some(record) => under_key(self.log(), key@) == Some(*record),
                None => under_key(self.log(), key@) is None,
            },
    {
        proof {
            self.lemma_found(key@);
        }
        self.by_key.get(&key.to_owned())
    }

    /// Remember `record`, evicting the oldest key if the log is full.
    pub fn record(&mut self, record: CommandRecord)
        requires
            old(self).wf(),
        ensures
            final(self).wf(),
            final(self).limit() == old(self).limit(),
            final(self).log() == remembered(old(self).log(), record, old(self).limit()),
    {
        let ghost before = *self;
        proof {
            before.lemma_found(record.key@);
        }
        if self.by_key.contains_key(&record.key) {
            return;
        }
        let key = record.key.clone();
        let again = record.key.clone();
        let ghost whole = before.log().push(record);
        self.order.push_back(key);
        self.by_key.insert(again, record);
        proof {
            self.by_key.lemma_len();
            assert(self.log() =~= whole) by {
                assert forall|i: int| 0 <= i < before.order@.len() implies self.log()[i] == before.log()[i] by {
                    assert(before.by_key.map().contains_key(before.order@[i]@));
                    assert(self.order@[i] == before.order@[i]);
                }
            }
            assert(self.indexed()) by {
                assert forall|i: int| 0 <= i < self.order@.len() implies self.by_key.map().contains_key(
                    #[trigger] self.order@[i]@,
                ) && self.by_key.map()[self.order@[i]@].key@ == self.order@[i]@ by {
                    if i < before.order@.len() {
                        assert(self.order@[i] == before.order@[i]);
                    }
                }
                assert forall|k: Seq<char>| #[trigger] self.by_key.map().contains_key(k) implies exists|i: int|
                    0 <= i < self.order@.len() && #[trigger] self.order@[i]@ == k by {
                    if k == record.key@ {
                        assert(self.order@[before.order@.len() as int]@ == k);
                    } else {
                        assert(before.by_key.map().contains_key(k));
                        let i = choose|i: int| 0 <= i < before.order@.len() && #[trigger] before.order@[i]@ == k;
                        assert(self.order@[i]@ == k);
                    }
                }
            }
            assert(keys_distinct(whole)) by {
                assert forall|i: int, j: int| #![trigger whole[i], whole[j]] 0 <= i < j < whole.len() implies whole[i].key@
                    != whole[j].key@ by {
                    if j == before.log().len() {
                        assert(before.by_key.map().contains_key(before.order@[i]@));
                        assert(before.log()[i].key@ == before.order@[i]@);
                    } else {
                        assert(before.log()[i].key@ != before.log()[j].key@);
                    }
                }
            }
        }
        if self.order.len() > self.cap {
            let ghost full = *self;
            match self.order.pop_front() {
                Some(evicted) => {
                    self.by_key.remove(&evicted);
                    proof {
                        full.lemma_front_gone(self, evicted);
                    }
                },
                None => {},
            }
        }
        proof {
            assert(self.log() =~= newest(whole, before.limit()));
        }
    }

    proof fn lemma_front_gone(&self, after: &CommandLog, evicted: String)
        requires
            self.indexed(),
            keys_distinct(self.log()),
            self.order@.len() > 0,
            evicted == self.order@[0],
            after.by_key.wf(),
            after.order@ == self.order@.skip(1),
            after.by_key.map() == self.by_key.map().remove(evicted@),
        ensures
            after.indexed(),
            after.log() == self.log().skip(1),
            keys_distinct(after.log()),
    {
        assert forall|i: int| 1 <= i < self.order@.len() implies (#[trigger] self.order@[i])@ != evicted@ by {
            assert(self.log()[0].key@ == self.order@[0]@);
            assert(self.log()[i].key@ == self.order@[i]@);
            assert(self.log()[0].key@ != self.log()[i].key@);
        }
        after.by_key.lemma_len();
        assert forall|i: int| 0 <= i < after.order@.len() implies after.by_key.map().contains_key(
            #[trigger] after.order@[i]@,
        ) && after.by_key.map()[after.order@[i]@].key@ == after.order@[i]@ by {
            assert(after.order@[i] == self.order@[i + 1]);
        }
        assert forall|k: Seq<char>| #[trigger] after.by_key.map().contains_key(k) implies exists|i: int|
            0 <= i < after.order@.len() && #[trigger] after.order@[i]@ == k by {
            assert(self.by_key.map().contains_key(k));
            let i = choose|i: int| 0 <= i < self.order@.len() && #[trigger] self.order@[i]@ == k;
            assert(i != 0);
            assert(after.order@[i - 1]@ == k);
        }
        assert(after.log() =~= self.log().skip(1)) by {
            assert forall|i: int| 0 <= i < after.order@.len() implies after.log()[i] == self.log()[i + 1] by {
                assert(after.order@[i] == self.order@[i + 1]);
            }
        }
        assert forall|i: int, j: int|
            #![trigger after.log()[i], after.log()[j]]
            0 <= i < j < after.log().len() implies after.log()[i].key@ != after.log()[j].key@ by {
            assert(after.log()[i] == self.log()[i + 1]);
            assert(after.log()[j] == self.log()[j + 1]);
        }
    }

    /// The records, oldest first, for a save file.
    pub fn records(&self) -> (records: Vec<CommandRecord>)
        requires
            self.wf(),
        ensures
            records@ == self.log(),
    {
        let mut records: Vec<CommandRecord> = Vec::new();
        let mut i: usize = 0;
        while i < self.order.len()
            invariant
                self.wf(),
                i <= self.order@.len(),
                records@ == self.log().take(i as int),
            decreases self.order@.len() - i,
        {
            let key = &self.order[i];
            proof {
                assert(self.by_key.map().contains_key(self.order@[i as int]@));
                assert(self.log().take(i as int + 1) =~= self.log().take(i as int).push(self.log()[i as int]));
            }
            match self.by_key.get(key) {
                Some(record) => {
                    records.push(record.clone());
                },
                None => {},
            }
            i = i + 1;
        }
        proof {
            assert(self.log().take(self.order@.len() as int) =~= self.log());
        }
        records
    }

    /// Rebuild from what [`CommandLog::records`] wrote down.
    pub fn restore(&mut self, records: Vec<CommandRecord>)
        requires
            old(self).wf(),
        ensures
            final(self).wf(),
            final(self).limit() == old(self).limit(),
            final(self).log() == remembered_all(old(self).log(), records@, old(self).limit()),
    {
        let ghost start = *self;
        let ghost all = records@;
        proof {
            assert(all.take(0) =~= Seq::<CommandRecord>::empty());
        }
        for record in it: records
            invariant
                self.wf(),
                it.seq() == all,
                self.limit() == start.limit(),
                self.log() == remembered_all(start.log(), all.take(it.index()), start.limit()),
        {
            proof {
                let longer = all.take(it.index() + 1);
                assert(longer.drop_last() =~= all.take(it.index()));
                assert(longer.last() == record);
            }
            self.record(record);
        }
        proof {
            assert(all.take(all.len() as int) =~= all);
        }
    }

    /// Keys held.
    pub fn len(&self) -> (n: usize)
        requires
            self.wf(),
        ensures
            n == self.log().len(),
    {
        self.order.len()
    }

    /// No key is held.
    pub fn is_empty(&self) -> (r: bool)
        requires
            self.wf(),
        ensures
            r == (self.log().len() == 0),
    {
        self.order.len() == 0
    }
}

impl Default for CommandLog {
    /// An empty log of ten thousand keys.
    fn default() -> (log: Self)
        ensures
            log.wf(),
            log.log() == Seq::<CommandRecord>::empty(),
            log.limit() == 10_000,
    {
        CommandLog::new(10_000)
    }
}

proof fn lemma_under_key_at(records: Seq<CommandRecord>, i: int)
    requires
        keys_distinct(records),
        0 <= i < records.len(),
    ensures
        under_key(records, records[i].key@) == Some(records[i]),
    decreases i,
{
    if i > 0 {
        let rest = records.skip(1);
        assert(records[0].key@ != records[i].key@);
        assert forall|a: int, b: int| #![trigger rest[a], rest[b]] 0 <= a < b < rest.len() implies rest[a].key@
            != rest[b].key@ by {
            assert(rest[a] == records[a + 1] && rest[b] == records[b + 1]);
        }
        assert(rest[i - 1] == records[i]);
        lemma_under_key_at(rest, i - 1);
    }
}

proof fn lemma_not_under_key(records: Seq<CommandRecord>, key: Seq<char>)
    requires
        forall|i: int| 0 <= i < records.len() ==> (#[trigger] records[i]).key@ != key,
    ensures
        under_key(records, key) is None,
    decreases records.len(),
{
    if records.len() > 0 {
        let rest = records.skip(1);
        assert forall|i: int| 0 <= i < rest.len() implies (#[trigger] rest[i]).key@ != key by {
            assert(rest[i] == records[i + 1]);
        }
        lemma_not_under_key(rest, key);
    }
}

// ---------------------------------------------------------------------------
// The file

/// Why a journal could not be read.
#[derive(Debug)]
pub enum JournalError {
    /// The file itself, in words.
    Io(String),
    /// A line that is not an entry, before the end of the file. A torn line
    /// at the very end is a half-written append and is dropped instead.
    Format { line: usize, error: String },
    Version { found: u32, expected: u32 },
}

impl JournalError {
    /// The reason in words.
    pub open spec fn words(self) -> Seq<char> {
        match self {
            JournalError::Io(e) => "journal: "@ + e@,
            JournalError::Format { line, error } => "journal line "@ + decimal(line as nat) + " is not an entry: "@
                + error@,
            JournalError::Version { found, expected } => "journal is version "@ + decimal(found as nat)
                + ", this build reads "@ + decimal(expected as nat),
        }
    }

    /// The reason in words.
    pub fn message(&self) -> (text: String)
        ensures
            text@ == self.words(),
    {
        match self {
            JournalError::Io(e) => {
                let mut text = "journal: ".to_owned();
                text.append(e.as_str());
                text
            },
            JournalError::Format { line, error } => {
                let mut text = "journal line ".to_owned();
                push_u64(&mut text, *line as u64);
                text.append(" is not an entry: ");
                text.append(error.as_str());
                text
            },
            JournalError::Version { found, expected } => {
                let mut text = "journal is version ".to_owned();
                push_u64(&mut text, *found as u64);
                text.append(", this build reads ");
                push_u64(&mut text, *expected as u64);
                text
            },
        }
    }
}

/// The first line of a journal file: what wrote it, and where it starts.
#[derive(Clone, Copy, Debug, PartialEq, Eq, Structural)]
pub struct Header {
    pub journal: u32,
    /// The snapshot sequence this file continues from.
    pub after_seq: u64,
}

/// The first line of a journal that continues after `seq`.
pub open spec fn header_text(after_seq: u64) -> Seq<char> {
    "{\"journal\":"@ + decimal(JOURNAL_VERSION as nat) + ",\"after_seq\":"@ + decimal(after_seq as nat) + "}"@
}

/// The first line of a journal that continues after `seq`.
pub fn header_line(after_seq: u64) -> (text: String)
    ensures
        text@ == header_text(after_seq),
{
    let mut text = "{\"journal\":".to_owned();
    push_u64(&mut text, JOURNAL_VERSION as u64);
    text.append(",\"after_seq\":");
    push_u64(&mut text, after_seq);
    text.append("}");
    text
}

/// One line of a journal file after the first, and what it parses to.
#[derive(Debug)]
pub struct ParsedLine<E> {
    pub text: String,
    pub entry: Result<E, String>,
}

impl<E> ParsedLine<E> {
    /// Nothing stands on the line.
    pub open spec fn blank(self) -> bool {
        trimmed(self.text@).len() == 0
    }

    /// Something stands on the line, and it is no entry.
    pub open spec fn malformed(self) -> bool {
        !self.blank() && self.entry is Err
    }
}

/// The entries of the lines that have one, in order.
pub open spec fn entries_of<E>(lines: Seq<ParsedLine<E>>) -> Seq<E>
    decreases lines.len(),
{
    if lines.len() == 0 {
        Seq::empty()
    } else {
        let before = entries_of(lines.drop_last());
        if lines.last().blank() || lines.last().entry is Err {
            before
        } else {
            before.push(lines.last().entry->Ok_0)
        }
    }
}

/// The first line that is corrupt: malformed, and not the last.
pub open spec fn corrupt_at<E>(lines: Seq<ParsedLine<E>>, i: int) -> bool {
    &&& 0 <= i < lines.len() - 1
    &&& lines[i].malformed()
    &&& forall|j: int| 0 <= j < i ==> !(#[trigger] lines[j]).malformed()
}

/// The entries in a journal file, oldest first. `header` is what the first
/// line parses to, `None` where the file is empty; `lines` are the others.
///
/// A malformed final line is a half-written append — the process stopped
/// between the write and the flush, so nothing was ever acknowledged for it
/// — and is dropped. A malformed line anywhere else is corruption and is
/// refused: a journal that only half-applies is worse than none.
pub fn read<E>(header: Option<Result<Header, String>>, lines: Vec<ParsedLine<E>>) -> (r: Result<Vec<E>, JournalError>)
    requires
        lines@.len() < usize::MAX,
    ensures
        match header {
            None => r matches Ok(entries) && entries@.len() == 0,
            Some(Err(e)) => r == Err::<Vec<E>, JournalError>(JournalError::Format { line: 1, error: e }),
            Some(Ok(header)) => if header.journal != JOURNAL_VERSION {
                r == Err::<Vec<E>, JournalError>(
                    JournalError::Version { found: header.journal, expected: JOURNAL_VERSION },
                )
            } else {
                match r {
                    Ok(entries) => entries@ == entries_of(lines@) && forall|i: int| !corrupt_at(lines@, i),
                    Err(JournalError::Format { line, error }) => {
                        &&& corrupt_at(lines@, line - 2)
                        &&& lines@[line - 2].entry == Err::<E, String>(error)
                    },
                    Err(_) => false,
                }
            },
        },
{
    match header {
        None => {
            return Ok(Vec::new());
        },
        Some(Err(e)) => {
            return Err(JournalError::Format { line: 1, error: e });
        },
        Some(Ok(header)) => {
            if header.journal != JOURNAL_VERSION {
                return Err(JournalError::Version { found: header.journal, expected: JOURNAL_VERSION });
            }
        },
    }
    let last: usize = lines.len();
    let ghost all = lines@;
    let mut entries: Vec<E> = Vec::new();
    let mut i: usize = 0;
    proof {
        assert(all.take(0) =~= Seq::<ParsedLine<E>>::empty());
    }
    for line in it: lines
        invariant
            it.seq() == all,
            last == all.len(),
            last < usize::MAX,
            i == it.index(),
            i <= last,
            entries@ == entries_of(all.take(i as int)),
            forall|j: int| 0 <= j < i && j < last - 1 ==> !(#[trigger] all[j]).malformed(),
            header matches Some(Ok(h)) && h.journal == JOURNAL_VERSION,
            all == lines@,
    {
        proof {
            let longer = all.take(i as int + 1);
            assert(longer.drop_last() =~= all.take(i as int));
            assert(longer.last() == line);
        }
        let blank: bool = trim(line.text.as_str()).as_str().unicode_len() == 0;
        match line.entry {
            Ok(entry) => {
                if !blank {
                    entries.push(entry);
                }
            },
            Err(error) => {
                if !blank && i + 1 != last {
                    assert(corrupt_at(all, i as int));
                    return Err(JournalError::Format { line: i + 2, error });
                }
            },
        }
        i = i + 1;
    }
    proof {
        assert(all.take(all.len() as int) =~= all);
        assert forall|j: int| !corrupt_at(all, j) by {
            if 0 <= j < all.len() - 1 {
                assert(!all[j].malformed());
            }
        }
    }
    Ok(entries)
}

/// The text of a file of lines: each is ended.
pub open spec fn text_of(lines: Seq<Seq<char>>) -> Seq<char>
    decreases lines.len(),
{
    if lines.len() == 0 {
        Seq::empty()
    } else {
        text_of(lines.drop_last()) + lines.last() + seq!['\n']
    }
}

/// The text of a file of lines: each is ended.
pub fn file_text(lines: &Vec<String>) -> (text: String)
    ensures
        text@ == text_of(views(lines@)),
{
    let mut text = String::new();
    let mut i: usize = 0;
    proof {
        assert(views(lines@.take(0)) =~= Seq::<Seq<char>>::empty());
    }
    while i < lines.len()
        invariant
            i <= lines.len(),
            text@ == text_of(views(lines@.take(i as int))),
        decreases lines.len() - i,
    {
        text.append(lines[i].as_str());
        text.push('\n');
        proof {
            let longer = views(lines@.take(i as int + 1));
            assert(longer.drop_last() =~= views(lines@.take(i as int)));
            assert(longer.last() == lines@[i as int]@);
            assert(text@ =~= text_of(longer));
        }
        i = i + 1;
    }
    proof {
        assert(lines@.take(lines@.len() as int) =~= lines@);
    }
    text
}

/// A line without the carriage return that may stand before its end.
pub open spec fn bare(line: Seq<char>) -> Seq<char> {
    if line.len() > 0 && line.last() == '\r' {
        line.drop_last()
    } else {
        line
    }
}

/// The lines of a text. What stands after the last end of a line is one too.
pub open spec fn split_lines(text: Seq<char>) -> Seq<Seq<char>>
    decreases text.len(),
{
    if text.len() == 0 {
        Seq::empty()
    } else {
        match split_at_first(text, '\n') {
            Some((line, rest)) => if rest.len() < text.len() {
                seq![bare(line)] + split_lines(rest)
            } else {
                Seq::empty()
            },
            None => seq![text],
        }
    }
}

/// A text that is read back as the one line it was written as.
pub open spec fn is_plain(line: Seq<char>) -> bool {
    !line.contains('\n') && bare(line) == line
}

proof fn lemma_first_of(s: Seq<char>, c: char, i: int)
    requires
        0 <= i <= s.len(),
        forall|j: int| 0 <= j < i ==> #[trigger] s[j] != c,
        i < s.len() ==> s[i] == c,
    ensures
        first_of(s, c) == i,
    decreases i,
{
    if i > 0 {
        assert(s[0] != c);
        assert forall|j: int| 0 <= j < i - 1 implies #[trigger] s.drop_first()[j] != c by {
            assert(s[j + 1] != c);
        }
        lemma_first_of(s.drop_first(), c, i - 1);
    }
}

/// The lines of a text. What stands after the last end of a line is one too.
pub fn lines_of(text: &str) -> (lines: Vec<String>)
    ensures
        views(lines@) == split_lines(text@),
{
    let chars = chars_of(text);
    let ghost all = text@;
    let n: usize = chars.len();
    let mut lines: Vec<String> = Vec::new();
    let mut start: usize = 0;
    let mut i: usize = 0;
    proof {
        assert(all.skip(0) =~= all);
        assert(views(lines@) + split_lines(all) =~= split_lines(all));
    }
    while i < n
        invariant
            chars@ == all,
            n == all.len(),
            start <= i <= n,
            forall|j: int| start <= j < i ==> #[trigger] all[j] != '\n',
            split_lines(all) == views(lines@) + split_lines(all.skip(start as int)),
        decreases n - i,
    {
        if chars[i] == '\n' {
            let mut end: usize = i;
            if i > start && chars[i - 1] == '\r' {
                end = i - 1;
            }
            let ghost before = lines@;
            let ghost rest = all.skip(start as int);
            lines.push(text_between(&chars, start, end));
            proof {
                assert forall|j: int| 0 <= j < i - start implies #[trigger] rest[j] != '\n' by {
                    assert(all[start + j] != '\n');
                }
                lemma_first_of(rest, '\n', i - start);
                assert(rest.take(i - start) =~= all.subrange(start as int, i as int));
                assert(rest.skip(i - start + 1) =~= all.skip(i as int + 1));
                assert(lines@.last()@ =~= bare(all.subrange(start as int, i as int)));
                assert(views(lines@) =~= views(before).push(lines@.last()@));
                assert(views(before) + split_lines(rest) =~= views(lines@) + split_lines(all.skip(i as int + 1)));
            }
            start = i + 1;
        }
        i = i + 1;
    }
    if start < n {
        let ghost before = lines@;
        let ghost rest = all.skip(start as int);
        lines.push(text_between(&chars, start, n));
        proof {
            assert forall|j: int| 0 <= j < rest.len() implies #[trigger] rest[j] != '\n' by {
                assert(all[start + j] != '\n');
            }
            lemma_first_of(rest, '\n', rest.len() as int);
            assert(lines@.last()@ =~= rest);
            assert(views(lines@) =~= views(before).push(rest));
            assert(views(before) + split_lines(rest) =~= views(lines@));
        }
    } else {
        proof {
            assert(all.skip(start as int) =~= Seq::<char>::empty());
            assert(views(lines@) + Seq::<Seq<char>>::empty() =~= views(lines@));
        }
    }
    lines
}

/// The lines of a journal file without a last one that was only half written.
pub open spec fn whole<E>(lines: Seq<ParsedLine<E>>) -> Seq<ParsedLine<E>> {
    if lines.len() > 0 && lines.last().malformed() {
        lines.drop_last()
    } else {
        lines
    }
}

/// The lines are what these texts parse to.
pub open spec fn parses<E>(
    lines: Seq<ParsedLine<E>>,
    texts: Seq<Seq<char>>,
    parse: spec_fn(Seq<char>) -> Result<E, String>,
) -> bool {
    &&& lines.len() == texts.len()
    &&& forall|i: int|
        0 <= i < lines.len() ==> (#[trigger] lines[i]).text@ == texts[i] && lines[i].entry == parse(texts[i])
}

/// The file holds its first line and then the whole ones.
pub open spec fn is_mended<E>(file: Seq<Seq<char>>, first: Seq<char>, lines: Seq<ParsedLine<E>>) -> bool {
    &&& file.len() == whole(lines).len() + 1
    &&& file[0] == first
    &&& forall|i: int| 0 <= i < whole(lines).len() ==> #[trigger] file[i + 1] == whole(lines)[i].text@
}

/// The lines a journal file is rewritten with when it is opened: its first as
/// it stands, and the others but for one at the end that was only half
/// written. What is appended then stands on a line of its own.
pub fn mend<E>(first: String, lines: &Vec<ParsedLine<E>>) -> (file: Vec<String>)
    ensures
        is_mended(views(file@), first@, lines@),
{
    let mut file: Vec<String> = Vec::new();
    file.push(first);
    let mut n: usize = lines.len();
    if n > 0 {
        let torn = match &lines[n - 1].entry {
            Ok(_) => false,
            Err(_) => trim(lines[n - 1].text.as_str()).as_str().unicode_len() > 0,
        };
        if torn {
            n = n - 1;
        }
    }
    let mut i: usize = 0;
    while i < n
        invariant
            n == whole(lines@).len(),
            n <= lines@.len(),
            i <= n,
            file@.len() == i + 1,
            file@[0] == first,
            forall|j: int| 0 <= j < i ==> (#[trigger] file@[j + 1])@ == lines@[j].text@,
        decreases n - i,
    {
        file.push(lines[i].text.clone());
        i = i + 1;
    }
    file
}

/// The file name of the journal for a state file of this name: it stands
/// beside it, so the rename that truncates it stays on one filesystem.
pub fn path_for(state_file: &str) -> (name: String)
    ensures
        name@ == state_file@ + ".journal"@,
{
    let mut name = state_file.to_owned();
    name.append(".journal");
    name
}

/// A line that was written, and the entry's sequence number.
#[derive(Debug)]
pub struct Written {
    pub seq: u64,
    pub text: String,
}

/// The append-only file's bookkeeping: the lines in it since the last
/// snapshot.
///
/// A journal with no file is disabled: a server with no state file keeps
/// nothing, and there is nothing for a journal to add to a market that is
/// thrown away.
pub struct Journal {
    /// There is a file.
    pub enabled: bool,
    /// The sequence of the last entry written.
    pub seq: u64,
    /// Lines written since the snapshot the file follows, so truncating
    /// after the next snapshot does not have to read the file back.
    pub pending: Vec<Written>,
    /// Appended but not yet flushed to disk.
    pub unsynced: bool,
    /// Set once an append has failed. The market is then ahead of the disk,
    /// so it refuses to change any further.
    pub broken: Option<String>,
}

impl Journal {
    /// A journal that keeps nothing. Every append succeeds and nothing
    /// reaches a disk.
    pub fn disabled() -> (journal: Self)
        ensures
            !journal.enabled,
            journal.seq == 0,
            journal.pending@ == Seq::<Written>::empty(),
            !journal.unsynced,
            journal.broken is None,
    {
        Journal::at(0)
    }

    /// A journal with no file, continuing after `seq`.
    pub fn at(seq: u64) -> (journal: Self)
        ensures
            !journal.enabled,
            journal.seq == seq,
            journal.pending@ == Seq::<Written>::empty(),
            !journal.unsynced,
            journal.broken is None,
    {
        Journal { enabled: false, seq, pending: Vec::new(), unsynced: false, broken: None }
    }

    /// A journal with a file open for appending, continuing after `seq`.
    pub fn open(seq: u64) -> (journal: Self)
        ensures
            journal.enabled,
            journal.seq == seq,
            journal.pending@ == Seq::<Written>::empty(),
            !journal.unsynced,
            journal.broken is None,
    {
        Journal { enabled: true, seq, pending: Vec::new(), unsynced: false, broken: None }
    }

    /// Whether this journal keeps anything.
    pub fn is_enabled(&self) -> (r: bool)
        ensures
            r == self.enabled,
    {
        self.enabled
    }

    /// Why the journal stopped taking appends, if it did.
    pub fn broken(&self) -> (r: Option<&String>)
        ensures
            r == (match self.broken {
                Some(why) => Some(&why),
                None => None,
            }),
    {
        match &self.broken {
            Some(why) => Some(why),
            None => None,
        }
    }

    /// The sequence of the last entry written.
    pub fn seq(&self) -> (seq: u64)
        ensures
            seq == self.seq,
    {
        self.seq
    }

    /// Lines written since the file's starting point.
    pub fn pending(&self) -> (lines: &Vec<Written>)
        ensures
            *lines == self.pending,
    {
        &self.pending
    }

    /// Stop taking entries, for `why`. Nothing clears this but a restart,
    /// which replays what did reach the disk.
    pub fn stop(&mut self, why: String)
        ensures
            *final(self) == (Journal { broken: Some(why), ..*old(self) }),
    {
        self.broken = Some(why);
    }

    /// Carry the sequence forward to `seq` if it is ahead. Used by replay,
    /// which must not reissue a sequence a journaled entry already has.
    pub fn reached(&mut self, seq: u64)
        ensures
            *final(self) == (Journal { seq: max_int(old(self).seq as int, seq as int) as u64, ..*old(self) }),
    {
        self.seq = max_u64(self.seq, seq);
    }

    /// Take the next sequence number.
    pub fn next_seq(&mut self) -> (seq: u64)
        requires
            old(self).seq < u64::MAX,
        ensures
            seq == old(self).seq + 1,
            *final(self) == (Journal { seq, ..*old(self) }),
    {
        self.seq = self.seq + 1;
        self.seq
    }

    /// What became of writing `line` down: `outcome` says whether it reached
    /// the file, and `durable` whether it was flushed to the platter, which
    /// is what makes an acknowledgement mean something. A failure is
    /// remembered: the market is then ahead of the disk and must not accept
    /// anything more.
    pub fn append(&mut self, line: Written, durable: bool, outcome: Result<(), String>) -> (r: Result<(), JournalError>)
        ensures
            if !old(self).enabled {
                r is Ok && *final(self) == *old(self)
            } else {
                match outcome {
                    Ok(()) => {
                        &&& r is Ok
                        &&& *final(self) == (Journal {
                            unsynced: !durable,
                            pending: final(self).pending,
                            ..*old(self)
                        })
                        &&& final(self).pending@ == old(self).pending@.push(line)
                    },
                    Err(e) => {
                        &&& r matches Err(JournalError::Io(text)) && text == e
                        &&& *final(self) == (Journal { broken: Some(e), ..*old(self) })
                    },
                }
            },
    {
        if !self.enabled {
            return Ok(());
        }
        match outcome {
            Ok(()) => {
                self.unsynced = !durable;
                self.pending.push(line);
                Ok(())
            },
            Err(e) => {
                self.stop(e.clone());
                Err(JournalError::Io(e))
            },
        }
    }

    /// Whether anything was appended without a flush of its own.
    pub fn needs_sync(&self) -> (r: bool)
        ensures
            r == (self.enabled && self.unsynced),
    {
        self.enabled && self.unsynced
    }

    /// What was appended has been flushed.
    pub fn synced(&mut self)
        ensures
            *final(self) == (Journal { unsynced: false, ..*old(self) }),
    {
        self.unsynced = false;
    }

    /// Drop everything up to and including `seq`: a snapshot now holds it.
    /// Returns the lines the file is rewritten with, where there is one: the
    /// header, and the lines the snapshot missed.
    pub fn truncate_to(&mut self, seq: u64) -> (r: Option<Vec<String>>)
        ensures
            *final(self) == (Journal { pending: final(self).pending, ..*old(self) }),
            final(self).pending@ == old(self).pending@.filter(|w: Written| w.seq > seq),
            match r {
                Some(lines) => {
                    &&& old(self).enabled
                    &&& lines@.len() == final(self).pending@.len() + 1
                    &&& lines@[0]@ == header_text(seq)
                    &&& forall|i: int|
                        0 <= i < final(self).pending@.len() ==> (#[trigger] lines@[i + 1])@
                            == final(self).pending@[i].text@
                },
                None => !old(self).enabled,
            },
    {
        let mut kept: Vec<Written> = Vec::new();
        let mut all: Vec<Written> = Vec::new();
        std::mem::swap(&mut all, &mut self.pending);
        let ghost whole = all@;
        let ghost later = |w: Written| w.seq > seq;
        proof {
            assert(kept@ =~= whole.take(0).filter(later)) by {
                reveal(Seq::filter);
            }
        }
        for line in it: all
            invariant
                it.seq() == whole,
                later == (|w: Written| w.seq > seq),
                kept@ == whole.take(it.index()).filter(later),
        {
            proof {
                crate::jobs::lemma_filter_take(whole, later, it.index());
            }
            if line.seq > seq {
                kept.push(line);
            }
        }
        proof {
            assert(whole.take(whole.len() as int) =~= whole);
        }
        self.pending = kept;
        if !self.enabled {
            return None;
        }
        let mut lines: Vec<String> = Vec::new();
        lines.push(header_line(seq));
        let mut i: usize = 0;
        while i < self.pending.len()
            invariant
                i <= self.pending.len(),
                lines@.len() == i + 1,
                lines@[0]@ == header_text(seq),
                forall|j: int| 0 <= j < i ==> (#[trigger] lines@[j + 1])@ == self.pending@[j].text@,
            decreases self.pending.len() - i,
        {
            lines.push(self.pending[i].text.clone());
            i = i + 1;
        }
        Some(lines)
    }
}

impl Default for Journal {
    fn default() -> (journal: Self)
        ensures
            !journal.enabled,
            journal.seq == 0,
            journal.pending@ == Seq::<Written>::empty(),
            !journal.unsynced,
            journal.broken is None,
    {
        Journal::disabled()
    }
}

// ---------------------------------------------------------------------------
// Running a command

/// What is done with a command before it is applied.
#[derive(Debug)]
pub enum Verdict {
    /// It is new: apply it and write it down.
    Apply,
    /// It already ran: this is the recorded answer, and nothing is applied.
    Replay { status: u16, body: String, seq: u64 },
    /// It is refused.
    Refuse(ApiError),
}

/// Decide what is done with a command that carried `key`, whose payload has
/// the digest `payload_hash`.
pub fn judge(journal: &Journal, commands: &CommandLog, key: &Option<String>, payload_hash: &str) -> (verdict: Verdict)
    requires
        commands.wf(),
    ensures
        match journal.broken {
            Some(why) => verdict matches Verdict::Refuse(e) && e.says(
                503,
                "journal_broken"@,
                "the journal stopped taking entries: "@ + why@,
            ),
            None => match opt_text(*key) {
                None => verdict is Apply,
                Some(key) => match under_key(commands.log(), key) {
                    None => verdict is Apply,
                    Some(record) => if record.payload_hash@ == payload_hash@ {
                        verdict matches Verdict::Replay { status, body, seq } && status == record.status && body
                            == record.result && seq == record.seq
                    } else {
                        verdict matches Verdict::Refuse(e) && e.says(
                            409,
                            "idempotency_conflict"@,
                            "idempotency key "@ + quoted_text(key) + " was already used for a different request"@,
                        )
                    },
                },
            },
        },
{
    match &journal.broken {
        Some(why) => {
            return Verdict::Refuse(ApiError::journal_broken(why.as_str()));
        },
        None => {},
    }
    let key = match key {
        Some(key) => key,
        None => {
            return Verdict::Apply;
        },
    };
    match commands.get(key.as_str()) {
        None => Verdict::Apply,
        Some(record) => if same_text(record.payload_hash.as_str(), payload_hash) {
            Verdict::Replay { status: record.status, body: record.result.clone(), seq: record.seq }
        } else {
            Verdict::Refuse(ApiError::idempotency_conflict(key.as_str()))
        },
    }
}

/// The index `after` an entry was answered, where it carried a key, and as it
/// was `before` where it did not.
pub open spec fn answered(
    before: &CommandLog,
    after: &CommandLog,
    entry: &JournalEntry,
    status: u16,
    result: String,
) -> bool {
    match entry.idempotency_key {
        None => after.log() == before.log(),
        Some(key) => exists|record: CommandRecord|
            {
                &&& record.key == key
                &&& record.seq == entry.seq
                &&& record.principal == entry.principal
                &&& record.kind@ == entry.command.called()
                &&& record.payload_hash == entry.payload_hash
                &&& record.status == status
                &&& record.wall_ms == entry.wall_ms
                &&& record.result == result
                &&& after.log() == #[trigger] remembered(before.log(), record, before.limit())
            },
    }
}

/// Remember what an entry was answered with, where it carried a key: a live
/// command once its line is written, or one that is replayed at start-up.
pub fn remember(commands: &mut CommandLog, entry: &JournalEntry, status: u16, result: String)
    requires
        old(commands).wf(),
    ensures
        final(commands).wf(),
        final(commands).limit() == old(commands).limit(),
        answered(old(commands), final(commands), entry, status, result),
{
    match &entry.idempotency_key {
        None => {},
        Some(key) => {
            let record = CommandRecord {
                key: key.clone(),
                seq: entry.seq,
                principal: entry.principal,
                kind: entry.command.kind().to_owned(),
                payload_hash: entry.payload_hash.clone(),
                status,
                wall_ms: entry.wall_ms,
                result,
            };
            commands.record(record);
        },
    }
}

/// A seed from a ticker, so a listing without one is still reproducible: the
/// same ticker on two servers gives the same company.
pub open spec fn spread(bytes: Seq<u8>) -> u64
    decreases bytes.len(),
{
    if bytes.len() == 0 {
        0xcbf2_9ce4_8422_2325
    } else {
        let mixed = spread(bytes.drop_last()) ^ (bytes.last() as u64);
        ((mixed * 0x0000_0100_0000_01b3) % 0x1_0000_0000_0000_0000) as u64
    }
}

/// A seed from a ticker. FNV-1a, which is nothing but a spread of the letters
/// — it is a seed, not a digest.
pub fn seed_from_ticker(ticker: &str) -> (seed: u64)
    ensures
        seed == spread(vstd::utf8::encode_utf8(ticker@)),
{
    let bytes: Vec<u8> = ticker.as_bytes_vec();
    let mut hash: u64 = 0xcbf2_9ce4_8422_2325;
    let mut i: usize = 0;
    while i < bytes.len()
        invariant
            i <= bytes.len(),
            hash == spread(bytes@.take(i as int)),
        decreases bytes.len() - i,
    {
        proof {
            let longer = bytes@.take(i as int + 1);
            assert(longer.drop_last() =~= bytes@.take(i as int));
            assert(longer.last() == bytes@[i as int]);
        }
        hash = (hash ^ (bytes[i] as u64)).wrapping_mul(0x0000_0100_0000_01b3);
        i = i + 1;
    }
    proof {
        assert(bytes@.take(bytes@.len() as int) =~= bytes@);
    }
    hash
}

// ---------------------------------------------------------------------------
// Laws

/// A retry is a retry: once a command's answer has been remembered under a
/// key that was not held, the log answers that key with it.
pub proof fn law_a_remembered_key_is_answered(records: Seq<CommandRecord>, record: CommandRecord, cap: int)
    requires
        keys_distinct(records),
        cap >= 1,
        under_key(records, record.key@) is None,
    ensures
        under_key(remembered(records, record, cap), record.key@) == Some(record),
{
    let whole = records.push(record);
    lemma_absent(records, record.key@);
    assert(keys_distinct(whole)) by {
        assert forall|i: int, j: int| #![trigger whole[i], whole[j]] 0 <= i < j < whole.len() implies whole[i].key@
            != whole[j].key@ by {
            if j == records.len() {
                assert(records[i].key@ != record.key@);
            } else {
                assert(records[i].key@ != records[j].key@);
            }
        }
    }
    let kept = newest(whole, cap);
    let gone = whole.len() - kept.len();
    assert(keys_distinct(kept)) by {
        assert forall|i: int, j: int| #![trigger kept[i], kept[j]] 0 <= i < j < kept.len() implies kept[i].key@
            != kept[j].key@ by {
            assert(kept[i] == whole[i + gone] && kept[j] == whole[j + gone]);
        }
    }
    assert(kept[kept.len() - 1] == record);
    lemma_under_key_at(kept, kept.len() - 1);
}

proof fn lemma_absent(records: Seq<CommandRecord>, key: Seq<char>)
    requires
        under_key(records, key) is None,
    ensures
        forall|i: int| 0 <= i < records.len() ==> (#[trigger] records[i]).key@ != key,
    decreases records.len(),
{
    if records.len() > 0 {
        let rest = records.skip(1);
        lemma_absent(rest, key);
        assert forall|i: int| 0 <= i < records.len() implies (#[trigger] records[i]).key@ != key by {
            if i > 0 {
                assert(rest[i - 1] == records[i]);
            }
        }
    }
}

/// The index survives a restart: restoring what a log wrote down gives back
/// the same log, where it fits.
pub proof fn law_a_command_log_survives_a_restart(records: Seq<CommandRecord>, cap: int)
    requires
        keys_distinct(records),
        records.len() <= cap,
    ensures
        remembered_all(Seq::empty(), records, cap) == records,
    decreases records.len(),
{
    if records.len() > 0 {
        let shorter = records.drop_last();
        assert forall|i: int, j: int| #![trigger shorter[i], shorter[j]] 0 <= i < j < shorter.len() implies shorter[i].key@
            != shorter[j].key@ by {
            assert(shorter[i] == records[i] && shorter[j] == records[j]);
        }
        law_a_command_log_survives_a_restart(shorter, cap);
        assert forall|i: int| 0 <= i < shorter.len() implies (#[trigger] shorter[i]).key@ != records.last().key@ by {
            assert(shorter[i] == records[i]);
            assert(records[i].key@ != records[records.len() - 1].key@);
        }
        lemma_not_under_key(shorter, records.last().key@);
        assert(shorter.push(records.last()) =~= records);
    } else {
        assert(records =~= Seq::empty());
    }
}

/// What a truncation keeps is exactly what the snapshot missed, in the order
/// it was written.
pub proof fn law_truncating_keeps_what_the_snapshot_missed(pending: Seq<Written>, seq: u64, line: Written)
    requires
        pending.contains(line),
    ensures
        pending.filter(|w: Written| w.seq > seq).contains(line) == (line.seq > seq),
{
    let later = |w: Written| w.seq > seq;
    let i = choose|i: int| 0 <= i < pending.len() && pending[i] == line;
    if line.seq > seq {
        pending.lemma_filter_contains(later, i);
    } else if pending.filter(later).contains(line) {
        let j = choose|j: int| 0 <= j < pending.filter(later).len() && pending.filter(later)[j] == line;
        pending.lemma_filter_pred(later, j);
    }
}

/// What is hashed tells a retry from another request: two commands read the
/// same once what the server chose is blanked exactly where they ask for the
/// same.
pub proof fn law_a_retry_reads_as_what_it_repeats(one: Command, other: Command, asked: Command, asked_again: Command)
    requires
        one.asks(asked),
        other.asks(asked_again),
    ensures
        asked.reads_as(asked_again) == one.same_request(other),
{
}

/// Reading a journal whose lines are all well-formed, with one more entry
/// appended, gives the entries it had and then that one.
pub proof fn law_an_appended_entry_is_read_last<E>(lines: Seq<ParsedLine<E>>, line: ParsedLine<E>)
    requires
        forall|i: int| 0 <= i < lines.len() ==> !(#[trigger] lines[i]).malformed(),
        !line.blank(),
        line.entry is Ok,
    ensures
        entries_of(lines.push(line)) == entries_of(lines).push(line.entry->Ok_0),
        forall|i: int| !corrupt_at(lines.push(line), i),
        forall|i: int| 0 <= i < lines.push(line).len() ==> !(#[trigger] lines.push(line)[i]).malformed(),
{
    let longer = lines.push(line);
    assert(longer.drop_last() =~= lines);
    assert forall|i: int| 0 <= i < longer.len() implies !(#[trigger] longer[i]).malformed() by {
        if i < lines.len() {
            assert(longer[i] == lines[i]);
        }
    }
    assert forall|i: int| !corrupt_at(longer, i) by {
        if 0 <= i < longer.len() {
            assert(!longer[i].malformed());
        }
    }
}

/// An entry that was only half written is not read: the journal gives what it
/// had before, and is not refused for it.
pub proof fn law_a_torn_last_line_is_dropped<E>(lines: Seq<ParsedLine<E>>, torn: ParsedLine<E>)
    requires
        forall|i: int| 0 <= i < lines.len() ==> !(#[trigger] lines[i]).malformed(),
        torn.malformed(),
    ensures
        entries_of(lines.push(torn)) == entries_of(lines),
        forall|i: int| !corrupt_at(lines.push(torn), i),
{
    let longer = lines.push(torn);
    assert(longer.drop_last() =~= lines);
    assert forall|i: int| !corrupt_at(longer, i) by {
        if 0 <= i < lines.len() {
            assert(longer[i] == lines[i]);
        }
    }
}

/// An entry whose append succeeded is read back, even where the file it was
/// opened on ended in a half-written line: of any journal that can be read,
/// with that line dropped and one more entry appended, the entries are those
/// it had and then the new one.
pub proof fn law_an_entry_appended_to_a_mended_journal_is_read_last<E>(lines: Seq<ParsedLine<E>>, line: ParsedLine<E>)
    requires
        forall|i: int| !corrupt_at(lines, i),
        !line.blank(),
        line.entry is Ok,
    ensures
        entries_of(whole(lines).push(line)) == entries_of(lines).push(line.entry->Ok_0),
        forall|i: int| !corrupt_at(whole(lines).push(line), i),
{
    let kept = whole(lines);
    assert forall|i: int| 0 <= i < lines.len() - 1 implies !(#[trigger] lines[i]).malformed() by {
        if lines[i].malformed() {
            lemma_some_is_corrupt(lines, i);
        }
    }
    assert forall|i: int| 0 <= i < kept.len() implies !(#[trigger] kept[i]).malformed() by {
        assert(kept[i] == lines[i]);
    }
    law_an_appended_entry_is_read_last(kept, line);
    assert(entries_of(kept) == entries_of(lines));
}

/// A malformed line before the last makes some line the first corrupt one.
proof fn lemma_some_is_corrupt<E>(lines: Seq<ParsedLine<E>>, i: int)
    requires
        0 <= i < lines.len() - 1,
        lines[i].malformed(),
    ensures
        exists|j: int| corrupt_at(lines, j),
    decreases i,
{
    if exists|j: int| 0 <= j < i && (#[trigger] lines[j]).malformed() {
        let j = choose|j: int| 0 <= j < i && (#[trigger] lines[j]).malformed();
        lemma_some_is_corrupt(lines, j);
    } else {
        assert(corrupt_at(lines, i));
    }
}

/// What is hashed tells one request from another: whatever commands are
/// written down by, as long as those that read the same are written the same
/// and no others are, what goes into the digest is the same exactly where the
/// requests are.
pub proof fn law_what_is_hashed_tells_requests_apart(
    written: spec_fn(Command) -> Seq<u8>,
    one: Command,
    other: Command,
    asked: Command,
    asked_again: Command,
)
    requires
        forall|a: Command, b: Command| (#[trigger] written(a) == #[trigger] written(b)) == a.reads_as(b),
        one.asks(asked),
        other.asks(asked_again),
    ensures
        (hashed(written(asked)) == hashed(written(asked_again))) == one.same_request(other),
{
    law_a_retry_reads_as_what_it_repeats(one, other, asked, asked_again);
    assert((written(asked) == written(asked_again)) == asked.reads_as(asked_again));
    let domain = vstd::utf8::encode_utf8(COMMAND_DOMAIN@);
    let (x, y) = (written(asked), written(asked_again));
    if hashed(x) == hashed(y) {
        assert(hashed(x).skip(domain.len() as int) =~= x);
        assert(hashed(y).skip(domain.len() as int) =~= y);
    }
}

/// A line appended to a file whose lines are all ended is one more line, and
/// the others are what they were. A file of plain lines is read back as it
/// was written.
pub proof fn law_an_appended_line_stands_on_its_own(lines: Seq<Seq<char>>, line: Seq<char>)
    requires
        forall|i: int| 0 <= i < lines.len() ==> is_plain(#[trigger] lines[i]),
        is_plain(line),
    ensures
        split_lines(text_of(lines)) == lines,
        split_lines(text_of(lines) + line + seq!['\n']) == lines.push(line),
        text_of(lines.push(line)) == text_of(lines) + line + seq!['\n'],
    decreases lines.len(),
{
    assert(lines.push(line).drop_last() =~= lines);
    if lines.len() > 0 {
        law_an_appended_line_stands_on_its_own(lines.drop_last(), lines.last());
        assert(lines.drop_last().push(lines.last()) =~= lines);
        assert(text_of(lines).last() == '\n');
    }
    lemma_one_line_more(text_of(lines), line);
}

proof fn lemma_one_line_more(text: Seq<char>, line: Seq<char>)
    requires
        text.len() > 0 ==> text.last() == '\n',
        is_plain(line),
    ensures
        split_lines(text + line + seq!['\n']) == split_lines(text).push(line),
    decreases text.len(),
{
    let whole = text + line + seq!['\n'];
    if text.len() == 0 {
        assert forall|j: int| 0 <= j < line.len() implies #[trigger] whole[j] != '\n' by {
            assert(line.contains(line[j]));
        }
        lemma_first_of(whole, '\n', line.len() as int);
        assert(whole.take(line.len() as int) =~= line);
        assert(whole.skip(line.len() as int + 1) =~= Seq::<char>::empty());
        assert(split_lines(Seq::<char>::empty()) =~= Seq::<Seq<char>>::empty());
        assert(split_at_first(whole, '\n') == Some((line, Seq::<char>::empty())));
        assert(split_lines(whole) =~= seq![line]);
        assert(split_lines(text).push(line) =~= seq![line]);
    } else {
        let i = first_of(text, '\n');
        lemma_first_is(text, '\n', text.len() - 1);
        let rest = text.skip(i + 1);
        assert forall|j: int| 0 <= j < i implies #[trigger] whole[j] != '\n' by {
            assert(text[j] != '\n');
        }
        lemma_first_of(whole, '\n', i);
        assert(whole.take(i) =~= text.take(i));
        assert(whole.skip(i + 1) =~= rest + line + seq!['\n']);
        lemma_one_line_more(rest, line);
        let head = seq![bare(text.take(i))];
        assert(head + split_lines(rest).push(line) =~= (head + split_lines(rest)).push(line));
    }
}

/// Where a text holds `c` at `k`, its first one is there or before.
proof fn lemma_first_is(s: Seq<char>, c: char, k: int)
    requires
        0 <= k < s.len(),
        s[k] == c,
    ensures
        0 <= first_of(s, c) <= k,
        s[first_of(s, c)] == c,
        forall|j: int| 0 <= j < first_of(s, c) ==> #[trigger] s[j] != c,
    decreases s.len(),
{
    if s[0] != c {
        lemma_first_is(s.drop_first(), c, k - 1);
        assert forall|j: int| 0 <= j < first_of(s, c) implies #[trigger] s[j] != c by {
            if j > 0 {
                assert(s.drop_first()[j - 1] != c);
            }
        }
    }
}

/// Lines that say the same have the same entries, and are as whole.
proof fn lemma_same_lines<E>(a: Seq<ParsedLine<E>>, b: Seq<ParsedLine<E>>)
    requires
        a.len() == b.len(),
        forall|i: int|
            0 <= i < a.len() ==> (#[trigger] a[i]).text@ == b[i].text@ && a[i].entry == b[i].entry,
    ensures
        entries_of(a) == entries_of(b),
        forall|i: int| corrupt_at(a, i) == corrupt_at(b, i),
    decreases a.len(),
{
    if a.len() > 0 {
        assert forall|i: int| 0 <= i < a.len() - 1 implies (#[trigger] a.drop_last()[i]).text@ == b.drop_last()[i].text@
            && a.drop_last()[i].entry == b.drop_last()[i].entry by {
            assert(a[i].text@ == b[i].text@);
        }
        lemma_same_lines(a.drop_last(), b.drop_last());
        assert(a[a.len() - 1].text@ == b[a.len() - 1].text@);
    }
    assert forall|i: int| corrupt_at(a, i) == corrupt_at(b, i) by {
        if 0 <= i < a.len() {
            assert(a[i].text@ == b[i].text@);
            assert forall|j: int| 0 <= j < i implies a[j].malformed() == b[j].malformed() by {
                assert(a[j].text@ == b[j].text@);
            }
        }
    }
}

/// An entry whose durable append succeeded is read back. The journal was one
/// that can be read, whether or not it ended in a half-written line; it was
/// opened, which mended it; and the entry was written on a line of its own.
/// Its header is then as it was, and what is read of it are the entries it had
/// and that one.
pub proof fn law_a_durable_append_is_read_back<E>(
    file: Seq<char>,
    lines: Seq<ParsedLine<E>>,
    mended: Seq<Seq<char>>,
    line: Seq<char>,
    again: Seq<ParsedLine<E>>,
    parse: spec_fn(Seq<char>) -> Result<E, String>,
)
    requires
        split_lines(file).len() > 0,
        forall|i: int| 0 <= i < split_lines(file).len() ==> is_plain(#[trigger] split_lines(file)[i]),
        parses(lines, split_lines(file).skip(1), parse),
        forall|i: int| !corrupt_at(lines, i),
        is_mended(mended, split_lines(file)[0], lines),
        is_plain(line),
        trimmed(line).len() > 0,
        parse(line) is Ok,
        parses(again, split_lines(text_of(mended) + line + seq!['\n']).skip(1), parse),
    ensures
        split_lines(text_of(mended) + line + seq!['\n'])[0] == split_lines(file)[0],
        entries_of(again) == entries_of(lines).push(parse(line)->Ok_0),
        forall|i: int| !corrupt_at(again, i),
{
    let kept = whole(lines);
    let texts = split_lines(file);
    assert forall|i: int| 0 <= i < mended.len() implies is_plain(#[trigger] mended[i]) by {
        if i > 0 {
            assert(mended[(i - 1) + 1] == kept[i - 1].text@);
            assert(lines[i - 1].text@ == texts.skip(1)[i - 1]);
            assert(kept[i - 1] == lines[i - 1]);
            assert(is_plain(texts[i]));
        } else {
            assert(is_plain(texts[0]));
        }
    }
    law_an_appended_line_stands_on_its_own(mended, line);
    let after = mended.push(line).skip(1);
    let last = again.last();
    assert(again.len() == kept.len() + 1);
    assert(after[kept.len() as int] == line);
    assert(last.text@ == line && last.entry == parse(line));
    assert forall|i: int| 0 <= i < again.len() implies (#[trigger] again[i]).text@ == kept.push(last)[i].text@
        && again[i].entry == kept.push(last)[i].entry by {
        assert(again[i].text@ == after[i]);
        if i < kept.len() {
            assert(mended[i + 1] == kept[i].text@);
            assert(kept[i] == lines[i]);
            assert(lines[i].entry == parse(texts.skip(1)[i]));
        }
    }
    lemma_same_lines(again, kept.push(last));
    law_an_entry_appended_to_a_mended_journal_is_read_last(lines, last);
}

/// What is found under a key is a record of the log that has that key, and
/// something is found wherever there is one.
pub proof fn law_a_key_finds_its_own_record(commands: CommandLog, key: &str, r: Option<&CommandRecord>, i: int)
    requires
        commands.wf(),
        call_ensures(CommandLog::get, (&commands, key), r),
    ensures
        r matches Some(record) ==> record.key@ == key@ && commands.log().contains(*record),
        0 <= i < commands.log().len() && commands.log()[i].key@ == key@ ==> (r matches Some(record) && *record
            == commands.log()[i]),
{
    commands.lemma_distinct();
    if r is Some {
        lemma_found_under_key(commands.log(), key@);
    }
    if 0 <= i < commands.log().len() && commands.log()[i].key@ == key@ {
        lemma_under_key_at(commands.log(), i);
    }
}

proof fn lemma_found_under_key(records: Seq<CommandRecord>, key: Seq<char>)
    requires
        under_key(records, key) is Some,
    ensures
        (under_key(records, key)->0).key@ == key,
        records.contains(under_key(records, key)->0),
    decreases records.len(),
{
    if records[0].key@ == key {
        assert(records[0] == under_key(records, key)->0);
    } else {
        lemma_found_under_key(records.skip(1), key);
        let found = under_key(records, key)->0;
        let i = choose|i: int| 0 <= i < records.skip(1).len() && records.skip(1)[i] == found;
        assert(records[i + 1] == found);
    }
}

/// A key keeps the answer it was first given: a record for a key that is known
/// changes nothing, and one for a new key is kept last, the oldest going first
/// where there is no room.
pub proof fn law_a_key_keeps_its_first_answer(records: Seq<CommandRecord>, record: CommandRecord, cap: int)
    requires
        cap >= 1,
        records.len() <= cap,
    ensures
        (exists|i: int| 0 <= i < records.len() && (#[trigger] records[i]).key@ == record.key@) ==> remembered(
            records,
            record,
            cap,
        ) == records,
        (forall|i: int| 0 <= i < records.len() ==> (#[trigger] records[i]).key@ != record.key@) ==> {
            let after = remembered(records, record, cap);
            &&& after.len() <= cap
            &&& after.last() == record
            &&& records.len() < cap ==> after == records.push(record)
            &&& records.len() == cap ==> after == records.skip(1).push(record)
        },
{
    if exists|i: int| 0 <= i < records.len() && (#[trigger] records[i]).key@ == record.key@ {
        if under_key(records, record.key@) is None {
            lemma_absent(records, record.key@);
        }
    }
    if forall|i: int| 0 <= i < records.len() ==> (#[trigger] records[i]).key@ != record.key@ {
        lemma_not_under_key(records, record.key@);
        if records.len() == cap {
            assert(records.push(record).skip(1) =~= records.skip(1).push(record));
        }
    }
}

/// A request under a key that was answered is answered the same again, and
/// refused where it asks for something else; any other is applied. A journal
/// that stopped takes nothing.
pub proof fn law_a_repeated_request_is_answered_the_same(
    journal: Journal,
    commands: CommandLog,
    key: Option<String>,
    payload_hash: &str,
    verdict: Verdict,
    i: int,
)
    requires
        commands.wf(),
        call_ensures(judge, (&journal, &commands, &key, payload_hash), verdict),
    ensures
        journal.broken is Some ==> (verdict matches Verdict::Refuse(e) && e.status == 503),
        journal.broken is None && key is None ==> verdict is Apply,
        journal.broken is None && key is Some && 0 <= i < commands.log().len() && commands.log()[i].key@ == (key->0)@
            ==> {
            let record = commands.log()[i];
            &&& record.payload_hash@ == payload_hash@ ==> verdict == (Verdict::Replay {
                status: record.status,
                body: record.result,
                seq: record.seq,
            })
            &&& record.payload_hash@ != payload_hash@ ==> (verdict matches Verdict::Refuse(e) && e.status == 409)
        },
        journal.broken is None && key is Some && (forall|j: int|
            0 <= j < commands.log().len() ==> (#[trigger] commands.log()[j]).key@ != (key->0)@) ==> verdict is Apply,
{
    commands.lemma_distinct();
    if key is Some && 0 <= i < commands.log().len() && commands.log()[i].key@ == (key->0)@ {
        lemma_under_key_at(commands.log(), i);
    }
    if key is Some && (forall|j: int|
        0 <= j < commands.log().len() ==> (#[trigger] commands.log()[j]).key@ != (key->0)@) {
        lemma_not_under_key(commands.log(), (key->0)@);
    }
}

/// An entry is read from every line that holds one, in their order, and from
/// no other: a blank line holds none.
pub proof fn law_every_line_is_read_in_order<E>(lines: Seq<ParsedLine<E>>, line: ParsedLine<E>)
    ensures
        entries_of(Seq::<ParsedLine<E>>::empty()).len() == 0,
        trimmed(line.text@).len() > 0 && line.entry is Ok ==> entries_of(lines.push(line)) == entries_of(lines).push(
            line.entry->Ok_0,
        ),
        trimmed(line.text@).len() == 0 || line.entry is Err ==> entries_of(lines.push(line)) == entries_of(lines),
{
    assert(lines.push(line).drop_last() =~= lines);
}

/// What a seed is drawn from is each byte of the ticker in turn, mixed in and
/// spread over the whole number.
pub proof fn law_a_seed_mixes_every_byte_in(bytes: Seq<u8>, one: u8)
    ensures
        spread(Seq::<u8>::empty()) == 14_695_981_039_346_656_037,
        spread(bytes.push(one)) == ((spread(bytes) ^ (one as u64)) * 1_099_511_628_211)
            % 18_446_744_073_709_551_616,
{
    assert(bytes.push(one).drop_last() =~= bytes);
}

/// Whoever a command was sent by is known by its user where it has one.
pub proof fn law_only_a_user_is_a_user(principal: Principal, r: Option<UserId>)
    requires
        call_ensures(Principal::user, (principal,), r),
    ensures
        r matches Some(user) ==> principal == (Principal::User { id: user.0 }),
        r is None ==> principal is Operator || principal is Anonymous || principal is Engine,
{
}

} // verus!
