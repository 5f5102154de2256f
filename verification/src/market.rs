//! The market's clearing: everybody's money, every order ever sent, and what
//! is owed on every share.
//!
//! The currency itself lives in a ledger, and the orders that rest live in
//! the books of their symbols. What is decided here is what to ask of both:
//! an operation reads the ledger as a [`LedgerView`], hands back the
//! movements and holds it wants, and is told which transaction they became.

use vstd::prelude::*;

use crate::account::{
    check_transfer, transfer_fault, Account, AccountId, Context, LedgerEntry, LedgerKind, MoneyError, User, UserId,
};
use crate::auth::{is_key, key_digest_text, new_api_key, Keyring, NoRandomness};
use crate::events::EventLog;
use crate::ledger::{Draft, LedgerError, LedgerView, Posting, Reason, WalletId};
use crate::listings::Listings;
use crate::orders::OrderLog;
use crate::table::Table;
use crate::num::{clamp_u64, max_int, usat_add};
use crate::text::{clean, cleaned_option, copy_text, decimal, numbered, opt_text};
use crate::trading::{lemma_sum_push, sum_of, Fees, FillRecord, Position, Trader, TraderId};

verus! {

/// Longest name of a user, an account or a trader.
pub const MAX_PERSON_NAME: usize = 64;

/// Longest email address.
pub const MAX_EMAIL: usize = 254;

/// Who is who: the API keys, and who owns which trader.
pub struct Directory {
    pub keys: Keyring,
    pub owners: Table<u64, u64>,
}

impl Directory {
    /// The directory is in order.
    pub open spec fn wf(&self) -> bool {
        self.keys.wf() && self.owners.wf()
    }

    /// The user `key` speaks for, if it is one of ours.
    pub fn user_of(&self, key: &str) -> (r: Option<UserId>)
        requires
            self.wf(),
        ensures
            r == self.keys.ring().speaks_for(key_digest_text(key@)),
    {
        self.keys.user_of(key)
    }

    /// The user `trader` belongs to, if the trader exists.
    pub fn owner_of(&self, trader: TraderId) -> (r: Option<UserId>)
        requires
            self.wf(),
        ensures
            r == (if self.owners.map().contains_key(trader.0) {
                Some(UserId(self.owners.map()[trader.0]))
            } else {
                None
            }),
    {
        match self.owners.get(&trader.0) {
            Some(user) => Some(UserId(*user)),
            None => None,
        }
    }
}

/// The wallets a world has exactly one of, whatever it lists or who signs
/// up.
#[derive(Clone, Copy, Debug, PartialEq, Eq, Structural)]
pub struct Wallets {
    /// The mint and burn control account.
    pub issuance: WalletId,
    /// Where the genesis supply sits, and what the faucet funds new accounts
    /// out of.
    pub treasury: WalletId,
    /// Where fees collect. Nothing leaves the world through a fee.
    pub venue: WalletId,
    /// The counterparty for fills against unfunded liquidity.
    pub synthetic: WalletId,
}

impl Default for Wallets {
    /// The ids a fresh ledger hands out.
    fn default() -> (wallets: Self)
        ensures
            wallets.issuance == WalletId(1),
            wallets.treasury == WalletId(2),
            wallets.venue == WalletId(3),
            wallets.synthetic == WalletId(4),
    {
        Wallets { issuance: WalletId(1), treasury: WalletId(2), venue: WalletId(3), synthetic: WalletId(4) }
    }
}

/// What the ledger is asked to do.
#[derive(Debug)]
pub enum Ask {
    /// Move currency that exists.
    Post(Draft),
    /// Create currency in a wallet.
    Mint { wallet: WalletId, cents: i64 },
    /// Destroy currency out of a wallet.
    Burn { wallet: WalletId, cents: i64 },
}

/// A movement of one account's money: what to ask of the ledger, and the row
/// the account writes once it has happened.
#[derive(Debug)]
pub struct Movement {
    pub ask: Ask,
    pub account: AccountId,
    pub kind: LedgerKind,
    pub amount_cents: i64,
    pub memo: Option<String>,
}

/// The market: everybody's money and every order ever sent.
pub struct Market {
    /// The symbols, in listing order.
    pub listings: Listings,
    pub directory: Directory,
    pub events: EventLog,
    /// The four wallets the world always has.
    pub wallets: Wallets,
    /// Per symbol, the wallet its dividends and its delisting buyout are
    /// paid out of. A payout it cannot fund is refused, never clipped.
    pub issuers: Table<String, WalletId>,
    /// Settlements the ledger refused after the book had already traded.
    /// Always zero in a healthy market.
    pub settlement_failures: u64,
    pub users: Table<u64, User>,
    pub next_user_id: u64,
    pub accounts: Table<u64, Account>,
    pub next_account_id: u64,
    pub traders: Table<u64, Trader>,
    pub next_trader_id: u64,
    /// Ids for the stops held on the symbols. Separate from order ids: a
    /// stop only becomes an order when it fires.
    pub next_stop_id: u64,
    /// The lowest id the next trader order may take, in any book.
    pub next_order_id: u64,
    /// Every order the log still holds.
    pub orders: OrderLog,
    pub fill_log: usize,
    pub ledger_log: usize,
    /// Orders sent to a book since start-up, and submissions turned away
    /// before they got there. Counters, not state: a restart begins them
    /// again.
    pub orders_placed: u64,
    pub orders_refused: u64,
    /// Fills booked to traders' accounts since start-up.
    pub fills_booked: u64,
    /// What the venue charges for a fill.
    pub fees: Fees,
    /// What a newly listed symbol's issuer wallet is funded with.
    pub issuer_float_cents: i64,
}

/// A name as it was given, or the one that stands in where none was.
pub open spec fn name_or(name: Option<Seq<char>>, prefix: Seq<char>, id: u64) -> Seq<char> {
    match cleaned_option(name, MAX_PERSON_NAME as nat) {
        Some(given) => given,
        None => prefix + decimal(id as nat),
    }
}

/// `name` cleaned, or `prefix` and `id` where nothing is left of it.
fn named(name: &Option<String>, prefix: &str, id: u64) -> (text: String)
    ensures
        text@ == name_or(opt_text(*name), prefix@, id),
{
    match clean(name, MAX_PERSON_NAME) {
        Some(given) => given,
        None => numbered(prefix, id),
    }
}

impl Market {
    /// Everybody stands under their own id, and no id is handed out twice;
    /// the directory knows whose each trader is; and the venue charges no
    /// more than the whole of a fill.
    pub open spec fn wf(&self) -> bool {
        &&& self.directory.wf()
        &&& self.events.wf()
        &&& self.issuers.wf()
        &&& self.users.wf()
        &&& self.accounts.wf()
        &&& self.traders.wf()
        &&& self.orders.wf()
        &&& self.fees.bounded()
        &&& forall|id: u64| #[trigger] self.users.map().contains_key(id) ==> self.user_wf(id)
        &&& forall|id: u64| #[trigger] self.accounts.map().contains_key(id) ==> self.account_wf(id)
        &&& forall|id: u64| #[trigger] self.traders.map().contains_key(id) ==> self.trader_wf(id)
        &&& forall|id: u64| #[trigger]
            self.directory.owners.map().contains_key(id) == self.traders.map().contains_key(id)
    }

    /// A user's own part of [`Market::wf`].
    pub open spec fn user_wf(&self, id: u64) -> bool {
        self.users.map()[id].id.0 == id && id < self.next_user_id
    }

    /// An account's own part of [`Market::wf`].
    pub open spec fn account_wf(&self, id: u64) -> bool {
        let account = self.accounts.map()[id];
        account.id.0 == id && id < self.next_account_id && account.wf()
    }

    /// A trader's own part of [`Market::wf`].
    pub open spec fn trader_wf(&self, id: u64) -> bool {
        let trader = self.traders.map()[id];
        trader.id.0 == id && id < self.next_trader_id && trader.wf() && self.directory.owners.map()[id]
            == trader.user_id.0
    }

    /// The user a registration made.
    pub open spec fn registered(
        user: User,
        id: u64,
        name: Option<Seq<char>>,
        email: Option<Seq<char>>,
        now_ms: i64,
        accounts: Seq<AccountId>,
    ) -> bool {
        &&& user.id == UserId(id)
        &&& user.name@ == name_or(name, "user-"@, id)
        &&& opt_text(user.email) == cleaned_option(email, MAX_EMAIL as nat)
        &&& user.created_at_ms == now_ms
        &&& user.accounts@ == accounts
    }

    /// Add a user, whose key is not yet anybody's.
    fn add_user(&mut self, name: &Option<String>, email: &Option<String>, now_ms: i64) -> (id: UserId)
        requires
            old(self).wf(),
            old(self).next_user_id < u64::MAX,
        ensures
            final(self).wf(),
            id == UserId(old(self).next_user_id),
            *final(self) == (Market {
                users: final(self).users,
                next_user_id: (old(self).next_user_id + 1) as u64,
                ..*old(self)
            }),
            final(self).users.map() == old(self).users.map().insert(id.0, final(self).users.map()[id.0]),
            Market::registered(
                final(self).users.map()[id.0],
                id.0,
                opt_text(*name),
                opt_text(*email),
                now_ms,
                Seq::empty(),
            ),
    {
        let id: u64 = self.next_user_id;
        let user = User {
            id: UserId(id),
            name: named(name, "user-", id),
            email: clean(email, MAX_EMAIL),
            created_at_ms: now_ms,
            accounts: Vec::new(),
        };
        self.next_user_id = id + 1;
        self.users.insert(id, user);
        UserId(id)
    }

    /// The market after a user has registered and been given the key `key`,
    /// which is held for the response that hands it out.
    pub open spec fn signed_up(
        &self,
        after: &Market,
        name: Option<String>,
        email: Option<String>,
        now_ms: i64,
        key: Seq<char>,
    ) -> bool {
        let id = self.next_user_id;
        &&& *after == (Market {
            users: after.users,
            next_user_id: (id + 1) as u64,
            directory: Directory { keys: after.directory.keys, ..self.directory },
            ..*self
        })
        &&& after.users.map() == self.users.map().insert(id, after.users.map()[id])
        &&& Market::registered(after.users.map()[id], id, opt_text(name), opt_text(email), now_ms, Seq::empty())
        &&& after.directory.keys.ring() == self.directory.keys.ring().put(key_digest_text(key), id)
        &&& after.directory.keys.issued() == self.directory.keys.issued().insert(id, key)
    }

    /// Register a user with the API key that was drawn for them. `name` and
    /// `email` are trimmed and truncated; an empty name becomes `user-{id}`.
    /// The key is read back once with [`Market::take_issued_key`], for the
    /// response that created them. Where none could be drawn nothing happens.
    pub fn create_user_drawn(
        &mut self,
        name: Option<String>,
        email: Option<String>,
        now_ms: i64,
        drawn: Result<String, NoRandomness>,
    ) -> (r: Result<UserId, NoRandomness>)
        requires
            old(self).wf(),
            old(self).next_user_id < u64::MAX,
        ensures
            final(self).wf(),
            match drawn {
                Ok(key) => {
                    &&& r == Ok::<UserId, NoRandomness>(UserId(old(self).next_user_id))
                    &&& old(self).signed_up(final(self), name, email, now_ms, key@)
                },
                Err(e) => r == Err::<UserId, NoRandomness>(e) && *final(self) == *old(self),
            },
    {
        match self.directory.keys.issue_drawn(UserId(self.next_user_id), drawn) {
            Ok(_) => Ok(self.add_user(&name, &email, now_ms)),
            Err(e) => Err(e),
        }
    }

    /// Register a user and issue their API key. Whether one can be made is
    /// the operating system's to say; [`Market::create_user_drawn`] says what
    /// each draw comes to.
    pub fn create_user_with_key(&mut self, name: Option<String>, email: Option<String>, now_ms: i64) -> (r: Result<
        UserId,
        NoRandomness,
    >)
        requires
            old(self).wf(),
            old(self).next_user_id < u64::MAX,
        ensures
            final(self).wf(),
            match r {
                Ok(id) => {
                    &&& id == UserId(old(self).next_user_id)
                    &&& exists|key: Seq<char>| #[trigger]
                        is_key(key) && old(self).signed_up(final(self), name, email, now_ms, key)
                },
                Err(_) => *final(self) == *old(self),
            },
    {
        let drawn = new_api_key();
        let ghost key = drawn;
        let r = self.create_user_drawn(name, email, now_ms, drawn);
        proof {
            if r is Ok {
                assert(is_key(key->Ok_0@));
            }
        }
        r
    }

    /// Register a user whose key was made elsewhere: its digest speaks for
    /// them, and nothing is held back to hand out. `name` and `email` are
    /// trimmed and truncated; an empty name becomes `user-{id}`.
    pub fn create_user(&mut self, name: Option<String>, email: Option<String>, now_ms: i64, key_digest: String) -> (id:
        UserId)
        requires
            old(self).wf(),
            old(self).next_user_id < u64::MAX,
        ensures
            final(self).wf(),
            id == UserId(old(self).next_user_id),
            *final(self) == (Market {
                users: final(self).users,
                next_user_id: (old(self).next_user_id + 1) as u64,
                directory: Directory { keys: final(self).directory.keys, ..old(self).directory },
                ..*old(self)
            }),
            final(self).users.map() == old(self).users.map().insert(id.0, final(self).users.map()[id.0]),
            Market::registered(
                final(self).users.map()[id.0],
                id.0,
                opt_text(name),
                opt_text(email),
                now_ms,
                Seq::empty(),
            ),
            final(self).directory.keys.ring() == old(self).directory.keys.ring().put(key_digest@, id.0),
            final(self).directory.keys.issued() == old(self).directory.keys.issued(),
    {
        let id = self.add_user(&name, &email, now_ms);
        self.directory.keys.put(key_digest, id);
        id
    }

    /// Take the key issued to `user` at sign-up, once.
    pub fn take_issued_key(&mut self, user: UserId) -> (r: Option<String>)
        requires
            old(self).wf(),
        ensures
            final(self).wf(),
            *final(self) == (Market {
                directory: Directory { keys: final(self).directory.keys, ..old(self).directory },
                ..*old(self)
            }),
            final(self).directory.keys.ring() == old(self).directory.keys.ring(),
            final(self).directory.keys.issued() == old(self).directory.keys.issued().remove(user.0),
            match r {
                Some(key) => old(self).directory.keys.issued().contains_key(user.0) && key@
                    == old(self).directory.keys.issued()[user.0],
                None => !old(self).directory.keys.issued().contains_key(user.0),
            },
    {
        self.directory.keys.take_issued_key(user)
    }

    /// Why an account cannot be opened with `cash_cents`, if it cannot: cash
    /// is not negative, no more than one transfer moves, and in the treasury.
    pub open spec fn opening_fault(&self, ledger: &LedgerView, cash_cents: i64) -> Option<MoneyError> {
        let available = ledger.available_of(self.wallets.treasury);
        if cash_cents < 0 {
            Some(MoneyError::NotPositive { amount_cents: cash_cents })
        } else if cash_cents == 0 {
            None
        } else if transfer_fault(cash_cents) is Some {
            transfer_fault(cash_cents)
        } else if cash_cents > available {
            Some(
                MoneyError::Ledger(
                    LedgerError::Insufficient {
                        wallet: self.wallets.treasury,
                        needed_cents: cash_cents,
                        available_cents: available,
                    },
                ),
            )
        } else {
            None
        }
    }

    /// Whether an account can be opened with `cash_cents`, so that nothing is
    /// opened for one that cannot.
    pub fn check_opening(&self, ledger: &LedgerView, cash_cents: i64) -> (r: Result<(), MoneyError>)
        requires
            ledger.wf(),
        ensures
            match r {
                Ok(()) => self.opening_fault(ledger, cash_cents) is None,
                Err(e) => self.opening_fault(ledger, cash_cents) == Some(e),
            },
    {
        if cash_cents < 0 {
            return Err(MoneyError::NotPositive { amount_cents: cash_cents });
        }
        if cash_cents > 0 {
            match check_transfer(cash_cents) {
                Ok(()) => {},
                Err(e) => {
                    return Err(e);
                },
            }
            let available: i64 = ledger.available(self.wallets.treasury);
            if cash_cents > available {
                return Err(
                    MoneyError::Ledger(
                        LedgerError::Insufficient {
                            wallet: self.wallets.treasury,
                            needed_cents: cash_cents,
                            available_cents: available,
                        },
                    ),
                );
            }
        }
        Ok(())
    }

    /// The users, once an account has been opened for one of them.
    pub open spec fn listed_account(
        before: Map<u64, User>,
        after: Map<u64, User>,
        user: UserId,
        account: AccountId,
    ) -> bool {
        if before.contains_key(user.0) {
            &&& after == before.insert(user.0, after[user.0])
            &&& after[user.0] == (User { accounts: after[user.0].accounts, ..before[user.0] })
            &&& after[user.0].accounts@ == before[user.0].accounts@.push(account)
        } else {
            after == before
        }
    }

    /// The faucet's payment of an opening balance.
    pub open spec fn opening_payment(&self, movement: Movement, account: AccountId, wallet: WalletId, cash_cents: i64) -> bool {
        &&& moves(movement.ask, Reason::Faucet, self.wallets.treasury, wallet, cash_cents)
        &&& movement.account == account
        &&& movement.kind == LedgerKind::Deposit
        &&& movement.amount_cents == cash_cents
        &&& opt_text(movement.memo) == Some("opening balance"@)
    }

    /// The market is `self` with an account opened for a user, and `funding`
    /// what is to be paid into it.
    pub open spec fn account_opened(
        &self,
        after: &Market,
        id: AccountId,
        funding: Option<Movement>,
        user_id: UserId,
        name: Option<Seq<char>>,
        cash_cents: i64,
        wallet: WalletId,
        now_ms: i64,
    ) -> bool {
        &&& id == AccountId(self.next_account_id)
        &&& *after == (Market {
            accounts: after.accounts,
            next_account_id: (self.next_account_id + 1) as u64,
            users: after.users,
            ..*self
        })
        &&& after.accounts.map() == self.accounts.map().insert(
            id.0,
            after.accounts.map()[id.0],
        )
        &&& Account::opened(
            after.accounts.map()[id.0],
            id,
            user_id,
            name_or(name, "account-"@, id.0),
            wallet,
            self.ledger_log,
            now_ms,
        )
        &&& Market::listed_account(self.users.map(), after.users.map(), user_id, id)
        &&& match funding {
            Some(movement) => cash_cents > 0 && self.opening_payment(
                movement,
                id,
                wallet,
                cash_cents,
            ),
            None => cash_cents == 0,
        }
    }

    /// Open an account for `user_id` against `wallet`, an empty wallet of its
    /// own, and pay it `cash_cents` out of treasury.
    ///
    /// The account itself opens empty and is then funded by the faucet, which
    /// is a *transfer*: opening an account moves currency that already exists
    /// rather than creating any, so no route a player can reach changes the
    /// supply. A treasury that cannot cover the request refuses it.
    pub fn open_account(
        &mut self,
        ledger: &LedgerView,
        user_id: UserId,
        name: Option<String>,
        cash_cents: i64,
        wallet: WalletId,
        now_ms: i64,
    ) -> (r: Result<(AccountId, Option<Movement>), MoneyError>)
        requires
            old(self).wf(),
            ledger.wf(),
            old(self).next_account_id < u64::MAX,
        ensures
            final(self).wf(),
            match r {
                Ok((id, funding)) => old(self).opening_fault(ledger, cash_cents) is None && old(self).account_opened(
                    final(self),
                    id,
                    funding,
                    user_id,
                    opt_text(name),
                    cash_cents,
                    wallet,
                    now_ms,
                ),
                Err(e) => old(self).opening_fault(ledger, cash_cents) == Some(e) && *final(self) == *old(self),
            },
    {
        match self.check_opening(ledger, cash_cents) {
            Ok(()) => {},
            Err(e) => {
                return Err(e);
            },
        }
        let id: u64 = self.next_account_id;
        let text = named(&name, "account-", id);
        let account = Account::open(AccountId(id), user_id, text, wallet, self.ledger_log, now_ms);
        self.next_account_id = id + 1;
        self.accounts.insert(id, account);
        let ghost before = self.users;
        match self.users.get_mut(&user_id.0) {
            Some(user) => {
                user.accounts.push(AccountId(id));
            },
            None => {},
        }
        proof {
            assert(Market::listed_account(before.map(), self.users.map(), user_id, AccountId(id)));
        }
        if cash_cents > 0 {
            match self.fund_account(AccountId(id), cash_cents, Some("opening balance".to_owned())) {
                Ok(movement) => Ok((AccountId(id), Some(movement))),
                Err(_) => {
                    assert(false);
                    Ok((AccountId(id), None))
                },
            }
        } else {
            Ok((AccountId(id), None))
        }
    }

    /// Pay `cents` into `account` out of treasury.
    ///
    /// The faucet. It moves currency rather than making it, so it can run
    /// dry, and when it does the ledger says so.
    pub fn fund_account(&self, account: AccountId, cents: i64, memo: Option<String>) -> (r: Result<Movement, MoneyError>)
        requires
            self.wf(),
        ensures
            self.moved_in(r, account, Reason::Faucet, self.wallets.treasury, cents, memo),
    {
        self.move_in(account, Reason::Faucet, self.wallets.treasury, cents, memo)
    }

    /// Why nothing can move through an account, if it cannot.
    pub open spec fn movement_fault(&self, account: AccountId, cents: i64) -> Option<MoneyError> {
        if transfer_fault(cents) is Some {
            transfer_fault(cents)
        } else if !self.accounts.map().contains_key(account.0) {
            Some(MoneyError::NoWallet { account })
        } else {
            None
        }
    }

    /// Create `cents` and put them in `account`. Operator authority: this is
    /// the only way currency enters the world after genesis.
    pub fn mint_into(&self, account: AccountId, cents: i64, memo: Option<String>) -> (r: Result<Movement, MoneyError>)
        requires
            self.wf(),
        ensures
            match r {
                Ok(movement) => {
                    &&& self.movement_fault(account, cents) is None
                    &&& movement == (Movement {
                        ask: Ask::Mint { wallet: self.accounts.map()[account.0].wallet, cents },
                        account,
                        kind: LedgerKind::Deposit,
                        amount_cents: cents,
                        memo,
                    })
                },
                Err(e) => self.movement_fault(account, cents) == Some(e),
            },
    {
        match check_transfer(cents) {
            Ok(()) => {},
            Err(e) => {
                return Err(e);
            },
        }
        match self.wallet_of(account) {
            Ok(wallet) => Ok(
                Movement { ask: Ask::Mint { wallet, cents }, account, kind: LedgerKind::Deposit, amount_cents: cents, memo },
            ),
            Err(e) => Err(e),
        }
    }

    /// Destroy `cents` out of `account`. Operator authority: the only way
    /// currency leaves the world.
    pub fn burn_from(&self, account: AccountId, cents: i64, memo: Option<String>) -> (r: Result<Movement, MoneyError>)
        requires
            self.wf(),
        ensures
            match r {
                Ok(movement) => {
                    &&& self.movement_fault(account, cents) is None
                    &&& movement == (Movement {
                        ask: Ask::Burn { wallet: self.accounts.map()[account.0].wallet, cents },
                        account,
                        kind: LedgerKind::Withdrawal,
                        amount_cents: (-cents) as i64,
                        memo,
                    })
                },
                Err(e) => self.movement_fault(account, cents) == Some(e),
            },
    {
        match check_transfer(cents) {
            Ok(()) => {},
            Err(e) => {
                return Err(e);
            },
        }
        match self.wallet_of(account) {
            Ok(wallet) => Ok(
                Movement {
                    ask: Ask::Burn { wallet, cents },
                    account,
                    kind: LedgerKind::Withdrawal,
                    amount_cents: -cents,
                    memo,
                },
            ),
            Err(e) => Err(e),
        }
    }

    /// What a movement into an account out of another wallet comes to.
    pub open spec fn moved_in(
        &self,
        r: Result<Movement, MoneyError>,
        account: AccountId,
        reason: Reason,
        from: WalletId,
        cents: i64,
        memo: Option<String>,
    ) -> bool {
        match r {
            Ok(movement) => {
                &&& self.movement_fault(account, cents) is None
                &&& moves(movement.ask, reason, from, self.accounts.map()[account.0].wallet, cents)
                &&& movement.account == account
                &&& movement.kind == kind_of(reason)
                &&& movement.amount_cents == cents
                &&& movement.memo == memo
            },
            Err(e) => self.movement_fault(account, cents) == Some(e),
        }
    }

    /// Move `cents` from one wallet into `account`. What the account's
    /// history calls a movement follows from why it happened, so the caller
    /// does not get to say both.
    pub fn move_in(&self, account: AccountId, reason: Reason, from: WalletId, cents: i64, memo: Option<String>) -> (r:
        Result<Movement, MoneyError>)
        requires
            self.wf(),
        ensures
            self.moved_in(r, account, reason, from, cents, memo),
    {
        let kind = match reason {
            Reason::Burn => LedgerKind::Withdrawal,
            Reason::Dividend => LedgerKind::Dividend,
            Reason::Delisting => LedgerKind::Delisting,
            _ => LedgerKind::Deposit,
        };
        match check_transfer(cents) {
            Ok(()) => {},
            Err(e) => {
                return Err(e);
            },
        }
        match self.wallet_of(account) {
            Ok(wallet) => {
                let draft = Draft::new(reason).debit(from, cents).credit(wallet, cents);
                proof {
                    assert(draft.postings@ =~= seq![
                        Posting { wallet: from, cents: (-cents) as i64 },
                        Posting { wallet, cents },
                    ]);
                }
                Ok(Movement { ask: Ask::Post(draft), account, kind, amount_cents: cents, memo })
            },
            Err(e) => Err(e),
        }
    }

    /// The wallet `account`'s money lives in.
    pub fn wallet_of(&self, account: AccountId) -> (r: Result<WalletId, MoneyError>)
        requires
            self.wf(),
        ensures
            r == (if self.accounts.map().contains_key(account.0) {
                Ok(self.accounts.map()[account.0].wallet)
            } else {
                Err(MoneyError::NoWallet { account })
            }),
    {
        match self.accounts.get(&account.0) {
            Some(found) => Ok(found.wallet),
            None => Err(MoneyError::NoWallet { account }),
        }
    }

    /// The market is `self` with a movement written into the history of the
    /// account it went through, `entry` being the row.
    pub open spec fn entered(
        &self,
        after: &Market,
        ledger: &LedgerView,
        movement: Movement,
        tx_id: u64,
        now_ms: i64,
        entry: LedgerEntry,
    ) -> bool {
        let id = movement.account.0;
        let before = self.accounts.map()[id];
        let account = after.accounts.map()[id];
        let context = Context { tx_id, ts_ms: now_ms, symbol: None, order_id: None, memo: movement.memo };
        let closing = crate::account::closing_balances(
            ledger.balance_of(before.wallet),
            seq![(movement.kind, movement.amount_cents)],
        )[0];
        &&& *after == (Market { accounts: after.accounts, ..*self })
        &&& after.accounts.map() == self.accounts.map().insert(id, account)
        &&& account.wrote(&before, movement.kind, movement.amount_cents, closing, context)
        &&& entry == account.history().last()
    }

    /// Write an account's view of a movement that has become transaction
    /// `tx_id`; `ledger` is the ledger after it.
    pub fn write_entry(&mut self, ledger: &LedgerView, movement: &Movement, tx_id: u64, now_ms: i64) -> (entry: LedgerEntry)
        requires
            old(self).wf(),
            ledger.wf(),
            old(self).accounts.map().contains_key(movement.account.0),
            old(self).accounts.map()[movement.account.0].entries_total < u64::MAX,
            movement.amount_cents > i64::MIN,
        ensures
            final(self).wf(),
            old(self).entered(final(self), ledger, *movement, tx_id, now_ms, entry),
    {
        let context = Context::plain(tx_id, now_ms, copy_text(&movement.memo));
        match self.accounts.get_mut(&movement.account.0) {
            Some(account) => account.record(ledger, movement.kind, movement.amount_cents, &context),
            None => {
                assert(false);
                LedgerEntry {
                    id: 0,
                    ts_ms: now_ms,
                    kind: movement.kind,
                    tx_id,
                    amount_cents: movement.amount_cents,
                    balance_cents: 0,
                    symbol: None,
                    order_id: None,
                    memo: None,
                }
            },
        }
    }

    /// The wallet a symbol's dividends and buyout are paid out of, if one has
    /// been opened.
    pub fn issuer_wallet(&self, symbol: &str) -> (r: Option<WalletId>)
        requires
            self.wf(),
        ensures
            r == (if self.issuers.map().contains_key(symbol@) {
                Some(self.issuers.map()[symbol@])
            } else {
                None
            }),
    {
        match self.issuers.get(&symbol.to_owned()) {
            Some(wallet) => Some(*wallet),
            None => None,
        }
    }

    /// Pay a symbol's dividends and buyout out of `wallet`, unless it has a
    /// wallet for them already. Returns the one it has.
    pub fn open_issuer(&mut self, symbol: &str, wallet: WalletId) -> (kept: WalletId)
        requires
            old(self).wf(),
        ensures
            final(self).wf(),
            *final(self) == (Market { issuers: final(self).issuers, ..*old(self) }),
            old(self).issuers.map().contains_key(symbol@) ==> kept == old(self).issuers.map()[symbol@]
                && *final(self) == *old(self),
            !old(self).issuers.map().contains_key(symbol@) ==> kept == wallet && final(self).issuers.map()
                == old(self).issuers.map().insert(symbol@, wallet),
    {
        match self.issuer_wallet(symbol) {
            Some(kept) => kept,
            None => {
                self.issuers.insert(symbol.to_owned(), wallet);
                wallet
            },
        }
    }

    /// The trader a creation made.
    pub open spec fn created(
        trader: Trader,
        id: u64,
        user: UserId,
        account: AccountId,
        name: Option<Seq<char>>,
        fill_log: usize,
        now_ms: i64,
    ) -> bool {
        &&& trader.wf()
        &&& trader.id == TraderId(id)
        &&& trader.user_id == user
        &&& trader.account_id == account
        &&& trader.name@ == name_or(name, "trader-"@, id)
        &&& trader.positions.map() == Map::<Seq<char>, Position>::empty()
        &&& trader.reserved_shares.map() == Map::<Seq<char>, u64>::empty()
        &&& trader.fills@ == Seq::<FillRecord>::empty()
        &&& trader.fill_cap == max_int(fill_log as int, 1)
        &&& trader.next_fill_id == 1
        &&& trader.created_at_ms == now_ms
    }

    /// Create a trader for `user_id` that trades on `account_id`.
    pub fn create_trader(&mut self, user_id: UserId, account_id: AccountId, name: Option<String>, now_ms: i64) -> (id:
        TraderId)
        requires
            old(self).wf(),
            old(self).next_trader_id < u64::MAX,
        ensures
            final(self).wf(),
            id == TraderId(old(self).next_trader_id),
            *final(self) == (Market {
                traders: final(self).traders,
                next_trader_id: (old(self).next_trader_id + 1) as u64,
                directory: Directory { owners: final(self).directory.owners, ..old(self).directory },
                ..*old(self)
            }),
            final(self).traders.map() == old(self).traders.map().insert(id.0, final(self).traders.map()[id.0]),
            Market::created(
                final(self).traders.map()[id.0],
                id.0,
                user_id,
                account_id,
                opt_text(name),
                old(self).fill_log,
                now_ms,
            ),
            final(self).directory.owners.map() == old(self).directory.owners.map().insert(id.0, user_id.0),
    {
        let id: u64 = self.next_trader_id;
        self.next_trader_id = id + 1;
        let text = named(&name, "trader-", id);
        self.traders.insert(id, Trader::new(TraderId(id), user_id, account_id, text, self.fill_log, now_ms));
        self.directory.owners.insert(id, user_id.0);
        TraderId(id)
    }

    /// The market is `self` with somebody signed up: a user, its account and
    /// its trader, and `funding` what is to be paid into the account.
    pub open spec fn joined(
        &self,
        after: &Market,
        id: TraderId,
        funding: Option<Movement>,
        name: Option<Seq<char>>,
        email: Option<Seq<char>>,
        cash_cents: i64,
        wallet: WalletId,
        now_ms: i64,
        key_digest: Seq<char>,
    ) -> bool {
        let user = self.next_user_id;
        let account = self.next_account_id;
        &&& id == TraderId(self.next_trader_id)
        &&& *after == (Market {
            users: after.users,
            next_user_id: (user + 1) as u64,
            accounts: after.accounts,
            next_account_id: (account + 1) as u64,
            traders: after.traders,
            next_trader_id: (id.0 + 1) as u64,
            directory: after.directory,
            ..*self
        })
        &&& after.users.map() == self.users.map().insert(user, after.users.map()[user])
        &&& Market::registered(
            after.users.map()[user],
            user,
            name,
            email,
            now_ms,
            seq![AccountId(account)],
        )
        &&& after.accounts.map() == self.accounts.map().insert(
            account,
            after.accounts.map()[account],
        )
        &&& Account::opened(
            after.accounts.map()[account],
            AccountId(account),
            UserId(user),
            name_or(name, "account-"@, account),
            wallet,
            self.ledger_log,
            now_ms,
        )
        &&& after.traders.map() == self.traders.map().insert(
            id.0,
            after.traders.map()[id.0],
        )
        &&& Market::created(
            after.traders.map()[id.0],
            id.0,
            UserId(user),
            AccountId(account),
            name,
            self.fill_log,
            now_ms,
        )
        &&& after.directory.keys.ring() == self.directory.keys.ring().put(key_digest, user)
        &&& after.directory.keys.issued() == self.directory.keys.issued()
        &&& after.directory.owners.map() == self.directory.owners.map().insert(id.0, user)
        &&& match funding {
            Some(movement) => cash_cents > 0 && self.opening_payment(
                movement,
                AccountId(account),
                wallet,
                cash_cents,
            ),
            None => cash_cents == 0,
        }
    }

    /// The one-call sign-up: a user whose key has the digest `key_digest`, an
    /// account against `wallet` funded out of treasury with `cash_cents`, and
    /// a trader that trades on it. A sign-up that cannot be funded leaves
    /// nothing behind.
    pub fn sign_up(
        &mut self,
        ledger: &LedgerView,
        name: Option<String>,
        email: Option<String>,
        cash_cents: i64,
        wallet: WalletId,
        now_ms: i64,
        key_digest: String,
    ) -> (r: Result<(TraderId, Option<Movement>), MoneyError>)
        requires
            old(self).wf(),
            ledger.wf(),
            old(self).next_user_id < u64::MAX,
            old(self).next_account_id < u64::MAX,
            old(self).next_trader_id < u64::MAX,
        ensures
            final(self).wf(),
            match r {
                Ok((id, funding)) => old(self).opening_fault(ledger, cash_cents) is None && old(self).joined(
                    final(self),
                    id,
                    funding,
                    opt_text(name),
                    opt_text(email),
                    cash_cents,
                    wallet,
                    now_ms,
                    key_digest@,
                ),
                Err(e) => old(self).opening_fault(ledger, cash_cents) == Some(e) && *final(self) == *old(self),
            },
    {
        match self.check_opening(ledger, cash_cents) {
            Ok(()) => {},
            Err(e) => {
                return Err(e);
            },
        }
        let user = self.create_user(copy_text(&name), email, now_ms, key_digest);
        match self.open_account(ledger, user, copy_text(&name), cash_cents, wallet, now_ms) {
            Ok((account, funding)) => {
                proof {
                    assert(self.users.map() =~= old(self).users.map().insert(user.0, self.users.map()[user.0]));
                    assert(self.users.map()[user.0].accounts@ =~= seq![account]);
                }
                let trader = self.create_trader(user, account, name, now_ms);
                Ok((trader, funding))
            },
            Err(e) => {
                assert(false);
                Err(e)
            },
        }
    }

    /// The account a trader trades on, if both exist.
    pub open spec fn account_behind(&self, trader: TraderId) -> Option<Account> {
        if self.traders.map().contains_key(trader.0) && self.accounts.map().contains_key(
            self.traders.map()[trader.0].account_id.0,
        ) {
            Some(self.accounts.map()[self.traders.map()[trader.0].account_id.0])
        } else {
            None
        }
    }

    /// The account a trader trades on.
    pub fn account_of(&self, trader: TraderId) -> (r: Option<&Account>)
        requires
            self.wf(),
        ensures
            match r {
                Some(account) => self.account_behind(trader) == Some(*account),
                None => self.account_behind(trader) is None,
            },
    {
        match self.traders.get(&trader.0) {
            Some(t) => self.accounts.get(&t.account_id.0),
            None => None,
        }
    }

    /// The first of the traders, by id, that trades on `account`.
    pub open spec fn first_on(&self, i: int, account: AccountId) -> bool {
        &&& 0 <= i < self.traders.vals().len()
        &&& self.traders.vals()[i].account_id == account
        &&& forall|j: int| 0 <= j < i ==> (#[trigger] self.traders.vals()[j]).account_id != account
    }

    /// The first trader that trades on an account, where there is one.
    pub open spec fn first_trader_on(&self, account: AccountId, found: Option<&Trader>) -> bool {
        match found {
            Some(trader) => exists|i: int| #[trigger] self.first_on(i, account) && *trader == self.traders.vals()[i],
            None => forall|i: int|
                0 <= i < self.traders.vals().len() ==> (#[trigger] self.traders.vals()[i]).account_id != account,
        }
    }

    /// The trader that trades on `account`, if there is one.
    pub fn trader_on(&self, account: AccountId) -> (r: Option<&Trader>)
        requires
            self.wf(),
        ensures
            self.first_trader_on(account, r),
    {
        let n: usize = self.traders.len();
        let mut i: usize = 0;
        while i < n
            invariant
                self.wf(),
                n == self.traders.vals().len(),
                n == self.traders.keys().len(),
                i <= n,
                forall|j: int| 0 <= j < i ==> (#[trigger] self.traders.vals()[j]).account_id != account,
            decreases n - i,
        {
            let trader = self.traders.val_at(i);
            if trader.account_id == account {
                assert(self.first_on(i as int, account));
                return Some(trader);
            }
            i = i + 1;
        }
        None
    }

    /// Shares of a symbol that all the traders hold between them.
    pub open spec fn held_by_all(&self, symbol: Seq<char>) -> int {
        sum_of(self.traders.vals().map_values(|t: Trader| t.held(symbol) as int))
    }

    /// Shares of `symbol` the traders hold between them.
    pub fn held_shares(&self, symbol: &str) -> (shares: u64)
        requires
            self.wf(),
        ensures
            shares == clamp_u64(self.held_by_all(symbol@)),
            self.held_by_all(symbol@) >= 0,
    {
        let n: usize = self.traders.len();
        let mut total: u64 = 0;
        let mut i: usize = 0;
        let ghost all = self.traders.vals();
        let ghost held = |t: Trader| t.held(symbol@) as int;
        proof {
            assert(all.take(0).map_values(held) =~= Seq::<int>::empty());
        }
        while i < n
            invariant
                self.wf(),
                all == self.traders.vals(),
                n == all.len(),
                n == self.traders.keys().len(),
                i <= n,
                held == (|t: Trader| t.held(symbol@) as int),
                sum_of(all.take(i as int).map_values(held)) >= 0,
                total == clamp_u64(sum_of(all.take(i as int).map_values(held))),
            decreases n - i,
        {
            let trader = self.traders.val_at(i);
            proof {
                let id = self.traders.keys()[i as int];
                assert(self.trader_wf(id));
                assert(all.take(i as int + 1).map_values(held) =~= all.take(i as int).map_values(held).push(
                    trader.held(symbol@) as int,
                ));
                lemma_sum_push(all.take(i as int).map_values(held), trader.held(symbol@) as int);
            }
            total = usat_add(total, trader.held_shares(symbol));
            i = i + 1;
        }
        proof {
            assert(all.take(n as int) =~= all);
        }
        total
    }

    /// Shares of a symbol that one user's traders could sell between them.
    pub open spec fn free_for(&self, user: UserId, symbol: Seq<char>) -> int {
        sum_of(
            self.traders.vals().map_values(
                |t: Trader|
                    if t.user_id == user {
                        t.free(symbol) as int
                    } else {
                        0
                    },
            ),
        )
    }

    /// Shares of `symbol` that `user` could sell right now: what their
    /// traders hold, less what their resting sells already promised.
    pub fn user_free_shares(&self, user: UserId, symbol: &str) -> (shares: u64)
        requires
            self.wf(),
        ensures
            shares == clamp_u64(self.free_for(user, symbol@)),
    {
        let n: usize = self.traders.len();
        let mut total: u64 = 0;
        let mut i: usize = 0;
        let ghost all = self.traders.vals();
        let ghost free = |t: Trader|
            if t.user_id == user {
                t.free(symbol@) as int
            } else {
                0
            };
        proof {
            assert(all.take(0).map_values(free) =~= Seq::<int>::empty());
        }
        while i < n
            invariant
                self.wf(),
                all == self.traders.vals(),
                n == all.len(),
                n == self.traders.keys().len(),
                i <= n,
                free == (|t: Trader|
                    if t.user_id == user {
                        t.free(symbol@) as int
                    } else {
                        0
                    }),
                sum_of(all.take(i as int).map_values(free)) >= 0,
                total == clamp_u64(sum_of(all.take(i as int).map_values(free))),
            decreases n - i,
        {
            let trader = self.traders.val_at(i);
            proof {
                let id = self.traders.keys()[i as int];
                assert(self.trader_wf(id));
                assert(all.take(i as int + 1).map_values(free) =~= all.take(i as int).map_values(free).push(
                    free(*trader),
                ));
                lemma_sum_push(all.take(i as int).map_values(free), free(*trader));
            }
            if trader.user_id == user {
                total = usat_add(total, trader.free_shares(symbol));
            }
            i = i + 1;
        }
        proof {
            assert(all.take(n as int) =~= all);
        }
        total
    }
}

/// What an account's history calls a movement into it.
pub open spec fn kind_of(reason: Reason) -> LedgerKind {
    match reason {
        Reason::Burn => LedgerKind::Withdrawal,
        Reason::Dividend => LedgerKind::Dividend,
        Reason::Delisting => LedgerKind::Delisting,
        _ => LedgerKind::Deposit,
    }
}

/// The ledger is asked to move `cents` from one wallet to another.
pub open spec fn moves(ask: Ask, reason: Reason, from: WalletId, to: WalletId, cents: i64) -> bool {
    match ask {
        Ask::Post(draft) => {
            &&& draft.reason == reason
            &&& draft.at_ms == 0
            &&& draft.memo is None
            &&& draft.postings@ == seq![
                Posting { wallet: from, cents: (-cents) as i64 },
                Posting { wallet: to, cents },
            ]
        },
        _ => false,
    }
}

/// An account can be opened with nothing, or with any amount that may be
/// transferred and that the treasury can pay; with nothing else.
pub proof fn law_an_opening_is_paid_out_of_the_treasury(
    market: Market,
    ledger: LedgerView,
    cash_cents: i64,
    r: Result<(), MoneyError>,
)
    requires
        ledger.wf(),
        call_ensures(Market::check_opening, (&market, &ledger, cash_cents), r),
    ensures
        r is Ok <==> cash_cents == 0 || (1 <= cash_cents <= 1_000_000_000_000_000 && cash_cents
            <= ledger.available_of(market.wallets.treasury)),
{
}

/// Money paid into an account leaves one wallet and arrives in the account's:
/// the one loses what the other gains, the account is credited with it, and
/// every amount from a cent to the largest transfer can be paid into any
/// account there is.
pub proof fn law_money_moves_from_one_wallet_to_the_other(
    market: Market,
    account: AccountId,
    reason: Reason,
    from: WalletId,
    cents: i64,
    memo: Option<String>,
    r: Result<Movement, MoneyError>,
)
    requires
        market.wf(),
        call_ensures(Market::move_in, (&market, account, reason, from, cents, memo), r),
    ensures
        r is Ok <==> 1 <= cents <= 1_000_000_000_000_000 && market.accounts.map().contains_key(account.0),
        r matches Ok(movement) ==> {
            &&& movement.account == account && movement.amount_cents == cents && movement.memo == memo
            &&& movement.ask is Post
            &&& movement.ask matches Ask::Post(draft) ==> {
                &&& draft.reason == reason
                &&& draft.postings@.len() == 2
                &&& draft.postings@[0].wallet == from && draft.postings@[0].cents == -cents
                &&& draft.postings@[1].wallet == market.accounts.map()[account.0].wallet
                &&& draft.postings@[1].cents == movement.amount_cents
            }
            &&& movement.kind == (match reason {
                Reason::Dividend => LedgerKind::Dividend,
                Reason::Delisting => LedgerKind::Delisting,
                Reason::Burn => LedgerKind::Withdrawal,
                _ => LedgerKind::Deposit,
            })
        },
{
}

/// The faucet pays out of the treasury, and what it pays is a deposit.
pub proof fn law_the_faucet_pays_out_of_the_treasury(
    market: Market,
    account: AccountId,
    cents: i64,
    memo: Option<String>,
    r: Result<Movement, MoneyError>,
)
    requires
        market.wf(),
        call_ensures(Market::fund_account, (&market, account, cents, memo), r),
    ensures
        r is Ok <==> 1 <= cents <= 1_000_000_000_000_000 && market.accounts.map().contains_key(account.0),
        r matches Ok(movement) ==> movement.kind is Deposit && movement.amount_cents == cents && (movement.ask matches Ask::Post(
            draft,
        ) ==> draft.postings@.len() == 2 && draft.postings@[0] == (Posting {
            wallet: market.wallets.treasury,
            cents: (-cents) as i64,
        }) && draft.postings@[1] == (Posting { wallet: market.accounts.map()[account.0].wallet, cents })),
{
}

/// What is minted into an account is what a burn of the same amount takes out
/// of it again: one is a deposit, the other a withdrawal, of one wallet, and
/// the two rows cancel out.
pub proof fn law_a_burn_takes_back_a_mint(
    market: Market,
    account: AccountId,
    cents: i64,
    memo: Option<String>,
    minted: Result<Movement, MoneyError>,
    burned: Result<Movement, MoneyError>,
)
    requires
        market.wf(),
        call_ensures(Market::mint_into, (&market, account, cents, memo), minted),
        call_ensures(Market::burn_from, (&market, account, cents, memo), burned),
    ensures
        minted is Ok <==> burned is Ok,
        minted is Ok <==> 1 <= cents <= 1_000_000_000_000_000 && market.accounts.map().contains_key(account.0),
        minted matches Ok(into) ==> {
            &&& into.ask == (Ask::Mint { wallet: market.accounts.map()[account.0].wallet, cents })
            &&& into.kind is Deposit && into.amount_cents == cents && into.account == account
            &&& (burned->Ok_0).ask == (Ask::Burn { wallet: market.accounts.map()[account.0].wallet, cents })
            &&& (burned->Ok_0).kind is Withdrawal && (burned->Ok_0).account == account
            &&& (burned->Ok_0).amount_cents + into.amount_cents == 0
        },
{
}

/// A movement leaves one row in the history of its account and touches no
/// other account: the row says what moved, and closes on what the wallet then
/// holds.
pub proof fn law_a_movement_is_written_where_it_went(
    market: Market,
    after: Market,
    ledger: LedgerView,
    movement: Movement,
    tx_id: u64,
    now_ms: i64,
    entry: LedgerEntry,
    other: u64,
)
    requires
        market.wf(),
        market.accounts.map().contains_key(movement.account.0),
        market.entered(&after, &ledger, movement, tx_id, now_ms, entry),
        i64::MIN <= ledger.balance_of(market.accounts.map()[movement.account.0].wallet) - movement.amount_cents
            <= i64::MAX,
    ensures
        entry.kind == movement.kind,
        entry.amount_cents == movement.amount_cents,
        entry.memo == movement.memo,
        entry.tx_id == tx_id,
        entry.ts_ms == now_ms,
        entry.balance_cents == ledger.balance_of(market.accounts.map()[movement.account.0].wallet),
        after.accounts.map()[movement.account.0].history().last() == entry,
        after.accounts.map()[movement.account.0].entries_total == market.accounts.map()[movement.account.0].entries_total
            + 1,
        other != movement.account.0 ==> after.accounts.map().contains_key(other) == market.accounts.map().contains_key(
            other,
        ) && after.accounts.map()[other] == market.accounts.map()[other],
        after.traders == market.traders,
        after.users == market.users,
{
    let before = market.accounts.map()[movement.account.0];
    let rows = seq![(movement.kind, movement.amount_cents)];
    let all = crate::account::amounts(rows);
    let closing = ledger.balance_of(before.wallet);
    assert(market.account_wf(movement.account.0));
    assert(all.take(1) =~= all);
    assert(all.drop_last() =~= Seq::<int>::empty());
    assert(all.last() == movement.amount_cents);
    assert(crate::account::running_from(0, all.drop_last()) == 0);
    assert(crate::account::sat_total(all) == movement.amount_cents);
    let opening = (closing - movement.amount_cents) as i64;
    assert(crate::account::running_from(opening, all.drop_last()) == opening);
    assert(crate::account::running_from(opening, all) == closing);
}

/// Whoever signs up has a user, an account and a trader that belong together
/// and are nobody else's: the trader trades on the account, both are the
/// user's, the user lists the account, and the key opens the user. What the
/// account is to be paid is what was asked for, out of the treasury; until
/// then it holds nothing, and the trader no shares.
pub proof fn law_a_sign_up_belongs_together(
    market: Market,
    after: Market,
    id: TraderId,
    funding: Option<Movement>,
    name: Option<Seq<char>>,
    email: Option<Seq<char>>,
    cash_cents: i64,
    wallet: WalletId,
    now_ms: i64,
    key_digest: Seq<char>,
    symbol: Seq<char>,
)
    requires
        market.wf(),
        market.next_user_id < u64::MAX,
        market.next_account_id < u64::MAX,
        market.next_trader_id < u64::MAX,
        market.joined(&after, id, funding, name, email, cash_cents, wallet, now_ms, key_digest),
    ensures
        !market.traders.map().contains_key(id.0),
        ({
            let trader = after.traders.map()[id.0];
            let account = after.accounts.map()[trader.account_id.0];
            let user = after.users.map()[trader.user_id.0];
            &&& after.traders.map().contains_key(id.0) && trader.id == id
            &&& after.accounts.map().contains_key(trader.account_id.0) && account.id == trader.account_id
            &&& !market.accounts.map().contains_key(trader.account_id.0)
            &&& after.users.map().contains_key(trader.user_id.0) && user.id == trader.user_id
            &&& !market.users.map().contains_key(trader.user_id.0)
            &&& account.user_id == trader.user_id
            &&& user.accounts@ == seq![account.id]
            &&& after.directory.owners.map()[id.0] == trader.user_id.0
            &&& after.account_behind(id) == Some(account)
            &&& account.wallet == wallet && account.deposited_cents == 0 && account.withdrawn_cents == 0
            &&& trader.held(symbol) == 0 && trader.promised(symbol) == 0
            &&& funding is Some <==> cash_cents != 0
            &&& funding matches Some(movement) ==> {
                &&& movement.account == account.id && movement.amount_cents == cash_cents
                &&& movement.kind is Deposit
                &&& movement.ask matches Ask::Post(draft) && draft.postings@ == seq![
                    Posting { wallet: market.wallets.treasury, cents: (-cash_cents) as i64 },
                    Posting { wallet, cents: cash_cents },
                ]
            }
        }),
        forall|other: u64|
            other != id.0 && market.traders.map().contains_key(other) ==> #[trigger] after.traders.map()[other]
                == market.traders.map()[other],
{
    if market.traders.map().contains_key(id.0) {
        assert(market.trader_wf(id.0));
    }
    if market.accounts.map().contains_key(market.next_account_id) {
        assert(market.account_wf(market.next_account_id));
    }
    if market.users.map().contains_key(market.next_user_id) {
        assert(market.user_wf(market.next_user_id));
    }
}

/// An account that is opened is its user's, who lists it last; every other
/// account and user is as it was.
pub proof fn law_an_account_is_opened_for_its_user(
    market: Market,
    after: Market,
    id: AccountId,
    funding: Option<Movement>,
    user: UserId,
    name: Option<Seq<char>>,
    cash_cents: i64,
    wallet: WalletId,
    now_ms: i64,
    other: u64,
)
    requires
        market.wf(),
        market.next_account_id < u64::MAX,
        market.users.map().contains_key(user.0),
        market.account_opened(&after, id, funding, user, name, cash_cents, wallet, now_ms),
    ensures
        !market.accounts.map().contains_key(id.0),
        after.accounts.map().contains_key(id.0),
        after.accounts.map()[id.0].user_id == user,
        after.accounts.map()[id.0].wallet == wallet,
        after.users.map()[user.0].accounts@ == market.users.map()[user.0].accounts@.push(id),
        after.next_account_id > id.0,
        other != id.0 && market.accounts.map().contains_key(other) ==> after.accounts.map()[other]
            == market.accounts.map()[other],
        other != user.0 && market.users.map().contains_key(other) ==> after.users.map()[other]
            == market.users.map()[other],
        funding is Some <==> cash_cents != 0,
        funding matches Some(movement) ==> movement.account == id && movement.amount_cents == cash_cents && (
        movement.ask matches Ask::Post(draft) && draft.postings@ == seq![
            Posting { wallet: market.wallets.treasury, cents: (-cash_cents) as i64 },
            Posting { wallet, cents: cash_cents },
        ]),
{
    if market.accounts.map().contains_key(id.0) {
        assert(market.account_wf(id.0));
    }
}

/// Somebody without a usable name is called by a number; one with a name keeps
/// it, without the blanks around it and no longer than it may be.
pub proof fn law_everybody_has_a_name(name: Option<Seq<char>>, prefix: Seq<char>, id: u64)
    ensures
        name is None ==> name_or(name, prefix, id) == prefix + decimal(id as nat),
        name matches Some(given) ==> {
            let kept = crate::text::trimmed(given);
            &&& kept.len() == 0 ==> name_or(name, prefix, id) == prefix + decimal(id as nat)
            &&& 0 < kept.len() <= 64 ==> name_or(name, prefix, id) == kept
            &&& kept.len() > 64 ==> name_or(name, prefix, id) == kept.take(64)
        },
{
}

/// The trader found on an account trades on it, and one is found wherever
/// there is one.
pub proof fn law_a_trader_is_found_on_its_account(market: Market, account: AccountId, r: Option<&Trader>, id: u64)
    requires
        market.wf(),
        call_ensures(Market::trader_on, (&market, account), r),
    ensures
        r matches Some(trader) ==> trader.account_id == account && market.traders.map().contains_key(trader.id.0)
            && market.traders.map()[trader.id.0] == *trader,
        market.traders.map().contains_key(id) && market.traders.map()[id].account_id == account ==> r is Some,
{
    market.traders.lemma_listed();
    if r is Some {
        let i = choose|i: int| #[trigger] market.first_on(i, account) && *(r->0) == market.traders.vals()[i];
        market.traders.lemma_at(i);
        assert(market.trader_wf(market.traders.keys()[i]));
    }
    if market.traders.map().contains_key(id) && market.traders.map()[id].account_id == account {
        let i = market.traders.place(id);
        market.traders.lemma_placed(id);
        assert(market.traders.vals()[i].account_id == account);
    }
}

/// A user's free shares are those of its own traders that no resting sell has
/// been promised: never more than all that is held, all of it where it is all
/// the user's and nothing is promised, and none where the user's traders have
/// promised everything.
pub proof fn law_a_users_free_shares_are_its_own(market: Market, user: UserId, symbol: &str, shares: u64)
    requires
        market.wf(),
        call_ensures(Market::user_free_shares, (&market, user, symbol), shares),
    ensures
        market.held_by_all(symbol@) <= u64::MAX ==> shares <= market.held_by_all(symbol@),
        (forall|i: int|
            0 <= i < market.traders.vals().len() ==> (#[trigger] market.traders.vals()[i]).user_id == user
                && market.traders.vals()[i].promised(symbol@) == 0) ==> shares == clamp_u64(
            market.held_by_all(symbol@),
        ),
        (forall|i: int|
            0 <= i < market.traders.vals().len() ==> (#[trigger] market.traders.vals()[i]).user_id != user
                || market.traders.vals()[i].promised(symbol@) >= market.traders.vals()[i].held(symbol@)) ==> shares
            == 0,
{
    lemma_free_shares(market.traders.vals(), user, symbol@);
}

proof fn lemma_free_shares(traders: Seq<Trader>, user: UserId, symbol: Seq<char>)
    ensures
        ({
            let free = sum_of(
                traders.map_values(
                    |t: Trader|
                        if t.user_id == user {
                            t.free(symbol) as int
                        } else {
                            0
                        },
                ),
            );
            let held = sum_of(traders.map_values(|t: Trader| t.held(symbol) as int));
            &&& 0 <= free <= held
            &&& (forall|i: int|
                0 <= i < traders.len() ==> (#[trigger] traders[i]).user_id == user && traders[i].promised(symbol)
                    == 0) ==> free == held
            &&& (forall|i: int|
                0 <= i < traders.len() ==> (#[trigger] traders[i]).user_id != user || traders[i].promised(symbol)
                    >= traders[i].held(symbol)) ==> free == 0
        }),
    decreases traders.len(),
{
    let own = |t: Trader|
        if t.user_id == user {
            t.free(symbol) as int
        } else {
            0
        };
    let all = |t: Trader| t.held(symbol) as int;
    if traders.len() > 0 {
        let front = traders.drop_last();
        let last = traders[traders.len() - 1];
        lemma_free_shares(front, user, symbol);
        assert(traders.map_values(own).drop_last() =~= front.map_values(own));
        assert(traders.map_values(all).drop_last() =~= front.map_values(all));
        assert(last.held(symbol) - last.promised(symbol) <= u64::MAX);
        if forall|i: int|
            0 <= i < traders.len() ==> (#[trigger] traders[i]).user_id == user && traders[i].promised(symbol) == 0 {
            assert forall|i: int| 0 <= i < front.len() implies (#[trigger] front[i]).user_id == user
                && front[i].promised(symbol) == 0 by {
                assert(traders[i].user_id == user);
            }
        }
        if forall|i: int|
            0 <= i < traders.len() ==> (#[trigger] traders[i]).user_id != user || traders[i].promised(symbol)
                >= traders[i].held(symbol) {
            assert forall|i: int| 0 <= i < front.len() implies (#[trigger] front[i]).user_id != user
                || front[i].promised(symbol) >= front[i].held(symbol) by {
                assert(front[i] == traders[i]);
            }
        }
    }
}

/// The account behind a trader is the one it trades on.
pub proof fn law_a_trader_is_backed_by_its_account(market: Market, trader: TraderId, r: Option<&Account>)
    requires
        market.wf(),
        call_ensures(Market::account_of, (&market, trader), r),
    ensures
        r is Some <==> market.traders.map().contains_key(trader.0) && market.accounts.map().contains_key(
            market.traders.map()[trader.0].account_id.0,
        ),
        r matches Some(account) ==> account.id == market.traders.map()[trader.0].account_id,
{
    if r is Some {
        assert(market.account_wf(market.traders.map()[trader.0].account_id.0));
    }
}

/// Whoever is registered with a key is a new user that the key opens: nobody
/// else's key is touched, and everything but the users and the keys stays as
/// it was.
pub proof fn law_a_registered_user_is_opened_by_its_key(
    market: Market,
    after: Market,
    name: Option<String>,
    email: Option<String>,
    now_ms: i64,
    key: Seq<char>,
    other: u64,
)
    requires
        market.wf(),
        market.next_user_id < u64::MAX,
        market.signed_up(&after, name, email, now_ms, key),
    ensures
        ({
            let id = market.next_user_id;
            &&& !market.users.map().contains_key(id)
            &&& after.users.map().contains_key(id)
            &&& after.users.map()[id].id.0 == id
            &&& after.users.map()[id].accounts@.len() == 0
            &&& after.users.map()[id].created_at_ms == now_ms
            &&& after.directory.keys.ring().speaks_for(key_digest_text(key)) == Some(UserId(id))
            &&& after.directory.keys.issued()[id] == key
            &&& other != id && market.users.map().contains_key(other) ==> after.users.map()[other]
                == market.users.map()[other]
            &&& after.next_user_id == id + 1
        }),
        after.accounts == market.accounts,
        after.traders == market.traders,
        after.directory.owners == market.directory.owners,
{
    if market.users.map().contains_key(market.next_user_id) {
        assert(market.user_wf(market.next_user_id));
    }
}

} // verus!
