//! Users, accounts and the per-account view of the cash ledger.
//!
//! A **user** is the person; an **account** is that person's place in the
//! world's currency ledger, and the record of every movement through it; a
//! [`Trader`](crate::trading::Trader) is the market-facing identity that
//! trades on exactly one account.
//!
//! An account does not hold a balance. Its money is a wallet in the currency
//! ledger, and every movement through it is a balanced transaction there.
//! What lives here is the account's *identity* and its *history*: who owns
//! it, which wallet is theirs, and the capped run of [`LedgerEntry`] rows
//! that says how the balance got where it is. So nothing in this module moves
//! money by itself; what it reads of the ledger comes as a
//! [`LedgerView`](crate::ledger::LedgerView), and what it asks of the ledger
//! goes back as a draft or a hold.
//!
//! Money is always an integer number of cents.

use std::collections::VecDeque;

use vstd::prelude::*;

use crate::ledger::{
    lemma_total_push, net_cents, total_cents, wide_notional, Draft, Hold, LedgerError, LedgerView, Posting, Reason, WalletId,
    WalletStatus,
};
use crate::num::{at_least_zero, clamp_i64, max_int, sat_add, sat_sub, to_i64};
use crate::text::{copy_text, decimal, digit_char, push_i64, push_u64, signed_decimal};
use crate::trading::Side;

verus! {

/// Largest balance an account may hold.
pub const MAX_BALANCE_CENTS: i64 = 1_000_000_000_000_000;

/// Largest single mint or burn, in cents. Same cap as the balance.
pub const MAX_TRANSFER_CENTS: i64 = 1_000_000_000_000_000;

/// Whether an account may trade and move money: the status of its wallet.
/// There is one status, not two that can disagree.
pub type AccountStatus = WalletStatus;

/// Identifies a user.
#[derive(Clone, Copy, Debug, PartialEq, Eq, PartialOrd, Ord, Hash, Structural)]
pub struct UserId(pub u64);

/// Identifies an account.
#[derive(Clone, Copy, Debug, PartialEq, Eq, PartialOrd, Ord, Hash, Structural)]
pub struct AccountId(pub u64);

/// The person behind one or more accounts.
#[derive(Debug)]
pub struct User {
    pub id: UserId,
    pub name: String,
    pub email: Option<String>,
    pub created_at_ms: i64,
    /// Accounts opened for this user, oldest first.
    pub accounts: Vec<AccountId>,
}

/// The two say the same of one person.
pub open spec fn same_user(a: User, b: User) -> bool {
    &&& a == (User { accounts: a.accounts, ..b })
    &&& a.accounts@ == b.accounts@
}

impl Clone for User {
    fn clone(&self) -> (copy: Self)
        ensures
            same_user(copy, *self),
    {
        let mut accounts: Vec<AccountId> = Vec::new();
        let mut i: usize = 0;
        while i < self.accounts.len()
            invariant
                i <= self.accounts.len(),
                accounts@ == self.accounts@.take(i as int),
            decreases self.accounts.len() - i,
        {
            accounts.push(self.accounts[i]);
            proof {
                assert(self.accounts@.take(i as int + 1) =~= self.accounts@.take(i as int).push(
                    self.accounts@[i as int],
                ));
            }
            i = i + 1;
        }
        proof {
            assert(self.accounts@.take(self.accounts@.len() as int) =~= self.accounts@);
        }
        User {
            id: self.id,
            name: self.name.clone(),
            email: copy_text(&self.email),
            created_at_ms: self.created_at_ms,
            accounts,
        }
    }
}

/// Why a money movement was refused. Every amount is in cents.
#[derive(Clone, Copy, Debug, PartialEq, Eq)]
pub enum MoneyError {
    /// Money moves in positive amounts; zero and negative are rejected.
    NotPositive { amount_cents: i64 },
    /// Above the per-transaction cap.
    TooLarge { amount_cents: i64, max_cents: i64 },
    /// The account has no wallet, or names one the ledger does not have.
    /// A bug rather than a request the caller got wrong.
    NoWallet { account: AccountId },
    /// The ledger refused the movement. It says why, and nothing moved.
    Ledger(LedgerError),
}

impl From<LedgerError> for MoneyError {
    fn from(e: LedgerError) -> (r: Self) {
        MoneyError::Ledger(e)
    }
}

impl vstd::std_specs::convert::FromSpecImpl<LedgerError> for MoneyError {
    open spec fn obeys_from_spec() -> bool {
        true
    }

    open spec fn from_spec(e: LedgerError) -> Self {
        MoneyError::Ledger(e)
    }
}

impl MoneyError {
    /// The caller asked for something the world would not allow, as opposed
    /// to something it could not afford. Used to pick a status code.
    pub fn is_forbidden(self) -> (r: bool)
        ensures
            r == self.forbidden(),
    {
        match self {
            MoneyError::Ledger(LedgerError::Status { .. }) => true,
            MoneyError::Ledger(LedgerError::Closed(_)) => true,
            _ => false,
        }
    }

    /// The ledger refused because of what the wallet is, not what it holds.
    pub open spec fn forbidden(self) -> bool {
        match self {
            MoneyError::Ledger(LedgerError::Status { .. }) => true,
            MoneyError::Ledger(LedgerError::Closed(_)) => true,
            _ => false,
        }
    }

    /// The refusal in words. Where the ledger refused, the words are the
    /// ledger's own, which the caller passes in.
    pub open spec fn words(self, ledger_words: Seq<char>) -> Seq<char> {
        match self {
            MoneyError::NotPositive { amount_cents } => "amount must be a positive number of cents, got "@
                + signed_decimal(amount_cents as int),
            MoneyError::TooLarge { amount_cents, max_cents } => "amount "@ + money_text(amount_cents as int)
                + " is above the "@ + money_text(max_cents as int) + " limit"@,
            MoneyError::NoWallet { account } => "account "@ + decimal(account.0 as nat)
                + " has no wallet in the ledger"@,
            MoneyError::Ledger(_) => ledger_words,
        }
    }

    /// The refusal in words.
    pub fn message(&self, ledger_words: &str) -> (text: String)
        ensures
            text@ == self.words(ledger_words@),
    {
        match *self {
            MoneyError::NotPositive { amount_cents } => {
                let mut text = "amount must be a positive number of cents, got ".to_owned();
                push_i64(&mut text, amount_cents);
                text
            },
            MoneyError::TooLarge { amount_cents, max_cents } => {
                let mut text = "amount ".to_owned();
                text.append(money(amount_cents).as_str());
                text.append(" is above the ");
                text.append(money(max_cents).as_str());
                text.append(" limit");
                text
            },
            MoneyError::NoWallet { account } => {
                let mut text = "account ".to_owned();
                push_u64(&mut text, account.0);
                text.append(" has no wallet in the ledger");
                text
            },
            MoneyError::Ledger(_) => ledger_words.to_owned(),
        }
    }
}

/// What a ledger entry records, as the account holder sees it.
#[derive(Clone, Copy, Debug, PartialEq, Eq, Structural)]
pub enum LedgerKind {
    /// The account was opened, with nothing in it.
    Open,
    /// Money paid in: minted by an operator, or paid out of treasury by the
    /// faucet that funds a new account.
    Deposit,
    /// Money taken out, and burned.
    Withdrawal,
    /// A buy settled: cash left the account.
    Buy,
    /// A sell settled: cash came in.
    Sell,
    /// The venue's fee on a fill, or the rebate it paid for providing
    /// liquidity. Always its own entry: the tape stays the price and the
    /// ledger stays the money.
    Fee,
    /// A dividend paid on shares held when it was declared.
    Dividend,
    /// A delisting bought the holder out: the shares are gone and this is
    /// what they were worth.
    Delisting,
    /// Units bought from the catalogue.
    Purchase,
}

/// One movement of money, in the order it happened.
#[derive(Debug)]
pub struct LedgerEntry {
    pub id: u64,
    pub ts_ms: i64,
    pub kind: LedgerKind,
    /// The ledger transaction this entry is one side of. Every entry has
    /// one, so any row here can be traced to the balanced set of postings
    /// that produced it.
    pub tx_id: u64,
    /// Signed: positive credits the account, negative debits it.
    pub amount_cents: i64,
    /// The balance after this entry was applied.
    pub balance_cents: i64,
    /// Set on trade settlements.
    pub symbol: Option<String>,
    pub order_id: Option<u64>,
    pub memo: Option<String>,
}

impl Clone for LedgerEntry {
    fn clone(&self) -> (copy: Self)
        ensures
            copy == *self,
    {
        LedgerEntry {
            id: self.id,
            ts_ms: self.ts_ms,
            kind: self.kind,
            tx_id: self.tx_id,
            amount_cents: self.amount_cents,
            balance_cents: self.balance_cents,
            symbol: copy_text(&self.symbol),
            order_id: self.order_id,
            memo: copy_text(&self.memo),
        }
    }
}

/// What every row of one transaction says alike: the transaction, when it
/// happened, and what it was about.
#[derive(Debug)]
pub struct Context {
    pub tx_id: u64,
    pub ts_ms: i64,
    pub symbol: Option<String>,
    pub order_id: Option<u64>,
    pub memo: Option<String>,
}

impl Context {
    /// A transaction about nothing in particular, with a note.
    pub fn plain(tx_id: u64, ts_ms: i64, memo: Option<String>) -> (context: Context)
        ensures
            context == (Context { tx_id, ts_ms, symbol: None, order_id: None, memo }),
    {
        Context { tx_id, ts_ms, symbol: None, order_id: None, memo }
    }
}

/// The most recent `cap` rows.
pub open spec fn newest<T>(rows: Seq<T>, cap: int) -> Seq<T> {
    if rows.len() > cap {
        rows.skip(rows.len() - cap)
    } else {
        rows
    }
}

/// A cash account: whose it is, which wallet holds its money, and the ledger
/// of everything that moved through it.
pub struct Account {
    pub id: AccountId,
    pub user_id: UserId,
    pub name: String,
    /// The wallet this account's money lives in.
    pub wallet: WalletId,
    pub opened_at_ms: i64,
    /// Paid in since the account was opened, the opening balance included.
    pub deposited_cents: i64,
    /// Taken out since the account was opened.
    pub withdrawn_cents: i64,
    /// Ledger entries written since the account was opened; the ledger
    /// itself keeps only the most recent `ledger_cap` of them.
    pub entries_total: u64,
    /// The entries still kept, oldest first.
    pub ledger: VecDeque<LedgerEntry>,
    pub ledger_cap: usize,
}

/// The two say the same of one account.
pub open spec fn same_account(a: Account, b: Account) -> bool {
    &&& a == (Account { ledger: a.ledger, ..b })
    &&& a.ledger@ == b.ledger@
}

impl Clone for Account {
    fn clone(&self) -> (copy: Self)
        ensures
            same_account(copy, *self),
    {
        let mut ledger: VecDeque<LedgerEntry> = VecDeque::new();
        let n: usize = self.ledger.len();
        let mut i: usize = 0;
        while i < n
            invariant
                n == self.ledger@.len(),
                i <= n,
                ledger@ == self.ledger@.take(i as int),
            decreases n - i,
        {
            ledger.push_back(self.ledger[i].clone());
            proof {
                assert(self.ledger@.take(i as int + 1) =~= self.ledger@.take(i as int).push(
                    self.ledger@[i as int],
                ));
            }
            i = i + 1;
        }
        proof {
            assert(self.ledger@.take(n as int) =~= self.ledger@);
        }
        Account {
            id: self.id,
            user_id: self.user_id,
            name: self.name.clone(),
            wallet: self.wallet,
            opened_at_ms: self.opened_at_ms,
            deposited_cents: self.deposited_cents,
            withdrawn_cents: self.withdrawn_cents,
            entries_total: self.entries_total,
            ledger,
            ledger_cap: self.ledger_cap,
        }
    }
}

impl Account {
    /// The rows the account keeps, oldest first.
    pub open spec fn history(&self) -> Seq<LedgerEntry> {
        self.ledger@
    }

    /// How many rows it keeps: its cap, or as many as it has where that is
    /// more. A row that is written pushes one out at the most, so a history
    /// that came longer than its cap stays as long as it is.
    pub open spec fn cap(&self) -> int {
        max_int(max_int(self.ledger_cap as int, self.ledger@.len() as int), 1)
    }

    /// The account keeps at least one row, and has no more than it keeps.
    pub open spec fn wf(&self) -> bool {
        &&& self.cap() >= 1
        &&& self.history().len() <= self.cap()
    }

    /// Who the account is has not changed.
    pub open spec fn same_identity(&self, other: &Account) -> bool {
        &&& self.id == other.id
        &&& self.user_id == other.user_id
        &&& self.name == other.name
        &&& self.wallet == other.wallet
        &&& self.opened_at_ms == other.opened_at_ms
        &&& self.ledger_cap == other.ledger_cap
        &&& self.cap() == other.cap()
    }

    /// The account is `before` with one more row written.
    pub open spec fn wrote(
        &self,
        before: &Account,
        kind: LedgerKind,
        amount_cents: i64,
        balance_cents: i64,
        context: Context,
    ) -> bool {
        let entry = row(
            (before.entries_total + 1) as u64,
            kind,
            amount_cents,
            balance_cents,
            context,
        );
        &&& self.same_identity(before)
        &&& self.entries_total == before.entries_total + 1
        &&& self.deposited_cents == (if kind is Deposit {
            clamp_i64(before.deposited_cents + max_int(amount_cents as int, 0))
        } else {
            before.deposited_cents
        })
        &&& self.withdrawn_cents == (if kind is Withdrawal {
            clamp_i64(before.withdrawn_cents + max_int(-amount_cents, 0))
        } else {
            before.withdrawn_cents
        })
        &&& self.history() == newest(before.history().push(entry), before.cap())
    }

    /// The account is `before` with the rows of one transaction written, the
    /// last of them closing on `closing`.
    pub open spec fn wrote_split(
        &self,
        before: &Account,
        closing: i64,
        rows: Seq<(LedgerKind, i64)>,
        context: Context,
    ) -> bool {
        &&& self.same_identity(before)
        &&& self.entries_total == before.entries_total + rows.len()
        &&& self.history() == newest(
            before.history() + split_rows(before.entries_total, closing, rows, context),
            before.cap(),
        )
        &&& self.deposited_cents == deposited_after(before.deposited_cents, rows)
        &&& self.withdrawn_cents == withdrawn_after(before.withdrawn_cents, rows)
    }

    /// The account is a new one: the opening is its only row, and it has
    /// moved no money.
    pub open spec fn opened(
        account: Account,
        id: AccountId,
        user_id: UserId,
        name: Seq<char>,
        wallet: WalletId,
        ledger_cap: usize,
        now_ms: i64,
    ) -> bool {
        &&& account.wf()
        &&& account.id == id
        &&& account.user_id == user_id
        &&& account.name@ == name
        &&& account.wallet == wallet
        &&& account.opened_at_ms == now_ms
        &&& account.deposited_cents == 0
        &&& account.withdrawn_cents == 0
        &&& account.entries_total == 1
        &&& account.ledger_cap == max_int(ledger_cap as int, 1)
        &&& account.history() == seq![
            row(
                1,
                LedgerKind::Open,
                0,
                0,
                Context { tx_id: 0, ts_ms: now_ms, symbol: None, order_id: None, memo: None },
            ),
        ]
    }

    /// Open an account for `user_id` against `wallet`, with no money in it.
    ///
    /// An account is opened empty because opening one cannot be allowed to
    /// create currency. Funding it is a separate, balanced movement.
    pub fn open(id: AccountId, user_id: UserId, name: String, wallet: WalletId, ledger_cap: usize, now_ms: i64) -> (account:
        Self)
        ensures
            Account::opened(account, id, user_id, name@, wallet, ledger_cap, now_ms),
    {
        let mut account = Account {
            id,
            user_id,
            name,
            wallet,
            opened_at_ms: now_ms,
            deposited_cents: 0,
            withdrawn_cents: 0,
            entries_total: 0,
            ledger: VecDeque::new(),
            ledger_cap: if ledger_cap < 1 {
                1
            } else {
                ledger_cap
            },
        };
        let context = Context { tx_id: 0, ts_ms: now_ms, symbol: None, order_id: None, memo: None };
        account.write(LedgerKind::Open, 0, 0, &context);
        proof {
            assert(account.history() =~= seq![row(1, LedgerKind::Open, 0, 0, context)]);
        }
        account
    }

    /// Everything the account holds.
    pub fn balance_cents(&self, ledger: &LedgerView) -> (cents: i64)
        requires
            ledger.wf(),
        ensures
            cents == ledger.balance_of(self.wallet),
    {
        ledger.balance(self.wallet)
    }

    /// The part of the balance committed to resting buy orders.
    pub fn reserved_cents(&self, ledger: &LedgerView) -> (cents: i64)
        requires
            ledger.wf(),
        ensures
            cents == ledger.reserved_of(self.wallet),
    {
        ledger.reserved(self.wallet)
    }

    /// What can be spent or withdrawn right now.
    pub fn available_cents(&self, ledger: &LedgerView) -> (cents: i64)
        requires
            ledger.wf(),
        ensures
            cents == ledger.available_of(self.wallet),
    {
        ledger.available(self.wallet)
    }

    /// Whether the account may trade and move money.
    pub fn status(&self, ledger: &LedgerView) -> (status: AccountStatus)
        requires
            ledger.wf(),
        ensures
            status == ledger.status_of(self.wallet),
    {
        ledger.status(self.wallet)
    }

    /// The most recent `limit` ledger entries, newest first.
    pub fn ledger(&self, limit: usize) -> (entries: Vec<LedgerEntry>)
        ensures
            entries@ == newest(self.history(), limit as int).reverse(),
    {
        let n: usize = self.ledger.len();
        let take: usize = if limit < n { limit } else { n };
        let mut entries: Vec<LedgerEntry> = Vec::new();
        let mut i: usize = 0;
        while i < take
            invariant
                n == self.history().len(),
                take <= n,
                i <= take,
                entries@.len() == i,
                forall|j: int| 0 <= j < i ==> #[trigger] entries@[j] == self.history()[n - 1 - j],
            decreases take - i,
        {
            entries.push(self.ledger[n - 1 - i].clone());
            i = i + 1;
        }
        proof {
            assert(entries@ =~= newest(self.history(), limit as int).reverse());
        }
        entries
    }

    /// The account may place orders.
    pub fn check_tradable(&self, ledger: &LedgerView) -> (r: Result<(), MoneyError>)
        requires
            ledger.wf(),
        ensures
            r == self.tradable(ledger),
    {
        let status = self.status(ledger);
        if status.can_debit() {
            Ok(())
        } else {
            Err(MoneyError::Ledger(LedgerError::Status { wallet: self.wallet, status, action: "place orders" }))
        }
    }

    /// An account places orders while money may leave its wallet.
    pub open spec fn tradable(&self, ledger: &LedgerView) -> Result<(), MoneyError> {
        let status = ledger.status_of(self.wallet);
        if status is Active {
            Ok(())
        } else {
            Err(MoneyError::Ledger(LedgerError::Status { wallet: self.wallet, status, action: "place orders" }))
        }
    }

    /// Validate a debit of `amount_cents` before it reaches the book: the
    /// account must be tradable and hold that much available cash.
    pub fn authorise(&self, ledger: &LedgerView, amount_cents: i64) -> (r: Result<(), MoneyError>)
        requires
            ledger.wf(),
        ensures
            r == self.authorised(ledger, amount_cents),
    {
        match self.check_tradable(ledger) {
            Err(e) => {
                return Err(e);
            },
            Ok(()) => {},
        }
        if amount_cents < 0 {
            return Err(MoneyError::NotPositive { amount_cents });
        }
        let available: i64 = self.available_cents(ledger);
        if amount_cents > available {
            return Err(
                MoneyError::Ledger(
                    LedgerError::Insufficient {
                        wallet: self.wallet,
                        needed_cents: amount_cents,
                        available_cents: available,
                    },
                ),
            );
        }
        Ok(())
    }

    /// A debit is authorised where the account may trade, the amount is not
    /// negative, and the wallet can spend it.
    pub open spec fn authorised(&self, ledger: &LedgerView, amount_cents: i64) -> Result<(), MoneyError> {
        let available = ledger.available_of(self.wallet);
        if self.tradable(ledger) is Err {
            self.tradable(ledger)
        } else if amount_cents < 0 {
            Err(MoneyError::NotPositive { amount_cents })
        } else if amount_cents > available {
            Err(
                MoneyError::Ledger(
                    LedgerError::Insufficient {
                        wallet: self.wallet,
                        needed_cents: amount_cents,
                        available_cents: available,
                    },
                ),
            )
        } else {
            Ok(())
        }
    }

    /// Cash to commit to a resting buy order. Reservations are not movements
    /// of money, so they are not written to the ledger's history.
    pub fn reserve(&self, amount_cents: i64) -> (hold: Hold)
        ensures
            hold.wallet == self.wallet,
            hold.cents == max_int(amount_cents as int, 0),
    {
        Hold { wallet: self.wallet, cents: at_least_zero(amount_cents) }
    }

    /// Reserved cash to give back (the order filled, or was cancelled).
    pub fn release(&self, amount_cents: i64) -> (hold: Hold)
        ensures
            hold.wallet == self.wallet,
            hold.cents == max_int(amount_cents as int, 0),
    {
        Hold { wallet: self.wallet, cents: at_least_zero(amount_cents) }
    }

    /// Record a movement this account was one side of.
    ///
    /// The transaction has already been posted; this writes the account's
    /// view of it, closing on what the ledger now says it holds.
    pub fn record(&mut self, ledger: &LedgerView, kind: LedgerKind, amount_cents: i64, context: &Context) -> (entry:
        LedgerEntry)
        requires
            old(self).wf(),
            ledger.wf(),
            old(self).entries_total < u64::MAX,
            kind is Withdrawal ==> amount_cents > i64::MIN,
        ensures
            final(self).wf(),
            final(self).wrote(
                old(self),
                kind,
                amount_cents,
                closing_balances(ledger.balance_of(old(self).wallet), seq![(kind, amount_cents)])[0],
                *context,
            ),
            entry == final(self).history().last(),
            entry == row(
                (old(self).entries_total + 1) as u64,
                kind,
                amount_cents,
                closing_balances(ledger.balance_of(old(self).wallet), seq![(kind, amount_cents)])[0],
                *context,
            ),
    {
        let closing: i64 = self.balance_cents(ledger);
        let opening: i64 = sat_sub(closing, amount_cents);
        let balance: i64 = sat_add(opening, amount_cents);
        proof {
            let rows = seq![(kind, amount_cents)];
            assert(amounts(rows) =~= seq![amount_cents as int]);
            lemma_running_single(amount_cents);
            assert(closing_balances(closing, rows)[0] == balance);
        }
        self.write(kind, amount_cents, balance, context)
    }

    /// Record several rows of the *same* transaction, in order.
    ///
    /// A fill and the fee on it are one transaction but two rows. The rows
    /// are laid out backwards from where the account actually ended up: the
    /// last one closes on the ledger's balance, and each earlier one on that
    /// less what came after it. The history then adds up forwards, row by
    /// row, to a number that is really there.
    pub fn record_split(&mut self, ledger: &LedgerView, context: &Context, rows: &Vec<(LedgerKind, i64)>) -> (entries:
        Vec<LedgerEntry>)
        requires
            old(self).wf(),
            ledger.wf(),
            old(self).entries_total + rows@.len() <= u64::MAX,
            forall|i: int| 0 <= i < rows@.len() ==> ((#[trigger] rows@[i]).0 is Withdrawal ==> rows@[i].1 > i64::MIN),
        ensures
            final(self).wf(),
            final(self).wrote_split(old(self), ledger.balance_of(old(self).wallet), rows@, *context),
            entries@ == split_rows(
                old(self).entries_total,
                ledger.balance_of(old(self).wallet),
                rows@,
                *context,
            ),
    {
        self.record_split_ahead(ledger, 0, context, rows)
    }

    /// Record several rows of a transaction that has more rows to come, which
    /// bring the account `later_cents`: the last of these closes on the
    /// ledger's balance less that.
    pub fn record_split_ahead(
        &mut self,
        ledger: &LedgerView,
        later_cents: i64,
        context: &Context,
        rows: &Vec<(LedgerKind, i64)>,
    ) -> (entries: Vec<LedgerEntry>)
        requires
            old(self).wf(),
            ledger.wf(),
            old(self).entries_total + rows@.len() <= u64::MAX,
            forall|i: int| 0 <= i < rows@.len() ==> ((#[trigger] rows@[i]).0 is Withdrawal ==> rows@[i].1 > i64::MIN),
        ensures
            final(self).wf(),
            final(self).wrote_split(
                old(self),
                clamp_i64(ledger.balance_of(old(self).wallet) - later_cents),
                rows@,
                *context,
            ),
            entries@ == split_rows(
                old(self).entries_total,
                clamp_i64(ledger.balance_of(old(self).wallet) - later_cents),
                rows@,
                *context,
            ),
    {
        let closing: i64 = sat_sub(self.balance_cents(ledger), later_cents);
        let mut total: i64 = 0;
        let mut i: usize = 0;
        while i < rows.len()
            invariant
                i <= rows.len(),
                total == sat_total(amounts(rows@).take(i as int)),
            decreases rows.len() - i,
        {
            proof {
                let all = amounts(rows@);
                assert(all.take(i as int + 1).drop_last() =~= all.take(i as int));
                assert(all.take(i as int + 1).last() == rows@[i as int].1);
            }
            total = sat_add(total, rows[i].1);
            i = i + 1;
        }
        proof {
            assert(amounts(rows@).take(rows@.len() as int) =~= amounts(rows@));
        }
        let opening: i64 = sat_sub(closing, total);
        let mut balance: i64 = opening;
        let mut entries: Vec<LedgerEntry> = Vec::new();
        let ghost start = *self;
        let ghost full = split_rows(start.entries_total, closing, rows@, *context);
        let mut i: usize = 0;
        proof {
            assert(amounts(rows@).take(0) =~= Seq::<int>::empty());
            assert(full.take(0) =~= Seq::<LedgerEntry>::empty());
            assert(start.history() + full.take(0) =~= start.history());
            assert(rows@.take(0) =~= Seq::<(LedgerKind, i64)>::empty());
        }
        while i < rows.len()
            invariant
                i <= rows.len(),
                start.wf(),
                self.wf(),
                self.same_identity(&start),
                start.entries_total + rows@.len() <= u64::MAX,
                self.entries_total == start.entries_total + i,
                opening == clamp_i64(closing - sat_total(amounts(rows@))),
                balance == running_from(opening, amounts(rows@).take(i as int)),
                full == split_rows(start.entries_total, closing, rows@, *context),
                entries@ == full.take(i as int),
                self.history() == newest(start.history() + full.take(i as int), start.cap()),
                self.deposited_cents == deposited_after(start.deposited_cents, rows@.take(i as int)),
                self.withdrawn_cents == withdrawn_after(start.withdrawn_cents, rows@.take(i as int)),
                forall|j: int|
                    0 <= j < rows@.len() ==> ((#[trigger] rows@[j]).0 is Withdrawal ==> rows@[j].1 > i64::MIN),
            decreases rows.len() - i,
        {
            let kind: LedgerKind = rows[i].0;
            let amount: i64 = rows[i].1;
            let ghost before = *self;
            proof {
                let all = amounts(rows@);
                assert(all.take(i as int + 1).drop_last() =~= all.take(i as int));
                assert(all.take(i as int + 1).last() == amount);
            }
            balance = sat_add(balance, amount);
            let entry = self.write(kind, amount, balance, context);
            proof {
                assert(entry == full[i as int]);
                assert(full.take(i as int + 1) =~= full.take(i as int).push(entry));
                lemma_newest_push(start.history() + full.take(i as int), entry, start.cap());
                assert((start.history() + full.take(i as int)).push(entry) =~= start.history() + full.take(
                    i as int + 1,
                ));
                let longer = rows@.take(i as int + 1);
                assert(longer.drop_last() =~= rows@.take(i as int));
                assert(longer.last() == (kind, amount));
            }
            entries.push(entry);
            i = i + 1;
        }
        proof {
            assert(full.len() == rows@.len());
            assert(full.take(rows@.len() as int) =~= full);
            assert(rows@.take(rows@.len() as int) =~= rows@);
        }
        entries
    }

    /// The invariants that must hold for a healthy account. An account is
    /// valid when this is empty.
    ///
    /// The balance and reservation invariants belong to the ledger and are
    /// checked there; what is checked here is the account's link to it.
    pub fn issues(&self, ledger: &LedgerView) -> (issues: Vec<String>)
        requires
            ledger.wf(),
        ensures
            views(issues@) == self.faults(ledger),
    {
        let mut issues: Vec<String> = Vec::new();
        match ledger.wallet(self.wallet) {
            None => {
                let mut text = "wallet ".to_owned();
                push_u64(&mut text, self.wallet.0);
                text.append(" is not in the ledger");
                issues.push(text);
                proof {
                    assert(views(issues@) =~= self.faults(ledger));
                }
            },
            Some(wallet) => {
                if wallet.balance_cents < 0 {
                    let mut text = "balance is negative (".to_owned();
                    text.append(money(wallet.balance_cents).as_str());
                    text.append(")");
                    issues.push(text);
                }
                if wallet.reserved_cents > wallet.balance_cents {
                    let mut text = money(wallet.reserved_cents);
                    text.append(" is reserved against a balance of only ");
                    text.append(money(wallet.balance_cents).as_str());
                    issues.push(text);
                }
                proof {
                    assert(views(issues@) =~= self.faults(ledger));
                }
            },
        }
        issues
    }

    /// What is wrong with the account's link to the ledger, in words.
    pub open spec fn faults(&self, ledger: &LedgerView) -> Seq<Seq<char>> {
        if !ledger.has(self.wallet) {
            seq!["wallet "@ + decimal(self.wallet.0 as nat) + " is not in the ledger"@]
        } else {
            let balance = ledger.balance_of(self.wallet);
            let reserved = ledger.reserved_of(self.wallet);
            listed(balance < 0, "balance is negative ("@ + money_text(balance as int) + ")"@) + listed(
                reserved > balance,
                money_text(reserved as int) + " is reserved against a balance of only "@ + money_text(balance as int),
            )
        }
    }

    /// Check the retained ledger's arithmetic and its link to the current
    /// balance. Evicted history cannot be audited; its closing balance is
    /// the opening anchor of the retained window.
    pub fn ledger_issues(&self, ledger: &LedgerView) -> (issues: Vec<String>)
        requires
            ledger.wf(),
            self.history().len() <= i64::MAX,
        ensures
            views(issues@) == history_faults(
                self.history(),
                self.entries_total,
                ledger.balance_of(self.wallet),
            ),
    {
        let mut issues: Vec<String> = Vec::new();
        if self.ledger.len() == 0 {
            issues.push("ledger is empty".to_owned());
            proof {
                assert(views(issues@) =~= seq!["ledger is empty"@]);
            }
            return issues;
        }
        let ghost rows = self.history();
        let n: usize = self.ledger.len();
        let first_id: u64 = self.ledger[0].id;
        let mut balance: i128 = self.ledger[0].balance_cents as i128 - self.ledger[0].amount_cents as i128;
        let ghost opening = balance as int;
        if first_id == 1 && balance != 0 {
            issues.push("opening ledger balance is not zero".to_owned());
        }
        proof {
            assert(views(issues@) =~= listed(
                rows[0].id == 1 && opening != 0,
                "opening ledger balance is not zero"@,
            ));
            assert(views(issues@) + row_faults(rows, 0) =~= views(issues@));
        }
        let ghost head = views(issues@);
        let mut last_id: u64 = first_id;
        let mut i: usize = 0;
        while i < n
            invariant
                rows == self.history(),
                n == rows.len(),
                n <= i64::MAX,
                0 < n,
                i <= n,
                opening == rows[0].balance_cents - rows[0].amount_cents,
                balance == opening + sum_to(rows, i as int),
                -0x1_0000_0000_0000_0000 - 0x8000_0000_0000_0000 * i <= balance <= 0x1_0000_0000_0000_0000
                    + 0x8000_0000_0000_0000 * i,
                i > 0 ==> last_id == rows[i - 1].id,
                views(issues@) == head + row_faults(rows, i as int),
            decreases n - i,
        {
            let id: u64 = self.ledger[i].id;
            let amount: i64 = self.ledger[i].amount_cents;
            let closes: i64 = self.ledger[i].balance_cents;
            let ghost before = views(issues@);
            let follows: bool = if i == 0 { id != 0 } else { last_id < u64::MAX && last_id + 1 == id };
            if !follows {
                issues.push("ledger entry ids are not consecutive".to_owned());
            }
            proof {
                assert(views(issues@) =~= before + listed(!follows, "ledger entry ids are not consecutive"@));
            }
            let ghost middle = views(issues@);
            balance = balance + amount as i128;
            if balance != closes as i128 {
                let mut text = "ledger entry ".to_owned();
                push_u64(&mut text, id);
                text.append(" has an inconsistent balance");
                issues.push(text);
            }
            proof {
                let strays = balance != closes as int;
                assert(views(issues@) =~= middle + listed(
                    strays,
                    "ledger entry "@ + decimal(id as nat) + " has an inconsistent balance"@,
                ));
                assert(views(issues@) =~= head + row_faults(rows, i as int + 1));
            }
            last_id = id;
            i = i + 1;
        }
        let ghost before = views(issues@);
        if last_id != self.entries_total {
            issues.push("ledger entry count does not match its last id".to_owned());
        }
        proof {
            assert(views(issues@) =~= before + listed(
                last_id != self.entries_total,
                "ledger entry count does not match its last id"@,
            ));
        }
        let ghost middle = views(issues@);
        if balance != self.balance_cents(ledger) as i128 {
            issues.push("ledger does not reconcile to the account balance".to_owned());
        }
        proof {
            assert(views(issues@) =~= middle + listed(
                balance != ledger.balance_of(self.wallet) as int,
                "ledger does not reconcile to the account balance"@,
            ));
        }
        issues
    }

    /// Every invariant holds.
    pub fn is_valid(&self, ledger: &LedgerView) -> (r: bool)
        requires
            ledger.wf(),
        ensures
            r == (self.faults(ledger).len() == 0),
    {
        let issues = self.issues(ledger);
        proof {
            assert(views(issues@).len() == issues@.len());
        }
        issues.len() == 0
    }

    /// Append an entry describing a balance change that has already been
    /// applied.
    fn write(&mut self, kind: LedgerKind, amount_cents: i64, balance_cents: i64, context: &Context) -> (entry:
        LedgerEntry)
        requires
            old(self).cap() >= 1,
            old(self).history().len() <= old(self).cap(),
            old(self).entries_total < u64::MAX,
            kind is Withdrawal ==> amount_cents > i64::MIN,
        ensures
            final(self).wf(),
            final(self).wrote(old(self), kind, amount_cents, balance_cents, *context),
            entry == row((old(self).entries_total + 1) as u64, kind, amount_cents, balance_cents, *context),
            entry == final(self).history().last(),
    {
        let ghost before = *self;
        self.entries_total = self.entries_total + 1;
        match kind {
            LedgerKind::Deposit => {
                self.deposited_cents = sat_add(self.deposited_cents, at_least_zero(amount_cents));
            },
            LedgerKind::Withdrawal => {
                self.withdrawn_cents = sat_add(self.withdrawn_cents, at_least_zero(-amount_cents));
            },
            _ => {},
        }
        let entry = LedgerEntry {
            id: self.entries_total,
            ts_ms: context.ts_ms,
            kind,
            tx_id: context.tx_id,
            amount_cents,
            balance_cents,
            symbol: copy_text(&context.symbol),
            order_id: context.order_id,
            memo: copy_text(&context.memo),
        };
        if self.ledger.len() >= self.ledger_cap {
            self.ledger.pop_front();
        }
        self.ledger.push_back(entry.clone());
        proof {
            assert(self.history() =~= newest(before.history().push(entry), before.cap()));
        }
        entry
    }
}

/// The row a transaction leaves in an account's history.
pub open spec fn row(id: u64, kind: LedgerKind, amount_cents: i64, balance_cents: i64, context: Context) -> LedgerEntry {
    LedgerEntry {
        id,
        ts_ms: context.ts_ms,
        kind,
        tx_id: context.tx_id,
        amount_cents,
        balance_cents,
        symbol: context.symbol,
        order_id: context.order_id,
        memo: context.memo,
    }
}

/// The amounts of the rows.
pub open spec fn amounts(rows: Seq<(LedgerKind, i64)>) -> Seq<int> {
    rows.map_values(|r: (LedgerKind, i64)| r.1 as int)
}

/// The amounts added up one by one, stopping at the ends of the range.
pub open spec fn sat_total(amounts: Seq<int>) -> i64 {
    running_from(0, amounts)
}

/// `start` with the amounts added one by one, stopping at the ends of the
/// range.
pub open spec fn running_from(start: i64, amounts: Seq<int>) -> i64
    decreases amounts.len(),
{
    if amounts.len() == 0 {
        start
    } else {
        clamp_i64(running_from(start, amounts.drop_last()) + amounts.last())
    }
}

/// The balance each row closes on, where the last one closes on `closing`.
pub open spec fn closing_balances(closing: i64, rows: Seq<(LedgerKind, i64)>) -> Seq<i64> {
    let all = amounts(rows);
    let opening = clamp_i64(closing - sat_total(all));
    Seq::new(rows.len(), |i: int| running_from(opening, all.take(i + 1)))
}

/// The rows one transaction leaves in an account's history, after `written`
/// earlier ones.
pub open spec fn split_rows(written: u64, closing: i64, rows: Seq<(LedgerKind, i64)>, context: Context) -> Seq<
    LedgerEntry,
> {
    Seq::new(
        rows.len(),
        |i: int|
            row((written + i + 1) as u64, rows[i].0, rows[i].1, closing_balances(closing, rows)[i], context),
    )
}

/// What has been paid in, once the rows are written.
pub open spec fn deposited_after(before: i64, rows: Seq<(LedgerKind, i64)>) -> i64
    decreases rows.len(),
{
    if rows.len() == 0 {
        before
    } else {
        let earlier = deposited_after(before, rows.drop_last());
        if rows.last().0 is Deposit {
            clamp_i64(earlier + max_int(rows.last().1 as int, 0))
        } else {
            earlier
        }
    }
}

/// What has been taken out, once the rows are written.
pub open spec fn withdrawn_after(before: i64, rows: Seq<(LedgerKind, i64)>) -> i64
    decreases rows.len(),
{
    if rows.len() == 0 {
        before
    } else {
        let earlier = withdrawn_after(before, rows.drop_last());
        if rows.last().0 is Withdrawal {
            clamp_i64(earlier + max_int(-(rows.last().1 as int), 0))
        } else {
            earlier
        }
    }
}

proof fn lemma_running_single(amount: i64)
    ensures
        sat_total(seq![amount as int]) == amount,
        forall|start: i64| #[trigger]
            running_from(start, seq![amount as int].take(1)) == clamp_i64(start + amount),
{
    let one = seq![amount as int];
    assert(one.drop_last() =~= Seq::<int>::empty());
    assert(one.take(1) =~= one);
    reveal_with_fuel(running_from, 2);
}

proof fn lemma_newest_push<T>(rows: Seq<T>, entry: T, cap: int)
    requires
        cap >= 1,
    ensures
        newest(newest(rows, cap).push(entry), cap) == newest(rows.push(entry), cap),
{
    assert(newest(newest(rows, cap).push(entry), cap) =~= newest(rows.push(entry), cap));
}

/// The views of a list of texts.
pub open spec fn views(texts: Seq<String>) -> Seq<Seq<char>> {
    texts.map_values(|s: String| s@)
}

/// `issue` alone, where it is one.
pub open spec fn listed(wrong: bool, issue: Seq<char>) -> Seq<Seq<char>> {
    if wrong {
        seq![issue]
    } else {
        Seq::empty()
    }
}

/// The amounts of the first `n` rows, added up.
pub open spec fn sum_to(rows: Seq<LedgerEntry>, n: int) -> int
    decreases n,
{
    if n <= 0 {
        0
    } else {
        sum_to(rows, n - 1) + rows[n - 1].amount_cents
    }
}

/// What is wrong with the row at `i`: an id that does not follow the one
/// before it, and a balance that is not what the rows add up to.
pub open spec fn row_fault(rows: Seq<LedgerEntry>, i: int) -> Seq<Seq<char>> {
    let follows = if i == 0 {
        rows[i].id != 0
    } else {
        rows[i].id == rows[i - 1].id + 1
    };
    let running = rows[0].balance_cents - rows[0].amount_cents + sum_to(rows, i + 1);
    listed(!follows, "ledger entry ids are not consecutive"@) + listed(
        running != rows[i].balance_cents,
        "ledger entry "@ + decimal(rows[i].id as nat) + " has an inconsistent balance"@,
    )
}

/// What is wrong with the first `n` rows, row by row.
pub open spec fn row_faults(rows: Seq<LedgerEntry>, n: int) -> Seq<Seq<char>>
    decreases n,
{
    if n <= 0 {
        Seq::empty()
    } else {
        row_faults(rows, n - 1) + row_fault(rows, n - 1)
    }
}

/// What is wrong with a retained history of `written` rows that should lead
/// to `balance`.
pub open spec fn history_faults(rows: Seq<LedgerEntry>, written: u64, balance: i64) -> Seq<Seq<char>> {
    if rows.len() == 0 {
        seq!["ledger is empty"@]
    } else {
        let opening = rows[0].balance_cents - rows[0].amount_cents;
        listed(rows[0].id == 1 && opening != 0, "opening ledger balance is not zero"@) + row_faults(
            rows,
            rows.len() as int,
        ) + listed(rows.last().id != written, "ledger entry count does not match its last id"@) + listed(
            opening + sum_to(rows, rows.len() as int) != balance,
            "ledger does not reconcile to the account balance"@,
        )
    }
}

/// One side of a settlement, ready to be posted and recorded.
///
/// A fill moves currency between two parties and the venue in a single
/// balanced transaction, but leaves a row in each account that took part.
/// This is what one of those rows will say.
#[derive(Clone, Copy, Debug)]
pub struct Booking {
    /// The account whose history gets the row.
    pub account: AccountId,
    /// What it did to that account.
    pub kind: LedgerKind,
    /// Signed cents, the way the ledger is.
    pub amount_cents: i64,
}

/// `price_cents × qty`, saturating instead of overflowing.
///
/// For display and reporting, where a number that is merely very large is
/// better than none. Settlement uses
/// [`checked_notional_cents`](crate::ledger::checked_notional_cents), which
/// refuses a product that does not fit.
pub fn notional_cents(price_cents: i64, qty: u64) -> (cents: i64)
    ensures
        cents == clamp_i64(price_cents * qty),
{
    to_i64(wide_notional(price_cents, qty))
}

/// The draft behind one side of a fill: what the trader pays or receives,
/// and what the venue takes out of it.
///
/// `fee_cents` is signed the way the ledger is — negative is charged to the
/// trader, positive is a rebate paid to them — so a maker rebate and a taker
/// fee are the same arithmetic with different signs.
pub fn settlement_draft(
    trader: WalletId,
    counterparty: WalletId,
    venue: WalletId,
    side: Side,
    value_cents: i64,
    fee_cents: i64,
    ts_ms: i64,
) -> (draft: Draft)
    requires
        value_cents > i64::MIN,
        fee_cents > i64::MIN,
    ensures
        draft.reason == (match side {
            Side::Buy => Reason::Buy,
            Side::Sell => Reason::Sell,
        }),
        draft.at_ms == max_int(ts_ms as int, 0),
        draft.memo is None,
        draft.postings@ == settlement_postings(trader, counterparty, venue, side, value_cents, fee_cents),
{
    let reason = match side {
        Side::Buy => Reason::Buy,
        Side::Sell => Reason::Sell,
    };
    let signed: i64 = match side {
        Side::Buy => -value_cents,
        Side::Sell => value_cents,
    };
    let draft = Draft::new(reason).at(at_least_zero(ts_ms) as u64).posting(trader, signed).posting(
        counterparty,
        -signed,
    ).posting(trader, fee_cents).posting(venue, -fee_cents);
    proof {
        assert(draft.postings@ =~= settlement_postings(trader, counterparty, venue, side, value_cents, fee_cents));
    }
    draft
}

/// The trader's side, the counterparty's mirror of it, and the venue's cut.
pub open spec fn settlement_postings(
    trader: WalletId,
    counterparty: WalletId,
    venue: WalletId,
    side: Side,
    value_cents: i64,
    fee_cents: i64,
) -> Seq<Posting> {
    let signed = match side {
        Side::Buy => -value_cents,
        Side::Sell => value_cents as int,
    };
    seq![
        Posting { wallet: trader, cents: signed as i64 },
        Posting { wallet: counterparty, cents: (-signed) as i64 },
        Posting { wallet: trader, cents: fee_cents },
        Posting { wallet: venue, cents: (-fee_cents) as i64 },
    ]
}

/// Cents as a human writes them: units, a point, and two digits.
pub open spec fn money_text(cents: int) -> Seq<char> {
    let abs = if cents < 0 {
        -cents
    } else {
        cents
    };
    let sign = if cents < 0 {
        "-"@
    } else {
        ""@
    };
    (sign + decimal((abs / 100) as nat) + "."@).push(digit_char(abs % 100 / 10)).push(digit_char(abs % 10))
}

/// Format cents for a human, by integer division only: `123456` → `1234.56`.
pub fn money(cents: i64) -> (text: String)
    ensures
        text@ == money_text(cents as int),
{
    let abs: u64 = if cents < 0 { (-(cents as i128)) as u64 } else { cents as u64 };
    let mut text = if cents < 0 { "-".to_owned() } else { "".to_owned() };
    push_u64(&mut text, abs / 100);
    text.append(".");
    let tens: u64 = abs % 100 / 10;
    let ones: u64 = abs % 10;
    text.push((48 + tens as u8) as char);
    text.push((48 + ones as u8) as char);
    text
}

/// What is wrong with an amount that is to be moved.
pub open spec fn transfer_fault(amount_cents: i64) -> Option<MoneyError> {
    if amount_cents <= 0 {
        Some(MoneyError::NotPositive { amount_cents })
    } else if amount_cents > MAX_TRANSFER_CENTS {
        Some(MoneyError::TooLarge { amount_cents, max_cents: MAX_TRANSFER_CENTS })
    } else {
        None
    }
}

/// The amount is a positive number of cents no larger than the cap.
pub fn check_transfer(amount_cents: i64) -> (r: Result<(), MoneyError>)
    ensures
        match r {
            Ok(()) => transfer_fault(amount_cents) is None,
            Err(e) => transfer_fault(amount_cents) == Some(e),
        },
{
    if amount_cents <= 0 {
        return Err(MoneyError::NotPositive { amount_cents });
    }
    if amount_cents > MAX_TRANSFER_CENTS {
        return Err(MoneyError::TooLarge { amount_cents, max_cents: MAX_TRANSFER_CENTS });
    }
    Ok(())
}

// ---------------------------------------------------------------------------
// Shapes of requests and responses

/// What registering a user asks for.
#[derive(Debug)]
pub struct CreateUserRequest {
    pub name: Option<String>,
    pub email: Option<String>,
}

/// What opening another account asks for.
#[derive(Debug)]
pub struct OpenAccountRequest {
    pub name: Option<String>,
    /// What the faucet should pay the new account out of treasury; defaults
    /// to the server's `starting_cash_cents`. It is a transfer, not a mint.
    pub cash_cents: Option<i64>,
}

/// What moving money in or out asks for.
#[derive(Debug)]
pub struct TransferRequest {
    /// Cents to move. Must be a positive integer.
    pub amount_cents: i64,
    pub memo: Option<String>,
}

/// What freezing, reopening or closing an account asks for.
#[derive(Clone, Copy, Debug)]
pub struct StatusRequest {
    pub status: AccountStatus,
}

/// A user as they see themselves.
#[derive(Debug)]
pub struct UserDto {
    pub id: u64,
    pub name: String,
    pub email: Option<String>,
    pub created_at_ms: i64,
    pub accounts: Vec<u64>,
    pub traders: Vec<u64>,
    /// Every account's balance added up.
    pub balance_cents: i64,
    /// Shares owned across every symbol and every trader of the user.
    pub shares_owned: u64,
    /// Those shares at the reference prices.
    pub holdings_value_cents: i64,
    /// The key that proves a request speaks for this user, shown **once**:
    /// in the response that created them, and `None` everywhere after.
    pub api_key: Option<String>,
}

/// An account as its owner sees it.
#[derive(Debug)]
pub struct AccountDto {
    pub id: u64,
    pub user_id: u64,
    pub name: String,
    pub status: AccountStatus,
    /// The wallet in the currency ledger this account's money lives in.
    pub wallet_id: u64,
    pub opened_at_ms: i64,
    pub balance_cents: i64,
    /// Held against resting buy orders.
    pub reserved_cents: i64,
    /// `balance − reserved`: what an order or a withdrawal can use.
    pub available_cents: i64,
    pub deposited_cents: i64,
    pub withdrawn_cents: i64,
    pub entries_total: u64,
    /// The trader that trades on this account, if one was created for it.
    pub trader_id: Option<u64>,
    /// Every invariant holds.
    pub valid: bool,
}

impl AccountDto {
    /// What is shown of an account.
    pub open spec fn shown(a: &Account, ledger: &LedgerView, trader_id: Option<u64>) -> AccountDto {
        AccountDto {
            id: a.id.0,
            user_id: a.user_id.0,
            name: a.name,
            status: ledger.status_of(a.wallet),
            wallet_id: a.wallet.0,
            opened_at_ms: a.opened_at_ms,
            balance_cents: ledger.balance_of(a.wallet),
            reserved_cents: ledger.reserved_of(a.wallet),
            available_cents: ledger.available_of(a.wallet),
            deposited_cents: a.deposited_cents,
            withdrawn_cents: a.withdrawn_cents,
            entries_total: a.entries_total,
            trader_id,
            valid: a.faults(ledger).len() == 0,
        }
    }

    /// What is shown of an account.
    pub fn new(a: &Account, ledger: &LedgerView, trader_id: Option<u64>) -> (dto: Self)
        requires
            ledger.wf(),
        ensures
            dto == AccountDto::shown(a, ledger, trader_id),
    {
        AccountDto {
            id: a.id.0,
            user_id: a.user_id.0,
            name: a.name.clone(),
            status: a.status(ledger),
            wallet_id: a.wallet.0,
            opened_at_ms: a.opened_at_ms,
            balance_cents: a.balance_cents(ledger),
            reserved_cents: a.reserved_cents(ledger),
            available_cents: a.available_cents(ledger),
            deposited_cents: a.deposited_cents,
            withdrawn_cents: a.withdrawn_cents,
            entries_total: a.entries_total,
            trader_id,
            valid: a.is_valid(ledger),
        }
    }
}

/// An account's invariants, checked.
#[derive(Debug)]
pub struct AccountCheck {
    pub account_id: u64,
    pub status: AccountStatus,
    /// `issues` is empty.
    pub valid: bool,
    /// Every broken invariant, in plain words.
    pub issues: Vec<String>,
    pub balance_cents: i64,
    pub reserved_cents: i64,
    pub available_cents: i64,
    /// Orders are accepted right now.
    pub can_trade: bool,
    pub can_deposit: bool,
    pub can_withdraw: bool,
}

impl AccountCheck {
    /// Check an account: its status, what it can do, and any broken
    /// invariant.
    pub fn new(a: &Account, ledger: &LedgerView) -> (check: Self)
        requires
            ledger.wf(),
        ensures
            check.account_id == a.id.0,
            check.status == ledger.status_of(a.wallet),
            views(check.issues@) == a.faults(ledger),
            check.valid == (a.faults(ledger).len() == 0),
            check.balance_cents == ledger.balance_of(a.wallet),
            check.reserved_cents == ledger.reserved_of(a.wallet),
            check.available_cents == ledger.available_of(a.wallet),
            check.can_trade == (ledger.status_of(a.wallet) is Active),
            check.can_deposit == !(ledger.status_of(a.wallet) is Closed),
            check.can_withdraw == (ledger.status_of(a.wallet) is Active),
    {
        let issues = a.issues(ledger);
        let status = a.status(ledger);
        proof {
            assert(views(issues@).len() == issues@.len());
        }
        AccountCheck {
            account_id: a.id.0,
            status,
            valid: issues.len() == 0,
            issues,
            balance_cents: a.balance_cents(ledger),
            reserved_cents: a.reserved_cents(ledger),
            available_cents: a.available_cents(ledger),
            can_trade: status.can_debit(),
            can_deposit: status.can_credit(),
            can_withdraw: status.can_debit(),
        }
    }
}

/// An account after a movement, and entries of its history.
#[derive(Debug)]
pub struct LedgerResponse {
    pub account: AccountDto,
    /// Newest first.
    pub entries: Vec<LedgerEntry>,
}

// ---------------------------------------------------------------------------
// Laws

/// A settlement balances whichever way the fee points: what the trader pays
/// the counterparty receives, and what the fee takes the venue gets.
pub proof fn law_settlement_balances(
    trader: WalletId,
    counterparty: WalletId,
    venue: WalletId,
    side: Side,
    value_cents: i64,
    fee_cents: i64,
)
    requires
        value_cents > i64::MIN,
        fee_cents > i64::MIN,
    ensures
        total_cents(settlement_postings(trader, counterparty, venue, side, value_cents, fee_cents)) == 0,
        trader != counterparty && trader != venue && counterparty != venue ==> net_cents(
            settlement_postings(trader, counterparty, venue, side, value_cents, fee_cents),
            venue,
        ) == -fee_cents,
{
    let postings = settlement_postings(trader, counterparty, venue, side, value_cents, fee_cents);
    assert(postings.drop_last().drop_last().drop_last().drop_last() =~= Seq::<Posting>::empty());
    reveal_with_fuel(total_cents, 5);
    reveal_with_fuel(net_cents, 5);
}

/// The row at `i` follows the one before it: the next id, and the balance
/// before it plus its own amount.
pub open spec fn follows_on(rows: Seq<LedgerEntry>, i: int) -> bool {
    rows[i].id == rows[i - 1].id + 1 && rows[i].balance_cents == rows[i - 1].balance_cents + rows[i].amount_cents
}

/// A retained history adds up: ids follow one another and end at the number
/// of rows written, each row closes on the balance before it plus its amount,
/// the last one closes on `balance`, and a history that starts at the first
/// row starts from nothing.
pub open spec fn adds_up(rows: Seq<LedgerEntry>, written: u64, balance: i64) -> bool {
    &&& rows.len() > 0
    &&& rows[0].id != 0
    &&& rows[0].id == 1 ==> rows[0].balance_cents == rows[0].amount_cents
    &&& forall|i: int| 0 < i < rows.len() ==> #[trigger] follows_on(rows, i)
    &&& rows.last().id == written
    &&& rows.last().balance_cents == balance
}

/// The audit finds nothing exactly where the history adds up.
pub proof fn law_audit_is_silent_iff_history_adds_up(rows: Seq<LedgerEntry>, written: u64, balance: i64)
    ensures
        history_faults(rows, written, balance).len() == 0 <==> adds_up(rows, written, balance),
{
    if history_faults(rows, written, balance).len() == 0 {
        lemma_silent(rows, written, balance);
    }
    if adds_up(rows, written, balance) {
        lemma_nothing_to_say(rows, written, balance);
    }
}

proof fn lemma_silent(rows: Seq<LedgerEntry>, written: u64, balance: i64)
    requires
        history_faults(rows, written, balance).len() == 0,
    ensures
        adds_up(rows, written, balance),
{
    let n = rows.len() as int;
    assert(n > 0);
    assert(row_faults(rows, n).len() == 0);
    lemma_row_faults(rows, n);
    assert forall|i: int| 0 < i < n implies #[trigger] follows_on(rows, i) by {
        assert(row_fault(rows, i).len() == 0);
        assert(row_fault(rows, i - 1).len() == 0);
        assert(sum_to(rows, i + 1) == sum_to(rows, i) + rows[i].amount_cents);
    }
    assert(row_fault(rows, 0).len() == 0);
    assert(row_fault(rows, n - 1).len() == 0);
}

proof fn lemma_nothing_to_say(rows: Seq<LedgerEntry>, written: u64, balance: i64)
    requires
        adds_up(rows, written, balance),
    ensures
        history_faults(rows, written, balance).len() == 0,
{
    let n = rows.len() as int;
    assert forall|i: int| 0 <= i < n implies row_fault(rows, i).len() == 0 by {
        lemma_running(rows, written, balance, i + 1);
        if i > 0 {
            assert(follows_on(rows, i));
        }
    }
    lemma_row_faults(rows, n);
    lemma_running(rows, written, balance, n);
}

proof fn lemma_row_faults(rows: Seq<LedgerEntry>, n: int)
    requires
        0 <= n <= rows.len(),
    ensures
        row_faults(rows, n).len() == 0 <==> forall|i: int| 0 <= i < n ==> (#[trigger] row_fault(rows, i)).len() == 0,
    decreases n,
{
    if n > 0 {
        lemma_row_faults(rows, n - 1);
    }
}

proof fn lemma_running(rows: Seq<LedgerEntry>, written: u64, balance: i64, n: int)
    requires
        adds_up(rows, written, balance),
        0 < n <= rows.len(),
    ensures
        rows[0].balance_cents - rows[0].amount_cents + sum_to(rows, n) == rows[n - 1].balance_cents,
    decreases n,
{
    reveal_with_fuel(sum_to, 2);
    if n > 1 {
        lemma_running(rows, written, balance, n - 1);
        assert(follows_on(rows, n - 1));
    }
}

/// A history that adds up still does once a row is written that takes the
/// balance where its amount says, however many old rows the cap lets go of.
pub proof fn law_writing_a_row_keeps_history_adding_up(
    rows: Seq<LedgerEntry>,
    written: u64,
    balance: i64,
    entry: LedgerEntry,
    cap: int,
)
    requires
        adds_up(rows, written, balance),
        written < u64::MAX,
        entry.id == written + 1,
        entry.balance_cents == balance + entry.amount_cents,
        cap >= 1,
    ensures
        adds_up(newest(rows.push(entry), cap), entry.id, entry.balance_cents),
{
    let all = rows.push(entry);
    assert forall|i: int| 0 < i < all.len() implies #[trigger] follows_on(all, i) by {
        if i < rows.len() {
            assert(follows_on(rows, i));
        }
    }
    assert(adds_up(all, entry.id, entry.balance_cents));
    if all.len() > cap {
        let k = all.len() - cap;
        let kept = all.skip(k);
        lemma_ids(all, entry.id, entry.balance_cents, k);
        assert forall|i: int| 0 < i < kept.len() implies #[trigger] follows_on(kept, i) by {
            assert(follows_on(all, k + i));
        }
        assert(kept.last() == all.last());
    }
}

proof fn lemma_ids(rows: Seq<LedgerEntry>, written: u64, balance: i64, i: int)
    requires
        adds_up(rows, written, balance),
        0 <= i < rows.len(),
    ensures
        rows[i].id == rows[0].id + i,
    decreases i,
{
    if i > 0 {
        lemma_ids(rows, written, balance, i - 1);
        assert(follows_on(rows, i));
    }
}

/// The sum of the first amounts.
pub open spec fn plain_sum(amounts: Seq<int>) -> int
    decreases amounts.len(),
{
    if amounts.len() == 0 {
        0
    } else {
        plain_sum(amounts.drop_last()) + amounts.last()
    }
}

/// No running figure leaves the range, neither the amounts' own nor the
/// balance's.
pub open spec fn stays_in_range(balance: int, amounts: Seq<int>) -> bool {
    forall|n: int|
        0 <= n <= amounts.len() ==> i64::MIN <= #[trigger] plain_sum(amounts.take(n)) <= i64::MAX && i64::MIN
            <= balance + plain_sum(amounts.take(n)) <= i64::MAX
}

proof fn lemma_running_is_plain(start: i64, amounts: Seq<int>, n: int)
    requires
        0 <= n <= amounts.len(),
        forall|m: int|
            0 <= m <= amounts.len() ==> i64::MIN <= start + #[trigger] plain_sum(amounts.take(m)) <= i64::MAX,
    ensures
        running_from(start, amounts.take(n)) == start + plain_sum(amounts.take(n)),
    decreases n,
{
    if n > 0 {
        lemma_running_is_plain(start, amounts, n - 1);
        assert(amounts.take(n).drop_last() =~= amounts.take(n - 1));
        assert(i64::MIN <= start + plain_sum(amounts.take(n)) <= i64::MAX);
    }
}

/// The rows of one transaction keep the history adding up: where the ledger
/// moved the balance by the sum of the rows, the last row closes on what the
/// ledger says and the audit stays silent.
pub proof fn law_split_rows_keep_history_adding_up(
    history: Seq<LedgerEntry>,
    written: u64,
    balance: i64,
    closing: i64,
    rows: Seq<(LedgerKind, i64)>,
    context: Context,
    cap: int,
)
    requires
        adds_up(history, written, balance),
        written + rows.len() <= u64::MAX,
        cap >= 1,
        history.len() <= cap,
        stays_in_range(balance as int, amounts(rows)),
        closing == balance + plain_sum(amounts(rows)),
    ensures
        adds_up(
            newest(history + split_rows(written, closing, rows, context), cap),
            (written + rows.len()) as u64,
            closing,
        ),
        rows.len() > 0 ==> split_rows(written, closing, rows, context).last().balance_cents == closing,
{
    let all = amounts(rows);
    let entries = split_rows(written, closing, rows, context);
    assert(all.take(all.len() as int) =~= all);
    assert forall|m: int| 0 <= m <= all.len() implies i64::MIN <= 0 + #[trigger] plain_sum(all.take(m)) <= i64::MAX by {}
    lemma_running_is_plain(0, all, all.len() as int);
    assert(i64::MIN <= balance + plain_sum(all.take(all.len() as int)) <= i64::MAX);
    assert(clamp_i64(closing - sat_total(all)) == balance);
    assert forall|i: int| 0 <= i < rows.len() implies (#[trigger] entries[i]).balance_cents == balance + plain_sum(
        all.take(i + 1),
    ) by {
        assert forall|m: int| 0 <= m <= all.len() implies i64::MIN <= balance + #[trigger] plain_sum(all.take(m))
            <= i64::MAX by {}
        lemma_running_is_plain(balance, all, i + 1);
    }
    assert(history + entries.take(0) =~= history);
    assert(all.take(0) =~= Seq::<int>::empty());
    lemma_split_prefix(history, written, balance, closing, rows, context, cap, rows.len() as int);
    assert(entries.take(rows.len() as int) =~= entries);
}

proof fn lemma_split_prefix(
    history: Seq<LedgerEntry>,
    written: u64,
    balance: i64,
    closing: i64,
    rows: Seq<(LedgerKind, i64)>,
    context: Context,
    cap: int,
    n: int,
)
    requires
        adds_up(history, written, balance),
        written + rows.len() <= u64::MAX,
        cap >= 1,
        history.len() <= cap,
        0 <= n <= rows.len(),
        stays_in_range(balance as int, amounts(rows)),
        forall|i: int|
            0 <= i < rows.len() ==> (#[trigger] split_rows(written, closing, rows, context)[i]).balance_cents
                == balance + plain_sum(amounts(rows).take(i + 1)),
    ensures
        adds_up(
            newest(history + split_rows(written, closing, rows, context).take(n), cap),
            (written + n) as u64,
            (balance + plain_sum(amounts(rows).take(n))) as i64,
        ),
    decreases n,
{
    let entries = split_rows(written, closing, rows, context);
    let all = amounts(rows);
    if n == 0 {
        assert(history + entries.take(0) =~= history);
        assert(all.take(0) =~= Seq::<int>::empty());
    } else {
        lemma_split_prefix(history, written, balance, closing, rows, context, cap, n - 1);
        let before = history + entries.take(n - 1);
        let entry = entries[n - 1];
        assert(all.take(n).drop_last() =~= all.take(n - 1));
        assert(all.take(n).last() == rows[n - 1].1);
        assert(i64::MIN <= balance + plain_sum(all.take(n)) <= i64::MAX);
        assert(i64::MIN <= balance + plain_sum(all.take(n - 1)) <= i64::MAX);
        law_writing_a_row_keeps_history_adding_up(
            newest(before, cap),
            (written + n - 1) as u64,
            (balance + plain_sum(all.take(n - 1))) as i64,
            entry,
            cap,
        );
        lemma_newest_push(before, entry, cap);
        assert(before.push(entry) =~= history + entries.take(n));
    }
}

/// A settled trade moves its value between the two who traded, and the fee
/// from the one it is the fee of to the venue. A buyer pays the value, a
/// seller is paid it; nobody else is touched. This holds of every wallet,
/// also where one stands in two places.
pub proof fn law_a_settlement_pays_each_side(
    trader: WalletId,
    counterparty: WalletId,
    venue: WalletId,
    side: Side,
    value_cents: i64,
    fee_cents: i64,
    ts_ms: i64,
    draft: Draft,
    wallet: WalletId,
)
    requires
        value_cents > i64::MIN,
        fee_cents > i64::MIN,
        call_ensures(
            settlement_draft,
            (trader, counterparty, venue, side, value_cents, fee_cents, ts_ms),
            draft,
        ),
    ensures
        ({
            let moved = if side is Buy {
                -value_cents
            } else {
                value_cents as int
            };
            net_cents(draft.postings@, wallet) == (if wallet == trader {
                moved + fee_cents
            } else {
                0
            }) - (if wallet == counterparty {
                moved
            } else {
                0
            }) - (if wallet == venue {
                fee_cents as int
            } else {
                0
            })
        }),
        side is Buy <==> draft.reason is Buy,
        side is Sell <==> draft.reason is Sell,
        ts_ms >= 0 ==> draft.at_ms == ts_ms,
        draft.memo is None,
{
    let lines = draft.postings@;
    let none = Seq::<Posting>::empty();
    lemma_total_push(none, lines[0]);
    lemma_total_push(none.push(lines[0]), lines[1]);
    lemma_total_push(none.push(lines[0]).push(lines[1]), lines[2]);
    lemma_total_push(none.push(lines[0]).push(lines[1]).push(lines[2]), lines[3]);
    assert(lines =~= none.push(lines[0]).push(lines[1]).push(lines[2]).push(lines[3]));
    assert(net_cents(none, wallet) == 0);
}

/// The newest rows are kept, in the order they were written, and as many of
/// them as fit.
pub proof fn law_the_newest_rows_are_kept<T>(rows: Seq<T>, cap: int, i: int)
    requires
        cap >= 0,
        0 <= i < newest(rows, cap).len(),
    ensures
        newest(rows, cap).len() == (if rows.len() < cap {
            rows.len() as int
        } else {
            cap
        }),
        newest(rows, cap)[i] == rows[rows.len() - newest(rows, cap).len() + i],
{
}

/// A history is shown newest first, and no more of it than was asked for.
pub proof fn law_a_history_is_shown_newest_first(account: Account, limit: usize, entries: Vec<LedgerEntry>, i: int)
    requires
        call_ensures(Account::ledger, (&account, limit), entries),
        0 <= i < entries@.len(),
    ensures
        entries@.len() == (if account.ledger@.len() < limit {
            account.ledger@.len() as int
        } else {
            limit as int
        }),
        entries@[i] == account.ledger@[account.ledger@.len() - 1 - i],
{
}

/// A new account has one row, which opens it with nothing in it, and its
/// history adds up.
pub proof fn law_a_new_account_adds_up(
    id: AccountId,
    user_id: UserId,
    name: String,
    wallet: WalletId,
    ledger_cap: usize,
    now_ms: i64,
    account: Account,
)
    requires
        call_ensures(Account::open, (id, user_id, name, wallet, ledger_cap, now_ms), account),
    ensures
        adds_up(account.ledger@, account.entries_total, 0),
        account.ledger@.len() == 1,
        account.ledger@[0].kind is Open,
        account.ledger@[0].ts_ms == now_ms,
        account.deposited_cents == 0 && account.withdrawn_cents == 0,
        account.id == id && account.user_id == user_id && account.wallet == wallet && account.name@ == name@,
        account.opened_at_ms == now_ms,
        ledger_cap > 0 ==> account.ledger_cap == ledger_cap,
{
}

/// What an account shows of its money is what the ledger shows of its wallet.
pub proof fn law_an_account_shows_its_own_wallet(
    account: Account,
    ledger: LedgerView,
    balance: i64,
    reserved: i64,
    available: i64,
    status: AccountStatus,
    trader_id: Option<u64>,
    dto: AccountDto,
)
    requires
        ledger.wallets.map().contains_key(account.wallet.0),
        call_ensures(Account::balance_cents, (&account, &ledger), balance),
        call_ensures(Account::reserved_cents, (&account, &ledger), reserved),
        call_ensures(Account::available_cents, (&account, &ledger), available),
        call_ensures(Account::status, (&account, &ledger), status),
        call_ensures(AccountDto::new, (&account, &ledger, trader_id), dto),
    ensures
        ({
            let wallet = ledger.wallets.map()[account.wallet.0];
            &&& balance == wallet.balance_cents && dto.balance_cents == balance
            &&& reserved == wallet.reserved_cents && dto.reserved_cents == reserved
            &&& available == wallet.available_cents && dto.available_cents == available
            &&& status == wallet.status && dto.status == status
        }),
        dto.id == account.id.0 && dto.user_id == account.user_id.0 && dto.wallet_id == account.wallet.0,
        dto.deposited_cents == account.deposited_cents && dto.withdrawn_cents == account.withdrawn_cents,
        dto.entries_total == account.entries_total && dto.opened_at_ms == account.opened_at_ms,
        dto.trader_id == trader_id && dto.name == account.name,
{
}

/// An amount can be spent where the account's wallet is active and has that
/// much free. Otherwise the refusal says which of the two it was.
pub proof fn law_an_amount_can_be_spent_where_it_is_free(
    account: Account,
    ledger: LedgerView,
    amount_cents: i64,
    r: Result<(), MoneyError>,
    tradable: Result<(), MoneyError>,
)
    requires
        call_ensures(Account::authorise, (&account, &ledger, amount_cents), r),
        call_ensures(Account::check_tradable, (&account, &ledger), tradable),
    ensures
        tradable is Ok <==> ledger.wallets.map().contains_key(account.wallet.0)
            && ledger.wallets.map()[account.wallet.0].status is Active,
        r is Ok <==> tradable is Ok && 0 <= amount_cents
            <= ledger.wallets.map()[account.wallet.0].available_cents,
        tradable is Err ==> r == tradable,
        r matches Err(MoneyError::Ledger(LedgerError::Insufficient { wallet, needed_cents, available_cents })) ==> {
            &&& wallet == account.wallet
            &&& needed_cents == amount_cents
            &&& available_cents == ledger.wallets.map()[account.wallet.0].available_cents
            &&& needed_cents > available_cents
        },
{
}

/// What is held back for an order is let go again when it is withdrawn, and
/// an order that costs something holds that back, in its own wallet.
pub proof fn law_what_is_held_back_is_let_go(account: Account, amount_cents: i64, held: Hold, freed: Hold)
    requires
        call_ensures(Account::reserve, (&account, amount_cents), held),
        call_ensures(Account::release, (&account, amount_cents), freed),
    ensures
        held == freed,
        held.wallet == account.wallet,
        amount_cents >= 0 ==> held.cents == amount_cents,
        amount_cents < 0 ==> held.cents == 0,
{
}

/// An account is sound where its wallet is there, holds no less than nothing
/// and no less than is reserved in it. It has an issue exactly where it is
/// not.
pub proof fn law_a_sound_account_has_no_issues(account: Account, ledger: LedgerView, valid: bool, issues: Vec<String>)
    requires
        call_ensures(Account::is_valid, (&account, &ledger), valid),
        call_ensures(Account::issues, (&account, &ledger), issues),
    ensures
        valid <==> issues@.len() == 0,
        valid <==> {
            &&& ledger.wallets.map().contains_key(account.wallet.0)
            &&& ledger.wallets.map()[account.wallet.0].balance_cents >= 0
            &&& ledger.wallets.map()[account.wallet.0].reserved_cents
                <= ledger.wallets.map()[account.wallet.0].balance_cents
        },
{
    assert(views(issues@).len() == issues@.len());
}

/// What an account may do is what its status lets it: it can trade exactly
/// where an order of its own would not be turned away for it.
pub proof fn law_a_check_says_what_an_account_may_do(
    account: Account,
    ledger: LedgerView,
    check: AccountCheck,
    tradable: Result<(), MoneyError>,
    status: AccountStatus,
    debit: bool,
    credit: bool,
    valid: bool,
)
    requires
        call_ensures(AccountCheck::new, (&account, &ledger), check),
        call_ensures(Account::check_tradable, (&account, &ledger), tradable),
        call_ensures(Account::status, (&account, &ledger), status),
        call_ensures(WalletStatus::can_debit, (status,), debit),
        call_ensures(WalletStatus::can_credit, (status,), credit),
        call_ensures(Account::is_valid, (&account, &ledger), valid),
    ensures
        check.can_trade <==> tradable is Ok,
        check.can_withdraw == debit,
        check.can_deposit == credit,
        check.status == status,
        check.valid == valid,
        check.account_id == account.id.0,
        check.balance_cents == ledger.balance_of(account.wallet),
        check.reserved_cents == ledger.reserved_of(account.wallet),
        check.available_cents == ledger.available_of(account.wallet),
{
}

/// An amount can be moved where it is at least a cent and no more than the
/// most that may move at once.
pub proof fn law_a_transfer_is_a_cent_or_more(amount_cents: i64, r: Result<(), MoneyError>)
    requires
        call_ensures(check_transfer, (amount_cents,), r),
    ensures
        r is Ok <==> 1 <= amount_cents <= MAX_TRANSFER_CENTS,
        amount_cents < 1 ==> r == Err::<(), MoneyError>(MoneyError::NotPositive { amount_cents }),
        amount_cents > MAX_TRANSFER_CENTS ==> r == Err::<(), MoneyError>(
            MoneyError::TooLarge { amount_cents, max_cents: MAX_TRANSFER_CENTS },
        ),
{
}

/// A value is price times quantity, and the nearest there is to it where
/// that does not fit.
pub proof fn law_a_notional_is_price_times_quantity(price_cents: i64, qty: u64, cents: i64)
    requires
        call_ensures(notional_cents, (price_cents, qty), cents),
    ensures
        i64::MIN <= price_cents * qty <= i64::MAX ==> cents == price_cents * qty,
        price_cents * qty > i64::MAX ==> cents == i64::MAX,
        price_cents * qty < i64::MIN ==> cents == i64::MIN,
{
}

/// A row that is written counts: a deposit into what was paid in, a
/// withdrawal into what was taken out, any other row into neither. The row
/// says what moved, when, and why.
pub proof fn law_a_row_is_counted_for_what_it_is(
    after: &Account,
    before: &Account,
    kind: LedgerKind,
    amount_cents: i64,
    balance_cents: i64,
    context: Context,
)
    requires
        after.wrote(before, kind, amount_cents, balance_cents, context),
        before.entries_total < u64::MAX,
        before.ledger@.len() < usize::MAX,
        0 <= before.deposited_cents + amount_cents <= i64::MAX,
        0 <= before.withdrawn_cents - amount_cents <= i64::MAX,
    ensures
        kind is Deposit && amount_cents >= 0 ==> after.deposited_cents == before.deposited_cents + amount_cents,
        kind is Withdrawal && amount_cents <= 0 ==> after.withdrawn_cents == before.withdrawn_cents - amount_cents,
        !(kind is Deposit) ==> after.deposited_cents == before.deposited_cents,
        !(kind is Withdrawal) ==> after.withdrawn_cents == before.withdrawn_cents,
        after.ledger@.len() > 0,
        ({
            let entry = after.ledger@.last();
            &&& entry.id == before.entries_total + 1
            &&& entry.kind == kind && entry.amount_cents == amount_cents && entry.balance_cents == balance_cents
            &&& entry.tx_id == context.tx_id && entry.ts_ms == context.ts_ms
            &&& entry.symbol == context.symbol && entry.order_id == context.order_id && entry.memo == context.memo
        }),
        after.entries_total == before.entries_total + 1,
        after.id == before.id && after.user_id == before.user_id && after.wallet == before.wallet,
{
}

/// Rows written together say what each of them moved, in order, and all why.
pub proof fn law_split_rows_say_what_moved(
    written: u64,
    closing: i64,
    rows: Seq<(LedgerKind, i64)>,
    context: Context,
    i: int,
)
    requires
        0 <= i < rows.len(),
        written + rows.len() <= u64::MAX,
    ensures
        ({
            let entry = split_rows(written, closing, rows, context)[i];
            &&& entry.id == written + i + 1
            &&& entry.kind == rows[i].0 && entry.amount_cents == rows[i].1
            &&& entry.tx_id == context.tx_id && entry.ts_ms == context.ts_ms
            &&& entry.symbol == context.symbol && entry.order_id == context.order_id && entry.memo == context.memo
        }),
        split_rows(written, closing, rows, context).len() == rows.len(),
{
}

/// What was paid in and taken out over some rows is what their deposits and
/// withdrawals come to.
pub proof fn law_rows_are_counted_for_what_they_are(before: i64, rows: Seq<(LedgerKind, i64)>, next: (LedgerKind, i64))
    requires
        i64::MIN < next.1,
    ensures
        rows.len() == 0 ==> deposited_after(before, rows) == before && withdrawn_after(before, rows) == before,
        !(next.0 is Deposit) ==> deposited_after(before, rows.push(next)) == deposited_after(before, rows),
        !(next.0 is Withdrawal) ==> withdrawn_after(before, rows.push(next)) == withdrawn_after(before, rows),
        next.0 is Deposit && 0 <= next.1 && deposited_after(before, rows) + next.1 <= i64::MAX ==> deposited_after(
            before,
            rows.push(next),
        ) == deposited_after(before, rows) + next.1,
        next.0 is Withdrawal && next.1 <= 0 && withdrawn_after(before, rows) - next.1 <= i64::MAX ==> withdrawn_after(
            before,
            rows.push(next),
        ) == withdrawn_after(before, rows) - next.1,
{
    assert(rows.push(next).drop_last() =~= rows);
}

/// An account keeps as many rows as it was opened to keep, and one at least; a
/// history that came longer stays as long as it is.
pub proof fn law_an_account_keeps_its_rows(account: Account)
    ensures
        account.cap() >= 1,
        account.ledger@.len() <= account.ledger_cap && account.ledger_cap >= 1 ==> account.cap()
            == account.ledger_cap,
        account.ledger@.len() > account.ledger_cap ==> account.cap() == account.ledger@.len(),
        account.ledger_cap == 0 && account.ledger@.len() <= 1 ==> account.cap() == 1,
{
}

/// Money that the ledger would not move is refused for what the ledger said.
pub proof fn law_a_ledgers_refusal_is_kept_as_the_cause(e: LedgerError, r: MoneyError)
    requires
        call_ensures(<MoneyError as From<LedgerError>>::from, (e,), r),
    ensures
        r == MoneyError::Ledger(e),
{
}

} // verus!
