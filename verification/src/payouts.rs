//! Dividends, listings and delistings: what an issuer owes on its shares.
//!
//! Both payouts are funded: the currency comes out of the symbol's issuer
//! wallet, in one transaction, and if it is not there the payout does not
//! happen. Nothing is paid to some holders and not others.

use vstd::prelude::*;

use crate::actor::Gone;
use crate::account::{
    adds_up, amounts, law_split_rows_keep_history_adding_up, plain_sum, split_rows, stays_in_range, Account, AccountId,
    Context, LedgerKind, MoneyError,
};
use crate::ledger::{
    checked_notional_cents, exact_notional, lemma_total_push, net_cents, total_cents, Draft, LedgerError, LedgerView,
    Posting, Reason, WalletId,
};
use crate::jobs::lemma_filtered;
use crate::listings::{ListingError, Listings};
use crate::market::Market;
use crate::num::{at_least_zero, clamp_i64, clamp_u64, max_int, max_u64, sat_add, usat_add};
use crate::table::Table;
use crate::text::opt_text;
use crate::trading::{lemma_sum_of_none_is_negative, lemma_sum_push, sum_of, Trader, TraderId};

verus! {

/// Why a symbol could not be delisted.
#[derive(Clone, Copy, Debug, PartialEq, Eq)]
pub enum DelistError {
    /// No such symbol.
    Unknown,
    /// The buy-out price is not a price.
    Price,
    /// The issuer wallet cannot fund the buyout. Nothing was delisted.
    Unfunded(LedgerError),
}

impl DelistError {
    /// The refusal in words; where the ledger refused, in the ledger's own.
    pub open spec fn words(self, ledger_words: Seq<char>) -> Seq<char> {
        match self {
            DelistError::Unknown => "no such symbol"@,
            DelistError::Price => "a buy-out price cannot be negative"@,
            DelistError::Unfunded(_) => "the buyout is not funded: "@ + ledger_words,
        }
    }

    /// The refusal in words.
    pub fn message(&self, ledger_words: &str) -> (text: String)
        ensures
            text@ == self.words(ledger_words@),
    {
        match self {
            DelistError::Unknown => "no such symbol".to_owned(),
            DelistError::Price => "a buy-out price cannot be negative".to_owned(),
            DelistError::Unfunded(_) => {
                let mut text = "the buyout is not funded: ".to_owned();
                text.append(ledger_words);
                text
            },
        }
    }
}

/// Why a corporate payout — a dividend, a delisting buyout — was refused.
#[derive(Clone, Copy, Debug, PartialEq, Eq)]
pub enum PayoutError {
    /// The issuer wallet cannot fund it, or a holder cannot be paid.
    Unfunded(LedgerError),
    /// The market or a symbol is gone.
    Gone,
}

impl From<Gone> for PayoutError {
    fn from(gone: Gone) -> (e: Self) {
        PayoutError::Gone
    }
}

impl vstd::std_specs::convert::FromSpecImpl<Gone> for PayoutError {
    open spec fn obeys_from_spec() -> bool {
        true
    }

    open spec fn from_spec(gone: Gone) -> Self {
        PayoutError::Gone
    }
}

impl From<LedgerError> for PayoutError {
    fn from(e: LedgerError) -> (r: Self) {
        PayoutError::Unfunded(e)
    }
}

impl vstd::std_specs::convert::FromSpecImpl<LedgerError> for PayoutError {
    open spec fn obeys_from_spec() -> bool {
        true
    }

    open spec fn from_spec(e: LedgerError) -> Self {
        PayoutError::Unfunded(e)
    }
}

impl PayoutError {
    /// The refusal in words; where the ledger refused, in the ledger's own.
    pub open spec fn words(self, ledger_words: Seq<char>) -> Seq<char> {
        match self {
            PayoutError::Unfunded(_) => "the payout is not funded: "@ + ledger_words,
            PayoutError::Gone => "the market is shutting down"@,
        }
    }

    /// The refusal in words.
    pub fn message(&self, ledger_words: &str) -> (text: String)
        ensures
            text@ == self.words(ledger_words@),
    {
        match self {
            PayoutError::Unfunded(_) => {
                let mut text = "the payout is not funded: ".to_owned();
                text.append(ledger_words);
                text
            },
            PayoutError::Gone => "the market is shutting down".to_owned(),
        }
    }
}

/// What a delisting undid, and what it paid for the shares.
#[derive(Debug)]
pub struct Delisting {
    pub symbol: String,
    /// Paid on every share held. Zero is a real answer: a company can be
    /// worth nothing.
    pub cents_per_share: i64,
    /// What the symbol last traded at, for comparison.
    pub last_price_cents: i64,
    /// Resting orders withdrawn, releasing what they reserved.
    pub orders_cancelled: usize,
    /// Untriggered stops dropped. They reserved nothing.
    pub stops_cancelled: usize,
    pub shares_bought_out: u64,
    /// Accounts credited. A holder paid nothing — a buy-out at zero — is
    /// bought out but not credited.
    pub accounts_paid: usize,
    pub total_cents: i64,
}

/// What a dividend paid, and the price it went ex at.
#[derive(Debug)]
pub struct Dividend {
    pub symbol: String,
    pub cents_per_share: i64,
    /// The price the dividend was declared against, before it went ex.
    pub price_cents: i64,
    pub shares_paid: u64,
    /// Accounts credited. A user with two traders holding the same symbol is
    /// paid once per trader, into whichever account each trades on.
    pub accounts_paid: usize,
    pub total_cents: i64,
}

/// What one trader is owed on the shares it holds.
#[derive(Clone, Copy, Debug, PartialEq, Eq, Structural)]
pub struct Owed {
    pub trader: TraderId,
    pub account: AccountId,
    pub amount_cents: i64,
    pub qty: u64,
}

/// What a trader is owed at so much a share: nothing where it holds none, or
/// where the amount does not fit.
pub open spec fn stake(t: Trader, symbol: Seq<char>, cents_per_share: i64) -> Option<Owed> {
    let qty = t.held(symbol);
    match exact_notional(cents_per_share as int, qty as int) {
        Some(amount) => if qty > 0 {
            Some(Owed { trader: t.id, account: t.account_id, amount_cents: amount as i64, qty })
        } else {
            None
        },
        None => None,
    }
}

/// What the traders are owed at so much a share, in their order.
pub open spec fn stakes(traders: Seq<Trader>, symbol: Seq<char>, cents_per_share: i64) -> Seq<Owed>
    decreases traders.len(),
{
    if traders.len() == 0 {
        Seq::empty()
    } else {
        let before = stakes(traders.drop_last(), symbol, cents_per_share);
        match stake(traders.last(), symbol, cents_per_share) {
            Some(owed) => before.push(owed),
            None => before,
        }
    }
}

/// Somebody is owed something.
pub open spec fn somebody_is_owed(owed: Seq<Owed>) -> bool {
    exists|i: int| 0 <= i < owed.len() && (#[trigger] owed[i]).amount_cents > 0
}

/// The lines that pay what is owed out of one wallet, to everybody who has an
/// account.
pub open spec fn payout_lines(owed: Seq<Owed>, accounts: Map<u64, Account>, issuer: WalletId) -> Seq<Posting>
    decreases owed.len(),
{
    if owed.len() == 0 {
        Seq::empty()
    } else {
        let before = payout_lines(owed.drop_last(), accounts, issuer);
        let last = owed.last();
        if accounts.contains_key(last.account.0) {
            before.push(Posting { wallet: issuer, cents: (-last.amount_cents) as i64 }).push(
                Posting { wallet: accounts[last.account.0].wallet, cents: last.amount_cents },
            )
        } else {
            before
        }
    }
}

/// Somebody owed something is paid where they have an account.
pub open spec fn is_paid(owed: Owed, accounts: Map<u64, Account>) -> bool {
    owed.amount_cents > 0 && accounts.contains_key(owed.account.0)
}

/// The amounts paid into one account, in order.
pub open spec fn paid_into(owed: Seq<Owed>, accounts: Map<u64, Account>, account: u64) -> Seq<i64>
    decreases owed.len(),
{
    if owed.len() == 0 {
        Seq::empty()
    } else {
        let before = paid_into(owed.drop_last(), accounts, account);
        if is_paid(owed.last(), accounts) && owed.last().account.0 == account {
            before.push(owed.last().amount_cents)
        } else {
            before
        }
    }
}

/// How many payments are made.
pub open spec fn payments(owed: Seq<Owed>, accounts: Map<u64, Account>) -> nat
    decreases owed.len(),
{
    if owed.len() == 0 {
        0
    } else {
        payments(owed.drop_last(), accounts) + if is_paid(owed.last(), accounts) {
            1nat
        } else {
            0
        }
    }
}

/// What is paid altogether, as a running sum that stops at the largest
/// number.
pub open spec fn total_paid(owed: Seq<Owed>, accounts: Map<u64, Account>) -> i64
    decreases owed.len(),
{
    if owed.len() == 0 {
        0
    } else if is_paid(owed.last(), accounts) {
        clamp_i64(total_paid(owed.drop_last(), accounts) + owed.last().amount_cents)
    } else {
        total_paid(owed.drop_last(), accounts)
    }
}

/// The shares that are paid on.
pub open spec fn shares_paid_on(owed: Seq<Owed>, accounts: Map<u64, Account>) -> int
    decreases owed.len(),
{
    if owed.len() == 0 {
        0
    } else {
        shares_paid_on(owed.drop_last(), accounts) + if is_paid(owed.last(), accounts) {
            owed.last().qty as int
        } else {
            0
        }
    }
}

/// Payments into one account, as the rows of the one transaction that made
/// them all.
pub open spec fn payment_rows(kind: LedgerKind, amounts: Seq<i64>) -> Seq<(LedgerKind, i64)> {
    Seq::new(amounts.len(), |i: int| (kind, amounts[i]))
}

/// The accounts, once what is owed has been paid into them: each has the rows
/// of its payments, the last of them closing on what the ledger says it now
/// holds.
pub open spec fn all_paid(
    before: Map<u64, Account>,
    after: Map<u64, Account>,
    ledger: &LedgerView,
    kind: LedgerKind,
    owed: Seq<Owed>,
    context: Context,
) -> bool {
    &&& after.dom() == before.dom()
    &&& forall|id: u64| #[trigger]
        after.contains_key(id) ==> after[id].wrote_split(
            &before[id],
            ledger.balance_of(before[id].wallet),
            payment_rows(kind, paid_into(owed, before, id)),
            context,
        )
}

/// What the rows of one payout say alike.
pub open spec fn payout_context(context: Context, symbol: Seq<char>, tx_id: u64, note: Option<String>, now_ms: i64) -> bool {
    &&& context.tx_id == tx_id
    &&& context.ts_ms == now_ms
    &&& opt_text(context.symbol) == Some(symbol)
    &&& context.order_id is None
    &&& context.memo == note
}

/// There are no more payments into an account than payments are owed, and
/// none into an account there is not.
proof fn lemma_paid_into_few(owed: Seq<Owed>, accounts: Map<u64, Account>, account: u64)
    ensures
        paid_into(owed, accounts, account).len() <= owed.len(),
        !accounts.contains_key(account) ==> paid_into(owed, accounts, account).len() == 0,
    decreases owed.len(),
{
    if owed.len() > 0 {
        lemma_paid_into_few(owed.drop_last(), accounts, account);
    }
}

/// Writing no rows leaves an account as it is.
proof fn lemma_nothing_written(account: &Account, closing: i64, kind: LedgerKind, context: Context)
    requires
        account.wf(),
    ensures
        account.wrote_split(account, closing, payment_rows(kind, Seq::empty()), context),
{
    let rows = payment_rows(kind, Seq::empty());
    assert(account.history() + split_rows(account.entries_total, closing, rows, context) =~= account.history());
}

impl Market {
    /// What the traders are owed at `cents_per_share` on the shares of
    /// `symbol` they hold, by trader.
    pub fn owed(&self, symbol: &str, cents_per_share: i64) -> (owed: Vec<Owed>)
        requires
            self.wf(),
        ensures
            owed@ == stakes(self.traders.vals(), symbol@, cents_per_share),
    {
        let mut owed: Vec<Owed> = Vec::new();
        let n: usize = self.traders.len();
        let ghost all = self.traders.vals();
        let mut i: usize = 0;
        while i < n
            invariant
                self.wf(),
                all == self.traders.vals(),
                n == all.len(),
                n == self.traders.keys().len(),
                i <= n,
                owed@ == stakes(all.take(i as int), symbol@, cents_per_share),
            decreases n - i,
        {
            let trader = self.traders.val_at(i);
            proof {
                assert(self.trader_wf(self.traders.keys()[i as int]));
                let longer = all.take(i as int + 1);
                assert(longer.drop_last() =~= all.take(i as int));
                assert(longer.last() == *trader);
            }
            let qty: u64 = trader.held_shares(symbol);
            match checked_notional_cents(cents_per_share, qty) {
                Ok(amount_cents) => {
                    if qty > 0 {
                        owed.push(Owed { trader: trader.id, account: trader.account_id, amount_cents, qty });
                    }
                },
                Err(_) => {},
            }
            i = i + 1;
        }
        proof {
            assert(all.take(n as int) =~= all);
        }
        owed
    }

    /// What a dividend of `cents_per_share` owes, where it is one: between
    /// one cent and the price.
    pub fn declare_dividend(&self, symbol: &str, price_cents: i64, cents_per_share: i64) -> (r: Option<Vec<Owed>>)
        requires
            self.wf(),
        ensures
            match r {
                Some(owed) => 0 < cents_per_share < price_cents && owed@ == stakes(
                    self.traders.vals(),
                    symbol@,
                    cents_per_share,
                ),
                None => !(0 < cents_per_share < price_cents),
            },
    {
        if cents_per_share <= 0 || cents_per_share >= price_cents {
            return None;
        }
        Some(self.owed(symbol, cents_per_share))
    }

    /// The one transaction that pays what is owed out of `issuer`. Either it
    /// funds the whole payout or none of it is paid.
    pub fn payout_draft(&self, reason: Reason, issuer: WalletId, owed: &Vec<Owed>, note: Option<String>, now_ms: i64) -> (draft:
        Draft)
        requires
            self.wf(),
            forall|i: int| 0 <= i < owed@.len() ==> (#[trigger] owed@[i]).amount_cents > i64::MIN,
        ensures
            draft.reason == reason,
            draft.at_ms == max_int(now_ms as int, 0),
            draft.memo == note,
            draft.postings@ == payout_lines(owed@, self.accounts.map(), issuer),
    {
        let mut draft = Draft::new(reason).at(at_least_zero(now_ms) as u64).memo(note);
        let mut i: usize = 0;
        while i < owed.len()
            invariant
                self.wf(),
                i <= owed.len(),
                forall|j: int| 0 <= j < owed@.len() ==> (#[trigger] owed@[j]).amount_cents > i64::MIN,
                draft.reason == reason,
                draft.at_ms == max_int(now_ms as int, 0),
                draft.memo == note,
                draft.postings@ == payout_lines(owed@.take(i as int), self.accounts.map(), issuer),
            decreases owed.len() - i,
        {
            let due = owed[i];
            proof {
                let longer = owed@.take(i as int + 1);
                assert(longer.drop_last() =~= owed@.take(i as int));
                assert(longer.last() == due);
            }
            match self.accounts.get(&due.account.0) {
                Some(account) => {
                    draft = draft.debit(issuer, due.amount_cents).credit(account.wallet, due.amount_cents);
                },
                None => {},
            }
            i = i + 1;
        }
        proof {
            assert(owed@.take(owed@.len() as int) =~= owed@);
        }
        draft
    }

    /// No history is within `n` rows of the end of its numbering.
    pub open spec fn histories_have_room(&self, n: int) -> bool {
        forall|id: u64| #[trigger]
            self.accounts.map().contains_key(id) ==> self.accounts.map()[id].entries_total + n <= u64::MAX
    }

    /// What is owed, sorted by the accounts it is paid into, and counted: the
    /// shares paid on, the payments and their total.
    fn sort_by_account(&self, kind: LedgerKind, owed: &Vec<Owed>) -> (r: (Table<u64, Vec<(LedgerKind, i64)>>, u64, usize, i64))
        requires
            self.wf(),
        ensures
            r.0.wf(),
            forall|id: u64| #[trigger]
                r.0.map().contains_key(id) ==> self.accounts.map().contains_key(id) && r.0.map()[id]@ == payment_rows(
                    kind,
                    paid_into(owed@, self.accounts.map(), id),
                ),
            forall|id: u64|
                !#[trigger] r.0.map().contains_key(id) ==> paid_into(owed@, self.accounts.map(), id).len() == 0,
            r.1 == clamp_u64(shares_paid_on(owed@, self.accounts.map())),
            r.2 == payments(owed@, self.accounts.map()),
            r.3 == total_paid(owed@, self.accounts.map()),
    {
        let ghost accounts = self.accounts.map();
        let mut sorted: Table<u64, Vec<(LedgerKind, i64)>> = Table::new();
        let mut shares: u64 = 0;
        let mut count: usize = 0;
        let mut total: i64 = 0;
        let mut i: usize = 0;
        while i < owed.len()
            invariant
                i <= owed.len(),
                self.wf(),
                accounts == self.accounts.map(),
                sorted.wf(),
                forall|id: u64| #[trigger]
                    sorted.map().contains_key(id) ==> accounts.contains_key(id) && sorted.map()[id]@ == payment_rows(
                        kind,
                        paid_into(owed@.take(i as int), accounts, id),
                    ),
                forall|id: u64|
                    !#[trigger] sorted.map().contains_key(id) ==> paid_into(owed@.take(i as int), accounts, id).len() == 0,
                shares_paid_on(owed@.take(i as int), accounts) >= 0,
                shares == clamp_u64(shares_paid_on(owed@.take(i as int), accounts)),
                count == payments(owed@.take(i as int), accounts),
                count <= i,
                total == total_paid(owed@.take(i as int), accounts),
            decreases owed.len() - i,
        {
            let due = owed[i];
            let ghost now = sorted.map();
            let ghost shorter = owed@.take(i as int);
            let ghost longer = owed@.take(i as int + 1);
            proof {
                assert(longer.drop_last() =~= shorter);
                assert(longer.last() == due);
            }
            if due.amount_cents > 0 && self.accounts.contains_key(&due.account.0) {
                if !sorted.contains_key(&due.account.0) {
                    sorted.insert(due.account.0, Vec::new());
                }
                let ghost between = sorted.map();
                proof {
                    assert(between[due.account.0]@ =~= payment_rows(kind, paid_into(shorter, accounts, due.account.0)));
                }
                match sorted.get_mut(&due.account.0) {
                    Some(rows) => {
                        rows.push((kind, due.amount_cents));
                    },
                    None => {},
                }
                proof {
                    let paid = paid_into(shorter, accounts, due.account.0);
                    assert(payment_rows(kind, paid.push(due.amount_cents)) =~= payment_rows(kind, paid).push(
                        (kind, due.amount_cents),
                    ));
                }
                count = count + 1;
                shares = usat_add(shares, due.qty);
                total = sat_add(total, due.amount_cents);
            }
            proof {
                assert forall|id: u64| #[trigger] sorted.map().contains_key(id) implies accounts.contains_key(id)
                    && sorted.map()[id]@ == payment_rows(kind, paid_into(longer, accounts, id)) by {
                    if id != due.account.0 {
                        assert(now.contains_key(id));
                        assert(sorted.map()[id] == now[id]);
                    }
                }
                assert forall|id: u64| !#[trigger] sorted.map().contains_key(id) implies paid_into(
                    longer,
                    accounts,
                    id,
                ).len() == 0 by {
                    assert(!now.contains_key(id));
                }
            }
            i = i + 1;
        }
        proof {
            assert(owed@.take(owed@.len() as int) =~= owed@);
        }
        (sorted, shares, count, total)
    }

    /// Write what was paid into the accounts it was paid into, and count it.
    /// An account that is paid more than once has all its payments written
    /// together, as the parts of the one transaction they are.
    fn pay(&mut self, ledger: &LedgerView, kind: LedgerKind, owed: &Vec<Owed>, context: &Context) -> (paid: (u64, usize, i64))
        requires
            old(self).wf(),
            ledger.wf(),
            kind is Dividend || kind is Delisting,
            old(self).histories_have_room(owed@.len() as int),
        ensures
            final(self).wf(),
            *final(self) == (Market { accounts: final(self).accounts, ..*old(self) }),
            all_paid(old(self).accounts.map(), final(self).accounts.map(), ledger, kind, owed@, *context),
            paid.0 == clamp_u64(shares_paid_on(owed@, old(self).accounts.map())),
            paid.1 == payments(owed@, old(self).accounts.map()),
            paid.2 == total_paid(owed@, old(self).accounts.map()),
    {
        let ghost before = self.accounts.map();
        let ghost start = *self;
        let (sorted, shares, count, total) = self.sort_by_account(kind, owed);
        let n: usize = sorted.len();
        let mut i: usize = 0;
        while i < n
            invariant
                i <= n,
                n == sorted.keys().len(),
                sorted.wf(),
                start.wf(),
                self.wf(),
                ledger.wf(),
                kind is Dividend || kind is Delisting,
                before == start.accounts.map(),
                start.histories_have_room(owed@.len() as int),
                *self == (Market { accounts: self.accounts, ..start }),
                forall|id: u64| #[trigger]
                    sorted.map().contains_key(id) ==> before.contains_key(id) && sorted.map()[id]@ == payment_rows(
                        kind,
                        paid_into(owed@, before, id),
                    ),
                self.accounts.map().dom() == before.dom(),
                forall|j: int|
                    0 <= j < i ==> self.accounts.map()[#[trigger] sorted.keys()[j]].wrote_split(
                        &before[sorted.keys()[j]],
                        ledger.balance_of(before[sorted.keys()[j]].wallet),
                        payment_rows(kind, paid_into(owed@, before, sorted.keys()[j])),
                        *context,
                    ),
                forall|j: int|
                    i <= j < n ==> self.accounts.map()[#[trigger] sorted.keys()[j]] == before[sorted.keys()[j]],
                forall|id: u64|
                    before.contains_key(id) && !sorted.map().contains_key(id) ==> #[trigger] self.accounts.map()[id]
                        == before[id],
            decreases n - i,
        {
            let id: u64 = *sorted.key_at(i);
            let rows = sorted.val_at(i);
            let ghost now = self.accounts.map();
            proof {
                sorted.lemma_at(i as int);
                assert(now[sorted.keys()[i as int]] == before[id]);
                assert(now.dom().contains(id));
                assert(start.account_wf(id));
                lemma_paid_into_few(owed@, before, id);
            }
            match self.accounts.get_mut(&id) {
                Some(account) => {
                    account.record_split(ledger, context, rows);
                },
                None => {},
            }
            proof {
                assert(self.accounts.map().dom() =~= before.dom());
                assert forall|j: int| 0 <= j < n && j != i implies self.accounts.map()[#[trigger] sorted.keys()[j]]
                    == now[sorted.keys()[j]] by {
                    if sorted.keys()[j] == id {
                        sorted.lemma_distinct(i as int, j);
                    }
                }
            }
            i = i + 1;
        }
        proof {
            let after = self.accounts.map();
            assert forall|id: u64| #[trigger] after.contains_key(id) implies after[id].wrote_split(
                &before[id],
                ledger.balance_of(before[id].wallet),
                payment_rows(kind, paid_into(owed@, before, id)),
                *context,
            ) by {
                assert(before.dom().contains(id));
                assert(start.account_wf(id));
                if sorted.map().contains_key(id) {
                    sorted.lemma_placed(id);
                } else {
                    assert(paid_into(owed@, before, id) =~= Seq::<i64>::empty());
                    lemma_nothing_written(&before[id], ledger.balance_of(before[id].wallet), kind, *context);
                }
            }
        }
        (shares, count, total)
    }

    /// A dividend was paid: written into the histories of those it was owed
    /// to, and totalled.
    pub open spec fn paid_out(
        &self,
        after: &Market,
        ledger: &LedgerView,
        symbol: Seq<char>,
        price_cents: i64,
        cents_per_share: i64,
        owed: Seq<Owed>,
        tx_id: u64,
        note: Option<String>,
        now_ms: i64,
        paid: Dividend,
    ) -> bool {
        let accounts = self.accounts.map();
        &&& exists|context: Context| #[trigger]
            payout_context(context, symbol, tx_id, note, now_ms) && all_paid(
                accounts,
                after.accounts.map(),
                ledger,
                LedgerKind::Dividend,
                owed,
                context,
            )
        &&& paid.symbol@ == symbol
        &&& paid.cents_per_share == cents_per_share
        &&& paid.price_cents == price_cents
        &&& paid.shares_paid == clamp_u64(shares_paid_on(owed, accounts))
        &&& paid.accounts_paid == payments(owed, accounts)
        &&& paid.total_cents == total_paid(owed, accounts)
    }

    /// Write a dividend that became transaction `tx_id` into the histories of
    /// the accounts it was paid into; `ledger` is the ledger after it.
    ///
    /// A frozen account is paid too: it still owns its shares. The shares
    /// themselves do not move.
    pub fn pay_dividend(
        &mut self,
        ledger: &LedgerView,
        symbol: &str,
        price_cents: i64,
        cents_per_share: i64,
        owed: &Vec<Owed>,
        tx_id: u64,
        note: Option<String>,
        now_ms: i64,
    ) -> (paid: Dividend)
        requires
            old(self).wf(),
            ledger.wf(),
            old(self).histories_have_room(owed@.len() as int),
        ensures
            final(self).wf(),
            *final(self) == (Market { accounts: final(self).accounts, ..*old(self) }),
            old(self).paid_out(final(self), ledger, symbol@, price_cents, cents_per_share, owed@, tx_id, note, now_ms, paid),
    {
        let context = Context {
            tx_id,
            ts_ms: now_ms,
            symbol: Some(symbol.to_owned()),
            order_id: None,
            memo: note,
        };
        assert(payout_context(context, symbol@, tx_id, note, now_ms));
        let (shares_paid, accounts_paid, total_cents) = self.pay(ledger, LedgerKind::Dividend, owed, &context);
        Dividend {
            symbol: symbol.to_owned(),
            cents_per_share,
            price_cents,
            shares_paid,
            accounts_paid,
            total_cents,
        }
    }

    /// Why a buyout at `cents_per_share` is not funded, if it is not.
    pub open spec fn buyout_fault(&self, ledger: &LedgerView, symbol: Seq<char>, cents_per_share: i64) -> Option<
        LedgerError,
    > {
        let held = clamp_u64(self.held_by_all(symbol));
        if !self.issuers.map().contains_key(symbol) {
            if held == 0 || cents_per_share == 0 {
                None
            } else {
                Some(LedgerError::UnknownWallet(WalletId(0)))
            }
        } else {
            let issuer = self.issuers.map()[symbol];
            match exact_notional(cents_per_share as int, held as int) {
                None => Some(LedgerError::Overflow),
                Some(total) => if total > ledger.available_of(issuer) {
                    Some(
                        LedgerError::Insufficient {
                            wallet: issuer,
                            needed_cents: total as i64,
                            available_cents: ledger.available_of(issuer),
                        },
                    )
                } else {
                    None
                },
            }
        }
    }

    /// What a buyout at `cents_per_share` would cost, checked against the
    /// symbol's issuer wallet without moving anything.
    pub fn check_buyout(&self, ledger: &LedgerView, symbol: &str, cents_per_share: i64) -> (r: Result<(), DelistError>)
        requires
            self.wf(),
            ledger.wf(),
        ensures
            match self.buyout_fault(ledger, symbol@, cents_per_share) {
                None => r is Ok,
                Some(e) => r == Err::<(), DelistError>(DelistError::Unfunded(e)),
            },
    {
        let held: u64 = self.held_shares(symbol);
        let issuer = match self.issuer_wallet(symbol) {
            Some(issuer) => issuer,
            None => {
                // No issuer wallet yet means nothing has ever been paid out
                // of one; a buyout of nothing needs no funding.
                return if held == 0 || cents_per_share == 0 {
                    Ok(())
                } else {
                    Err(DelistError::Unfunded(LedgerError::UnknownWallet(WalletId(0))))
                };
            },
        };
        match checked_notional_cents(cents_per_share, held) {
            Err(e) => Err(DelistError::Unfunded(e)),
            Ok(needed_cents) => {
                let available_cents: i64 = ledger.available(issuer);
                if needed_cents > available_cents {
                    Err(DelistError::Unfunded(LedgerError::Insufficient { wallet: issuer, needed_cents, available_cents }))
                } else {
                    Ok(())
                }
            },
        }
    }

    /// What a check of a delisting comes to.
    pub open spec fn delisting_checked(
        &self,
        ledger: &LedgerView,
        ticker: Seq<char>,
        cents_per_share: Option<i64>,
        last_price_cents: i64,
        r: Result<usize, DelistError>,
    ) -> bool {
        match r {
            Ok(i) => {
                &&& self.listings.first_at(i as int, ticker)
                &&& !(cents_per_share matches Some(c) && c < 0)
                &&& self.buyout_fault(
                    ledger,
                    self.listings.tickers@[i as int]@,
                    cents_per_share.unwrap_or(last_price_cents),
                ) is None
            },
            Err(DelistError::Unknown) => !self.listings.lists(ticker),
            Err(DelistError::Price) => self.listings.lists(ticker) && (cents_per_share matches Some(c) && c < 0),
            Err(DelistError::Unfunded(e)) => {
                &&& !(cents_per_share matches Some(c) && c < 0)
                &&& exists|i: int| #[trigger]
                    self.listings.first_at(i, ticker) && self.buyout_fault(
                        ledger,
                        self.listings.tickers@[i]@,
                        cents_per_share.unwrap_or(last_price_cents),
                    ) == Some(e)
            },
        }
    }

    /// Whether a symbol can be delisted at `cents_per_share`, or at its last
    /// price where none is given, and where it stands in the table if it can.
    ///
    /// A symbol whose issuer cannot buy its holders out stays listed: winding
    /// the book up first and discovering it afterwards would leave the shares
    /// cancelled and unpaid for.
    pub fn check_delisting(&self, ledger: &LedgerView, ticker: &str, cents_per_share: Option<i64>, last_price_cents: i64) -> (r:
        Result<usize, DelistError>)
        requires
            self.wf(),
            ledger.wf(),
        ensures
            self.delisting_checked(ledger, ticker@, cents_per_share, last_price_cents, r),
    {
        let i: usize = match self.listings.index_of(ticker) {
            Some(i) => i,
            None => {
                return Err(DelistError::Unknown);
            },
        };
        let price: i64 = match cents_per_share {
            Some(price) => {
                if price < 0 {
                    return Err(DelistError::Price);
                }
                price
            },
            None => last_price_cents,
        };
        assert(self.listings.first_at(i as int, ticker@));
        match self.check_buyout(ledger, self.listings.tickers[i].as_str(), price) {
            Ok(()) => Ok(i),
            Err(e) => Err(e),
        }
    }

    /// A trader with nothing left of a symbol: neither a position in it nor
    /// shares promised to a sell.
    pub open spec fn stripped(before: &Trader, after: &Trader, symbol: Seq<char>) -> bool {
        &&& *after == (Trader { positions: after.positions, reserved_shares: after.reserved_shares, ..*before })
        &&& after.positions.map() == before.positions.map().remove(symbol)
        &&& after.reserved_shares.map() == before.reserved_shares.map().remove(symbol)
    }

    /// The traders, once a symbol is gone from all of them.
    pub open spec fn all_stripped(before: Map<u64, Trader>, after: Map<u64, Trader>, symbol: Seq<char>) -> bool {
        &&& after.dom() == before.dom()
        &&& forall|id: u64| #[trigger] after.contains_key(id) ==> Market::stripped(&before[id], &after[id], symbol)
    }

    /// Take a symbol out of every trader's positions and promises.
    fn strip(&mut self, symbol: &str)
        requires
            old(self).wf(),
        ensures
            final(self).wf(),
            *final(self) == (Market { traders: final(self).traders, ..*old(self) }),
            Market::all_stripped(old(self).traders.map(), final(self).traders.map(), symbol@),
    {
        let ghost start = *self;
        let ghost before = self.traders.map();
        let n: usize = self.traders.len();
        let key = symbol.to_owned();
        let mut i: usize = 0;
        while i < n
            invariant
                start.wf(),
                self.wf(),
                before == start.traders.map(),
                *self == (Market { traders: self.traders, ..start }),
                self.traders.keys() == start.traders.keys(),
                n == start.traders.keys().len(),
                i <= n,
                key@ == symbol@,
                self.traders.map().dom() == before.dom(),
                forall|j: int|
                    0 <= j < i ==> Market::stripped(
                        &before[#[trigger] start.traders.keys()[j]],
                        &self.traders.map()[start.traders.keys()[j]],
                        symbol@,
                    ),
                forall|j: int|
                    i <= j < n ==> self.traders.map()[#[trigger] start.traders.keys()[j]]
                        == before[start.traders.keys()[j]],
            decreases n - i,
        {
            let id: u64 = *self.traders.key_at(i);
            let ghost now = self.traders.map();
            proof {
                start.traders.lemma_at(i as int);
                assert(start.trader_wf(id));
                assert(now[start.traders.keys()[i as int]] == before[id]);
            }
            match self.traders.get_mut(&id) {
                Some(trader) => {
                    trader.reserved_shares.remove(&key);
                    trader.positions.remove(&key);
                },
                None => {},
            }
            proof {
                assert(self.traders.map().dom() =~= before.dom());
                assert forall|j: int| 0 <= j < n && j != i implies self.traders.map()[#[trigger] start.traders.keys()[j]]
                    == now[start.traders.keys()[j]] by {
                    if start.traders.keys()[j] == id {
                        start.traders.lemma_distinct(i as int, j);
                    }
                }
            }
            i = i + 1;
        }
        proof {
            let after = self.traders.map();
            assert forall|id: u64| #[trigger] after.contains_key(id) implies Market::stripped(
                &before[id],
                &after[id],
                symbol@,
            ) by {
                assert(before.dom().contains(id));
                start.traders.lemma_placed(id);
            }
        }
    }

    /// What a symbol leaves behind: nobody holds it or promises it, its holders
    /// were bought out, and its book's numbers are not given out again.
    pub open spec fn wound_up(
        &self,
        after: &Market,
        ledger: &LedgerView,
        index: int,
        wound: WoundUp,
        cents_per_share: i64,
        owed: Seq<Owed>,
        tx_id: Option<u64>,
        note: Option<String>,
        now_ms: i64,
        gone: Delisting,
    ) -> bool {
        let symbol = self.listings.tickers@[index];
        let accounts = self.accounts.map();
        &&& *after == (Market {
            listings: after.listings,
            traders: after.traders,
            accounts: after.accounts,
            next_order_id: max_int(self.next_order_id as int, wound.next_order_id as int) as u64,
            ..*self
        })
        &&& after.listings.tickers@ == self.listings.tickers@.remove(index)
        &&& after.listings.max == self.listings.max
        &&& Market::all_stripped(self.traders.map(), after.traders.map(), symbol@)
        &&& match tx_id {
            Some(tx_id) => exists|context: Context| #[trigger]
                payout_context(context, symbol@, tx_id, note, now_ms) && all_paid(
                    accounts,
                    after.accounts.map(),
                    ledger,
                    LedgerKind::Delisting,
                    owed,
                    context,
                ),
            None => after.accounts == self.accounts,
        }
        &&& gone.symbol@ == symbol@
        &&& gone.cents_per_share == cents_per_share
        &&& gone.last_price_cents == wound.last_price_cents
        &&& gone.orders_cancelled == wound.orders_cancelled
        &&& gone.stops_cancelled == wound.stops_cancelled
        &&& gone.shares_bought_out == clamp_u64(sum_of(owed.map_values(|o: Owed| o.qty as int)))
        &&& gone.accounts_paid == (if tx_id is Some {
            payments(owed, accounts)
        } else {
            0
        })
        &&& gone.total_cents == (if tx_id is Some {
            total_paid(owed, accounts)
        } else {
            0
        })
    }

    /// Take a symbol off the market, once its book is wound up, every order
    /// that rested in it released, and its buyout posted as transaction
    /// `tx_id` (`None` where nobody was owed anything).
    ///
    /// Every holder is bought out at `cents_per_share`, credited as its own
    /// entry, and their position is removed. What stays behind is history:
    /// the fills, the entries and the order records of a delisted symbol
    /// still name it.
    pub fn delist(
        &mut self,
        ledger: &LedgerView,
        index: usize,
        wound: &WoundUp,
        cents_per_share: i64,
        owed: &Vec<Owed>,
        tx_id: Option<u64>,
        note: Option<String>,
        now_ms: i64,
    ) -> (gone: Delisting)
        requires
            old(self).wf(),
            ledger.wf(),
            index < old(self).listings.tickers@.len(),
            old(self).histories_have_room(owed@.len() as int),
        ensures
            final(self).wf(),
            old(self).wound_up(final(self), ledger, index as int, *wound, cents_per_share, owed@, tx_id, note, now_ms, gone),
    {
        let ghost start = *self;
        let mut shares_bought_out: u64 = 0;
        let ghost shares = |o: Owed| o.qty as int;
        let mut i: usize = 0;
        proof {
            assert(owed@.take(0).map_values(shares) =~= Seq::<int>::empty());
        }
        while i < owed.len()
            invariant
                i <= owed.len(),
                shares == (|o: Owed| o.qty as int),
                sum_of(owed@.take(i as int).map_values(shares)) >= 0,
                shares_bought_out == clamp_u64(sum_of(owed@.take(i as int).map_values(shares))),
            decreases owed.len() - i,
        {
            proof {
                assert(owed@.take(i as int + 1).map_values(shares) =~= owed@.take(i as int).map_values(shares).push(
                    owed@[i as int].qty as int,
                ));
                lemma_sum_push(owed@.take(i as int).map_values(shares), owed@[i as int].qty as int);
            }
            shares_bought_out = usat_add(shares_bought_out, owed[i].qty);
            i = i + 1;
        }
        proof {
            assert(owed@.take(owed@.len() as int) =~= owed@);
        }
        let symbol = self.listings.remove(index);
        self.strip(symbol.as_str());
        self.next_order_id = max_u64(self.next_order_id, wound.next_order_id);
        let mut accounts_paid: usize = 0;
        let mut total_cents: i64 = 0;
        match tx_id {
            Some(tx_id) => {
                let context = Context {
                    tx_id,
                    ts_ms: now_ms,
                    symbol: Some(symbol.clone()),
                    order_id: None,
                    memo: note,
                };
                assert(payout_context(context, symbol@, tx_id, note, now_ms));
                let (_, count, total) = self.pay(ledger, LedgerKind::Delisting, owed, &context);
                accounts_paid = count;
                total_cents = total;
            },
            None => {},
        }
        Delisting {
            symbol,
            cents_per_share,
            last_price_cents: wound.last_price_cents,
            orders_cancelled: wound.orders_cancelled,
            stops_cancelled: wound.stops_cancelled,
            shares_bought_out,
            accounts_paid,
            total_cents,
        }
    }

    /// Somebody is owed something.
    pub fn anything_owed(owed: &Vec<Owed>) -> (r: bool)
        ensures
            r == somebody_is_owed(owed@),
    {
        let mut i: usize = 0;
        while i < owed.len()
            invariant
                i <= owed.len(),
                forall|j: int| 0 <= j < i ==> (#[trigger] owed@[j]).amount_cents <= 0,
            decreases owed.len() - i,
        {
            if owed[i].amount_cents > 0 {
                return true;
            }
            i = i + 1;
        }
        false
    }

    /// List a symbol, last. From here on it is quoted and orders in it are
    /// accepted like any other.
    pub fn list(&mut self, ticker: String) -> (r: Result<(), ListingError>)
        requires
            old(self).wf(),
        ensures
            final(self).wf(),
            *final(self) == (Market { listings: final(self).listings, ..*old(self) }),
            final(self).listings.max == old(self).listings.max,
            match r {
                Ok(()) => {
                    &&& !old(self).listings.lists(ticker@)
                    &&& old(self).listings.tickers@.len() < old(self).listings.max
                    &&& final(self).listings.tickers@ == old(self).listings.tickers@.push(ticker)
                },
                Err(ListingError::AlreadyListed(t)) => old(self).listings.lists(ticker@) && t@ == ticker@
                    && *final(self) == *old(self),
                Err(ListingError::Full { max }) => !old(self).listings.lists(ticker@)
                    && old(self).listings.tickers@.len() >= max && max == old(self).listings.max && *final(self)
                    == *old(self),
            },
    {
        self.listings.list(ticker)
    }

    /// What an issuer is funded with: the float, as far as the treasury can
    /// cover it.
    pub open spec fn float_paid(&self, ledger: &LedgerView, float_cents: i64) -> int {
        let available = ledger.available_of(self.wallets.treasury);
        if float_cents < available {
            float_cents as int
        } else {
            available as int
        }
    }

    /// The movement that gives a symbol's issuer wallet its float out of
    /// treasury, so that the dividends and the buyout it may owe are funded.
    /// `None` where nothing moves.
    ///
    /// Nothing is minted: an issuer's money is the world's money, set aside.
    /// A treasury too thin to cover the float funds what it can.
    pub fn fund_issuer(&self, ledger: &LedgerView, symbol: &str, issuer: WalletId, float_cents: i64) -> (r: Option<Draft>)
        requires
            self.wf(),
            ledger.wf(),
        ensures
            match r {
                Some(draft) => {
                    let amount = self.float_paid(ledger, float_cents);
                    &&& amount > 0
                    &&& draft.reason == Reason::Transfer
                    &&& draft.at_ms == 0
                    &&& opt_text(draft.memo) == Some(symbol@ + " issuer float"@)
                    &&& draft.postings@ == seq![
                        Posting { wallet: self.wallets.treasury, cents: (-amount) as i64 },
                        Posting { wallet: issuer, cents: amount as i64 },
                    ]
                },
                None => float_cents <= 0 || self.float_paid(ledger, float_cents) <= 0,
            },
    {
        if float_cents <= 0 {
            return None;
        }
        let treasury = self.wallets.treasury;
        let available: i64 = ledger.available(treasury);
        let amount: i64 = if float_cents < available {
            float_cents
        } else {
            available
        };
        if amount <= 0 {
            return None;
        }
        let mut text = symbol.to_owned();
        text.append(" issuer float");
        let draft = Draft::new(Reason::Transfer).debit(treasury, amount).credit(issuer, amount).memo(Some(text));
        proof {
            assert(draft.postings@ =~= seq![
                Posting { wallet: treasury, cents: (-amount) as i64 },
                Posting { wallet: issuer, cents: amount },
            ]);
        }
        Some(draft)
    }

    /// Whose orders and stops are withdrawn before an account is frozen, and
    /// the wallet that then is: every trader that trades on it.
    ///
    /// The cancels are not a courtesy — they are what makes the freeze safe.
    /// A resting order outliving a freeze would fill against a wallet that
    /// can no longer pay, and the book cannot be unwound after the fact.
    pub fn freeze_account(&self, account: AccountId) -> (r: Result<(WalletId, Vec<TraderId>), MoneyError>)
        requires
            self.wf(),
        ensures
            match r {
                Ok((wallet, traders)) => {
                    &&& self.accounts.map().contains_key(account.0)
                    &&& wallet == self.accounts.map()[account.0].wallet
                    &&& traders@ == self.traders.vals().filter(|t: Trader| t.account_id == account).map_values(
                        |t: Trader| t.id,
                    )
                },
                Err(e) => !self.accounts.map().contains_key(account.0) && e == (MoneyError::NoWallet { account }),
            },
    {
        let wallet = match self.wallet_of(account) {
            Ok(wallet) => wallet,
            Err(e) => {
                return Err(e);
            },
        };
        let mut traders: Vec<TraderId> = Vec::new();
        let n: usize = self.traders.len();
        let ghost all = self.traders.vals();
        let ghost on = |t: Trader| t.account_id == account;
        let ghost id = |t: Trader| t.id;
        let mut i: usize = 0;
        proof {
            assert(traders@ =~= all.take(0).filter(on).map_values(id)) by {
                reveal(Seq::filter);
            }
        }
        while i < n
            invariant
                self.wf(),
                all == self.traders.vals(),
                n == all.len(),
                n == self.traders.keys().len(),
                i <= n,
                on == (|t: Trader| t.account_id == account),
                id == (|t: Trader| t.id),
                traders@ == all.take(i as int).filter(on).map_values(id),
            decreases n - i,
        {
            let trader = self.traders.val_at(i);
            proof {
                crate::jobs::lemma_filter_take(all, on, i as int);
            }
            if trader.account_id == account {
                traders.push(trader.id);
            }
            proof {
                assert(traders@ =~= all.take(i as int + 1).filter(on).map_values(id));
            }
            i = i + 1;
        }
        proof {
            assert(all.take(n as int) =~= all);
        }
        Ok((wallet, traders))
    }

    /// The wallet to let move money again.
    pub fn unfreeze_account(&self, account: AccountId) -> (r: Result<WalletId, MoneyError>)
        requires
            self.wf(),
        ensures
            r == (if self.accounts.map().contains_key(account.0) {
                Ok(self.accounts.map()[account.0].wallet)
            } else {
                Err(MoneyError::NoWallet { account })
            }),
    {
        self.wallet_of(account)
    }

    /// The wallet to close for good. The ledger closes it only where it is
    /// empty, so closing can never strand currency.
    pub fn close_account(&self, account: AccountId) -> (r: Result<WalletId, MoneyError>)
        requires
            self.wf(),
        ensures
            r == (if self.accounts.map().contains_key(account.0) {
                Ok(self.accounts.map()[account.0].wallet)
            } else {
                Err(MoneyError::NoWallet { account })
            }),
    {
        self.wallet_of(account)
    }
}

/// What winding a symbol's book up undid.
#[derive(Clone, Copy, Debug, PartialEq, Eq, Structural)]
pub struct WoundUp {
    /// What it last traded at.
    pub last_price_cents: i64,
    /// Resting orders withdrawn.
    pub orders_cancelled: usize,
    /// Untriggered stops dropped.
    pub stops_cancelled: usize,
    /// Where the book's own order counter stood.
    pub next_order_id: u64,
}

// ---------------------------------------------------------------------------
// Laws

/// A payout balances: what the issuer pays is what the holders receive.
pub proof fn law_a_payout_balances(owed: Seq<Owed>, accounts: Map<u64, Account>, issuer: WalletId)
    requires
        forall|i: int| 0 <= i < owed.len() ==> (#[trigger] owed[i]).amount_cents > i64::MIN,
    ensures
        total_cents(payout_lines(owed, accounts, issuer)) == 0,
    decreases owed.len(),
{
    if owed.len() > 0 {
        let shorter = owed.drop_last();
        let last = owed.last();
        assert(owed[owed.len() - 1] == last);
        assert forall|i: int| 0 <= i < shorter.len() implies (#[trigger] shorter[i]).amount_cents > i64::MIN by {
            assert(shorter[i] == owed[i]);
        }
        law_a_payout_balances(shorter, accounts, issuer);
        let lines = payout_lines(shorter, accounts, issuer);
        let out = Posting { wallet: issuer, cents: (-last.amount_cents) as i64 };
        let into = Posting { wallet: accounts[last.account.0].wallet, cents: last.amount_cents };
        lemma_total_push(lines, out);
        lemma_total_push(lines.push(out), into);
    }
}

/// What is owed to everybody with an account, added up.
pub open spec fn owed_altogether(owed: Seq<Owed>, accounts: Map<u64, Account>) -> int
    decreases owed.len(),
{
    if owed.len() == 0 {
        0
    } else {
        owed_altogether(owed.drop_last(), accounts) + if accounts.contains_key(owed.last().account.0) {
            owed.last().amount_cents as int
        } else {
            0
        }
    }
}

/// A payout costs the issuer exactly what everybody with an account is owed:
/// nobody is left out, and nothing is clipped. (Where no holder is paid into
/// the issuer's own wallet.)
pub proof fn law_a_payout_costs_what_is_owed(owed: Seq<Owed>, accounts: Map<u64, Account>, issuer: WalletId)
    requires
        forall|i: int| 0 <= i < owed.len() ==> (#[trigger] owed[i]).amount_cents > i64::MIN,
        forall|id: u64| #[trigger] accounts.contains_key(id) ==> accounts[id].wallet != issuer,
    ensures
        net_cents(payout_lines(owed, accounts, issuer), issuer) == -owed_altogether(owed, accounts),
    decreases owed.len(),
{
    if owed.len() > 0 {
        let shorter = owed.drop_last();
        let last = owed.last();
        assert(owed[owed.len() - 1] == last);
        assert forall|i: int| 0 <= i < shorter.len() implies (#[trigger] shorter[i]).amount_cents > i64::MIN by {
            assert(shorter[i] == owed[i]);
        }
        law_a_payout_costs_what_is_owed(shorter, accounts, issuer);
        let lines = payout_lines(shorter, accounts, issuer);
        let out = Posting { wallet: issuer, cents: (-last.amount_cents) as i64 };
        let into = Posting { wallet: accounts[last.account.0].wallet, cents: last.amount_cents };
        lemma_total_push(lines, out);
        lemma_total_push(lines.push(out), into);
    }
}

/// A payout keeps every history adding up, however many payments go into one
/// account: where the ledger moved an account's balance by the payments made
/// into it, the rows written lead from the old balance to the new one, and
/// the last of them closes on it.
pub proof fn law_a_payout_keeps_histories_adding_up(
    before: &Market,
    after: Map<u64, Account>,
    ledger: &LedgerView,
    kind: LedgerKind,
    owed: Seq<Owed>,
    context: Context,
    id: u64,
    balance: i64,
)
    requires
        before.wf(),
        before.histories_have_room(owed.len() as int),
        all_paid(before.accounts.map(), after, ledger, kind, owed, context),
        before.accounts.map().contains_key(id),
        adds_up(before.accounts.map()[id].history(), before.accounts.map()[id].entries_total, balance),
        ({
            let moved = amounts(payment_rows(kind, paid_into(owed, before.accounts.map(), id)));
            &&& stays_in_range(balance as int, moved)
            &&& ledger.balance_of(before.accounts.map()[id].wallet) == balance + plain_sum(moved)
        }),
    ensures
        adds_up(after[id].history(), after[id].entries_total, ledger.balance_of(before.accounts.map()[id].wallet)),
{
    let account = before.accounts.map()[id];
    assert(before.account_wf(id));
    assert(after.dom().contains(id));
    assert(after.contains_key(id));
    lemma_paid_into_few(owed, before.accounts.map(), id);
    law_split_rows_keep_history_adding_up(
        account.history(),
        account.entries_total,
        balance,
        ledger.balance_of(account.wallet),
        payment_rows(kind, paid_into(owed, before.accounts.map(), id)),
        context,
        account.cap(),
    );
}

/// Once a symbol is delisted, nobody holds a share of it.
pub proof fn law_a_delisted_symbol_is_held_by_nobody(before: &Market, after: &Market, symbol: Seq<char>)
    requires
        after.traders.wf(),
        Market::all_stripped(before.traders.map(), after.traders.map(), symbol),
    ensures
        after.held_by_all(symbol) == 0,
{
    let all = after.traders.vals();
    let held = |t: Trader| t.held(symbol) as int;
    assert forall|i: int| 0 <= i < all.len() implies (#[trigger] all[i]).held(symbol) == 0 by {
        after.traders.lemma_at(i);
        let id = after.traders.keys()[i];
        assert(after.traders.map().contains_key(id));
        assert(!all[i].positions.map().contains_key(symbol));
    }
    lemma_sum_of_zeros(all.map_values(held));
}

proof fn lemma_sum_of_zeros(numbers: Seq<int>)
    requires
        forall|i: int| 0 <= i < numbers.len() ==> numbers[i] == 0,
    ensures
        sum_of(numbers) == 0,
    decreases numbers.len(),
{
    if numbers.len() > 0 {
        lemma_sum_of_zeros(numbers.drop_last());
    }
}

/// The shares of a symbol in some traders' positions, promised or not.
pub open spec fn shares_in(traders: Seq<Trader>, symbol: Seq<char>) -> int
    decreases traders.len(),
{
    if traders.len() == 0 {
        0
    } else {
        let positions = traders.last().positions.map();
        shares_in(traders.drop_last(), symbol) + (if positions.contains_key(symbol) && positions[symbol].qty > 0 {
            positions[symbol].qty as int
        } else {
            0
        })
    }
}

/// What is held of a symbol is what is in everybody's positions.
pub proof fn law_what_is_held_is_in_the_positions(market: Market, symbol: &str, held: u64)
    requires
        call_ensures(Market::held_shares, (&market, symbol), held),
        shares_in(market.traders.vals(), symbol@) <= u64::MAX,
    ensures
        held == shares_in(market.traders.vals(), symbol@),
        market.held_by_all(symbol@) == shares_in(market.traders.vals(), symbol@),
{
    lemma_held_by_all(market.traders.vals(), symbol@);
}

proof fn lemma_held_by_all(traders: Seq<Trader>, symbol: Seq<char>)
    ensures
        sum_of(traders.map_values(|t: Trader| t.held(symbol) as int)) == shares_in(traders, symbol),
        shares_in(traders, symbol) >= 0,
    decreases traders.len(),
{
    let held = |t: Trader| t.held(symbol) as int;
    if traders.len() > 0 {
        lemma_held_by_all(traders.drop_last(), symbol);
        assert(traders.map_values(held).drop_last() =~= traders.drop_last().map_values(held));
    }
}

/// At so many cents a share, everybody together is owed that for every share
/// in their positions, and so is each holder for its own: what is promised to
/// resting sells is owed for like the rest.
pub proof fn law_every_share_is_owed_for(market: Market, symbol: &str, cents_per_share: i64, owed: Vec<Owed>)
    requires
        call_ensures(Market::owed, (&market, symbol, cents_per_share), owed),
        forall|i: int|
            0 <= i < market.traders.vals().len() ==> i64::MIN <= cents_per_share * (
            #[trigger] market.traders.vals()[i]).held(symbol@) <= i64::MAX,
    ensures
        sum_of(owed@.map_values(|o: Owed| o.qty as int)) == shares_in(market.traders.vals(), symbol@),
        sum_of(owed@.map_values(|o: Owed| o.amount_cents as int)) == cents_per_share * shares_in(
            market.traders.vals(),
            symbol@,
        ),
        forall|i: int|
            0 <= i < market.traders.vals().len() && (#[trigger] market.traders.vals()[i]).positions.map().contains_key(
                symbol@,
            ) && market.traders.vals()[i].positions.map()[symbol@].qty > 0 ==> owed@.contains(
                Owed {
                    trader: market.traders.vals()[i].id,
                    account: market.traders.vals()[i].account_id,
                    amount_cents: (cents_per_share * market.traders.vals()[i].positions.map()[symbol@].qty) as i64,
                    qty: market.traders.vals()[i].positions.map()[symbol@].qty as u64,
                },
            ),
{
    lemma_stakes(market.traders.vals(), symbol@, cents_per_share);
}

proof fn lemma_stakes(traders: Seq<Trader>, symbol: Seq<char>, cents_per_share: i64)
    requires
        forall|i: int|
            0 <= i < traders.len() ==> i64::MIN <= cents_per_share * (#[trigger] traders[i]).held(symbol) <= i64::MAX,
    ensures
        sum_of(stakes(traders, symbol, cents_per_share).map_values(|o: Owed| o.qty as int)) == shares_in(
            traders,
            symbol,
        ),
        sum_of(stakes(traders, symbol, cents_per_share).map_values(|o: Owed| o.amount_cents as int))
            == cents_per_share * shares_in(traders, symbol),
        forall|i: int|
            0 <= i < traders.len() && (#[trigger] traders[i]).positions.map().contains_key(symbol)
                && traders[i].positions.map()[symbol].qty > 0 ==> stakes(traders, symbol, cents_per_share).contains(
                Owed {
                    trader: traders[i].id,
                    account: traders[i].account_id,
                    amount_cents: (cents_per_share * traders[i].positions.map()[symbol].qty) as i64,
                    qty: traders[i].positions.map()[symbol].qty as u64,
                },
            ),
    decreases traders.len(),
{
    let qty = |o: Owed| o.qty as int;
    let cents = |o: Owed| o.amount_cents as int;
    let all = stakes(traders, symbol, cents_per_share);
    if traders.len() == 0 {
        assert(all.map_values(qty) =~= Seq::<int>::empty());
        assert(all.map_values(cents) =~= Seq::<int>::empty());
        assert(cents_per_share * 0 == 0);
    } else {
        let fewer = traders.drop_last();
        assert forall|i: int| 0 <= i < fewer.len() implies i64::MIN <= cents_per_share * (#[trigger] fewer[i]).held(
            symbol,
        ) <= i64::MAX by {
            assert(fewer[i] == traders[i]);
        }
        lemma_stakes(fewer, symbol, cents_per_share);
        let before = stakes(fewer, symbol, cents_per_share);
        let last = traders[traders.len() - 1];
        let n = shares_in(traders, symbol) - shares_in(fewer, symbol);
        assert(n == last.held(symbol));
        assert(cents_per_share * shares_in(traders, symbol) == cents_per_share * shares_in(fewer, symbol)
            + cents_per_share * n) by (nonlinear_arith)
            requires
                n == shares_in(traders, symbol) - shares_in(fewer, symbol),
        ;
        if n > 0 {
            let one = stake(last, symbol, cents_per_share)->0;
            assert(all == before.push(one));
            assert(all.map_values(qty) =~= before.map_values(qty).push(one.qty as int));
            assert(all.map_values(cents) =~= before.map_values(cents).push(one.amount_cents as int));
            lemma_sum_push(before.map_values(qty), one.qty as int);
            lemma_sum_push(before.map_values(cents), one.amount_cents as int);
            assert(all[before.len() as int] == one);
        } else {
            assert(cents_per_share * 0 == 0);
        }
        assert forall|i: int|
            0 <= i < traders.len() && (#[trigger] traders[i]).positions.map().contains_key(symbol)
                && traders[i].positions.map()[symbol].qty > 0 implies all.contains(
            Owed {
                trader: traders[i].id,
                account: traders[i].account_id,
                amount_cents: (cents_per_share * traders[i].positions.map()[symbol].qty) as i64,
                qty: traders[i].positions.map()[symbol].qty as u64,
            },
        ) by {
            if i < fewer.len() {
                assert(fewer[i] == traders[i]);
                let wanted = Owed {
                    trader: traders[i].id,
                    account: traders[i].account_id,
                    amount_cents: (cents_per_share * traders[i].positions.map()[symbol].qty) as i64,
                    qty: traders[i].positions.map()[symbol].qty as u64,
                };
                assert(before.contains(wanted));
                let j = choose|j: int| 0 <= j < before.len() && before[j] == wanted;
                assert(all[j] == wanted);
            }
        }
    }
}

/// Reserving shares for a resting sell, or giving them back, does not change
/// what anybody is owed.
pub proof fn law_promises_do_not_change_what_is_owed(
    before: Market,
    after: Market,
    symbol: &str,
    cents_per_share: i64,
    owed: Vec<Owed>,
    later: Vec<Owed>,
)
    requires
        call_ensures(Market::owed, (&before, symbol, cents_per_share), owed),
        call_ensures(Market::owed, (&after, symbol, cents_per_share), later),
        before.traders.vals().len() == after.traders.vals().len(),
        forall|i: int|
            0 <= i < before.traders.vals().len() ==> {
                let (was, now) = (#[trigger] before.traders.vals()[i], after.traders.vals()[i]);
                was.id == now.id && was.account_id == now.account_id && was.positions == now.positions
            },
    ensures
        owed@ == later@,
{
    lemma_same_stakes(before.traders.vals(), after.traders.vals(), symbol@, cents_per_share);
}

proof fn lemma_same_stakes(a: Seq<Trader>, b: Seq<Trader>, symbol: Seq<char>, cents_per_share: i64)
    requires
        a.len() == b.len(),
        forall|i: int|
            0 <= i < a.len() ==> (#[trigger] a[i]).id == b[i].id && a[i].account_id == b[i].account_id && a[i].positions
                == b[i].positions,
    ensures
        stakes(a, symbol, cents_per_share) == stakes(b, symbol, cents_per_share),
    decreases a.len(),
{
    if a.len() > 0 {
        assert forall|i: int| 0 <= i < a.len() - 1 implies (#[trigger] a.drop_last()[i]).id == b.drop_last()[i].id
            && a.drop_last()[i].account_id == b.drop_last()[i].account_id && a.drop_last()[i].positions
            == b.drop_last()[i].positions by {
            assert(a[i].id == b[i].id);
        }
        lemma_same_stakes(a.drop_last(), b.drop_last(), symbol, cents_per_share);
        assert(a[a.len() - 1].id == b[a.len() - 1].id);
    }
}

/// A dividend can be declared where it is at least a cent and less than the
/// share itself, and is then owed like any payout of as much.
pub proof fn law_a_dividend_is_less_than_the_share(
    market: Market,
    symbol: &str,
    price_cents: i64,
    cents_per_share: i64,
    r: Option<Vec<Owed>>,
    owed: Vec<Owed>,
)
    requires
        call_ensures(Market::declare_dividend, (&market, symbol, price_cents, cents_per_share), r),
        call_ensures(Market::owed, (&market, symbol, cents_per_share), owed),
    ensures
        r is Some <==> 1 <= cents_per_share < price_cents,
        r matches Some(list) ==> list@ == owed@,
{
}

/// What is owed into a wallet.
pub open spec fn owed_into(owed: Seq<Owed>, accounts: Map<u64, Account>, wallet: WalletId) -> int
    decreases owed.len(),
{
    if owed.len() == 0 {
        0
    } else {
        owed_into(owed.drop_last(), accounts, wallet) + (if accounts.contains_key(owed.last().account.0)
            && accounts[owed.last().account.0].wallet == wallet {
            owed.last().amount_cents as int
        } else {
            0
        })
    }
}

/// A payout puts into every wallet what is owed to the accounts it is behind,
/// takes all of it from the issuer, and creates nothing.
pub proof fn law_a_payout_pays_what_is_owed(
    market: Market,
    reason: Reason,
    issuer: WalletId,
    owed: Vec<Owed>,
    note: Option<String>,
    now_ms: i64,
    draft: Draft,
    wallet: WalletId,
)
    requires
        call_ensures(Market::payout_draft, (&market, reason, issuer, &owed, note, now_ms), draft),
        forall|i: int| 0 <= i < owed@.len() ==> (#[trigger] owed@[i]).amount_cents > i64::MIN,
        wallet != issuer,
    ensures
        net_cents(draft.postings@, wallet) == owed_into(owed@, market.accounts.map(), wallet),
        total_cents(draft.postings@) == 0,
        draft.reason == reason && draft.memo == note,
        now_ms >= 0 ==> draft.at_ms == now_ms,
{
    law_a_payout_balances(owed@, market.accounts.map(), issuer);
    lemma_paid(owed@, market.accounts.map(), issuer, wallet);
}

proof fn lemma_paid(owed: Seq<Owed>, accounts: Map<u64, Account>, issuer: WalletId, wallet: WalletId)
    requires
        wallet != issuer,
        forall|i: int| 0 <= i < owed.len() ==> (#[trigger] owed[i]).amount_cents > i64::MIN,
    ensures
        net_cents(payout_lines(owed, accounts, issuer), wallet) == owed_into(owed, accounts, wallet),
    decreases owed.len(),
{
    if owed.len() > 0 {
        assert forall|i: int| 0 <= i < owed.len() - 1 implies (#[trigger] owed.drop_last()[i]).amount_cents
            > i64::MIN by {
            assert(owed[i].amount_cents > i64::MIN);
        }
        lemma_paid(owed.drop_last(), accounts, issuer, wallet);
        let before = payout_lines(owed.drop_last(), accounts, issuer);
        let last = owed[owed.len() - 1];
        if accounts.contains_key(last.account.0) {
            let out = Posting { wallet: issuer, cents: (-last.amount_cents) as i64 };
            let into = Posting { wallet: accounts[last.account.0].wallet, cents: last.amount_cents };
            lemma_total_push(before, out);
            lemma_total_push(before.push(out), into);
        }
    }
}

/// What is written into an account's history of a payout is what the payout
/// puts into its wallet.
pub proof fn law_a_payout_is_written_as_it_was_paid(owed: Seq<Owed>, accounts: Map<u64, Account>, id: u64)
    requires
        accounts.contains_key(id),
        forall|other: u64| #[trigger]
            accounts.contains_key(other) && accounts[other].wallet == accounts[id].wallet ==> other == id,
        forall|i: int| 0 <= i < owed.len() ==> (#[trigger] owed[i]).amount_cents >= 0,
    ensures
        sum_of(paid_into(owed, accounts, id).map_values(|c: i64| c as int)) == owed_into(
            owed,
            accounts,
            accounts[id].wallet,
        ),
    decreases owed.len(),
{
    let cents = |c: i64| c as int;
    if owed.len() == 0 {
        assert(paid_into(owed, accounts, id).map_values(cents) =~= Seq::<int>::empty());
    } else {
        let fewer = owed.drop_last();
        assert forall|i: int| 0 <= i < fewer.len() implies (#[trigger] fewer[i]).amount_cents >= 0 by {
            assert(owed[i].amount_cents >= 0);
        }
        law_a_payout_is_written_as_it_was_paid(fewer, accounts, id);
        let last = owed[owed.len() - 1];
        let before = paid_into(fewer, accounts, id);
        if is_paid(last, accounts) && last.account.0 == id {
            assert(before.push(last.amount_cents).map_values(cents) =~= before.map_values(cents).push(
                last.amount_cents as int,
            ));
            lemma_sum_push(before.map_values(cents), last.amount_cents as int);
        }
    }
}

/// Where everybody who is owed something has an account, a payout pays all of
/// them, on every share, everything that is owed.
pub proof fn law_a_payout_leaves_nobody_out(owed: Seq<Owed>, accounts: Map<u64, Account>)
    requires
        forall|i: int|
            0 <= i < owed.len() ==> (#[trigger] owed[i]).amount_cents > 0 && accounts.contains_key(owed[i].account.0),
        sum_of(owed.map_values(|o: Owed| o.amount_cents as int)) <= i64::MAX,
    ensures
        payments(owed, accounts) == owed.len(),
        shares_paid_on(owed, accounts) == sum_of(owed.map_values(|o: Owed| o.qty as int)),
        total_paid(owed, accounts) == sum_of(owed.map_values(|o: Owed| o.amount_cents as int)),
    decreases owed.len(),
{
    let qty = |o: Owed| o.qty as int;
    let cents = |o: Owed| o.amount_cents as int;
    if owed.len() > 0 {
        let fewer = owed.drop_last();
        assert(owed.map_values(qty).drop_last() =~= fewer.map_values(qty));
        assert(owed.map_values(cents).drop_last() =~= fewer.map_values(cents));
        assert(owed[owed.len() - 1].amount_cents > 0);
        assert forall|i: int| 0 <= i < fewer.len() implies (#[trigger] fewer[i]).amount_cents > 0
            && accounts.contains_key(fewer[i].account.0) by {
            assert(owed[i].amount_cents > 0);
        }
        law_a_payout_leaves_nobody_out(fewer, accounts);
        lemma_sum_of_none_is_negative(fewer.map_values(cents));
    } else {
        assert(owed.map_values(qty) =~= Seq::<int>::empty());
        assert(owed.map_values(cents) =~= Seq::<int>::empty());
    }
}

/// What is paid to nobody counts for nothing.
pub proof fn law_nothing_owed_is_nothing_paid(owed: Vec<Owed>, accounts: Map<u64, Account>, r: bool)
    requires
        call_ensures(Market::anything_owed, (&owed,), r),
    ensures
        !r ==> payments(owed@, accounts) == 0 && total_paid(owed@, accounts) == 0 && shares_paid_on(owed@, accounts)
            == 0,
        payments(owed@, accounts) > 0 ==> r,
{
    if !r {
        lemma_nothing_paid(owed@, accounts);
    }
}

proof fn lemma_nothing_paid(owed: Seq<Owed>, accounts: Map<u64, Account>)
    requires
        forall|i: int| 0 <= i < owed.len() ==> (#[trigger] owed[i]).amount_cents <= 0,
    ensures
        payments(owed, accounts) == 0,
        total_paid(owed, accounts) == 0,
        shares_paid_on(owed, accounts) == 0,
    decreases owed.len(),
{
    if owed.len() > 0 {
        assert(owed[owed.len() - 1].amount_cents <= 0);
        assert forall|i: int| 0 <= i < owed.len() - 1 implies (#[trigger] owed.drop_last()[i]).amount_cents <= 0 by {
            assert(owed[i].amount_cents <= 0);
        }
        lemma_nothing_paid(owed.drop_last(), accounts);
    }
}

/// A symbol can be bought out where its issuer has its price for every share
/// that is held; one without an issuer where there is nothing to pay.
pub proof fn law_a_buyout_is_funded_for_every_share(
    market: Market,
    ledger: LedgerView,
    symbol: &str,
    cents_per_share: i64,
    r: Result<(), DelistError>,
)
    requires
        call_ensures(Market::check_buyout, (&market, &ledger, symbol, cents_per_share), r),
        shares_in(market.traders.vals(), symbol@) <= u64::MAX,
        i64::MIN <= cents_per_share * shares_in(market.traders.vals(), symbol@) <= i64::MAX,
    ensures
        market.issuers.map().contains_key(symbol@) ==> (r is Ok <==> cents_per_share * shares_in(
            market.traders.vals(),
            symbol@,
        ) <= ledger.available_of(market.issuers.map()[symbol@])),
        !market.issuers.map().contains_key(symbol@) ==> (r is Ok <==> cents_per_share == 0 || shares_in(
            market.traders.vals(),
            symbol@,
        ) == 0),
        !market.issuers.map().contains_key(symbol@) && r is Err ==> r == Err::<(), DelistError>(
            DelistError::Unfunded(LedgerError::UnknownWallet(WalletId(0))),
        ),
        r matches Err(DelistError::Unfunded(LedgerError::Insufficient { wallet, needed_cents, available_cents })) ==> {
            &&& wallet == market.issuers.map()[symbol@]
            &&& needed_cents == cents_per_share * shares_in(market.traders.vals(), symbol@)
            &&& available_cents == ledger.available_of(wallet)
        },
{
    lemma_held_by_all(market.traders.vals(), symbol@);
}

/// A symbol can be delisted where it is listed, the price is not negative and
/// the buyout at it is funded; without a price it is bought out at the last.
pub proof fn law_a_delisting_is_checked_whole(
    market: Market,
    ledger: LedgerView,
    ticker: Seq<char>,
    name: &str,
    cents_per_share: Option<i64>,
    last_price_cents: i64,
    r: Result<usize, DelistError>,
    buyout: Result<(), DelistError>,
    i: usize,
)
    requires
        market.delisting_checked(&ledger, ticker, cents_per_share, last_price_cents, r),
        call_ensures(
            Market::check_buyout,
            (
                &market,
                &ledger,
                name,
                match cents_per_share {
                    Some(c) => c,
                    None => last_price_cents,
                },
            ),
            buyout,
        ),
        market.listings.first_at(i as int, ticker),
        name@ == market.listings.tickers@[i as int]@,
    ensures
        cents_per_share matches Some(c) ==> (c < 0 ==> r == Err::<usize, DelistError>(DelistError::Price)),
        !(cents_per_share matches Some(c) && c < 0) ==> (r is Ok <==> buyout is Ok),
        r matches Ok(found) ==> found == i,
{
    assert(Listings::is_at(market.listings.tickers@, i as int, ticker));
    assert(market.listings.lists(ticker));
    if r is Ok {
        let found = r->Ok_0;
        assert(Listings::is_at(market.listings.tickers@, found as int, ticker));
        if found < i {
            assert(!Listings::is_at(market.listings.tickers@, found as int, ticker));
        } else if i < found {
            assert(!Listings::is_at(market.listings.tickers@, i as int, ticker));
        }
    } else if r matches Err(DelistError::Unfunded(_)) {
        let e = r->Err_0->Unfunded_0;
        let found = choose|j: int| #[trigger]
            market.listings.first_at(j, ticker) && market.buyout_fault(
                &ledger,
                market.listings.tickers@[j]@,
                cents_per_share.unwrap_or(last_price_cents),
            ) == Some(e);
        assert(Listings::is_at(market.listings.tickers@, found, ticker));
        if found < i {
            assert(!Listings::is_at(market.listings.tickers@, found, ticker));
        } else if i < found {
            assert(!Listings::is_at(market.listings.tickers@, i as int, ticker));
        }
    }
}

/// A symbol that is wound up leaves the table, takes every position and
/// promise in it along and no other, and leaves its book's numbers behind so
/// that none is given out again. What it reports paid is what was.
pub proof fn law_a_symbol_is_wound_up_whole(
    before: &Market,
    after: &Market,
    ledger: &LedgerView,
    index: int,
    wound: WoundUp,
    cents_per_share: i64,
    owed: Seq<Owed>,
    tx_id: Option<u64>,
    note: Option<String>,
    now_ms: i64,
    gone: Delisting,
    trader: u64,
    elsewhere: Seq<char>,
)
    requires
        before.wound_up(after, ledger, index, wound, cents_per_share, owed, tx_id, note, now_ms, gone),
        0 <= index < before.listings.tickers@.len(),
        before.traders.map().contains_key(trader),
        elsewhere != before.listings.tickers@[index]@,
    ensures
        after.listings.tickers@.len() == before.listings.tickers@.len() - 1,
        after.next_order_id >= before.next_order_id && after.next_order_id >= wound.next_order_id,
        after.traders.map().contains_key(trader),
        ({
            let symbol = before.listings.tickers@[index]@;
            let (was, now) = (before.traders.map()[trader], after.traders.map()[trader]);
            &&& !now.positions.map().contains_key(symbol) && !now.reserved_shares.map().contains_key(symbol)
            &&& now.positions.map().contains_key(elsewhere) == was.positions.map().contains_key(elsewhere)
            &&& was.positions.map().contains_key(elsewhere) ==> now.positions.map()[elsewhere]
                == was.positions.map()[elsewhere]
            &&& now.reserved_shares.map().contains_key(elsewhere) == was.reserved_shares.map().contains_key(elsewhere)
            &&& was.reserved_shares.map().contains_key(elsewhere) ==> now.reserved_shares.map()[elsewhere]
                == was.reserved_shares.map()[elsewhere]
            &&& now.fills == was.fills && now.account_id == was.account_id && now.id == was.id
            &&& gone.symbol@ == symbol
        }),
        tx_id is None ==> after.accounts == before.accounts && gone.accounts_paid == 0 && gone.total_cents == 0,
        gone.cents_per_share == cents_per_share && gone.last_price_cents == wound.last_price_cents,
        gone.orders_cancelled == wound.orders_cancelled && gone.stops_cancelled == wound.stops_cancelled,
        after.orders == before.orders && after.users == before.users && after.issuers == before.issuers,
{
    assert(Market::stripped(&before.traders.map()[trader], &after.traders.map()[trader], before.listings.tickers@[index]@));
}

/// A payout is written into the history of an account it pays, once for each
/// stake, as what it was and by the transaction that paid it.
pub proof fn law_a_payout_is_named_for_what_it_was(
    before: Map<u64, Account>,
    after: Map<u64, Account>,
    ledger: &LedgerView,
    kind: LedgerKind,
    owed: Seq<Owed>,
    context: Context,
    symbol: Seq<char>,
    tx_id: u64,
    note: Option<String>,
    now_ms: i64,
    id: u64,
)
    requires
        all_paid(before, after, ledger, kind, owed, context),
        payout_context(context, symbol, tx_id, note, now_ms),
        before.contains_key(id),
        before[id].wf(),
        before[id].entries_total + owed.len() <= u64::MAX,
    ensures
        after.dom() == before.dom(),
        after[id].entries_total == before[id].entries_total + paid_into(owed, before, id).len(),
        paid_into(owed, before, id).len() == 0 ==> after[id].ledger@ == before[id].ledger@,
        paid_into(owed, before, id).len() > 0 ==> {
            let entry = after[id].ledger@.last();
            &&& entry.kind == kind
            &&& entry.amount_cents == paid_into(owed, before, id).last()
            &&& entry.tx_id == tx_id && entry.ts_ms == now_ms && entry.memo == note && entry.order_id is None
            &&& opt_text(entry.symbol) == Some(symbol)
        },
        after[id].deposited_cents == before[id].deposited_cents || kind is Deposit,
{
    assert(after.contains_key(id));
    let paid = payment_rows(kind, paid_into(owed, before, id));
    lemma_paid_into_few(owed, before, id);
    let rows = split_rows(before[id].entries_total, ledger.balance_of(before[id].wallet), paid, context);
    if paid.len() == 0 {
        assert(before[id].ledger@ + rows =~= before[id].ledger@);
    } else {
        let all = before[id].ledger@ + rows;
        assert(all.last() == rows.last());
    }
    lemma_no_deposits(before[id].deposited_cents, paid);
}

proof fn lemma_no_deposits(before: i64, rows: Seq<(LedgerKind, i64)>)
    requires
        forall|i: int| 0 <= i < rows.len() ==> (#[trigger] rows[i]).0 == rows[0].0,
    ensures
        rows.len() == 0 || !(rows[0].0 is Deposit) ==> crate::account::deposited_after(before, rows) == before,
    decreases rows.len(),
{
    if rows.len() > 0 {
        let fewer = rows.drop_last();
        assert forall|i: int| 0 <= i < fewer.len() implies (#[trigger] fewer[i]).0 == fewer[0].0 by {
            assert(rows[i].0 == rows[0].0);
        }
        lemma_no_deposits(before, fewer);
        assert(rows[rows.len() - 1].0 == rows[0].0);
    }
}

/// An issuer is given its float out of treasury, as far as treasury has it,
/// and nothing is created: what treasury pays is what the issuer gets.
pub proof fn law_a_float_comes_out_of_treasury(
    market: Market,
    ledger: LedgerView,
    symbol: &str,
    issuer: WalletId,
    float_cents: i64,
    r: Option<Draft>,
)
    requires
        call_ensures(Market::fund_issuer, (&market, &ledger, symbol, issuer, float_cents), r),
        issuer != market.wallets.treasury,
    ensures
        r is Some <==> float_cents > 0 && ledger.available_of(market.wallets.treasury) > 0,
        r matches Some(draft) ==> {
            let paid = net_cents(draft.postings@, issuer);
            &&& total_cents(draft.postings@) == 0
            &&& net_cents(draft.postings@, market.wallets.treasury) == -paid
            &&& 0 < paid <= float_cents && paid <= ledger.available_of(market.wallets.treasury)
            &&& paid == float_cents || paid == ledger.available_of(market.wallets.treasury)
        },
{
    if r is Some {
        let lines = (r->0).postings@;
        let none = Seq::<Posting>::empty();
        assert(lines =~= none.push(lines[0]).push(lines[1]));
        lemma_total_push(none, lines[0]);
        lemma_total_push(none.push(lines[0]), lines[1]);
        assert(net_cents(none, issuer) == 0);
        assert(net_cents(none, market.wallets.treasury) == 0);
        assert(total_cents(none) == 0);
    }
}

/// Freezing an account concerns the account's own wallet, and every trader on
/// it and no other. Its status is changed in that wallet too.
pub proof fn law_a_frozen_account_stops_its_traders(
    market: Market,
    account: AccountId,
    r: Result<(WalletId, Vec<TraderId>), MoneyError>,
    thawed: Result<WalletId, MoneyError>,
    closed: Result<WalletId, MoneyError>,
    trader: TraderId,
)
    requires
        market.wf(),
        call_ensures(Market::freeze_account, (&market, account), r),
        call_ensures(Market::unfreeze_account, (&market, account), thawed),
        call_ensures(Market::close_account, (&market, account), closed),
    ensures
        r is Ok <==> market.accounts.map().contains_key(account.0),
        thawed is Ok <==> r is Ok,
        closed == thawed,
        r matches Ok((wallet, traders)) ==> {
            &&& wallet == market.accounts.map()[account.0].wallet
            &&& thawed == Ok::<WalletId, MoneyError>(wallet)
            &&& traders@.contains(trader) <==> market.traders.map().contains_key(trader.0)
                && market.traders.map()[trader.0].account_id == account
        },
{
    if r is Ok {
        let traders = (r->Ok_0).1;
        let on = |t: Trader| t.account_id == account;
        let found = market.traders.vals().filter(on);
        market.traders.lemma_listed();
        if traders@.contains(trader) {
            let i = choose|i: int| 0 <= i < traders@.len() && traders@[i] == trader;
            assert(found.contains(found[i]));
            lemma_filtered(market.traders.vals(), on, found[i]);
            let j = choose|j: int| 0 <= j < market.traders.vals().len() && market.traders.vals()[j] == found[i];
            assert(market.traders.map().contains_key(market.traders.keys()[j]));
            assert(market.trader_wf(market.traders.keys()[j]));
        }
        if market.traders.map().contains_key(trader.0) && market.traders.map()[trader.0].account_id == account {
            let t = market.traders.map()[trader.0];
            assert(market.trader_wf(trader.0));
            let j = market.traders.place(trader.0);
            assert(market.traders.vals()[j] == t);
            assert(market.traders.vals().contains(t));
            lemma_filtered(market.traders.vals(), on, t);
            let i = choose|i: int| 0 <= i < found.len() && found[i] == t;
            assert(traders@[i] == trader);
        }
    }
}

/// A dividend says what was paid: so much a share, on the shares that were
/// paid on and no others, which together make its total.
pub proof fn law_a_dividend_says_what_was_paid(
    market: Market,
    after: Market,
    ledger: LedgerView,
    symbol: Seq<char>,
    price_cents: i64,
    cents_per_share: i64,
    owed: Seq<Owed>,
    tx_id: u64,
    note: Option<String>,
    now_ms: i64,
    paid: Dividend,
)
    requires
        market.paid_out(&after, &ledger, symbol, price_cents, cents_per_share, owed, tx_id, note, now_ms, paid),
        forall|i: int| 0 <= i < owed.len() ==> (#[trigger] owed[i]).amount_cents == cents_per_share * owed[i].qty,
        cents_per_share >= 0,
        0 <= shares_paid_on(owed, market.accounts.map()) <= u64::MAX,
        cents_per_share * shares_paid_on(owed, market.accounts.map()) <= i64::MAX,
    ensures
        paid.total_cents == paid.cents_per_share * paid.shares_paid,
        paid.cents_per_share == cents_per_share,
        paid.price_cents == price_cents,
        paid.symbol@ == symbol,
        paid.accounts_paid <= owed.len(),
        after.accounts.map().dom() == market.accounts.map().dom(),
        forall|id: u64| #[trigger]
            market.accounts.map().contains_key(id) ==> after.accounts.map()[id].entries_total
                == market.accounts.map()[id].entries_total + paid_into(owed, market.accounts.map(), id).len(),
{
    assert forall|id: u64| #[trigger] market.accounts.map().contains_key(id) implies after.accounts.map()[id].entries_total
        == market.accounts.map()[id].entries_total + paid_into(owed, market.accounts.map(), id).len() by {
        assert(after.accounts.map().contains_key(id));
    }
    lemma_total_of_shares(owed, market.accounts.map(), cents_per_share as int);
}

proof fn lemma_total_of_shares(owed: Seq<Owed>, accounts: Map<u64, Account>, cents: int)
    requires
        forall|i: int| 0 <= i < owed.len() ==> (#[trigger] owed[i]).amount_cents == cents * owed[i].qty,
        cents >= 0,
        cents * shares_paid_on(owed, accounts) <= i64::MAX,
    ensures
        0 <= shares_paid_on(owed, accounts),
        total_paid(owed, accounts) == cents * shares_paid_on(owed, accounts),
        payments(owed, accounts) <= owed.len(),
    decreases owed.len(),
{
    if owed.len() > 0 {
        let front = owed.drop_last();
        assert forall|i: int| 0 <= i < front.len() implies (#[trigger] front[i]).amount_cents == cents * front[i].qty by {
            assert(front[i] == owed[i]);
        }
        let last = owed[owed.len() - 1];
        let before = shares_paid_on(front, accounts);
        let more = if is_paid(last, accounts) {
            last.qty as int
        } else {
            0
        };
        assert(cents * (before + more) == cents * before + cents * more) by (nonlinear_arith);
        assert(cents * more >= 0) by (nonlinear_arith)
            requires
                cents >= 0,
                more >= 0,
        ;
        lemma_total_of_shares(front, accounts, cents);
        assert(cents * before >= 0) by (nonlinear_arith)
            requires
                cents >= 0,
                before >= 0,
        ;
    } else {
        assert(cents * 0 == 0) by (nonlinear_arith);
    }
}

/// A payout that the ledger would not make fails for what the ledger said.
pub proof fn law_an_unfunded_payout_keeps_its_cause(e: LedgerError, gone: Gone, r: PayoutError, s: PayoutError)
    requires
        call_ensures(<PayoutError as From<LedgerError>>::from, (e,), r),
        call_ensures(<PayoutError as From<Gone>>::from, (gone,), s),
    ensures
        r == PayoutError::Unfunded(e),
        s is Gone,
{
}

} // verus!
