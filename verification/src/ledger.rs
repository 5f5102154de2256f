//! The currency ledger, as the market reads it and as it writes to it.
//!
//! The ledger itself, the one authority on who holds what, is kept outside.
//! What stands here are the two things that pass between it and the market:
//! a [`LedgerView`], which is what the ledger says of its wallets at one
//! moment, and a [`Draft`], which is a movement the ledger is asked to post.

use vstd::prelude::*;

use crate::table::Table;

verus! {

/// Largest balance a wallet may hold: 10^15 cents, i.e. $10 trillion.
pub const MAX_WALLET_CENTS: i64 = 1_000_000_000_000_000;

/// Identifies a wallet.
#[derive(Clone, Copy, Debug, PartialEq, Eq, PartialOrd, Ord, Hash, Structural)]
pub struct WalletId(pub u64);

/// Whether a wallet may move money.
#[derive(Clone, Copy, Debug, PartialEq, Eq, Structural)]
pub enum WalletStatus {
    /// Money comes and goes.
    Active,
    /// Nothing leaves; credits still land.
    Frozen,
    /// Nothing leaves and nothing lands.
    Closed,
}

impl WalletStatus {
    /// Money may leave.
    pub fn can_debit(self) -> (r: bool)
        ensures
            r == (self is Active),
    {
        match self {
            WalletStatus::Active => true,
            WalletStatus::Frozen => false,
            WalletStatus::Closed => false,
        }
    }

    /// Money may land.
    pub fn can_credit(self) -> (r: bool)
        ensures
            r == !(self is Closed),
    {
        match self {
            WalletStatus::Active => true,
            WalletStatus::Frozen => true,
            WalletStatus::Closed => false,
        }
    }
}

/// What a wallet is for.
#[derive(Clone, Copy, Debug, PartialEq, Eq, Structural)]
pub enum WalletKind {
    /// The mint and burn control account.
    Issuance,
    /// Where the genesis supply sits.
    Treasury,
    /// Where fees collect.
    Venue,
    /// The counterparty of unfunded liquidity.
    Synthetic,
    /// Pays one symbol's dividends and its buyout.
    Issuer,
    /// One account's money.
    Player,
    /// Pays rewards.
    Budget,
}

/// What the ledger says of one wallet.
#[derive(Debug)]
pub struct Wallet {
    pub id: WalletId,
    pub kind: WalletKind,
    /// What the ledger calls that kind.
    pub label: String,
    pub balance_cents: i64,
    /// The part of the balance held back for resting orders.
    pub reserved_cents: i64,
    /// What may be spent right now.
    pub available_cents: i64,
    pub status: WalletStatus,
}

/// What the ledger says of all its wallets at one moment, and of the supply
/// behind them.
pub struct LedgerView {
    pub wallets: Table<u64, Wallet>,
    /// Currency created since genesis, genesis included.
    pub minted_cents: i64,
    /// Currency destroyed.
    pub burned_cents: i64,
    /// What is left of it.
    pub outstanding_cents: i64,
    /// What the wallets actually hold, added up.
    pub circulating_cents: i128,
    /// What unfunded liquidity has put into players' hands beyond its float.
    pub synthetic_debt_cents: i128,
    /// What the ledger finds wrong with itself.
    pub findings: Vec<String>,
}

impl LedgerView {
    /// The wallets are in order.
    pub open spec fn wf(&self) -> bool {
        self.wallets.wf()
    }

    /// The ledger has the wallet.
    pub open spec fn has(&self, id: WalletId) -> bool {
        self.wallets.map().contains_key(id.0)
    }

    /// What the ledger says of a wallet it has.
    pub open spec fn at(&self, id: WalletId) -> Wallet {
        self.wallets.map()[id.0]
    }

    /// The balance of a wallet; one the ledger does not have is empty.
    pub open spec fn balance_of(&self, id: WalletId) -> i64 {
        if self.has(id) {
            self.at(id).balance_cents
        } else {
            0
        }
    }

    /// What is reserved in a wallet; in one the ledger does not have, nothing.
    pub open spec fn reserved_of(&self, id: WalletId) -> i64 {
        if self.has(id) {
            self.at(id).reserved_cents
        } else {
            0
        }
    }

    /// What a wallet may spend; one the ledger does not have, nothing.
    pub open spec fn available_of(&self, id: WalletId) -> i64 {
        if self.has(id) {
            self.at(id).available_cents
        } else {
            0
        }
    }

    /// The status of a wallet; one the ledger does not have is closed.
    pub open spec fn status_of(&self, id: WalletId) -> WalletStatus {
        if self.has(id) {
            self.at(id).status
        } else {
            WalletStatus::Closed
        }
    }

    /// A view of a ledger with no wallets and no supply.
    pub fn new() -> (view: Self)
        ensures
            view.wf(),
            view.wallets.map() == Map::<u64, Wallet>::empty(),
            view.minted_cents == 0,
            view.burned_cents == 0,
            view.outstanding_cents == 0,
            view.circulating_cents == 0,
            view.synthetic_debt_cents == 0,
            view.findings@.len() == 0,
    {
        LedgerView {
            wallets: Table::new(),
            minted_cents: 0,
            burned_cents: 0,
            outstanding_cents: 0,
            circulating_cents: 0,
            synthetic_debt_cents: 0,
            findings: Vec::new(),
        }
    }

    /// Take down what the ledger says of `wallet`.
    pub fn show(&mut self, wallet: Wallet)
        requires
            old(self).wf(),
        ensures
            final(self).wf(),
            final(self).wallets.map() == old(self).wallets.map().insert(wallet.id.0, wallet),
            final(self).minted_cents == old(self).minted_cents,
            final(self).burned_cents == old(self).burned_cents,
            final(self).outstanding_cents == old(self).outstanding_cents,
            final(self).circulating_cents == old(self).circulating_cents,
            final(self).synthetic_debt_cents == old(self).synthetic_debt_cents,
            final(self).findings == old(self).findings,
    {
        self.wallets.insert(wallet.id.0, wallet);
    }

    /// The wallet, if the ledger has it.
    pub fn wallet(&self, id: WalletId) -> (r: Option<&Wallet>)
        requires
            self.wf(),
        ensures
            match r {
                Some(wallet) => self.has(id) && *wallet == self.at(id),
                None => !self.has(id),
            },
    {
        self.wallets.get(&id.0)
    }

    /// The balance of a wallet.
    pub fn balance(&self, id: WalletId) -> (cents: i64)
        requires
            self.wf(),
        ensures
            cents == self.balance_of(id),
    {
        match self.wallet(id) {
            Some(wallet) => wallet.balance_cents,
            None => 0,
        }
    }

    /// What is reserved in a wallet.
    pub fn reserved(&self, id: WalletId) -> (cents: i64)
        requires
            self.wf(),
        ensures
            cents == self.reserved_of(id),
    {
        match self.wallet(id) {
            Some(wallet) => wallet.reserved_cents,
            None => 0,
        }
    }

    /// What a wallet may spend right now.
    pub fn available(&self, id: WalletId) -> (cents: i64)
        requires
            self.wf(),
        ensures
            cents == self.available_of(id),
    {
        match self.wallet(id) {
            Some(wallet) => wallet.available_cents,
            None => 0,
        }
    }

    /// The status of a wallet.
    pub fn status(&self, id: WalletId) -> (status: WalletStatus)
        requires
            self.wf(),
        ensures
            status == self.status_of(id),
    {
        match self.wallet(id) {
            Some(wallet) => wallet.status,
            None => WalletStatus::Closed,
        }
    }
}

/// Why the ledger would not move money.
#[derive(Clone, Copy, Debug, PartialEq, Eq)]
pub enum LedgerError {
    /// The wallet's status does not allow it.
    Status { wallet: WalletId, status: WalletStatus, action: &'static str },
    /// The wallet is closed.
    Closed(WalletId),
    /// The wallet cannot spend that much.
    Insufficient { wallet: WalletId, needed_cents: i64, available_cents: i64 },
    /// There is no such wallet.
    UnknownWallet(WalletId),
    /// The value of a fill does not fit in the currency.
    Overflow,
    /// Any other refusal of the ledger's.
    Other,
}

/// Why a movement happens.
#[derive(Clone, Copy, Debug, PartialEq, Eq, Structural)]
pub enum Reason {
    Genesis,
    Mint,
    Burn,
    Faucet,
    Transfer,
    Buy,
    Sell,
    Dividend,
    Delisting,
    Purchase,
}

/// One line of a movement: so many cents into a wallet, or out of it where
/// the number is negative.
#[derive(Clone, Copy, Debug, PartialEq, Eq, Structural)]
pub struct Posting {
    pub wallet: WalletId,
    pub cents: i64,
}

/// The cents of the postings, added up.
pub open spec fn total_cents(postings: Seq<Posting>) -> int
    decreases postings.len(),
{
    if postings.len() == 0 {
        0
    } else {
        total_cents(postings.drop_last()) + postings.last().cents
    }
}

/// What the postings do to one wallet.
pub open spec fn net_cents(postings: Seq<Posting>, wallet: WalletId) -> int
    decreases postings.len(),
{
    if postings.len() == 0 {
        0
    } else {
        net_cents(postings.drop_last(), wallet) + if postings.last().wallet == wallet {
            postings.last().cents as int
        } else {
            0
        }
    }
}

/// A movement the ledger is asked to post: all of it or nothing.
#[derive(Debug)]
pub struct Draft {
    pub reason: Reason,
    /// When it happens; zero where nothing was said.
    pub at_ms: u64,
    pub memo: Option<String>,
    pub postings: Vec<Posting>,
}

impl Draft {
    /// What goes out comes in.
    pub open spec fn balanced(&self) -> bool {
        total_cents(self.postings@) == 0
    }

    /// A movement with no lines yet.
    pub fn new(reason: Reason) -> (draft: Draft)
        ensures
            draft.reason == reason,
            draft.at_ms == 0,
            draft.memo is None,
            draft.postings@ == Seq::<Posting>::empty(),
    {
        Draft { reason, at_ms: 0, memo: None, postings: Vec::new() }
    }

    /// The same movement at a given time.
    pub fn at(self, at_ms: u64) -> (draft: Draft)
        ensures
            draft == (Draft { at_ms, ..self }),
    {
        Draft { at_ms, ..self }
    }

    /// The same movement with a note.
    pub fn memo(self, memo: Option<String>) -> (draft: Draft)
        ensures
            draft == (Draft { memo, ..self }),
    {
        Draft { memo, ..self }
    }

    /// One more line.
    pub fn posting(self, wallet: WalletId, cents: i64) -> (draft: Draft)
        ensures
            draft.reason == self.reason,
            draft.at_ms == self.at_ms,
            draft.memo == self.memo,
            draft.postings@ == self.postings@.push(Posting { wallet, cents }),
    {
        let mut draft = self;
        draft.postings.push(Posting { wallet, cents });
        draft
    }

    /// So many cents out of a wallet.
    pub fn debit(self, wallet: WalletId, cents: i64) -> (draft: Draft)
        requires
            cents > i64::MIN,
        ensures
            draft.reason == self.reason,
            draft.at_ms == self.at_ms,
            draft.memo == self.memo,
            draft.postings@ == self.postings@.push(Posting { wallet, cents: (-cents) as i64 }),
    {
        self.posting(wallet, -cents)
    }

    /// So many cents into a wallet.
    pub fn credit(self, wallet: WalletId, cents: i64) -> (draft: Draft)
        ensures
            draft.reason == self.reason,
            draft.at_ms == self.at_ms,
            draft.memo == self.memo,
            draft.postings@ == self.postings@.push(Posting { wallet, cents }),
    {
        self.posting(wallet, cents)
    }

    /// What goes in less what goes out: zero in a movement that balances.
    pub fn imbalance_cents(&self) -> (cents: i128)
        ensures
            cents == total_cents(self.postings@),
    {
        let mut sum: i128 = 0;
        let mut i: usize = 0;
        while i < self.postings.len()
            invariant
                i <= self.postings.len(),
                sum == total_cents(self.postings@.take(i as int)),
                -0x8000_0000_0000_0000 * i <= sum <= 0x8000_0000_0000_0000 * i,
            decreases self.postings.len() - i,
        {
            proof {
                let longer = self.postings@.take(i as int + 1);
                assert(longer.drop_last() =~= self.postings@.take(i as int));
                assert(longer.last() == self.postings@[i as int]);
            }
            sum = sum + self.postings[i].cents as i128;
            i = i + 1;
        }
        proof {
            assert(self.postings@.take(self.postings@.len() as int) =~= self.postings@);
        }
        sum
    }
}

/// Cash to hold back in a wallet, or to let go of.
#[derive(Clone, Copy, Debug, PartialEq, Eq, Structural)]
pub struct Hold {
    pub wallet: WalletId,
    pub cents: i64,
}

/// `price_cents × qty`, or nothing where the product does not fit.
pub open spec fn exact_notional(price_cents: int, qty: int) -> Option<int> {
    if i64::MIN <= price_cents * qty <= i64::MAX {
        Some(price_cents * qty)
    } else {
        None
    }
}

proof fn lemma_product_fits(price: i64, qty: u64)
    ensures
        -0x8000_0000_0000_0000_0000_0000_0000_0000 <= price * qty <= 0x7fff_ffff_ffff_ffff_ffff_ffff_ffff_ffff,
{
    assert(-0x8000_0000_0000_0000 * 0x1_0000_0000_0000_0000 <= price * qty <= 0x8000_0000_0000_0000
        * 0x1_0000_0000_0000_0000 - 1) by (nonlinear_arith)
        requires
            -0x8000_0000_0000_0000 <= price <= 0x7fff_ffff_ffff_ffff,
            0 <= qty <= 0xffff_ffff_ffff_ffff,
    ;
}

/// `price_cents × qty` in 128 bits, where it always fits.
pub fn wide_notional(price_cents: i64, qty: u64) -> (product: i128)
    ensures
        product == price_cents * qty,
{
    proof {
        lemma_product_fits(price_cents, qty);
    }
    price_cents as i128 * qty as i128
}

/// `price_cents × qty` for anything authoritative: a product that does not
/// fit is refused rather than returned as a different one.
pub fn checked_notional_cents(price_cents: i64, qty: u64) -> (r: Result<i64, LedgerError>)
    ensures
        match r {
            Ok(cents) => exact_notional(price_cents as int, qty as int) == Some(cents as int),
            Err(e) => e is Overflow && exact_notional(price_cents as int, qty as int) is None,
        },
{
    let product: i128 = wide_notional(price_cents, qty);
    if product < i64::MIN as i128 || product > i64::MAX as i128 {
        Err(LedgerError::Overflow)
    } else {
        Ok(product as i64)
    }
}

// ---------------------------------------------------------------------------
// Laws

/// One more posting adds its cents to the total and to its own wallet.
pub proof fn lemma_total_push(postings: Seq<Posting>, posting: Posting)
    ensures
        total_cents(postings.push(posting)) == total_cents(postings) + posting.cents,
        forall|wallet: WalletId| #[trigger]
            net_cents(postings.push(posting), wallet) == net_cents(postings, wallet) + (if posting.wallet == wallet {
                posting.cents as int
            } else {
                0
            }),
{
    assert(postings.push(posting).drop_last() =~= postings);
}

// ---------------------------------------------------------------------------
// Laws

/// A wallet is read as it is shown. One that is not shown is empty, and
/// closed to everything.
pub proof fn law_a_wallet_is_read_as_it_is_shown(
    view: LedgerView,
    id: WalletId,
    wallet: Option<&Wallet>,
    balance: i64,
    reserved: i64,
    available: i64,
    status: WalletStatus,
)
    requires
        call_ensures(LedgerView::wallet, (&view, id), wallet),
        call_ensures(LedgerView::balance, (&view, id), balance),
        call_ensures(LedgerView::reserved, (&view, id), reserved),
        call_ensures(LedgerView::available, (&view, id), available),
        call_ensures(LedgerView::status, (&view, id), status),
    ensures
        wallet is Some <==> view.wallets.map().contains_key(id.0),
        wallet matches Some(w) ==> {
            &&& *w == view.wallets.map()[id.0]
            &&& balance == w.balance_cents
            &&& reserved == w.reserved_cents
            &&& available == w.available_cents
            &&& status == w.status
        },
        wallet is None ==> balance == 0 && reserved == 0 && available == 0 && status is Closed,
{
}

/// A closed wallet takes part in nothing; a frozen one can be paid into and
/// not out of.
pub proof fn law_what_a_wallet_may_do(status: WalletStatus, debit: bool, credit: bool)
    requires
        call_ensures(WalletStatus::can_debit, (status,), debit),
        call_ensures(WalletStatus::can_credit, (status,), credit),
    ensures
        debit ==> credit,
        status is Active ==> debit && credit,
        status is Frozen ==> !debit && credit,
        status is Closed ==> !debit && !credit,
{
}

/// A debit takes its cents out of one wallet, a credit puts them into one,
/// and neither touches another. What is taken out of one and put into
/// another leaves a draft as far out of balance as it was.
pub proof fn law_a_debit_and_its_credit_cancel_out(
    draft: Draft,
    from: WalletId,
    to: WalletId,
    cents: i64,
    debited: Draft,
    both: Draft,
    other: WalletId,
    before: i128,
    after: i128,
)
    requires
        cents > i64::MIN,
        call_ensures(Draft::debit, (draft, from, cents), debited),
        call_ensures(Draft::credit, (debited, to, cents), both),
        call_ensures(Draft::imbalance_cents, (&draft,), before),
        call_ensures(Draft::imbalance_cents, (&both,), after),
        other != from,
        other != to,
    ensures
        net_cents(debited.postings@, from) == net_cents(draft.postings@, from) - cents,
        from != to ==> net_cents(both.postings@, to) == net_cents(draft.postings@, to) + cents,
        from != to ==> net_cents(both.postings@, from) == net_cents(draft.postings@, from) - cents,
        net_cents(both.postings@, other) == net_cents(draft.postings@, other),
        after == before,
        both.reason == draft.reason && both.at_ms == draft.at_ms && both.memo == draft.memo,
{
    lemma_total_push(draft.postings@, debited.postings@.last());
    lemma_total_push(debited.postings@, both.postings@.last());
}

/// A posting moves its wallet by its cents, and the draft out of balance by
/// as much; one without postings is balanced.
pub proof fn law_a_posting_counts_once(
    draft: Draft,
    wallet: WalletId,
    cents: i64,
    posted: Draft,
    before: i128,
    after: i128,
    reason: Reason,
    empty: Draft,
    none: i128,
)
    requires
        call_ensures(Draft::posting, (draft, wallet, cents), posted),
        call_ensures(Draft::imbalance_cents, (&draft,), before),
        call_ensures(Draft::imbalance_cents, (&posted,), after),
        call_ensures(Draft::new, (reason,), empty),
        call_ensures(Draft::imbalance_cents, (&empty,), none),
    ensures
        net_cents(posted.postings@, wallet) == net_cents(draft.postings@, wallet) + cents,
        after == before + cents,
        none == 0,
        empty.reason == reason,
{
    lemma_total_push(draft.postings@, posted.postings@.last());
}

/// A value is price times quantity, exactly, or it is not to be had.
pub proof fn law_a_value_is_exact_or_refused(price_cents: i64, qty: u64, r: Result<i64, LedgerError>, wide: i128)
    requires
        call_ensures(checked_notional_cents, (price_cents, qty), r),
        call_ensures(wide_notional, (price_cents, qty), wide),
    ensures
        wide == price_cents * qty,
        r is Ok <==> i64::MIN <= price_cents * qty <= i64::MAX,
        r matches Ok(cents) ==> cents == price_cents * qty,
        r matches Err(e) ==> e is Overflow,
{
}

} // verus!
