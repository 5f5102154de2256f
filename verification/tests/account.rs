//! Accounts, their histories and the money rules.

use fehu_webapp::account::{
    check_transfer, money, notional_cents, settlement_draft, Account, AccountCheck, AccountId, AccountStatus, Context,
    LedgerKind, MoneyError, UserId, MAX_BALANCE_CENTS, MAX_TRANSFER_CENTS,
};
use fehu_webapp::ledger::{Draft, Hold, LedgerView, Reason, Wallet, WalletId, WalletKind, WalletStatus};
use fehu_webapp::trading::Side;

/// A ledger kept in memory: it posts what it is asked to post and shows the
/// library what it holds.
struct Books {
    view: LedgerView,
    next_wallet: u64,
    next_tx: u64,
}

impl Books {
    fn new() -> Self {
        Books { view: LedgerView::new(), next_wallet: 1, next_tx: 1 }
    }

    fn put(&mut self, id: WalletId, kind: WalletKind, balance: i64, reserved: i64, status: WalletStatus) {
        self.view.show(Wallet {
            id,
            kind,
            label: format!("{kind:?}").to_lowercase(),
            balance_cents: balance,
            reserved_cents: reserved,
            available_cents: balance - reserved,
            status,
        });
    }

    fn open(&mut self, kind: WalletKind) -> WalletId {
        let id = WalletId(self.next_wallet);
        self.next_wallet += 1;
        self.put(id, kind, 0, 0, WalletStatus::Active);
        id
    }

    fn change(&mut self, id: WalletId, balance: i64, reserved: i64, status: WalletStatus) {
        let kind = self.view.wallet(id).expect("the wallet is open").kind;
        self.put(id, kind, balance, reserved, status);
    }

    fn mint(&mut self, id: WalletId, cents: i64) {
        let (balance, reserved, status) = (self.view.balance(id), self.view.reserved(id), self.view.status(id));
        self.change(id, balance + cents, reserved, status);
        self.view.minted_cents += cents;
        self.view.outstanding_cents += cents;
        self.view.circulating_cents += i128::from(cents);
    }

    fn post(&mut self, draft: Draft) -> u64 {
        assert_eq!(draft.imbalance_cents(), 0, "a movement balances or is not posted");
        for posting in &draft.postings {
            let id = posting.wallet;
            let (balance, reserved, status) = (self.view.balance(id), self.view.reserved(id), self.view.status(id));
            self.change(id, balance + posting.cents, reserved, status);
        }
        self.next_tx += 1;
        self.next_tx - 1
    }

    fn hold(&mut self, hold: Hold) {
        let (balance, reserved, status) =
            (self.view.balance(hold.wallet), self.view.reserved(hold.wallet), self.view.status(hold.wallet));
        self.change(hold.wallet, balance, reserved + hold.cents, status);
    }

    fn let_go(&mut self, hold: Hold) {
        let (balance, reserved, status) =
            (self.view.balance(hold.wallet), self.view.reserved(hold.wallet), self.view.status(hold.wallet));
        self.change(hold.wallet, balance, (reserved - hold.cents).max(0), status);
    }

    fn set_status(&mut self, id: WalletId, status: WalletStatus) {
        let (balance, reserved) = (self.view.balance(id), self.view.reserved(id));
        self.change(id, balance, reserved, status);
    }

    /// What does not add up: the wallets hold what was minted and not
    /// burned, and none has promised away more than it holds.
    fn check(&self) -> Vec<String> {
        let mut issues = Vec::new();
        let mut sum: i128 = 0;
        for i in 0..self.view.wallets.len() {
            let w = self.view.wallets.val_at(i);
            sum += i128::from(w.balance_cents);
            if w.reserved_cents < 0 || w.reserved_cents > w.balance_cents {
                issues.push(format!("wallet {} holds {} and reserves {}", w.id.0, w.balance_cents, w.reserved_cents));
            }
            if w.available_cents != w.balance_cents - w.reserved_cents {
                issues.push(format!("wallet {} says {} is available", w.id.0, w.available_cents));
            }
        }
        if sum != i128::from(self.view.minted_cents - self.view.burned_cents) {
            issues.push(format!("the wallets hold {sum}"));
        }
        if sum != i128::from(self.view.outstanding_cents) || sum != self.view.circulating_cents {
            issues.push(format!("{} outstanding, {sum} held", self.view.outstanding_cents));
        }
        issues
    }
}

/// A ledger with a funded treasury, and an account holding `balance_cents`
/// paid to it out of that treasury.
fn world(balance_cents: i64) -> (Books, Account, WalletId) {
    let mut books = Books::new();
    let treasury = books.open(WalletKind::Treasury);
    books.mint(treasury, MAX_BALANCE_CENTS / 2);
    let wallet = books.open(WalletKind::Player);
    let mut account = Account::open(AccountId(1), UserId(1), "main".into(), wallet, 10, 1_000);
    if balance_cents > 0 {
        let tx = books.post(Draft::new(Reason::Faucet).debit(treasury, balance_cents).credit(wallet, balance_cents));
        account.record(&books.view, LedgerKind::Deposit, balance_cents, &Context::plain(tx, 1_000, None));
    }
    (books, account, treasury)
}

fn pay(books: &mut Books, account: &mut Account, treasury: WalletId, cents: i64, at_ms: i64) {
    let tx = books.post(Draft::new(Reason::Faucet).debit(treasury, cents).credit(account.wallet, cents));
    account.record(&books.view, LedgerKind::Deposit, cents, &Context::plain(tx, at_ms, None));
}

#[test]
fn opening_writes_the_first_entry_and_holds_nothing() {
    let (books, account, _) = world(0);
    assert_eq!(account.balance_cents(&books.view), 0);
    let entries = account.ledger(10);
    assert_eq!(entries.len(), 1);
    assert_eq!(entries[0].kind, LedgerKind::Open);
    assert_eq!(entries[0].balance_cents, 0, "opening cannot create money");
    assert!(account.is_valid(&books.view));
    assert_eq!(books.check(), Vec::<String>::new());
}

#[test]
fn funding_an_account_moves_currency_rather_than_making_it() {
    let (books, account, treasury) = world(250_000);
    assert_eq!(account.balance_cents(&books.view), 250_000);
    assert_eq!(account.deposited_cents, 250_000);
    assert_eq!(books.view.balance(treasury), MAX_BALANCE_CENTS / 2 - 250_000);
    assert_eq!(books.view.outstanding_cents, MAX_BALANCE_CENTS / 2, "the faucet is not a mint");
    assert_eq!(books.check(), Vec::<String>::new());
}

#[test]
fn reservations_hold_cash_back() {
    let (mut books, account, _) = world(10_000);
    books.hold(account.reserve(4_000));
    assert_eq!(account.reserved_cents(&books.view), 4_000);
    assert_eq!(account.available_cents(&books.view), 6_000);
    account.authorise(&books.view, 6_000).unwrap();
    assert!(account.authorise(&books.view, 6_001).is_err());
    books.let_go(account.release(4_000));
    assert_eq!(account.available_cents(&books.view), 10_000);
    // Releasing more than is held cannot make the reservation negative.
    books.let_go(account.release(1_000));
    assert_eq!(account.reserved_cents(&books.view), 0);
    assert_eq!(books.check(), Vec::<String>::new());
}

#[test]
fn a_settlement_draft_balances_whichever_way_the_fee_points() {
    let mut books = Books::new();
    let treasury = books.open(WalletKind::Treasury);
    books.mint(treasury, 1_000_000);
    let buyer = books.open(WalletKind::Player);
    let seller = books.open(WalletKind::Player);
    let venue = books.open(WalletKind::Venue);
    books.post(Draft::new(Reason::Faucet).debit(treasury, 500_000).credit(buyer, 500_000));

    // A taker pays the fee on top of what the seller receives.
    let draft = settlement_draft(buyer, seller, venue, Side::Buy, 100_000, -250, 1);
    assert_eq!(draft.imbalance_cents(), 0);
    books.post(draft);
    assert_eq!(books.view.balance(buyer), 399_750);
    assert_eq!(books.view.balance(seller), 100_000);
    assert_eq!(books.view.balance(venue), 250);

    // A maker is paid out of the venue's takings by the same arithmetic.
    let draft = settlement_draft(seller, buyer, venue, Side::Sell, 10_000, 100, 2);
    assert_eq!(draft.imbalance_cents(), 0);
    books.post(draft);
    assert_eq!(books.view.balance(venue), 150);
    assert_eq!(books.check(), Vec::<String>::new());
}

#[test]
fn status_comes_from_the_wallet_and_gates_trading() {
    let (mut books, account, _) = world(1_000);
    books.set_status(account.wallet, WalletStatus::Frozen);
    assert_eq!(account.status(&books.view), AccountStatus::Frozen);
    assert!(account.check_tradable(&books.view).is_err());
    assert!(account.authorise(&books.view, 1).is_err());
    books.set_status(account.wallet, WalletStatus::Active);
    account.authorise(&books.view, 1).unwrap();
}

#[test]
fn the_ledger_is_capped_but_keeps_counting() {
    let (mut books, mut account, treasury) = world(0);
    for i in 1..=20 {
        pay(&mut books, &mut account, treasury, 100, i);
    }
    let entries = account.ledger(100);
    assert_eq!(entries.len(), 10, "capped at ledger_cap");
    assert_eq!(entries[0].id, 21, "newest first, opening entry included");
    assert_eq!(account.entries_total, 21);
    assert_eq!(account.balance_cents(&books.view), 2_000);
    assert_eq!(account.deposited_cents, 2_000);
    assert!(account.ledger_issues(&books.view).is_empty());
}

#[test]
fn ledger_audit_handles_eviction_and_detects_corruption() {
    let (mut books, mut account, treasury) = world(100);
    assert!(account.ledger_issues(&books.view).is_empty());
    for i in 1..=20 {
        pay(&mut books, &mut account, treasury, 100, i);
    }
    assert!(account.ledger_issues(&books.view).is_empty());
    let valid = account.clone();
    account.ledger.back_mut().unwrap().amount_cents += 1;
    assert!(!account.ledger_issues(&books.view).is_empty());
    account = valid.clone();
    account.ledger.back_mut().unwrap().id += 1;
    assert!(!account.ledger_issues(&books.view).is_empty());
    // And a balance that has drifted from the entries is caught too.
    account = valid;
    books.let_go(account.release(0));
    let tx = books.post(Draft::new(Reason::Faucet).debit(treasury, 1).credit(account.wallet, 1));
    assert!(tx > 0);
    assert!(!account.ledger_issues(&books.view).is_empty());
}

#[test]
fn money_and_notional_are_integer_only() {
    assert_eq!(money(0), "0.00");
    assert_eq!(money(5), "0.05");
    assert_eq!(money(123_456), "1234.56");
    assert_eq!(money(-99), "-0.99");
    assert_eq!(notional_cents(8_420, 100), 842_000);
    assert_eq!(notional_cents(i64::MAX, 2), i64::MAX, "saturates");
}

#[test]
fn transfers_are_bounded_before_they_reach_the_ledger() {
    assert!(matches!(check_transfer(0).unwrap_err(), MoneyError::NotPositive { .. }));
    assert!(matches!(check_transfer(-1).unwrap_err(), MoneyError::NotPositive { .. }));
    assert!(matches!(
        check_transfer(MAX_TRANSFER_CENTS + 1).unwrap_err(),
        MoneyError::TooLarge { .. }
    ));
    check_transfer(MAX_TRANSFER_CENTS).unwrap();
}

#[test]
fn a_split_transaction_closes_on_the_balance_row_by_row() {
    let (mut books, mut account, treasury) = world(10_000);
    let tx = books.post(Draft::new(Reason::Transfer).debit(account.wallet, 5_012).credit(treasury, 5_012));
    let context = Context { tx_id: tx, ts_ms: 7, symbol: Some("ACME".into()), order_id: Some(3), memo: None };
    let rows = account.record_split(&books.view, &context, &vec![(LedgerKind::Buy, -5_000), (LedgerKind::Fee, -12)]);
    assert_eq!(rows.len(), 2);
    assert_eq!((rows[0].amount_cents, rows[0].balance_cents), (-5_000, 5_000));
    assert_eq!((rows[1].amount_cents, rows[1].balance_cents), (-12, 4_988));
    assert_eq!(rows[1].order_id, Some(3));
    assert!(account.ledger_issues(&books.view).is_empty());
}

#[test]
fn what_is_wrong_with_an_account_is_said_in_words() {
    let (mut books, mut account, _) = world(500);
    books.hold(account.reserve(700));
    assert_eq!(account.issues(&books.view), vec!["7.00 is reserved against a balance of only 5.00"]);
    assert!(!account.is_valid(&books.view));
    let check = AccountCheck::new(&account, &books.view);
    assert!(!check.valid && check.can_trade && check.can_deposit);
    account.wallet = WalletId(99);
    assert_eq!(account.issues(&books.view), vec!["wallet 99 is not in the ledger"]);
    assert_eq!(account.status(&books.view), AccountStatus::Closed);
}

#[test]
fn a_refusal_by_the_ledger_keeps_what_it_said() {
    let (mut books, account, _) = world(500);
    let e = account.authorise(&books.view, 501).unwrap_err();
    assert!(!e.is_forbidden());
    assert_eq!(e.message("not enough"), "not enough");
    books.set_status(account.wallet, WalletStatus::Frozen);
    assert!(account.authorise(&books.view, 1).unwrap_err().is_forbidden());
    assert_eq!(
        account.authorise(&books.view, -5).unwrap_err(),
        account.check_tradable(&books.view).unwrap_err(),
        "the status is looked at first"
    );
    books.set_status(account.wallet, WalletStatus::Active);
    assert_eq!(account.authorise(&books.view, -5).unwrap_err(), MoneyError::NotPositive { amount_cents: -5 });
}
