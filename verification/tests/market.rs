//! The market: people, money, orders, payouts, and taking it all down and back up.

use fehu_webapp::account::{Account, AccountId, AccountStatus, MoneyError, UserId};
use fehu_webapp::api::{owned_account, owned_trader, owned_user, Caller};
use fehu_webapp::auth::NoRandomness;
use fehu_webapp::clearing::SettledTrade;
use fehu_webapp::commands::{plan, Plan};
use fehu_webapp::events::{EventRecord, GameEventKind, Real};
use fehu_webapp::jobs::{Job, JobStatus};
use fehu_webapp::journal::{Command, Listing};
use fehu_webapp::ledger::{Draft, Hold, LedgerView, Wallet, WalletId, WalletKind, WalletStatus};
use fehu_webapp::market::{Ask, Market, Movement, Wallets};
use fehu_webapp::options::Options;
use fehu_webapp::payouts::{DelistError, WoundUp};
use fehu_webapp::placing::{
    check_order, check_post_only, find_own, self_crossing, Amended, Amendment, BookView, Closed, OrderCheck, PlaceError,
    PlaceRequest, Placed, Prepared, Sending,
};
use fehu_webapp::reconcile::reconcile;
use fehu_webapp::reports::{
    MarketHealth, Notice, SharesDto, SupplyDto, SymbolCounts, SymbolView, Valuation,
};
use fehu_webapp::restore::{SymbolReport, World};
use fehu_webapp::save::{
    check_version, temp_path, validate_accounting, AssetKind, Budget, RewardRule, Save, SaveError, SymbolInfo,
    SymbolSave, STATE_VERSION,
};
use fehu_webapp::ledger::Reason;
use fehu_webapp::tickers::Tickers;
use fehu_webapp::trading::{
    FillRecord, Liquidity, Order, OrderKind, OrderRequest, OrderStatus, Owner, Party, Placement, Position, Refused,
    Resting, Side, StopOrder, StopRequest, TimeInForce, Trade, TraderId,
};

/// A ledger kept in memory: it posts what it is asked to post and shows the
/// library what it holds.
struct Books {
    view: LedgerView,
    next_wallet: u64,
    next_tx: u64,
}

impl Books {
    fn new() -> Self {
        Books { view: LedgerView::new(), next_wallet: 1, next_tx: 1 }
    }

    fn put(&mut self, id: WalletId, kind: WalletKind, balance: i64, reserved: i64, status: WalletStatus) {
        self.view.show(Wallet {
            id,
            kind,
            label: format!("{kind:?}").to_lowercase(),
            balance_cents: balance,
            reserved_cents: reserved,
            available_cents: balance - reserved,
            status,
        });
    }

    fn open(&mut self, kind: WalletKind) -> WalletId {
        let id = WalletId(self.next_wallet);
        self.next_wallet += 1;
        self.put(id, kind, 0, 0, WalletStatus::Active);
        id
    }

    fn change(&mut self, id: WalletId, balance: i64, reserved: i64, status: WalletStatus) {
        let kind = self.view.wallet(id).expect("the wallet is open").kind;
        self.put(id, kind, balance, reserved, status);
    }

    fn mint(&mut self, id: WalletId, cents: i64) {
        let (balance, reserved, status) = (self.view.balance(id), self.view.reserved(id), self.view.status(id));
        self.change(id, balance + cents, reserved, status);
        self.view.minted_cents += cents;
        self.view.outstanding_cents += cents;
        self.view.circulating_cents += i128::from(cents);
    }

    fn post(&mut self, draft: Draft) -> u64 {
        assert_eq!(draft.imbalance_cents(), 0, "a movement balances or is not posted");
        for posting in &draft.postings {
            let id = posting.wallet;
            let (balance, reserved, status) = (self.view.balance(id), self.view.reserved(id), self.view.status(id));
            self.change(id, balance + posting.cents, reserved, status);
        }
        self.next_tx += 1;
        self.next_tx - 1
    }

    fn hold(&mut self, hold: Hold) {
        let (balance, reserved, status) =
            (self.view.balance(hold.wallet), self.view.reserved(hold.wallet), self.view.status(hold.wallet));
        self.change(hold.wallet, balance, reserved + hold.cents, status);
    }

    fn let_go(&mut self, hold: Hold) {
        let (balance, reserved, status) =
            (self.view.balance(hold.wallet), self.view.reserved(hold.wallet), self.view.status(hold.wallet));
        self.change(hold.wallet, balance, (reserved - hold.cents).max(0), status);
    }

    fn set_status(&mut self, id: WalletId, status: WalletStatus) {
        let (balance, reserved) = (self.view.balance(id), self.view.reserved(id));
        self.change(id, balance, reserved, status);
    }
}

const DIGEST: &str = "sha256:aaaaaaaaaaaaaaaaaaaaaaaaaaaaaaaaaaaaaaaaaaaaaaaaaaaaaaaaaaaaaaaa";
const OTHER: &str = "sha256:bbbbbbbbbbbbbbbbbbbbbbbbbbbbbbbbbbbbbbbbbbbbbbbbbbbbbbbbbbbbbbbb";

fn options() -> Options {
    Options { taker_fee_bps: 25, maker_fee_bps: -10, issuer_float_cents: 500_000, ..Options::default() }
}

/// A market with two symbols and a treasury to pay sign-ups out of.
fn world() -> (Books, Market) {
    let mut books = Books::new();
    books.open(WalletKind::Issuance);
    let treasury = books.open(WalletKind::Treasury);
    books.open(WalletKind::Venue);
    books.open(WalletKind::Synthetic);
    books.mint(treasury, 1_000_000_000);
    let (mut market, unfunded) =
        Market::fresh(Wallets::default(), vec!["ACME".into(), "NBLA".into()], &options());
    assert_eq!(unfunded, vec!["ACME", "NBLA"]);
    for ticker in unfunded {
        let wallet = books.open(WalletKind::Issuer);
        let draft = market.fund_issuer(&books.view, &ticker, wallet, market.issuer_float_cents);
        books.post(draft.expect("the treasury can pay the float"));
        market.open_issuer(&ticker, wallet);
    }
    (books, market)
}

/// Do what a movement asks of the ledger, and write it down.
fn carry_out(books: &mut Books, market: &mut Market, movement: Movement, now_ms: i64) {
    let mut movement = movement;
    let ask = std::mem::replace(&mut movement.ask, Ask::Mint { wallet: WalletId(0), cents: 0 });
    let tx = match ask {
        Ask::Post(draft) => books.post(draft),
        Ask::Mint { wallet, cents } => {
            books.mint(wallet, cents);
            books.next_tx
        }
        Ask::Burn { wallet, cents } => {
            books.mint(wallet, -cents);
            books.next_tx
        }
    };
    market.write_entry(&books.view, &movement, tx, now_ms);
}

fn sign_up(books: &mut Books, market: &mut Market, cash: i64, digest: &str) -> TraderId {
    let wallet = books.open(WalletKind::Player);
    let (trader, movement) =
        market.sign_up(&books.view, None, None, cash, wallet, 5, digest.into()).expect("the sign-up is funded");
    if let Some(movement) = movement {
        carry_out(books, market, movement, 5);
    }
    trader
}

fn limit(trader: TraderId, side: Side, qty: u64, price_cents: i64) -> Order {
    Order { owner: Owner::Trader(trader), side, kind: OrderKind::Limit { price_cents }, tif: TimeInForce::Gtc, qty }
}

fn resting(id: u64, trader: TraderId, side: Side, qty: u64, price_cents: i64) -> Resting {
    Resting {
        id,
        owner: Owner::Trader(trader),
        side,
        price_cents,
        qty,
        remaining: qty,
        outstanding: qty,
        display: 0,
        ts_ms: 9,
    }
}

/// Send an order that rests whole.
fn rest(books: &mut Books, market: &mut Market, order: &Order, key: Option<&str>) -> u64 {
    let Owner::Trader(trader) = order.owner else { panic!("a trader's order") };
    let OrderKind::Limit { price_cents } = order.kind else { panic!("a limit order") };
    let cost = price_cents * order.qty as i64;
    let prepared = Prepared { cost_cents: cost, bid_shares: 0, expires_at_ms: None };
    let id = market
        .fund_and_send(&books.view, "ACME", trader, order, &prepared, 1_000, 1)
        .expect("the order is funded");
    market.sent(id + 1);
    let placement = Placement {
        id,
        status: OrderStatus::Resting,
        filled: 0,
        remaining: order.qty,
        notional_cents: 0,
        trades: Vec::new(),
    };
    let (response, hold) = market.file("ACME", trader, order, key.map(str::to_string), &placement, 10, None);
    assert_eq!(response.order_id, id);
    if let Some(hold) = hold {
        books.hold(hold);
    }
    id
}

fn moved(p: Position, side: Side, qty: u64, price: i64) -> Position {
    let n = qty as i64;
    match side {
        Side::Buy => Position { qty: p.qty + n, cost_cents: p.cost_cents + price * n, cash_cents: p.cash_cents - price * n, ..p },
        Side::Sell => {
            let cost = p.cost_cents * n / p.qty;
            Position {
                qty: p.qty - n,
                cost_cents: p.cost_cents - cost,
                realised_pnl_cents: p.realised_pnl_cents + price * n - cost,
                cash_cents: p.cash_cents + price * n,
            }
        }
    }
}

const FLAT: Position = Position { qty: 0, cost_cents: 0, realised_pnl_cents: 0, cash_cents: 0 };

fn position(market: &Market, owner: Owner, symbol: &str) -> Position {
    match owner {
        Owner::Trader(id) => {
            market.traders.get(&id.0).and_then(|t| t.positions.get(&symbol.to_string()).copied()).unwrap_or(FLAT)
        }
        Owner::Synthetic => FLAT,
    }
}

/// Settle and book one trade.
fn settle(books: &mut Books, market: &mut Market, symbol: &str, trade: Trade) -> Vec<FillRecord> {
    if let Some(hold) = market.take_fill(symbol, &trade) {
        books.let_go(hold);
    }
    let settlement = market.settle_trade(&books.view, &trade).expect("the trade has a value");
    let tx_id = books.post(settlement.draft);
    let side_of = |owner: Owner, side: Side| match owner {
        Owner::Trader(_) => moved(position(market, owner, symbol), side, trade.qty, trade.price_cents),
        Owner::Synthetic => FLAT,
    };
    let taken = side_of(trade.taker.owner, trade.taker_side);
    let made = side_of(trade.maker.owner, trade.taker_side.opposite());
    let settled = SettledTrade { trade, fees: settlement.fees, tx_id, taken, made };
    market.book(&books.view, symbol, &settled)
}

fn trade(taker: (Owner, u64), maker: (Owner, u64), taker_side: Side, qty: u64, price_cents: i64) -> Trade {
    Trade {
        ts_ms: 20,
        price_cents,
        qty,
        taker_side,
        taker: Party { order: taker.1, owner: taker.0 },
        maker: Party { order: maker.1, owner: maker.0 },
        hidden: false,
    }
}

fn buy_from_nobody(books: &mut Books, market: &mut Market, trader: TraderId, symbol: &str, qty: u64, price: i64) {
    let t = trade((Owner::Trader(trader), 900), (Owner::Synthetic, 901), Side::Buy, qty, price);
    settle(books, market, symbol, t);
}

fn account_of(market: &Market, trader: TraderId) -> &Account {
    market.account_of(trader).expect("the trader has an account")
}

// ---------------------------------------------------------------------------
// People and money

#[test]
fn a_sign_up_is_paid_for_out_of_treasury() {
    let (mut books, mut market) = world();
    let before = books.view.balance(WalletId(2));
    let trader = sign_up(&mut books, &mut market, 250_000, DIGEST);
    let account = account_of(&market, trader);
    assert_eq!(account.balance_cents(&books.view), 250_000);
    assert_eq!(books.view.balance(WalletId(2)), before - 250_000);
    assert_eq!(books.view.outstanding_cents, 1_000_000_000, "the faucet is not a mint");
    assert!(account.ledger_issues(&books.view).is_empty());
    assert_eq!(market.users.get(&1).unwrap().name, "user-1");
    assert_eq!(market.directory.owner_of(trader), Some(UserId(1)));
    assert_eq!(market.trader_on(account.id).unwrap().id, trader);
}

#[test]
fn a_refused_sign_up_leaves_nothing_behind() {
    let (books, mut market) = world();
    let refused = market.sign_up(&books.view, None, None, -1, WalletId(50), 5, DIGEST.into());
    assert!(refused.is_err());
    let refused = market.sign_up(&books.view, None, None, 2_000_000_000, WalletId(50), 5, DIGEST.into());
    assert!(refused.is_err(), "the treasury does not hold that much");
    assert_eq!((market.users.len(), market.accounts.len(), market.traders.len()), (0, 0, 0));
    assert_eq!(market.next_user_id, 1);
}

#[test]
fn a_key_is_handed_out_once() {
    let (_, mut market) = world();
    let user = market.create_user_with_key(Some("Ada".into()), None, 3).expect("there is entropy");
    let key = market.take_issued_key(user).expect("the key is there");
    assert_eq!(market.directory.user_of(&key), Some(user));
    assert!(market.take_issued_key(user).is_none());
    assert_eq!(market.directory.user_of("ask-not-a-key"), None);
    let none = market.create_user_drawn(None, None, 4, Err(NoRandomness));
    assert_eq!((none, market.users.len()), (Err(NoRandomness), 1), "no key, no user");
    let next = market.create_user_drawn(None, None, 4, Ok("fehu_bb".into())).unwrap();
    assert_eq!(market.users.get(&next.0).unwrap().name, "user-2");
    assert_eq!(market.take_issued_key(next).as_deref(), Some("fehu_bb"));
}

#[test]
fn a_fresh_ledger_view_shows_no_supply() {
    let empty = LedgerView::new();
    assert_eq!((empty.wallets.len(), empty.findings.len()), (0, 0));
    assert_eq!((empty.minted_cents, empty.burned_cents, empty.outstanding_cents), (0, 0, 0));
    assert_eq!((empty.circulating_cents, empty.synthetic_debt_cents), (0, 0));
}

#[test]
fn minting_and_burning_are_bounded_and_written_down() {
    let (mut books, mut market) = world();
    let trader = sign_up(&mut books, &mut market, 1_000, DIGEST);
    let account = account_of(&market, trader).id;
    assert!(matches!(market.mint_into(account, 0, None), Err(MoneyError::NotPositive { .. })));
    assert!(matches!(market.burn_from(AccountId(9), 5, None), Err(MoneyError::NoWallet { .. })));
    let movement = market.mint_into(account, 500, Some("prize".into())).unwrap();
    assert!(matches!(movement.ask, Ask::Mint { cents: 500, .. }));
    carry_out(&mut books, &mut market, movement, 8);
    let movement = market.burn_from(account, 200, None).unwrap();
    carry_out(&mut books, &mut market, movement, 9);
    let account = account_of(&market, trader);
    assert_eq!(account.balance_cents(&books.view), 1_300);
    assert_eq!(account.ledger(2)[1].memo.as_deref(), Some("prize"));
    assert!(account.ledger_issues(&books.view).is_empty());
}

#[test]
fn freezing_names_whose_orders_go() {
    let (mut books, mut market) = world();
    let trader = sign_up(&mut books, &mut market, 1_000, DIGEST);
    let account = account_of(&market, trader).id;
    let (wallet, traders) = market.freeze_account(account).unwrap();
    assert_eq!(traders, vec![trader]);
    books.set_status(wallet, WalletStatus::Frozen);
    assert_eq!(market.account_dto(&books.view, account).unwrap().status, AccountStatus::Frozen);
    assert_eq!(market.unfreeze_account(account).unwrap(), wallet);
    assert_eq!(market.close_account(account).unwrap(), wallet);
    assert!(market.freeze_account(AccountId(77)).is_err());
}

// ---------------------------------------------------------------------------
// Orders and fills

#[test]
fn a_fill_between_traders_settles_both_sides_and_the_venue() {
    let (mut books, mut market) = world();
    let seller = sign_up(&mut books, &mut market, 1_000_000, DIGEST);
    let buyer = sign_up(&mut books, &mut market, 1_000_000, OTHER);
    buy_from_nobody(&mut books, &mut market, seller, "ACME", 10, 4_000);
    let cash = account_of(&market, seller).balance_cents(&books.view);
    assert_eq!(cash, 1_000_000 - 40_000 - 100, "the price and 25 basis points");
    assert_eq!(books.view.balance(WalletId(3)), 100);

    let ask = rest(&mut books, &mut market, &limit(seller, Side::Sell, 10, 5_000), None);
    assert_eq!(market.user_free_shares(UserId(1), "ACME"), 0);
    let fills = settle(
        &mut books,
        &mut market,
        "ACME",
        trade((Owner::Trader(buyer), 500), (Owner::Trader(seller), ask), Side::Buy, 4, 5_000),
    );
    assert_eq!(fills.len(), 2);
    assert_eq!(fills[0].liquidity, Liquidity::Taker);
    assert_eq!(fills[0].fee_cents, -50);
    assert_eq!(fills[1].fee_cents, 20);
    assert_eq!(account_of(&market, buyer).balance_cents(&books.view), 1_000_000 - 20_050);
    assert_eq!(account_of(&market, seller).balance_cents(&books.view), cash + 20_020);
    assert_eq!(books.view.balance(WalletId(3)), 130);
    assert_eq!(market.held_shares("ACME"), 10);
    let record = market.orders.order(ask).unwrap();
    assert_eq!((record.filled, record.remaining), (4, 6));
    assert_eq!(market.traders.get(&seller.0).unwrap().promised_shares("ACME"), 6);
    assert_eq!(market.fills_booked, 3);
}

#[test]
fn a_rebate_is_capped_at_what_the_venue_can_pay() {
    let (mut books, mut market) = world();
    let seller = sign_up(&mut books, &mut market, 1_000_000, DIGEST);
    market.fees.taker_bps = 0;
    buy_from_nobody(&mut books, &mut market, seller, "ACME", 10, 4_000);
    assert_eq!(books.view.balance(WalletId(3)), 0);
    let ask = rest(&mut books, &mut market, &limit(seller, Side::Sell, 10, 5_000), None);
    let fills = settle(
        &mut books,
        &mut market,
        "ACME",
        trade((Owner::Synthetic, 500), (Owner::Trader(seller), ask), Side::Buy, 10, 5_000),
    );
    assert_eq!(fills[0].fee_cents, 0, "the venue has collected nothing to pay it from");
    assert_eq!(books.view.balance(WalletId(3)), 0);
}

#[test]
fn cancelling_gives_back_what_was_held() {
    let (mut books, mut market) = world();
    let trader = sign_up(&mut books, &mut market, 100_000, DIGEST);
    let first = rest(&mut books, &mut market, &limit(trader, Side::Buy, 2, 1_000), None);
    let second = rest(&mut books, &mut market, &limit(trader, Side::Buy, 3, 2_000), None);
    assert_eq!(account_of(&market, trader).reserved_cents(&books.view), 8_000);
    let hold = market.release(trader, "ACME", &resting(first, trader, Side::Buy, 2, 1_000), 30).unwrap();
    books.let_go(hold);
    assert_eq!(account_of(&market, trader).reserved_cents(&books.view), 6_000);
    let (shown, holds) = market.cancel_all(trader, "ACME", &vec![resting(second, trader, Side::Buy, 3, 2_000)], 31);
    assert_eq!(shown[0].order_id, second);
    for hold in holds {
        books.let_go(hold);
    }
    assert_eq!(account_of(&market, trader).reserved_cents(&books.view), 0);
    assert!(!market.orders.order(first).unwrap().is_live());
    assert_eq!(market.orders.order(second).unwrap().status, OrderStatus::Cancelled);
}

#[test]
fn a_retry_is_answered_from_the_log_and_a_reused_id_is_refused() {
    let (mut books, mut market) = world();
    let trader = sign_up(&mut books, &mut market, 100_000, DIGEST);
    let order = limit(trader, Side::Buy, 2, 1_000);
    let id = rest(&mut books, &mut market, &order, Some("mine"));
    let key = Some("mine".to_string());
    let Some(Ok(Placed::Replayed(response))) = market.replayed(trader, "ACME", &order, &key) else {
        panic!("the same order again is the same order");
    };
    assert_eq!(response.order_id, id);
    let other = limit(trader, Side::Buy, 3, 1_000);
    let Some(Err(e)) = market.replayed(trader, "ACME", &other, &key) else {
        panic!("another order under the id is refused");
    };
    assert_eq!(e.message(""), format!("client_order_id \"mine\" was already used for order {id}"));
    assert!(market.replayed(trader, "ACME", &order, &None).is_none());
}

#[test]
fn an_order_is_refused_for_cash_shares_or_supply() {
    let (mut books, mut market) = world();
    let trader = sign_up(&mut books, &mut market, 10_000, DIGEST);
    let ask = |market: &mut Market, books: &Books, order: Order, cost: i64, outstanding: u64| {
        let prepared = Prepared { cost_cents: cost, bid_shares: 4, expires_at_ms: None };
        market.fund(&books.view, "ACME", trader, &order, &prepared, outstanding)
    };
    let buy = limit(trader, Side::Buy, 10, 1_000);
    assert!(matches!(
        ask(&mut market, &books, buy, 10_000, 100),
        Err(PlaceError::Refused(Refused::Account(_)))
    ), "the price fits and the fee does not");
    ask(&mut market, &books, buy, 9_975, 100).unwrap();
    assert!(matches!(
        ask(&mut market, &books, buy, 10, 13),
        Err(PlaceError::Refused(Refused::SupplyExhausted { needed: 10, available: 9 }))
    ));
    assert!(matches!(
        ask(&mut market, &books, limit(trader, Side::Sell, 1, 1_000), 0, 100),
        Err(PlaceError::Refused(Refused::InsufficientShares { needed: 1, available: 0 }))
    ));
    assert_eq!(market.orders_refused, 3);
    let stranger = limit(TraderId(9), Side::Sell, 1, 1_000);
    let prepared = Prepared { cost_cents: 0, bid_shares: 0, expires_at_ms: None };
    assert!(matches!(
        market.fund(&books.view, "ACME", TraderId(9), &stranger, &prepared, 100),
        Err(PlaceError::UnknownTrader(9))
    ));
}

#[test]
fn post_only_and_self_trades_are_told_apart() {
    let me = TraderId(1);
    assert!(check_post_only(&limit(me, Side::Buy, 1, 99), None, Some(100)).is_ok());
    assert!(matches!(
        check_post_only(&limit(me, Side::Buy, 1, 100), None, Some(100)),
        Err(OrderCheck::WouldCross { price_cents: 100, best_cents: 100 })
    ));
    let market_order = Order { kind: OrderKind::Market, ..limit(me, Side::Buy, 1, 1) };
    assert!(matches!(check_post_only(&market_order, None, None), Err(OrderCheck::Invalid(_))));
    let hasty = Order { tif: TimeInForce::Ioc, ..limit(me, Side::Sell, 1, 100) };
    assert!(matches!(check_post_only(&hasty, None, None), Err(OrderCheck::Invalid(_))));

    let book = vec![
        resting(1, me, Side::Sell, 1, 100),
        resting(2, me, Side::Sell, 1, 110),
        resting(3, me, Side::Buy, 1, 90),
        resting(4, TraderId(2), Side::Sell, 1, 95),
    ];
    assert_eq!(self_crossing(&book, &limit(me, Side::Buy, 5, 120), Some(105)), vec![1]);
    assert!(self_crossing(&book, &limit(me, Side::Buy, 5, 120), None).is_empty(), "nothing would trade at all");
}

#[test]
fn an_amendment_is_what_was_left_at_the_new_price() {
    let old = Resting { outstanding: 6, ..resting(7, TraderId(1), Side::Sell, 10, 100) };
    let amendment = Amendment { order_id: 7, price_cents: Some(105), qty: None, post_only: false, client_order_id: None };
    let order = amendment.replacement(&old);
    assert_eq!((order.side, order.qty), (Side::Sell, 6));
    assert!(matches!(order.kind, OrderKind::Limit { price_cents: 105 }));
    let (mut books, mut market) = world();
    let trader = sign_up(&mut books, &mut market, 100_000, DIGEST);
    let id = rest(&mut books, &mut market, &limit(trader, Side::Buy, 2, 1_000), None);
    let response = market.orders.order(id).unwrap().accepted.clone().unwrap();
    let amended = Amended::new(&old, response);
    assert_eq!((amended.replaced_order_id, amended.replaced_filled), (7, 4));
}

#[test]
fn an_amended_order_gives_back_what_it_held_first() {
    let (mut books, mut market) = world();
    let trader = sign_up(&mut books, &mut market, 100_000, DIGEST);
    let order = limit(trader, Side::Buy, 2, 1_000);
    let id = rest(&mut books, &mut market, &order, None);
    assert_eq!(account_of(&market, trader).reserved_cents(&books.view), 2_000);
    let old = resting(id, trader, Side::Buy, 2, 1_000);
    let amendment =
        Amendment { order_id: id, price_cents: Some(900), qty: None, post_only: false, client_order_id: None };
    let (hold, replacement) = market.amend(trader, "ACME", &old, &amendment, 8);
    books.let_go(hold.expect("a bid holds cash"));
    assert_eq!(account_of(&market, trader).reserved_cents(&books.view), 0);
    assert_eq!(replacement.qty, 2);
    assert!(matches!(replacement.kind, OrderKind::Limit { price_cents: 900 }));
    assert_eq!(market.orders.order(id).unwrap().status, OrderStatus::Cancelled);
    let refused = market.orders_refused;
    assert!(matches!(market.turned_away("no such lot".into()), PlaceError::Invalid(text) if text == "no such lot"));
    assert_eq!(market.orders_refused, refused + 1);
}

#[test]
fn an_order_is_decided_on_in_order() {
    let (mut books, mut market) = world();
    let me = sign_up(&mut books, &mut market, 100_000, DIGEST);
    let order = limit(me, Side::Buy, 2, 1_000);
    let id = rest(&mut books, &mut market, &order, Some("mine"));
    let request = |order: Order, key: Option<&str>| PlaceRequest {
        order,
        client_order_id: key.map(str::to_string),
        post_only: false,
        day: false,
        expires_at_ms: None,
        display_qty: None,
    };
    let word = || Some(Ok(Prepared { cost_cents: 2_000, bid_shares: 2, expires_at_ms: Some(9) }));
    let view = &books.view;
    assert!(matches!(
        market.place(view, "ACME", me, &request(order, None), None, 1_000, 1),
        Err(PlaceError::UnknownSymbol)
    ));
    let closed = Some(Err(OrderCheck::Closed(Closed::Halted("halted".into()))));
    assert!(matches!(
        market.place(view, "ACME", me, &request(order, Some("mine")), closed, 1_000, 1),
        Err(PlaceError::Check(OrderCheck::Closed(_)))
    ));
    assert!(matches!(
        market.place(view, "ACME", me, &request(order, Some("mine")), word(), 1_000, 1),
        Ok(Sending::Replayed(response)) if response.order_id == id
    ));
    assert!(matches!(
        market.place(view, "ACME", me, &request(limit(me, Side::Buy, 3, 1_000), Some("mine")), word(), 1_000, 1),
        Err(PlaceError::DuplicateClientId { order_id, .. }) if order_id == id
    ));
    assert!(matches!(
        market.place(view, "ACME", me, &request(order, Some("new")), word(), 1_000, 40),
        Ok(Sending::Send { min_id: 40, expires_at_ms: Some(9) })
    ));
    assert_eq!(market.next_order_id, 41);
    let refused = market.orders_refused;
    assert!(matches!(
        market.place(view, "ACME", me, &request(order, Some("newer")), word(), 3, 1),
        Err(PlaceError::Refused(Refused::SupplyExhausted { needed: 2, available: 1 }))
    ));
    assert_eq!((market.orders_refused, market.next_order_id), (refused + 1, 41));
}

#[test]
fn a_symbol_looks_at_the_session_then_the_book_then_the_owner() {
    let me = TraderId(1);
    let book = || BookView {
        closed: None,
        best_bid: Some(90),
        best_ask: Some(100),
        resting: vec![resting(1, me, Side::Sell, 1, 100), resting(2, TraderId(2), Side::Sell, 1, 100)],
        worst: Some(100),
    };
    let order = limit(me, Side::Buy, 1, 100);
    let closed = BookView { closed: Some(Closed::Session("opens at nine".into())), ..book() };
    assert!(matches!(check_order(closed, &order, true), Err(OrderCheck::Closed(_))));
    assert!(matches!(
        check_order(book(), &order, true),
        Err(OrderCheck::WouldCross { price_cents: 100, best_cents: 100 })
    ));
    assert!(matches!(check_order(book(), &order, false), Err(OrderCheck::SelfTrade(ids)) if ids == vec![1]));
    assert!(check_order(book(), &limit(TraderId(3), Side::Buy, 1, 100), false).is_ok());
    assert!(check_order(BookView { worst: None, ..book() }, &limit(me, Side::Buy, 1, 95), true).is_ok());
    assert_eq!(find_own(&book().resting, me, 1).unwrap().id, 1);
    assert!(matches!(find_own(&book().resting, me, 2), Err(OrderCheck::UnknownOrder(2))), "somebody else's");
}

#[test]
fn stops_are_counted_and_checked_but_reserve_nothing() {
    let (mut books, mut market) = world();
    let trader = sign_up(&mut books, &mut market, 10_000, DIGEST);
    let request = |qty| StopRequest {
        trader_id: trader.0,
        side: Side::Buy,
        qty,
        stop_price_cents: 1_000,
        limit_price_cents: None,
        tif: TimeInForce::Gtc,
        client_order_id: None,
    };
    let stop = market.place_stop(&books.view, "ACME", request(5), 0, 12).unwrap();
    assert_eq!((stop.stop_id, stop.created_at_ms), (1, 12));
    assert_eq!(market.next_stop_id, 2);
    assert_eq!(account_of(&market, trader).reserved_cents(&books.view), 0);
    assert!(matches!(market.place_stop(&books.view, "ACME", request(10), 0, 12), Err(PlaceError::Refused(_))));
    let full = market.place_stop(&books.view, "ACME", request(1), 100, 12).unwrap_err();
    assert_eq!(full.message(""), "a trader may hold 100 stops at once; cancel one first");
    let fired = PlaceRequest::fired(&stop);
    assert_eq!(fired.order.qty, 5);
    assert!(!fired.post_only && !fired.day);
}

// ---------------------------------------------------------------------------
// Payouts

#[test]
fn a_dividend_is_paid_in_full_or_not_at_all() {
    let (mut books, mut market) = world();
    let trader = sign_up(&mut books, &mut market, 1_000_000, DIGEST);
    buy_from_nobody(&mut books, &mut market, trader, "ACME", 10, 4_000);
    assert!(market.declare_dividend("ACME", 4_000, 0).is_none());
    assert!(market.declare_dividend("ACME", 4_000, 4_000).is_none());
    let owed = market.declare_dividend("ACME", 4_000, 25).unwrap();
    assert_eq!(owed.len(), 1);
    assert_eq!((owed[0].qty, owed[0].amount_cents), (10, 250));
    let issuer = market.issuer_wallet("ACME").unwrap();
    let before = account_of(&market, trader).balance_cents(&books.view);
    let draft = market.payout_draft(Reason::Dividend, issuer, &owed, None, 40);
    assert_eq!(draft.imbalance_cents(), 0);
    let tx = books.post(draft);
    let paid = market.pay_dividend(&books.view, "ACME", 3_975, 25, &owed, tx, None, 40);
    assert_eq!((paid.shares_paid, paid.accounts_paid, paid.total_cents), (10, 1, 250));
    assert_eq!(account_of(&market, trader).balance_cents(&books.view), before + 250);
    assert_eq!(books.view.balance(issuer), 500_000 - 250);
    assert!(account_of(&market, trader).ledger_issues(&books.view).is_empty());
}

#[test]
fn two_holders_on_one_account_are_paid_in_rows_that_add_up() {
    let (mut books, mut market) = world();
    let one = sign_up(&mut books, &mut market, 1_000_000, DIGEST);
    let account = account_of(&market, one).id;
    let two = market.create_trader(UserId(1), account, None, 6);
    buy_from_nobody(&mut books, &mut market, one, "ACME", 10, 4_000);
    buy_from_nobody(&mut books, &mut market, two, "ACME", 3, 4_000);
    let before = account_of(&market, one).balance_cents(&books.view);
    let owed = market.declare_dividend("ACME", 4_000, 25).unwrap();
    assert_eq!(owed.iter().map(|o| o.amount_cents).collect::<Vec<_>>(), vec![250, 75]);
    let issuer = market.issuer_wallet("ACME").unwrap();
    let tx = books.post(market.payout_draft(Reason::Dividend, issuer, &owed, None, 40));
    let paid = market.pay_dividend(&books.view, "ACME", 3_975, 25, &owed, tx, None, 40);
    assert_eq!((paid.shares_paid, paid.accounts_paid, paid.total_cents), (13, 2, 325));
    let rows: Vec<(i64, i64)> =
        account_of(&market, one).ledger(2).iter().map(|e| (e.amount_cents, e.balance_cents)).collect();
    assert_eq!(rows, vec![(75, before + 325), (250, before + 250)], "each row closes on its own balance");
    assert!(account_of(&market, one).ledger_issues(&books.view).is_empty());
}

#[test]
fn a_trade_within_one_account_leaves_rows_that_add_up() {
    let (mut books, mut market) = world();
    let one = sign_up(&mut books, &mut market, 1_000_000, DIGEST);
    let account = account_of(&market, one).id;
    let two = market.create_trader(UserId(1), account, None, 6);
    buy_from_nobody(&mut books, &mut market, two, "ACME", 10, 4_000);
    let before = account_of(&market, one).balance_cents(&books.view);
    let crossing = trade((Owner::Trader(one), 31), (Owner::Trader(two), 30), Side::Buy, 10, 4_000);
    let fills = settle(&mut books, &mut market, "ACME", crossing);
    assert_eq!(fills.iter().map(|f| (f.trader_id, f.fee_cents)).collect::<Vec<_>>(), vec![(one.0, -100), (two.0, 40)]);
    let rows: Vec<(i64, i64)> =
        account_of(&market, one).ledger(4).iter().rev().map(|e| (e.amount_cents, e.balance_cents)).collect();
    assert_eq!(
        rows,
        vec![
            (-40_000, before - 40_000),
            (-100, before - 40_100),
            (40_000, before - 100),
            (40, before - 60),
        ]
    );
    assert_eq!(account_of(&market, one).balance_cents(&books.view), before - 60);
    assert!(account_of(&market, one).ledger_issues(&books.view).is_empty());
}

#[test]
fn a_delisting_buys_everybody_out() {
    let (mut books, mut market) = world();
    let trader = sign_up(&mut books, &mut market, 1_000_000, DIGEST);
    buy_from_nobody(&mut books, &mut market, trader, "ACME", 10, 4_000);
    assert!(matches!(market.check_delisting(&books.view, "ZZZZ", None, 1), Err(DelistError::Unknown)));
    assert!(matches!(market.check_delisting(&books.view, "acme", Some(-1), 4_000), Err(DelistError::Price)));
    assert!(matches!(
        market.check_delisting(&books.view, "ACME", Some(60_000), 4_000),
        Err(DelistError::Unfunded(_))
    ));
    let index = market.check_delisting(&books.view, "acme", None, 4_000).unwrap();
    assert_eq!(index, 0);
    let owed = market.owed("ACME", 4_000);
    assert!(Market::anything_owed(&owed));
    let issuer = market.issuer_wallet("ACME").unwrap();
    let tx = books.post(market.payout_draft(Reason::Delisting, issuer, &owed, None, 50));
    let wound = WoundUp { last_price_cents: 4_000, orders_cancelled: 2, stops_cancelled: 1, next_order_id: 77 };
    let gone = market.delist(&books.view, index, &wound, 4_000, &owed, Some(tx), None, 50);
    assert_eq!((gone.shares_bought_out, gone.accounts_paid, gone.total_cents), (10, 1, 40_000));
    assert_eq!(market.held_shares("ACME"), 0);
    assert_eq!(market.listings.all(), &vec!["NBLA".to_string()]);
    assert!(market.allocate_order_id(1) >= 77, "no later book reuses its order ids");
    market.list("ACME".into()).unwrap();
    assert!(market.list("acme".into()).is_err());
}

// ---------------------------------------------------------------------------
// Commands

fn place(trader: u64, symbol: &str) -> Command {
    Command::PlaceOrder {
        symbol: symbol.into(),
        order: OrderRequest {
            trader_id: trader,
            side: Side::Buy,
            qty: 1,
            kind: OrderKind::Market,
            tif: TimeInForce::Ioc,
            client_order_id: None,
            post_only: false,
            display_qty: None,
            expires_at_ms: None,
            day: false,
        },
    }
}

#[test]
fn a_command_is_checked_before_anything_changes() {
    let (mut books, mut market) = world();
    let trader = sign_up(&mut books, &mut market, 1_000, DIGEST);
    assert!(matches!(plan(&market, place(trader.0, "acme")), Ok(Plan::Place { symbol, .. }) if symbol == "ACME"));
    let e = plan(&market, place(trader.0, "ZZZZ")).unwrap_err();
    assert_eq!((e.status, e.code), (404, "unknown_symbol"));
    let e = plan(&market, Command::OpenAccount { user_id: 9, name: None, cash_cents: 0 }).unwrap_err();
    assert_eq!((e.status, e.code), (404, "unknown_user"));
    let join = |caller, user_id, account_id| Command::CreateTrader {
        caller,
        user_id,
        account_id,
        name: None,
        email: None,
        cash_cents: 0,
        key_digest: Some(DIGEST.into()),
    };
    assert!(matches!(plan(&market, join(None, None, None)), Ok(Plan::SignUp { .. })));
    assert!(matches!(plan(&market, join(Some(1), Some(1), Some(1))), Ok(Plan::JoinAccount { .. })));
    assert!(matches!(plan(&market, join(Some(1), Some(1), None)), Ok(Plan::JoinUser { .. })));
    assert_eq!(plan(&market, join(Some(1), None, Some(1))).unwrap_err().status, 400);
    assert_eq!(plan(&market, join(Some(1), Some(1), Some(8))).unwrap_err().code, "unknown_account");
    assert!(matches!(plan(&market, Command::Step), Ok(Plan::Step)));
    let event = |symbol: Option<&str>, kind| Command::GameEvent {
        kind,
        magnitude: Real(2.0f64.to_bits()),
        symbol: symbol.map(str::to_string),
        source: "game".into(),
        note: None,
    };
    let Ok(Plan::Play { symbols, .. }) = plan(&market, event(None, GameEventKind::MarketCrash)) else {
        panic!("a market event goes everywhere");
    };
    assert_eq!(symbols, vec!["ACME", "NBLA"]);
    assert_eq!(plan(&market, event(None, GameEventKind::Scandal)).unwrap_err().code, "bad_request");
    let huge = Command::GameEvent {
        kind: GameEventKind::Scandal,
        magnitude: Real(6.0f64.to_bits()),
        symbol: None,
        source: "game".into(),
        note: None,
    };
    assert_eq!(plan(&market, huge).unwrap_err().message, "`magnitude` must be in (0, 5]", "before anything else");
    let listing = |symbol: &str| Command::ListSymbol {
        listing: Listing {
            symbol: symbol.into(),
            name: "New".into(),
            sector: "Tech".into(),
            description: "".into(),
            shares_outstanding: 100,
            seed: 1,
            start_price_cents: 100,
            drift: Real(0),
            volatility: Real(0),
            history_days: 0,
            source: "api".into(),
            note: None,
        },
    };
    assert!(matches!(plan(&market, listing("NEWS")), Ok(Plan::List { .. })));
    assert_eq!(plan(&market, listing("ACME")).unwrap_err().status, 409);
}

#[test]
fn only_the_owner_is_let_through() {
    let (mut books, mut market) = world();
    let trader = sign_up(&mut books, &mut market, 1_000, DIGEST);
    let (me, you) = (Caller(UserId(1)), Caller(UserId(2)));
    assert!(owned_trader(&market, me, trader).is_ok());
    assert_eq!(owned_trader(&market, you, trader).unwrap_err().message, "trader 1 belongs to another user");
    assert_eq!(owned_trader(&market, me, TraderId(5)).unwrap_err().message, "no such trader: 5");
    assert_eq!(owned_account(&market, you, AccountId(1)).unwrap_err().status, 403);
    assert_eq!(owned_user(you, UserId(1)).unwrap_err().message, "user 1 is somebody else");
}

// ---------------------------------------------------------------------------
// Reports

fn views(orders: &Vec<Resting>, stops: Vec<StopOrder>) -> Vec<SymbolView> {
    vec![SymbolView::of("ACME", 6_000, orders, stops), SymbolView::of("NBLA", 50, &Vec::new(), Vec::new())]
}

#[test]
fn a_portfolio_shows_what_is_held_resting_and_made() {
    let (mut books, mut market) = world();
    let trader = sign_up(&mut books, &mut market, 1_000_000, DIGEST);
    buy_from_nobody(&mut books, &mut market, trader, "ACME", 10, 4_000);
    let id = rest(&mut books, &mut market, &limit(trader, Side::Sell, 3, 7_000), None);
    let synthetic = Resting { owner: Owner::Synthetic, ..resting(99, trader, Side::Buy, 5, 10) };
    let views = views(&vec![resting(id, trader, Side::Sell, 3, 7_000), synthetic], Vec::new());
    assert_eq!(views[0].open_orders.len(), 1, "the simulator's own orders are nobody's");
    let value = Valuation { mark_cents: 6_000, market_value_cents: 60_000, unrealised_pnl_cents: 20_000 };
    let dto = market.portfolio(&books.view, trader, &vec![value], &views).unwrap();
    assert_eq!(dto.cash_cents, 959_900);
    assert_eq!(dto.equity_cents, 1_019_900);
    assert_eq!((dto.positions[0].reserved_shares, dto.positions[0].free_shares), (3, 7));
    assert_eq!(dto.open_orders[0].order_id, id);
    assert_eq!(dto.fills.len(), 1);
    let summary = market.trader_summary(&books.view, market.traders.get(&trader.0).unwrap(), &vec![value], &views);
    assert_eq!((summary.equity_cents, summary.positions, summary.open_orders), (1_019_900, 1, 1));
    assert_eq!(market.portfolio(&books.view, TraderId(9), &Vec::new(), &views).unwrap_err().code, "unknown_trader");

    let holdings = market.user_holdings(UserId(1), &views);
    assert_eq!((holdings[0].symbol.as_str(), holdings[0].qty, holdings[0].market_value_cents), ("ACME", 10, 60_000));
    let user = market.user_dto(&books.view, UserId(1), &views).unwrap();
    assert_eq!((user.balance_cents, user.shares_owned, user.holdings_value_cents), (959_900, 10, 60_000));
    assert_eq!(user.traders, vec![1]);
    assert_eq!(market.accounts_of(&books.view, UserId(1))[0].trader_id, Some(1));
    assert!(market.accounts_of(&books.view, UserId(2)).is_empty());
    assert_eq!(market.order_history(trader, Some(OrderStatus::Resting), 10).len(), 1);
    assert!(market.order_history(trader, Some(OrderStatus::Filled), 10).is_empty());
    assert!(market.order_history(trader, None, 0).is_empty());
}

#[test]
fn shares_are_counted_for_all_and_named_only_to_their_owner() {
    let (mut books, mut market) = world();
    let one = sign_up(&mut books, &mut market, 1_000_000, DIGEST);
    let other = sign_up(&mut books, &mut market, 1_000_000, OTHER);
    let (user, account) = (UserId(1), account_of(&market, one).id);
    let two = market.create_trader(user, account, None, 6);
    buy_from_nobody(&mut books, &mut market, one, "ACME", 3, 100);
    buy_from_nobody(&mut books, &mut market, two, "ACME", 7, 100);
    buy_from_nobody(&mut books, &mut market, other, "ACME", 5, 100);
    let shares = SharesDto::new(&market, "ACME", 100, 20, 100, 10_000, Some(Caller(user)));
    assert_eq!((shares.held_shares, shares.bid_shares, shares.available_shares), (15, 20, 65));
    assert_eq!(shares.holders.iter().map(|h| h.trader_id).collect::<Vec<_>>(), vec![two.0, one.0]);
    assert!(SharesDto::new(&market, "ACME", 100, 0, 100, 10_000, None).holders.is_empty());
}

#[test]
fn the_market_counts_itself_and_its_currency() {
    let (mut books, mut market) = world();
    sign_up(&mut books, &mut market, 70_000, DIGEST);
    let counts = SymbolCounts { ticks_total: 3, trades_total: 2, resting_orders: 1, stops_held: 4 };
    let health: MarketHealth = market.health(&books.view, &vec![counts, counts]);
    assert_eq!((health.symbols, health.ticks_total, health.stops_held), (2, 6, 8));
    assert_eq!((health.users, health.cash_cents, health.settlement_failures), (1, 70_000, 0));
    let supply = SupplyDto::of(&books.view);
    assert!(supply.balanced);
    assert_eq!(supply.issuer_cents, 1_000_000);
    assert_eq!(supply.player_cents, 70_000);
    assert_eq!(supply.treasury_cents, 1_000_000_000 - 1_070_000);
    assert_eq!(supply.wallets, 7);
}

#[test]
fn a_fill_is_heard_by_its_owner_alone() {
    let (mut books, mut market) = world();
    let trader = sign_up(&mut books, &mut market, 1_000, DIGEST);
    let directory = &market.directory;
    assert!(Notice::Tick.visible_to(None, directory));
    assert!(Notice::OrderExpired(trader).visible_to(None, directory));
    assert!(Notice::Fill(trader).visible_to(Some(UserId(1)), directory));
    assert!(!Notice::Fill(trader).visible_to(Some(UserId(2)), directory));
    assert!(!Notice::StopTriggered(trader).visible_to(None, directory));
    assert!(!Notice::Fill(TraderId(8)).visible_to(Some(UserId(1)), directory));
}

// ---------------------------------------------------------------------------
// Saving, checking and coming back

fn symbol(name: &str, outstanding: u64, orders: Vec<Resting>) -> SymbolReport {
    SymbolReport {
        save: SymbolSave {
            symbol: name.into(),
            info: Some(SymbolInfo { symbol: name.into(), asset: AssetKind::Stock, units_outstanding: outstanding }),
            book_fault: None,
            synthetic: true,
            orders,
            stops: Vec::new(),
        },
        clock_ms: 1_000,
        book_next: 50,
    }
}

/// What the ledger shows, once more.
fn copy_of(view: &LedgerView) -> LedgerView {
    let mut copy = LedgerView::new();
    for i in 0..view.wallets.len() {
        let w = view.wallets.val_at(i);
        copy.show(Wallet {
            id: w.id,
            kind: w.kind,
            label: w.label.clone(),
            balance_cents: w.balance_cents,
            reserved_cents: w.reserved_cents,
            available_cents: w.available_cents,
            status: w.status,
        });
    }
    copy.minted_cents = view.minted_cents;
    copy.outstanding_cents = view.outstanding_cents;
    copy.circulating_cents = view.circulating_cents;
    copy
}

fn snapshot(books: &Books, market: &Market, symbols: Vec<SymbolReport>) -> Save {
    let rest = World {
        ledger: copy_of(&books.view),
        npc_users: Vec::new(),
        jobs: Vec::new(),
        budgets: Vec::new(),
        rules: Vec::new(),
        journal_seq: 12,
        commands: Vec::new(),
    };
    market.snapshot(rest, symbols, 900, 7)
}

#[test]
fn shared_account_reservations_are_summed_across_traders_and_symbols() {
    let (mut books, mut market) = world();
    let first = sign_up(&mut books, &mut market, 10_000, DIGEST);
    let account = account_of(&market, first).id;
    let user = market.traders.get(&first.0).unwrap().user_id;
    let second = market.create_trader(user, account, None, 0);
    let symbols = || {
        vec![
            symbol("ACME", 1_000, vec![resting(1, first, Side::Buy, 10, 1)]),
            symbol("NBLA", 1_000, vec![resting(2, second, Side::Buy, 10, 1)]),
        ]
    };
    books.hold(market.accounts.get(&account.0).unwrap().reserve(20));
    let report = reconcile(&snapshot(&books, &market, symbols()));
    assert!(report.valid, "{report:?}");
    assert_eq!((report.accounts_checked, report.traders_checked, report.resting_orders_checked), (1, 2, 2));
    books.let_go(market.accounts.get(&account.0).unwrap().release(10));
    let report = reconcile(&snapshot(&books, &market, symbols()));
    assert!(!report.valid);
    assert_eq!(report.issues, vec!["account 1 cash reservation differs from resting buys"]);
}

#[test]
fn supply_and_missing_owners_are_reported_without_panicking() {
    let (mut books, mut market) = world();
    let trader = sign_up(&mut books, &mut market, 10_000, DIGEST);
    let account = account_of(&market, trader).id;
    books.hold(market.accounts.get(&account.0).unwrap().reserve(10));
    let symbols = || vec![symbol("ACME", 1, vec![resting(1, trader, Side::Buy, 10, 1)])];
    let report = reconcile(&snapshot(&books, &market, symbols()));
    assert!(report.issues.iter().any(|s| s.contains("outstanding supply")));
    market.traders.remove(&trader.0);
    market.directory.owners.remove(&trader.0);
    let report = reconcile(&snapshot(&books, &market, symbols()));
    assert!(report.issues.iter().any(|s| s.contains("missing trader")));
}

#[test]
fn everything_a_reconciliation_finds_is_said_in_words() {
    let (mut books, mut market) = world();
    let trader = sign_up(&mut books, &mut market, 10_000, DIGEST);
    let mut save = snapshot(&books, &market, vec![symbol("ACME", 100, Vec::new())]);
    let ghost = Position { qty: -1, cost_cents: 0, realised_pnl_cents: 0, cash_cents: 0 };
    save.market.traders[0].positions.insert("ZZZZ".into(), ghost);
    save.market.traders[0].reserved_shares.insert("ACME".into(), 5);
    save.market.traders[0].reserved_shares.insert("YYYY".into(), 1);
    save.market.ledger.findings.push("it does not add up".into());
    let mut twin = save.market.accounts[0].clone();
    twin.id = AccountId(2);
    save.market.accounts.push(twin);
    save.market.jobs.push(Job {
        id: 4,
        recipe: "SMELT".into(),
        recipe_version: 1,
        trader_id: 88,
        account_id: 89,
        inputs: Vec::new(),
        outputs: Vec::new(),
        yield_bps: 10_000,
        cost_cents: 0,
        tx_id: 0,
        inputs_cost_cents: 0,
        started_at_ms: 0,
        due_at_ms: 0,
        finished_at_ms: None,
        status: JobStatus::Running,
        refunded_cents: 0,
    });
    save.market.budgets.push(Budget { id: 1, name: "prizes".into(), wallet: WalletId(2) });
    save.market.budgets.push(Budget { id: 2, name: "lost".into(), wallet: WalletId(99) });
    save.market.rules.push(RewardRule { id: 6, budget: 3 });
    let report = reconcile(&save);
    assert_eq!(
        report.issues,
        vec![
            "trader 1 has an invalid ZZZZ position",
            "trader 1 ACME share reservation differs from resting sells",
            "trader 1 ACME reserved shares exceed holdings",
            "trader 1 reserves unknown symbol YYYY",
            "ledger: it does not add up",
            "wallet 7 is shared by 2 accounts",
            "job 4 is running for missing trader 88",
            "job 4 names missing account 89",
            "budget \"prizes\" names wallet 2, which is a treasury wallet",
            "budget \"lost\" names wallet 99 which the ledger does not have",
            "reward rule 6 pays out of budget 3, which is not open",
        ]
    );
    assert_eq!((report.jobs_running, report.budgets_checked), (1, 2));
    assert_eq!(market.trader_on(AccountId(1)).unwrap().id, trader);
}

#[test]
fn a_file_is_refused_for_whom_it_names() {
    let (mut books, mut market) = world();
    sign_up(&mut books, &mut market, 10_000, DIGEST);
    let save = snapshot(&books, &market, vec![symbol("ACME", 100, Vec::new())]);
    validate_accounting(&save).unwrap();

    let refused = |save: &Save| match validate_accounting(save) {
        Err(SaveError::Invalid(issues)) => issues,
        other => panic!("refused as invalid, not {other:?}"),
    };
    let mut bad = snapshot(&books, &market, vec![symbol("ACME", 100, Vec::new()), symbol("ACME", 100, Vec::new())]);
    assert_eq!(refused(&bad), vec!["ACME is listed more than once"]);
    bad.symbols[1].info = None;
    assert_eq!(refused(&bad), vec!["ACME carries no listing"]);
    bad.symbols.truncate(1);
    bad.market.next_user_id = 1;
    assert_eq!(
        refused(&bad),
        vec![
            "user ids are duplicated, zero, or overlap the next id",
            "API key ownership is missing or duplicated",
        ]
    );
    bad.market.next_user_id = 2;
    bad.market.api_keys[0].0 = "sha256:XYZ".into();
    assert_eq!(refused(&bad), vec!["API key digest has an invalid format"]);
    bad.market.api_keys.clear();
    assert_eq!(refused(&bad), vec!["every user must have exactly one API key digest, or be an NPC's"]);
    bad.market.npc_users.push(1);
    validate_accounting(&bad).unwrap();
    bad.symbols[0].stops.push(StopOrder {
        stop_id: 9,
        trader_id: 5,
        symbol: "NBLA".into(),
        side: Side::Buy,
        qty: 0,
        stop_price_cents: 1,
        limit_price_cents: None,
        tif: TimeInForce::Gtc,
        client_order_id: None,
        created_at_ms: 0,
    });
    assert_eq!(
        refused(&bad),
        vec![
            "stop ids are duplicated, zero, or overlap the next id",
            "stop 9 has no trader",
            "stop 9 is filed under another symbol",
            "stop 9 has an invalid size or price",
        ]
    );
    assert_eq!(
        SaveError::Invalid(refused(&bad)[1..3].to_vec()).message(),
        "state file has inconsistent state: stop 9 has no trader; stop 9 is filed under another symbol"
    );
    check_version(STATE_VERSION).unwrap();
    assert!(matches!(check_version(1), Err(SaveError::Version { found: 1, .. })));
    assert_eq!(temp_path("state.json"), "state.json.tmp");
}

/// The tickers known once the save is read.
fn known(save: &Save) -> Tickers {
    let mut tickers = Tickers::new();
    tickers.learn_save(save);
    tickers
}

#[test]
fn a_snapshot_brings_the_market_back() {
    let (mut books, mut market) = world();
    let seller = sign_up(&mut books, &mut market, 1_000_000, DIGEST);
    let buyer = sign_up(&mut books, &mut market, 500_000, OTHER);
    buy_from_nobody(&mut books, &mut market, seller, "ACME", 10, 4_000);
    let ask = rest(&mut books, &mut market, &limit(seller, Side::Sell, 6, 5_000), Some("mine"));
    market.events.record(EventRecord {
        id: 0,
        received_at_ms: 1,
        at_ms: 2,
        symbols: vec!["ACME".into()],
        kind: "sim:jump".into(),
        source: "api".into(),
        note: None,
        magnitude: None,
        effects: Vec::new(),
        summary: Vec::new(),
    });
    let save = snapshot(&books, &market, vec![symbol("ACME", 1_000, vec![resting(ask, seller, Side::Sell, 6, 5_000)])]);
    assert_eq!((save.version, save.saved_at_ms, save.sim_now_ms), (STATE_VERSION, 7, 1_000));
    assert_eq!(save.market.next_order_id, 50, "the book was ahead");
    validate_accounting(&save).unwrap();

    let (back, unfunded) = Market::restore(&save.market, vec!["ACME".into()], &known(&save), &options());
    assert!(unfunded.is_empty(), "no float is paid twice");
    assert_eq!(back.users.len(), 2);
    assert_eq!(back.directory.owner_of(buyer), Some(UserId(2)));
    assert_eq!(back.traders.get(&seller.0).unwrap().promised_shares("ACME"), 6);
    assert_eq!(back.traders.get(&seller.0).unwrap().fills.len(), 1);
    let rows = |m: &Market| -> Vec<(u64, i64, i64)> {
        account_of(m, seller).ledger(100).iter().map(|e| (e.id, e.amount_cents, e.balance_cents)).collect()
    };
    assert_eq!(rows(&back), rows(&market));
    assert_eq!(back.orders.order(ask).unwrap().accepted.as_ref().unwrap().order_id, ask);
    let again = back.replayed(seller, "ACME", &limit(seller, Side::Sell, 6, 5_000), &Some("mine".into()));
    assert!(matches!(again, Some(Ok(Placed::Replayed(_)))), "a retry is still recognised");
    assert_eq!(back.events.events.len(), 1);
    assert_eq!((back.next_user_id, back.next_trader_id, back.events.next_id), (3, 3, 2));
    assert_eq!(back.issuer_wallet("ACME"), market.issuer_wallet("ACME"));
    assert_eq!((back.orders_placed, back.settlement_failures), (0, 0), "counters are not state");
}

#[test]
fn a_history_longer_than_its_cap_comes_back_whole_and_keeps_its_cap() {
    let (mut books, mut market) = world();
    let trader = sign_up(&mut books, &mut market, 1_000_000, DIGEST);
    for price in 1..=4 {
        buy_from_nobody(&mut books, &mut market, trader, "ACME", 1, 1_000 * price);
    }
    let mut save = snapshot(&books, &market, vec![symbol("ACME", 1_000, Vec::new())]);
    save.market.accounts[0].ledger_cap = 2;
    save.market.traders[0].fill_cap = 3;
    let rows = save.market.accounts[0].ledger.len();
    assert_eq!((rows > 2, save.market.traders[0].fills.len()), (true, 4));
    let first = save.market.accounts[0].ledger[0].id;

    let (mut back, _) = Market::restore(&save.market, vec!["ACME".into()], &known(&save), &options());
    let account = account_of(&back, trader);
    assert_eq!((account.ledger_cap, account.ledger.len(), account.ledger[0].id), (2, rows, first));
    assert_eq!(back.traders.get(&trader.0).unwrap().fill_cap, 3);
    assert_eq!(back.traders.get(&trader.0).unwrap().fills.len(), 4);

    // From here on every new one drives out the oldest.
    let movement = back.mint_into(account.id, 500, None).unwrap();
    carry_out(&mut books, &mut back, movement, 9);
    let account = account_of(&back, trader);
    assert_eq!((account.ledger_cap, account.ledger.len(), account.ledger[0].id), (2, rows, first + 1));
    buy_from_nobody(&mut books, &mut back, trader, "ACME", 1, 5_000);
    let fills: Vec<u64> = back.traders.get(&trader.0).unwrap().fills.iter().map(|f| f.id).collect();
    assert_eq!(fills, vec![2, 3, 4, 5]);
    let again = snapshot(&books, &back, vec![symbol("ACME", 1_000, Vec::new())]);
    assert_eq!((again.market.accounts[0].ledger_cap, again.market.traders[0].fill_cap), (2, 3));
}

#[test]
fn an_issuer_of_a_ticker_nobody_knows_is_left_behind() {
    let (mut books, mut market) = world();
    let trader = sign_up(&mut books, &mut market, 1_000_000, DIGEST);
    buy_from_nobody(&mut books, &mut market, trader, "NBLA", 1, 4_000);
    let mut save = snapshot(&books, &market, vec![symbol("ACME", 1_000, Vec::new())]);
    save.market.issuers.push(("LOST".into(), WalletId(77)));

    let seen = known(&save);
    assert!(seen.knows(&"ACME".into()), "it is listed");
    assert!(seen.knows(&"NBLA".into()), "it is held");
    assert!(!seen.knows(&"LOST".into()), "an issuer does not name its ticker");
    let (back, _) = Market::restore(&save.market, vec!["ACME".into()], &seen, &options());
    assert_eq!(back.issuer_wallet("ACME"), market.issuer_wallet("ACME"));
    assert_eq!(back.issuer_wallet("NBLA"), market.issuer_wallet("NBLA"));
    assert!(back.issuer_wallet("NBLA").is_some());
    assert_eq!(back.issuer_wallet("LOST"), None);

    let mut seen = known(&save);
    seen.learn_all(&vec!["LOST".into()]);
    let (back, _) = Market::restore(&save.market, vec!["ACME".into()], &seen, &options());
    assert_eq!(back.issuer_wallet("LOST"), Some(WalletId(77)));
    let nothing = Tickers::new();
    let (back, _) = Market::restore(&save.market, vec!["ACME".into()], &nothing, &options());
    assert_eq!(back.issuer_wallet("ACME"), None);
}

#[test]
fn a_save_names_the_tickers_written_down_in_it() {
    let (mut books, mut market) = world();
    let trader = sign_up(&mut books, &mut market, 1_000_000, DIGEST);
    let mut save = snapshot(&books, &market, Vec::new());
    assert!(!known(&save).knows(&"ACME".into()), "nothing is listed");
    save.market.events.push(EventRecord {
        id: 1,
        received_at_ms: 1,
        at_ms: 2,
        symbols: vec!["EVNT".into()],
        kind: "sim:jump".into(),
        source: "api".into(),
        note: None,
        magnitude: None,
        effects: Vec::new(),
        summary: Vec::new(),
    });
    save.market.traders[0].reserved_shares.insert("HELD".into(), 1);
    let seen = known(&save);
    assert!(seen.knows(&"EVNT".into()) && seen.knows(&"HELD".into()));
    buy_from_nobody(&mut books, &mut market, trader, "FILL", 1, 4_000);
    let save = snapshot(&books, &market, Vec::new());
    assert!(known(&save).knows(&"FILL".into()));
    let mut more = Tickers::new();
    more.learn(&"ONE".into());
    more.learn(&"ONE".into());
    assert!(more.knows(&"ONE".into()) && !more.knows(&"TWO".into()));
}
