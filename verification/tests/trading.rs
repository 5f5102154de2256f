//! Traders: what they may do, what they hold back, and what fills do to them.

use fehu_webapp::account::{
    notional_cents, settlement_draft, Account, AccountId, Context, LedgerKind, UserId,
};
use fehu_webapp::ledger::{Draft, Hold, LedgerView, Reason, Wallet, WalletId, WalletKind, WalletStatus};
use fehu_webapp::trading::{
    Fees, FillRecord, HolderDto, HoldingDto, Liquidity, Order, OrderKind, OrderRecord, OrderResponse, OrderStatus,
    Owner, Party, Placement, Position, Refused, SettledFees, Side, StopOrder, TimeInForce, Trade, Trader, TraderId,
    UserHoldingsResponse,
};

/// A ledger kept in memory: it posts what it is asked to post and shows the
/// library what it holds.
struct Books {
    view: LedgerView,
    next_wallet: u64,
    next_tx: u64,
}

impl Books {
    fn new() -> Self {
        Books { view: LedgerView::new(), next_wallet: 1, next_tx: 1 }
    }

    fn put(&mut self, id: WalletId, kind: WalletKind, balance: i64, reserved: i64, status: WalletStatus) {
        self.view.show(Wallet {
            id,
            kind,
            label: format!("{kind:?}").to_lowercase(),
            balance_cents: balance,
            reserved_cents: reserved,
            available_cents: balance - reserved,
            status,
        });
    }

    fn open(&mut self, kind: WalletKind) -> WalletId {
        let id = WalletId(self.next_wallet);
        self.next_wallet += 1;
        self.put(id, kind, 0, 0, WalletStatus::Active);
        id
    }

    fn change(&mut self, id: WalletId, balance: i64, reserved: i64, status: WalletStatus) {
        let kind = self.view.wallet(id).expect("the wallet is open").kind;
        self.put(id, kind, balance, reserved, status);
    }

    fn mint(&mut self, id: WalletId, cents: i64) {
        let (balance, reserved, status) = (self.view.balance(id), self.view.reserved(id), self.view.status(id));
        self.change(id, balance + cents, reserved, status);
        self.view.minted_cents += cents;
        self.view.outstanding_cents += cents;
        self.view.circulating_cents += i128::from(cents);
    }

    fn post(&mut self, draft: Draft) -> u64 {
        assert_eq!(draft.imbalance_cents(), 0, "a movement balances or is not posted");
        for posting in &draft.postings {
            let id = posting.wallet;
            let (balance, reserved, status) = (self.view.balance(id), self.view.reserved(id), self.view.status(id));
            self.change(id, balance + posting.cents, reserved, status);
        }
        self.next_tx += 1;
        self.next_tx - 1
    }

    fn hold(&mut self, hold: Hold) {
        let (balance, reserved, status) =
            (self.view.balance(hold.wallet), self.view.reserved(hold.wallet), self.view.status(hold.wallet));
        self.change(hold.wallet, balance, reserved + hold.cents, status);
    }

    fn let_go(&mut self, hold: Hold) {
        let (balance, reserved, status) =
            (self.view.balance(hold.wallet), self.view.reserved(hold.wallet), self.view.status(hold.wallet));
        self.change(hold.wallet, balance, (reserved - hold.cents).max(0), status);
    }

    fn set_status(&mut self, id: WalletId, status: WalletStatus) {
        let (balance, reserved) = (self.view.balance(id), self.view.reserved(id));
        self.change(id, balance, reserved, status);
    }
}

const ME: TraderId = TraderId(1);

struct World {
    books: Books,
    venue: WalletId,
    synthetic: WalletId,
}

/// A trader with an account that `cash_cents` were paid into.
fn trader(cash_cents: i64) -> (World, Trader, Account) {
    let mut books = Books::new();
    let treasury = books.open(WalletKind::Treasury);
    let venue = books.open(WalletKind::Venue);
    let synthetic = books.open(WalletKind::Synthetic);
    books.mint(treasury, 1_000_000_000);
    let wallet = books.open(WalletKind::Player);
    let mut account = Account::open(AccountId(1), UserId(1), "main".into(), wallet, 100, 0);
    if cash_cents > 0 {
        let tx = books.post(Draft::new(Reason::Faucet).debit(treasury, cash_cents).credit(wallet, cash_cents));
        account.record(&books.view, LedgerKind::Deposit, cash_cents, &Context::plain(tx, 0, None));
    }
    (
        World { books, venue, synthetic },
        Trader::new(ME, UserId(1), AccountId(1), "p".into(), 10, 0),
        account,
    )
}

/// What buying or selling does to a position: what is sold leaves at its
/// average cost.
fn moved(p: Position, side: Side, qty: u64, price: i64) -> Position {
    let n = qty as i64;
    match side {
        Side::Buy => Position {
            qty: p.qty + n,
            cost_cents: p.cost_cents + price * n,
            cash_cents: p.cash_cents - price * n,
            ..p
        },
        Side::Sell => {
            let cost = p.cost_cents * n / p.qty;
            Position {
                qty: p.qty - n,
                cost_cents: p.cost_cents - cost,
                realised_pnl_cents: p.realised_pnl_cents + price * n - cost,
                cash_cents: p.cash_cents + price * n,
            }
        }
    }
}

fn position(t: &Trader, symbol: &str) -> Position {
    t.positions
        .get(&symbol.to_string())
        .copied()
        .unwrap_or(Position { qty: 0, cost_cents: 0, realised_pnl_cents: 0, cash_cents: 0 })
}

fn rest(w: &mut World, t: &mut Trader, a: &Account, symbol: &str, side: Side, qty: u64, price: i64) {
    if let Some(hold) = t.reserve(a, symbol, side, qty, price) {
        w.books.hold(hold);
    }
}

fn withdraw(w: &mut World, t: &mut Trader, a: &Account, symbol: &str, side: Side, qty: u64, price: i64) {
    if let Some(hold) = t.release(a, symbol, side, qty, price) {
        w.books.let_go(hold);
    }
}

/// Settle a trade the way the market does — one balanced transaction for both
/// sides and the venue — then record the trader's view of it. The venue
/// charges nothing here.
fn apply(w: &mut World, t: &mut Trader, a: &mut Account, symbol: &str, trade: &Trade) -> Vec<FillRecord> {
    let wallet_of = |owner: Owner| match owner {
        Owner::Trader(_) => a.wallet,
        Owner::Synthetic => w.synthetic,
    };
    let (taker, maker) = (wallet_of(trade.taker.owner), wallet_of(trade.maker.owner));
    // The maker's reservation goes back before the settlement is posted: the
    // cash a resting buy holds is the cash that pays for its own fill.
    if trade.maker.owner == t.owner() {
        withdraw(w, t, a, symbol, trade.taker_side.opposite(), trade.qty, trade.price_cents);
    }
    let value = notional_cents(trade.price_cents, trade.qty);
    let tx = w.books.post(settlement_draft(taker, maker, w.venue, trade.taker_side, value, 0, trade.ts_ms));
    let before = position(t, symbol);
    let taken = if trade.taker.owner == t.owner() {
        moved(before, trade.taker_side, trade.qty, trade.price_cents)
    } else {
        before
    };
    let made = if trade.maker.owner == t.owner() {
        moved(taken, trade.taker_side.opposite(), trade.qty, trade.price_cents)
    } else {
        taken
    };
    let none = SettledFees { taker_cents: 0, maker_cents: 0 };
    t.apply_trade(&w.books.view, a, symbol, trade, none, tx, taken, made)
}

fn trade(taker: Owner, maker: Owner, side: Side, qty: u64, price: i64) -> Trade {
    Trade {
        ts_ms: 0,
        price_cents: price,
        qty,
        taker_side: side,
        taker: Party { order: 10, owner: taker },
        maker: Party { order: 11, owner: maker },
        hidden: false,
    }
}

#[test]
fn reservations_and_fills() {
    let (mut w, mut t, mut a) = trader(100_000);
    assert!(t.check(&w.books.view, &a, "ACME", Side::Buy, 10, 100_001).is_err());
    assert!(t.check(&w.books.view, &a, "ACME", Side::Sell, 1, 0).is_err());
    t.check(&w.books.view, &a, "ACME", Side::Buy, 10, 50_000).unwrap();
    // Rest a buy of 10 @ 5000.
    rest(&mut w, &mut t, &a, "ACME", Side::Buy, 10, 5_000);
    assert_eq!(a.available_cents(&w.books.view), 50_000);
    // Half of it fills as maker.
    let fills = apply(
        &mut w,
        &mut t,
        &mut a,
        "ACME",
        &trade(Owner::Synthetic, Owner::Trader(ME), Side::Sell, 5, 5_000),
    );
    assert_eq!(fills.len(), 1);
    assert_eq!(fills[0].liquidity, Liquidity::Maker);
    assert_eq!(fills[0].side, Side::Buy);
    assert_eq!(a.balance_cents(&w.books.view), 75_000);
    assert_eq!(a.reserved_cents(&w.books.view), 25_000);
    assert_eq!(a.available_cents(&w.books.view), 50_000);
    assert_eq!(position(&t, "ACME").qty, 5);
    // Cancel the rest.
    withdraw(&mut w, &mut t, &a, "ACME", Side::Buy, 5, 5_000);
    assert_eq!(a.reserved_cents(&w.books.view), 0);
    // Sell 3 as taker at 6000.
    assert!(t.check(&w.books.view, &a, "ACME", Side::Sell, 6, 0).is_err());
    t.check(&w.books.view, &a, "ACME", Side::Sell, 3, 0).unwrap();
    let fills = apply(
        &mut w,
        &mut t,
        &mut a,
        "ACME",
        &trade(Owner::Trader(ME), Owner::Synthetic, Side::Sell, 3, 6_000),
    );
    assert_eq!(fills[0].liquidity, Liquidity::Taker);
    assert_eq!(a.balance_cents(&w.books.view), 93_000);
    assert_eq!(position(&t, "ACME").qty, 2);
    assert_eq!(position(&t, "ACME").realised_pnl_cents, 3_000);
    // A self-trade books both sides and nets to nothing.
    rest(&mut w, &mut t, &a, "ACME", Side::Sell, 2, 7_000);
    assert_eq!(t.free_shares("ACME"), 0);
    let fills = apply(
        &mut w,
        &mut t,
        &mut a,
        "ACME",
        &trade(Owner::Trader(ME), Owner::Trader(ME), Side::Buy, 2, 7_000),
    );
    assert_eq!(fills.len(), 2);
    assert_eq!(a.balance_cents(&w.books.view), 93_000);
    assert_eq!(position(&t, "ACME").qty, 2);
    assert_eq!(t.free_shares("ACME"), 2);
    // Every movement is on the ledger, and the account stays valid.
    assert!(a.is_valid(&w.books.view));
    assert_eq!(
        a.ledger(100).len(),
        6,
        "open, the faucet that funded it, and four settlements"
    );
    assert!(a.ledger_issues(&w.books.view).is_empty(), "and the rows add up, both sides of the self-trade too");
}

#[test]
fn a_sell_can_never_exceed_what_is_held() {
    let (mut w, mut t, mut a) = trader(1_000_000);
    // Buy 100 as taker.
    apply(
        &mut w,
        &mut t,
        &mut a,
        "ACME",
        &trade(Owner::Trader(ME), Owner::Synthetic, Side::Buy, 100, 5_000),
    );
    assert_eq!(t.held_shares("ACME"), 100);
    assert_eq!(t.free_shares("ACME"), 100);
    assert!(t.check(&w.books.view, &a, "ACME", Side::Sell, 101, 0).is_err());
    t.check(&w.books.view, &a, "ACME", Side::Sell, 100, 0).unwrap();
    // 60 of them rest in a sell, so only 40 are still sellable.
    rest(&mut w, &mut t, &a, "ACME", Side::Sell, 60, 6_000);
    assert_eq!(t.held_shares("ACME"), 100, "reserving sells nothing");
    assert_eq!(t.free_shares("ACME"), 40);
    assert_eq!(
        t.check(&w.books.view, &a, "ACME", Side::Sell, 41, 0).unwrap_err(),
        Refused::InsufficientShares { needed: 41, available: 40 }
    );
    t.check(&w.books.view, &a, "ACME", Side::Sell, 40, 0).unwrap();
    // Another symbol is a separate pot, empty here.
    assert_eq!(t.free_shares("NBLA"), 0);
    assert!(t.check(&w.books.view, &a, "NBLA", Side::Sell, 1, 0).is_err());
}

#[test]
fn holdings_add_up_across_traders() {
    let (mut w, mut one, mut a) = trader(1_000_000);
    let mut two = Trader::new(TraderId(2), UserId(1), AccountId(1), "two".into(), 10, 0);
    for t in [&mut one, &mut two] {
        let owner = Owner::Trader(t.id);
        apply(&mut w, t, &mut a, "ACME", &trade(owner, Owner::Synthetic, Side::Buy, 50, 4_000));
    }
    rest(&mut w, &mut two, &a, "ACME", Side::Sell, 20, 5_000);

    let mut h = HoldingDto::empty("ACME");
    h.add(&one);
    h.add(&two);
    h.mark(6_000);
    assert_eq!(h.qty, 100);
    assert_eq!(h.reserved_shares, 20);
    assert_eq!(h.free_shares, 80, "what the user could sell right now");
    assert_eq!(h.cost_cents, 400_000);
    assert_eq!(h.cost_cents as f64 / h.qty as f64, 4_000.0);
    assert_eq!(h.market_value_cents, 600_000);
    assert_eq!(h.unrealised_pnl_cents, 200_000);
    assert_eq!(h.traders, vec![1, 2]);

    let totals = UserHoldingsResponse::new(1, vec![h]);
    assert_eq!(totals.shares_owned, 100);
    assert_eq!(totals.free_shares, 80);
    assert_eq!(totals.market_value_cents, 600_000);

    // A trader holding nothing of the symbol is not a holder of it.
    assert!(HolderDto::new(&one, "NBLA").is_none());
    let holder = HolderDto::new(&two, "ACME").expect("two holds ACME");
    assert_eq!((holder.qty, holder.reserved_shares, holder.free_shares), (50, 20, 30));
}

#[test]
fn a_frozen_account_cannot_trade_at_all() {
    let (mut w, t, a) = trader(100_000);
    w.books.set_status(a.wallet, WalletStatus::Frozen);
    assert!(matches!(
        t.check(&w.books.view, &a, "ACME", Side::Buy, 1, 1).unwrap_err(),
        Refused::Account(e) if e.is_forbidden()
    ));
    assert!(matches!(
        t.check(&w.books.view, &a, "ACME", Side::Sell, 1, 0).unwrap_err(),
        Refused::Account(e) if e.is_forbidden()
    ));
}

#[test]
fn fees_are_truncated_towards_zero_and_never_point_the_wrong_way() {
    let fees = Fees { taker_bps: 25, maker_bps: -10 };
    assert_eq!(fees.on(Liquidity::Taker, 100_000), -250);
    assert_eq!(fees.on(Liquidity::Maker, 100_000), 100);
    assert_eq!(fees.on(Liquidity::Taker, 399), 0, "less than a cent is owed to nobody");
    assert_eq!(fees.on(Liquidity::Taker, 400), -1);
    assert_eq!(fees.taker_cost(100_000), 250);
    let backwards = Fees { taker_bps: -25, maker_bps: 10 };
    assert_eq!(backwards.on(Liquidity::Taker, 100_000), 0);
    assert_eq!(backwards.on(Liquidity::Maker, 100_000), 0);
    assert_eq!(Fees::default().on(Liquidity::Taker, 1_000_000), 0);
    // Past what can be told, a charge stays a charge and a rebate a rebate.
    let steep = Fees { taker_bps: 20_000, maker_bps: -20_000 };
    assert_eq!(steep.on(Liquidity::Taker, i64::MAX), i64::MIN);
    assert_eq!(steep.on(Liquidity::Maker, i64::MAX), i64::MAX);
}

#[test]
fn releasing_what_was_reserved_puts_it_back() {
    let (mut w, mut t, mut a) = trader(1_000_000);
    apply(&mut w, &mut t, &mut a, "ACME", &trade(Owner::Trader(ME), Owner::Synthetic, Side::Buy, 10, 100));
    rest(&mut w, &mut t, &a, "ACME", Side::Sell, 4, 120);
    assert_eq!((t.promised_shares("ACME"), t.free_shares("ACME")), (4, 6));
    withdraw(&mut w, &mut t, &a, "ACME", Side::Sell, 4, 120);
    assert_eq!((t.promised_shares("ACME"), t.free_shares("ACME")), (0, 10));
    rest(&mut w, &mut t, &a, "ACME", Side::Buy, 4, 50);
    assert_eq!(a.reserved_cents(&w.books.view), 200);
    withdraw(&mut w, &mut t, &a, "ACME", Side::Buy, 4, 50);
    assert_eq!(a.reserved_cents(&w.books.view), 0);
}

#[test]
fn a_flat_position_that_never_made_anything_is_not_kept() {
    let (mut w, mut t, mut a) = trader(1_000);
    apply(&mut w, &mut t, &mut a, "ACME", &trade(Owner::Trader(ME), Owner::Synthetic, Side::Buy, 2, 100));
    assert_eq!(t.positions.len(), 1);
    apply(&mut w, &mut t, &mut a, "ACME", &trade(Owner::Trader(ME), Owner::Synthetic, Side::Sell, 2, 100));
    assert_eq!(t.positions.len(), 0);
    apply(&mut w, &mut t, &mut a, "ACME", &trade(Owner::Trader(ME), Owner::Synthetic, Side::Buy, 2, 100));
    apply(&mut w, &mut t, &mut a, "ACME", &trade(Owner::Trader(ME), Owner::Synthetic, Side::Sell, 2, 110));
    assert_eq!(position(&t, "ACME").realised_pnl_cents, 20, "one that made something is");
    assert_eq!(t.fills.len(), 4);
    assert_eq!(t.fills.back().unwrap().id, 4);
}

fn order(qty: u64, price: i64) -> Order {
    Order {
        owner: Owner::Trader(ME),
        side: Side::Buy,
        kind: OrderKind::Limit { price_cents: price },
        tif: TimeInForce::Gtc,
        qty,
    }
}

fn record(qty: u64, filled: u64, status: OrderStatus) -> OrderRecord {
    let placed = Placement {
        id: 7,
        filled,
        remaining: qty - filled,
        status,
        notional_cents: 100 * filled as i64,
        trades: Vec::new(),
    };
    let response = OrderResponse::new("ACME", ME, Side::Buy, qty, &placed);
    OrderRecord::new(Some("mine".into()), ME, "ACME".into(), &order(qty, 100), &placed, response, 5)
}

#[test]
fn an_order_record_follows_its_fills_and_then_stands_still() {
    let mut r = record(10, 0, OrderStatus::Resting);
    assert!(r.is_live());
    r.fill(4, 100, 6);
    assert_eq!((r.filled, r.remaining, r.notional_cents, r.updated_at_ms), (4, 6, 400, 6));
    assert!(r.is_live());
    r.fill(6, 90, 7);
    assert_eq!((r.filled, r.remaining, r.notional_cents), (10, 0, 940));
    assert!(!r.is_live());
    r.fill(1, 1, 8);
    r.cancel(3, 9);
    assert_eq!((r.filled, r.remaining, r.updated_at_ms), (10, 0, 7), "what has finished does not change");

    let mut r = record(10, 0, OrderStatus::Resting).expiring_at(Some(50));
    assert!(!r.has_expired(49));
    assert!(r.has_expired(50));
    r.cancel(10, 50);
    assert_eq!(r.status, OrderStatus::Cancelled);
    assert!(!r.has_expired(60), "only a live order expires");
}

#[test]
fn a_record_matches_only_the_order_it_was_made_for() {
    let r = record(10, 0, OrderStatus::Resting);
    assert!(r.matches(&order(10, 100), "ACME"));
    assert!(!r.matches(&order(11, 100), "ACME"));
    assert!(!r.matches(&order(10, 101), "ACME"));
    assert!(!r.matches(&order(10, 100), "NBLA"));
}

#[test]
fn a_stop_fires_at_its_price_and_asks_for_what_it_says() {
    let stop = |side, limit: Option<i64>| StopOrder {
        stop_id: 1,
        trader_id: 1,
        symbol: "ACME".into(),
        side,
        qty: 3,
        stop_price_cents: 100,
        limit_price_cents: limit,
        tif: TimeInForce::Gtc,
        client_order_id: None,
        created_at_ms: 0,
    };
    assert!(stop(Side::Buy, None).triggered_by(100));
    assert!(stop(Side::Buy, None).triggered_by(101));
    assert!(!stop(Side::Buy, None).triggered_by(99));
    assert!(stop(Side::Sell, None).triggered_by(99));
    assert!(!stop(Side::Sell, None).triggered_by(101));
    assert_eq!(stop(Side::Buy, Some(120)).cost_cents(), 360);
    assert!(matches!(stop(Side::Buy, Some(120)).order().kind, OrderKind::Limit { price_cents: 120 }));
    assert!(matches!(stop(Side::Buy, None).order().kind, OrderKind::Market));
}

#[test]
fn goods_come_in_at_their_price_and_leave_for_nothing() {
    let (mut world, mut t, mut account) = trader(10_000);
    let tx = world
        .books
        .post(Draft::new(Reason::Purchase).debit(account.wallet, 300).credit(world.venue, 300));
    let bought = moved(position(&t, "ORE"), Side::Buy, 3, 100);
    let held = t.acquire(&world.books.view, &mut account, "ORE", 3, 100, tx, 5, Some("catalogue".into()), bought);
    assert_eq!(held, 3);
    assert_eq!(account.balance_cents(&world.books.view), 9_700);
    let row = account.ledger.back().expect("a row was written");
    assert_eq!((row.kind, row.amount_cents, row.tx_id), (LedgerKind::Purchase, -300, tx));
    let burnt = moved(position(&t, "ORE"), Side::Sell, 1, 0);
    assert_eq!(t.destroy("ORE", burnt), 2);
    assert_eq!(position(&t, "ORE").realised_pnl_cents, -100, "what it cost is lost");
    assert_eq!(t.destroy("COAL", burnt), 0, "what is not held cannot be consumed");
}
