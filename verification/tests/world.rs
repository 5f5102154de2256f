//! The rest of the world: the catalogue, the event log, the listings, the
//! stream, the options a server is started with, and the order log.

use std::collections::VecDeque;

use fehu_webapp::catalog::{Catalog, CatalogError, GoodsError};
use fehu_webapp::events::{
    catalog, Delay, Effect, EventError, EventLog, EventRecord, EventRejected, Field, GameEventKind, Prepared, Real,
    Scope, SimEvent, Timing, MAX_MAGNITUDE,
};
use fehu_webapp::ledger::WalletId;
use fehu_webapp::listings::{ListingError, Listings};
use fehu_webapp::options::{clean_admin_key, parse_market_hours, MarketHours, Options};
use fehu_webapp::orders::OrderLog;
use fehu_webapp::stream::StreamLog;
use fehu_webapp::table::Table;
use fehu_webapp::text::{eq_ignoring_case, parse_u32, split_once, trim};
use fehu_webapp::trading::{
    Order, OrderKind, OrderRecord, OrderResponse, OrderStatus, Owner, Placement, Side, TimeInForce, TraderId,
};

fn event(symbols: &[&str]) -> EventRecord {
    EventRecord {
        id: 0,
        received_at_ms: 0,
        at_ms: 0,
        symbols: symbols.iter().map(|s| s.to_string()).collect(),
        kind: "sim:jump".into(),
        source: "api".into(),
        note: None,
        magnitude: None,
        effects: vec![SimEvent::FundamentalTarget { target_cents: 5 }],
        summary: vec!["x".into()],
    }
}

#[test]
fn the_event_log_numbers_keeps_and_finds() {
    let mut log = EventLog::continued(VecDeque::new(), 2, 0);
    assert_eq!(log.record(event(&["ACME"])).id, 1);
    log.record(event(&["NBLA"]));
    log.record(event(&["ACME", "NBLA"]));
    assert_eq!(log.events.len(), 2, "the oldest went");
    let ids = |limit, symbol| log.events(limit, symbol).iter().map(|e| e.id).collect::<Vec<_>>();
    assert_eq!(ids(10, None), vec![3, 2]);
    assert_eq!(ids(10, Some("acme")), vec![3]);
    assert_eq!(ids(1, Some("nbla")), vec![3]);
    assert!(event(&["ACME"]).is_about("acme") && !event(&["ACME"]).is_about("ACM"));
}

fn number(x: f64) -> Real {
    Real(x.to_bits())
}

#[test]
fn events_happen_now_then_or_not_at_all() {
    let at = |at_ms, secs: Option<f64>| {
        Timing { at_ms, delay: secs.map(|secs| Delay { secs: number(secs), until_ms: 150 }) }.resolve(100)
    };
    assert_eq!(at(None, None), Ok(100));
    assert_eq!(at(Some(7), None), Ok(7));
    assert_eq!(at(None, Some(0.05)), Ok(150));
    for fine in [0.0, -0.0, 1e12] {
        assert_eq!(at(None, Some(fine)), Ok(150));
    }
    for not in [-1.0, f64::NAN, f64::INFINITY, 1.1e12] {
        assert_eq!(at(None, Some(not)).unwrap_err(), "`delay_secs` must be a non-negative number");
    }
    assert_eq!(at(Some(7), Some(8.0)).unwrap_err(), "give either `at_ms` or `delay_secs`, not both");
}

#[test]
fn every_number_of_an_event_is_looked_at() {
    let hour = number(3_600.0);
    let jump = |pct: f64| SimEvent::Jump { pct: number(pct) }.prepare();
    assert_eq!(jump(0.1), Ok(Prepared::Queue(SimEvent::Jump { pct: number(0.1) })));
    assert!(jump(-0.999).is_ok());
    for low in [-1.0, -1.5, -1e300] {
        assert_eq!(jump(low), Err(EventRejected::Sim(EventError::JumpBelowMinusOne)));
    }
    for not in [f64::NAN, f64::INFINITY, f64::NEG_INFINITY] {
        assert_eq!(jump(not), Err(EventRejected::NotFinite(Field::Pct)));
    }
    let drift = |delta: f64, secs: f64| SimEvent::DriftShift { delta: number(delta), half_life_secs: number(secs) }.prepare();
    assert!(drift(0.2, 60.0).is_ok());
    assert_eq!(drift(f64::NAN, 0.0), Err(EventRejected::NotFinite(Field::Delta)), "the move is looked at first");
    for secs in [0.0, -0.0, -1.0, f64::NAN, f64::INFINITY, 1.1e12] {
        assert_eq!(drift(0.2, secs), Err(EventRejected::HalfLife));
    }
    let total = SimEvent::DriftForTotalMove { total: number(f64::INFINITY), half_life_secs: hour };
    assert_eq!(total.prepare(), Err(EventRejected::NotFinite(Field::Total)));
    assert!(SimEvent::VolShift { delta: number(0.1), half_life_secs: hour }.prepare().is_ok());
    assert!(SimEvent::FundamentalShift { delta: number(-0.1) }.prepare().is_ok());
    let target = |target_cents| SimEvent::FundamentalTarget { target_cents }.prepare();
    assert_eq!(target(1), Ok(Prepared::SetFundamental(1)));
    assert_eq!(target(0), Err(EventRejected::Target));
    assert_eq!(EventRejected::Target.message(""), "`target_cents` must be at least 1");
    assert_eq!(EventRejected::NotFinite(Field::Pct).message(""), "`pct` must be a finite number");
    assert_eq!(EventRejected::HalfLife.message(""), "`half_life_secs` must be a positive number of seconds");
    assert_eq!(EventRejected::Sim(EventError::JumpBelowMinusOne).message("too far"), "too far");
}

#[test]
fn a_game_event_stands_for_a_bundle_that_scales() {
    assert_eq!(
        GameEventKind::Scandal.effects(),
        vec![
            Effect::Jump { pct: -10 },
            Effect::FundamentalShift { delta: -8 },
            Effect::VolShift { delta: 40, half_life_secs: 4 * 3_600 },
            Effect::DriftForTotalMove { total: -5, half_life_secs: 6 * 3_600 },
        ]
    );
    assert_eq!(
        GameEventKind::EarningsBeat.effects()[2],
        Effect::VolShift { delta: 15, half_life_secs: 1_800 }
    );
    let entries = catalog();
    assert_eq!(entries.len(), 12);
    for (entry, kind) in entries.iter().zip(GameEventKind::ALL) {
        assert_eq!((entry.kind, entry.scope), (kind, kind.scope()));
        assert_eq!((entry.label, entry.description), (kind.label(), kind.description()));
        assert_eq!(entry.effects, kind.effects());
        for effect in &entry.effects {
            if let Effect::Jump { pct } = effect {
                assert!(*pct as f64 / 100.0 * MAX_MAGNITUDE as f64 > -1.0);
            }
        }
    }
    for (scale, fine) in [(1.0, true), (5.0, true), (5.1, false), (0.0, false), (-1.0, false), (f64::NAN, false)] {
        assert_eq!(number(scale).is_magnitude(), fine, "{scale}");
    }
}

#[test]
fn every_game_event_has_a_name_and_a_reach() {
    assert_eq!(GameEventKind::CeoResigns.name(), "ceo_resigns");
    assert_eq!(GameEventKind::Scandal.scope(), Scope::Company);
    assert_eq!(GameEventKind::RateHike.scope(), Scope::Market);
    assert_eq!(SimEvent::Jump { pct: Real(0) }.name(), "jump");
    assert!(!GameEventKind::Hype.label().is_empty() && !GameEventKind::Hype.description().is_empty());
}

#[test]
fn a_ticker_is_listed_once_and_only_so_many_are() {
    let mut listings = Listings::new(2);
    assert!(listings.is_empty());
    listings.list("ACME".into()).unwrap();
    assert_eq!(listings.list("acme".into()).unwrap_err().message(), "acme is already listed");
    listings.list("NBLA".into()).unwrap();
    let full = listings.list("THRD".into()).unwrap_err();
    assert_eq!(full, ListingError::Full { max: 2 });
    assert_eq!(full.message(), "this market lists at most 2 symbols");
    assert_eq!(listings.get("nbla").map(|s| s.as_str()), Some("NBLA"));
    assert_eq!(listings.remove(0), "ACME");
    assert_eq!(listings.index_of("NBLA"), Some(0));
    assert_eq!(listings.len(), 1);
}

#[test]
fn a_stream_tells_a_gap_from_a_quiet_market() {
    let mut log: StreamLog<&str> = StreamLog::new(2);
    assert_eq!(log.published(), 0);
    for message in ["a", "b", "c"] {
        log.publish(message);
    }
    let since = |since| {
        let s = log.subscribe(since);
        (s.seq, s.oldest_seq, s.replay.iter().map(|m| m.message).collect::<Vec<_>>(), s.gap)
    };
    assert_eq!(since(None), (3, 2, vec![], false));
    assert_eq!(since(Some(1)), (3, 2, vec!["b", "c"], false));
    assert_eq!(since(Some(0)), (3, 2, vec!["b", "c"], true), "the first is gone for good");
    assert_eq!(since(Some(3)), (3, 2, vec![], false));
    let mut none: StreamLog<u8> = StreamLog::new(0);
    none.publish(1);
    assert_eq!(none.subscribe(Some(0)).gap, true);
}

#[test]
fn options_are_brought_into_range() {
    let wild = Options {
        genesis_cents: -5,
        tick_cents: 0,
        lot: 0,
        max_symbols: 900,
        save_secs: 0,
        taker_fee_bps: 20_000,
        maker_fee_bps: 5,
        ..Options::default()
    };
    let tame = wild.clamped(64);
    assert_eq!((tame.genesis_cents, tame.tick_cents, tame.lot, tame.max_symbols, tame.save_secs), (0, 1, 1, 64, 1));
    assert_eq!((tame.fees().taker_bps, tame.fees().maker_bps), (10_000, 0));
    let (minted, float) = Options { genesis_cents: 100, synthetic_float_cents: 250, ..Options::default() }
        .genesis(WalletId(2), WalletId(4));
    assert_eq!(minted, 100);
    assert_eq!(float.unwrap().postings[1].cents, 100, "the float is no more than there is");
    assert_eq!(clean_admin_key(Some("  ".into())), None);
    assert_eq!(clean_admin_key(Some(" k ".into())), Some("k".into()));
}

#[test]
fn a_calendar_is_read_or_there_is_none() {
    let hours = |open_secs, close_secs| Some(MarketHours { open_secs, close_secs });
    assert_eq!(parse_market_hours("09:30-16:00"), hours(34_200, 57_600));
    assert_eq!(parse_market_hours(" 00:00 - 23:59 "), hours(0, 86_340));
    for nonsense in ["off", "", "16:00-09:30", "09:30", "24:00-25:00", "09:60-10:00", "9-5"] {
        assert_eq!(parse_market_hours(nonsense), None, "{nonsense}");
    }
}

#[test]
fn the_catalogue_sells_what_it_has() {
    let mut catalog = Catalog::default();
    assert!(catalog.is_empty());
    assert!(matches!(catalog.set("ORE".into(), 0, None, None), Err(CatalogError::Price)));
    catalog.set("ORE".into(), 25, Some(10), Some("seam".into())).unwrap();
    assert_eq!(catalog.quote("ORE", 4).unwrap(), 25, "the price of one");
    assert!(matches!(catalog.quote("COAL", 1), Err(CatalogError::Unknown(_))));
    catalog.issue("ORE", 4);
    assert_eq!(catalog.get("ORE").unwrap().issued, 4);
    assert!(matches!(catalog.quote("ORE", 7), Err(CatalogError::Exhausted { wanted: 7, available: 6 })));
    assert_eq!(catalog.items().len(), 1);
    assert!(catalog.remove("ORE").is_some());
    assert_eq!(catalog.len(), 0);
    assert!(matches!(GoodsError::from(CatalogError::Full), GoodsError::Catalog(CatalogError::Full)));
    assert_eq!(GoodsError::gone().message(""), GoodsError::Unknown("the symbol is no longer listed".into()).message(""));
}

fn record(id: u64, status: OrderStatus, key: Option<&str>) -> OrderRecord {
    let order = Order {
        owner: Owner::Trader(TraderId(1)),
        side: Side::Buy,
        kind: OrderKind::Limit { price_cents: 10 },
        tif: TimeInForce::Gtc,
        qty: 5,
    };
    let placed = Placement { id, status, filled: 0, remaining: 5, notional_cents: 0, trades: Vec::new() };
    let response = OrderResponse::new("ACME", TraderId(1), Side::Buy, 5, &placed);
    OrderRecord::new(key.map(str::to_string), TraderId(1), "ACME".into(), &order, &placed, response, 1)
}

#[test]
fn live_orders_are_never_evicted() {
    let mut log = OrderLog::new(2);
    log.record_order(record(1, OrderStatus::Resting, Some("one")));
    log.record_order(record(2, OrderStatus::Resting, None));
    log.record_order(record(3, OrderStatus::Resting, None));
    assert_eq!(log.len(), 3, "everything in it is live");
    log.cancel(2, "ACME", 5, 9);
    log.record_order(record(4, OrderStatus::Resting, None));
    assert!(log.order(2).is_none(), "the finished one went");
    assert_eq!(log.orders_of(TraderId(1)).iter().map(|o| o.order_id).collect::<Vec<_>>(), vec![4, 3, 1]);
    log.fill(1, "ACME", 5, 10, 10);
    log.record_order(record(5, OrderStatus::Resting, None));
    assert!(log.order_by_client_id(TraderId(1), "one").is_none(), "and its own id with it");
    assert_eq!(log.to_saved().len(), 3);
}

#[test]
fn expired_orders_are_found_by_symbol() {
    let mut log = OrderLog::new(10);
    log.record_order(record(1, OrderStatus::Resting, None).expiring_at(Some(50)));
    log.record_order(record(2, OrderStatus::Resting, None).expiring_at(Some(60)));
    log.record_order(record(3, OrderStatus::Cancelled, None).expiring_at(Some(10)));
    assert_eq!(log.due("ACME", 55), vec![(1, TraderId(1))]);
    assert!(log.due("NBLA", 100).is_empty());
}

#[test]
fn a_table_keeps_its_keys_in_order() {
    let mut table: Table<String, u64> = Table::new();
    for (i, key) in ["b", "a", "ab", "a"].iter().enumerate() {
        table.insert(key.to_string(), i as u64);
    }
    let keys: Vec<&str> = (0..table.len()).map(|i| table.key_at(i).as_str()).collect();
    assert_eq!(keys, vec!["a", "ab", "b"]);
    assert_eq!(table.get(&"a".to_string()), Some(&3));
    *table.get_mut(&"b".to_string()).unwrap() = 9;
    assert_eq!(table.remove(&"b".to_string()), Some(9));
    assert_eq!(table.remove(&"b".to_string()), None);
}

#[test]
fn text_is_trimmed_split_and_compared() {
    assert_eq!(trim(" \u{a0}x y\t\n"), "x y");
    assert_eq!(split_once("a=b=c", '='), Some(("a".into(), "b=c".into())));
    assert!(eq_ignoring_case("AcMe", "aCmE") && !eq_ignoring_case("é", "É"));
    assert_eq!(parse_u32("007"), Some(7));
    assert_eq!(parse_u32("+7"), Some(7));
    assert_eq!(parse_u32("4294967296"), None);
    assert_eq!(parse_u32(""), None);
}
