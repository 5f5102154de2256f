//! What the corporate commands are written down as, and the refusals that go
//! with them.

use fehu_webapp::commands::{
    check_event, delisting_event, dividend_event, game_event_record, listing_event, no_such_dividend, sim_event_record,
    GameEventRequest, PushEventRequest,
};
use fehu_webapp::events::{GameEventKind, Prepared, Real, SimEvent, Timing};
use fehu_webapp::journal::Command;
use fehu_webapp::payouts::{Delisting, Dividend};

#[test]
fn a_delisting_is_written_down_in_one_line() {
    let d = Delisting {
        symbol: "ACME".into(),
        cents_per_share: 250,
        last_price_cents: 300,
        orders_cancelled: 2,
        stops_cancelled: 1,
        shares_bought_out: 40,
        accounts_paid: 3,
        total_cents: 10_000,
    };
    let event = delisting_event(&d, 7, 9, "api".into(), Some("bankrupt".into()));
    assert_eq!((event.id, event.received_at_ms, event.at_ms), (0, 7, 9));
    assert_eq!(event.kind, "corporate:delisting");
    assert_eq!(event.symbols, vec!["ACME"]);
    assert_eq!(event.note.as_deref(), Some("bankrupt"));
    assert!(event.magnitude.is_none() && event.effects.is_empty());
    assert_eq!(
        event.summary,
        vec![
            "ACME delisted at 250 cents a share: 40 shares bought out for 10000 cents across 3 account(s), \
             2 resting order(s) and 1 stop(s) withdrawn"
        ]
    );
}

#[test]
fn a_dividend_is_written_down_with_how_its_price_goes_ex() {
    let d = Dividend {
        symbol: "ACME".into(),
        cents_per_share: 5,
        price_cents: 300,
        shares_paid: 40,
        accounts_paid: 2,
        total_cents: 200,
    };
    let effect = SimEvent::FundamentalTarget { target_cents: 295 };
    let event = dividend_event(&d, 7, 9, "api".into(), None, Real(1), vec![effect]);
    assert_eq!(event.kind, "corporate:dividend");
    assert_eq!(event.magnitude, Some(Real(1)));
    assert_eq!(event.effects.len(), 1);
    assert_eq!(event.summary, vec!["dividend of 5 cents a share on 40 shares, 200 cents to 2 account(s)"]);
    let refused = no_such_dividend(300);
    assert_eq!((refused.status, refused.code), (422, "invalid_event"));
    assert_eq!(
        refused.message,
        "a dividend must be between 1 and 299 cents a share, one less than the price it is declared against"
    );
}

#[test]
fn listings_and_simulator_events_are_written_down_by_kind() {
    let listed = listing_event("NBLA".into(), 100, 1_000, 7, 9, "api".into(), None);
    assert_eq!(listed.kind, "corporate:listing");
    assert_eq!(listed.summary, vec!["NBLA listed at 100 cents, 1000 shares outstanding"]);
    let raw = sim_event_record(
        "ACME".into(),
        SimEvent::FundamentalTarget { target_cents: 500 },
        "fair value 500 cents".into(),
        7,
        9,
        "api".into(),
        None,
    );
    assert_eq!(raw.kind, format!("sim:{}", SimEvent::FundamentalTarget { target_cents: 500 }.name()));
    assert_eq!(raw.summary, vec!["fair value 500 cents"]);
    assert_eq!(raw.effects.len(), 1);
    let game = game_event_record(
        GameEventKind::CeoResigns,
        Real(2),
        vec!["ACME".into()],
        vec![],
        vec!["down".into()],
        7,
        9,
        "api".into(),
        None,
    );
    assert_eq!(game.kind, "game:ceo_resigns");
    assert_eq!(game.magnitude, Some(Real(2)));
    assert_eq!(game.symbols, vec!["ACME"]);
}

#[test]
fn an_event_is_validated_before_it_is_a_command() {
    let now = Timing { at_ms: None, delay: None };
    let event = SimEvent::FundamentalTarget { target_cents: 0 };
    let refused = check_event(&event, "").unwrap_err();
    assert_eq!((refused.status, refused.code, refused.message.as_str()), (422, "invalid_event", "`target_cents` must be at least 1"));
    let fine = SimEvent::FundamentalTarget { target_cents: 9 };
    assert_eq!(check_event(&fine, "").unwrap(), Prepared::SetFundamental(9));
    let push = PushEventRequest { event: fine, timing: now, source: None, note: None };
    assert!(matches!(
        push.command("ACME".into()),
        Command::SimEvent { symbol, source, .. } if symbol == "ACME" && source == "api"
    ));
    let play = GameEventRequest {
        kind: GameEventKind::Hype,
        symbol: Some("ACME".into()),
        magnitude: None,
        timing: now,
        source: None,
        note: Some("rumour".into()),
    };
    assert!(matches!(
        play.command(),
        Command::GameEvent { magnitude, source, .. } if f64::from_bits(magnitude.0) == 1.0 && source == "game"
    ));
}
