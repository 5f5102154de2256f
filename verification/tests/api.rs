//! What requests carry, who they speak for, and what a refusal says.

use fehu_webapp::account::{AccountId, MoneyError};
use fehu_webapp::api::{
    api_key_of_headers, check_admin, check_email, clean_client_order_id, constant_time_eq, page_size, parse_interval,
    parse_order_status, ApiError, CancelError, Interval,
};
use fehu_webapp::actor::Gone;
use fehu_webapp::ledger::{LedgerError, WalletId, WalletStatus};
use fehu_webapp::payouts::{DelistError, PayoutError};
use fehu_webapp::placing::{Closed, OrderCheck, PlaceError};
use fehu_webapp::trading::{OrderStatus, Refused};

fn some(text: &str) -> Option<String> {
    Some(text.to_string())
}

fn says(e: &ApiError) -> (u16, &str, &str) {
    (e.status, e.code, e.message.as_str())
}

#[test]
fn a_key_travels_as_a_bearer_token_or_in_its_own_header() {
    assert_eq!(api_key_of_headers(&some("Bearer abc"), &None), some("abc"));
    assert_eq!(api_key_of_headers(&some("Bearer abc"), &some("other")), some("abc"));
    assert_eq!(api_key_of_headers(&None, &some("mine")), some("mine"));
    assert_eq!(api_key_of_headers(&some("Basic abc"), &some("mine")), some("mine"));
    assert_eq!(api_key_of_headers(&None, &None), None);
}

#[test]
fn the_admin_key_is_compared_whole() {
    assert!(constant_time_eq("", ""));
    assert!(constant_time_eq("secret", "secret"));
    assert!(!constant_time_eq("secret", "secreT"));
    assert!(!constant_time_eq("secret", "secre"));
    assert!(check_admin(&None, &None).is_ok(), "open unless a key is set");
    assert!(check_admin(&some("k"), &some("k")).is_ok());
    assert_eq!(check_admin(&some("k"), &some("x")).unwrap_err().status, 401);
    assert_eq!(check_admin(&some("k"), &None).unwrap_err().status, 401);
}

#[test]
fn an_email_is_optional_but_has_to_look_like_one() {
    assert_eq!(check_email(&None).unwrap(), None);
    assert_eq!(check_email(&some("  ")).unwrap(), None);
    assert_eq!(check_email(&some(" ada@example.org ")).unwrap(), some("ada@example.org"));
    for bad in ["ada", "@example.org", "ada@localhost", "ada@.org"] {
        let e = check_email(&some(bad)).unwrap_err();
        assert_eq!(says(&e), (400, "bad_request", format!("`email` does not look like an address: {bad}").as_str()));
    }
}

#[test]
fn a_client_order_id_is_trimmed_and_bounded() {
    assert_eq!(clean_client_order_id(&None).unwrap(), None);
    assert_eq!(clean_client_order_id(&some("  ")).unwrap(), None);
    assert_eq!(clean_client_order_id(&some(" a1 ")).unwrap(), some("a1"));
    assert!(clean_client_order_id(&Some("x".repeat(64))).is_ok());
    assert_eq!(
        clean_client_order_id(&Some("x".repeat(65))).unwrap_err().message,
        "client_order_id is longer than 64 characters"
    );
}

#[test]
fn queries_are_read_leniently_and_bounded() {
    assert_eq!(parse_interval("m1"), Some(Interval::M1));
    assert_eq!(parse_interval("1D"), Some(Interval::D1));
    assert_eq!(parse_interval("5m"), Some(Interval::M5));
    assert_eq!(parse_interval("W1"), None);
    assert_eq!(parse_order_status(&None).unwrap(), None);
    assert_eq!(parse_order_status(&some("live")).unwrap(), Some(OrderStatus::Resting));
    assert_eq!(parse_order_status(&some("canceled")).unwrap(), Some(OrderStatus::Cancelled));
    assert_eq!(
        parse_order_status(&some("gone")).unwrap_err().message,
        "unknown status \"gone\": use resting, filled or cancelled"
    );
    assert_eq!(page_size(None, 100, 1_000), 100);
    assert_eq!(page_size(Some(0), 100, 1_000), 1);
    assert_eq!(page_size(Some(5_000), 100, 1_000), 1_000);
}

#[test]
fn money_refusals_pick_their_status_by_what_went_wrong() {
    let said = |e: MoneyError| {
        let e = ApiError::money(&e, "the ledger's words");
        (e.status, e.code)
    };
    assert_eq!(said(MoneyError::NotPositive { amount_cents: 0 }), (400, "invalid_amount"));
    assert_eq!(said(MoneyError::TooLarge { amount_cents: 9, max_cents: 1 }), (400, "invalid_amount"));
    assert_eq!(said(MoneyError::NoWallet { account: AccountId(1) }), (500, "internal"));
    assert_eq!(said(MoneyError::from(LedgerError::Closed(WalletId(1)))), (409, "account_not_active"));
    let frozen = LedgerError::Status { wallet: WalletId(1), status: WalletStatus::Frozen, action: "place orders" };
    assert_eq!(said(MoneyError::Ledger(frozen)), (409, "account_not_active"));
    let e = ApiError::refused(&Refused::InsufficientShares { needed: 3, available: 1 }, "");
    assert_eq!((e.status, e.code), (422, "order_refused"));
}

#[test]
fn an_order_that_was_not_placed_says_why() {
    let said = |e: PlaceError| {
        let e = ApiError::place("ACME", &e, "");
        (e.status, e.code, e.message)
    };
    assert_eq!(said(PlaceError::UnknownSymbol), (404, "unknown_symbol", "no such symbol: ACME".into()));
    assert_eq!(
        said(PlaceError::from(OrderCheck::Closed(Closed::Halted("trading is halted".into())))),
        (
            409,
            "symbol_halted",
            "ACME: trading is halted. Orders already resting can still be cancelled.".into()
        )
    );
    assert_eq!(
        said(PlaceError::Check(OrderCheck::SelfTrade(vec![3, 14]))),
        (
            409,
            "self_trade",
            "this would trade with your own resting order(s) [3, 14]: cancel or reprice them first".into()
        )
    );
    assert_eq!(
        said(PlaceError::Check(OrderCheck::WouldCross { price_cents: 10, best_cents: 9 })),
        (
            422,
            "post_only_would_cross",
            "a post-only order at 10 would trade against 9 instead of resting".into()
        )
    );
    assert_eq!(said(PlaceError::Check(OrderCheck::UnknownOrder(4))).1, "unknown_order");
    assert_eq!(said(PlaceError::UnknownTrader(4)).2, "no such trader: 4");
    assert_eq!(said(PlaceError::Invalid("too small".into())), (422, "invalid_order", "too small".into()));
    assert_eq!(
        said(PlaceError::DuplicateClientId { client_order_id: "a\"b".into(), order_id: 2 }).2,
        "client_order_id \"a\\\"b\" was already used for order 2, which asked for something else"
    );
    assert_eq!(said(PlaceError::from(Gone)).0, 503);
    assert_eq!(Gone.message(), "the actor has stopped");
}

#[test]
fn payouts_and_cancellations_say_why_too() {
    let unfunded = LedgerError::Closed(WalletId(1));
    assert_eq!(ApiError::delist("ACME", &DelistError::Unknown, "").status, 404);
    assert_eq!(ApiError::delist("ACME", &DelistError::Price, "").code, "invalid_event");
    assert_eq!(ApiError::delist("ACME", &DelistError::Unfunded(unfunded), "x").code, "payout_not_funded");
    assert_eq!(
        says(&ApiError::payout(&PayoutError::from(unfunded), "empty")),
        (422, "payout_not_funded", "the payout is not funded: empty")
    );
    assert_eq!(ApiError::cancel(4, &CancelError::Unknown).code, "unknown_order");
    assert_eq!(ApiError::cancel(4, &CancelError::NotOwner("not yours".into())).status, 403);
    assert_eq!(ApiError::cancel(4, &CancelError::Other("odd".into())).status, 400);
    assert_eq!(ApiError::rate_limited(3).retry_after_secs, Some(3));
    assert_eq!(ApiError::unauthenticated().status, 401);
    assert_eq!(ApiError::unknown_stop(2).message, "no stop 2 is being held for that trader (it may have fired)");
}
