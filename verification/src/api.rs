//! What a request is answered with when it is refused, and who may ask for
//! what.

use vstd::prelude::*;

use crate::account::{AccountId, MoneyError, UserId};
use crate::ledger::LedgerError;
use crate::market::Market;
use crate::payouts::{DelistError, PayoutError};
use crate::placing::{Closed, OrderCheck, PlaceError};
use crate::text::{
    comma_list, contains_char, copy_text, decimal, eq_ignoring_case, lemma_split, opt_text, push_i64, push_list,
    push_u64, push_usize, quoted, quoted_text, same_ignoring_case, same_text, signed_decimal, split_at_first,
    split_once, trim, trimmed,
};
use crate::trading::{OrderStatus, Refused, TraderId, MAX_CLIENT_ORDER_ID};

verus! {

/// A refusal, as the client sees it: a status, a code and a sentence.
#[derive(Debug)]
pub struct ApiError {
    pub status: u16,
    pub code: &'static str,
    pub message: String,
    /// Seconds for a `Retry-After` header, when the answer is "later".
    pub retry_after_secs: Option<u64>,
}

impl ApiError {
    /// The refusal says this, and not when to try again.
    pub open spec fn says(self, status: u16, code: Seq<char>, message: Seq<char>) -> bool {
        &&& self.status == status
        &&& self.code@ == code
        &&& self.message@ == message
        &&& self.retry_after_secs is None
    }

    /// A refusal with its own words.
    pub fn new(status: u16, code: &'static str, message: String) -> (e: Self)
        ensures
            e.says(status, code@, message@),
            e == (ApiError { status, code, message, retry_after_secs: None }),
    {
        ApiError { status, code, message, retry_after_secs: None }
    }

    /// The client is changing things faster than the server will take.
    pub fn rate_limited(secs: u64) -> (e: Self)
        ensures
            e.status == 429,
            e.code@ == "rate_limited"@,
            e.message@ == "too many requests: this server takes changes at `FEHU_RATE_PER_SEC`. Try again in "@
                + decimal(secs as nat) + "s"@,
            e.retry_after_secs == Some(secs),
    {
        let mut text =
            "too many requests: this server takes changes at `FEHU_RATE_PER_SEC`. Try again in ".to_owned();
        push_u64(&mut text, secs);
        text.append("s");
        ApiError { status: 429, code: "rate_limited", message: text, retry_after_secs: Some(secs) }
    }

    /// No symbol by that name is listed.
    pub fn not_found(symbol: &str) -> (e: Self)
        ensures
            e.says(404, "unknown_symbol"@, "no such symbol: "@ + symbol@),
    {
        let mut text = "no such symbol: ".to_owned();
        text.append(symbol);
        ApiError::new(404, "unknown_symbol", text)
    }

    /// The request does not make sense.
    pub fn bad_request(message: &str) -> (e: Self)
        ensures
            e.says(400, "bad_request"@, message@),
    {
        ApiError::new(400, "bad_request", message.to_owned())
    }

    /// The event does not make sense.
    pub fn invalid_event(message: &str) -> (e: Self)
        ensures
            e.says(422, "invalid_event"@, message@),
    {
        ApiError::new(422, "invalid_event", message.to_owned())
    }

    /// The body could not be read.
    pub fn bad_json(message: &str) -> (e: Self)
        ensures
            e.says(400, "bad_json"@, message@),
    {
        ApiError::new(400, "bad_json", message.to_owned())
    }

    /// The request clashes with what is there.
    pub fn conflict(message: &str) -> (e: Self)
        ensures
            e.says(409, "conflict"@, message@),
    {
        ApiError::new(409, "conflict", message.to_owned())
    }

    /// Something went wrong that the client can do nothing about.
    pub fn internal(message: &str) -> (e: Self)
        ensures
            e.says(500, "internal"@, message@),
    {
        ApiError::new(500, "internal", message.to_owned())
    }

    /// An obligation the issuer cannot meet.
    pub fn payout_not_funded(message: &str) -> (e: Self)
        ensures
            e.says(422, "payout_not_funded"@, message@),
    {
        ApiError::new(422, "payout_not_funded", message.to_owned())
    }

    /// The journal no longer takes entries, so nothing can be promised.
    pub fn journal_broken(why: &str) -> (e: Self)
        ensures
            e.says(503, "journal_broken"@, "the journal stopped taking entries: "@ + why@),
    {
        let mut text = "the journal stopped taking entries: ".to_owned();
        text.append(why);
        ApiError::new(503, "journal_broken", text)
    }

    /// The same key over a different request.
    pub fn idempotency_conflict(key: &str) -> (e: Self)
        ensures
            e.says(
                409,
                "idempotency_conflict"@,
                "idempotency key "@ + quoted_text(key@) + " was already used for a different request"@,
            ),
    {
        let mut text = "idempotency key ".to_owned();
        text.append(quoted(key).as_str());
        text.append(" was already used for a different request");
        ApiError::new(409, "idempotency_conflict", text)
    }

    /// No such trader.
    pub fn unknown_trader(id: u64) -> (e: Self)
        ensures
            e.says(404, "unknown_trader"@, "no such trader: "@ + decimal(id as nat)),
    {
        let mut text = "no such trader: ".to_owned();
        push_u64(&mut text, id);
        ApiError::new(404, "unknown_trader", text)
    }

    /// No such order rests.
    pub fn unknown_order(id: u64) -> (e: Self)
        ensures
            e.says(
                404,
                "unknown_order"@,
                "no resting order "@ + decimal(id as nat) + " (it may have filled or been cancelled)"@,
            ),
    {
        let mut text = "no resting order ".to_owned();
        push_u64(&mut text, id);
        text.append(" (it may have filled or been cancelled)");
        ApiError::new(404, "unknown_order", text)
    }

    /// No such stop is held.
    pub fn unknown_stop(id: u64) -> (e: Self)
        ensures
            e.says(
                404,
                "unknown_stop"@,
                "no stop "@ + decimal(id as nat) + " is being held for that trader (it may have fired)"@,
            ),
    {
        let mut text = "no stop ".to_owned();
        push_u64(&mut text, id);
        text.append(" is being held for that trader (it may have fired)");
        ApiError::new(404, "unknown_stop", text)
    }

    /// No such user.
    pub fn unknown_user(id: u64) -> (e: Self)
        ensures
            e.says(404, "unknown_user"@, "no such user: "@ + decimal(id as nat)),
    {
        let mut text = "no such user: ".to_owned();
        push_u64(&mut text, id);
        ApiError::new(404, "unknown_user", text)
    }

    /// No such account.
    pub fn unknown_account(id: u64) -> (e: Self)
        ensures
            e.says(404, "unknown_account"@, "no such account: "@ + decimal(id as nat)),
    {
        let mut text = "no such account: ".to_owned();
        push_u64(&mut text, id);
        ApiError::new(404, "unknown_account", text)
    }

    /// The order does not make sense.
    pub fn invalid_order(message: &str) -> (e: Self)
        ensures
            e.says(422, "invalid_order"@, message@),
    {
        ApiError::new(422, "invalid_order", message.to_owned())
    }

    /// The order would have traded with the trader's own resting order.
    pub fn self_trade(crossing: &Vec<u64>) -> (e: Self)
        ensures
            e.says(
                409,
                "self_trade"@,
                "this would trade with your own resting order(s) ["@ + comma_list(crossing@)
                    + "]: cancel or reprice them first"@,
            ),
    {
        let mut text = "this would trade with your own resting order(s) [".to_owned();
        push_list(&mut text, crossing);
        text.append("]: cancel or reprice them first");
        ApiError::new(409, "self_trade", text)
    }

    /// A post-only order that would have taken liquidity instead of adding it.
    pub fn would_cross(price_cents: i64, best_cents: i64) -> (e: Self)
        ensures
            e.says(
                422,
                "post_only_would_cross"@,
                "a post-only order at "@ + signed_decimal(price_cents as int) + " would trade against "@
                    + signed_decimal(best_cents as int) + " instead of resting"@,
            ),
    {
        let mut text = "a post-only order at ".to_owned();
        push_i64(&mut text, price_cents);
        text.append(" would trade against ");
        push_i64(&mut text, best_cents);
        text.append(" instead of resting");
        ApiError::new(422, "post_only_would_cross", text)
    }

    /// The `client_order_id` was used before, for a different order.
    pub fn duplicate_client_order_id(client_order_id: &str, order_id: u64) -> (e: Self)
        ensures
            e.says(
                409,
                "duplicate_client_order_id"@,
                "client_order_id "@ + quoted_text(client_order_id@) + " was already used for order "@ + decimal(
                    order_id as nat,
                ) + ", which asked for something else"@,
            ),
    {
        let mut text = "client_order_id ".to_owned();
        text.append(quoted(client_order_id).as_str());
        text.append(" was already used for order ");
        push_u64(&mut text, order_id);
        text.append(", which asked for something else");
        ApiError::new(409, "duplicate_client_order_id", text)
    }

    /// No API key on a request that needs one.
    pub fn unauthenticated() -> (e: Self)
        ensures
            e.says(
                401,
                "unauthenticated"@,
                "this endpoint needs the API key the user was created with: send it as `Authorization: Bearer <key>` or `X-Api-Key: <key>`"@,
            ),
    {
        ApiError::new(
            401,
            "unauthenticated",
            "this endpoint needs the API key the user was created with: send it as `Authorization: Bearer <key>` or `X-Api-Key: <key>`".to_owned(),
        )
    }

    /// A key that is not one the server issued.
    pub fn invalid_api_key() -> (e: Self)
        ensures
            e.says(401, "invalid_api_key"@, "that API key is not one this server issued"@),
    {
        ApiError::new(401, "invalid_api_key", "that API key is not one this server issued".to_owned())
    }

    /// A valid key, but for somebody else's property.
    pub fn forbidden(what: &str) -> (e: Self)
        ensures
            e.says(403, "forbidden"@, what@),
    {
        ApiError::new(403, "forbidden", what.to_owned())
    }

    /// The code of a closed market.
    pub open spec fn closed_code(closed: Closed) -> Seq<char> {
        match closed {
            Closed::Session(_) => "market_closed"@,
            Closed::Halted(_) => "symbol_halted"@,
        }
    }

    /// The market will not take an order for this symbol right now.
    pub fn closed(symbol: &str, closed: &Closed) -> (e: Self)
        ensures
            e.says(
                409,
                ApiError::closed_code(*closed),
                symbol@ + ": "@ + closed.words() + ". Orders already resting can still be cancelled."@,
            ),
    {
        let code = match closed {
            Closed::Session(_) => "market_closed",
            Closed::Halted(_) => "symbol_halted",
        };
        let mut text = symbol.to_owned();
        text.append(": ");
        text.append(closed.message().as_str());
        text.append(". Orders already resting can still be cancelled.");
        ApiError::new(409, code, text)
    }

    /// The status and the code of a refused money movement.
    pub open spec fn money_code(e: MoneyError) -> (u16, Seq<char>) {
        match e {
            MoneyError::NotPositive { .. } => (400, "invalid_amount"@),
            MoneyError::TooLarge { .. } => (400, "invalid_amount"@),
            MoneyError::NoWallet { .. } => (500, "internal"@),
            MoneyError::Ledger(LedgerError::Insufficient { .. }) => (422, "insufficient_funds"@),
            MoneyError::Ledger(LedgerError::Status { .. }) => (409, "account_not_active"@),
            MoneyError::Ledger(LedgerError::Closed(_)) => (409, "account_not_active"@),
            MoneyError::Ledger(_) => (422, "ledger_refused"@),
        }
    }

    /// A refused money movement: the amount, the balance or the account's
    /// status made it impossible.
    pub fn money(e: &MoneyError, ledger_words: &str) -> (error: Self)
        ensures
            error.says(ApiError::money_code(*e).0, ApiError::money_code(*e).1, e.words(ledger_words@)),
    {
        let text = e.message(ledger_words);
        match e {
            MoneyError::NotPositive { .. } => ApiError::new(400, "invalid_amount", text),
            MoneyError::TooLarge { .. } => ApiError::new(400, "invalid_amount", text),
            MoneyError::NoWallet { .. } => ApiError::new(500, "internal", text),
            MoneyError::Ledger(LedgerError::Insufficient { .. }) => ApiError::new(422, "insufficient_funds", text),
            MoneyError::Ledger(LedgerError::Status { .. }) => ApiError::new(409, "account_not_active", text),
            MoneyError::Ledger(LedgerError::Closed(_)) => ApiError::new(409, "account_not_active", text),
            MoneyError::Ledger(_) => ApiError::new(422, "ledger_refused", text),
        }
    }

    /// An order the trader's account would not fund.
    pub open spec fn refusal(self, e: Refused, ledger_words: Seq<char>) -> bool {
        if e matches Refused::Account(why) && why.forbidden() {
            self.says(409, "account_not_active"@, e.words(ledger_words))
        } else {
            self.says(422, "order_refused"@, e.words(ledger_words))
        }
    }

    /// An order the trader's account would not fund.
    pub fn refused(e: &Refused, ledger_words: &str) -> (error: Self)
        ensures
            error.refusal(*e, ledger_words@),
    {
        let text = e.message(ledger_words);
        match e {
            Refused::Account(why) => {
                if why.is_forbidden() {
                    return ApiError::new(409, "account_not_active", text);
                }
            },
            _ => {},
        }
        ApiError::new(422, "order_refused", text)
    }

    /// What a submission that was not placed is answered with.
    pub open spec fn unplaced(self, symbol: Seq<char>, e: PlaceError, ledger_words: Seq<char>) -> bool {
        match e {
            PlaceError::UnknownSymbol => self.says(404, "unknown_symbol"@, "no such symbol: "@ + symbol),
            PlaceError::Check(OrderCheck::Invalid(message)) => self.says(422, "invalid_order"@, message@),
            PlaceError::Check(OrderCheck::Closed(closed)) => self.says(
                409,
                ApiError::closed_code(closed),
                symbol + ": "@ + closed.words() + ". Orders already resting can still be cancelled."@,
            ),
            PlaceError::Check(OrderCheck::SelfTrade(ids)) => self.says(
                409,
                "self_trade"@,
                "this would trade with your own resting order(s) ["@ + comma_list(ids@)
                    + "]: cancel or reprice them first"@,
            ),
            PlaceError::Check(OrderCheck::WouldCross { price_cents, best_cents }) => self.says(
                422,
                "post_only_would_cross"@,
                "a post-only order at "@ + signed_decimal(price_cents as int) + " would trade against "@
                    + signed_decimal(best_cents as int) + " instead of resting"@,
            ),
            PlaceError::Check(OrderCheck::UnknownOrder(id)) => self.says(
                404,
                "unknown_order"@,
                "no resting order "@ + decimal(id as nat) + " (it may have filled or been cancelled)"@,
            ),
            PlaceError::Refused(e) => self.refusal(e, ledger_words),
            PlaceError::UnknownTrader(id) => self.says(
                404,
                "unknown_trader"@,
                "no such trader: "@ + decimal(id as nat),
            ),
            PlaceError::Invalid(message) => self.says(422, "invalid_order"@, message@),
            PlaceError::DuplicateClientId { client_order_id, order_id } => self.says(
                409,
                "duplicate_client_order_id"@,
                "client_order_id "@ + quoted_text(client_order_id@) + " was already used for order "@ + decimal(
                    order_id as nat,
                ) + ", which asked for something else"@,
            ),
            PlaceError::Gone => self.says(503, "shutting_down"@, "the symbol has stopped"@),
        }
    }

    /// A submission the market would not place.
    pub fn place(symbol: &str, e: &PlaceError, ledger_words: &str) -> (error: Self)
        ensures
            error.unplaced(symbol@, *e, ledger_words@),
    {
        match e {
            PlaceError::UnknownSymbol => ApiError::not_found(symbol),
            PlaceError::Check(OrderCheck::Invalid(message)) => ApiError::invalid_order(message.as_str()),
            PlaceError::Check(OrderCheck::Closed(closed)) => ApiError::closed(symbol, closed),
            PlaceError::Check(OrderCheck::SelfTrade(ids)) => ApiError::self_trade(ids),
            PlaceError::Check(OrderCheck::WouldCross { price_cents, best_cents }) => ApiError::would_cross(
                *price_cents,
                *best_cents,
            ),
            PlaceError::Check(OrderCheck::UnknownOrder(id)) => ApiError::unknown_order(*id),
            PlaceError::Refused(e) => ApiError::refused(e, ledger_words),
            PlaceError::UnknownTrader(id) => ApiError::unknown_trader(*id),
            PlaceError::Invalid(message) => ApiError::invalid_order(message.as_str()),
            PlaceError::DuplicateClientId { client_order_id, order_id } => ApiError::duplicate_client_order_id(
                client_order_id.as_str(),
                *order_id,
            ),
            PlaceError::Gone => ApiError::new(503, "shutting_down", "the symbol has stopped".to_owned()),
        }
    }

    /// A delisting that did not happen.
    pub fn delist(symbol: &str, e: &DelistError, ledger_words: &str) -> (error: Self)
        ensures
            match *e {
                DelistError::Unknown => error.says(404, "unknown_symbol"@, "no such symbol: "@ + symbol@),
                DelistError::Price => error.says(422, "invalid_event"@, e.words(ledger_words@)),
                DelistError::Unfunded(_) => error.says(422, "payout_not_funded"@, e.words(ledger_words@)),
            },
    {
        match e {
            DelistError::Unknown => ApiError::not_found(symbol),
            DelistError::Price => ApiError::invalid_event(e.message(ledger_words).as_str()),
            DelistError::Unfunded(_) => ApiError::payout_not_funded(e.message(ledger_words).as_str()),
        }
    }

    /// A payout that did not happen.
    pub fn payout(e: &PayoutError, ledger_words: &str) -> (error: Self)
        ensures
            match *e {
                PayoutError::Unfunded(_) => error.says(422, "payout_not_funded"@, e.words(ledger_words@)),
                PayoutError::Gone => error.says(503, "shutting_down"@, e.words(ledger_words@)),
            },
    {
        match e {
            PayoutError::Unfunded(_) => ApiError::payout_not_funded(e.message(ledger_words).as_str()),
            PayoutError::Gone => ApiError::new(503, "shutting_down", e.message(ledger_words)),
        }
    }
}

// ---------------------------------------------------------------------------
// Who is asking

/// The user a request speaks for, proved by their API key.
///
/// Market data needs no key. Everything that belongs to a user does, and a
/// key only ever speaks for the user it was issued to: one player cannot read
/// another's portfolio, move their money or trade on their account.
#[derive(Clone, Copy, Debug)]
pub struct Caller(pub UserId);

/// The game master: whoever may push events into the simulation. Open unless
/// an admin key is set.
#[derive(Clone, Copy, Debug)]
pub struct Admin;

/// The key an `Authorization` header carries, if its scheme is `Bearer` in
/// whatever case.
pub open spec fn bearer(header: Option<Seq<char>>) -> Option<Seq<char>> {
    match header {
        Some(value) => match split_at_first(value, ' ') {
            Some((scheme, key)) => if same_ignoring_case(scheme, "bearer"@) {
                Some(key)
            } else {
                None
            },
            None => None,
        },
        None => None,
    }
}

/// The API key a request carries: `Authorization: Bearer <key>`, or else
/// `X-Api-Key`; trimmed, and absent where nothing is left of it.
pub open spec fn key_carried(authorization: Option<Seq<char>>, x_api_key: Option<Seq<char>>) -> Option<Seq<char>> {
    let key = match bearer(authorization) {
        Some(key) => Some(key),
        None => x_api_key,
    };
    match key {
        Some(key) => if trimmed(key).len() == 0 {
            None
        } else {
            Some(trimmed(key))
        },
        None => None,
    }
}

/// The API key a request carries, as `Authorization: Bearer <key>` or
/// `X-Api-Key`.
pub fn api_key_of_headers(authorization: &Option<String>, x_api_key: &Option<String>) -> (r: Option<String>)
    ensures
        opt_text(r) == key_carried(opt_text(*authorization), opt_text(*x_api_key)),
{
    let mut key: Option<String> = None;
    match authorization {
        Some(value) => match split_once(value.as_str(), ' ') {
            Some((scheme, rest)) => {
                if eq_ignoring_case(scheme.as_str(), "bearer") {
                    key = Some(rest);
                }
            },
            None => {},
        },
        None => {},
    }
    let key: Option<String> = match key {
        Some(key) => Some(key),
        None => copy_text(x_api_key),
    };
    match key {
        Some(key) => {
            let key = trim(key.as_str());
            if key.as_str().unicode_len() == 0 {
                None
            } else {
                Some(key)
            }
        },
        None => None,
    }
}

/// Compare two secrets without giving their common prefix away in the time
/// taken: every byte is looked at, whatever the ones before it said.
pub fn constant_time_eq(a: &str, b: &str) -> (r: bool)
    ensures
        r == (a@ == b@),
{
    let x: Vec<u8> = a.as_bytes_vec();
    let y: Vec<u8> = b.as_bytes_vec();
    proof {
        vstd::utf8::encode_utf8_decode_utf8(a@);
        vstd::utf8::encode_utf8_decode_utf8(b@);
    }
    if x.len() != y.len() {
        return false;
    }
    let mut differs: u8 = 0;
    let mut i: usize = 0;
    proof {
        assert(x@.take(0) =~= y@.take(0));
    }
    while i < x.len()
        invariant
            x@.len() == y@.len(),
            i <= x.len(),
            differs == 0 <==> x@.take(i as int) == y@.take(i as int),
        decreases x.len() - i,
    {
        let p: u8 = x[i];
        let q: u8 = y[i];
        proof {
            assert((differs | (p ^ q)) == 0 <==> differs == 0 && p == q) by (bit_vector);
            let xs = x@.take(i as int + 1);
            let ys = y@.take(i as int + 1);
            assert(xs =~= x@.take(i as int).push(p));
            assert(ys =~= y@.take(i as int).push(q));
            if xs == ys {
                assert(xs.drop_last() =~= x@.take(i as int));
                assert(ys.drop_last() =~= y@.take(i as int));
                assert(xs.last() == ys.last());
            }
        }
        differs = differs | (p ^ q);
        i = i + 1;
    }
    proof {
        assert(x@.take(x@.len() as int) =~= x@);
        assert(y@.take(y@.len() as int) =~= y@);
    }
    differs == 0
}

/// Whether a request with this key may act as the game master.
pub fn check_admin(expected: &Option<String>, key: &Option<String>) -> (r: Result<Admin, ApiError>)
    ensures
        match *expected {
            None => r is Ok,
            Some(secret) => match *key {
                None => r matches Err(e) && e.says(
                    401,
                    "unauthenticated"@,
                    "this endpoint needs the API key the user was created with: send it as `Authorization: Bearer <key>` or `X-Api-Key: <key>`"@,
                ),
                Some(given) => if given@ == secret@ {
                    r is Ok
                } else {
                    r matches Err(e) && e.says(
                        401,
                        "invalid_api_key"@,
                        "that API key is not one this server issued"@,
                    )
                },
            },
        },
{
    match expected {
        None => Ok(Admin),
        Some(secret) => match key {
            None => Err(ApiError::unauthenticated()),
            Some(given) => if constant_time_eq(given.as_str(), secret.as_str()) {
                Ok(Admin)
            } else {
                Err(ApiError::invalid_api_key())
            },
        },
    }
}

/// The caller owns `trader`.
pub fn owned_trader(market: &Market, caller: Caller, trader: TraderId) -> (r: Result<(), ApiError>)
    requires
        market.wf(),
    ensures
        if !market.traders.map().contains_key(trader.0) {
            r matches Err(e) && e.says(404, "unknown_trader"@, "no such trader: "@ + decimal(trader.0 as nat))
        } else if market.traders.map()[trader.0].user_id == caller.0 {
            r is Ok
        } else {
            r matches Err(e) && e.says(
                403,
                "forbidden"@,
                "trader "@ + decimal(trader.0 as nat) + " belongs to another user"@,
            )
        },
{
    match market.traders.get(&trader.0) {
        None => Err(ApiError::unknown_trader(trader.0)),
        Some(held) => if held.user_id == caller.0 {
            Ok(())
        } else {
            let mut text = "trader ".to_owned();
            push_u64(&mut text, trader.0);
            text.append(" belongs to another user");
            Err(ApiError::forbidden(text.as_str()))
        },
    }
}

/// The caller owns `account`.
pub fn owned_account(market: &Market, caller: Caller, account: AccountId) -> (r: Result<(), ApiError>)
    requires
        market.wf(),
    ensures
        if !market.accounts.map().contains_key(account.0) {
            r matches Err(e) && e.says(404, "unknown_account"@, "no such account: "@ + decimal(account.0 as nat))
        } else if market.accounts.map()[account.0].user_id == caller.0 {
            r is Ok
        } else {
            r matches Err(e) && e.says(
                403,
                "forbidden"@,
                "account "@ + decimal(account.0 as nat) + " belongs to another user"@,
            )
        },
{
    match market.accounts.get(&account.0) {
        None => Err(ApiError::unknown_account(account.0)),
        Some(held) => if held.user_id == caller.0 {
            Ok(())
        } else {
            let mut text = "account ".to_owned();
            push_u64(&mut text, account.0);
            text.append(" belongs to another user");
            Err(ApiError::forbidden(text.as_str()))
        },
    }
}

/// The caller is `user` themselves.
pub fn owned_user(caller: Caller, user: UserId) -> (r: Result<(), ApiError>)
    ensures
        if caller.0 == user {
            r is Ok
        } else {
            r matches Err(e) && e.says(403, "forbidden"@, "user "@ + decimal(user.0 as nat) + " is somebody else"@)
        },
{
    if caller.0 == user {
        Ok(())
    } else {
        let mut text = "user ".to_owned();
        push_u64(&mut text, user.0);
        text.append(" is somebody else");
        Err(ApiError::forbidden(text.as_str()))
    }
}

// ---------------------------------------------------------------------------
// What requests carry

/// A trimmed text looks like an email address: something, an `@`, and a
/// domain with a dot in it but not in front.
pub open spec fn looks_like_email(email: Seq<char>) -> bool {
    match split_at_first(email, '@') {
        Some((local, domain)) => local.len() > 0 && domain.contains('.') && domain[0] != '.',
        None => false,
    }
}

/// An email is optional, but if given it has to look like one.
pub fn check_email(email: &Option<String>) -> (r: Result<Option<String>, ApiError>)
    ensures
        match *email {
            None => r == Ok::<Option<String>, ApiError>(None),
            Some(given) => {
                let email = trimmed(given@);
                if email.len() == 0 {
                    r == Ok::<Option<String>, ApiError>(None)
                } else if looks_like_email(email) {
                    r matches Ok(Some(text)) && text@ == email
                } else {
                    r matches Err(e) && e.says(
                        400,
                        "bad_request"@,
                        "`email` does not look like an address: "@ + email,
                    )
                }
            },
        },
{
    let email = match email {
        None => {
            return Ok(None);
        },
        Some(email) => trim(email.as_str()),
    };
    if email.as_str().unicode_len() == 0 {
        return Ok(None);
    }
    match split_once(email.as_str(), '@') {
        Some((local, domain)) => {
            if local.as_str().unicode_len() > 0 && contains_char(domain.as_str(), '.') {
                if domain.as_str().get_char(0) != '.' {
                    return Ok(Some(email));
                }
            }
        },
        None => {},
    }
    let mut text = "`email` does not look like an address: ".to_owned();
    text.append(email.as_str());
    Err(ApiError::bad_request(text.as_str()))
}

/// Trim a caller-supplied `client_order_id`; an empty one counts as absent.
pub fn clean_client_order_id(value: &Option<String>) -> (r: Result<Option<String>, ApiError>)
    ensures
        match *value {
            None => r == Ok::<Option<String>, ApiError>(None),
            Some(given) => {
                let id = trimmed(given@);
                if id.len() == 0 {
                    r == Ok::<Option<String>, ApiError>(None)
                } else if id.len() > MAX_CLIENT_ORDER_ID {
                    r matches Err(e) && e.says(
                        400,
                        "bad_request"@,
                        "client_order_id is longer than "@ + decimal(MAX_CLIENT_ORDER_ID as nat) + " characters"@,
                    )
                } else {
                    r matches Ok(Some(text)) && text@ == id
                }
            },
        },
{
    let id = match value {
        None => {
            return Ok(None);
        },
        Some(value) => trim(value.as_str()),
    };
    if id.as_str().unicode_len() == 0 {
        return Ok(None);
    }
    if id.as_str().unicode_len() > MAX_CLIENT_ORDER_ID {
        let mut text = "client_order_id is longer than ".to_owned();
        push_usize(&mut text, MAX_CLIENT_ORDER_ID);
        text.append(" characters");
        return Err(ApiError::bad_request(text.as_str()));
    }
    Ok(Some(id))
}

/// The width of a bar.
#[derive(Clone, Copy, Debug, PartialEq, Eq, Structural)]
pub enum Interval {
    M1,
    M5,
    H1,
    D1,
}

impl Interval {
    /// The width by its name, in either order and whatever case.
    pub open spec fn called(self, name: Seq<char>) -> bool {
        match self {
            Interval::M1 => same_ignoring_case(name, "M1"@) || same_ignoring_case(name, "1M"@),
            Interval::M5 => same_ignoring_case(name, "M5"@) || same_ignoring_case(name, "5M"@),
            Interval::H1 => same_ignoring_case(name, "H1"@) || same_ignoring_case(name, "1H"@),
            Interval::D1 => same_ignoring_case(name, "D1"@) || same_ignoring_case(name, "1D"@),
        }
    }
}

/// The width of a bar by its name: `M1` or `1m`, `M5`, `H1`, `D1`.
pub fn parse_interval(s: &str) -> (r: Option<Interval>)
    ensures
        match r {
            Some(interval) => interval.called(s@),
            None => !Interval::M1.called(s@) && !Interval::M5.called(s@) && !Interval::H1.called(s@)
                && !Interval::D1.called(s@),
        },
{
    if eq_ignoring_case(s, "M1") || eq_ignoring_case(s, "1M") {
        Some(Interval::M1)
    } else if eq_ignoring_case(s, "M5") || eq_ignoring_case(s, "5M") {
        Some(Interval::M5)
    } else if eq_ignoring_case(s, "H1") || eq_ignoring_case(s, "1H") {
        Some(Interval::H1)
    } else if eq_ignoring_case(s, "D1") || eq_ignoring_case(s, "1D") {
        Some(Interval::D1)
    } else {
        None
    }
}

/// The orders a history asks for: `resting`, `filled` or `cancelled`, and
/// every one where nothing is said.
pub fn parse_order_status(status: &Option<String>) -> (r: Result<Option<OrderStatus>, ApiError>)
    ensures
        match *status {
            None => r == Ok::<Option<OrderStatus>, ApiError>(None),
            Some(s) => if s@ == "resting"@ || s@ == "open"@ || s@ == "live"@ {
                r == Ok::<Option<OrderStatus>, ApiError>(Some(OrderStatus::Resting))
            } else if s@ == "filled"@ {
                r == Ok::<Option<OrderStatus>, ApiError>(Some(OrderStatus::Filled))
            } else if s@ == "cancelled"@ || s@ == "canceled"@ {
                r == Ok::<Option<OrderStatus>, ApiError>(Some(OrderStatus::Cancelled))
            } else {
                r matches Err(e) && e.says(
                    400,
                    "bad_request"@,
                    "unknown status "@ + quoted_text(s@) + ": use resting, filled or cancelled"@,
                )
            },
        },
{
    let s = match status {
        None => {
            return Ok(None);
        },
        Some(s) => s.as_str(),
    };
    if same_text(s, "resting") || same_text(s, "open") || same_text(s, "live") {
        Ok(Some(OrderStatus::Resting))
    } else if same_text(s, "filled") {
        Ok(Some(OrderStatus::Filled))
    } else if same_text(s, "cancelled") || same_text(s, "canceled") {
        Ok(Some(OrderStatus::Cancelled))
    } else {
        let mut text = "unknown status ".to_owned();
        text.append(quoted(s).as_str());
        text.append(": use resting, filled or cancelled");
        Err(ApiError::bad_request(text.as_str()))
    }
}

/// How many rows a list answers with: what was asked for or the default, at
/// least one and at most `most`.
pub fn page_size(asked: Option<usize>, default: usize, most: usize) -> (n: usize)
    requires
        most >= 1,
    ensures
        n == ({
            let wanted = match asked {
                Some(n) => n,
                None => default,
            };
            if wanted < 1 {
                1
            } else if wanted > most {
                most
            } else {
                wanted
            }
        }),
{
    let wanted: usize = match asked {
        Some(n) => n,
        None => default,
    };
    if wanted < 1 {
        1
    } else if wanted > most {
        most
    } else {
        wanted
    }
}

/// Why a resting order was not withdrawn.
#[derive(Debug)]
pub enum CancelError {
    /// It does not rest.
    Unknown,
    /// It is somebody else's, in words.
    NotOwner(String),
    /// Anything else, in words.
    Other(String),
}

impl ApiError {
    /// A cancellation that did not happen.
    pub fn cancel(order_id: u64, e: &CancelError) -> (error: Self)
        ensures
            match *e {
                CancelError::Unknown => error.says(
                    404,
                    "unknown_order"@,
                    "no resting order "@ + decimal(order_id as nat) + " (it may have filled or been cancelled)"@,
                ),
                CancelError::NotOwner(text) => error.says(403, "not_owner"@, text@),
                CancelError::Other(text) => error.says(400, "bad_request"@, text@),
            },
    {
        match e {
            CancelError::Unknown => ApiError::unknown_order(order_id),
            CancelError::NotOwner(text) => ApiError::new(403, "not_owner", text.clone()),
            CancelError::Other(text) => ApiError::bad_request(text.as_str()),
        }
    }
}

/// A key that is sent as a bearer is the one that counts, whatever else is
/// sent; the other header counts only where there is no bearer. Either way the
/// key is what is left without the blanks around it.
pub proof fn law_a_bearers_key_comes_first(
    scheme: Seq<char>,
    key: Seq<char>,
    authorization: Option<String>,
    x_api_key: Option<String>,
    r: Option<String>,
)
    requires
        call_ensures(api_key_of_headers, (&authorization, &x_api_key), r),
        !scheme.contains(' '),
    ensures
        opt_text(authorization) == Some(scheme.push(' ') + key) && same_ignoring_case(scheme, "bearer"@) ==> opt_text(r)
            == (if trimmed(key).len() == 0 {
            None
        } else {
            Some(trimmed(key))
        }),
        opt_text(authorization) == Some(scheme.push(' ') + key) && !same_ignoring_case(scheme, "bearer"@) || opt_text(
            authorization,
        ) == Some(scheme) || authorization is None ==> opt_text(r) == (match opt_text(x_api_key) {
            Some(other) => if trimmed(other).len() == 0 {
                None
            } else {
                Some(trimmed(other))
            },
            None => None,
        }),
{
    if opt_text(authorization) == Some(scheme.push(' ') + key) {
        let value = scheme.push(' ') + key;
        lemma_split(value, ' ');
        assert(value[scheme.len() as int] == ' ');
        let parts = split_at_first(value, ' ')->0;
        if parts.0.len() < scheme.len() {
            assert(value[parts.0.len() as int] == ' ');
            assert(scheme[parts.0.len() as int] == ' ');
        }
        if parts.0.len() > scheme.len() {
            assert(parts.0[scheme.len() as int] == value[scheme.len() as int]);
        }
        assert(parts.0 =~= scheme) by {
            assert forall|i: int| 0 <= i < scheme.len() implies parts.0[i] == scheme[i] by {
                assert(value[i] == scheme[i]);
                assert((parts.0.push(' ') + parts.1)[i] == parts.0[i]);
            }
        }
        assert(parts.1 =~= key) by {
            assert forall|i: int| 0 <= i < key.len() implies parts.1[i] == key[i] by {
                assert(value[scheme.len() + 1 + i] == key[i]);
                assert((parts.0.push(' ') + parts.1)[scheme.len() + 1 + i] == parts.1[i]);
            }
        }
    }
    if opt_text(authorization) == Some(scheme) {
        lemma_split(scheme, ' ');
    }
}

/// An administrator is whoever carries the administrator's key, and everybody
/// where there is none.
pub proof fn law_an_administrator_has_the_key(expected: Option<String>, key: Option<String>, r: Result<Admin, ApiError>)
    requires
        call_ensures(check_admin, (&expected, &key), r),
    ensures
        r is Ok <==> (expected is None || (key is Some && (key->0)@ == (expected->0)@)),
        r matches Err(e) ==> e.status == 401,
{
}

/// What belongs to somebody is theirs and nobody else's to use: of one trader,
/// account or user, no two callers own it.
pub proof fn law_nobody_shares_what_is_owned(
    market: Market,
    one: Caller,
    other: Caller,
    trader: TraderId,
    account: AccountId,
    user: UserId,
    a: Result<(), ApiError>,
    b: Result<(), ApiError>,
    c: Result<(), ApiError>,
    d: Result<(), ApiError>,
    e: Result<(), ApiError>,
    f: Result<(), ApiError>,
)
    requires
        market.wf(),
        one.0 != other.0,
        call_ensures(owned_trader, (&market, one, trader), a),
        call_ensures(owned_trader, (&market, other, trader), b),
        call_ensures(owned_account, (&market, one, account), c),
        call_ensures(owned_account, (&market, other, account), d),
        call_ensures(owned_user, (one, user), e),
        call_ensures(owned_user, (other, user), f),
    ensures
        a is Err || b is Err,
        c is Err || d is Err,
        e is Err || f is Err,
        a is Ok ==> market.traders.map().contains_key(trader.0) && market.traders.map()[trader.0].user_id == one.0,
        c is Ok ==> market.accounts.map().contains_key(account.0) && market.accounts.map()[account.0].user_id == one.0,
        market.traders.map().contains_key(trader.0) && market.traders.map()[trader.0].user_id == one.0 ==> a is Ok,
        market.accounts.map().contains_key(account.0) && market.accounts.map()[account.0].user_id == one.0 ==> c is Ok,
        e is Ok <==> one.0 == user,
{
}

/// An address is taken where it has something before its first at-sign, and
/// after it a domain with a dot in it that does not come first.
pub proof fn law_an_address_has_a_name_and_a_domain(email: String, r: Result<Option<String>, ApiError>)
    requires
        call_ensures(check_email, (&Some(email),), r),
        trimmed(email@).len() > 0,
    ensures
        r matches Ok(found) ==> found is Some && (found->0)@ == trimmed(email@),
        r is Ok <==> {
            let parts = split_at_first(trimmed(email@), '@');
            &&& trimmed(email@).contains('@')
            &&& (parts->0).0.len() > 0
            &&& (parts->0).1.contains('.')
            &&& (parts->0).1[0] != '.'
        },
{
    lemma_split(trimmed(email@), '@');
}

/// A client's name for an order is taken without the blanks around it, up to
/// its longest.
pub proof fn law_a_clients_name_is_short(value: String, r: Result<Option<String>, ApiError>)
    requires
        call_ensures(clean_client_order_id, (&Some(value),), r),
    ensures
        r is Ok <==> trimmed(value@).len() <= MAX_CLIENT_ORDER_ID,
        r matches Ok(Some(id)) ==> id@ == trimmed(value@) && 0 < id@.len() <= MAX_CLIENT_ORDER_ID,
        r matches Ok(None) ==> trimmed(value@).len() == 0,
{
}

/// A page is as long as was asked for, but never empty and never longer than
/// it may be.
pub proof fn law_a_page_is_as_long_as_asked(asked: Option<usize>, default: usize, most: usize, n: usize)
    requires
        most >= 1,
        call_ensures(page_size, (asked, default, most), n),
    ensures
        1 <= n <= most,
        asked matches Some(wanted) ==> (1 <= wanted <= most ==> n == wanted),
        asked is None && 1 <= default <= most ==> n == default,
        asked matches Some(wanted) ==> (wanted > most ==> n == most),
        asked == Some(0usize) ==> n == 1,
{
}

/// Money that cannot be moved is answered for why: an amount that is none, a
/// balance too small, or an account that may not pay.
pub proof fn law_a_money_error_is_answered_for_why(e: MoneyError, words: &str, error: ApiError)
    requires
        call_ensures(ApiError::money, (&e, words), error),
    ensures
        error.status == 400 <==> e is NotPositive || e is TooLarge,
        error.status == 500 <==> e is NoWallet,
        error.status == 409 <==> (e matches MoneyError::Ledger(why) && (why is Status || why is Closed)),
        error.status == 422 <==> (e matches MoneyError::Ledger(why) && !(why is Status || why is Closed)),
        (e matches MoneyError::Ledger(why) && why is Insufficient) <==> error.status == 422 && error.code@
            == "insufficient_funds"@,
        error.retry_after_secs is None,
{
    reveal_strlit("insufficient_funds");
    reveal_strlit("ledger_refused");
    assert("insufficient_funds"@.len() != "ledger_refused"@.len());
}

/// An order that could not be placed is answered for why: what is not there is
/// not found, what stands against it is a conflict, and what cannot be taken
/// is refused.
pub proof fn law_an_unplaced_order_is_answered_for_why(symbol: &str, e: PlaceError, words: &str, error: ApiError)
    requires
        call_ensures(ApiError::place, (symbol, &e, words), error),
    ensures
        error.status == 404 <==> e is UnknownSymbol || e is UnknownTrader || (e matches PlaceError::Check(why)
            && why is UnknownOrder),
        error.status == 503 <==> e is Gone,
        error.status == 409 <==> e is DuplicateClientId || (e matches PlaceError::Check(why) && (why is Closed
            || why is SelfTrade)) || (e matches PlaceError::Refused(Refused::Account(why)) && why.forbidden()),
        error.status == 422 || error.status == 404 || error.status == 409 || error.status == 503,
{
}

} // verus!
