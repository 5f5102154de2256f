//! What each command of the journal does: what is checked before anything
//! changes, and what is then asked of the market and its symbols.
//!
//! Every path checks before it changes, so a refused command leaves nothing
//! behind.

use vstd::prelude::*;

use crate::account::{AccountId, AccountStatus, LedgerKind, UserId};
use crate::api::{owned_account, ApiError, Caller};
use crate::events::{EventRecord, GameEventKind, Prepared, Real, Scope, SimEvent, Timing, SIZE_OF_ONE};
use crate::jobs::lemma_filtered;
use crate::journal::{
    answered, law_a_remembered_key_is_answered, remember, remembered, under_key, Command, CommandLog, CommandRecord,
    Journal, JournalEntry, Listing, Written,
};
use crate::ledger::WalletId;
use crate::listings::Listings;
use crate::market::{Ask, Market, Movement};
use crate::num::max_int;
use crate::payouts::{Delisting, Dividend};
use crate::placing::{Amendment, PlaceRequest};
use crate::text::{decimal, push_i64, push_u64, push_usize, same_ignoring_case, signed_decimal};
use crate::trading::{Order, Owner, StopRequest, Trader, TraderId};

verus! {

/// A command that passed its checks, as what is to be done.
#[derive(Debug)]
pub enum Plan {
    /// Register a user.
    CreateUser { name: Option<String>, email: Option<String>, key_digest: String },
    /// Open an account for a user.
    OpenAccount { user: UserId, name: Option<String>, cash_cents: i64 },
    /// A user, an account and a trader in one.
    SignUp { name: Option<String>, email: Option<String>, cash_cents: i64, key_digest: String },
    /// A trader on an account that is there.
    JoinAccount { user: UserId, account: AccountId, name: Option<String> },
    /// A trader on an account that is opened for it.
    JoinUser { user: UserId, name: Option<String>, cash_cents: i64 },
    /// Currency created or destroyed.
    Move { movement: Movement },
    /// Withdraw what these traders have outstanding, then freeze the wallet.
    Freeze { account: AccountId, wallet: WalletId, traders: Vec<TraderId> },
    /// Let the wallet move money again.
    Unfreeze { account: AccountId, wallet: WalletId },
    /// Close the wallet for good.
    Close { account: AccountId, wallet: WalletId },
    /// Send an order to a symbol.
    Place { symbol: String, trader: TraderId, request: PlaceRequest },
    /// Replace a resting order.
    Amend { symbol: String, trader: TraderId, amendment: Amendment },
    /// Withdraw a resting order.
    Cancel { symbol: String, trader: TraderId, order_id: u64 },
    /// Withdraw every resting order of a trader's.
    CancelAll { trader: TraderId },
    /// Hold a stop.
    Stop { symbol: String, stop: StopRequest },
    /// Withdraw a stop.
    CancelStop { symbol: String, trader: TraderId, stop_id: u64 },
    /// List a symbol.
    List { listing: Listing },
    /// Delist a symbol.
    Delist { symbol: String, cents_per_share: Option<i64>, source: String, note: Option<String> },
    /// Pay a dividend.
    Dividend { symbol: String, cents_per_share: i64, source: String, note: Option<String> },
    /// Stop trading in a symbol.
    Halt { symbol: String },
    /// Start it again.
    Resume { symbol: String },
    /// Push an event at a symbol.
    Push { symbol: String, event: SimEvent, source: String, note: Option<String> },
    /// Push a game event at these symbols.
    Play { kind: GameEventKind, magnitude: Real, symbols: Vec<String>, source: String, note: Option<String> },
    /// Advance every symbol.
    Step,
}

/// What a delisting undid, and the event it was recorded as.
#[derive(Debug)]
pub struct DelistResponse {
    pub delisting: Delisting,
    pub event: EventRecord,
}

/// What a dividend paid, and the event it was recorded as.
#[derive(Debug)]
pub struct DividendResponse {
    pub dividend: Dividend,
    pub event: EventRecord,
}

/// What a command did, on its way back out.
#[derive(Debug)]
pub struct Outcome {
    pub status: u16,
    /// The response as it is sent.
    pub body: String,
    /// The journal sequence the command was written at.
    pub seq: u64,
    /// This is the recorded answer to a command that already ran.
    pub replayed: bool,
}

/// The name a symbol is listed under.
pub open spec fn listed_as(listings: &Listings, ticker: Seq<char>, name: String) -> bool {
    exists|i: int| #[trigger] listings.first_at(i, ticker) && name == listings.tickers@[i]
}

/// The symbol is not listed, and this says so.
pub open spec fn unlisted(listings: &Listings, ticker: Seq<char>, e: ApiError) -> bool {
    !listings.lists(ticker) && e.says(404, "unknown_symbol"@, "no such symbol: "@ + ticker)
}

/// The name `ticker` is listed under.
fn listed(market: &Market, ticker: &str) -> (r: Result<String, ApiError>)
    ensures
        match r {
            Ok(name) => listed_as(&market.listings, ticker@, name),
            Err(e) => unlisted(&market.listings, ticker@, e),
        },
{
    match market.listings.get(ticker) {
        Some(name) => Ok(name.clone()),
        None => Err(ApiError::not_found(ticker)),
    }
}

/// What adding a trader comes to.
pub open spec fn joins(
    market: &Market,
    caller: Option<u64>,
    user_id: Option<u64>,
    account_id: Option<u64>,
    name: Option<String>,
    email: Option<String>,
    cash_cents: i64,
    key_digest: Option<String>,
    r: Result<Plan, ApiError>,
) -> bool {
    match (user_id, account_id) {
        (None, None) => match key_digest {
            Some(key_digest) => r == Ok::<Plan, ApiError>(Plan::SignUp { name, email, cash_cents, key_digest }),
            None => r matches Err(e) && e.says(500, "internal"@, "a sign-up needs a key digest to install"@),
        },
        (None, Some(_)) => r matches Err(e) && e.says(
            400,
            "bad_request"@,
            "`account_id` needs the `user_id` that owns it"@,
        ),
        (Some(user), account_id) => if !market.users.map().contains_key(user) {
            r matches Err(e) && e.says(404, "unknown_user"@, "no such user: "@ + decimal(user as nat))
        } else if caller != Some(user) {
            r matches Err(e) && e.says(403, "forbidden"@, "that user is not yours"@)
        } else {
            match account_id {
                None => r == Ok::<Plan, ApiError>(Plan::JoinUser { user: UserId(user), name, cash_cents }),
                Some(account) => if !market.accounts.map().contains_key(account) {
                    r matches Err(e) && e.says(
                        404,
                        "unknown_account"@,
                        "no such account: "@ + decimal(account as nat),
                    )
                } else if market.accounts.map()[account].user_id != UserId(user) {
                    r matches Err(e) && e.says(
                        400,
                        "bad_request"@,
                        "account "@ + decimal(account as nat) + " belongs to user "@ + decimal(
                            market.accounts.map()[account].user_id.0 as nat,
                        ),
                    )
                } else {
                    r == Ok::<Plan, ApiError>(
                        Plan::JoinAccount { user: UserId(user), account: AccountId(account), name },
                    )
                },
            }
        },
    }
}

/// Decide what adding a trader comes to: a sign-up, or a trader on a user
/// that is the caller's own.
fn join(
    market: &Market,
    caller: Option<u64>,
    user_id: Option<u64>,
    account_id: Option<u64>,
    name: Option<String>,
    email: Option<String>,
    cash_cents: i64,
    key_digest: Option<String>,
) -> (r: Result<Plan, ApiError>)
    requires
        market.wf(),
    ensures
        joins(market, caller, user_id, account_id, name, email, cash_cents, key_digest, r),
{
    let user: u64 = match user_id {
        None => match account_id {
            None => match key_digest {
                Some(key_digest) => {
                    return Ok(Plan::SignUp { name, email, cash_cents, key_digest });
                },
                None => {
                    return Err(ApiError::internal("a sign-up needs a key digest to install"));
                },
            },
            Some(_) => {
                return Err(ApiError::bad_request("`account_id` needs the `user_id` that owns it"));
            },
        },
        Some(user) => user,
    };
    if !market.users.contains_key(&user) {
        return Err(ApiError::unknown_user(user));
    }
    // Joining an existing user is that user's business alone.
    let own: bool = match caller {
        Some(caller) => caller == user,
        None => false,
    };
    if !own {
        return Err(ApiError::forbidden("that user is not yours"));
    }
    let account: u64 = match account_id {
        None => {
            return Ok(Plan::JoinUser { user: UserId(user), name, cash_cents });
        },
        Some(account) => account,
    };
    match market.accounts.get(&account) {
        None => Err(ApiError::unknown_account(account)),
        Some(held) => if held.user_id.0 != user {
            let mut text = "account ".to_owned();
            push_u64(&mut text, account);
            text.append(" belongs to user ");
            push_u64(&mut text, held.user_id.0);
            Err(ApiError::bad_request(text.as_str()))
        } else {
            Ok(Plan::JoinAccount { user: UserId(user), account: AccountId(account), name })
        },
    }
}

/// What creating or destroying currency in an account comes to.
pub open spec fn mints(
    market: &Market,
    account: AccountId,
    cents: i64,
    memo: Option<String>,
    destroyed: bool,
    r: Result<Plan, ApiError>,
) -> bool {
    match market.movement_fault(account, cents) {
        Some(why) => r matches Err(e) && e.says(
            ApiError::money_code(why).0,
            ApiError::money_code(why).1,
            why.words(""@),
        ),
        None => {
            let wallet = market.accounts.map()[account.0].wallet;
            r == Ok::<Plan, ApiError>(
                Plan::Move {
                    movement: if destroyed {
                        Movement {
                            ask: Ask::Burn { wallet, cents },
                            account,
                            kind: LedgerKind::Withdrawal,
                            amount_cents: (-cents) as i64,
                            memo,
                        }
                    } else {
                        Movement {
                            ask: Ask::Mint { wallet, cents },
                            account,
                            kind: LedgerKind::Deposit,
                            amount_cents: cents,
                            memo,
                        }
                    },
                },
            )
        },
    }
}

/// What creating or destroying currency in an account that was named comes
/// to: the account has to be there.
pub open spec fn mints_in(
    market: &Market,
    account: u64,
    cents: i64,
    memo: Option<String>,
    destroyed: bool,
    r: Result<Plan, ApiError>,
) -> bool {
    if market.accounts.map().contains_key(account) {
        mints(market, AccountId(account), cents, memo, destroyed, r)
    } else {
        r matches Err(e) && e.says(404, "unknown_account"@, "no such account: "@ + decimal(account as nat))
    }
}

fn mint(market: &Market, account: AccountId, cents: i64, memo: Option<String>, destroyed: bool) -> (r: Result<Plan, ApiError>)
    requires
        market.wf(),
    ensures
        mints(market, account, cents, memo, destroyed, r),
{
    let asked = if destroyed {
        market.burn_from(account, cents, memo)
    } else {
        market.mint_into(account, cents, memo)
    };
    match asked {
        Ok(movement) => Ok(Plan::Move { movement }),
        Err(e) => Err(ApiError::money(&e, "")),
    }
}

fn mint_in(market: &Market, account: u64, cents: i64, memo: Option<String>, destroyed: bool) -> (r: Result<Plan, ApiError>)
    requires
        market.wf(),
    ensures
        mints_in(market, account, cents, memo, destroyed, r),
{
    if !market.accounts.contains_key(&account) {
        return Err(ApiError::unknown_account(account));
    }
    mint(market, AccountId(account), cents, memo, destroyed)
}

/// What a change of an account's status comes to.
pub open spec fn changes_status(
    market: &Market,
    account: AccountId,
    status: AccountStatus,
    owner: Option<u64>,
    r: Result<Plan, ApiError>,
) -> bool {
    if !market.accounts.map().contains_key(account.0) {
        r matches Err(e) && e.says(404, "unknown_account"@, "no such account: "@ + decimal(account.0 as nat))
    } else if owner matches Some(owner) && market.accounts.map()[account.0].user_id != UserId(owner) {
        r matches Err(e) && e.says(
            403,
            "forbidden"@,
            "account "@ + decimal(account.0 as nat) + " belongs to another user"@,
        )
    } else {
        let wallet = market.accounts.map()[account.0].wallet;
        match status {
            AccountStatus::Frozen => r matches Ok(Plan::Freeze { account: a, wallet: w, traders }) && a == account && w
                == wallet && traders@ == market.traders.vals().filter(
                |t: Trader| t.account_id == account,
            ).map_values(|t: Trader| t.id),
            AccountStatus::Active => r == Ok::<Plan, ApiError>(Plan::Unfreeze { account, wallet }),
            AccountStatus::Closed => r == Ok::<Plan, ApiError>(Plan::Close { account, wallet }),
        }
    }
}

/// Freeze, reopen or close an account.
fn change_status(market: &Market, account: AccountId, status: AccountStatus, owner: Option<u64>) -> (r: Result<
    Plan,
    ApiError,
>)
    requires
        market.wf(),
    ensures
        changes_status(market, account, status, owner, r),
{
    match owner {
        Some(owner) => match owned_account(market, Caller(UserId(owner)), account) {
            Ok(()) => {},
            Err(e) => {
                return Err(e);
            },
        },
        None => if !market.accounts.contains_key(&account.0) {
            return Err(ApiError::unknown_account(account.0));
        },
    }
    match status {
        AccountStatus::Frozen => match market.freeze_account(account) {
            Ok((wallet, traders)) => Ok(Plan::Freeze { account, wallet, traders }),
            Err(e) => Err(ApiError::money(&e, "")),
        },
        AccountStatus::Active => match market.unfreeze_account(account) {
            Ok(wallet) => Ok(Plan::Unfreeze { account, wallet }),
            Err(e) => Err(ApiError::money(&e, "")),
        },
        AccountStatus::Closed => match market.close_account(account) {
            Ok(wallet) => Ok(Plan::Close { account, wallet }),
            Err(e) => Err(ApiError::money(&e, "")),
        },
    }
}

/// What a game event comes to: the symbols it reaches, all of them or the
/// one it names, once it is scaled by something that scales.
pub open spec fn plays(
    market: &Market,
    kind: GameEventKind,
    magnitude: Real,
    symbol: Option<String>,
    source: String,
    note: Option<String>,
    r: Result<Plan, ApiError>,
) -> bool {
    if !magnitude.magnitude() {
        r matches Err(e) && e.says(422, "invalid_event"@, "`magnitude` must be in (0, 5]"@)
    } else {
        reaches(market, kind, magnitude, symbol, source, note, r)
    }
}

/// The symbols a game event reaches: all of them, or the one it names.
pub open spec fn reaches(
    market: &Market,
    kind: GameEventKind,
    magnitude: Real,
    symbol: Option<String>,
    source: String,
    note: Option<String>,
    r: Result<Plan, ApiError>,
) -> bool {
    match kind.reach() {
        Scope::Market => r matches Ok(Plan::Play { kind: k, magnitude: m, symbols, source: s, note: n }) && k == kind && m
            == magnitude && symbols@ == market.listings.tickers@ && s == source && n == note,
        Scope::Company => match symbol {
            None => r matches Err(e) && e.says(
                400,
                "bad_request"@,
                "`symbol` is required for a company-scoped event"@,
            ),
            Some(symbol) => match r {
                Ok(Plan::Play { kind: k, magnitude: m, symbols, source: s, note: n }) => k == kind && m == magnitude && s
                    == source && n == note && symbols@.len() == 1 && listed_as(
                    &market.listings,
                    symbol@,
                    symbols@[0],
                ),
                Err(e) => unlisted(&market.listings, symbol@, e),
                _ => false,
            },
        },
    }
}

fn play(
    market: &Market,
    kind: GameEventKind,
    magnitude: Real,
    symbol: Option<String>,
    source: String,
    note: Option<String>,
) -> (r: Result<Plan, ApiError>)
    ensures
        plays(market, kind, magnitude, symbol, source, note, r),
{
    if !magnitude.is_magnitude() {
        return Err(ApiError::invalid_event("`magnitude` must be in (0, 5]"));
    }
    let mut symbols: Vec<String> = Vec::new();
    match kind.scope() {
        Scope::Market => {
            let mut i: usize = 0;
            let ghost all = market.listings.tickers@;
            while i < market.listings.tickers.len()
                invariant
                    all == market.listings.tickers@,
                    i <= all.len(),
                    symbols@ == all.take(i as int),
                decreases all.len() - i,
            {
                symbols.push(market.listings.tickers[i].clone());
                proof {
                    assert(all.take(i as int + 1) =~= all.take(i as int).push(all[i as int]));
                }
                i = i + 1;
            }
            proof {
                assert(all.take(all.len() as int) =~= all);
            }
        },
        Scope::Company => match &symbol {
            None => {
                return Err(ApiError::bad_request("`symbol` is required for a company-scoped event"));
            },
            Some(symbol) => match listed(market, symbol.as_str()) {
                Ok(name) => {
                    symbols.push(name);
                },
                Err(e) => {
                    return Err(e);
                },
            },
        },
    }
    Ok(Plan::Play { kind, magnitude, symbols, source, note })
}

/// Validate an event before anything is touched; `sim_words` is what the
/// simulator says of an error of its own.
pub fn check_event(event: &SimEvent, sim_words: &str) -> (r: Result<Prepared, ApiError>)
    ensures
        match event.prepared() {
            Ok(prepared) => r == Ok::<Prepared, ApiError>(prepared),
            Err(why) => r matches Err(e) && e.says(422, "invalid_event"@, why.words(sim_words@)),
        },
{
    match event.prepare() {
        Ok(prepared) => Ok(prepared),
        Err(why) => Err(ApiError::invalid_event(why.message(sim_words).as_str())),
    }
}

/// A raw simulator event, as it is asked for.
#[derive(Debug)]
pub struct PushEventRequest {
    pub event: SimEvent,
    pub timing: Timing,
    /// Who sent it, e.g. `"quest-engine"`. Defaults to `"api"`.
    pub source: Option<String>,
    /// Free text for the log.
    pub note: Option<String>,
}

impl PushEventRequest {
    /// The command the request is, at `symbol`.
    pub fn command(self, symbol: String) -> (command: Command)
        ensures
            command matches Command::SimEvent { symbol: s, event, source, note } && s == symbol && event == self.event
                && note == self.note && (match self.source {
                Some(given) => source == given,
                None => source@ == "api"@,
            }),
    {
        let source = match self.source {
            Some(source) => source,
            None => "api".to_owned(),
        };
        Command::SimEvent { symbol, event: self.event, source, note: self.note }
    }
}

/// A game event, as it is asked for.
#[derive(Debug)]
pub struct GameEventRequest {
    pub kind: GameEventKind,
    /// Required for company-scoped kinds; ignored for market-wide ones.
    pub symbol: Option<String>,
    /// Scales the effect bundle. Defaults to one.
    pub magnitude: Option<Real>,
    pub timing: Timing,
    pub source: Option<String>,
    pub note: Option<String>,
}

impl GameEventRequest {
    /// The command the request is.
    pub fn command(self) -> (command: Command)
        ensures
            command matches Command::GameEvent { kind, magnitude, symbol, source, note } && kind == self.kind && symbol
                == self.symbol && note == self.note && magnitude == (match self.magnitude {
                Some(given) => given,
                None => Real(SIZE_OF_ONE),
            }) && (match self.source {
                Some(given) => source == given,
                None => source@ == "game"@,
            }),
    {
        let magnitude = match self.magnitude {
            Some(magnitude) => magnitude,
            None => Real(SIZE_OF_ONE),
        };
        let source = match self.source {
            Some(source) => source,
            None => "game".to_owned(),
        };
        Command::GameEvent { kind: self.kind, magnitude, symbol: self.symbol, source, note: self.note }
    }
}

/// What listing a symbol comes to.
pub open spec fn lists_it(market: &Market, listing: Listing, r: Result<Plan, ApiError>) -> bool {
    if listing.shares_outstanding == 0 {
        r matches Err(e) && e.says(
            400,
            "bad_request"@,
            "a listing needs shares: shares_outstanding must be positive"@,
        )
    } else if market.listings.lists(listing.symbol@) {
        r matches Err(e) && e.says(409, "conflict"@, listing.symbol@ + " is already listed"@)
    } else {
        r == Ok::<Plan, ApiError>(Plan::List { listing })
    }
}

fn list_it(market: &Market, listing: Listing) -> (r: Result<Plan, ApiError>)
    ensures
        lists_it(market, listing, r),
{
    if listing.shares_outstanding == 0 {
        return Err(ApiError::bad_request("a listing needs shares: shares_outstanding must be positive"));
    }
    match market.listings.index_of(listing.symbol.as_str()) {
        Some(_) => {
            let mut text = listing.symbol.clone();
            text.append(" is already listed");
            Err(ApiError::conflict(text.as_str()))
        },
        None => Ok(Plan::List { listing }),
    }
}

/// What a command comes to, on a given market.
pub open spec fn planned(market: &Market, command: Command, r: Result<Plan, ApiError>) -> bool {
    match command {
        Command::CreateUser { name, email, key_digest } => r == Ok::<Plan, ApiError>(
            Plan::CreateUser { name, email, key_digest },
        ),
        Command::OpenAccount { user_id, name, cash_cents } => if market.users.map().contains_key(user_id) {
            r == Ok::<Plan, ApiError>(Plan::OpenAccount { user: UserId(user_id), name, cash_cents })
        } else {
            r matches Err(e) && e.says(404, "unknown_user"@, "no such user: "@ + decimal(user_id as nat))
        },
        Command::CreateTrader { caller, user_id, account_id, name, email, cash_cents, key_digest } => joins(
            market,
            caller,
            user_id,
            account_id,
            name,
            email,
            cash_cents,
            key_digest,
            r,
        ),
        Command::Mint { account_id, amount_cents, memo } => mints_in(
            market,
            account_id,
            amount_cents,
            memo,
            false,
            r,
        ),
        Command::Burn { account_id, amount_cents, memo } => mints_in(
            market,
            account_id,
            amount_cents,
            memo,
            true,
            r,
        ),
        Command::MintToTrader { trader_id, amount_cents, memo } => if market.traders.map().contains_key(trader_id) {
            mints(market, market.traders.map()[trader_id].account_id, amount_cents, memo, false, r)
        } else {
            r matches Err(e) && e.says(404, "unknown_trader"@, "no such trader: "@ + decimal(trader_id as nat))
        },
        Command::SetAccountStatus { account_id, status, owner } => changes_status(
            market,
            AccountId(account_id),
            status,
            owner,
            r,
        ),
        Command::PlaceOrder { symbol, order } => match r {
            Ok(Plan::Place { symbol: name, trader, request }) => {
                &&& listed_as(&market.listings, symbol@, name)
                &&& trader == TraderId(order.trader_id)
                &&& request == (PlaceRequest {
                    order: Order {
                        owner: Owner::Trader(trader),
                        side: order.side,
                        kind: order.kind,
                        tif: order.tif,
                        qty: order.qty,
                    },
                    client_order_id: order.client_order_id,
                    post_only: order.post_only,
                    day: order.day,
                    expires_at_ms: order.expires_at_ms,
                    display_qty: order.display_qty,
                })
            },
            Err(e) => unlisted(&market.listings, symbol@, e),
            _ => false,
        },
        Command::AmendOrder { symbol, order_id, amend } => match r {
            Ok(Plan::Amend { symbol: name, trader, amendment }) => {
                &&& listed_as(&market.listings, symbol@, name)
                &&& trader == TraderId(amend.trader_id)
                &&& amendment == (Amendment {
                    order_id,
                    price_cents: amend.price_cents,
                    qty: amend.qty,
                    post_only: amend.post_only,
                    client_order_id: amend.client_order_id,
                })
            },
            Err(e) => unlisted(&market.listings, symbol@, e),
            _ => false,
        },
        Command::CancelOrder { symbol, trader_id, order_id } => match r {
            Ok(Plan::Cancel { symbol: name, trader, order_id: id }) => listed_as(&market.listings, symbol@, name)
                && trader == TraderId(trader_id) && id == order_id,
            Err(e) => unlisted(&market.listings, symbol@, e),
            _ => false,
        },
        Command::CancelAll { trader_id } => r == Ok::<Plan, ApiError>(
            Plan::CancelAll { trader: TraderId(trader_id) },
        ),
        Command::PlaceStop { symbol, stop } => match r {
            Ok(Plan::Stop { symbol: name, stop: s }) => listed_as(&market.listings, symbol@, name) && s == stop,
            Err(e) => unlisted(&market.listings, symbol@, e),
            _ => false,
        },
        Command::CancelStop { symbol, trader_id, stop_id } => match r {
            Ok(Plan::CancelStop { symbol: name, trader, stop_id: id }) => listed_as(&market.listings, symbol@, name)
                && trader == TraderId(trader_id) && id == stop_id,
            Err(e) => unlisted(&market.listings, symbol@, e),
            _ => false,
        },
        Command::ListSymbol { listing } => lists_it(market, listing, r),
        Command::Delist { symbol, cents_per_share, source, note } => match r {
            Ok(Plan::Delist { symbol: name, cents_per_share: c, source: s, note: n }) => listed_as(
                &market.listings,
                symbol@,
                name,
            ) && c == cents_per_share && s == source && n == note,
            Err(e) => unlisted(&market.listings, symbol@, e),
            _ => false,
        },
        Command::Dividend { symbol, cents_per_share, source, note } => match r {
            Ok(Plan::Dividend { symbol: name, cents_per_share: c, source: s, note: n }) => listed_as(
                &market.listings,
                symbol@,
                name,
            ) && c == cents_per_share && s == source && n == note,
            Err(e) => unlisted(&market.listings, symbol@, e),
            _ => false,
        },
        Command::Halt { symbol } => match r {
            Ok(Plan::Halt { symbol: name }) => listed_as(&market.listings, symbol@, name),
            Err(e) => unlisted(&market.listings, symbol@, e),
            _ => false,
        },
        Command::Resume { symbol } => match r {
            Ok(Plan::Resume { symbol: name }) => listed_as(&market.listings, symbol@, name),
            Err(e) => unlisted(&market.listings, symbol@, e),
            _ => false,
        },
        Command::SimEvent { symbol, event, source, note } => match r {
            Ok(Plan::Push { symbol: name, event: v, source: s, note: n }) => listed_as(
                &market.listings,
                symbol@,
                name,
            ) && v == event && s == source && n == note,
            Err(e) => unlisted(&market.listings, symbol@, e),
            _ => false,
        },
        Command::GameEvent { kind, magnitude, symbol, source, note } => plays(
            market,
            kind,
            magnitude,
            symbol,
            source,
            note,
            r,
        ),
        Command::Step => r == Ok::<Plan, ApiError>(Plan::Step),
    }
}

/// Check a command against the market, and say what is to be done. Nothing
/// has changed whichever way it goes.
pub fn plan(market: &Market, command: Command) -> (r: Result<Plan, ApiError>)
    requires
        market.wf(),
    ensures
        planned(market, command, r),
{
    match command {
        Command::CreateUser { name, email, key_digest } => Ok(Plan::CreateUser { name, email, key_digest }),
        Command::OpenAccount { user_id, name, cash_cents } => if market.users.contains_key(&user_id) {
            Ok(Plan::OpenAccount { user: UserId(user_id), name, cash_cents })
        } else {
            Err(ApiError::unknown_user(user_id))
        },
        Command::CreateTrader { caller, user_id, account_id, name, email, cash_cents, key_digest } => join(
            market,
            caller,
            user_id,
            account_id,
            name,
            email,
            cash_cents,
            key_digest,
        ),
        Command::Mint { account_id, amount_cents, memo } => mint_in(
            market,
            account_id,
            amount_cents,
            memo,
            false,
        ),
        Command::Burn { account_id, amount_cents, memo } => mint_in(
            market,
            account_id,
            amount_cents,
            memo,
            true,
        ),
        Command::MintToTrader { trader_id, amount_cents, memo } => match market.traders.get(&trader_id) {
            Some(trader) => mint(market, trader.account_id, amount_cents, memo, false),
            None => Err(ApiError::unknown_trader(trader_id)),
        },
        Command::SetAccountStatus { account_id, status, owner } => change_status(
            market,
            AccountId(account_id),
            status,
            owner,
        ),
        Command::PlaceOrder { symbol, order } => match listed(market, symbol.as_str()) {
            Ok(name) => {
                let trader = TraderId(order.trader_id);
                let request = PlaceRequest {
                    order: Order {
                        owner: Owner::Trader(trader),
                        side: order.side,
                        kind: order.kind,
                        tif: order.tif,
                        qty: order.qty,
                    },
                    client_order_id: order.client_order_id,
                    post_only: order.post_only,
                    day: order.day,
                    expires_at_ms: order.expires_at_ms,
                    display_qty: order.display_qty,
                };
                Ok(Plan::Place { symbol: name, trader, request })
            },
            Err(e) => Err(e),
        },
        Command::AmendOrder { symbol, order_id, amend } => match listed(market, symbol.as_str()) {
            Ok(name) => {
                let amendment = Amendment {
                    order_id,
                    price_cents: amend.price_cents,
                    qty: amend.qty,
                    post_only: amend.post_only,
                    client_order_id: amend.client_order_id,
                };
                Ok(Plan::Amend { symbol: name, trader: TraderId(amend.trader_id), amendment })
            },
            Err(e) => Err(e),
        },
        Command::CancelOrder { symbol, trader_id, order_id } => match listed(market, symbol.as_str()) {
            Ok(name) => Ok(Plan::Cancel { symbol: name, trader: TraderId(trader_id), order_id }),
            Err(e) => Err(e),
        },
        Command::CancelAll { trader_id } => Ok(Plan::CancelAll { trader: TraderId(trader_id) }),
        Command::PlaceStop { symbol, stop } => match listed(market, symbol.as_str()) {
            Ok(name) => Ok(Plan::Stop { symbol: name, stop }),
            Err(e) => Err(e),
        },
        Command::CancelStop { symbol, trader_id, stop_id } => match listed(market, symbol.as_str()) {
            Ok(name) => Ok(Plan::CancelStop { symbol: name, trader: TraderId(trader_id), stop_id }),
            Err(e) => Err(e),
        },
        Command::ListSymbol { listing } => list_it(market, listing),
        Command::Delist { symbol, cents_per_share, source, note } => match listed(market, symbol.as_str()) {
            Ok(name) => Ok(Plan::Delist { symbol: name, cents_per_share, source, note }),
            Err(e) => Err(e),
        },
        Command::Dividend { symbol, cents_per_share, source, note } => match listed(market, symbol.as_str()) {
            Ok(name) => Ok(Plan::Dividend { symbol: name, cents_per_share, source, note }),
            Err(e) => Err(e),
        },
        Command::Halt { symbol } => match listed(market, symbol.as_str()) {
            Ok(name) => Ok(Plan::Halt { symbol: name }),
            Err(e) => Err(e),
        },
        Command::Resume { symbol } => match listed(market, symbol.as_str()) {
            Ok(name) => Ok(Plan::Resume { symbol: name }),
            Err(e) => Err(e),
        },
        Command::SimEvent { symbol, event, source, note } => match listed(market, symbol.as_str()) {
            Ok(name) => Ok(Plan::Push { symbol: name, event, source, note }),
            Err(e) => Err(e),
        },
        Command::GameEvent { kind, magnitude, symbol, source, note } => play(
            market,
            kind,
            magnitude,
            symbol,
            source,
            note,
        ),
        Command::Step => Ok(Plan::Step),
    }
}

impl Command {
    /// The status a command is answered with once it has been applied;
    /// `replayed` where an order turned out to have been sent before.
    pub open spec fn answer(self, replayed: bool) -> u16 {
        match self {
            Command::CreateUser { .. } => 201,
            Command::OpenAccount { .. } => 201,
            Command::CreateTrader { .. } => 201,
            Command::PlaceOrder { .. } => if replayed {
                200
            } else {
                201
            },
            Command::PlaceStop { .. } => 201,
            Command::ListSymbol { .. } => 201,
            Command::Delist { .. } => 202,
            Command::Dividend { .. } => 202,
            Command::SimEvent { .. } => 202,
            Command::GameEvent { .. } => 202,
            _ => 200,
        }
    }

    /// The status a command is answered with once it has been applied.
    pub fn status(&self, replayed: bool) -> (status: u16)
        ensures
            status == self.answer(replayed),
    {
        match self {
            Command::CreateUser { .. } => 201,
            Command::OpenAccount { .. } => 201,
            Command::CreateTrader { .. } => 201,
            Command::PlaceOrder { .. } => if replayed {
                200
            } else {
                201
            },
            Command::PlaceStop { .. } => 201,
            Command::ListSymbol { .. } => 201,
            Command::Delist { .. } => 202,
            Command::Dividend { .. } => 202,
            Command::SimEvent { .. } => 202,
            Command::GameEvent { .. } => 202,
            _ => 200,
        }
    }

    /// Whether a client waits for the command to be on disk: everything but
    /// the engine's own step, which the next durable line flushes too.
    pub fn durable(&self) -> (r: bool)
        ensures
            r == !(self is Step),
    {
        match self {
            Command::Step => false,
            _ => true,
        }
    }
}

// ---------------------------------------------------------------------------
// Writing a command down

/// The result of applying a command, before it is recorded.
#[derive(Debug)]
pub struct Applied {
    pub status: u16,
    /// The response as it is sent.
    pub body: String,
    /// What is safe to keep.
    pub recorded: String,
}

impl Applied {
    /// A response that is kept as it is sent.
    pub fn new(status: u16, body: String) -> (applied: Self)
        ensures
            applied.status == status,
            applied.body == body,
            applied.recorded@ == body@,
    {
        let recorded = body.clone();
        Applied { status, body, recorded }
    }

    /// The same response, kept without a field that is shown only once.
    pub fn without(self, recorded: String) -> (applied: Self)
        ensures
            applied == (Applied { recorded, ..self }),
    {
        Applied { recorded, ..self }
    }
}

/// Finish a live command: its line was handed to the file, which took it or
/// did not. Only once the line is down is the answer remembered and given.
pub fn finish(
    journal: &mut Journal,
    commands: &mut CommandLog,
    entry: &JournalEntry,
    line: String,
    outcome: Result<(), String>,
    applied: Applied,
) -> (r: Result<Outcome, ApiError>)
    requires
        old(commands).wf(),
    ensures
        final(commands).wf(),
        final(commands).limit() == old(commands).limit(),
        match r {
            Ok(done) => {
                &&& !old(journal).enabled || outcome is Ok
                &&& done == (Outcome { status: applied.status, body: applied.body, seq: entry.seq, replayed: false })
                &&& answered(old(commands), final(commands), entry, applied.status, applied.recorded)
                &&& *final(journal) == (if old(journal).enabled {
                    Journal {
                        unsynced: entry.command is Step,
                        pending: final(journal).pending,
                        ..*old(journal)
                    }
                } else {
                    *old(journal)
                })
                &&& old(journal).enabled ==> final(journal).pending@ == old(journal).pending@.push(
                    (Written { seq: entry.seq, text: line }),
                )
            },
            Err(e) => {
                &&& old(journal).enabled && outcome is Err
                &&& e.says(
                    503,
                    "journal_broken"@,
                    "the journal stopped taking entries: "@ + ("journal: "@ + outcome->Err_0@),
                )
                &&& final(commands).log() == old(commands).log()
                &&& *final(journal) == (Journal { broken: Some(outcome->Err_0), ..*old(journal) })
            },
        },
{
    match journal.append(Written { seq: entry.seq, text: line }, entry.command.durable(), outcome) {
        Err(e) => Err(ApiError::journal_broken(e.message().as_str())),
        Ok(()) => {
            remember(commands, entry, applied.status, applied.recorded);
            Ok(Outcome { status: applied.status, body: applied.body, seq: entry.seq, replayed: false })
        },
    }
}

/// Finish an entry that was applied again at start-up. One that no longer
/// fits the state it was applied to is skipped, so that it does not cost every
/// entry after it; either way its sequence is taken.
pub fn finish_replay(journal: &mut Journal, commands: &mut CommandLog, entry: &JournalEntry, applied: Option<Applied>)
    requires
        old(commands).wf(),
    ensures
        final(commands).wf(),
        final(commands).limit() == old(commands).limit(),
        *final(journal) == (Journal {
            seq: max_int(old(journal).seq as int, entry.seq as int) as u64,
            ..*old(journal)
        }),
        match applied {
            Some(applied) => answered(old(commands), final(commands), entry, applied.status, applied.recorded),
            None => final(commands).log() == old(commands).log(),
        },
{
    journal.reached(entry.seq);
    match applied {
        Some(applied) => {
            remember(commands, entry, applied.status, applied.recorded);
        },
        None => {},
    }
}

/// A command that was acknowledged is never applied twice: after it has been
/// written down with a key, whoever sends the same key with the same payload
/// is given the answer that was kept, for as long as the journal takes
/// entries.
pub proof fn law_an_acknowledged_key_is_replayed(
    before: &CommandLog,
    after: &CommandLog,
    entry: &JournalEntry,
    status: u16,
    result: String,
)
    requires
        before.wf(),
        answered(before, after, entry, status, result),
        entry.idempotency_key is Some,
        under_key(before.log(), entry.idempotency_key->0@) is None,
    ensures
        ({
            let found = under_key(after.log(), entry.idempotency_key->0@);
            &&& found is Some
            &&& (found->0).payload_hash == entry.payload_hash
            &&& (found->0).status == status
            &&& (found->0).result == result
            &&& (found->0).seq == entry.seq
        }),
{
    let key = entry.idempotency_key->0;
    let record = choose|record: CommandRecord|
        {
            &&& record.key == key
            &&& record.seq == entry.seq
            &&& record.principal == entry.principal
            &&& record.kind@ == entry.command.called()
            &&& record.payload_hash == entry.payload_hash
            &&& record.status == status
            &&& record.wall_ms == entry.wall_ms
            &&& record.result == result
            &&& after.log() == #[trigger] remembered(before.log(), record, before.limit())
        };
    before.lemma_distinct();
    law_a_remembered_key_is_answered(before.log(), record, before.limit());
}

// ---------------------------------------------------------------------------
// The events a command is recorded as

/// The summary of a delisting.
pub open spec fn delisting_summary(d: Delisting) -> Seq<char> {
    d.symbol@ + " delisted at "@ + signed_decimal(d.cents_per_share as int) + " cents a share: "@ + decimal(
        d.shares_bought_out as nat,
    ) + " shares bought out for "@ + signed_decimal(d.total_cents as int) + " cents across "@ + decimal(
        d.accounts_paid as nat,
    ) + " account(s), "@ + decimal(d.orders_cancelled as nat) + " resting order(s) and "@ + decimal(
        d.stops_cancelled as nat,
    ) + " stop(s) withdrawn"@
}

/// The event is about these symbols, of this kind, with this summary.
pub open spec fn tells(
    event: EventRecord,
    wall_ms: i64,
    at_ms: i64,
    kind: Seq<char>,
    source: String,
    note: Option<String>,
) -> bool {
    &&& event.id == 0
    &&& event.received_at_ms == wall_ms
    &&& event.at_ms == at_ms
    &&& event.kind@ == kind
    &&& event.source == source
    &&& event.note == note
}

/// The event a delisting is recorded as.
pub fn delisting_event(d: &Delisting, wall_ms: i64, at_ms: i64, source: String, note: Option<String>) -> (event: EventRecord)
    ensures
        tells(event, wall_ms, at_ms, "corporate:delisting"@, source, note),
        event.symbols@ == seq![d.symbol],
        event.magnitude is None,
        event.effects@.len() == 0,
        event.summary@.len() == 1,
        event.summary@[0]@ == delisting_summary(*d),
{
    let mut text = d.symbol.clone();
    text.append(" delisted at ");
    push_i64(&mut text, d.cents_per_share);
    text.append(" cents a share: ");
    push_u64(&mut text, d.shares_bought_out);
    text.append(" shares bought out for ");
    push_i64(&mut text, d.total_cents);
    text.append(" cents across ");
    push_usize(&mut text, d.accounts_paid);
    text.append(" account(s), ");
    push_usize(&mut text, d.orders_cancelled);
    text.append(" resting order(s) and ");
    push_usize(&mut text, d.stops_cancelled);
    text.append(" stop(s) withdrawn");
    let mut symbols: Vec<String> = Vec::new();
    symbols.push(d.symbol.clone());
    let mut summary: Vec<String> = Vec::new();
    summary.push(text);
    proof {
        assert(symbols@ =~= seq![d.symbol]);
    }
    EventRecord {
        id: 0,
        received_at_ms: wall_ms,
        at_ms,
        symbols,
        kind: "corporate:delisting".to_owned(),
        source,
        note,
        magnitude: None,
        effects: Vec::new(),
        summary,
    }
}

/// The event a dividend is recorded as. `effects` is how its price goes ex,
/// and `magnitude` the dividend in units of the currency.
pub fn dividend_event(
    d: &Dividend,
    wall_ms: i64,
    at_ms: i64,
    source: String,
    note: Option<String>,
    magnitude: Real,
    effects: Vec<SimEvent>,
) -> (event: EventRecord)
    ensures
        tells(event, wall_ms, at_ms, "corporate:dividend"@, source, note),
        event.symbols@ == seq![d.symbol],
        event.magnitude == Some(magnitude),
        event.effects == effects,
        event.summary@.len() == 1,
        event.summary@[0]@ == "dividend of "@ + signed_decimal(d.cents_per_share as int) + " cents a share on "@
            + decimal(d.shares_paid as nat) + " shares, "@ + signed_decimal(d.total_cents as int) + " cents to "@
            + decimal(d.accounts_paid as nat) + " account(s)"@,
{
    let mut text = "dividend of ".to_owned();
    push_i64(&mut text, d.cents_per_share);
    text.append(" cents a share on ");
    push_u64(&mut text, d.shares_paid);
    text.append(" shares, ");
    push_i64(&mut text, d.total_cents);
    text.append(" cents to ");
    push_usize(&mut text, d.accounts_paid);
    text.append(" account(s)");
    let mut symbols: Vec<String> = Vec::new();
    symbols.push(d.symbol.clone());
    let mut summary: Vec<String> = Vec::new();
    summary.push(text);
    proof {
        assert(symbols@ =~= seq![d.symbol]);
    }
    EventRecord {
        id: 0,
        received_at_ms: wall_ms,
        at_ms,
        symbols,
        kind: "corporate:dividend".to_owned(),
        source,
        note,
        magnitude: Some(magnitude),
        effects,
        summary,
    }
}

/// What a dividend that is not one is answered with.
pub fn no_such_dividend(price_cents: i64) -> (e: ApiError)
    requires
        price_cents > i64::MIN,
    ensures
        e.says(
            422,
            "invalid_event"@,
            "a dividend must be between 1 and "@ + signed_decimal(price_cents - 1)
                + " cents a share, one less than the price it is declared against"@,
        ),
{
    let mut text = "a dividend must be between 1 and ".to_owned();
    push_i64(&mut text, price_cents - 1);
    text.append(" cents a share, one less than the price it is declared against");
    ApiError::invalid_event(text.as_str())
}

/// The event a listing is recorded as.
pub fn listing_event(
    symbol: String,
    price_cents: i64,
    shares_outstanding: u64,
    wall_ms: i64,
    at_ms: i64,
    source: String,
    note: Option<String>,
) -> (event: EventRecord)
    ensures
        tells(event, wall_ms, at_ms, "corporate:listing"@, source, note),
        event.symbols@ == seq![symbol],
        event.magnitude is None,
        event.effects@.len() == 0,
        event.summary@.len() == 1,
        event.summary@[0]@ == symbol@ + " listed at "@ + signed_decimal(price_cents as int) + " cents, "@ + decimal(
            shares_outstanding as nat,
        ) + " shares outstanding"@,
{
    let mut text = symbol.clone();
    text.append(" listed at ");
    push_i64(&mut text, price_cents);
    text.append(" cents, ");
    push_u64(&mut text, shares_outstanding);
    text.append(" shares outstanding");
    let mut symbols: Vec<String> = Vec::new();
    symbols.push(symbol);
    let mut summary: Vec<String> = Vec::new();
    summary.push(text);
    proof {
        assert(symbols@ =~= seq![symbol]);
    }
    EventRecord {
        id: 0,
        received_at_ms: wall_ms,
        at_ms,
        symbols,
        kind: "corporate:listing".to_owned(),
        source,
        note,
        magnitude: None,
        effects: Vec::new(),
        summary,
    }
}

/// The event a raw simulator event is recorded as; `summary` says what it
/// does.
pub fn sim_event_record(
    symbol: String,
    event: SimEvent,
    summary: String,
    wall_ms: i64,
    at_ms: i64,
    source: String,
    note: Option<String>,
) -> (record: EventRecord)
    ensures
        tells(record, wall_ms, at_ms, "sim:"@ + event.name_text(), source, note),
        record.symbols@ == seq![symbol],
        record.magnitude is None,
        record.effects@ == seq![event],
        record.summary@ == seq![summary],
{
    let mut kind = "sim:".to_owned();
    kind.append(event.name());
    let mut symbols: Vec<String> = Vec::new();
    symbols.push(symbol);
    let mut effects: Vec<SimEvent> = Vec::new();
    effects.push(event);
    let mut lines: Vec<String> = Vec::new();
    lines.push(summary);
    proof {
        assert(symbols@ =~= seq![symbol]);
        assert(effects@ =~= seq![event]);
        assert(lines@ =~= seq![summary]);
    }
    EventRecord {
        id: 0,
        received_at_ms: wall_ms,
        at_ms,
        symbols,
        kind,
        source,
        note,
        magnitude: None,
        effects,
        summary: lines,
    }
}

/// The event a game event is recorded as; `effects` are the simulator events
/// it stands for, and `summary` says what each does.
pub fn game_event_record(
    kind: GameEventKind,
    magnitude: Real,
    symbols: Vec<String>,
    effects: Vec<SimEvent>,
    summary: Vec<String>,
    wall_ms: i64,
    at_ms: i64,
    source: String,
    note: Option<String>,
) -> (record: EventRecord)
    ensures
        tells(record, wall_ms, at_ms, "game:"@ + kind.wire_name(), source, note),
        record.symbols == symbols,
        record.magnitude == Some(magnitude),
        record.effects == effects,
        record.summary == summary,
{
    let mut text = "game:".to_owned();
    text.append(kind.name());
    EventRecord {
        id: 0,
        received_at_ms: wall_ms,
        at_ms,
        symbols,
        kind: text,
        source,
        note,
        magnitude: Some(magnitude),
        effects,
        summary,
    }
}

/// The symbol that a command names.
pub open spec fn named_by(command: Command) -> Option<Seq<char>> {
    match command {
        Command::PlaceOrder { symbol, .. } => Some(symbol@),
        Command::AmendOrder { symbol, .. } => Some(symbol@),
        Command::CancelOrder { symbol, .. } => Some(symbol@),
        Command::PlaceStop { symbol, .. } => Some(symbol@),
        Command::CancelStop { symbol, .. } => Some(symbol@),
        Command::Delist { symbol, .. } => Some(symbol@),
        Command::Dividend { symbol, .. } => Some(symbol@),
        Command::Halt { symbol } => Some(symbol@),
        Command::Resume { symbol } => Some(symbol@),
        Command::SimEvent { symbol, .. } => Some(symbol@),
        _ => None,
    }
}

/// The symbol that a plan is carried out on.
pub open spec fn carried_out_on(plan: Plan) -> Option<Seq<char>> {
    match plan {
        Plan::Place { symbol, .. } => Some(symbol@),
        Plan::Amend { symbol, .. } => Some(symbol@),
        Plan::Cancel { symbol, .. } => Some(symbol@),
        Plan::Stop { symbol, .. } => Some(symbol@),
        Plan::CancelStop { symbol, .. } => Some(symbol@),
        Plan::Delist { symbol, .. } => Some(symbol@),
        Plan::Dividend { symbol, .. } => Some(symbol@),
        Plan::Halt { symbol } => Some(symbol@),
        Plan::Resume { symbol } => Some(symbol@),
        Plan::Push { symbol, .. } => Some(symbol@),
        _ => None,
    }
}

/// A command about a symbol is planned wherever the symbol is listed, under
/// the name it is listed by; where it is not, it is refused as unknown.
pub proof fn law_a_command_is_planned_on_the_symbol_it_names(
    market: Market,
    command: Command,
    r: Result<Plan, ApiError>,
)
    requires
        market.wf(),
        call_ensures(plan, (&market, command), r),
        named_by(command) is Some,
    ensures
        r is Ok <==> exists|i: int|
            0 <= i < market.listings.tickers@.len() && same_ignoring_case(
                (#[trigger] market.listings.tickers@[i])@,
                named_by(command)->0,
            ),
        r matches Ok(plan) ==> {
            &&& carried_out_on(plan) is Some
            &&& same_ignoring_case(carried_out_on(plan)->0, named_by(command)->0)
            &&& exists|i: int|
                0 <= i < market.listings.tickers@.len() && (#[trigger] market.listings.tickers@[i])@
                    == carried_out_on(plan)->0
        },
        r matches Err(e) ==> e.status == 404 && e.code@ == "unknown_symbol"@,
{
    let name = named_by(command)->0;
    if r is Err {
        assert forall|i: int| 0 <= i < market.listings.tickers@.len() implies !same_ignoring_case(
            (#[trigger] market.listings.tickers@[i])@,
            name,
        ) by {
            assert(!Listings::is_at(market.listings.tickers@, i, name));
        }
    } else {
        let i = choose|i: int| #[trigger]
            market.listings.first_at(i, name) && carried_out_on(r->Ok_0) == Some(market.listings.tickers@[i]@);
        assert(market.listings.first_at(i, name));
        assert(Listings::is_at(market.listings.tickers@, i, name));
        assert(same_ignoring_case(market.listings.tickers@[i]@, name));
    }
}

/// An order that is placed, amended or withdrawn is the one that was sent, for
/// the trader who sent it.
pub proof fn law_an_order_is_planned_as_it_was_sent(market: Market, command: Command, r: Result<Plan, ApiError>)
    requires
        market.wf(),
        call_ensures(plan, (&market, command), r),
    ensures
        r matches Ok(Plan::Place { trader, request, .. }) ==> (command matches Command::PlaceOrder { order, .. }
            && trader.0 == order.trader_id && request.order.owner == Owner::Trader(trader) && request.order.side
            == order.side && request.order.kind == order.kind && request.order.tif == order.tif && request.order.qty
            == order.qty && request.client_order_id == order.client_order_id && request.post_only == order.post_only
            && request.day == order.day && request.expires_at_ms == order.expires_at_ms && request.display_qty
            == order.display_qty),
        r matches Ok(Plan::Amend { trader, amendment, .. }) ==> (command matches Command::AmendOrder {
            order_id,
            amend,
            ..
        } && trader.0 == amend.trader_id && amendment.order_id == order_id && amendment.price_cents
            == amend.price_cents && amendment.qty == amend.qty && amendment.post_only == amend.post_only
            && amendment.client_order_id == amend.client_order_id),
        r matches Ok(Plan::Cancel { trader, order_id, .. }) ==> (command matches Command::CancelOrder {
            trader_id,
            order_id: sent,
            ..
        } && trader.0 == trader_id && order_id == sent),
        r matches Ok(Plan::CancelAll { trader }) ==> (command matches Command::CancelAll { trader_id } && trader.0
            == trader_id),
        r matches Ok(Plan::Stop { stop, .. }) ==> (command matches Command::PlaceStop { stop: sent, .. } && stop
            == sent),
        r matches Ok(Plan::CancelStop { trader, stop_id, .. }) ==> (command matches Command::CancelStop {
            trader_id,
            stop_id: sent,
            ..
        } && trader.0 == trader_id && stop_id == sent),
        r matches Ok(Plan::Dividend { cents_per_share, .. }) ==> (command matches Command::Dividend {
            cents_per_share: sent,
            ..
        } && cents_per_share == sent),
        r matches Ok(Plan::Delist { cents_per_share, .. }) ==> (command matches Command::Delist {
            cents_per_share: sent,
            ..
        } && cents_per_share == sent),
        r matches Ok(Plan::Push { event, .. }) ==> (command matches Command::SimEvent { event: sent, .. } && event
            == sent),
        command is CancelAll ==> r is Ok,
        r matches Ok(Plan::Halt { .. }) ==> command is Halt,
        r matches Ok(Plan::Resume { .. }) ==> command is Resume,
{
}

/// Nobody joins for somebody else: a trader is opened for a user only where
/// that user asks, and on an account only where it is that user's. A stranger
/// becomes a user of its own.
pub proof fn law_nobody_joins_for_somebody_else(
    market: Market,
    caller: Option<u64>,
    user_id: Option<u64>,
    account_id: Option<u64>,
    name: Option<String>,
    email: Option<String>,
    cash_cents: i64,
    key_digest: Option<String>,
    r: Result<Plan, ApiError>,
)
    requires
        market.wf(),
        call_ensures(
            plan,
            (
                &market,
                Command::CreateTrader { caller, user_id, account_id, name, email, cash_cents, key_digest },
            ),
            r,
        ),
    ensures
        r matches Ok(plan) ==> match plan {
            Plan::SignUp { cash_cents: paid, key_digest: digest, name: n, email: m } => user_id is None && account_id is None
                && paid == cash_cents && Some(digest) == key_digest && n == name && m == email,
            Plan::JoinUser { user, name: n, cash_cents: paid } => caller == Some(user.0) && user_id == caller
                && account_id is None && market.users.map().contains_key(user.0) && paid == cash_cents && n == name,
            Plan::JoinAccount { user, account, name: n } => caller == Some(user.0) && user_id == caller && account_id
                == Some(account.0) && market.users.map().contains_key(user.0) && market.accounts.map().contains_key(
                account.0,
            ) && market.accounts.map()[account.0].user_id == user && n == name,
            _ => false,
        },
        user_id is None && account_id is None && key_digest is Some ==> r is Ok,
        user_id is Some && market.users.map().contains_key(user_id->0) && caller == user_id && account_id is None
            ==> r is Ok,
        user_id is Some && market.users.map().contains_key(user_id->0) && caller == user_id && (account_id matches Some(
            account,
        ) && market.accounts.map().contains_key(account) && market.accounts.map()[account].user_id.0 == user_id->0)
            ==> r is Ok,
{
}

/// What is minted is paid in and what is burned is taken out, in the account
/// that was named and to the cent: the wallet that the money is made for is
/// that account's.
pub proof fn law_money_is_made_and_destroyed_where_it_is_asked(
    market: Market,
    account: u64,
    cents: i64,
    memo: Option<String>,
    minted: Result<Plan, ApiError>,
    burned: Result<Plan, ApiError>,
)
    requires
        market.wf(),
        call_ensures(
            plan,
            (&market, Command::Mint { account_id: account, amount_cents: cents, memo }),
            minted,
        ),
        call_ensures(
            plan,
            (&market, Command::Burn { account_id: account, amount_cents: cents, memo }),
            burned,
        ),
    ensures
        minted is Ok <==> market.accounts.map().contains_key(account) && 1 <= cents <= 1_000_000_000_000_000,
        burned is Ok <==> minted is Ok,
        minted matches Ok(done) ==> (done matches Plan::Move { movement } && movement.ask == (Ask::Mint {
            wallet: market.accounts.map()[account].wallet,
            cents,
        }) && movement.account.0 == account && movement.amount_cents == cents && movement.kind is Deposit),
        burned matches Ok(done) ==> (done matches Plan::Move { movement } && movement.ask == (Ask::Burn {
            wallet: market.accounts.map()[account].wallet,
            cents,
        }) && movement.account.0 == account && movement.amount_cents == -cents && movement.kind is Withdrawal),
{
}

/// Minting for a trader is minting into the account it trades on.
pub proof fn law_a_trader_is_paid_in_its_account(
    market: Market,
    trader: u64,
    cents: i64,
    memo: Option<String>,
    r: Result<Plan, ApiError>,
)
    requires
        market.wf(),
        call_ensures(plan, (&market, Command::MintToTrader { trader_id: trader, amount_cents: cents, memo }), r),
    ensures
        r is Ok ==> market.traders.map().contains_key(trader) && 1 <= cents <= 1_000_000_000_000_000,
        r matches Ok(done) ==> (done matches Plan::Move { movement } && movement.account
            == market.traders.map()[trader].account_id && movement.amount_cents == cents && movement.ask
            == (Ask::Mint { wallet: market.accounts.map()[market.traders.map()[trader].account_id.0].wallet, cents })),
{
}

/// An account's status is changed by whoever owns it: to be frozen it takes
/// every trader that trades on it along and no other, and what is asked for is
/// what is planned.
pub proof fn law_a_status_is_changed_by_its_owner(
    market: Market,
    account: u64,
    status: AccountStatus,
    owner: Option<u64>,
    r: Result<Plan, ApiError>,
    trader: u64,
)
    requires
        market.wf(),
        call_ensures(plan, (&market, Command::SetAccountStatus { account_id: account, status, owner }), r),
    ensures
        r is Ok <==> market.accounts.map().contains_key(account) && (owner matches Some(user) ==> user
            == market.accounts.map()[account].user_id.0),
        r matches Ok(done) ==> match done {
            Plan::Freeze { account: a, wallet, traders } => status is Frozen && a.0 == account && wallet
                == market.accounts.map()[account].wallet && (traders@.contains(TraderId(trader)) <==>
                market.traders.map().contains_key(trader) && market.traders.map()[trader].account_id.0 == account),
            Plan::Unfreeze { account: a, wallet } => status is Active && a.0 == account && wallet
                == market.accounts.map()[account].wallet,
            Plan::Close { account: a, wallet } => status is Closed && a.0 == account && wallet
                == market.accounts.map()[account].wallet,
            _ => false,
        },
{
    if r is Ok && r->Ok_0 is Freeze {
        lemma_traders_on(market, AccountId(account), trader);
    }
}

/// The traders on an account, by number.
proof fn lemma_traders_on(market: Market, account: AccountId, trader: u64)
    requires
        market.wf(),
    ensures
        market.traders.vals().filter(|t: Trader| t.account_id == account).map_values(|t: Trader| t.id).contains(
            TraderId(trader),
        ) <==> market.traders.map().contains_key(trader) && market.traders.map()[trader].account_id == account,
{
    let on = |t: Trader| t.account_id == account;
    let id = |t: Trader| t.id;
    let found = market.traders.vals().filter(on);
    market.traders.lemma_listed();
    if found.map_values(id).contains(TraderId(trader)) {
        let i = choose|i: int| 0 <= i < found.len() && found.map_values(id)[i] == TraderId(trader);
        assert(found.contains(found[i]));
        lemma_filtered(market.traders.vals(), on, found[i]);
        let j = choose|j: int| 0 <= j < market.traders.vals().len() && market.traders.vals()[j] == found[i];
        market.traders.lemma_at(j);
        assert(market.trader_wf(market.traders.keys()[j]));
    }
    if market.traders.map().contains_key(trader) && market.traders.map()[trader].account_id == account {
        let j = market.traders.place(trader);
        market.traders.lemma_placed(trader);
        assert(market.trader_wf(trader));
        let one = market.traders.map()[trader];
        assert(market.traders.vals()[j] == one);
        assert(market.traders.vals().contains(one));
        lemma_filtered(market.traders.vals(), on, one);
        let i = choose|i: int| 0 <= i < found.len() && found[i] == one;
        assert(found.map_values(id)[i] == TraderId(trader));
    }
}

/// News of the market is played on every symbol that is listed, and news of a
/// company on the one it names; the magnitude is above zero and at most five.
pub proof fn law_news_is_played_where_it_belongs(
    market: Market,
    kind: GameEventKind,
    magnitude: Real,
    symbol: Option<String>,
    source: String,
    note: Option<String>,
    r: Result<Plan, ApiError>,
)
    requires
        market.wf(),
        call_ensures(plan, (&market, Command::GameEvent { kind, magnitude, symbol, source, note }), r),
    ensures
        r is Ok ==> 0 < magnitude.0 <= 0x4014_0000_0000_0000,
        ({
            let everywhere = kind is MarketCrash || kind is MarketRally || kind is RateHike || kind is RateCut;
            &&& 0 < magnitude.0 <= 0x4014_0000_0000_0000 && everywhere ==> r is Ok
            &&& r matches Ok(done) ==> (done matches Plan::Play { kind: k, magnitude: m, symbols, .. } && k == kind && m
                == magnitude && (if everywhere {
                symbols@ == market.listings.tickers@
            } else {
                symbol is Some && symbols@.len() == 1 && same_ignoring_case(symbols@[0]@, symbol->0@)
            }))
        }),
{
    if r is Ok && !(kind is MarketCrash || kind is MarketRally || kind is RateHike || kind is RateCut) {
        match r->Ok_0 {
            Plan::Play { symbols, .. } => {
                let i = choose|i: int| #[trigger]
                    market.listings.first_at(i, symbol->0@) && symbols@[0] == market.listings.tickers@[i];
                assert(Listings::is_at(market.listings.tickers@, i, symbol->0@));
            },
            _ => {},
        }
    }
}

/// A symbol is listed where it has shares and is not listed yet.
pub proof fn law_a_symbol_is_listed_once(market: Market, listing: Listing, r: Result<Plan, ApiError>)
    requires
        market.wf(),
        call_ensures(plan, (&market, Command::ListSymbol { listing }), r),
    ensures
        r is Ok <==> listing.shares_outstanding > 0 && forall|i: int|
            0 <= i < market.listings.tickers@.len() ==> !same_ignoring_case(
                (#[trigger] market.listings.tickers@[i])@,
                listing.symbol@,
            ),
        r matches Ok(done) ==> done == (Plan::List { listing }),
{
    if market.listings.lists(listing.symbol@) {
        let i = choose|i: int|
            0 <= i < market.listings.tickers@.len() && #[trigger] Listings::is_at(
                market.listings.tickers@,
                i,
                listing.symbol@,
            );
        assert(same_ignoring_case(market.listings.tickers@[i]@, listing.symbol@));
    } else {
        assert forall|i: int| 0 <= i < market.listings.tickers@.len() implies !same_ignoring_case(
            (#[trigger] market.listings.tickers@[i])@,
            listing.symbol@,
        ) by {
            assert(!Listings::is_at(market.listings.tickers@, i, listing.symbol@));
        }
    }
}

/// A command is answered as created where it makes something new, as accepted
/// where what it sets off comes later, and as done otherwise; an order that
/// was sent before is not made again.
pub proof fn law_a_command_is_answered_for_what_it_does(command: Command, first: u16, again: u16)
    requires
        call_ensures(Command::status, (&command, false), first),
        call_ensures(Command::status, (&command, true), again),
    ensures
        first == 201 <==> command is CreateUser || command is OpenAccount || command is CreateTrader
            || command is PlaceOrder || command is PlaceStop || command is ListSymbol,
        first == 202 <==> command is Delist || command is Dividend || command is SimEvent || command is GameEvent,
        first == 200 || first == 201 || first == 202,
        command is PlaceOrder ==> again == 200,
        !(command is PlaceOrder) ==> again == first,
{
}

} // verus!
