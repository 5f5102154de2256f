//! Start-up options.

use vstd::prelude::*;

use crate::account::MAX_BALANCE_CENTS;
use crate::ledger::{Draft, Posting, Reason, WalletId};
use crate::num::max_int;
use crate::text::{
    number_of, opt_text, parse_u32, split_at_first, split_once, trim, trimmed,
};
use crate::trading::Fees;

verus! {

/// The hours the market is open, in seconds since midnight UTC.
#[derive(Clone, Copy, Debug, PartialEq, Eq, Structural)]
pub struct MarketHours {
    pub open_secs: u32,
    pub close_secs: u32,
}

/// What a server is started with, as far as it is whole numbers and text.
#[derive(Clone, Debug)]
pub struct Options {
    /// Daily bars of coarse pre-history to generate.
    pub history_days: usize,
    /// Hours of fine ticks before "now".
    pub warmup_hours: u64,
    /// Simulated "now" at start-up; defaults to the wall clock.
    pub now_ms: Option<i64>,
    /// Completed bars retained per interval.
    pub max_bars: usize,
    /// Events retained in the log.
    pub event_log: usize,
    /// Trades retained on each symbol's tape.
    pub tape_len: usize,
    /// Fills retained per trader.
    pub fill_log: usize,
    /// Ledger entries retained per account.
    pub ledger_log: usize,
    /// Orders retained in the order log. Live orders are never dropped.
    pub order_log: usize,
    /// Answers kept for retried commands.
    pub command_log: usize,
    /// Cash a new account is opened with, in cents. Paid out of treasury,
    /// not minted.
    pub starting_cash_cents: i64,
    /// The world's opening supply, minted into treasury at start-up.
    pub genesis_cents: i64,
    /// What the synthetic counterparty starts with, out of the genesis
    /// supply.
    pub synthetic_float_cents: i64,
    /// What each newly listed symbol's issuer wallet is funded with out of
    /// treasury, in cents.
    pub issuer_float_cents: i64,
    /// Key the game-master endpoints require; `None` leaves them open.
    pub admin_key: Option<String>,
    /// Seconds between saves.
    pub save_secs: u64,
    /// The trading calendar every symbol runs on; `None` means the market
    /// never closes.
    pub market_hours: Option<MarketHours>,
    /// How long an automatic halt lasts, in simulated seconds.
    pub halt_secs: u64,
    /// Stream messages kept for replay; `0` keeps none.
    pub stream_replay: usize,
    /// The price step every symbol quotes and trades in, in cents.
    pub tick_cents: i64,
    /// The share lot every symbol trades in.
    pub lot: u64,
    /// Symbols the market may list at once.
    pub max_symbols: usize,
    /// What a taker pays, in basis points of the fill's notional.
    pub taker_fee_bps: i64,
    /// What a maker is paid, in basis points, as a negative number.
    pub maker_fee_bps: i64,
}

/// `x` brought into `lo..=hi`.
pub open spec fn within(x: int, lo: int, hi: int) -> int {
    if x < lo {
        lo
    } else if x > hi {
        hi
    } else {
        x
    }
}

fn clamp_to(x: i64, lo: i64, hi: i64) -> (r: i64)
    requires
        lo <= hi,
    ensures
        r == within(x as int, lo as int, hi as int),
{
    if x < lo {
        lo
    } else if x > hi {
        hi
    } else {
        x
    }
}

impl Default for Options {
    fn default() -> (options: Self)
        ensures
            options.history_days == 365,
            options.warmup_hours == 72,
            options.now_ms is None,
            options.max_bars == 5_000,
            options.event_log == 500,
            options.tape_len == 2_000,
            options.fill_log == 500,
            options.ledger_log == 500,
            options.order_log == 2_000,
            options.command_log == 10_000,
            options.starting_cash_cents == 10_000_000,
            options.genesis_cents == 100_000_000_000_000,
            options.synthetic_float_cents == 50_000_000_000_000,
            options.issuer_float_cents == 100_000_000_000,
            options.admin_key is None,
            options.save_secs == 30,
            options.market_hours is None,
            options.halt_secs == 300,
            options.stream_replay == 1_024,
            options.tick_cents == 1,
            options.lot == 1,
            options.max_symbols == 32,
            options.taker_fee_bps == 0,
            options.maker_fee_bps == 0,
    {
        Options {
            history_days: 365,
            warmup_hours: 72,
            now_ms: None,
            max_bars: 5_000,
            event_log: 500,
            tape_len: 2_000,
            fill_log: 500,
            ledger_log: 500,
            order_log: 2_000,
            command_log: 10_000,
            starting_cash_cents: 10_000_000,
            genesis_cents: 100_000_000_000_000,
            synthetic_float_cents: 50_000_000_000_000,
            issuer_float_cents: 100_000_000_000,
            admin_key: None,
            save_secs: 30,
            market_hours: None,
            halt_secs: 300,
            stream_replay: 1_024,
            tick_cents: 1,
            lot: 1,
            max_symbols: 32,
            taker_fee_bps: 0,
            maker_fee_bps: 0,
        }
    }
}

impl Options {
    /// What the venue charges: a taker fee is never negative, a maker fee is
    /// never positive, and neither is more than the whole fill.
    pub open spec fn charges(&self) -> Fees {
        Fees {
            taker_bps: within(self.taker_fee_bps as int, 0, 10_000) as i64,
            maker_bps: within(self.maker_fee_bps as int, -10_000, 0) as i64,
        }
    }

    /// What the venue charges, with the two restrictions the settlement path
    /// depends on applied.
    pub fn fees(&self) -> (fees: Fees)
        ensures
            fees == self.charges(),
    {
        Fees {
            taker_bps: clamp_to(self.taker_fee_bps, 0, 10_000),
            maker_bps: clamp_to(self.maker_fee_bps, -10_000, 0),
        }
    }

    /// The options as the server takes them: every number brought into its
    /// range. `max_tickers` is how many symbols can be told apart at all.
    pub open spec fn bounded(self, max_tickers: usize) -> Options {
        Options {
            genesis_cents: within(self.genesis_cents as int, 0, MAX_BALANCE_CENTS as int) as i64,
            synthetic_float_cents: max_int(self.synthetic_float_cents as int, 0) as i64,
            issuer_float_cents: max_int(self.issuer_float_cents as int, 0) as i64,
            save_secs: max_int(self.save_secs as int, 1) as u64,
            halt_secs: max_int(self.halt_secs as int, 1) as u64,
            tick_cents: within(self.tick_cents as int, 1, 1_000_000) as i64,
            lot: within(self.lot as int, 1, 1_000_000) as u64,
            max_symbols: within(self.max_symbols as int, 1, max_tickers as int) as usize,
            ..self
        }
    }

    /// Bring every number into its range.
    pub fn clamped(self, max_tickers: usize) -> (options: Self)
        requires
            max_tickers >= 1,
        ensures
            options == self.bounded(max_tickers),
    {
        Options {
            genesis_cents: clamp_to(self.genesis_cents, 0, MAX_BALANCE_CENTS),
            synthetic_float_cents: if self.synthetic_float_cents < 0 {
                0
            } else {
                self.synthetic_float_cents
            },
            issuer_float_cents: if self.issuer_float_cents < 0 {
                0
            } else {
                self.issuer_float_cents
            },
            save_secs: if self.save_secs < 1 {
                1
            } else {
                self.save_secs
            },
            halt_secs: if self.halt_secs < 1 {
                1
            } else {
                self.halt_secs
            },
            tick_cents: clamp_to(self.tick_cents, 1, 1_000_000),
            lot: if self.lot < 1 {
                1
            } else if self.lot > 1_000_000 {
                1_000_000
            } else {
                self.lot
            },
            max_symbols: if self.max_symbols < 1 {
                1
            } else if self.max_symbols > max_tickers {
                max_tickers
            } else {
                self.max_symbols
            },
            ..self
        }
    }

    /// What a fresh world mints into treasury, and how much of that it hands
    /// the synthetic counterparty.
    pub open spec fn opening(&self) -> (int, int) {
        let genesis = within(self.genesis_cents as int, 0, MAX_BALANCE_CENTS as int);
        (genesis, within(self.synthetic_float_cents as int, 0, genesis))
    }

    /// What a fresh world mints into treasury, and the movement that hands
    /// the synthetic counterparty its float, where it gets one.
    pub fn genesis(&self, treasury: WalletId, synthetic: WalletId) -> (r: (i64, Option<Draft>))
        ensures
            r.0 == self.opening().0,
            match r.1 {
                Some(draft) => {
                    &&& self.opening().1 > 0
                    &&& draft.reason is Transfer
                    &&& draft.at_ms == 0
                    &&& draft.memo is None
                    &&& draft.postings@ == seq![
                        Posting { wallet: treasury, cents: (-self.opening().1) as i64 },
                        Posting { wallet: synthetic, cents: self.opening().1 as i64 },
                    ]
                },
                None => self.opening().1 == 0,
            },
    {
        let genesis: i64 = clamp_to(self.genesis_cents, 0, MAX_BALANCE_CENTS);
        let float: i64 = clamp_to(self.synthetic_float_cents, 0, genesis);
        if float > 0 {
            let draft = Draft::new(Reason::Transfer).debit(treasury, float).credit(synthetic, float);
            proof {
                assert(draft.postings@ =~= seq![
                    Posting { wallet: treasury, cents: (-self.opening().1) as i64 },
                    Posting { wallet: synthetic, cents: self.opening().1 as i64 },
                ]);
            }
            (genesis, Some(draft))
        } else {
            (genesis, None)
        }
    }
}

/// What is kept of an admin key: trimmed, and nothing where nothing is left.
pub fn clean_admin_key(key: Option<String>) -> (r: Option<String>)
    ensures
        opt_text(r) == (match key {
            Some(k) => if trimmed(k@).len() == 0 {
                None
            } else {
                Some(trimmed(k@))
            },
            None => None,
        }),
{
    match key {
        None => None,
        Some(k) => {
            let text = trim(k.as_str());
            if text.as_str().is_empty() {
                None
            } else {
                Some(text)
            }
        },
    }
}

/// The seconds since midnight that `HH:MM` writes.
pub open spec fn clock_secs(hhmm: Seq<char>) -> Option<int> {
    match split_at_first(trimmed(hhmm), ':') {
        None => None,
        Some((h, m)) => match (number_of(trimmed(h)), number_of(trimmed(m))) {
            (Some(h), Some(m)) => if h < 24 && m < 60 {
                Some((h * 3600 + m * 60) as int)
            } else {
                None
            },
            _ => None,
        },
    }
}

/// The calendar that `HH:MM-HH:MM` writes: one that opens before it closes.
pub open spec fn calendar(value: Seq<char>) -> Option<(int, int)> {
    match split_at_first(trimmed(value), '-') {
        None => None,
        Some((open, close)) => match (clock_secs(open), clock_secs(close)) {
            (Some(open), Some(close)) => if open < close {
                Some((open, close))
            } else {
                None
            },
            _ => None,
        },
    }
}

fn parse_clock(hhmm: &str) -> (r: Option<u32>)
    ensures
        match r {
            Some(secs) => clock_secs(hhmm@) == Some(secs as int),
            None => clock_secs(hhmm@) is None,
        },
{
    let text = trim(hhmm);
    match split_once(text.as_str(), ':') {
        None => None,
        Some((h, m)) => {
            let hours = match parse_u32(trim(h.as_str()).as_str()) {
                Some(hours) => hours,
                None => {
                    return None;
                },
            };
            let minutes = match parse_u32(trim(m.as_str()).as_str()) {
                Some(minutes) => minutes,
                None => {
                    return None;
                },
            };
            if hours < 24 && minutes < 60 {
                Some(hours * 3600 + minutes * 60)
            } else {
                None
            }
        },
    }
}

/// A trading calendar from `HH:MM-HH:MM` (UTC). Anything else — `off`, an
/// empty string, nonsense — means no calendar at all.
pub fn parse_market_hours(value: &str) -> (r: Option<MarketHours>)
    ensures
        match r {
            Some(hours) => calendar(value@) == Some((hours.open_secs as int, hours.close_secs as int)),
            None => calendar(value@) is None,
        },
{
    let text = trim(value);
    match split_once(text.as_str(), '-') {
        None => None,
        Some((open, close)) => {
            let open_secs: u32 = match parse_clock(open.as_str()) {
                Some(secs) => secs,
                None => {
                    return None;
                },
            };
            let close_secs: u32 = match parse_clock(close.as_str()) {
                Some(secs) => secs,
                None => {
                    return None;
                },
            };
            if open_secs < close_secs {
                Some(MarketHours { open_secs, close_secs })
            } else {
                None
            }
        },
    }
}

// ---------------------------------------------------------------------------
// Laws

/// A venue never pays takers and never charges makers, whatever it was
/// started with.
pub proof fn law_fees_are_bounded(options: Options)
    ensures
        0 <= options.charges().taker_bps <= 10_000,
        -10_000 <= options.charges().maker_bps <= 0,
{
}

/// A calendar that was accepted opens before it closes, within one day.
pub proof fn law_a_calendar_fits_in_a_day(value: Seq<char>)
    ensures
        calendar(value) matches Some(hours) ==> 0 <= hours.0 < hours.1 < 86_400,
{
}

/// A fee in range is charged as it was asked for, and one out of range at the
/// end of the range it went past. What a taker pays is never a rebate, what a
/// maker pays never a charge.
pub proof fn law_a_fee_in_range_is_charged_as_asked(options: Options, fees: Fees)
    requires
        call_ensures(Options::fees, (&options,), fees),
    ensures
        0 <= options.taker_fee_bps <= 10_000 ==> fees.taker_bps == options.taker_fee_bps,
        options.taker_fee_bps < 0 ==> fees.taker_bps == 0,
        options.taker_fee_bps > 10_000 ==> fees.taker_bps == 10_000,
        -10_000 <= options.maker_fee_bps <= 0 ==> fees.maker_bps == options.maker_fee_bps,
        options.maker_fee_bps > 0 ==> fees.maker_bps == 0,
        options.maker_fee_bps < -10_000 ==> fees.maker_bps == -10_000,
{
}

/// Settings in range are used as they are, and settings once brought into
/// range stay there. What has no range is never touched.
pub proof fn law_settings_in_range_are_kept(given: Options, max_tickers: usize, used: Options)
    requires
        max_tickers >= 1,
        call_ensures(Options::clamped, (given, max_tickers), used),
    ensures
        0 <= used.genesis_cents <= MAX_BALANCE_CENTS,
        0 <= used.synthetic_float_cents,
        0 <= used.issuer_float_cents,
        1 <= used.save_secs,
        1 <= used.halt_secs,
        1 <= used.tick_cents <= 1_000_000,
        1 <= used.lot <= 1_000_000,
        1 <= used.max_symbols <= max_tickers,
        0 <= given.genesis_cents <= MAX_BALANCE_CENTS && 0 <= given.synthetic_float_cents && 0
            <= given.issuer_float_cents && 1 <= given.save_secs && 1 <= given.halt_secs && 1 <= given.tick_cents
            <= 1_000_000 && 1 <= given.lot <= 1_000_000 && 1 <= given.max_symbols <= max_tickers ==> used == given,
        0 <= given.genesis_cents <= MAX_BALANCE_CENTS ==> used.genesis_cents == given.genesis_cents,
        0 <= given.synthetic_float_cents ==> used.synthetic_float_cents == given.synthetic_float_cents,
        0 <= given.issuer_float_cents ==> used.issuer_float_cents == given.issuer_float_cents,
        1 <= given.save_secs ==> used.save_secs == given.save_secs,
        1 <= given.halt_secs ==> used.halt_secs == given.halt_secs,
        1 <= given.tick_cents <= 1_000_000 ==> used.tick_cents == given.tick_cents,
        1 <= given.lot <= 1_000_000 ==> used.lot == given.lot,
        1 <= given.max_symbols <= max_tickers ==> used.max_symbols == given.max_symbols,
        used.starting_cash_cents == given.starting_cash_cents,
        used.taker_fee_bps == given.taker_fee_bps,
        used.maker_fee_bps == given.maker_fee_bps,
        used.bounded(max_tickers) == used,
{
}

/// The money that the market opens with is all in the treasury but for the
/// float, which the treasury pays to the synthetic traders: the opening entry
/// takes from the one what it gives to the other, and never more than there
/// is.
pub proof fn law_the_opening_float_comes_out_of_the_genesis(
    options: Options,
    treasury: WalletId,
    synthetic: WalletId,
    r: (i64, Option<Draft>),
)
    requires
        call_ensures(Options::genesis, (&options, treasury, synthetic), r),
    ensures
        0 <= r.0 <= MAX_BALANCE_CENTS,
        0 <= options.genesis_cents <= MAX_BALANCE_CENTS ==> r.0 == options.genesis_cents,
        r.1 matches Some(draft) ==> {
            &&& draft.postings@.len() == 2
            &&& draft.postings@[0].wallet == treasury
            &&& draft.postings@[1].wallet == synthetic
            &&& draft.postings@[0].cents + draft.postings@[1].cents == 0
            &&& 0 < draft.postings@[1].cents <= r.0
            &&& 0 < options.synthetic_float_cents <= r.0 ==> draft.postings@[1].cents
                == options.synthetic_float_cents
        },
        r.1 is None <==> options.synthetic_float_cents <= 0 || r.0 == 0,
{
}

/// An administrator's key is used without the blanks around it, and one that
/// is all blanks is no key.
pub proof fn law_a_blank_key_is_no_key(key: String, r: Option<String>)
    requires
        call_ensures(clean_admin_key, (Some(key),), r),
    ensures
        r is None <==> trimmed(key@).len() == 0,
        r matches Some(k) ==> k@ == trimmed(key@) && k@.len() > 0,
{
}

/// A clock time is its hour and its minute: taking it apart again gives the
/// two numbers that were written.
pub proof fn law_a_clock_time_is_its_hour_and_minute(hhmm: Seq<char>)
    ensures
        clock_secs(hhmm) matches Some(secs) ==> {
            &&& split_at_first(trimmed(hhmm), ':') is Some
            &&& number_of(trimmed((split_at_first(trimmed(hhmm), ':')->0).0)) == Some((secs / 3600) as nat)
            &&& number_of(trimmed((split_at_first(trimmed(hhmm), ':')->0).1)) == Some((secs % 3600 / 60) as nat)
            &&& secs % 60 == 0
            &&& 0 <= secs < 86_400
        },
{
}

/// Trading hours open at the first time that is written and close at the
/// second, later one.
pub proof fn law_trading_hours_are_the_two_times(value: &str, r: Option<MarketHours>)
    requires
        call_ensures(parse_market_hours, (value,), r),
    ensures
        r matches Some(hours) ==> {
            let parts = split_at_first(trimmed(value@), '-');
            &&& parts is Some
            &&& clock_secs((parts->0).0) == Some(hours.open_secs as int)
            &&& clock_secs((parts->0).1) == Some(hours.close_secs as int)
            &&& hours.open_secs < hours.close_secs
        },
        split_at_first(trimmed(value@), '-') matches Some(parts) ==> (clock_secs(parts.0) matches Some(open) ==> (
        clock_secs(parts.1) matches Some(close) ==> (r is Some <==> open < close))),
{
}

} // verus!
