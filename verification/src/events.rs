//! Events: the game-event catalogue, the simulator events it stands for, and
//! the log of what was accepted.

use std::collections::VecDeque;

use vstd::prelude::*;

use crate::jobs::lemma_filtered;
use crate::num::max_int;
use crate::text::{copy_text, eq_ignoring_case, same_ignoring_case};

verus! {

/// The sign bit of a [`Real`].
pub const SIGN: u64 = 0x8000_0000_0000_0000;

/// The size of the number one.
pub const SIZE_OF_ONE: u64 = 0x3ff0_0000_0000_0000;

/// The size of 10^12, the longest a half-life or a delay may be, in seconds.
pub const SIZE_OF_LONGEST: u64 = 0x426d_1a94_a200_0000;

/// The size of infinity: a number that is not finite has this size or more.
pub const SIZE_OF_INFINITY: u64 = 0x7ff0_0000_0000_0000;

/// Largest accepted `magnitude` of a game event. Keeps every scaled jump
/// above −100 %.
pub const MAX_MAGNITUDE: i64 = 5;

/// The size of [`MAX_MAGNITUDE`] as a [`Real`].
pub const SIZE_OF_MAX_MAGNITUDE: u64 = 0x4014_0000_0000_0000;

/// A number with a fraction, by the bits that represent it in double
/// precision: the top bit is its sign, and the other bits, read as an
/// integer, its size, which grows as the number goes away from zero.
#[derive(Clone, Copy, Debug, PartialEq, Eq, Hash, Structural)]
pub struct Real(pub u64);

impl Real {
    /// How far the number is from zero, on a scale of its own.
    pub open spec fn size(self) -> int {
        if self.0 >= SIGN {
            self.0 - SIGN
        } else {
            self.0 as int
        }
    }

    /// Below zero, or a zero with a sign.
    pub open spec fn negative(self) -> bool {
        self.0 >= SIGN
    }

    /// Neither infinite nor not a number.
    pub open spec fn finite(self) -> bool {
        self.size() < SIZE_OF_INFINITY
    }

    /// At most −1, and a number at all.
    pub open spec fn at_most_minus_one(self) -> bool {
        self.negative() && SIZE_OF_ONE <= self.size() <= SIZE_OF_INFINITY
    }

    /// Above zero and no more than 10^12.
    pub open spec fn half_life(self) -> bool {
        !self.negative() && 0 < self.size() <= SIZE_OF_LONGEST
    }

    /// Zero, with either sign, or above it and no more than 10^12.
    pub open spec fn delay(self) -> bool {
        self.size() == 0 || self.half_life()
    }

    /// Above zero and no more than [`MAX_MAGNITUDE`].
    pub open spec fn magnitude(self) -> bool {
        !self.negative() && 0 < self.size() <= SIZE_OF_MAX_MAGNITUDE
    }

    /// Neither infinite nor not a number.
    pub fn is_finite(self) -> (r: bool)
        ensures
            r == self.finite(),
    {
        if self.0 >= SIGN {
            self.0 - SIGN < SIZE_OF_INFINITY
        } else {
            self.0 < SIZE_OF_INFINITY
        }
    }

    /// At most −1, and a number at all.
    pub fn is_at_most_minus_one(self) -> (r: bool)
        ensures
            r == self.at_most_minus_one(),
    {
        self.0 >= SIGN && SIZE_OF_ONE <= self.0 - SIGN && self.0 - SIGN <= SIZE_OF_INFINITY
    }

    /// A number of seconds something may take to halve.
    pub fn is_half_life(self) -> (r: bool)
        ensures
            r == self.half_life(),
    {
        0 < self.0 && self.0 <= SIZE_OF_LONGEST
    }

    /// A number of seconds something may wait.
    pub fn is_delay(self) -> (r: bool)
        ensures
            r == self.delay(),
    {
        self.0 == SIGN || self.0 <= SIZE_OF_LONGEST
    }

    /// What a game event may be scaled by.
    pub fn is_magnitude(self) -> (r: bool)
        ensures
            r == self.magnitude(),
    {
        0 < self.0 && self.0 <= SIZE_OF_MAX_MAGNITUDE
    }
}

/// A raw simulator event.
#[derive(Clone, Copy, Debug, PartialEq, Eq, Structural)]
pub enum SimEvent {
    /// Immediate multiplicative move.
    Jump { pct: Real },
    /// Annualised drift added to the price, halving every `half_life_secs`.
    DriftShift { delta: Real, half_life_secs: Real },
    /// A drift shift sized so its integrated effect is a log move of `total`.
    DriftForTotalMove { total: Real, half_life_secs: Real },
    /// Annualised volatility added (or removed), halving every
    /// `half_life_secs`.
    VolShift { delta: Real, half_life_secs: Real },
    /// Permanently multiplies the fundamental value by `e^delta`.
    FundamentalShift { delta: Real },
    /// Sets the fundamental's target price outright.
    FundamentalTarget { target_cents: i64 },
}

impl SimEvent {
    /// The name an event is logged under.
    pub open spec fn name_text(self) -> Seq<char> {
        match self {
            SimEvent::Jump { .. } => "jump"@,
            SimEvent::DriftShift { .. } => "drift_shift"@,
            SimEvent::DriftForTotalMove { .. } => "drift_for_total_move"@,
            SimEvent::VolShift { .. } => "vol_shift"@,
            SimEvent::FundamentalShift { .. } => "fundamental_shift"@,
            SimEvent::FundamentalTarget { .. } => "fundamental_target"@,
        }
    }

    /// The name an event is logged under.
    pub fn name(&self) -> (name: &'static str)
        ensures
            name@ == self.name_text(),
    {
        match *self {
            SimEvent::Jump { .. } => "jump",
            SimEvent::DriftShift { .. } => "drift_shift",
            SimEvent::DriftForTotalMove { .. } => "drift_for_total_move",
            SimEvent::VolShift { .. } => "vol_shift",
            SimEvent::FundamentalShift { .. } => "fundamental_shift",
            SimEvent::FundamentalTarget { .. } => "fundamental_target",
        }
    }
}

/// A number an event carries.
#[derive(Clone, Copy, Debug, PartialEq, Eq, Structural)]
pub enum Field {
    Pct,
    Delta,
    Total,
}

/// What the simulator itself will not take.
#[derive(Clone, Copy, Debug, PartialEq, Eq, Structural)]
pub enum EventError {
    /// A jump to nothing, or to less than nothing.
    JumpBelowMinusOne,
}

/// Why an event was rejected before reaching the simulator.
#[derive(Clone, Copy, Debug, PartialEq, Eq, Structural)]
pub enum EventRejected {
    NotFinite(Field),
    HalfLife,
    Target,
    Sim(EventError),
}

impl EventRejected {
    /// What the rejection says; `sim_words` is what the simulator says of an
    /// error of its own.
    pub open spec fn words(self, sim_words: Seq<char>) -> Seq<char> {
        match self {
            EventRejected::NotFinite(Field::Pct) => "`pct` must be a finite number"@,
            EventRejected::NotFinite(Field::Delta) => "`delta` must be a finite number"@,
            EventRejected::NotFinite(Field::Total) => "`total` must be a finite number"@,
            EventRejected::HalfLife => "`half_life_secs` must be a positive number of seconds"@,
            EventRejected::Target => "`target_cents` must be at least 1"@,
            EventRejected::Sim(_) => sim_words,
        }
    }

    /// What the rejection says.
    pub fn message(self, sim_words: &str) -> (text: String)
        ensures
            text@ == self.words(sim_words@),
    {
        match self {
            EventRejected::NotFinite(Field::Pct) => "`pct` must be a finite number".to_owned(),
            EventRejected::NotFinite(Field::Delta) => "`delta` must be a finite number".to_owned(),
            EventRejected::NotFinite(Field::Total) => "`total` must be a finite number".to_owned(),
            EventRejected::HalfLife => "`half_life_secs` must be a positive number of seconds".to_owned(),
            EventRejected::Target => "`target_cents` must be at least 1".to_owned(),
            EventRejected::Sim(_) => sim_words.to_owned(),
        }
    }
}

/// A validated event ready to be applied.
#[derive(Clone, Copy, Debug, PartialEq, Eq, Structural)]
pub enum Prepared {
    /// Takes effect at the first tick at or after its time.
    Queue(SimEvent),
    /// Takes effect at once.
    SetFundamental(i64),
}

/// The event is queued where both its numbers will do, the first looked at
/// first.
pub open spec fn queued(event: SimEvent, field: Field, number: Real, half_life_secs: Real) -> Result<
    Prepared,
    EventRejected,
> {
    if !number.finite() {
        Err(EventRejected::NotFinite(field))
    } else if !half_life_secs.half_life() {
        Err(EventRejected::HalfLife)
    } else {
        Ok(Prepared::Queue(event))
    }
}

fn queue(event: SimEvent, field: Field, number: Real, half_life_secs: Real) -> (r: Result<Prepared, EventRejected>)
    ensures
        r == queued(event, field, number, half_life_secs),
{
    if !number.is_finite() {
        Err(EventRejected::NotFinite(field))
    } else if !half_life_secs.is_half_life() {
        Err(EventRejected::HalfLife)
    } else {
        Ok(Prepared::Queue(event))
    }
}

impl SimEvent {
    /// What validating the event comes to.
    pub open spec fn prepared(self) -> Result<Prepared, EventRejected> {
        match self {
            SimEvent::Jump { pct } => if !pct.finite() {
                Err(EventRejected::NotFinite(Field::Pct))
            } else if pct.at_most_minus_one() {
                Err(EventRejected::Sim(EventError::JumpBelowMinusOne))
            } else {
                Ok(Prepared::Queue(self))
            },
            SimEvent::DriftShift { delta, half_life_secs } => queued(self, Field::Delta, delta, half_life_secs),
            SimEvent::DriftForTotalMove { total, half_life_secs } => queued(
                self,
                Field::Total,
                total,
                half_life_secs,
            ),
            SimEvent::VolShift { delta, half_life_secs } => queued(self, Field::Delta, delta, half_life_secs),
            SimEvent::FundamentalShift { delta } => if !delta.finite() {
                Err(EventRejected::NotFinite(Field::Delta))
            } else {
                Ok(Prepared::Queue(self))
            },
            SimEvent::FundamentalTarget { target_cents } => if target_cents < 1 {
                Err(EventRejected::Target)
            } else {
                Ok(Prepared::SetFundamental(target_cents))
            },
        }
    }

    /// Validate every field, so applying to several simulators cannot fail
    /// half-way through.
    pub fn prepare(&self) -> (r: Result<Prepared, EventRejected>)
        ensures
            r == self.prepared(),
    {
        match *self {
            SimEvent::Jump { pct } => if !pct.is_finite() {
                Err(EventRejected::NotFinite(Field::Pct))
            } else if pct.is_at_most_minus_one() {
                Err(EventRejected::Sim(EventError::JumpBelowMinusOne))
            } else {
                Ok(Prepared::Queue(*self))
            },
            SimEvent::DriftShift { delta, half_life_secs } => queue(*self, Field::Delta, delta, half_life_secs),
            SimEvent::DriftForTotalMove { total, half_life_secs } => queue(
                *self,
                Field::Total,
                total,
                half_life_secs,
            ),
            SimEvent::VolShift { delta, half_life_secs } => queue(*self, Field::Delta, delta, half_life_secs),
            SimEvent::FundamentalShift { delta } => if !delta.is_finite() {
                Err(EventRejected::NotFinite(Field::Delta))
            } else {
                Ok(Prepared::Queue(*self))
            },
            SimEvent::FundamentalTarget { target_cents } => if target_cents < 1 {
                Err(EventRejected::Target)
            } else {
                Ok(Prepared::SetFundamental(target_cents))
            },
        }
    }
}

/// A wait, and where it leads.
#[derive(Clone, Copy, Debug)]
pub struct Delay {
    /// Simulated seconds from now.
    pub secs: Real,
    /// The instant that many seconds from now, where `secs` is a wait at all.
    pub until_ms: i64,
}

/// When an event takes effect. Both fields absent means "now".
#[derive(Clone, Copy, Debug)]
pub struct Timing {
    /// Absolute simulated time, milliseconds since the epoch.
    pub at_ms: Option<i64>,
    /// A wait from now.
    pub delay: Option<Delay>,
}

impl Timing {
    /// When the event takes effect, or why that cannot be told.
    pub fn resolve(self, now_ms: i64) -> (r: Result<i64, String>)
        ensures
            match (self.at_ms, self.delay) {
                (Some(_), Some(_)) => r matches Err(why) && why@
                    == "give either `at_ms` or `delay_secs`, not both"@,
                (Some(at), None) => r == Ok::<i64, String>(at),
                (None, Some(delay)) => if delay.secs.delay() {
                    r == Ok::<i64, String>(delay.until_ms)
                } else {
                    r matches Err(why) && why@ == "`delay_secs` must be a non-negative number"@
                },
                (None, None) => r == Ok::<i64, String>(now_ms),
            },
    {
        match (self.at_ms, self.delay) {
            (Some(_), Some(_)) => Err("give either `at_ms` or `delay_secs`, not both".to_owned()),
            (Some(at), None) => Ok(at),
            (None, Some(delay)) => if delay.secs.is_delay() {
                Ok(delay.until_ms)
            } else {
                Err("`delay_secs` must be a non-negative number".to_owned())
            },
            (None, None) => Ok(now_ms),
        }
    }
}

/// Semantic events a game emits. Each maps to a bundle of simulator events;
/// `magnitude` scales every move in the bundle (one is the reference size).
#[derive(Clone, Copy, Debug, PartialEq, Eq, Hash, Structural)]
pub enum GameEventKind {
    ProductLaunch,
    EarningsBeat,
    EarningsMiss,
    Scandal,
    Lawsuit,
    Buyback,
    CeoResigns,
    Hype,
    MarketCrash,
    MarketRally,
    RateHike,
    RateCut,
}

/// Whether a game event hits one company or the whole market.
#[derive(Clone, Copy, Debug, PartialEq, Eq, Structural)]
pub enum Scope {
    Company,
    Market,
}

impl GameEventKind {
    /// Every kind, in the order of the catalogue.
    pub const ALL: [GameEventKind; 12] = [
        GameEventKind::ProductLaunch,
        GameEventKind::EarningsBeat,
        GameEventKind::EarningsMiss,
        GameEventKind::Scandal,
        GameEventKind::Lawsuit,
        GameEventKind::Buyback,
        GameEventKind::CeoResigns,
        GameEventKind::Hype,
        GameEventKind::MarketCrash,
        GameEventKind::MarketRally,
        GameEventKind::RateHike,
        GameEventKind::RateCut,
    ];

    /// The whole market is hit by what happens to it as a whole, and by
    /// interest rates.
    pub open spec fn reach(self) -> Scope {
        match self {
            GameEventKind::MarketCrash => Scope::Market,
            GameEventKind::MarketRally => Scope::Market,
            GameEventKind::RateHike => Scope::Market,
            GameEventKind::RateCut => Scope::Market,
            _ => Scope::Company,
        }
    }

    /// What the event hits.
    pub fn scope(self) -> (scope: Scope)
        ensures
            scope == self.reach(),
    {
        match self {
            GameEventKind::MarketCrash => Scope::Market,
            GameEventKind::MarketRally => Scope::Market,
            GameEventKind::RateHike => Scope::Market,
            GameEventKind::RateCut => Scope::Market,
            _ => Scope::Company,
        }
    }

    /// The name on the wire.
    pub open spec fn wire_name(self) -> Seq<char> {
        match self {
            GameEventKind::ProductLaunch => "product_launch"@,
            GameEventKind::EarningsBeat => "earnings_beat"@,
            GameEventKind::EarningsMiss => "earnings_miss"@,
            GameEventKind::Scandal => "scandal"@,
            GameEventKind::Lawsuit => "lawsuit"@,
            GameEventKind::Buyback => "buyback"@,
            GameEventKind::CeoResigns => "ceo_resigns"@,
            GameEventKind::Hype => "hype"@,
            GameEventKind::MarketCrash => "market_crash"@,
            GameEventKind::MarketRally => "market_rally"@,
            GameEventKind::RateHike => "rate_hike"@,
            GameEventKind::RateCut => "rate_cut"@,
        }
    }

    /// The name on the wire.
    pub fn name(self) -> (name: &'static str)
        ensures
            name@ == self.wire_name(),
    {
        match self {
            GameEventKind::ProductLaunch => "product_launch",
            GameEventKind::EarningsBeat => "earnings_beat",
            GameEventKind::EarningsMiss => "earnings_miss",
            GameEventKind::Scandal => "scandal",
            GameEventKind::Lawsuit => "lawsuit",
            GameEventKind::Buyback => "buyback",
            GameEventKind::CeoResigns => "ceo_resigns",
            GameEventKind::Hype => "hype",
            GameEventKind::MarketCrash => "market_crash",
            GameEventKind::MarketRally => "market_rally",
            GameEventKind::RateHike => "rate_hike",
            GameEventKind::RateCut => "rate_cut",
        }
    }

    /// The label a person reads.
    pub open spec fn called(self) -> Seq<char> {
        match self {
            GameEventKind::ProductLaunch => "Product launch"@,
            GameEventKind::EarningsBeat => "Earnings beat"@,
            GameEventKind::EarningsMiss => "Earnings miss"@,
            GameEventKind::Scandal => "Scandal"@,
            GameEventKind::Lawsuit => "Lawsuit"@,
            GameEventKind::Buyback => "Buyback"@,
            GameEventKind::CeoResigns => "CEO resigns"@,
            GameEventKind::Hype => "Hype"@,
            GameEventKind::MarketCrash => "Market crash"@,
            GameEventKind::MarketRally => "Market rally"@,
            GameEventKind::RateHike => "Rate hike"@,
            GameEventKind::RateCut => "Rate cut"@,
        }
    }

    /// The label a person reads.
    pub fn label(self) -> (label: &'static str)
        ensures
            label@ == self.called(),
    {
        match self {
            GameEventKind::ProductLaunch => "Product launch",
            GameEventKind::EarningsBeat => "Earnings beat",
            GameEventKind::EarningsMiss => "Earnings miss",
            GameEventKind::Scandal => "Scandal",
            GameEventKind::Lawsuit => "Lawsuit",
            GameEventKind::Buyback => "Buyback",
            GameEventKind::CeoResigns => "CEO resigns",
            GameEventKind::Hype => "Hype",
            GameEventKind::MarketCrash => "Market crash",
            GameEventKind::MarketRally => "Market rally",
            GameEventKind::RateHike => "Rate hike",
            GameEventKind::RateCut => "Rate cut",
        }
    }

    /// What the event does, for whoever reads the catalogue.
    pub open spec fn told(self) -> Seq<char> {
        match self {
            GameEventKind::ProductLaunch =>
                "Lasting value gain, a couple of hours of buying, mild excitement."@,
            GameEventKind::EarningsBeat => "Gap up, value re-rated higher, brief volatility."@,
            GameEventKind::EarningsMiss => "Gap down, value re-rated lower, an hour of turbulence."@,
            GameEventKind::Scandal => "Sharp drop, lasting damage, hours of panic and selling."@,
            GameEventKind::Lawsuit =>
                "Small drop and a half day of nervousness; value slightly impaired."@,
            GameEventKind::Buyback => "Slow steady bid over a day; value slightly higher."@,
            GameEventKind::CeoResigns => "Drop and a couple of hours of volatility; value unchanged."@,
            GameEventKind::Hype => "Pump with no change in value: the move fades as excitement decays."@,
            GameEventKind::MarketCrash => "Every symbol gaps down and stays volatile for hours."@,
            GameEventKind::MarketRally => "Every symbol gaps up with a day of follow-through."@,
            GameEventKind::RateHike => "Every symbol's value marked down, selling over a day."@,
            GameEventKind::RateCut => "Every symbol's value marked up, buying over a day."@,
        }
    }

    /// What the event does, for whoever reads the catalogue.
    pub fn description(self) -> (text: &'static str)
        ensures
            text@ == self.told(),
    {
        match self {
            GameEventKind::ProductLaunch => "Lasting value gain, a couple of hours of buying, mild excitement.",
            GameEventKind::EarningsBeat => "Gap up, value re-rated higher, brief volatility.",
            GameEventKind::EarningsMiss => "Gap down, value re-rated lower, an hour of turbulence.",
            GameEventKind::Scandal => "Sharp drop, lasting damage, hours of panic and selling.",
            GameEventKind::Lawsuit => "Small drop and a half day of nervousness; value slightly impaired.",
            GameEventKind::Buyback => "Slow steady bid over a day; value slightly higher.",
            GameEventKind::CeoResigns => "Drop and a couple of hours of volatility; value unchanged.",
            GameEventKind::Hype => "Pump with no change in value: the move fades as excitement decays.",
            GameEventKind::MarketCrash => "Every symbol gaps down and stays volatile for hours.",
            GameEventKind::MarketRally => "Every symbol gaps up with a day of follow-through.",
            GameEventKind::RateHike => "Every symbol's value marked down, selling over a day.",
            GameEventKind::RateCut => "Every symbol's value marked up, buying over a day.",
        }
    }

    /// The bundle the event stands for, at magnitude one.
    pub open spec fn bundle(self) -> Seq<Effect> {
        match self {
            GameEventKind::ProductLaunch => seq![
                Effect::FundamentalShift { delta: 6 },
                Effect::DriftForTotalMove { total: 4, half_life_secs: 7_200 },
                Effect::VolShift { delta: 10, half_life_secs: 3_600 },
            ],
            GameEventKind::EarningsBeat => seq![
                Effect::Jump { pct: 5 },
                Effect::FundamentalShift { delta: 4 },
                Effect::VolShift { delta: 15, half_life_secs: 1_800 },
            ],
            GameEventKind::EarningsMiss => seq![
                Effect::Jump { pct: -7 as i64 },
                Effect::FundamentalShift { delta: -5 as i64 },
                Effect::VolShift { delta: 25, half_life_secs: 3_600 },
            ],
            GameEventKind::Scandal => seq![
                Effect::Jump { pct: -10 as i64 },
                Effect::FundamentalShift { delta: -8 as i64 },
                Effect::VolShift { delta: 40, half_life_secs: 14_400 },
                Effect::DriftForTotalMove { total: -5 as i64, half_life_secs: 21_600 },
            ],
            GameEventKind::Lawsuit => seq![
                Effect::Jump { pct: -3 as i64 },
                Effect::FundamentalShift { delta: -2 as i64 },
                Effect::VolShift { delta: 20, half_life_secs: 43_200 },
            ],
            GameEventKind::Buyback => seq![
                Effect::FundamentalShift { delta: 2 },
                Effect::DriftForTotalMove { total: 3, half_life_secs: 86_400 },
            ],
            GameEventKind::CeoResigns => seq![
                Effect::Jump { pct: -4 as i64 },
                Effect::VolShift { delta: 30, half_life_secs: 7_200 },
            ],
            GameEventKind::Hype => seq![
                Effect::DriftForTotalMove { total: 8, half_life_secs: 3_600 },
                Effect::VolShift { delta: 30, half_life_secs: 7_200 },
            ],
            GameEventKind::MarketCrash => seq![
                Effect::Jump { pct: -8 as i64 },
                Effect::FundamentalShift { delta: -3 as i64 },
                Effect::VolShift { delta: 50, half_life_secs: 21_600 },
            ],
            GameEventKind::MarketRally => seq![
                Effect::Jump { pct: 4 },
                Effect::DriftForTotalMove { total: 3, half_life_secs: 21_600 },
            ],
            GameEventKind::RateHike => seq![
                Effect::FundamentalShift { delta: -2 as i64 },
                Effect::DriftForTotalMove { total: -2 as i64, half_life_secs: 86_400 },
            ],
            GameEventKind::RateCut => seq![
                Effect::FundamentalShift { delta: 2 },
                Effect::DriftForTotalMove { total: 2, half_life_secs: 86_400 },
            ],
        }
    }

    /// The bundle the event stands for, at magnitude one. At another
    /// magnitude every move is that many times as large. How long it takes is
    /// part of what the event is, and said in its description: a day of
    /// selling is a day of it at any size, so the half-lives stay.
    pub fn effects(self) -> (effects: Vec<Effect>)
        ensures
            effects@ == self.bundle(),
    {
        let effects: Vec<Effect> = match self {
            GameEventKind::ProductLaunch => vec![
                Effect::FundamentalShift { delta: 6 },
                Effect::DriftForTotalMove { total: 4, half_life_secs: 7_200 },
                Effect::VolShift { delta: 10, half_life_secs: 3_600 },
            ],
            GameEventKind::EarningsBeat => vec![
                Effect::Jump { pct: 5 },
                Effect::FundamentalShift { delta: 4 },
                Effect::VolShift { delta: 15, half_life_secs: 1_800 },
            ],
            GameEventKind::EarningsMiss => vec![
                Effect::Jump { pct: -7 },
                Effect::FundamentalShift { delta: -5 },
                Effect::VolShift { delta: 25, half_life_secs: 3_600 },
            ],
            GameEventKind::Scandal => vec![
                Effect::Jump { pct: -10 },
                Effect::FundamentalShift { delta: -8 },
                Effect::VolShift { delta: 40, half_life_secs: 14_400 },
                Effect::DriftForTotalMove { total: -5, half_life_secs: 21_600 },
            ],
            GameEventKind::Lawsuit => vec![
                Effect::Jump { pct: -3 },
                Effect::FundamentalShift { delta: -2 },
                Effect::VolShift { delta: 20, half_life_secs: 43_200 },
            ],
            GameEventKind::Buyback => vec![
                Effect::FundamentalShift { delta: 2 },
                Effect::DriftForTotalMove { total: 3, half_life_secs: 86_400 },
            ],
            GameEventKind::CeoResigns => vec![
                Effect::Jump { pct: -4 },
                Effect::VolShift { delta: 30, half_life_secs: 7_200 },
            ],
            GameEventKind::Hype => vec![
                Effect::DriftForTotalMove { total: 8, half_life_secs: 3_600 },
                Effect::VolShift { delta: 30, half_life_secs: 7_200 },
            ],
            GameEventKind::MarketCrash => vec![
                Effect::Jump { pct: -8 },
                Effect::FundamentalShift { delta: -3 },
                Effect::VolShift { delta: 50, half_life_secs: 21_600 },
            ],
            GameEventKind::MarketRally => vec![
                Effect::Jump { pct: 4 },
                Effect::DriftForTotalMove { total: 3, half_life_secs: 21_600 },
            ],
            GameEventKind::RateHike => vec![
                Effect::FundamentalShift { delta: -2 },
                Effect::DriftForTotalMove { total: -2, half_life_secs: 86_400 },
            ],
            GameEventKind::RateCut => vec![
                Effect::FundamentalShift { delta: 2 },
                Effect::DriftForTotalMove { total: 2, half_life_secs: 86_400 },
            ],
        };
        proof {
            assert(effects@ =~= self.bundle());
        }
        effects
    }
}

/// One simulator event of a bundle. A move is in hundredths: `-7` is −7 %,
/// `25` a quarter. A half-life is in seconds.
#[derive(Clone, Copy, Debug, PartialEq, Eq, Structural)]
pub enum Effect {
    Jump { pct: i64 },
    DriftForTotalMove { total: i64, half_life_secs: u64 },
    VolShift { delta: i64, half_life_secs: u64 },
    FundamentalShift { delta: i64 },
}

/// One entry of the game-event catalogue.
#[derive(Debug)]
pub struct CatalogEntry {
    pub kind: GameEventKind,
    pub label: &'static str,
    pub scope: Scope,
    pub description: &'static str,
    /// The bundle at magnitude one.
    pub effects: Vec<Effect>,
}

impl CatalogEntry {
    /// The entry tells what there is to tell of its kind.
    pub open spec fn tells(self, kind: GameEventKind) -> bool {
        &&& self.kind == kind
        &&& self.label@ == kind.called()
        &&& self.scope == kind.reach()
        &&& self.description@ == kind.told()
        &&& self.effects@ == kind.bundle()
    }
}

/// The game-event catalogue.
pub fn catalog() -> (entries: Vec<CatalogEntry>)
    ensures
        entries@.len() == GameEventKind::ALL@.len(),
        forall|i: int| 0 <= i < entries@.len() ==> (#[trigger] entries@[i]).tells(GameEventKind::ALL@[i]),
{
    let all = GameEventKind::ALL;
    let mut entries: Vec<CatalogEntry> = Vec::new();
    let mut i: usize = 0;
    while i < 12
        invariant
            i <= 12,
            all@ == GameEventKind::ALL@,
            all@.len() == 12,
            entries@.len() == i,
            forall|j: int| 0 <= j < i ==> (#[trigger] entries@[j]).tells(GameEventKind::ALL@[j]),
        decreases 12 - i,
    {
        let kind = all[i];
        entries.push(
            CatalogEntry {
                kind,
                label: kind.label(),
                scope: kind.scope(),
                description: kind.description(),
                effects: kind.effects(),
            },
        );
        i = i + 1;
    }
    entries
}

/// No game event takes a price to nothing: scaled by the largest magnitude
/// there is, every jump of every bundle stays above −100 %.
pub proof fn law_no_scaled_jump_reaches_minus_one(kind: GameEventKind, i: int)
    requires
        0 <= i < kind.bundle().len(),
    ensures
        kind.bundle()[i] matches Effect::Jump { pct } ==> pct * MAX_MAGNITUDE > -100,
{
}

/// An accepted event, as stored in the log and pushed to the stream.
#[derive(Debug)]
pub struct EventRecord {
    pub id: u64,
    /// Wall-clock time the request was accepted.
    pub received_at_ms: i64,
    /// Simulated time the event takes effect.
    pub at_ms: i64,
    /// Symbols affected.
    pub symbols: Vec<String>,
    /// `"game:scandal"` or `"sim:jump"`.
    pub kind: String,
    pub source: String,
    pub note: Option<String>,
    pub magnitude: Option<Real>,
    /// The simulator events applied to each symbol.
    pub effects: Vec<SimEvent>,
    /// Human-readable summaries of `effects`.
    pub summary: Vec<String>,
}

/// The two records say the same.
pub open spec fn same_event(a: EventRecord, b: EventRecord) -> bool {
    &&& a == (EventRecord { symbols: a.symbols, effects: a.effects, summary: a.summary, ..b })
    &&& a.symbols@ == b.symbols@
    &&& a.effects@ == b.effects@
    &&& a.summary@ == b.summary@
}

fn copy_texts(texts: &Vec<String>) -> (copy: Vec<String>)
    ensures
        copy@ == texts@,
{
    let mut copy: Vec<String> = Vec::new();
    let mut i: usize = 0;
    while i < texts.len()
        invariant
            i <= texts.len(),
            copy@ == texts@.take(i as int),
        decreases texts.len() - i,
    {
        copy.push(texts[i].clone());
        proof {
            assert(texts@.take(i as int + 1) =~= texts@.take(i as int).push(texts@[i as int]));
        }
        i = i + 1;
    }
    proof {
        assert(texts@.take(texts@.len() as int) =~= texts@);
    }
    copy
}

impl Clone for EventRecord {
    fn clone(&self) -> (copy: Self)
        ensures
            same_event(copy, *self),
    {
        let mut effects: Vec<SimEvent> = Vec::new();
        let mut i: usize = 0;
        while i < self.effects.len()
            invariant
                i <= self.effects.len(),
                effects@ == self.effects@.take(i as int),
            decreases self.effects.len() - i,
        {
            effects.push(self.effects[i]);
            proof {
                assert(self.effects@.take(i as int + 1) =~= self.effects@.take(i as int).push(
                    self.effects@[i as int],
                ));
            }
            i = i + 1;
        }
        proof {
            assert(self.effects@.take(self.effects@.len() as int) =~= self.effects@);
        }
        EventRecord {
            id: self.id,
            received_at_ms: self.received_at_ms,
            at_ms: self.at_ms,
            symbols: copy_texts(&self.symbols),
            kind: self.kind.clone(),
            source: self.source.clone(),
            note: copy_text(&self.note),
            magnitude: self.magnitude,
            effects,
            summary: copy_texts(&self.summary),
        }
    }
}

impl EventRecord {
    /// The event touches the symbol, in whatever case it is written.
    pub open spec fn touches(self, symbol: Seq<char>) -> bool {
        exists|i: int| 0 <= i < self.symbols@.len() && same_ignoring_case(#[trigger] self.symbols@[i]@, symbol)
    }

    /// Whether the event touches `symbol`, in whatever case it is written.
    pub fn is_about(&self, symbol: &str) -> (r: bool)
        ensures
            r == self.touches(symbol@),
    {
        let mut i: usize = 0;
        while i < self.symbols.len()
            invariant
                i <= self.symbols.len(),
                forall|j: int| 0 <= j < i ==> !same_ignoring_case(#[trigger] self.symbols@[j]@, symbol@),
            decreases self.symbols.len() - i,
        {
            if eq_ignoring_case(self.symbols[i].as_str(), symbol) {
                assert(same_ignoring_case(self.symbols@[i as int]@, symbol@));
                return true;
            }
            i = i + 1;
        }
        false
    }

    /// The record passes a filter by symbol, where there is one.
    pub open spec fn passes(self, symbol: Option<Seq<char>>) -> bool {
        match symbol {
            Some(symbol) => self.touches(symbol),
            None => true,
        }
    }
}

/// The most recent events, oldest first, and the number the next one takes.
pub struct EventLog {
    pub events: VecDeque<EventRecord>,
    pub cap: usize,
    pub next_id: u64,
}

/// The view of an optional name.
pub open spec fn opt_name(name: Option<&str>) -> Option<Seq<char>> {
    match name {
        Some(s) => Some(s@),
        None => None,
    }
}

impl EventLog {
    /// The log keeps at least one event and no more than its cap.
    pub open spec fn wf(&self) -> bool {
        &&& self.cap >= 1
        &&& self.events@.len() <= self.cap
    }

    /// A log of `cap` events, or one, that continues from `events` and
    /// `next_id`; what does not fit goes, oldest first.
    pub fn continued(events: VecDeque<EventRecord>, cap: usize, next_id: u64) -> (log: Self)
        ensures
            log.wf(),
            log.cap == max_int(cap as int, 1),
            log.next_id == max_int(next_id as int, 1),
            log.events@ == crate::account::newest(events@, max_int(cap as int, 1)),
    {
        let cap: usize = if cap < 1 { 1 } else { cap };
        let mut kept = events;
        let ghost whole = kept@;
        while kept.len() > cap
            invariant
                cap >= 1,
                kept@.len() <= whole.len(),
                whole.len() <= cap ==> kept@ == whole,
                kept@.len() >= cap || kept@ == whole,
                kept@ == whole.skip(whole.len() - kept@.len()),
            decreases kept@.len(),
        {
            kept.pop_front();
        }
        let next_id: u64 = if next_id < 1 { 1 } else { next_id };
        EventLog { events: kept, cap, next_id }
    }

    /// Assign the next id to `rec`, append it to the log and return it.
    pub fn record(&mut self, rec: EventRecord) -> (recorded: EventRecord)
        requires
            old(self).wf(),
            old(self).next_id < u64::MAX,
        ensures
            final(self).wf(),
            final(self).cap == old(self).cap,
            final(self).next_id == old(self).next_id + 1,
            final(self).events@ == crate::account::newest(
                old(self).events@.push(EventRecord { id: old(self).next_id, ..rec }),
                old(self).cap as int,
            ),
            same_event(recorded, EventRecord { id: old(self).next_id, ..rec }),
    {
        let ghost before = *self;
        let mut rec = rec;
        rec.id = self.next_id;
        self.next_id = self.next_id + 1;
        if self.events.len() >= self.cap {
            self.events.pop_front();
        }
        let copy = rec.clone();
        self.events.push_back(rec);
        proof {
            assert(self.events@ =~= crate::account::newest(before.events@.push(rec), before.cap as int));
        }
        copy
    }

    /// The positions of the events that pass, newest first.
    pub open spec fn matching(events: Seq<EventRecord>, symbol: Option<Seq<char>>) -> Seq<EventRecord> {
        events.filter(|e: EventRecord| e.passes(symbol)).reverse()
    }

    /// The most recent `limit` events about `symbol`, or about anything,
    /// newest first.
    pub fn events(&self, limit: usize, symbol: Option<&str>) -> (found: Vec<&EventRecord>)
        ensures
            ({
                let all = EventLog::matching(self.events@, opt_name(symbol));
                &&& found@.len() == (if all.len() < limit {
                    all.len() as int
                } else {
                    limit as int
                })
                &&& forall|i: int| 0 <= i < found@.len() ==> *#[trigger] found@[i] == all[i]
            }),
    {
        let mut found: Vec<&EventRecord> = Vec::new();
        let ghost all = self.events@;
        let ghost wanted = |e: EventRecord| e.passes(opt_name(symbol));
        let n: usize = self.events.len();
        let mut i: usize = n;
        proof {
            assert(all.skip(n as int).filter(wanted).len() == 0) by {
                reveal(Seq::filter);
            }
        }
        while i > 0 && found.len() < limit
            invariant
                all == self.events@,
                n == all.len(),
                i <= n,
                wanted == (|e: EventRecord| e.passes(opt_name(symbol))),
                found@.len() <= limit,
                found@.len() == all.skip(i as int).filter(wanted).len(),
                forall|j: int|
                    0 <= j < found@.len() ==> *#[trigger] found@[j] == all.skip(i as int).filter(wanted).reverse()[j],
            decreases i,
        {
            let event = &self.events[i - 1];
            let passes: bool = match symbol {
                Some(symbol) => event.is_about(symbol),
                None => true,
            };
            proof {
                crate::orders::lemma_filter_front(all, wanted, i - 1);
                let tail = all.skip(i as int).filter(wanted);
                let longer = all.skip(i - 1).filter(wanted);
                if passes {
                    assert(longer == seq![*event] + tail);
                    assert(longer.reverse() =~= tail.reverse().push(*event));
                }
            }
            if passes {
                found.push(event);
            }
            i = i - 1;
        }
        proof {
            assert(all.skip(0) =~= all);
            assert(all.take(i as int) + all.skip(i as int) =~= all);
            Seq::filter_distributes_over_add(all.take(i as int), all.skip(i as int), wanted);
            let head = all.take(i as int).filter(wanted);
            let tail = all.skip(i as int).filter(wanted);
            assert(all.filter(wanted) == head + tail);
            assert(EventLog::matching(self.events@, opt_name(symbol)) == (head + tail).reverse());
            assert((head + tail).reverse() =~= tail.reverse() + head.reverse());
            if i == 0 {
                assert(head.len() == 0) by {
                    reveal(Seq::filter);
                }
            }
        }
        found
    }
}

/// What a kind of news says of the value: whether a bundle moves it up, down
/// or not at all.
pub open spec fn value_moved(effects: Seq<Effect>) -> int
    decreases effects.len(),
{
    if effects.len() == 0 {
        0
    } else {
        value_moved(effects.drop_last()) + match effects.last() {
            Effect::FundamentalShift { delta } => delta as int,
            _ => 0,
        }
    }
}

/// The move in price that a bundle brings about at once and over time.
pub open spec fn price_moved(effects: Seq<Effect>) -> int
    decreases effects.len(),
{
    if effects.len() == 0 {
        0
    } else {
        price_moved(effects.drop_last()) + match effects.last() {
            Effect::Jump { pct } => pct as int,
            Effect::DriftForTotalMove { total, .. } => total as int,
            _ => 0,
        }
    }
}

/// News moves the value and the price the way it is told: good news up, bad
/// news down, hype and a resignation without any change in value, and a rate
/// cut by what a rate hike takes away.
pub proof fn law_news_moves_things_as_it_is_told(kind: GameEventKind, effects: Vec<Effect>)
    requires
        call_ensures(GameEventKind::effects, (kind,), effects),
    ensures
        match kind {
            GameEventKind::ProductLaunch | GameEventKind::EarningsBeat | GameEventKind::Buyback
            | GameEventKind::RateCut => value_moved(effects@) > 0 && price_moved(effects@) > 0,
            GameEventKind::EarningsMiss | GameEventKind::Scandal | GameEventKind::Lawsuit
            | GameEventKind::MarketCrash | GameEventKind::RateHike => value_moved(effects@) < 0 && price_moved(
                effects@,
            ) < 0,
            GameEventKind::MarketRally | GameEventKind::Hype => value_moved(effects@) == 0 && price_moved(effects@)
                > 0,
            GameEventKind::CeoResigns => value_moved(effects@) == 0 && price_moved(effects@) < 0,
        },
        value_moved(GameEventKind::RateCut.bundle()) == -value_moved(GameEventKind::RateHike.bundle()),
        price_moved(GameEventKind::RateCut.bundle()) == -price_moved(GameEventKind::RateHike.bundle()),
        price_moved(GameEventKind::Scandal.bundle()) < price_moved(GameEventKind::EarningsMiss.bundle())
            < price_moved(GameEventKind::Lawsuit.bundle()),
{
    lemma_bundles_add_up(kind);
    lemma_bundles_add_up(GameEventKind::RateCut);
    lemma_bundles_add_up(GameEventKind::RateHike);
    lemma_bundles_add_up(GameEventKind::Scandal);
    lemma_bundles_add_up(GameEventKind::EarningsMiss);
    lemma_bundles_add_up(GameEventKind::Lawsuit);
}

/// A bundle's moves are those of its effects, one by one.
proof fn lemma_bundles_add_up(kind: GameEventKind)
    ensures
        ({
            let effects = kind.bundle();
            let value = |i: int|
                if 0 <= i < effects.len() {
                    match effects[i] {
                        Effect::FundamentalShift { delta } => delta as int,
                        _ => 0,
                    }
                } else {
                    0
                };
            let price = |i: int|
                if 0 <= i < effects.len() {
                    match effects[i] {
                        Effect::Jump { pct } => pct as int,
                        Effect::DriftForTotalMove { total, .. } => total as int,
                        _ => 0,
                    }
                } else {
                    0
                };
            &&& value_moved(effects) == value(0) + value(1) + value(2) + value(3)
            &&& price_moved(effects) == price(0) + price(1) + price(2) + price(3)
        }),
{
    reveal_with_fuel(value_moved, 5);
    reveal_with_fuel(price_moved, 5);
}

/// News unsettles a symbol and then wears off: what it adds to the volatility
/// is more than nothing, and no effect takes longer than a day to halve.
pub proof fn law_news_wears_off_within_days(kind: GameEventKind, effects: Vec<Effect>, i: int)
    requires
        call_ensures(GameEventKind::effects, (kind,), effects),
        0 <= i < effects@.len(),
    ensures
        effects@[i] matches Effect::VolShift { delta, half_life_secs } ==> delta > 0 && 0 < half_life_secs
            <= 86_400,
        effects@[i] matches Effect::DriftForTotalMove { half_life_secs, .. } ==> 0 < half_life_secs <= 86_400,
{
}

/// News of the market reaches every symbol, and news of a company only that
/// company: the crash, the rally and the two rate moves are the market's.
pub proof fn law_market_news_reaches_every_symbol(kind: GameEventKind, scope: Scope)
    requires
        call_ensures(GameEventKind::scope, (kind,), scope),
    ensures
        scope is Market <==> kind is MarketCrash || kind is MarketRally || kind is RateHike || kind is RateCut,
{
}

/// A number is usable where it is: a jump as long as it is a number above
/// minus one, a half-life above zero, a delay of zero or more, a magnitude
/// above zero and at most five. Larger numbers of one sign have larger bits.
pub proof fn law_a_number_is_used_within_its_range(x: Real, half_life: bool, delay: bool, magnitude: bool, low: bool)
    requires
        call_ensures(Real::is_half_life, (x,), half_life),
        call_ensures(Real::is_delay, (x,), delay),
        call_ensures(Real::is_magnitude, (x,), magnitude),
        call_ensures(Real::is_at_most_minus_one, (x,), low),
    ensures
        half_life <==> 0 < x.0 <= 0x426d_1a94_a200_0000,
        delay <==> x.0 == 0x8000_0000_0000_0000 || x.0 <= 0x426d_1a94_a200_0000,
        magnitude <==> 0 < x.0 <= 0x4014_0000_0000_0000,
        low <==> 0xbff0_0000_0000_0000 <= x.0 <= 0xfff0_0000_0000_0000,
        half_life ==> delay,
        magnitude ==> half_life,
{
}

/// An event is queued where every number in it can be used, and what is queued
/// is the event that was sent; one that sets the value is not queued but sets
/// it to what it names.
pub proof fn law_an_event_is_queued_as_it_was_sent(event: SimEvent, r: Result<Prepared, EventRejected>)
    requires
        call_ensures(SimEvent::prepare, (&event,), r),
    ensures
        r matches Ok(Prepared::Queue(queued)) ==> queued == event && !(event is FundamentalTarget),
        r matches Ok(Prepared::SetFundamental(cents)) ==> event == (SimEvent::FundamentalTarget {
            target_cents: cents,
        }) && cents >= 1,
        event matches SimEvent::Jump { pct } ==> (r is Ok <==> pct.finite() && !(0xbff0_0000_0000_0000 <= pct.0
            <= 0xfff0_0000_0000_0000)),
        event matches SimEvent::DriftShift { delta, half_life_secs } ==> (r is Ok <==> delta.finite() && 0
            < half_life_secs.0 <= 0x426d_1a94_a200_0000),
        event matches SimEvent::DriftForTotalMove { total, half_life_secs } ==> (r is Ok <==> total.finite() && 0
            < half_life_secs.0 <= 0x426d_1a94_a200_0000),
        event matches SimEvent::VolShift { delta, half_life_secs } ==> (r is Ok <==> delta.finite() && 0
            < half_life_secs.0 <= 0x426d_1a94_a200_0000),
        event matches SimEvent::FundamentalShift { delta } ==> (r is Ok <==> delta.finite()),
        event matches SimEvent::FundamentalTarget { target_cents } ==> (r is Ok <==> target_cents >= 1),
{
}

/// A number is finite where neither its sign nor anything below infinity's
/// bits is left out: the sign makes no difference.
pub proof fn law_a_number_and_its_negative_are_finite_together(x: Real, y: Real, a: bool, b: bool)
    requires
        y.0 == x.0 + 0x8000_0000_0000_0000,
        call_ensures(Real::is_finite, (x,), a),
        call_ensures(Real::is_finite, (y,), b),
    ensures
        a <==> b,
        a <==> x.0 < 0x7ff0_0000_0000_0000,
{
}

/// News takes effect at the instant it names, or at the end of its delay, or
/// now; never does it name both.
pub proof fn law_news_takes_effect_when_it_says(timing: Timing, now_ms: i64, r: Result<i64, String>)
    requires
        call_ensures(Timing::resolve, (timing, now_ms), r),
    ensures
        r matches Ok(at) ==> at == (match (timing.at_ms, timing.delay) {
            (Some(named), _) => named,
            (_, Some(delay)) => delay.until_ms,
            _ => now_ms,
        }),
        timing.at_ms is Some && timing.delay is Some ==> r is Err,
        timing.delay is None ==> r is Ok,
        timing.at_ms is None && timing.delay is Some ==> (r is Ok <==> (timing.delay->0).secs.0
            == 0x8000_0000_0000_0000 || (timing.delay->0).secs.0 <= 0x426d_1a94_a200_0000),
{
}

/// The news of a symbol is all that names it, in whatever case; with no symbol
/// asked for it is all the news.
pub proof fn law_news_is_found_by_its_symbol(events: Seq<EventRecord>, symbol: Seq<char>, event: EventRecord)
    ensures
        EventLog::matching(events, Some(symbol)).contains(event) <==> events.contains(event) && exists|i: int|
            0 <= i < event.symbols@.len() && same_ignoring_case(#[trigger] event.symbols@[i]@, symbol),
        EventLog::matching(events, None).contains(event) <==> events.contains(event),
{
    lemma_matching(events, Some(symbol), event);
    lemma_matching(events, None, event);
}

/// The newest news comes first: what is recorded last heads the list wherever
/// it is asked for.
pub proof fn law_the_newest_news_comes_first(events: Seq<EventRecord>, symbol: Option<Seq<char>>, event: EventRecord)
    ensures
        EventLog::matching(events.push(event), symbol) == (if event.passes(symbol) {
            seq![event] + EventLog::matching(events, symbol)
        } else {
            EventLog::matching(events, symbol)
        }),
{
    reveal(Seq::filter);
    let keep = |e: EventRecord| e.passes(symbol);
    assert(events.push(event).drop_last() =~= events);
    if event.passes(symbol) {
        assert(events.push(event).filter(keep) == events.filter(keep).push(event));
        assert(events.filter(keep).push(event).reverse() =~= seq![event] + events.filter(keep).reverse());
    }
}

proof fn lemma_matching(events: Seq<EventRecord>, symbol: Option<Seq<char>>, event: EventRecord)
    ensures
        EventLog::matching(events, symbol).contains(event) <==> events.contains(event) && event.passes(symbol),
{
    let keep = |e: EventRecord| e.passes(symbol);
    let kept = events.filter(keep);
    lemma_filtered(events, keep, event);
    if kept.contains(event) {
        let i = choose|i: int| 0 <= i < kept.len() && kept[i] == event;
        assert(kept.reverse()[kept.len() - 1 - i] == event);
    }
    if kept.reverse().contains(event) {
        let i = choose|i: int| 0 <= i < kept.len() && kept.reverse()[i] == event;
        assert(kept[kept.len() - 1 - i] == event);
    }
}

} // verus!
