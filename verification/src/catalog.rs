//! The catalogue: which goods the world will make, and for how much.
//!
//! A purchase moves currency and creates units. The currency is not created,
//! only moved: the buyer's wallet is debited and the good's issuer wallet
//! credited, as one balanced transaction. The units are counted here, against
//! a line that may be finite.

use vstd::prelude::*;

use crate::account::MoneyError;
use crate::ledger::LedgerError;
use crate::num::{clamp_u64, max_int, usat_add, usat_sub};
use crate::table::{lists_keys, Table};
use crate::text::{copy_text, decimal, push_u64};

verus! {

/// Lines the catalogue will hold.
pub const MAX_CATALOG: usize = 256;

/// The longest note a catalogue line carries.
pub const MAX_NOTE_LEN: usize = 140;

/// One line of the catalogue: a good, its price, and how much of it is left
/// to make.
#[derive(Debug)]
pub struct CatalogItem {
    /// The good this line sells.
    pub symbol: String,
    /// What one unit costs, in cents. Always positive: a free good would be
    /// a way to make units out of nothing.
    pub price_cents: i64,
    /// Units this line may still issue, or `None` for a seam that never runs
    /// out.
    pub available: Option<u64>,
    /// Units it has issued since the line was written.
    pub issued: u64,
    /// What the line is, for whoever reads the catalogue.
    pub note: Option<String>,
}

impl Clone for CatalogItem {
    fn clone(&self) -> (copy: Self)
        ensures
            copy == *self,
    {
        CatalogItem {
            symbol: self.symbol.clone(),
            price_cents: self.price_cents,
            available: self.available,
            issued: self.issued,
            note: copy_text(&self.note),
        }
    }
}

impl CatalogItem {
    /// The line has `qty` units left, or never runs out.
    pub open spec fn holds(self, qty: u64) -> bool {
        match self.available {
            Some(left) => left >= qty,
            None => true,
        }
    }

    /// The line once `qty` units have been issued off it.
    pub open spec fn less(self, qty: u64) -> CatalogItem {
        CatalogItem {
            available: match self.available {
                Some(left) => Some(max_int(left - qty, 0) as u64),
                None => None,
            },
            issued: clamp_u64(self.issued + qty),
            ..self
        }
    }

    /// Whether this line can still issue `qty` units.
    pub fn can_issue(&self, qty: u64) -> (r: bool)
        ensures
            r == self.holds(qty),
    {
        match self.available {
            Some(left) => left >= qty,
            None => true,
        }
    }

    /// Record `qty` units issued against this line.
    fn take(&mut self, qty: u64)
        ensures
            *final(self) == old(self).less(qty),
    {
        match self.available {
            Some(left) => {
                self.available = Some(usat_sub(left, qty));
            },
            None => {},
        }
        self.issued = usat_add(self.issued, qty);
    }
}

/// Why a catalogue change or a purchase was refused.
#[derive(Clone, Debug, PartialEq, Eq)]
pub enum CatalogError {
    /// The catalogue is full ([`MAX_CATALOG`]).
    Full,
    /// No line for this good.
    Unknown(String),
    /// The line cannot make that many more units.
    Exhausted {
        /// What was asked for.
        wanted: u64,
        /// What the line has left.
        available: u64,
    },
    /// A price of zero or less.
    Price,
}

impl CatalogError {
    /// The refusal in words.
    pub open spec fn words(self) -> Seq<char> {
        match self {
            CatalogError::Full => "the catalogue holds 256 lines already"@,
            CatalogError::Unknown(symbol) => symbol@ + " is not in the catalogue"@,
            CatalogError::Exhausted { wanted, available } => "the catalogue has "@ + decimal(available as nat)
                + " unit(s) of this left, not "@ + decimal(wanted as nat),
            CatalogError::Price => "a catalogue price must be at least one cent"@,
        }
    }

    /// The refusal in words.
    pub fn message(&self) -> (text: String)
        ensures
            text@ == self.words(),
    {
        match self {
            CatalogError::Full => "the catalogue holds 256 lines already".to_owned(),
            CatalogError::Unknown(symbol) => {
                let mut text = symbol.clone();
                text.append(" is not in the catalogue");
                text
            },
            CatalogError::Exhausted { wanted, available } => {
                let mut text = "the catalogue has ".to_owned();
                push_u64(&mut text, *available);
                text.append(" unit(s) of this left, not ");
                push_u64(&mut text, *wanted);
                text
            },
            CatalogError::Price => "a catalogue price must be at least one cent".to_owned(),
        }
    }
}

/// Every line, by ticker.
///
/// Ordered by ticker, so what the catalogue lists is stable between calls and
/// between runs.
pub struct Catalog {
    items: Table<String, CatalogItem>,
}

impl Catalog {
    /// The lines, by ticker.
    pub closed spec fn lines(&self) -> Map<Seq<char>, CatalogItem> {
        self.items.map()
    }

    /// The tickers, in order.
    pub closed spec fn tickers(&self) -> Seq<Seq<char>> {
        self.items.keys()
    }

    /// Each line stands under its own ticker, at a positive price, and there
    /// are no more of them than the catalogue holds.
    pub closed spec fn wf(&self) -> bool {
        &&& self.items.wf()
        &&& self.items.keys().len() <= MAX_CATALOG
        &&& forall|symbol: Seq<char>| #[trigger]
            self.items.map().contains_key(symbol) ==> self.items.map()[symbol].symbol@ == symbol
                && self.items.map()[symbol].price_cents > 0
    }

    /// What `set` writes: the line keeps the count of what it has issued.
    pub open spec fn line_set(
        &self,
        symbol: String,
        price_cents: i64,
        available: Option<u64>,
        note: Option<String>,
    ) -> CatalogItem {
        CatalogItem {
            symbol,
            price_cents,
            available,
            issued: if self.lines().contains_key(symbol@) {
                self.lines()[symbol@].issued
            } else {
                0
            },
            note,
        }
    }

    /// Write or replace the line for `symbol`.
    ///
    /// Replacing keeps the count of what the line has already issued: it is
    /// a record of what happened, not a budget an operator can reset by
    /// rewriting the price.
    pub fn set(&mut self, symbol: String, price_cents: i64, available: Option<u64>, note: Option<String>) -> (r: Result<
        CatalogItem,
        CatalogError,
    >)
        requires
            old(self).wf(),
        ensures
            final(self).wf(),
            match r {
                Ok(item) => {
                    &&& price_cents > 0
                    &&& old(self).lines().contains_key(symbol@) || old(self).lines().len() < MAX_CATALOG
                    &&& item == old(self).line_set(symbol, price_cents, available, note)
                    &&& final(self).lines() == old(self).lines().insert(symbol@, item)
                },
                Err(e) => {
                    &&& *final(self) == *old(self)
                    &&& e == (if price_cents <= 0 {
                        CatalogError::Price
                    } else {
                        CatalogError::Full
                    })
                    &&& price_cents <= 0 || (!old(self).lines().contains_key(symbol@) && old(self).lines().len()
                        >= MAX_CATALOG)
                },
            },
    {
        if price_cents <= 0 {
            return Err(CatalogError::Price);
        }
        let issued: u64 = match self.items.get(&symbol) {
            Some(item) => item.issued,
            None => 0,
        };
        if !self.items.contains_key(&symbol) && self.items.len() >= MAX_CATALOG {
            return Err(CatalogError::Full);
        }
        let ghost before = *self;
        let item = CatalogItem { symbol: symbol.clone(), price_cents, available, issued, note };
        let copy = item.clone();
        self.items.insert(symbol, item);
        proof {
            before.items.lemma_len();
            self.items.lemma_len();
        }
        Ok(copy)
    }

    /// Take the line for `symbol` out of the catalogue. Nothing already
    /// issued is affected: the units are in the world and stay there.
    pub fn remove(&mut self, symbol: &str) -> (r: Option<CatalogItem>)
        requires
            old(self).wf(),
        ensures
            final(self).wf(),
            final(self).lines() == old(self).lines().remove(symbol@),
            match r {
                Some(item) => old(self).lines().contains_key(symbol@) && item == old(self).lines()[symbol@],
                None => !old(self).lines().contains_key(symbol@),
            },
    {
        let ghost before = *self;
        let taken = self.items.remove(&symbol.to_owned());
        proof {
            before.items.lemma_len();
            self.items.lemma_len();
        }
        taken
    }

    /// The line for `symbol`, if there is one.
    pub fn get(&self, symbol: &str) -> (r: Option<&CatalogItem>)
        requires
            self.wf(),
        ensures
            match r {
                Some(item) => self.lines().contains_key(symbol@) && *item == self.lines()[symbol@],
                None => !self.lines().contains_key(symbol@),
            },
    {
        self.items.get(&symbol.to_owned())
    }

    /// Check that `qty` units of `symbol` can be issued, and say at what
    /// price, without changing anything.
    pub fn quote(&self, symbol: &str, qty: u64) -> (r: Result<i64, CatalogError>)
        requires
            self.wf(),
        ensures
            match r {
                Ok(price) => self.lines().contains_key(symbol@) && self.lines()[symbol@].holds(qty) && price
                    == self.lines()[symbol@].price_cents && price > 0,
                Err(CatalogError::Unknown(name)) => !self.lines().contains_key(symbol@) && name@ == symbol@,
                Err(CatalogError::Exhausted { wanted, available }) => self.lines().contains_key(symbol@)
                    && !self.lines()[symbol@].holds(qty) && wanted == qty && self.lines()[symbol@].available == Some(
                    available,
                ),
                Err(_) => false,
            },
    {
        match self.items.get(&symbol.to_owned()) {
            None => Err(CatalogError::Unknown(symbol.to_owned())),
            Some(item) => {
                if !item.can_issue(qty) {
                    Err(
                        CatalogError::Exhausted {
                            wanted: qty,
                            available: match item.available {
                                Some(left) => left,
                                None => u64::MAX,
                            },
                        },
                    )
                } else {
                    Ok(item.price_cents)
                }
            },
        }
    }

    /// Record `qty` units issued off the line for `symbol`. The caller has
    /// already checked it with [`Catalog::quote`] and posted the money.
    pub fn issue(&mut self, symbol: &str, qty: u64)
        requires
            old(self).wf(),
        ensures
            final(self).wf(),
            final(self).lines() == (if old(self).lines().contains_key(symbol@) {
                old(self).lines().insert(symbol@, old(self).lines()[symbol@].less(qty))
            } else {
                old(self).lines()
            }),
            final(self).tickers() == old(self).tickers(),
    {
        match self.items.get_mut(&symbol.to_owned()) {
            Some(item) => {
                item.take(qty);
            },
            None => {},
        }
    }

    /// Every line, ordered by ticker.
    pub fn items(&self) -> (items: Vec<&CatalogItem>)
        requires
            self.wf(),
        ensures
            items@.len() == self.tickers().len(),
            forall|i: int| 0 <= i < items@.len() ==> *#[trigger] items@[i] == self.lines()[self.tickers()[i]],
    {
        let mut items: Vec<&CatalogItem> = Vec::new();
        let n: usize = self.items.len();
        let mut i: usize = 0;
        while i < n
            invariant
                self.wf(),
                n == self.tickers().len(),
                i <= n,
                items@.len() == i,
                forall|j: int| 0 <= j < i ==> *#[trigger] items@[j] == self.lines()[self.tickers()[j]],
            decreases n - i,
        {
            items.push(self.items.val_at(i));
            i = i + 1;
        }
        items
    }

    /// Lines written.
    pub fn len(&self) -> (n: usize)
        requires
            self.wf(),
        ensures
            n == self.lines().len(),
            n <= MAX_CATALOG,
    {
        self.items.len()
    }

    /// Nothing is on sale.
    pub fn is_empty(&self) -> (r: bool)
        requires
            self.wf(),
        ensures
            r == (self.lines().len() == 0),
    {
        self.items.len() == 0
    }
}

impl Default for Catalog {
    fn default() -> (catalog: Self)
        ensures
            catalog.wf(),
            catalog.lines() == Map::<Seq<char>, CatalogItem>::empty(),
    {
        Catalog { items: Table::new() }
    }
}

/// Why a purchase or a consumption was refused.
///
/// Every one of these is checked before anything moves: a refused purchase
/// leaves no units issued and no currency moved, and a refused consumption
/// leaves the units where they were.
#[derive(Clone, Debug)]
pub enum GoodsError {
    /// No such trader.
    UnknownTrader(u64),
    /// No such symbol, or its actor is gone.
    Unknown(String),
    /// The symbol is a stock: shares are floated and sold, not made to order
    /// and used up.
    NotAGood(String),
    /// Nothing was asked for, or so much that the arithmetic will not hold
    /// it.
    Quantity(String),
    /// The catalogue would not sell it.
    Catalog(CatalogError),
    /// The ledger would not move the money.
    Money(MoneyError),
    /// The trader does not hold that many units free of reservations.
    InsufficientUnits {
        /// What was asked for.
        needed: u64,
        /// What is held and unreserved.
        available: u64,
    },
}

impl From<CatalogError> for GoodsError {
    fn from(e: CatalogError) -> (r: Self) {
        GoodsError::Catalog(e)
    }
}

impl vstd::std_specs::convert::FromSpecImpl<CatalogError> for GoodsError {
    open spec fn obeys_from_spec() -> bool {
        true
    }

    open spec fn from_spec(e: CatalogError) -> Self {
        GoodsError::Catalog(e)
    }
}

impl From<MoneyError> for GoodsError {
    fn from(e: MoneyError) -> (r: Self) {
        GoodsError::Money(e)
    }
}

impl vstd::std_specs::convert::FromSpecImpl<MoneyError> for GoodsError {
    open spec fn obeys_from_spec() -> bool {
        true
    }

    open spec fn from_spec(e: MoneyError) -> Self {
        GoodsError::Money(e)
    }
}

impl From<LedgerError> for GoodsError {
    fn from(e: LedgerError) -> (r: Self) {
        GoodsError::Money(MoneyError::Ledger(e))
    }
}

impl vstd::std_specs::convert::FromSpecImpl<LedgerError> for GoodsError {
    open spec fn obeys_from_spec() -> bool {
        true
    }

    open spec fn from_spec(e: LedgerError) -> Self {
        GoodsError::Money(MoneyError::Ledger(e))
    }
}

impl GoodsError {
    /// The symbol's actor has stopped: as far as the caller can tell, the
    /// symbol is no longer listed.
    pub fn gone() -> (e: Self)
        ensures
            e matches GoodsError::Unknown(text) && text@ == "the symbol is no longer listed"@,
    {
        GoodsError::Unknown("the symbol is no longer listed".to_owned())
    }

    /// The refusal in words; where the ledger refused, in the ledger's own.
    pub open spec fn words(self, ledger_words: Seq<char>) -> Seq<char> {
        match self {
            GoodsError::UnknownTrader(id) => "no trader "@ + decimal(id as nat),
            GoodsError::Unknown(symbol) => symbol@ + " is not listed"@,
            GoodsError::NotAGood(symbol) => symbol@
                + " is a stock: its shares are bought on the book, not made to order"@,
            GoodsError::Quantity(why) => why@,
            GoodsError::Catalog(e) => e.words(),
            GoodsError::Money(e) => e.words(ledger_words),
            GoodsError::InsufficientUnits { needed, available } => "insufficient units: need "@ + decimal(
                needed as nat,
            ) + ", hold "@ + decimal(available as nat) + " free of reservations"@,
        }
    }

    /// The refusal in words.
    pub fn message(&self, ledger_words: &str) -> (text: String)
        ensures
            text@ == self.words(ledger_words@),
    {
        match self {
            GoodsError::UnknownTrader(id) => {
                let mut text = "no trader ".to_owned();
                push_u64(&mut text, *id);
                text
            },
            GoodsError::Unknown(symbol) => {
                let mut text = symbol.clone();
                text.append(" is not listed");
                text
            },
            GoodsError::NotAGood(symbol) => {
                let mut text = symbol.clone();
                text.append(" is a stock: its shares are bought on the book, not made to order");
                text
            },
            GoodsError::Quantity(why) => why.clone(),
            GoodsError::Catalog(e) => e.message(),
            GoodsError::Money(e) => e.message(ledger_words),
            GoodsError::InsufficientUnits { needed, available } => {
                let mut text = "insufficient units: need ".to_owned();
                push_u64(&mut text, *needed);
                text.append(", hold ");
                push_u64(&mut text, *available);
                text.append(" free of reservations");
                text
            },
        }
    }
}

/// What the world will make and what it charges.
#[derive(Debug)]
pub struct CatalogResponse {
    pub items: Vec<CatalogItem>,
}

/// What a purchase did: the money, the units, and where both ended up.
#[derive(Clone, Debug)]
pub struct PurchaseReceipt {
    pub trader_id: u64,
    pub symbol: String,
    /// Units bought.
    pub qty: u64,
    pub unit_price_cents: i64,
    /// `qty × unit_price_cents`, the amount that moved.
    pub total_cents: i64,
    /// The balanced transaction that moved it.
    pub tx_id: u64,
    /// What the trader holds of the good now.
    pub position_qty: i64,
    /// Units of the good in existence now.
    pub units_outstanding: u64,
    /// What the line has left to make, or `None` for a seam.
    pub available: Option<u64>,
}

/// What consuming did. No currency moves, so there is no transaction to
/// name: units left the world and that is the whole of it.
#[derive(Clone, Debug)]
pub struct ConsumeReceipt {
    pub trader_id: u64,
    pub symbol: String,
    /// Units destroyed.
    pub qty: u64,
    /// What the trader holds of the good now.
    pub position_qty: i64,
    /// Units of the good in existence now.
    pub units_outstanding: u64,
}

// ---------------------------------------------------------------------------
// Laws

/// A line that was quoted never issues more than it had: what is left and
/// what was issued add up to what they added up to before.
pub proof fn law_issuing_what_was_quoted_conserves_the_line(item: CatalogItem, qty: u64)
    requires
        item.holds(qty),
        item.issued + qty <= u64::MAX,
    ensures
        item.less(qty).issued == item.issued + qty,
        item.available matches Some(left) ==> item.less(qty).available == Some((left - qty) as u64)
            && item.less(qty).issued + (left - qty) == item.issued + left,
        item.available is None ==> item.less(qty).available is None,
{
}

/// Rewriting a line, at whatever price and however many times, keeps the
/// count of what it has issued.
pub proof fn law_rewriting_keeps_what_was_issued(
    before: Catalog,
    symbol: String,
    price_cents: i64,
    available: Option<u64>,
    note: Option<String>,
)
    requires
        before.lines().contains_key(symbol@),
    ensures
        before.line_set(symbol, price_cents, available, note).issued == before.lines()[symbol@].issued,
{
}

/// The lines are listed by ticker: ascending, each once, and none left out.
/// The lines settle the list.
pub proof fn law_lines_are_listed_by_ticker(catalog: &Catalog, other: &Catalog)
    requires
        catalog.wf(),
        other.wf(),
    ensures
        lists_keys::<String, CatalogItem>(catalog.tickers(), catalog.lines()),
        catalog.lines() == other.lines() ==> catalog.tickers() == other.tickers(),
{
    catalog.items.lemma_listed();
    if catalog.lines() == other.lines() {
        catalog.items.law_the_map_settles_the_order(&other.items);
    }
}

/// A line is sold at its price while it has that many left; one that never
/// runs out always is.
pub proof fn law_a_line_is_sold_while_it_lasts(catalog: Catalog, symbol: &str, qty: u64, r: Result<i64, CatalogError>)
    requires
        catalog.wf(),
        call_ensures(Catalog::quote, (&catalog, symbol, qty), r),
    ensures
        r is Ok <==> catalog.lines().contains_key(symbol@) && (catalog.lines()[symbol@].available matches Some(left)
            ==> qty <= left),
        r matches Ok(price) ==> price == catalog.lines()[symbol@].price_cents,
        !catalog.lines().contains_key(symbol@) ==> (r matches Err(CatalogError::Unknown(name)) && name@ == symbol@),
        r matches Err(CatalogError::Exhausted { wanted, available }) ==> wanted == qty && available < qty
            && catalog.lines()[symbol@].available == Some(available),
{
}

/// Whether a line can issue so many is whether as many are left of it.
pub proof fn law_a_line_can_issue_what_is_left(item: CatalogItem, qty: u64, r: bool)
    requires
        call_ensures(CatalogItem::can_issue, (&item, qty), r),
    ensures
        r <==> (item.available matches Some(left) ==> qty <= left),
{
}

/// Issuing from a line touches its counts and nothing else of it.
pub proof fn law_issuing_changes_only_the_counts(item: CatalogItem, qty: u64)
    ensures
        item.less(qty) == (CatalogItem {
            available: item.less(qty).available,
            issued: item.less(qty).issued,
            ..item
        }),
        item.available matches Some(left) ==> (qty >= left ==> item.less(qty).available == Some(0u64)),
{
}

/// A line that is written down says what it was written with. A new one has
/// issued nothing.
pub proof fn law_a_line_says_what_it_was_written_with(
    before: Catalog,
    symbol: String,
    price_cents: i64,
    available: Option<u64>,
    note: Option<String>,
)
    ensures
        ({
            let line = before.line_set(symbol, price_cents, available, note);
            &&& line.symbol == symbol && line.price_cents == price_cents
            &&& line.available == available && line.note == note
            &&& !before.lines().contains_key(symbol@) ==> line.issued == 0
        }),
{
}

/// Goods that could not be issued or paid for fail for what was said of them.
pub proof fn law_a_goods_trouble_is_kept_as_the_cause(
    c: CatalogError,
    e: MoneyError,
    l: LedgerError,
    q: GoodsError,
    r: GoodsError,
    s: GoodsError,
)
    requires
        call_ensures(<GoodsError as From<CatalogError>>::from, (c,), q),
        call_ensures(<GoodsError as From<MoneyError>>::from, (e,), r),
        call_ensures(<GoodsError as From<LedgerError>>::from, (l,), s),
    ensures
        q == GoodsError::Catalog(c),
        r == GoodsError::Money(e),
        s == GoodsError::Money(MoneyError::Ledger(l)),
{
}

} // verus!
