//! The symbol table, in listing order.

use vstd::prelude::*;

use crate::text::{decimal, eq_ignoring_case, push_usize, same_ignoring_case};

verus! {

/// Why a symbol could not be listed.
#[derive(Clone, Debug, PartialEq, Eq)]
pub enum ListingError {
    /// A symbol with this ticker is already listed. Delist it first.
    AlreadyListed(String),
    /// The market already lists as many symbols as it will.
    Full { max: usize },
}

impl ListingError {
    /// The refusal in words.
    pub fn message(&self) -> (text: String)
        ensures
            text@ == (match *self {
                ListingError::AlreadyListed(ticker) => ticker@ + " is already listed"@,
                ListingError::Full { max } => "this market lists at most "@ + decimal(max as nat) + " symbols"@,
            }),
    {
        match self {
            ListingError::AlreadyListed(ticker) => {
                let mut text = ticker.clone();
                text.append(" is already listed");
                text
            },
            ListingError::Full { max } => {
                let mut text = "this market lists at most ".to_owned();
                push_usize(&mut text, *max);
                text.append(" symbols");
                text
            },
        }
    }
}

/// The tickers of the listed symbols, in listing order, and how many there
/// may be.
pub struct Listings {
    pub tickers: Vec<String>,
    pub max: usize,
}

impl Listings {
    /// The ticker at `i` is this one, in whatever case.
    pub open spec fn is_at(tickers: Seq<String>, i: int, ticker: Seq<char>) -> bool {
        same_ignoring_case(tickers[i]@, ticker)
    }

    /// The symbol is listed.
    pub open spec fn lists(&self, ticker: Seq<char>) -> bool {
        exists|i: int| 0 <= i < self.tickers@.len() && #[trigger] Listings::is_at(self.tickers@, i, ticker)
    }

    /// `i` is where the symbol is first listed.
    pub open spec fn first_at(&self, i: int, ticker: Seq<char>) -> bool {
        &&& 0 <= i < self.tickers@.len()
        &&& Listings::is_at(self.tickers@, i, ticker)
        &&& forall|j: int| 0 <= j < i ==> !#[trigger] Listings::is_at(self.tickers@, j, ticker)
    }

    /// No ticker is listed twice, in whatever case.
    pub open spec fn distinct(tickers: Seq<String>) -> bool {
        forall|i: int, j: int|
            #![trigger tickers[i], tickers[j]]
            0 <= i < j < tickers.len() ==> !same_ignoring_case(tickers[i]@, tickers[j]@)
    }

    /// Nothing listed, with room for `max`.
    pub fn new(max: usize) -> (listings: Self)
        ensures
            listings.tickers@ == Seq::<String>::empty(),
            listings.max == max,
    {
        Listings { tickers: Vec::new(), max }
    }

    /// Every ticker, in listing order.
    pub fn all(&self) -> (tickers: &Vec<String>)
        ensures
            *tickers == self.tickers,
    {
        &self.tickers
    }

    /// Where `ticker` is listed, matched case-insensitively.
    pub fn index_of(&self, ticker: &str) -> (r: Option<usize>)
        ensures
            match r {
                Some(i) => self.first_at(i as int, ticker@) && self.lists(ticker@),
                None => !self.lists(ticker@),
            },
    {
        let mut i: usize = 0;
        while i < self.tickers.len()
            invariant
                i <= self.tickers.len(),
                forall|j: int| 0 <= j < i ==> !#[trigger] Listings::is_at(self.tickers@, j, ticker@),
            decreases self.tickers.len() - i,
        {
            if eq_ignoring_case(self.tickers[i].as_str(), ticker) {
                assert(Listings::is_at(self.tickers@, i as int, ticker@));
                return Some(i);
            }
            assert(!Listings::is_at(self.tickers@, i as int, ticker@));
            i = i + 1;
        }
        None
    }

    /// The ticker as it is listed, matched case-insensitively.
    pub fn get(&self, ticker: &str) -> (r: Option<&String>)
        ensures
            match r {
                Some(found) => exists|i: int| #[trigger] self.first_at(i, ticker@) && *found == self.tickers@[i],
                None => !self.lists(ticker@),
            },
    {
        match self.index_of(ticker) {
            Some(i) => {
                assert(self.first_at(i as int, ticker@));
                Some(&self.tickers[i])
            },
            None => None,
        }
    }

    /// How many symbols are listed.
    pub fn len(&self) -> (n: usize)
        ensures
            n == self.tickers@.len(),
    {
        self.tickers.len()
    }

    /// No symbol is listed.
    pub fn is_empty(&self) -> (r: bool)
        ensures
            r == (self.tickers@.len() == 0),
    {
        self.tickers.len() == 0
    }

    /// List a symbol, last.
    pub fn list(&mut self, ticker: String) -> (r: Result<(), ListingError>)
        ensures
            final(self).max == old(self).max,
            match r {
                Ok(()) => {
                    &&& !old(self).lists(ticker@)
                    &&& old(self).tickers@.len() < old(self).max
                    &&& final(self).tickers@ == old(self).tickers@.push(ticker)
                },
                Err(ListingError::AlreadyListed(t)) => old(self).lists(ticker@) && t@ == ticker@
                    && final(self).tickers == old(self).tickers,
                Err(ListingError::Full { max }) => !old(self).lists(ticker@) && old(self).tickers@.len()
                    >= old(self).max && max == old(self).max && final(self).tickers == old(self).tickers,
            },
    {
        match self.index_of(ticker.as_str()) {
            Some(_) => {
                return Err(ListingError::AlreadyListed(ticker));
            },
            None => {},
        }
        if self.tickers.len() >= self.max {
            return Err(ListingError::Full { max: self.max });
        }
        self.tickers.push(ticker);
        Ok(())
    }

    /// Take the symbol listed at `i` off the table.
    pub fn remove(&mut self, i: usize) -> (ticker: String)
        requires
            i < old(self).tickers@.len(),
        ensures
            ticker == old(self).tickers@[i as int],
            final(self).tickers@ == old(self).tickers@.remove(i as int),
            final(self).max == old(self).max,
    {
        self.tickers.remove(i)
    }
}

// ---------------------------------------------------------------------------
// Laws

/// Listing a symbol that is not listed yet leaves every ticker listed once.
pub proof fn law_listing_keeps_tickers_distinct(listings: &Listings, ticker: String)
    requires
        Listings::distinct(listings.tickers@),
        !listings.lists(ticker@),
    ensures
        Listings::distinct(listings.tickers@.push(ticker)),
{
    let after = listings.tickers@.push(ticker);
    assert forall|i: int, j: int| #![trigger after[i], after[j]] 0 <= i < j < after.len() implies !same_ignoring_case(
        after[i]@,
        after[j]@,
    ) by {
        if j == listings.tickers@.len() {
            assert(!Listings::is_at(listings.tickers@, i, ticker@));
        } else {
            assert(after[i] == listings.tickers@[i] && after[j] == listings.tickers@[j]);
        }
    }
}

/// Delisting a symbol leaves it listed no longer, and every other one where
/// it was, still listed once.
pub proof fn law_a_delisted_symbol_is_gone(listings: &Listings, after: &Listings, i: int)
    requires
        Listings::distinct(listings.tickers@),
        0 <= i < listings.tickers@.len(),
        after.tickers@ == listings.tickers@.remove(i),
    ensures
        Listings::distinct(after.tickers@),
        !after.lists(listings.tickers@[i]@),
{
    let before = listings.tickers@;
    let gone = before[i];
    assert forall|a: int, b: int|
        #![trigger after.tickers@[a], after.tickers@[b]]
        0 <= a < b < after.tickers@.len() implies !same_ignoring_case(after.tickers@[a]@, after.tickers@[b]@) by {
        let x = if a < i { a } else { a + 1 };
        let y = if b < i { b } else { b + 1 };
        assert(after.tickers@[a] == before[x] && after.tickers@[b] == before[y]);
    }
    assert forall|a: int| 0 <= a < after.tickers@.len() implies !#[trigger] Listings::is_at(
        after.tickers@,
        a,
        gone@,
    ) by {
        let x = if a < i { a } else { a + 1 };
        assert(after.tickers@[a] == before[x]);
        if x < i {
            assert(!same_ignoring_case(before[x]@, before[i]@));
        } else {
            assert(!same_ignoring_case(before[i]@, before[x]@));
        }
    }
}

/// A ticker is found where it is listed, whatever the case it is written in,
/// and nowhere else; with the tickers distinct there is one such place.
pub proof fn law_a_ticker_is_found_where_it_is_listed(listings: Listings, ticker: &str, r: Option<usize>, i: int)
    requires
        call_ensures(Listings::index_of, (&listings, ticker), r),
        0 <= i < listings.tickers@.len(),
        same_ignoring_case(listings.tickers@[i]@, ticker@),
        forall|j: int|
            0 <= j < listings.tickers@.len() && j != i ==> !same_ignoring_case((#[trigger] listings.tickers@[j])@, ticker@),
    ensures
        r matches Some(found) && found == i,
{
    assert(Listings::is_at(listings.tickers@, i, ticker@));
    if r is Some {
        assert(Listings::is_at(listings.tickers@, (r->0) as int, ticker@));
        assert(same_ignoring_case(listings.tickers@[(r->0) as int]@, ticker@));
    }
}

/// A ticker that is listed in no case is not found.
pub proof fn law_an_unlisted_ticker_is_not_found(listings: Listings, ticker: &str, r: Option<usize>)
    requires
        call_ensures(Listings::index_of, (&listings, ticker), r),
    ensures
        r is None <==> forall|j: int|
            0 <= j < listings.tickers@.len() ==> !same_ignoring_case((#[trigger] listings.tickers@[j])@, ticker@),
        r matches Some(found) ==> found < listings.tickers@.len() && same_ignoring_case(
            listings.tickers@[found as int]@,
            ticker@,
        ),
{
    if r is None {
        assert forall|j: int| 0 <= j < listings.tickers@.len() implies !same_ignoring_case(
            (#[trigger] listings.tickers@[j])@,
            ticker@,
        ) by {
            assert(!Listings::is_at(listings.tickers@, j, ticker@));
        }
    } else {
        assert(Listings::is_at(listings.tickers@, (r->0) as int, ticker@));
        assert(same_ignoring_case(listings.tickers@[(r->0) as int]@, ticker@));
    }
}

} // verus!
