//! Recipes and jobs: the world turning things into other things.
//!
//! A recipe says what making something takes; a job is one run of it. A job
//! takes what it needs up front and carries what it will deliver, so neither
//! a recipe rewritten afterwards nor an event that lands halfway through
//! changes what a running job owes. Nothing here reads a clock or draws a
//! random number.

use vstd::prelude::*;

use crate::account::{AccountId, MoneyError};
use crate::ledger::LedgerError;
use crate::num::{clamp_u64, max_int};
use crate::table::{in_order, lists_keys, Key, Table};
use crate::text::{
    ascii_alphanumeric, ascii_uppercase, chars_of, decimal, is_ascii_alphanumeric, push_u64, push_usize, same_text,
    to_ascii_upper, trim, trimmed,
};
use crate::trading::TraderId;
use vstd::utf8::encode_utf8;

verus! {

/// Recipes one world may hold.
pub const MAX_RECIPES: usize = 256;

/// Inputs, or outputs, one recipe may name.
pub const MAX_RECIPE_LINES: usize = 8;

/// The longest note a recipe carries.
pub const MAX_RECIPE_NOTE: usize = 140;

/// The longest a recipe id may be.
pub const MAX_RECIPE_ID: usize = 24;

/// The longest a recipe may take, in simulated seconds: thirty days.
pub const MAX_DURATION_SECS: u64 = 2_592_000;

/// Units one line of a recipe may name.
pub const MAX_LINE_QTY: u64 = 1_000_000;

/// Jobs the world will have in the furnace at once.
pub const MAX_RUNNING_JOBS: usize = 1_024;

/// Basis points in one.
pub const BPS: i64 = 10_000;

/// How far a game event may push a yield: a quarter of the recipe, or four
/// times it. A multiplier outside this is clamped rather than refused.
pub const MIN_YIELD_BPS: i64 = 2_500;

/// The other end of [`MIN_YIELD_BPS`].
pub const MAX_YIELD_BPS: i64 = 40_000;

/// One side of a recipe: how many units of what.
#[derive(Debug, PartialEq, Eq)]
pub struct Line {
    /// The good.
    pub symbol: String,
    /// Units of it.
    pub qty: u64,
}

impl Clone for Line {
    fn clone(&self) -> (copy: Self)
        ensures
            copy == *self,
    {
        Line { symbol: self.symbol.clone(), qty: self.qty }
    }
}

/// A copy of the lines.
fn copy_lines(lines: &Vec<Line>) -> (copy: Vec<Line>)
    ensures
        copy@ == lines@,
{
    let mut copy: Vec<Line> = Vec::new();
    let mut i: usize = 0;
    while i < lines.len()
        invariant
            i <= lines.len(),
            copy@ == lines@.take(i as int),
        decreases lines.len() - i,
    {
        copy.push(lines[i].clone());
        proof {
            assert(lines@.take(i as int + 1) =~= lines@.take(i as int).push(lines@[i as int]));
        }
        i = i + 1;
    }
    proof {
        assert(lines@.take(lines@.len() as int) =~= lines@);
    }
    copy
}

/// What the world knows how to make, and what making it takes.
#[derive(Debug)]
pub struct Recipe {
    /// A short name, uppercased: `SMELT`.
    pub id: String,
    /// Bumped every time an operator rewrites the recipe, so a job started
    /// under an earlier text can still say which one it was.
    pub version: u32,
    /// Units consumed when the job starts.
    pub inputs: Vec<Line>,
    /// Units issued when it completes, before any event effect on the yield.
    pub outputs: Vec<Line>,
    /// What the furnace charges, in cents. Paid to the venue when the job
    /// starts; nothing is created or destroyed by it.
    pub cost_cents: i64,
    /// How long it takes, in simulated seconds.
    pub duration_secs: u64,
    /// What a cancellation gives back, in basis points of the cost.
    pub refund_bps: u32,
    /// What the recipe is, for whoever reads the book.
    pub note: Option<String>,
}

/// Why a recipe or a job was refused.
///
/// Every one of these is checked before anything moves: a refused job leaves
/// its inputs where they were and its owner's wallet untouched.
#[derive(Clone, Debug)]
pub enum JobError {
    /// The book is full ([`MAX_RECIPES`]).
    Full,
    /// No recipe by that name.
    UnknownRecipe(String),
    /// No such job.
    UnknownJob(u64),
    /// The recipe as written does not make sense.
    Recipe(String),
    /// No such trader.
    UnknownTrader(u64),
    /// The symbol is not listed, or its actor is gone.
    Unknown(String),
    /// The symbol is a stock: shares are floated and traded, not made.
    NotAGood(String),
    /// The owner does not hold that many units free of reservations.
    InsufficientUnits {
        /// The good.
        symbol: String,
        /// What the recipe takes.
        needed: u64,
        /// What is held and unreserved.
        available: u64,
    },
    /// The ledger would not move the money.
    Money(MoneyError),
    /// The job has already finished, so there is nothing to cancel.
    NotRunning(u64),
    /// The world is running as many jobs as it will.
    TooManyJobs(usize),
    /// A count that will not fit.
    Quantity(String),
}

impl From<MoneyError> for JobError {
    fn from(e: MoneyError) -> (r: Self) {
        JobError::Money(e)
    }
}

impl vstd::std_specs::convert::FromSpecImpl<MoneyError> for JobError {
    open spec fn obeys_from_spec() -> bool {
        true
    }

    open spec fn from_spec(e: MoneyError) -> Self {
        JobError::Money(e)
    }
}

impl From<LedgerError> for JobError {
    fn from(e: LedgerError) -> (r: Self) {
        JobError::Money(MoneyError::Ledger(e))
    }
}

impl vstd::std_specs::convert::FromSpecImpl<LedgerError> for JobError {
    open spec fn obeys_from_spec() -> bool {
        true
    }

    open spec fn from_spec(e: LedgerError) -> Self {
        JobError::Money(MoneyError::Ledger(e))
    }
}

impl JobError {
    /// The symbol's actor has stopped: as far as the caller can tell, the
    /// symbol is no longer listed.
    pub fn gone() -> (e: Self)
        ensures
            e matches JobError::Unknown(text) && text@ == "the symbol is no longer listed"@,
    {
        JobError::Unknown("the symbol is no longer listed".to_owned())
    }

    /// The refusal in words; where the ledger refused, in the ledger's own.
    pub open spec fn words(self, ledger_words: Seq<char>) -> Seq<char> {
        match self {
            JobError::Full => "the world holds 256 recipes already"@,
            JobError::UnknownRecipe(id) => "no recipe "@ + id@,
            JobError::UnknownJob(id) => "no job "@ + decimal(id as nat),
            JobError::Recipe(why) => why@,
            JobError::UnknownTrader(id) => "no trader "@ + decimal(id as nat),
            JobError::Unknown(symbol) => symbol@ + " is not listed"@,
            JobError::NotAGood(symbol) => symbol@ + " is a stock: its shares are traded, not made to order"@,
            JobError::InsufficientUnits { symbol, needed, available } => "insufficient units of "@ + symbol@
                + ": need "@ + decimal(needed as nat) + ", hold "@ + decimal(available as nat)
                + " free of reservations"@,
            JobError::Money(e) => e.words(ledger_words),
            JobError::NotRunning(id) => "job "@ + decimal(id as nat) + " has already finished"@,
            JobError::TooManyJobs(cap) => decimal(cap as nat) + " jobs are already running"@,
            JobError::Quantity(why) => why@,
        }
    }

    /// The refusal in words.
    pub fn message(&self, ledger_words: &str) -> (text: String)
        ensures
            text@ == self.words(ledger_words@),
    {
        match self {
            JobError::Full => "the world holds 256 recipes already".to_owned(),
            JobError::UnknownRecipe(id) => {
                let mut text = "no recipe ".to_owned();
                text.append(id.as_str());
                text
            },
            JobError::UnknownJob(id) => {
                let mut text = "no job ".to_owned();
                push_u64(&mut text, *id);
                text
            },
            JobError::Recipe(why) => why.clone(),
            JobError::UnknownTrader(id) => {
                let mut text = "no trader ".to_owned();
                push_u64(&mut text, *id);
                text
            },
            JobError::Unknown(symbol) => {
                let mut text = symbol.clone();
                text.append(" is not listed");
                text
            },
            JobError::NotAGood(symbol) => {
                let mut text = symbol.clone();
                text.append(" is a stock: its shares are traded, not made to order");
                text
            },
            JobError::InsufficientUnits { symbol, needed, available } => {
                let mut text = "insufficient units of ".to_owned();
                text.append(symbol.as_str());
                text.append(": need ");
                push_u64(&mut text, *needed);
                text.append(", hold ");
                push_u64(&mut text, *available);
                text.append(" free of reservations");
                text
            },
            JobError::Money(e) => e.message(ledger_words),
            JobError::NotRunning(id) => {
                let mut text = "job ".to_owned();
                push_u64(&mut text, *id);
                text.append(" has already finished");
                text
            },
            JobError::TooManyJobs(cap) => {
                let mut text = String::new();
                push_usize(&mut text, *cap);
                text.append(" jobs are already running");
                proof {
                    assert(text@ =~= decimal(*cap as nat) + " jobs are already running"@);
                }
                text
            },
            JobError::Quantity(why) => why.clone(),
        }
    }
}

/// `c` may stand in a recipe id.
pub open spec fn is_id_char(c: char) -> bool {
    is_ascii_alphanumeric(c) || c == '-' || c == '_'
}

/// What is wrong with a recipe id that is already trimmed and in upper case.
pub open spec fn id_fault(id: Seq<char>) -> Option<Seq<char>> {
    if encode_utf8(id).len() == 0 || encode_utf8(id).len() > MAX_RECIPE_ID {
        Some("a recipe id is 1 to 24 characters"@)
    } else if exists|i: int| 0 <= i < id.len() && !is_id_char(#[trigger] id[i]) {
        Some("a recipe id is letters, digits, '-' and '_'"@)
    } else {
        None
    }
}

/// Clean a recipe id: trimmed, uppercased, and made of the characters a
/// ticker is made of.
pub fn clean_id(id: &str) -> (r: Result<String, JobError>)
    ensures
        ({
            let clean = ascii_uppercase(trimmed(id@));
            match r {
                Ok(text) => id_fault(clean) is None && text@ == clean,
                Err(e) => e matches JobError::Recipe(why) && id_fault(clean) == Some(why@),
            }
        }),
{
    let chars = chars_of(trim(id).as_str());
    let mut text = String::new();
    let mut i: usize = 0;
    while i < chars.len()
        invariant
            i <= chars.len(),
            chars@ == trimmed(id@),
            text@ == ascii_uppercase(chars@.take(i as int)),
        decreases chars.len() - i,
    {
        text.push(to_ascii_upper(chars[i]));
        proof {
            assert(text@ =~= ascii_uppercase(chars@.take(i as int + 1)));
        }
        i = i + 1;
    }
    proof {
        assert(chars@.take(chars@.len() as int) =~= chars@);
    }
    let bytes: usize = text.as_str().as_bytes().len();
    if bytes == 0 || bytes > MAX_RECIPE_ID {
        return Err(JobError::Recipe("a recipe id is 1 to 24 characters".to_owned()));
    }
    let letters = chars_of(text.as_str());
    let mut i: usize = 0;
    while i < letters.len()
        invariant
            i <= letters.len(),
            letters@ == text@,
            text@ == ascii_uppercase(trimmed(id@)),
            0 < encode_utf8(text@).len() <= MAX_RECIPE_ID,
            forall|j: int| 0 <= j < i ==> is_id_char(#[trigger] text@[j]),
        decreases letters.len() - i,
    {
        let c = letters[i];
        if !(ascii_alphanumeric(c) || c == '-' || c == '_') {
            assert(!is_id_char(text@[i as int]));
            return Err(JobError::Recipe("a recipe id is letters, digits, '-' and '_'".to_owned()));
        }
        i = i + 1;
    }
    Ok(text)
}

/// An earlier line names the same symbol as the one at `i`.
pub open spec fn repeats(lines: Seq<Line>, i: int) -> bool {
    exists|j: int| 0 <= j < i && (#[trigger] lines[j]).symbol@ == lines[i].symbol@
}

/// The first symbol named twice.
pub open spec fn duplicate(lines: Seq<Line>) -> Option<Seq<char>> {
    if exists|i: int| 0 <= i < lines.len() && #[trigger] repeats(lines, i) {
        let first = choose|i: int|
            0 <= i < lines.len() && #[trigger] repeats(lines, i) && forall|k: int| 0 <= k < i ==> !#[trigger] repeats(lines, k);
        Some(lines[first].symbol@)
    } else {
        None
    }
}

/// The first symbol named twice in `lines`, if any.
fn first_duplicate(lines: &Vec<Line>) -> (r: Option<String>)
    ensures
        match r {
            Some(symbol) => duplicate(lines@) == Some(symbol@),
            None => duplicate(lines@) is None,
        },
{
    let mut i: usize = 0;
    while i < lines.len()
        invariant
            i <= lines.len(),
            forall|k: int| 0 <= k < i ==> !#[trigger] repeats(lines@, k),
        decreases lines.len() - i,
    {
        let mut j: usize = 0;
        while j < i
            invariant
                j <= i,
                i < lines.len(),
                forall|k: int| 0 <= k < i ==> !#[trigger] repeats(lines@, k),
                forall|k: int| 0 <= k < j ==> (#[trigger] lines@[k]).symbol@ != lines@[i as int].symbol@,
            decreases i - j,
        {
            if same_text(lines[j].symbol.as_str(), lines[i].symbol.as_str()) {
                proof {
                    assert(lines@[j as int].symbol@ == lines@[i as int].symbol@);
                    assert(repeats(lines@, i as int));
                    let first = choose|f: int|
                        0 <= f < lines@.len() && #[trigger] repeats(lines@, f) && forall|k: int|
                            0 <= k < f ==> !#[trigger] repeats(lines@, k);
                    assert(first == i) by {
                        if first < i {
                            assert(!repeats(lines@, first));
                        }
                        if first > i {
                            assert(!repeats(lines@, i as int));
                        }
                    }
                }
                return Some(lines[i].symbol.clone());
            }
            j = j + 1;
        }
        i = i + 1;
    }
    None
}

/// A line names no units, or too many.
pub open spec fn bad_qty(line: Line) -> bool {
    line.qty == 0 || line.qty > MAX_LINE_QTY
}

fn any_bad_qty(lines: &Vec<Line>) -> (r: bool)
    ensures
        r == exists|i: int| 0 <= i < lines@.len() && bad_qty(#[trigger] lines@[i]),
{
    let mut i: usize = 0;
    while i < lines.len()
        invariant
            i <= lines.len(),
            forall|j: int| 0 <= j < i ==> !bad_qty(#[trigger] lines@[j]),
        decreases lines.len() - i,
    {
        if lines[i].qty == 0 || lines[i].qty > MAX_LINE_QTY {
            assert(bad_qty(lines@[i as int]));
            return true;
        }
        i = i + 1;
    }
    false
}

/// What is wrong with a recipe as written, in the order it is looked for.
pub open spec fn recipe_fault(
    inputs: Seq<Line>,
    outputs: Seq<Line>,
    cost_cents: i64,
    duration_secs: u64,
    refund_bps: u32,
) -> Option<Seq<char>> {
    if outputs.len() == 0 {
        Some("a recipe makes at least one thing"@)
    } else if inputs.len() > MAX_RECIPE_LINES || outputs.len() > MAX_RECIPE_LINES {
        Some("a recipe names at most 8 inputs and 8 outputs"@)
    } else if (exists|i: int| 0 <= i < inputs.len() && bad_qty(#[trigger] inputs[i])) || (exists|i: int|
        0 <= i < outputs.len() && bad_qty(#[trigger] outputs[i])) {
        Some("a recipe line is 1 to 1000000 units"@)
    } else if duplicate(inputs) is Some {
        Some(duplicate(inputs)->0 + " is named twice on the same side; give it one line"@)
    } else if duplicate(outputs) is Some {
        Some(duplicate(outputs)->0 + " is named twice on the same side; give it one line"@)
    } else if cost_cents < 0 {
        Some("a recipe cannot cost less than nothing"@)
    } else if duration_secs > MAX_DURATION_SECS {
        Some("a recipe takes at most 2592000 simulated seconds"@)
    } else if refund_bps > BPS {
        Some("a refund is at most the whole cost (10000 bps)"@)
    } else {
        None
    }
}

fn named_twice(symbol: String) -> (text: String)
    ensures
        text@ == symbol@ + " is named twice on the same side; give it one line"@,
{
    let mut text = symbol;
    text.append(" is named twice on the same side; give it one line");
    text
}

/// What is wrong with a recipe as written.
fn check_recipe(
    inputs: &Vec<Line>,
    outputs: &Vec<Line>,
    cost_cents: i64,
    duration_secs: u64,
    refund_bps: u32,
) -> (r: Result<(), String>)
    ensures
        match r {
            Ok(()) => recipe_fault(inputs@, outputs@, cost_cents, duration_secs, refund_bps) is None,
            Err(why) => recipe_fault(inputs@, outputs@, cost_cents, duration_secs, refund_bps) == Some(why@),
        },
{
    if outputs.len() == 0 {
        return Err("a recipe makes at least one thing".to_owned());
    }
    if inputs.len() > MAX_RECIPE_LINES || outputs.len() > MAX_RECIPE_LINES {
        return Err("a recipe names at most 8 inputs and 8 outputs".to_owned());
    }
    if any_bad_qty(inputs) || any_bad_qty(outputs) {
        return Err("a recipe line is 1 to 1000000 units".to_owned());
    }
    match first_duplicate(inputs) {
        Some(symbol) => {
            return Err(named_twice(symbol));
        },
        None => {},
    }
    match first_duplicate(outputs) {
        Some(symbol) => {
            return Err(named_twice(symbol));
        },
        None => {},
    }
    if cost_cents < 0 {
        return Err("a recipe cannot cost less than nothing".to_owned());
    }
    if duration_secs > MAX_DURATION_SECS {
        return Err("a recipe takes at most 2592000 simulated seconds".to_owned());
    }
    if refund_bps as i64 > BPS {
        return Err("a refund is at most the whole cost (10000 bps)".to_owned());
    }
    Ok(())
}

/// Every recipe, by id.
///
/// Ordered by id, so what is listed is stable between calls and between runs.
pub struct RecipeBook {
    recipes: Table<String, Recipe>,
}

impl RecipeBook {
    /// The recipes, by id.
    pub closed spec fn book(&self) -> Map<Seq<char>, Recipe> {
        self.recipes.map()
    }

    /// The ids, in order.
    pub closed spec fn ids(&self) -> Seq<Seq<char>> {
        self.recipes.keys()
    }

    /// Each recipe stands under its own id and makes sense as written, and
    /// there are no more of them than the book holds.
    pub closed spec fn wf(&self) -> bool {
        &&& self.recipes.wf()
        &&& self.recipes.keys().len() <= MAX_RECIPES
        &&& forall|id: Seq<char>| #[trigger]
            self.recipes.map().contains_key(id) ==> {
                let recipe = self.recipes.map()[id];
                &&& recipe.id@ == id
                &&& recipe_fault(
                    recipe.inputs@,
                    recipe.outputs@,
                    recipe.cost_cents,
                    recipe.duration_secs,
                    recipe.refund_bps,
                ) is None
            }
    }

    /// The version the next text of a recipe takes.
    pub open spec fn next_version(&self, id: Seq<char>) -> int {
        if self.book().contains_key(id) {
            self.book()[id].version + 1
        } else {
            1
        }
    }

    /// Write or replace a recipe.
    ///
    /// Replacing bumps the version. A job already running keeps the outputs
    /// it was started with, so rewriting a recipe changes what the *next*
    /// job makes and nothing that is already in the furnace.
    pub fn set(
        &mut self,
        id: String,
        inputs: Vec<Line>,
        outputs: Vec<Line>,
        cost_cents: i64,
        duration_secs: u64,
        refund_bps: u32,
        note: Option<String>,
    ) -> (r: Result<&Recipe, JobError>)
        requires
            old(self).wf(),
            old(self).next_version(id@) <= u32::MAX,
        ensures
            final(self).wf(),
            match r {
                Ok(recipe) => {
                    &&& recipe_fault(inputs@, outputs@, cost_cents, duration_secs, refund_bps) is None
                    &&& old(self).book().contains_key(id@) || old(self).book().len() < MAX_RECIPES
                    &&& *recipe == (Recipe {
                        id,
                        version: old(self).next_version(id@) as u32,
                        inputs,
                        outputs,
                        cost_cents,
                        duration_secs,
                        refund_bps,
                        note,
                    })
                    &&& final(self).book() == old(self).book().insert(id@, *recipe)
                },
                Err(JobError::Recipe(why)) => *final(self) == *old(self) && recipe_fault(
                    inputs@,
                    outputs@,
                    cost_cents,
                    duration_secs,
                    refund_bps,
                ) == Some(why@),
                Err(JobError::Full) => *final(self) == *old(self) && recipe_fault(
                    inputs@,
                    outputs@,
                    cost_cents,
                    duration_secs,
                    refund_bps,
                ) is None && !old(self).book().contains_key(id@) && old(self).book().len() >= MAX_RECIPES,
                Err(_) => false,
            },
    {
        match check_recipe(&inputs, &outputs, cost_cents, duration_secs, refund_bps) {
            Ok(()) => {},
            Err(why) => {
                return Err(JobError::Recipe(why));
            },
        }
        let version: u32 = match self.recipes.get(&id) {
            Some(recipe) => recipe.version + 1,
            None => 1,
        };
        if !self.recipes.contains_key(&id) && self.recipes.len() >= MAX_RECIPES {
            return Err(JobError::Full);
        }
        let ghost before = *self;
        let key = id.clone();
        let recipe = Recipe {
            id: id.clone(),
            version,
            inputs,
            outputs,
            cost_cents,
            duration_secs,
            refund_bps,
            note,
        };
        self.recipes.insert(key, recipe);
        proof {
            before.recipes.lemma_len();
            self.recipes.lemma_len();
        }
        match self.recipes.find(&id) {
            Some(at) => Ok(self.recipes.val_at(at)),
            None => Err(JobError::Full),
        }
    }

    /// Take a recipe out of the book. Jobs already running finish: they carry
    /// what they will deliver.
    pub fn remove(&mut self, id: &str) -> (r: Option<Recipe>)
        requires
            old(self).wf(),
        ensures
            final(self).wf(),
            final(self).book() == old(self).book().remove(id@),
            match r {
                Some(recipe) => old(self).book().contains_key(id@) && recipe == old(self).book()[id@],
                None => !old(self).book().contains_key(id@),
            },
    {
        let ghost before = *self;
        let taken = self.recipes.remove(&id.to_owned());
        proof {
            before.recipes.lemma_len();
            self.recipes.lemma_len();
        }
        taken
    }

    /// The recipe by that id, if there is one.
    pub fn get(&self, id: &str) -> (r: Option<&Recipe>)
        requires
            self.wf(),
        ensures
            match r {
                Some(recipe) => self.book().contains_key(id@) && *recipe == self.book()[id@],
                None => !self.book().contains_key(id@),
            },
    {
        self.recipes.get(&id.to_owned())
    }

    /// Every recipe, ordered by id.
    pub fn recipes(&self) -> (recipes: Vec<&Recipe>)
        requires
            self.wf(),
        ensures
            recipes@.len() == self.ids().len(),
            forall|i: int| 0 <= i < recipes@.len() ==> *#[trigger] recipes@[i] == self.book()[self.ids()[i]],
    {
        let mut recipes: Vec<&Recipe> = Vec::new();
        let n: usize = self.recipes.len();
        let mut i: usize = 0;
        while i < n
            invariant
                self.wf(),
                n == self.ids().len(),
                i <= n,
                recipes@.len() == i,
                forall|j: int| 0 <= j < i ==> *#[trigger] recipes@[j] == self.book()[self.ids()[j]],
            decreases n - i,
        {
            recipes.push(self.recipes.val_at(i));
            i = i + 1;
        }
        recipes
    }

    /// Recipes written.
    pub fn len(&self) -> (n: usize)
        requires
            self.wf(),
        ensures
            n == self.book().len(),
            n <= MAX_RECIPES,
    {
        self.recipes.len()
    }

    /// Nothing can be made.
    pub fn is_empty(&self) -> (r: bool)
        requires
            self.wf(),
        ensures
            r == (self.book().len() == 0),
    {
        self.recipes.len() == 0
    }
}

impl Default for RecipeBook {
    fn default() -> (book: Self)
        ensures
            book.wf(),
            book.book() == Map::<Seq<char>, Recipe>::empty(),
    {
        RecipeBook { recipes: Table::new() }
    }
}

/// Where a job is.
#[derive(Clone, Copy, Debug, PartialEq, Eq, Structural)]
pub enum JobStatus {
    /// Started, not yet due.
    Running,
    /// Delivered.
    Done,
    /// Stopped by its owner before it was due.
    Cancelled,
}

impl JobStatus {
    /// A short, stable name for logs.
    pub fn label(self) -> (name: &'static str)
        ensures
            name@ == (match self {
                JobStatus::Running => "running"@,
                JobStatus::Done => "done"@,
                JobStatus::Cancelled => "cancelled"@,
            }),
    {
        match self {
            JobStatus::Running => "running",
            JobStatus::Done => "done",
            JobStatus::Cancelled => "cancelled",
        }
    }
}

/// One run of a recipe.
#[derive(Debug)]
pub struct Job {
    pub id: u64,
    /// The recipe it runs, and the version of it that was current when it
    /// started.
    pub recipe: String,
    pub recipe_version: u32,
    /// Who started it.
    pub trader_id: u64,
    /// The account the cost came out of and any refund goes back to.
    pub account_id: u64,
    /// What it took, and what it will deliver. Resolved at the start.
    pub inputs: Vec<Line>,
    pub outputs: Vec<Line>,
    /// The yield the world was running at when it started, in basis points.
    /// `10000` is the recipe as written.
    pub yield_bps: i64,
    /// What it cost, and the balanced transaction that moved it.
    pub cost_cents: i64,
    pub tx_id: u64,
    /// What the inputs cost their owner, taken out of their positions when
    /// the job started.
    pub inputs_cost_cents: i64,
    /// Simulated instants: when it started and when it is due.
    pub started_at_ms: i64,
    pub due_at_ms: i64,
    /// Simulated instant it was delivered or cancelled.
    pub finished_at_ms: Option<i64>,
    pub status: JobStatus,
    /// What a cancellation actually paid back. `0` on a running or delivered
    /// job.
    pub refunded_cents: i64,
}

/// The two jobs say the same.
pub open spec fn same_job(a: Job, b: Job) -> bool {
    &&& a == (Job { inputs: a.inputs, outputs: a.outputs, ..b })
    &&& a.inputs@ == b.inputs@
    &&& a.outputs@ == b.outputs@
}

impl Clone for Job {
    fn clone(&self) -> (copy: Self)
        ensures
            same_job(copy, *self),
    {
        Job {
            id: self.id,
            recipe: self.recipe.clone(),
            recipe_version: self.recipe_version,
            trader_id: self.trader_id,
            account_id: self.account_id,
            inputs: copy_lines(&self.inputs),
            outputs: copy_lines(&self.outputs),
            yield_bps: self.yield_bps,
            cost_cents: self.cost_cents,
            tx_id: self.tx_id,
            inputs_cost_cents: self.inputs_cost_cents,
            started_at_ms: self.started_at_ms,
            due_at_ms: self.due_at_ms,
            finished_at_ms: self.finished_at_ms,
            status: self.status,
            refunded_cents: self.refunded_cents,
        }
    }
}

impl Job {
    /// The job runs and its time has come.
    pub open spec fn due(self, now_ms: i64) -> bool {
        self.status is Running && now_ms >= self.due_at_ms
    }

    /// Whether the job is due at `now_ms`.
    pub fn is_due(&self, now_ms: i64) -> (r: bool)
        ensures
            r == self.due(now_ms),
    {
        self.status == JobStatus::Running && now_ms >= self.due_at_ms
    }
}

/// Jobs the world will hold at once, running and finished.
///
/// Finished jobs are evicted oldest first; a running one is never evicted,
/// because it is a promise the world has taken money for.
pub const DEFAULT_JOB_LOG: usize = 2_000;

/// `after` is `before` cut to `cap` jobs: whatever runs stays, what goes is
/// the oldest of what has finished, and no more goes than has to.
pub open spec fn cut_to(before: Map<u64, Job>, after: Map<u64, Job>, cap: int) -> bool {
    &&& forall|id: u64| #[trigger]
        after.contains_key(id) ==> before.contains_key(id) && after[id] == before[id]
    &&& forall|id: u64| #[trigger] before.contains_key(id) && before[id].status is Running ==> after.contains_key(id)
    &&& forall|gone: u64, kept: u64|
        #![trigger before.contains_key(gone), after.contains_key(kept)]
        before.contains_key(gone) && !after.contains_key(gone) && after.contains_key(kept)
            && !(after[kept].status is Running) ==> gone < kept
    &&& after.len() <= cap || forall|id: u64| #[trigger] after.contains_key(id) ==> after[id].status is Running
    &&& after.len() < before.len() ==> after.len() >= cap
    &&& after.len() <= before.len()
}

/// The ids of the jobs that run.
pub open spec fn running_ids(jobs: Map<u64, Job>) -> Set<u64> {
    jobs.dom().filter(|id: u64| jobs[id].status is Running)
}

/// The jobs by id; of two with one id, the later.
pub open spec fn by_id(jobs: Seq<Job>) -> Map<u64, Job>
    decreases jobs.len(),
{
    if jobs.len() == 0 {
        Map::empty()
    } else {
        by_id(jobs.drop_last()).insert(jobs.last().id, jobs.last())
    }
}

/// The larger of `next` and one past every id.
pub open spec fn past_all(jobs: Seq<Job>, next: int) -> int
    decreases jobs.len(),
{
    if jobs.len() == 0 {
        max_int(1, next)
    } else {
        max_int(past_all(jobs.drop_last(), next), jobs.last().id + 1)
    }
}

/// The ids of the jobs due at `now_ms`, in order.
pub open spec fn due_ids(jobs: Seq<Job>, now_ms: i64) -> Seq<u64> {
    jobs.filter(|j: Job| j.due(now_ms)).map_values(|j: Job| j.id)
}

/// Every job, by id, and the counter that names the next one.
pub struct JobBook {
    jobs: Table<u64, Job>,
    next_id: u64,
    cap: usize,
}

impl JobBook {
    /// The jobs, by id.
    pub closed spec fn held(&self) -> Map<u64, Job> {
        self.jobs.map()
    }

    /// The jobs, oldest first.
    pub closed spec fn listed(&self) -> Seq<Job> {
        self.jobs.vals()
    }

    /// The id the next job takes.
    pub closed spec fn counter(&self) -> u64 {
        self.next_id
    }

    /// How many jobs are kept, where that many have finished.
    pub closed spec fn limit(&self) -> int {
        self.cap as int
    }

    /// Each job stands under its own id.
    pub closed spec fn wf(&self) -> bool {
        &&& self.jobs.wf()
        &&& self.cap >= 1
        &&& forall|id: u64| #[trigger] self.jobs.map().contains_key(id) ==> self.jobs.map()[id].id == id
    }

    /// A book that keeps `cap` finished jobs.
    pub fn with_cap(cap: usize) -> (book: Self)
        ensures
            book.wf(),
            book.held() == Map::<u64, Job>::empty(),
            book.counter() == 1,
            book.limit() == max_int(cap as int, 1),
    {
        JobBook {
            jobs: Table::new(),
            next_id: 1,
            cap: if cap < 1 {
                1
            } else {
                cap
            },
        }
    }

    /// Set how many finished jobs are kept, without disturbing the jobs.
    pub fn set_cap(&mut self, cap: usize)
        requires
            old(self).wf(),
        ensures
            final(self).wf(),
            final(self).limit() == max_int(cap as int, 1),
            final(self).counter() == old(self).counter(),
            cut_to(old(self).held(), final(self).held(), max_int(cap as int, 1)),
    {
        self.cap = if cap < 1 {
            1
        } else {
            cap
        };
        self.evict();
    }

    /// The id the next job will take.
    pub fn next_id(&self) -> (id: u64)
        ensures
            id == self.counter(),
    {
        self.next_id
    }

    /// Take the next id.
    pub fn take_id(&mut self) -> (id: u64)
        requires
            old(self).wf(),
            old(self).counter() < u64::MAX,
        ensures
            final(self).wf(),
            id == old(self).counter(),
            final(self).counter() == id + 1,
            final(self).held() == old(self).held(),
            final(self).listed() == old(self).listed(),
            final(self).limit() == old(self).limit(),
    {
        let id: u64 = self.next_id;
        self.next_id = self.next_id + 1;
        id
    }

    /// File a job. It is running by the time it gets here.
    pub fn insert(&mut self, job: Job)
        requires
            old(self).wf(),
        ensures
            final(self).wf(),
            final(self).counter() == old(self).counter(),
            final(self).limit() == old(self).limit(),
            cut_to(old(self).held().insert(job.id, job), final(self).held(), old(self).limit()),
    {
        self.jobs.insert(job.id, job);
        self.evict();
    }

    /// The job by that id.
    pub fn get(&self, id: u64) -> (r: Option<&Job>)
        requires
            self.wf(),
        ensures
            match r {
                Some(job) => self.held().contains_key(id) && *job == self.held()[id],
                None => !self.held().contains_key(id),
            },
    {
        self.jobs.get(&id)
    }

    /// The job by that id, to change. Its id stays what it is.
    pub fn get_mut(&mut self, id: u64) -> (r: Option<&mut Job>)
        requires
            old(self).wf(),
        ensures
            match r {
                Some(job) => {
                    &&& old(self).held().contains_key(id)
                    &&& *job == old(self).held()[id]
                    &&& final(self).held() == old(self).held().insert(id, *final(job))
                    &&& final(job).id == id ==> final(self).wf()
                },
                None => !old(self).held().contains_key(id) && *final(self) == *old(self),
            },
            final(self).counter() == old(self).counter(),
            final(self).limit() == old(self).limit(),
    {
        self.jobs.get_mut(&id)
    }

    /// Every job, oldest first.
    pub fn jobs(&self) -> (jobs: Vec<&Job>)
        requires
            self.wf(),
        ensures
            jobs@.len() == self.listed().len(),
            forall|i: int| 0 <= i < jobs@.len() ==> *#[trigger] jobs@[i] == self.listed()[i],
    {
        let mut jobs: Vec<&Job> = Vec::new();
        let n: usize = self.jobs.len();
        let mut i: usize = 0;
        while i < n
            invariant
                self.wf(),
                n == self.listed().len(),
                i <= n,
                jobs@.len() == i,
                forall|j: int| 0 <= j < i ==> *#[trigger] jobs@[j] == self.listed()[j],
            decreases n - i,
        {
            jobs.push(self.jobs.val_at(i));
            i = i + 1;
        }
        jobs
    }

    /// Jobs of one trader, oldest first.
    pub fn of_trader(&self, trader: TraderId) -> (jobs: Vec<&Job>)
        requires
            self.wf(),
        ensures
            jobs@.map_values(|j: &Job| *j) == self.listed().filter(|j: Job| j.trader_id == trader.0),
    {
        let mut jobs: Vec<&Job> = Vec::new();
        let n: usize = self.jobs.len();
        let mut i: usize = 0;
        let ghost theirs = |j: Job| j.trader_id == trader.0;
        proof {
            assert(jobs@.map_values(|j: &Job| *j) =~= self.listed().take(0).filter(theirs)) by {
                reveal(Seq::filter);
            }
        }
        while i < n
            invariant
                self.wf(),
                n == self.listed().len(),
                i <= n,
                theirs == (|j: Job| j.trader_id == trader.0),
                jobs@.map_values(|j: &Job| *j) == self.listed().take(i as int).filter(theirs),
            decreases n - i,
        {
            let job = self.jobs.val_at(i);
            let ghost shorter = jobs@;
            if job.trader_id == trader.0 {
                jobs.push(job);
            }
            proof {
                lemma_filter_take(self.listed(), theirs, i as int);
                if theirs(*job) {
                    assert(jobs@.map_values(|j: &Job| *j) =~= shorter.map_values(|j: &Job| *j).push(*job));
                }
            }
            i = i + 1;
        }
        proof {
            assert(self.listed().take(n as int) =~= self.listed());
        }
        jobs
    }

    /// The ids of every job due at `now_ms`, oldest first.
    pub fn due(&self, now_ms: i64) -> (ids: Vec<u64>)
        requires
            self.wf(),
        ensures
            ids@ == due_ids(self.listed(), now_ms),
    {
        let mut ids: Vec<u64> = Vec::new();
        let n: usize = self.jobs.len();
        let mut i: usize = 0;
        let ghost ripe = |j: Job| j.due(now_ms);
        proof {
            assert(ids@ =~= due_ids(self.listed().take(0), now_ms)) by {
                reveal(Seq::filter);
            }
        }
        while i < n
            invariant
                self.wf(),
                n == self.listed().len(),
                i <= n,
                ripe == (|j: Job| j.due(now_ms)),
                ids@ == due_ids(self.listed().take(i as int), now_ms),
            decreases n - i,
        {
            let job = self.jobs.val_at(i);
            let ghost shorter = ids@;
            if job.is_due(now_ms) {
                ids.push(job.id);
            }
            proof {
                lemma_filter_take(self.listed(), ripe, i as int);
                assert(ids@ =~= due_ids(self.listed().take(i as int + 1), now_ms));
            }
            i = i + 1;
        }
        proof {
            assert(self.listed().take(n as int) =~= self.listed());
        }
        ids
    }

    /// How many jobs are still running.
    pub fn running(&self) -> (count: usize)
        requires
            self.wf(),
        ensures
            count == self.listed().filter(|j: Job| j.status is Running).len(),
            count == running_ids(self.held()).len(),
    {
        let n: usize = self.jobs.len();
        let mut count: usize = 0;
        let mut i: usize = 0;
        let ghost runs = |j: Job| j.status is Running;
        proof {
            assert(self.listed().take(0).filter(runs).len() == 0) by {
                reveal(Seq::filter);
            }
        }
        while i < n
            invariant
                self.wf(),
                n == self.listed().len(),
                i <= n,
                count <= i,
                runs == (|j: Job| j.status is Running),
                count == self.listed().take(i as int).filter(runs).len(),
            decreases n - i,
        {
            let job = self.jobs.val_at(i);
            proof {
                lemma_filter_take(self.listed(), runs, i as int);
            }
            if job.status == JobStatus::Running {
                count = count + 1;
            }
            i = i + 1;
        }
        proof {
            assert(self.listed().take(n as int) =~= self.listed());
            self.lemma_running();
        }
        count
    }

    /// Counting the jobs that run down the list counts them all.
    proof fn lemma_running(&self)
        requires
            self.wf(),
        ensures
            self.listed().filter(|j: Job| j.status is Running).len() == running_ids(self.held()).len(),
    {
        let n = self.listed().len() as int;
        self.lemma_running_to(n);
        assert(self.listed().take(n) =~= self.listed());
        let seen = Set::new(|id: u64| self.held().contains_key(id) && self.jobs.place(id) < n && self.held()[id].status is Running);
        assert(seen =~= running_ids(self.held())) by {
            assert forall|id: u64| #[trigger] self.held().contains_key(id) implies self.jobs.place(id) < n by {
                self.jobs.lemma_placed(id);
            }
        }
    }

    proof fn lemma_running_to(&self, n: int)
        requires
            self.wf(),
            0 <= n <= self.listed().len(),
        ensures
            ({
                let seen = Set::new(
                    |id: u64|
                        self.held().contains_key(id) && self.jobs.place(id) < n && self.held()[id].status is Running,
                );
                &&& seen.finite()
                &&& self.listed().take(n).filter(|j: Job| j.status is Running).len() == seen.len()
            }),
        decreases n,
    {
        let runs = |j: Job| j.status is Running;
        let seen = Set::new(
            |id: u64| self.held().contains_key(id) && self.jobs.place(id) < n && self.held()[id].status is Running,
        );
        if n == 0 {
            reveal(Seq::filter);
            assert forall|id: u64| !seen.contains(id) by {
                if self.held().contains_key(id) {
                    self.jobs.lemma_placed(id);
                }
            }
            assert(seen =~= Set::empty());
        } else {
            self.lemma_running_to(n - 1);
            let before = Set::new(
                |id: u64|
                    self.held().contains_key(id) && self.jobs.place(id) < n - 1 && self.held()[id].status is Running,
            );
            lemma_filter_take(self.listed(), runs, n - 1);
            let id = self.jobs.keys()[n - 1];
            self.jobs.lemma_at(n - 1);
            self.jobs.lemma_placed(id);
            self.jobs.lemma_distinct(self.jobs.place(id), n - 1);
            assert forall|other: u64| seen.contains(other) && other != id implies before.contains(other) by {
                self.jobs.lemma_placed(other);
            }
            if runs(self.listed()[n - 1]) {
                assert(seen =~= before.insert(id));
            } else {
                assert(seen =~= before);
            }
        }
    }

    /// Jobs held, running and finished.
    pub fn len(&self) -> (n: usize)
        requires
            self.wf(),
        ensures
            n == self.held().len(),
            n == self.listed().len(),
    {
        self.jobs.len()
    }

    /// No job has ever been started.
    pub fn is_empty(&self) -> (r: bool)
        requires
            self.wf(),
        ensures
            r == (self.held().len() == 0),
    {
        self.jobs.len() == 0
    }

    /// Rebuild a book from a snapshot.
    pub fn from_saved(jobs: Vec<Job>, next_id: u64, cap: usize) -> (book: Self)
        requires
            forall|i: int| 0 <= i < jobs@.len() ==> (#[trigger] jobs@[i]).id < u64::MAX,
        ensures
            book.wf(),
            book.counter() == past_all(jobs@, next_id as int),
            book.limit() == max_int(cap as int, 1),
            cut_to(by_id(jobs@), book.held(), max_int(cap as int, 1)),
    {
        let ghost saved = jobs@;
        let mut book = JobBook::with_cap(cap);
        let mut next: u64 = if next_id < 1 { 1 } else { next_id };
        let ghost mut done: int = 0;
        for job in it: jobs
            invariant
                it.seq() == saved,
                forall|i: int| 0 <= i < saved.len() ==> (#[trigger] saved[i]).id < u64::MAX,
                book.wf(),
                book.counter() == 1,
                book.limit() == max_int(cap as int, 1),
                book.held() == by_id(saved.take(it.index() as int)),
                next == past_all(saved.take(it.index() as int), next_id as int),
        {
            let ghost i = it.index() as int;
            assert(saved[i] == job);
            let after: u64 = job.id + 1;
            if next < after {
                next = after;
            }
            book.jobs.insert(job.id, job);
            proof {
                let longer = saved.take(i + 1);
                assert(longer.drop_last() =~= saved.take(i));
                assert(longer.last() == job);
            }
        }
        proof {
            assert(saved.take(saved.len() as int) =~= saved);
        }
        book.next_id = next;
        book.evict();
        book
    }

    /// Every job, for the snapshot.
    pub fn to_saved(&self) -> (saved: Vec<Job>)
        requires
            self.wf(),
        ensures
            saved@.len() == self.listed().len(),
            forall|i: int| 0 <= i < saved@.len() ==> same_job(#[trigger] saved@[i], self.listed()[i]),
    {
        let mut saved: Vec<Job> = Vec::new();
        let n: usize = self.jobs.len();
        let mut i: usize = 0;
        while i < n
            invariant
                self.wf(),
                n == self.listed().len(),
                i <= n,
                saved@.len() == i,
                forall|j: int| 0 <= j < i ==> same_job(#[trigger] saved@[j], self.listed()[j]),
            decreases n - i,
        {
            saved.push(self.jobs.val_at(i).clone());
            i = i + 1;
        }
        saved
    }

    /// The position of the oldest job that has finished.
    fn oldest_finished(&self) -> (r: Option<usize>)
        requires
            self.wf(),
        ensures
            match r {
                Some(i) => i < self.listed().len() && !(self.listed()[i as int].status is Running) && forall|j: int|
                    0 <= j < i ==> (#[trigger] self.listed()[j]).status is Running,
                None => forall|j: int|
                    0 <= j < self.listed().len() ==> (#[trigger] self.listed()[j]).status is Running,
            },
    {
        let n: usize = self.jobs.len();
        let mut i: usize = 0;
        while i < n
            invariant
                self.wf(),
                n == self.listed().len(),
                i <= n,
                forall|j: int| 0 <= j < i ==> (#[trigger] self.listed()[j]).status is Running,
            decreases n - i,
        {
            if self.jobs.val_at(i).status != JobStatus::Running {
                return Some(i);
            }
            i = i + 1;
        }
        None
    }

    /// Drop finished jobs beyond the cap, oldest first.
    fn evict(&mut self)
        requires
            old(self).wf(),
        ensures
            final(self).wf(),
            final(self).counter() == old(self).counter(),
            final(self).limit() == old(self).limit(),
            cut_to(old(self).held(), final(self).held(), old(self).limit()),
    {
        let ghost before = *self;
        while self.jobs.len() > self.cap
            invariant
                before == *old(self),
                before.wf(),
                self.wf(),
                self.cap == before.cap,
                self.next_id == before.next_id,
                forall|id: u64| #[trigger]
                    self.held().contains_key(id) ==> before.held().contains_key(id) && self.held()[id]
                        == before.held()[id],
                forall|id: u64| #[trigger]
                    before.held().contains_key(id) && before.held()[id].status is Running ==> self.held().contains_key(
                        id,
                    ),
                forall|gone: u64, kept: u64|
                    #![trigger before.held().contains_key(gone), self.held().contains_key(kept)]
                    before.held().contains_key(gone) && !self.held().contains_key(gone) && self.held().contains_key(
                        kept,
                    ) && !(self.held()[kept].status is Running) ==> gone < kept,
                self.held().len() <= before.held().len(),
                self.held().len() < before.held().len() ==> self.held().len() >= self.cap,
            decreases self.jobs.keys().len(),
        {
            proof {
                self.jobs.lemma_len();
            }
            match self.oldest_finished() {
                None => {
                    proof {
                        assert forall|id: u64| #[trigger] self.held().contains_key(id) implies self.held()[
                            id
                        ].status is Running by {
                            self.jobs.lemma_placed(id);
                        }
                    }
                    return;
                },
                Some(at) => {
                    let ghost middle = *self;
                    let oldest: u64 = *self.jobs.key_at(at);
                    proof {
                        self.jobs.lemma_at(at as int);
                        assert forall|kept: u64| #[trigger]
                            middle.held().contains_key(kept) && kept != oldest && !(middle.held()[kept].status is Running)
                            implies oldest < kept by {
                            middle.jobs.lemma_placed(kept);
                            let p = middle.jobs.place(kept);
                            if p < at {
                                assert(middle.listed()[p].status is Running);
                            }
                            if p == at {
                                assert(false);
                            }
                        }
                    }
                    self.jobs.remove(&oldest);
                    proof {
                        middle.jobs.lemma_len();
                        self.jobs.lemma_len();
                        assert forall|gone: u64, kept: u64|
                            #![trigger before.held().contains_key(gone), self.held().contains_key(kept)]
                            before.held().contains_key(gone) && !self.held().contains_key(gone)
                                && self.held().contains_key(kept) && !(self.held()[kept].status is Running) implies gone
                            < kept by {
                            assert(middle.held().contains_key(kept));
                            if gone != oldest {
                                assert(!middle.held().contains_key(gone));
                            }
                        }
                    }
                },
            }
        }
        proof {
            self.jobs.lemma_len();
        }
    }
}

impl Default for JobBook {
    fn default() -> (book: Self)
        ensures
            book.wf(),
            book.held() == Map::<u64, Job>::empty(),
            book.counter() == 1,
            book.limit() == DEFAULT_JOB_LOG,
    {
        JobBook::with_cap(DEFAULT_JOB_LOG)
    }
}

/// One more element either joins what a filter keeps or does not.
pub proof fn lemma_filter_take<T>(s: Seq<T>, keep: spec_fn(T) -> bool, i: int)
    requires
        0 <= i < s.len(),
    ensures
        s.take(i + 1).filter(keep) == (if keep(s[i]) {
            s.take(i).filter(keep).push(s[i])
        } else {
            s.take(i).filter(keep)
        }),
{
    reveal(Seq::filter);
    assert(s.take(i + 1).drop_last() =~= s.take(i));
    assert(s.take(i + 1).last() == s[i]);
}

/// A filter keeps what it should, and nothing that was not there.
pub proof fn lemma_filtered<T>(s: Seq<T>, keep: spec_fn(T) -> bool, x: T)
    ensures
        s.filter(keep).contains(x) <==> s.contains(x) && keep(x),
    decreases s.len(),
{
    reveal(Seq::filter);
    if s.len() > 0 {
        let (rest, last) = (s.drop_last(), s.last());
        lemma_filtered(rest, keep, x);
        let kept = rest.filter(keep);
        if s.contains(x) {
            let i = choose|i: int| 0 <= i < s.len() && s[i] == x;
            if i < s.len() - 1 {
                assert(rest[i] == x);
            }
        }
        if rest.contains(x) {
            let i = choose|i: int| 0 <= i < rest.len() && rest[i] == x;
            assert(s[i] == x);
        }
        if keep(last) {
            assert(kept.push(last).last() == last);
            if kept.contains(x) {
                let i = choose|i: int| 0 <= i < kept.len() && kept[i] == x;
                assert(kept.push(last)[i] == x);
            }
            if kept.push(last).contains(x) {
                let i = choose|i: int| 0 <= i < kept.push(last).len() && kept.push(last)[i] == x;
                if i < kept.len() {
                    assert(kept[i] == x);
                }
            }
        }
    }
}

/// The yield as it is applied: a quarter of the recipe at the least, four
/// times it at the most.
pub open spec fn clamped_yield(yield_bps: i64) -> int {
    if yield_bps < MIN_YIELD_BPS {
        MIN_YIELD_BPS as int
    } else if yield_bps > MAX_YIELD_BPS {
        MAX_YIELD_BPS as int
    } else {
        yield_bps as int
    }
}

/// Scale `qty` by `yield_bps`, rounding down but never to nothing.
///
/// A line that makes something makes at least one unit: a bad day is a
/// smaller batch, not a furnace that takes the ore and returns air.
pub fn scaled_qty(qty: u64, yield_bps: i64) -> (scaled: u64)
    ensures
        scaled == (if qty == 0 {
            0
        } else {
            max_int(clamp_u64(qty * clamped_yield(yield_bps) / 10_000) as int, 1)
        }),
{
    if qty == 0 {
        return 0;
    }
    let bps: u128 = if yield_bps < MIN_YIELD_BPS {
        2_500
    } else if yield_bps > MAX_YIELD_BPS {
        40_000
    } else {
        yield_bps as u128
    };
    proof {
        assert(0 <= qty * bps <= 0xffff_ffff_ffff_ffff * 40_000) by (nonlinear_arith)
            requires
                0 <= qty <= 0xffff_ffff_ffff_ffff,
                0 <= bps <= 40_000,
        ;
    }
    let scaled: u128 = qty as u128 * bps / 10_000;
    let bounded: u64 = if scaled > u64::MAX as u128 { u64::MAX } else { scaled as u64 };
    if bounded < 1 {
        1
    } else {
        bounded
    }
}

/// What the world knows how to make.
#[derive(Debug)]
pub struct RecipesResponse {
    pub recipes: Vec<Recipe>,
}

/// What is in the furnace.
#[derive(Debug)]
pub struct JobsResponse {
    pub jobs: Vec<Job>,
}

/// What a completed job delivered.
#[derive(Clone, Debug)]
pub struct JobDelivery {
    pub job_id: u64,
    pub trader_id: u64,
    pub recipe: String,
    /// What actually arrived. A line whose good was delisted while the job
    /// ran delivers nothing and is not listed.
    pub delivered: Vec<Line>,
    /// Simulated instant it was delivered.
    pub at_ms: i64,
}

/// The account a job's money moves through, resolved once at the start.
#[derive(Clone, Copy, Debug)]
pub struct JobOwner {
    pub trader: TraderId,
    pub account: AccountId,
}

// ---------------------------------------------------------------------------
// Laws

/// A running job is never evicted, whatever the cap is cut to.
pub proof fn law_running_jobs_are_never_evicted(before: Map<u64, Job>, after: Map<u64, Job>, cap: int, id: u64)
    requires
        cut_to(before, after, cap),
        before.contains_key(id),
        before[id].status is Running,
    ensures
        after.contains_key(id),
        after[id] == before[id],
{
}

/// A yield rounds down but never to nothing, and never past four times the
/// recipe.
pub proof fn law_a_batch_is_never_nothing_and_never_unbounded(qty: u64, yield_bps: i64)
    requires
        qty > 0,
    ensures
        1 <= max_int(clamp_u64(qty * clamped_yield(yield_bps) / 10_000) as int, 1) <= 4 * qty,
{
    assert(qty * clamped_yield(yield_bps) <= qty * 40_000) by (nonlinear_arith)
        requires
            qty > 0,
            clamped_yield(yield_bps) <= 40_000,
    ;
}

/// The recipes are listed by id: ascending, each once, and none left out. The
/// recipes settle the list.
pub proof fn law_recipes_are_listed_by_id(book: &RecipeBook, other: &RecipeBook)
    requires
        book.wf(),
        other.wf(),
    ensures
        lists_keys::<String, Recipe>(book.ids(), book.book()),
        book.book() == other.book() ==> book.ids() == other.ids(),
{
    book.recipes.lemma_listed();
    if book.book() == other.book() {
        book.recipes.law_the_map_settles_the_order(&other.recipes);
    }
}

/// The jobs are listed by their ids, oldest first: ascending, each once, and
/// none left out. The jobs held settle the list.
pub proof fn law_jobs_are_listed_by_id(book: &JobBook)
    requires
        book.wf(),
    ensures
        book.listed() == in_order(book.held()),
        book.listed().len() == book.held().len(),
        forall|i: int, j: int|
            0 <= i < j < book.listed().len() ==> (#[trigger] book.listed()[i]).id < (#[trigger] book.listed()[j]).id,
        forall|i: int|
            0 <= i < book.listed().len() ==> book.held().contains_key((#[trigger] book.listed()[i]).id)
                && book.held()[book.listed()[i].id] == book.listed()[i],
        forall|id: u64| #[trigger] book.held().contains_key(id) ==> book.listed().contains(book.held()[id]),
{
    let table = &book.jobs;
    table.lemma_in_order();
    table.lemma_listed();
    assert forall|i: int| 0 <= i < book.listed().len() implies book.held().contains_key((#[trigger] book.listed()[i]).id)
        && book.held()[book.listed()[i].id] == book.listed()[i] && book.listed()[i].id == table.keys()[i] by {
        table.lemma_at(i);
        assert(book.held().contains_key(table.keys()[i]));
    }
    assert forall|i: int, j: int| 0 <= i < j < book.listed().len() implies (#[trigger] book.listed()[i]).id < (
    #[trigger] book.listed()[j]).id by {
        assert(u64::before(table.keys()[i], table.keys()[j]));
    }
    assert forall|id: u64| #[trigger] book.held().contains_key(id) implies book.listed().contains(book.held()[id]) by {
        table.lemma_placed(id);
        assert(book.listed()[table.place(id)] == book.held()[id]);
    }
}

/// Filing a job never drops one that runs, itself included. The book holds no
/// more than its cap unless more than that run, nothing goes while there is
/// room, and what goes has finished and is older than every finished job
/// that stays.
pub proof fn law_filing_a_job_drops_only_the_oldest_finished(before: &JobBook, job: Job, after: &JobBook)
    requires
        before.wf(),
        after.wf(),
        cut_to(before.held().insert(job.id, job), after.held(), before.limit()),
    ensures
        forall|id: u64| #[trigger]
            before.held().contains_key(id) && before.held()[id].status is Running && id != job.id
                ==> after.held().contains_key(id) && after.held()[id] == before.held()[id],
        job.status is Running ==> after.held().contains_key(job.id) && after.held()[job.id] == job,
        running_ids(after.held()) == running_ids(before.held().insert(job.id, job)),
        after.held().len() <= max_int(before.limit(), running_ids(after.held()).len() as int),
        before.held().insert(job.id, job).len() <= before.limit() ==> after.held() == before.held().insert(job.id, job),
        forall|gone: u64, kept: u64|
            #![trigger before.held().insert(job.id, job).contains_key(gone), after.held().contains_key(kept)]
            before.held().insert(job.id, job).contains_key(gone) && !after.held().contains_key(gone) ==> !(
            before.held().insert(job.id, job)[gone].status is Running) && (after.held().contains_key(kept) && !(
            after.held()[kept].status is Running) ==> gone < kept),
{
    let filed = before.held().insert(job.id, job);
    let left = after.held();
    before.jobs.lemma_len();
    after.jobs.lemma_len();
    assert forall|id: u64| #[trigger]
        before.held().contains_key(id) && before.held()[id].status is Running && id != job.id implies left.contains_key(id)
        && left[id] == before.held()[id] by {
        assert(filed.contains_key(id));
    }
    assert(filed.contains_key(job.id));
    assert(running_ids(left) =~= running_ids(filed)) by {
        assert forall|id: u64| running_ids(filed).contains(id) implies running_ids(left).contains(id) by {
            assert(filed.contains_key(id));
            assert(left.contains_key(id));
        }
        assert forall|id: u64| running_ids(left).contains(id) implies running_ids(filed).contains(id) by {
            assert(left.contains_key(id));
        }
    }
    if left.len() > before.limit() {
        assert(running_ids(left) =~= left.dom()) by {
            assert forall|id: u64| left.dom().contains(id) implies running_ids(left).contains(id) by {
                assert(left.contains_key(id));
            }
        }
    }
    if filed.len() <= before.limit() {
        assert(left.dom().subset_of(filed.dom())) by {
            assert forall|id: u64| left.dom().contains(id) implies filed.dom().contains(id) by {
                assert(left.contains_key(id));
            }
        }
        vstd::set_lib::lemma_subset_equality(left.dom(), filed.dom());
        assert(left =~= filed);
    }
}

/// A running job is due at its instant and from then on, at none before it,
/// whenever it was started; one that is done or cancelled never is.
pub proof fn law_a_running_job_is_due_from_its_instant_on(job: Job, now_ms: i64, due: bool)
    requires
        call_ensures(Job::is_due, (&job, now_ms), due),
    ensures
        now_ms < job.due_at_ms ==> !due,
        job.status is Running && now_ms >= job.due_at_ms ==> due,
        !(job.status is Running) ==> !due,
{
}

/// The jobs that are due are those running whose instant has come, and no
/// others; they are listed by their numbers.
pub proof fn law_the_due_jobs_are_those_whose_instant_has_come(book: JobBook, now_ms: i64, ids: Vec<u64>, id: u64)
    requires
        book.wf(),
        call_ensures(JobBook::due, (&book, now_ms), ids),
    ensures
        ids@.contains(id) <==> {
            &&& book.held().contains_key(id)
            &&& book.held()[id].status is Running
            &&& book.held()[id].due_at_ms <= now_ms
        },
{
    law_jobs_are_listed_by_id(&book);
    let ripe = |j: Job| j.due(now_ms);
    let found = book.listed().filter(ripe);
    if ids@.contains(id) {
        let i = choose|i: int| 0 <= i < ids@.len() && ids@[i] == id;
        assert(found.contains(found[i]));
        lemma_filtered(book.listed(), ripe, found[i]);
        let j = choose|j: int| 0 <= j < book.listed().len() && book.listed()[j] == found[i];
        assert(book.held().contains_key(book.listed()[j].id));
    }
    if book.held().contains_key(id) && book.held()[id].status is Running && book.held()[id].due_at_ms <= now_ms {
        let job = book.held()[id];
        assert(book.listed().contains(job));
        lemma_filtered(book.listed(), ripe, job);
        let i = choose|i: int| 0 <= i < found.len() && found[i] == job;
        assert(ids@[i] == id);
    }
}

/// A trader's jobs are the jobs it started, all of them.
pub proof fn law_a_traders_jobs_are_its_own(book: JobBook, trader: TraderId, jobs: Vec<&Job>, job: Job)
    requires
        book.wf(),
        call_ensures(JobBook::of_trader, (&book, trader), jobs),
    ensures
        jobs@.map_values(|j: &Job| *j).contains(job) <==> book.held().contains_key(job.id) && book.held()[job.id] == job
            && job.trader_id == trader.0,
{
    law_jobs_are_listed_by_id(&book);
    lemma_filtered(book.listed(), |j: Job| j.trader_id == trader.0, job);
    if book.listed().contains(job) {
        let i = choose|i: int| 0 <= i < book.listed().len() && book.listed()[i] == job;
        assert(book.held().contains_key(book.listed()[i].id));
    }
}

/// A batch is what the recipe makes, scaled: as it is written at the whole
/// yield, never more for a lesser yield, never nothing of something, and the
/// whole units of what the yield comes to.
pub proof fn law_a_batch_is_the_recipe_scaled(
    qty: u64,
    yield_bps: i64,
    more_bps: i64,
    scaled: u64,
    more: u64,
    whole: u64,
)
    requires
        call_ensures(scaled_qty, (qty, yield_bps), scaled),
        call_ensures(scaled_qty, (qty, more_bps), more),
        call_ensures(scaled_qty, (qty, BPS), whole),
        yield_bps <= more_bps,
    ensures
        whole == qty,
        scaled <= more,
        qty == 0 <==> scaled == 0,
        MIN_YIELD_BPS <= yield_bps <= MAX_YIELD_BPS && qty * yield_bps >= BPS && qty * yield_bps / 10_000 <= u64::MAX
            ==> scaled * 10_000 <= qty * yield_bps < (scaled + 1) * 10_000,
        yield_bps < MIN_YIELD_BPS && qty >= 4 ==> scaled == qty / 4,
        yield_bps > MAX_YIELD_BPS && 4 * qty <= u64::MAX ==> scaled == 4 * qty,
{
    assert(qty * 10_000 / 10_000 == qty);
    let (low, high) = (clamped_yield(yield_bps), clamped_yield(more_bps));
    assert(qty * low <= qty * high) by (nonlinear_arith)
        requires
            0 <= low <= high,
            qty >= 0,
    ;
    assert(qty * low / 10_000 <= qty * high / 10_000);
    if yield_bps < MIN_YIELD_BPS {
        assert(qty * low == qty * 2_500) by (nonlinear_arith)
            requires
                low == 2_500,
        ;
    } else if yield_bps > MAX_YIELD_BPS {
        assert(qty * low == qty * 40_000) by (nonlinear_arith)
            requires
                low == 40_000,
        ;
    } else {
        assert(qty * low == qty * yield_bps) by (nonlinear_arith)
            requires
                low == yield_bps,
        ;
        let whole_units = qty * low / 10_000;
        if qty * yield_bps >= BPS && whole_units <= u64::MAX {
            assert(whole_units >= 1);
            assert(clamp_u64(whole_units) == whole_units);
            assert(qty != 0) by (nonlinear_arith)
                requires
                    qty * yield_bps >= 10_000,
            ;
            assert(scaled == whole_units);
        }
    }
    assert(qty * low >= 0) by (nonlinear_arith)
        requires
            low >= 0,
            qty >= 0,
    ;
}

/// A recipe can be written down where it makes something, names no more than
/// it may on either side and nothing there twice, asks for and makes amounts
/// within bounds, and costs, takes and refunds no more than it may.
pub proof fn law_a_recipe_stands_where_nothing_is_wrong_with_it(
    inputs: Seq<Line>,
    outputs: Seq<Line>,
    cost_cents: i64,
    duration_secs: u64,
    refund_bps: u32,
)
    ensures
        recipe_fault(inputs, outputs, cost_cents, duration_secs, refund_bps) is None <==> {
            &&& 1 <= outputs.len() <= MAX_RECIPE_LINES
            &&& inputs.len() <= MAX_RECIPE_LINES
            &&& forall|i: int| 0 <= i < inputs.len() ==> 1 <= (#[trigger] inputs[i]).qty <= MAX_LINE_QTY
            &&& forall|i: int| 0 <= i < outputs.len() ==> 1 <= (#[trigger] outputs[i]).qty <= MAX_LINE_QTY
            &&& forall|i: int, j: int|
                0 <= i < j < inputs.len() ==> (#[trigger] inputs[i]).symbol@ != (#[trigger] inputs[j]).symbol@
            &&& forall|i: int, j: int|
                0 <= i < j < outputs.len() ==> (#[trigger] outputs[i]).symbol@ != (#[trigger] outputs[j]).symbol@
            &&& cost_cents >= 0
            &&& duration_secs <= MAX_DURATION_SECS
            &&& refund_bps <= 10_000
        },
{
    lemma_duplicate(inputs);
    lemma_duplicate(outputs);
    assert forall|i: int| 0 <= i < inputs.len() && bad_qty(inputs[i]) implies !(1 <= (#[trigger] inputs[i]).qty
        <= MAX_LINE_QTY) by {}
    if recipe_fault(inputs, outputs, cost_cents, duration_secs, refund_bps) is None {
        assert forall|i: int| 0 <= i < inputs.len() implies 1 <= (#[trigger] inputs[i]).qty <= MAX_LINE_QTY by {
            assert(!bad_qty(inputs[i]));
        }
        assert forall|i: int| 0 <= i < outputs.len() implies 1 <= (#[trigger] outputs[i]).qty <= MAX_LINE_QTY by {
            assert(!bad_qty(outputs[i]));
        }
    }
}

/// Some line is named twice exactly where two lines name the same.
proof fn lemma_duplicate(lines: Seq<Line>)
    ensures
        duplicate(lines) is None <==> forall|i: int, j: int|
            0 <= i < j < lines.len() ==> (#[trigger] lines[i]).symbol@ != (#[trigger] lines[j]).symbol@,
{
    if duplicate(lines) is None {
        assert forall|i: int, j: int| 0 <= i < j < lines.len() implies (#[trigger] lines[i]).symbol@ != (
        #[trigger] lines[j]).symbol@ by {
            assert(!repeats(lines, j));
        }
    } else {
        let i = choose|i: int| 0 <= i < lines.len() && #[trigger] repeats(lines, i);
        let j = choose|j: int| 0 <= j < i && (#[trigger] lines[j]).symbol@ == lines[i].symbol@;
        assert(lines[j].symbol@ == lines[i].symbol@);
    }
}

/// A clean recipe id is one to so many bytes of letters, digits, dashes and
/// underscores, and no other name is clean.
pub proof fn law_a_clean_id_is_short_and_plain(id: &str, r: Result<String, JobError>)
    requires
        call_ensures(clean_id, (id,), r),
    ensures
        r matches Ok(text) ==> {
            &&& 1 <= encode_utf8(text@).len() <= MAX_RECIPE_ID
            &&& forall|i: int|
                0 <= i < text@.len() ==> is_ascii_alphanumeric(#[trigger] text@[i]) || text@[i] == '-' || text@[i] == '_'
            &&& text@ == ascii_uppercase(trimmed(id@))
        },
        r matches Err(e) ==> e is Recipe && {
            let clean = ascii_uppercase(trimmed(id@));
            ||| encode_utf8(clean).len() == 0
            ||| encode_utf8(clean).len() > MAX_RECIPE_ID
            ||| exists|i: int|
                0 <= i < clean.len() && !is_ascii_alphanumeric(#[trigger] clean[i]) && clean[i] != '-' && clean[i] != '_'
        },
{
}

/// A recipe's first text is its first version, and every later one is one
/// more.
pub proof fn law_versions_count_up(book: &RecipeBook, id: Seq<char>)
    ensures
        !book.book().contains_key(id) ==> book.next_version(id) == 1,
        book.book().contains_key(id) ==> book.next_version(id) == book.book()[id].version + 1,
{
}

/// The number the next job takes is past those of all the jobs there are, and
/// no smaller than the counter that was saved with them; no number below it
/// would do.
pub proof fn law_the_next_number_is_past_all(jobs: Seq<Job>, next: int)
    ensures
        past_all(jobs, next) >= 1,
        past_all(jobs, next) >= next,
        forall|i: int| 0 <= i < jobs.len() ==> past_all(jobs, next) > (#[trigger] jobs[i]).id,
        past_all(jobs, next) == 1 || past_all(jobs, next) == next || exists|i: int|
            0 <= i < jobs.len() && past_all(jobs, next) == (#[trigger] jobs[i]).id + 1,
    decreases jobs.len(),
{
    if jobs.len() > 0 {
        let fewer = jobs.drop_last();
        law_the_next_number_is_past_all(fewer, next);
        assert forall|i: int| 0 <= i < jobs.len() implies past_all(jobs, next) > (#[trigger] jobs[i]).id by {
            if i < fewer.len() {
                assert(fewer[i] == jobs[i]);
            }
        }
        if past_all(jobs, next) == past_all(fewer, next) && past_all(jobs, next) != 1 && past_all(jobs, next) != next {
            let i = choose|i: int| 0 <= i < fewer.len() && past_all(fewer, next) == (#[trigger] fewer[i]).id + 1;
            assert(jobs[i].id + 1 == past_all(jobs, next));
        } else if past_all(jobs, next) != past_all(fewer, next) {
            assert(jobs[jobs.len() - 1].id + 1 == past_all(jobs, next));
        }
    }
}

/// Of saved jobs with the same number the last stands, and every number there
/// was is there.
pub proof fn law_saved_jobs_come_back_by_number(jobs: Seq<Job>, i: int)
    requires
        0 <= i < jobs.len(),
        forall|j: int| i < j < jobs.len() ==> (#[trigger] jobs[j]).id != jobs[i].id,
    ensures
        by_id(jobs).contains_key(jobs[i].id),
        by_id(jobs)[jobs[i].id] == jobs[i],
        forall|id: u64| #[trigger] by_id(jobs).contains_key(id) ==> by_id(jobs)[id].id == id,
    decreases jobs.len(),
{
    let fewer = jobs.drop_last();
    if i < jobs.len() - 1 {
        assert(fewer[i] == jobs[i]);
        assert forall|j: int| i < j < fewer.len() implies (#[trigger] fewer[j]).id != fewer[i].id by {
            assert(jobs[j].id != jobs[i].id);
        }
        law_saved_jobs_come_back_by_number(fewer, i);
        assert(jobs[jobs.len() - 1].id != jobs[i].id);
    } else {
        lemma_by_id(fewer);
    }
}

/// Each job stands under its own number.
proof fn lemma_by_id(jobs: Seq<Job>)
    ensures
        forall|id: u64| #[trigger] by_id(jobs).contains_key(id) ==> by_id(jobs)[id].id == id,
    decreases jobs.len(),
{
    if jobs.len() > 0 {
        lemma_by_id(jobs.drop_last());
    }
}

/// A job that could not be paid for fails for what the money said.
pub proof fn law_a_jobs_money_trouble_is_kept_as_the_cause(e: MoneyError, l: LedgerError, r: JobError, s: JobError)
    requires
        call_ensures(<JobError as From<MoneyError>>::from, (e,), r),
        call_ensures(<JobError as From<LedgerError>>::from, (l,), s),
    ensures
        r == JobError::Money(e),
        s == JobError::Money(MoneyError::Ledger(l)),
{
}

} // verus!
