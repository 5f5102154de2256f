//! Recipes and the jobs made of them.

use fehu_webapp::jobs::{clean_id, scaled_qty, Job, JobBook, JobStatus, Line, RecipeBook, BPS, MAX_RECIPE_ID};
use fehu_webapp::trading::TraderId;

fn line(symbol: &str, qty: u64) -> Line {
    Line { symbol: symbol.into(), qty }
}

#[test]
fn a_recipe_id_is_cleaned_like_a_ticker() {
    assert_eq!(clean_id(" smelt ").unwrap(), "SMELT");
    assert!(clean_id("").is_err());
    assert!(clean_id("a b").is_err());
    assert!(clean_id(&"x".repeat(MAX_RECIPE_ID + 1)).is_err());
}

#[test]
fn a_recipe_makes_something_out_of_lines_that_add_up() {
    let mut book = RecipeBook::default();
    assert!(
        book.set("SMELT".into(), vec![], vec![], 0, 0, 0, None).is_err(),
        "a recipe that makes nothing is not a recipe"
    );
    assert!(
        book.set("SMELT".into(), vec![line("ORE", 0)], vec![line("INGOT", 1)], 0, 0, 0, None)
            .is_err(),
        "a line of no units is not a line"
    );
    assert!(
        book.set(
            "SMELT".into(),
            vec![line("ORE", 1), line("ORE", 2)],
            vec![line("INGOT", 1)],
            0,
            0,
            0,
            None
        )
        .is_err(),
        "one good, one line"
    );
    let recipe = book
        .set("SMELT".into(), vec![line("ORE", 2)], vec![line("INGOT", 1)], 500, 60, 0, None)
        .expect("a recipe that adds up");
    assert_eq!(recipe.version, 1);
}

#[test]
fn rewriting_a_recipe_bumps_its_version() {
    let mut book = RecipeBook::default();
    book.set("SMELT".into(), vec![line("ORE", 2)], vec![line("INGOT", 1)], 500, 60, 0, None)
        .unwrap();
    let again = book
        .set("SMELT".into(), vec![line("ORE", 3)], vec![line("INGOT", 1)], 500, 60, 0, None)
        .unwrap();
    assert_eq!(again.version, 2);
    assert_eq!(book.len(), 1);
}

#[test]
fn a_yield_rounds_down_but_never_to_nothing() {
    assert_eq!(scaled_qty(10, 10_000), 10);
    assert_eq!(scaled_qty(10, 15_000), 15);
    assert_eq!(scaled_qty(10, 4_900), 4);
    assert_eq!(scaled_qty(1, 2_500), 1, "a bad day is a smaller batch");
    assert_eq!(scaled_qty(0, 20_000), 0);
    assert_eq!(scaled_qty(10, 1_000_000), 40, "and a good one is bounded too");
}

#[test]
fn a_running_job_is_never_evicted() {
    let mut book = JobBook::with_cap(1);
    let mut running = Job {
        id: 0,
        recipe: "SMELT".into(),
        recipe_version: 1,
        trader_id: 1,
        account_id: 1,
        inputs: vec![],
        outputs: vec![line("INGOT", 1)],
        yield_bps: BPS,
        cost_cents: 0,
        tx_id: 0,
        inputs_cost_cents: 0,
        started_at_ms: 0,
        due_at_ms: 1_000,
        finished_at_ms: None,
        status: JobStatus::Running,
        refunded_cents: 0,
    };
    for _ in 0..3 {
        running.id = book.take_id();
        book.insert(running.clone());
    }
    assert_eq!(book.len(), 3, "three promises, none of them dropped");
    book.get_mut(1).unwrap().status = JobStatus::Done;
    book.get_mut(2).unwrap().status = JobStatus::Done;
    book.set_cap(1);
    assert_eq!(book.len(), 1);
    assert_eq!(
        book.jobs().first().unwrap().id,
        3,
        "the one still running is the one that stays"
    );
}

#[test]
fn a_trader_is_shown_their_own_jobs_oldest_first() {
    let mut book = JobBook::with_cap(10);
    for trader_id in [1, 2, 1] {
        let id = book.take_id();
        book.insert(Job {
            id,
            recipe: "SMELT".into(),
            recipe_version: 1,
            trader_id,
            account_id: 1,
            inputs: vec![],
            outputs: vec![line("INGOT", 1)],
            yield_bps: BPS,
            cost_cents: 0,
            tx_id: 0,
            inputs_cost_cents: 0,
            started_at_ms: 0,
            due_at_ms: 1_000,
            finished_at_ms: None,
            status: JobStatus::Running,
            refunded_cents: 0,
        });
    }
    let ids = |trader| book.of_trader(TraderId(trader)).iter().map(|j| j.id).collect::<Vec<_>>();
    assert_eq!(ids(1), vec![1, 3]);
    assert_eq!(ids(2), vec![2]);
    assert!(ids(3).is_empty());
}

#[test]
fn filing_a_job_drops_the_oldest_finished_one_and_no_more() {
    let job = |id: u64, status: JobStatus| Job {
        id,
        recipe: "SMELT".into(),
        recipe_version: 1,
        trader_id: 1,
        account_id: 1,
        inputs: vec![],
        outputs: vec![line("INGOT", 1)],
        yield_bps: BPS,
        cost_cents: 0,
        tx_id: 0,
        inputs_cost_cents: 0,
        started_at_ms: 0,
        due_at_ms: 1_000,
        finished_at_ms: None,
        status,
        refunded_cents: 0,
    };
    let ids = |book: &JobBook| book.jobs().iter().map(|j| j.id).collect::<Vec<_>>();
    let mut book = JobBook::with_cap(3);
    book.insert(job(4, JobStatus::Done));
    book.insert(job(2, JobStatus::Running));
    book.insert(job(3, JobStatus::Done));
    assert_eq!(ids(&book), vec![2, 3, 4], "nothing goes while there is room");
    assert_eq!(book.running(), 1);
    let next = book.next_id();
    book.insert(job(5, JobStatus::Running));
    assert_eq!(ids(&book), vec![2, 4, 5], "the oldest that has finished went");
    assert_eq!((book.running(), book.len(), book.next_id()), (2, 3, next));
    book.insert(job(6, JobStatus::Running));
    book.insert(job(7, JobStatus::Running));
    assert_eq!(ids(&book), vec![2, 5, 6, 7], "over the cap, with nothing left that has finished");
    assert_eq!(book.running(), 4);
}
