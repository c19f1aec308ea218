use codeowners_perf::cases::{cases, run_case, select_cases, Invocation, Kind};
use codeowners_perf::measure::{sample_of, summarize, Sample, Session, Step};
use codeowners_perf::phases::{phase_totals, reset_phases, take_phases, PhaseTotals};
use codeowners_perf::report::Phase;
use codeowners_perf::stats::{median, sort_ascending, spread};

fn sample(elapsed_ms: u128, phase: &str, validation_errors: usize, io_errors: usize) -> Sample {
    Sample {
        elapsed_ms,
        phases_ms: vec![Phase { name: phase.to_string(), ms: elapsed_ms / 2 }],
        validation_errors,
        io_errors,
    }
}

#[test]
fn statistics_of_runs() {
    assert_eq!(spread(&[]), 0);
    assert_eq!(spread(&[5]), 0);
    assert_eq!(spread(&[3, 9, 5]), 6);
    assert_eq!(spread(&[u128::MAX, 0]), u128::MAX);
    assert_eq!(median(&[]), 0);
    assert_eq!(median(&[4]), 4);
    assert_eq!(median(&[4, 6]), 6);
    assert_eq!(median(&[1, 2, 9]), 2);
    assert_eq!(sort_ascending(&vec![3, 9, 5, 3]), vec![3, 3, 5, 9]);
}

#[test]
fn best_run_gives_the_phases_and_last_run_the_errors() {
    let case = cases()[3];
    let samples = vec![
        sample(30, "first", 1, 0),
        sample(10, "second", 0, 4),
        sample(10, "third", 2, 0),
        sample(20, "fourth", 5, 7),
    ];
    let result = summarize(&case, &samples);
    assert_eq!(result.name, "gv_files_100");
    assert_eq!(result.status, "ok");
    assert!(result.skip_reason.is_none());
    assert_eq!(result.file_count, 100);
    assert_eq!(result.runs_ms, vec![30, 10, 10, 20]);
    assert_eq!(result.best_ms, 10);
    assert_eq!(result.median_ms, 20);
    assert_eq!(result.phases_ms.len(), 1);
    assert_eq!(result.phases_ms[0].name, "second");
    assert_eq!(result.phases_ms[0].ms, 5);
    assert_eq!(result.validation_errors, 5);
    assert_eq!(result.io_errors, 7);
}

#[test]
fn phases_are_reported_by_name() {
    let mut totals = phase_totals();
    totals.record("walk", 4_000_000);
    totals.record("build", 2_000_000);
    totals.record("walk", 1_000_000);
    let best = sample_of(&totals, 8, 1, 2);
    let result = summarize(&cases()[0], &vec![sample(9, "slow", 0, 0), best]);
    let phases: Vec<(&str, u128)> = result.phases_ms.iter().map(|p| (p.name.as_str(), p.ms)).collect();
    assert_eq!(phases, vec![("build", 2), ("walk", 5)]);
    assert_eq!(result.runs_ms, vec![9, 8]);
    assert_eq!((result.validation_errors, result.io_errors), (1, 2));
}

#[test]
fn a_run_beyond_counting_has_its_phases() {
    let result = summarize(&cases()[0], &vec![sample(u128::MAX, "endless", 0, 0)]);
    assert_eq!(result.best_ms, u128::MAX);
    assert_eq!(result.phases_ms.len(), 1);
    assert_eq!(result.phases_ms[0].name, "endless");
    let nothing = summarize(&cases()[0], &vec![]);
    assert_eq!(nothing.best_ms, 0);
    assert_eq!(nothing.median_ms, 0);
}

#[test]
fn session_follows_its_schedule() {
    let mut session = Session::begin(2, 1);
    assert!(session.next_step() == Some(Step::Warmup));
    session.warmed_up();
    assert!(session.next_step() == Some(Step::Timed));
    session.timed(sample(3, "a", 0, 0));
    assert!(session.next_step() == Some(Step::Timed));
    session.timed(sample(1, "b", 0, 0));
    assert!(session.next_step().is_none());
    assert_eq!(session.finish(&cases()[0]).runs_ms, vec![3, 1]);
}

fn listed(totals: &PhaseTotals) -> Vec<(String, u128)> {
    take_phases(totals).into_iter().map(|phase| (phase.name, phase.ms)).collect()
}

#[test]
fn phases_accumulate_by_name() {
    let mut totals = phase_totals();
    assert!(listed(&totals).is_empty());
    totals.record("project_build", 1_500_000);
    totals.record("mapper_build", 2_999_999);
    totals.record("project_build", 1_600_000);
    totals.record("cache_init", 10);
    assert_eq!(totals.total("project_build"), 3_100_000);
    assert_eq!(totals.total("absent"), 0);
    assert_eq!(
        listed(&totals),
        vec![("cache_init".to_string(), 0), ("mapper_build".to_string(), 2), ("project_build".to_string(), 3)]
    );
    // Listing leaves the totals as they are.
    assert_eq!(listed(&totals).len(), 3);
    reset_phases(&mut totals);
    assert!(listed(&totals).is_empty());
}

#[test]
fn the_order_of_spans_does_not_matter() {
    let mut a = phase_totals();
    a.record("x", 1_000_000);
    a.record("y", 2_000_000);
    a.record("x", 4_000_000);
    let mut b = phase_totals();
    b.record("y", 2_000_000);
    b.record("x", 4_000_000);
    b.record("x", 1_000_000);
    assert_eq!(listed(&a), listed(&b));
}

#[test]
fn the_cases_are_these() {
    let table: Vec<(&str, Kind, usize, bool)> =
        cases().into_iter().map(|case| (case.name, case.kind, case.files, case.no_cache)).collect();
    assert_eq!(
        table,
        vec![
            ("generate", Kind::Generate, 0, false),
            ("validate_all", Kind::Validate, 0, false),
            ("gv", Kind::GenerateAndValidate, 0, false),
            ("gv_files_100", Kind::GenerateAndValidate, 100, false),
            ("gv_files_1000", Kind::GenerateAndValidate, 1000, false),
            ("validate_all_cold", Kind::Validate, 0, true),
            ("validate_files_1", Kind::Validate, 1, false),
            ("validate_files_100", Kind::Validate, 100, false),
            ("validate_files_1000", Kind::Validate, 1000, false),
            ("validate_files_2000", Kind::Validate, 2000, false),
        ]
    );
}

#[test]
fn cases_are_selected_by_substring() {
    let names = |filter: Option<&str>| match select_cases(filter) {
        Ok(list) => list.into_iter().map(|case| case.name).collect::<Vec<&str>>(),
        Err(message) => vec![if message == "no cases matched --case" { "none" } else { "?" }],
    };
    assert_eq!(names(None).len(), 10);
    assert_eq!(names(Some("")).len(), 10);
    assert_eq!(names(Some("gv_")), vec!["gv_files_100", "gv_files_1000"]);
    assert_eq!(names(Some("cold")), vec!["validate_all_cold"]);
    assert_eq!(names(Some("GV")), vec!["none"]);
}

#[test]
fn a_case_runs_its_command() {
    let files = vec!["a.rb".to_string()];
    match run_case(&cases()[0], &files) {
        Invocation::Generate { no_cache, stage } => assert!(!no_cache && !stage),
        _ => panic!("generate runs generate"),
    }
    match run_case(&cases()[5], &files) {
        Invocation::Validate { no_cache, files } => {
            assert!(no_cache);
            assert_eq!(files, vec!["a.rb".to_string()]);
        }
        _ => panic!("validate_all_cold runs validate"),
    }
    match run_case(&cases()[2], &files) {
        Invocation::GenerateAndValidate { no_cache, files, stage } => {
            assert!(!no_cache && !stage);
            assert_eq!(files.len(), 1);
        }
        _ => panic!("gv runs both"),
    }
}
