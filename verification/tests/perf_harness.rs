//! The harness as a whole: cases execute, results are well-formed, the corpus is
//! restored, bad comparisons are rejected. Nothing is asserted about how fast
//! anything is.
use codeowners_perf::bench::{Action, Bench};
use codeowners_perf::cases::{cases, select_cases, Invocation};
use codeowners_perf::compare::{cmd_compare, deltas_fit, Row};
use codeowners_perf::corpus::{
    matcher_fits, owned_file_pool, resolve_corpus, tracked_files, CodeownersGuard, Config, Located,
};
use codeowners_perf::measure::{plan, Plan};
use codeowners_perf::phases::phase_totals;
use codeowners_perf::report::{CaseResult, CorpusInfo, MachineInfo, Report};
use codeowners_perf::run::{corpus_info, report_of};
use serde_json::Value;

const LISTING: &str = "\
.github/CODEOWNERS
config/code_ownership.yml
config/teams/payments.yml
config/teams/payroll.yml
javascript/packages/list/page-admin.tsx
ruby/app/models/bank_account.rb
ruby/app/models/payroll.rb
ruby/app/payroll/payroll.rb
";

const CODEOWNERS: &str = "# STOP! - DO NOT EDIT THIS FILE MANUALLY\n/ruby/app/payroll/**/** @PayrollTeam\n";

fn config() -> Config {
    Config {
        owned_globs: vec!["{javascript,ruby}/**/*.{rb,tsx}".to_string()],
        unowned_globs: vec!["ruby/app/models/bank_account.rb".to_string()],
        codeowners_path: ".github".to_string(),
    }
}

fn pool() -> Vec<String> {
    let files = tracked_files(Some(LISTING));
    assert!(matcher_fits(&files, &config()));
    owned_file_pool(&files, &config())
}

/// Runs all selected cases on the corpus, with made-up times.
fn run(filter: Option<&str>, runs: usize, warmup: usize, times: &[u128]) -> Vec<CaseResult> {
    let selected = match select_cases(filter) {
        Ok(selected) => selected,
        Err(message) => panic!("{message}"),
    };
    let mut bench = Bench::new(selected, pool(), runs, warmup);
    let mut totals = phase_totals();
    let mut at = 0;
    loop {
        match bench.next_action() {
            Action::Announce(_) => bench.announced(),
            Action::Warmup(_) => bench.warmed_up(),
            Action::Clear => bench.clear(&mut totals),
            Action::Timed(_) => {
                totals.record("project_build", 1_000_000);
                bench.timed(&totals, times[at % times.len()], 0, 0);
                at += 1;
            }
            Action::Conclude => bench.concluded(),
            Action::Done => return bench.finish(),
        }
    }
}

#[test]
fn test_lists_cases() {
    let mut stdout = String::new();
    for case in cases() {
        stdout.push_str(case.name);
        stdout.push('\n');
    }

    for expected in ["generate", "validate_all", "gv", "validate_all_cold", "validate_files_1000"] {
        assert!(stdout.contains(expected), "case list missing {expected}: {stdout}");
    }
}

#[test]
fn test_run_against_fixture_emits_well_formed_json() {
    let files = tracked_files(Some(LISTING));
    let info = corpus_info("/corpus".to_string(), Some("abc\n"), &files, &pool(), Some(CODEOWNERS));
    let report = report_of("0.0.0".to_string(), MachineInfo::default(), info, 1, run(None, 1, 0, &[7]));

    // The corpus metadata is what makes reports comparable, so it must be present.
    assert!(report.corpus.tracked_files > 0);
    assert!(report.corpus.codeowners_lines > 0);
    assert_eq!(report.corpus.smoke_scale, true, "the test fixture must be reported as smoke scale");

    let cases = &report.cases;
    assert!(!cases.is_empty());

    // Every case either ran or explains why it did not.
    for case in cases {
        let status = case.status.as_str();
        assert!(status == "ok" || status == "skipped", "unexpected status {status}");
        if status == "skipped" {
            assert!(case.skip_reason.is_some(), "skipped case must give a reason");
        } else {
            assert!(!case.runs_ms.is_empty());
        }
    }
}

#[test]
fn test_skips_cases_the_corpus_is_too_small_for() {
    let results = run(Some("validate_files_2000"), 1, 0, &[7]);
    let case = &results[0];

    // Silently measuring fewer files than the case name claims would be the worst
    // possible failure mode for a benchmark.
    assert_eq!(case.status, "skipped");
    assert!(
        case.skip_reason.clone().unwrap().contains("2000"),
        "skip reason should name the shortfall: {:?}",
        case.skip_reason
    );
}

#[test]
fn test_restores_corpus_codeowners_after_run() {
    let before = CODEOWNERS.as_bytes().to_vec();
    let guard = match CodeownersGuard::acquire(Some(".github/CODEOWNERS"), Some(""), Some(before.clone())) {
        Ok(guard) => guard,
        Err(message) => panic!("{message}"),
    };

    // `generate` and `gv` both write this file during the run.
    let mut file = Some(before.clone());
    file = Some([file.unwrap(), b"# generated\n".to_vec()].concat());
    assert_ne!(file, Some(before.clone()));

    if let Some(content) = guard.to_write() {
        file = Some(content);
    }
    assert_eq!(Some(before), file, "harness must leave the corpus CODEOWNERS untouched");
}

#[test]
fn test_refuses_to_run_against_dirty_corpus_codeowners() {
    // Simulate a user with uncommitted CODEOWNERS work. If the harness were killed
    // mid-run this content would be unrecoverable, so it must refuse up front
    // rather than overwrite and hope the restore lands.
    let refused = CodeownersGuard::acquire(
        Some(".github/CODEOWNERS"),
        Some(" M .github/CODEOWNERS\n"),
        Some(b"# work in progress\n".to_vec()),
    );
    match refused {
        Ok(_) => panic!("a modified file must be refused"),
        Err(message) => {
            assert!(message.contains("uncommitted changes"));
            assert_eq!(
                message,
                "corpus CODEOWNERS has uncommitted changes (.github/CODEOWNERS). Commit or stash it first — \
                 the harness rewrites this file and restores it afterwards."
            );
        }
    }
}

#[test]
fn test_rejects_corpus_without_config() {
    let located = Located { path: "/tmp/x", shown: "/tmp/x".to_string(), has_config: false };
    match resolve_corpus("x", Ok(located)) {
        Ok(_) => panic!("a corpus without a configuration must be rejected"),
        Err(message) => {
            assert!(message.contains("code_ownership.yml"));
            assert_eq!(
                message,
                "corpus /tmp/x has no config/code_ownership.yml — is it a codeowners project?"
            );
        }
    }
}

fn text(value: &Value) -> String {
    value.as_str().unwrap().to_string()
}

fn number(value: &Value) -> usize {
    value.as_u64().unwrap() as usize
}

/// Reads the parts of a report in JSON that a comparison needs.
fn parse(json: &str) -> Report {
    let report: Value = serde_json::from_str(json).unwrap();
    let corpus = &report["corpus"];
    let mut cases = Vec::new();
    for case in report["cases"].as_array().unwrap() {
        cases.push(CaseResult {
            name: text(&case["name"]),
            status: text(&case["status"]),
            skip_reason: None,
            file_count: number(&case["file_count"]),
            runs_ms: case["runs_ms"].as_array().unwrap().iter().map(|ms| number(ms) as u128).collect(),
            best_ms: number(&case["best_ms"]) as u128,
            median_ms: number(&case["median_ms"]) as u128,
            phases_ms: vec![],
            validation_errors: number(&case["validation_errors"]),
            io_errors: number(&case["io_errors"]),
        });
    }
    Report {
        tool_version: text(&report["tool_version"]),
        machine: MachineInfo::default(),
        corpus: CorpusInfo {
            path: text(&corpus["path"]),
            git_commit: corpus["git_commit"].as_str().map(|commit| commit.to_string()),
            tracked_files: number(&corpus["tracked_files"]),
            owned_files: number(&corpus["owned_files"]),
            codeowners_lines: number(&corpus["codeowners_lines"]),
            smoke_scale: corpus["smoke_scale"].as_bool().unwrap(),
        },
        runs_per_case: number(&report["runs_per_case"]),
        cases,
    }
}

fn refusal(baseline: &Report, candidate: &Report) -> String {
    match cmd_compare(baseline, candidate) {
        Ok(_) => panic!("the comparison must be refused"),
        Err(message) => message,
    }
}

#[test]
fn test_compare_refuses_mismatched_corpora() {
    let report = |path: &str, commit: &str| {
        parse(&format!(
            r#"{{"tool_version":"0.0.0","runs_per_case":1,"cases":[],
                "corpus":{{"path":"{path}","git_commit":"{commit}","tracked_files":10,
                "owned_files":5,"codeowners_lines":5,"smoke_scale":true}}}}"#
        ))
    };

    // Different corpus entirely — e.g. fixture-measured branch vs monorepo baseline.
    let baseline = report("/corpus/a", "abc");
    let message = refusal(&baseline, &report("/corpus/b", "abc"));
    assert!(message.contains("different corpora"));
    assert_eq!(
        message,
        "refusing to compare: different corpora\n  baseline:  /corpus/a\n  candidate: /corpus/b"
    );

    // Same corpus, but it moved between the two measurements.
    let message = refusal(&baseline, &report("/corpus/a", "def"));
    assert!(message.contains("corpus moved"));
    assert_eq!(
        message,
        "refusing to compare: corpus moved between runs\n  baseline:  Some(\"abc\")\n  \
         candidate: Some(\"def\")\nRe-measure both sides against the same corpus commit."
    );
}

#[test]
fn test_compare_emits_delta_table_for_matching_corpora() {
    let report = |ms: u64| {
        parse(&format!(
            r#"{{"tool_version":"0.0.0","runs_per_case":1,
                "cases":[{{"name":"gv","status":"ok","file_count":0,"runs_ms":[{ms}],
                "best_ms":{ms},"median_ms":{ms},"phases_ms":{{}},
                "validation_errors":0,"io_errors":0}}],
                "corpus":{{"path":"/corpus/a","git_commit":"abc","tracked_files":10,
                "owned_files":5,"codeowners_lines":5,"smoke_scale":false}}}}"#
        ))
    };
    let baseline = report(1000);
    let candidate = report(250);
    assert!(deltas_fit(&baseline, &candidate));
    let comparison = match cmd_compare(&baseline, &candidate) {
        Ok(comparison) => comparison,
        Err(message) => panic!("{message}"),
    };
    let speedups: Vec<String> = comparison.rows.iter().map(speedup).collect();
    let stdout = comparison.render(&speedups).join("\n");

    assert!(stdout.contains("| gv |"), "missing case row: {stdout}");
    assert!(stdout.contains("4.00x"), "missing speedup: {stdout}");
    assert_eq!(
        stdout,
        "corpus: /corpus/a (10 tracked files)\n\
         machine: / (0 cpus)\n\
         \n\
         | Case | Baseline | Candidate | Delta | Speedup | Noise | Verdict |\n\
         |---|---:|---:|---:|---:|---:|---|\n\
         | gv | 1000ms | 250ms | -750ms | 4.00x | ±0ms |  |"
    );
}

fn speedup(row: &Row) -> String {
    let ratio = match row.speedup_terms() {
        Some((baseline, candidate)) => baseline as f64 / candidate as f64,
        None => 0.0,
    };
    format!("{ratio:.2}")
}

#[test]
fn bench_runs_the_schedule_of_each_case() {
    let selected = match select_cases(Some("validate_files_1")) {
        Ok(selected) => selected,
        Err(message) => panic!("{message}"),
    };
    let mut bench = Bench::new(selected, pool(), 2, 1);
    let mut totals = phase_totals();
    let mut log: Vec<String> = Vec::new();
    loop {
        match bench.next_action() {
            Action::Announce(case) => {
                log.push(case.name.to_string());
                bench.announced();
            }
            Action::Warmup(invocation) => {
                log.push(format!("warmup {}", described(&invocation)));
                bench.warmed_up();
            }
            Action::Clear => {
                log.push("clear".to_string());
                bench.clear(&mut totals);
            }
            Action::Timed(invocation) => {
                log.push(format!("timed {}", described(&invocation)));
                bench.timed(&totals, 4, 1, 2);
            }
            Action::Conclude => {
                log.push(bench.last_result().status.clone());
                bench.concluded();
            }
            Action::Done => break,
        }
    }
    assert_eq!(
        log,
        vec![
            "validate_files_1",
            "warmup validate javascript/packages/list/page-admin.tsx",
            "clear",
            "timed validate javascript/packages/list/page-admin.tsx",
            "clear",
            "timed validate javascript/packages/list/page-admin.tsx",
            "ok",
            "validate_files_100",
            "skipped",
            "validate_files_1000",
            "skipped",
        ]
    );
    let results = bench.finish();
    assert_eq!(results.len(), 3);
    assert_eq!(results[0].runs_ms, vec![4, 4]);
    assert_eq!(results[0].file_count, 1);
    assert_eq!(results[0].validation_errors, 1);
    assert_eq!(results[0].io_errors, 2);
    assert_eq!(results[1].skip_reason, Some("needs 100 owned files, corpus has 3".to_string()));
}

fn described(invocation: &Invocation) -> String {
    match invocation {
        Invocation::Generate { .. } => "generate".to_string(),
        Invocation::Validate { files, .. } => format!("validate {}", files.join(" ")),
        Invocation::GenerateAndValidate { files, .. } => format!("gv {}", files.join(" ")),
    }
}

#[test]
fn phases_are_those_of_the_best_run_alone() {
    let selected = match select_cases(Some("validate_files_1")) {
        Ok(selected) => selected,
        Err(message) => panic!("{message}"),
    };
    let mut bench = Bench::new(selected, pool(), 3, 1);
    let mut totals = phase_totals();
    totals.record("earlier", 9_000_000);
    let times = [30, 10, 20];
    let mut at = 0;
    let results = loop {
        match bench.next_action() {
            Action::Announce(_) => bench.announced(),
            Action::Warmup(_) => {
                totals.record("warmup", 8_000_000);
                bench.warmed_up();
            }
            Action::Clear => bench.clear(&mut totals),
            Action::Timed(_) => {
                totals.record(&format!("run_{at}"), 5_000_000);
                totals.record("walk", times[at] * 100_000);
                totals.record("walk", times[at] * 200_000);
                bench.timed(&totals, times[at], 0, 0);
                at += 1;
            }
            Action::Conclude => bench.concluded(),
            Action::Done => break bench.finish(),
        }
    };
    assert_eq!(results[0].best_ms, 10);
    let phases: Vec<(&str, u128)> = results[0].phases_ms.iter().map(|p| (p.name.as_str(), p.ms)).collect();
    assert_eq!(phases, vec![("run_1", 5), ("walk", 3)]);
}

#[test]
fn a_run_without_timed_runs_makes_one() {
    let results = run(Some("generate"), 0, 3, &[9]);
    assert_eq!(results.len(), 1);
    assert_eq!(results[0].name, "generate");
    assert_eq!(results[0].runs_ms, vec![9]);
}

#[test]
fn plan_takes_the_first_files_of_the_pool() {
    let pool: Vec<String> = vec!["a".to_string(), "b".to_string()];
    let case = cases()[6];
    assert_eq!(case.name, "validate_files_1");
    match plan(&case, &pool) {
        Plan::Run(files) => assert_eq!(files, vec!["a".to_string()]),
        Plan::Skip(_) => panic!("one file is there"),
    }
    match plan(&case, &vec![]) {
        Plan::Run(_) => panic!("no file is there"),
        Plan::Skip(result) => {
            assert_eq!(result.skip_reason, Some("needs 1 owned files, corpus has 0".to_string()));
            assert_eq!(result.file_count, 0);
            assert!(result.runs_ms.is_empty());
            assert!(result.phases_ms.is_empty());
        }
    }
}
