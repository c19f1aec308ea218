use codeowners_perf::cases::cases;
use codeowners_perf::compare::{cmd_compare, compare_case, deltas_fit, say_corpus_moved, show_commit, signed, Row};
use codeowners_perf::report::{CaseResult, CorpusInfo, MachineInfo, Phase, Report};
use codeowners_perf::run::{case_finished, case_started, corpus_info, smoke_warning, SMOKE_SCALE_MAX_FILES};
use codeowners_perf::table::print_table;

fn machine(os: &str) -> MachineInfo {
    MachineInfo { os: os.to_string(), arch: "x86_64".to_string(), cpus: 8 }
}

fn corpus(commit: Option<&str>, smoke_scale: bool) -> CorpusInfo {
    CorpusInfo {
        path: "/corpus/a".to_string(),
        git_commit: commit.map(|c| c.to_string()),
        tracked_files: 28,
        owned_files: 12,
        codeowners_lines: 41,
        smoke_scale,
    }
}

fn ok(name: &str, runs_ms: &[u128]) -> CaseResult {
    CaseResult {
        name: name.to_string(),
        status: "ok".to_string(),
        skip_reason: None,
        file_count: 0,
        runs_ms: runs_ms.to_vec(),
        best_ms: runs_ms.iter().copied().min().unwrap_or(0),
        median_ms: 5,
        phases_ms: vec![],
        validation_errors: 0,
        io_errors: 0,
    }
}

fn skipped(name: &str) -> CaseResult {
    CaseResult { status: "skipped".to_string(), skip_reason: Some("too few".to_string()), ..ok(name, &[]) }
}

fn report(machine: MachineInfo, corpus: CorpusInfo, cases: Vec<CaseResult>) -> Report {
    Report { tool_version: "0.0.0".to_string(), machine, corpus, runs_per_case: 3, cases }
}

#[test]
fn machine_is_described() {
    assert_eq!(machine("linux").describe(), "linux/x86_64 (8 cpus)");
    assert!(machine("linux") == machine("linux"));
    assert!(machine("linux") != machine("macos"));
    assert!(corpus(None, true) == corpus(None, true));
    assert!(corpus(None, true) != corpus(Some("abc"), true));
}

#[test]
fn corpus_is_recorded() {
    let files: Vec<String> = vec!["a".to_string(); SMOKE_SCALE_MAX_FILES];
    let info = corpus_info("/c".to_string(), Some("  abc123\n"), &files, &files[..3].to_vec(), Some("x\ny\n"));
    assert_eq!(info.path, "/c");
    assert_eq!(info.git_commit, Some("abc123".to_string()));
    assert_eq!(info.tracked_files, 1_000);
    assert_eq!(info.owned_files, 3);
    assert_eq!(info.codeowners_lines, 2);
    assert!(!info.smoke_scale);
    let small = corpus_info("/c".to_string(), None, &files[1..].to_vec(), &vec![], None);
    assert!(small.smoke_scale);
    assert!(small.git_commit.is_none());
    assert_eq!(small.codeowners_lines, 0);
}

#[test]
fn small_corpus_is_warned_of() {
    assert_eq!(
        smoke_warning(&corpus(None, true), false),
        Some(
            "warning: corpus is /corpus/a (28 tracked files) — smoke-test scale.\n\
             \x20        Results are NOT comparable. Set CODEOWNERS_PERF_CORPUS to a large monorepo\n\
             \x20        (see perf/README.md) for real measurements.\n"
                .to_string()
        )
    );
    assert!(smoke_warning(&corpus(None, true), true).is_none());
    assert!(smoke_warning(&corpus(None, false), false).is_none());
}

#[test]
fn progress_is_told_unless_json_is_wanted() {
    assert_eq!(case_started(&cases()[2], false), Some("  gv ... ".to_string()));
    assert!(case_started(&cases()[2], true).is_none());
    assert_eq!(case_finished(&ok("gv", &[12]), false), Some("12 ms".to_string()));
    assert_eq!(case_finished(&skipped("gv"), false), Some("skipped (too few)".to_string()));
    assert!(case_finished(&ok("gv", &[12]), true).is_none());
}

#[test]
fn table_shows_the_report() {
    let mut measured = ok("validate_all", &[1234, 5]);
    measured.validation_errors = 2;
    measured.phases_ms = vec![
        Phase { name: "cache_init".to_string(), ms: 3 },
        Phase { name: "project_build".to_string(), ms: 1200 },
    ];
    let table = print_table(&report(
        machine("linux"),
        corpus(Some("abc"), true),
        vec![measured, ok("gv", &[7]), skipped("gv_files_100")],
    ));
    let expected = vec![
        "".to_string(),
        "corpus:    /corpus/a".to_string(),
        "machine:   linux/x86_64 (8 cpus)".to_string(),
        "scale:     28 tracked files, 12 owned, 41 CODEOWNERS lines  [SMOKE SCALE]".to_string(),
        "commit:    abc".to_string(),
        "runs:      3 (best reported)".to_string(),
        "".to_string(),
        format!("{:<22} {:>10} {:>10}  notes", "case", "best", "median"),
        "-".repeat(72),
        format!("{:<22} {:>9}ms {:>9}ms  {}", "validate_all", 5, 5, "2 validation, 0 io errors"),
        format!("{:<22} {:>9}ms {:>9}ms  {}", "gv", 7, 5, ""),
        format!("{:<22} {:>10} {:>10}  {}", "gv_files_100", "-", "-", "too few"),
        "".to_string(),
        "phase breakdown (best run, nested spans are inclusive of children)".to_string(),
        "-".repeat(72),
        "validate_all:".to_string(),
        format!("    {:<34} {:>7}ms", "cache_init", 3),
        format!("    {:<34} {:>7}ms", "project_build", 1200),
    ];
    assert_eq!(table, expected);
    let plain = print_table(&report(machine("linux"), corpus(None, false), vec![]));
    assert_eq!(plain.len(), 11);
    assert_eq!(plain[3], "scale:     28 tracked files, 12 owned, 41 CODEOWNERS lines");
    assert_eq!(plain[4], "runs:      3 (best reported)");
}

fn rendered(baseline: &Report, candidate: &Report) -> Vec<String> {
    assert!(deltas_fit(baseline, candidate));
    match cmd_compare(baseline, candidate) {
        Ok(comparison) => {
            let speedups: Vec<String> = comparison.rows.iter().map(|_| "1.00".to_string()).collect();
            comparison.render(&speedups)
        }
        Err(message) => vec![message],
    }
}

#[test]
fn comparison_judges_each_case() {
    let baseline = report(
        machine("linux"),
        corpus(Some("abc"), true),
        vec![ok("generate", &[100, 140]), ok("gv", &[100]), ok("gone", &[3]), ok("few", &[3]), skipped("late")],
    );
    let candidate = report(
        machine("macos"),
        corpus(Some("abc"), true),
        vec![
            ok("late", &[1]),
            ok("gv", &[1]),
            skipped("few"),
            ok("generate", &[130]),
            // Of two outcomes of one name the later one counts.
            ok("gv", &[101]),
        ],
    );
    assert_eq!(
        rendered(&baseline, &candidate),
        vec![
            "corpus: /corpus/a (28 tracked files)",
            "machine: linux/x86_64 (8 cpus)",
            "",
            "**Smoke-scale corpus — these numbers are not meaningful for comparison.**",
            "",
            "**Warning: different machines (linux/x86_64 (8 cpus) vs macos/x86_64 (8 cpus)). Wall-clock numbers are not comparable across hardware.**",
            "",
            "| Case | Baseline | Candidate | Delta | Speedup | Noise | Verdict |",
            "|---|---:|---:|---:|---:|---:|---|",
            "| generate | 100ms | 130ms | +30ms | 1.00x | ±40ms | **within noise** |",
            "| gv | 100ms | 101ms | +1ms | 1.00x | ±0ms |  |",
            "| gone | 3ms | — | missing | — | — | — |",
            "| few | skipped | skipped | — | — | — | — |",
            "| late | skipped | skipped | — | — | — | — |",
        ]
    );
}

#[test]
fn self_comparison_shows_nothing() {
    let make = || {
        report(machine("linux"), corpus(None, false), vec![ok("generate", &[5, 9]), ok("gv", &[u128::MAX]), skipped("x")])
    };
    let lines = rendered(&make(), &make());
    assert_eq!(lines.len(), 8);
    assert_eq!(lines[5], "| generate | 5ms | 5ms | 0ms | 1.00x | ±4ms | **within noise** |");
    assert!(lines[6].ends_with("| 0ms | 1.00x | ±0ms | **within noise** |"));
}

#[test]
fn swapping_reports_turns_the_sign() {
    let a = ok("gv", &[10, 13]);
    let b = ok("gv", &[14]);
    let parts = |row: Row| match row {
        Row::Compared { delta_ms, noise_ms, within_noise, .. } => (delta_ms, noise_ms, within_noise),
        _ => panic!("both were measured"),
    };
    assert_eq!(parts(compare_case(&a, &vec![ok("gv", &[14])])), (4, 3, false));
    assert_eq!(parts(compare_case(&b, &vec![ok("gv", &[10, 13])])), (-4, 3, false));
}

#[test]
fn times_are_read_as_signed() {
    for ms in [0u128, 1, i128::MAX as u128, i128::MAX as u128 + 1, u128::MAX - 1, u128::MAX] {
        assert_eq!(signed(ms), ms as i128);
    }
    let low = report(machine("linux"), corpus(None, false), vec![ok("gv", &[i128::MAX as u128])]);
    let high = report(machine("linux"), corpus(None, false), vec![ok("gv", &[i128::MAX as u128 + 1])]);
    assert!(!deltas_fit(&low, &high));
    assert!(!deltas_fit(&high, &low));
    assert!(deltas_fit(&low, &low));
}

#[test]
fn commits_are_shown_quoted() {
    assert_eq!(show_commit(Some("\"abc\"")), format!("{:?}", Some("abc")));
    assert_eq!(show_commit(None), format!("{:?}", None::<String>));
    assert_eq!(
        say_corpus_moved("A", "B"),
        "refusing to compare: corpus moved between runs\n  baseline:  A\n  candidate: B\n\
         Re-measure both sides against the same corpus commit."
    );
    let with = |commit: Option<&str>| report(machine("linux"), corpus(commit, false), vec![]);
    let odd = "a\"b\\c\n";
    assert_eq!(
        rendered(&with(Some(odd)), &with(None))[0],
        format!(
            "refusing to compare: corpus moved between runs\n  baseline:  {:?}\n  candidate: {:?}\n\
             Re-measure both sides against the same corpus commit.",
            Some(odd),
            None::<String>
        )
    );
}

#[test]
fn a_candidate_without_measurable_time_has_no_speedup() {
    let row = compare_case(&ok("gv", &[10]), &vec![ok("gv", &[0])]);
    assert!(row.speedup_terms().is_none());
    assert_eq!(row.render("0.00"), "| gv | 10ms | 0ms | -10ms | 0.00x | ±0ms |  |");
    assert_eq!(compare_case(&ok("gv", &[10]), &vec![ok("gv", &[4])]).speedup_terms(), Some((10, 4)));
    assert!(compare_case(&ok("gv", &[10]), &vec![]).speedup_terms().is_none());
}
