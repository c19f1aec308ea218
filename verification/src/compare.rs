//! Comparing two reports, as a markdown table of deltas.
use vstd::prelude::*;
use vstd::string::StringExecFns;

use crate::report::{
    is_skipped, machine_text, result_views, CaseResult, CaseResultView, CorpusView,
    MachineView, Report, ReportView,
};
use crate::stats::{spread, spread_of};
use crate::text::{
    add_line, copied, count_string, debug, debug_text, decimal, decimal_string, optional_text, same_optional_text,
    same_text, signed_decimal, signed_decimal_string, texts,
};

verus! {

// ---------------------------------------------------------------------------
// Refusals
// ---------------------------------------------------------------------------

/// What `{:?}` prints for a text that may be absent.
pub open spec fn optional_debug_text(s: Option<Seq<char>>) -> Seq<char> {
    match s {
        Some(s) => "Some("@ + debug_text(s) + ")"@,
        None => "None"@,
    }
}

/// The message for reports on different corpora.
pub open spec fn different_corpora_text(baseline: Seq<char>, candidate: Seq<char>) -> Seq<char> {
    "refusing to compare: different corpora\n  baseline:  "@ + baseline + "\n  candidate: "@
        + candidate
}

/// The message for reports on different commits of one corpus.
pub open spec fn corpus_moved_text(
    baseline: Option<Seq<char>>,
    candidate: Option<Seq<char>>,
) -> Seq<char> {
    moved_text(optional_debug_text(baseline), optional_debug_text(candidate))
}

/// The message for reports on different commits, given both as they are shown.
pub open spec fn moved_text(baseline: Seq<char>, candidate: Seq<char>) -> Seq<char> {
    "refusing to compare: corpus moved between runs\n  baseline:  "@ + baseline
        + "\n  candidate: "@ + candidate
        + "\nRe-measure both sides against the same corpus commit."@
}

/// Why two reports are not compared, if they are not.
///
/// Comparing across corpora is the subtle version of the smoke-scale mistake:
/// a fixture-measured branch against a monorepo-measured baseline reads as a
/// spectacular speedup. Refuse rather than mislead.
pub open spec fn refusal(baseline: CorpusView, candidate: CorpusView) -> Option<Seq<char>> {
    if baseline.path != candidate.path {
        Some(different_corpora_text(baseline.path, candidate.path))
    } else if baseline.git_commit != candidate.git_commit {
        Some(corpus_moved_text(baseline.git_commit, candidate.git_commit))
    } else {
        None
    }
}

/// What is shown of a commit that may be absent, given the commit as it is shown.
pub fn show_commit(shown: Option<&str>) -> (text: String)
    ensures
        text@ == match shown {
            Some(shown) => "Some("@ + shown@ + ")"@,
            None => "None"@,
        },
{
    match shown {
        Some(shown) => {
            let mut text: String = String::from_str("Some(");
            text.append(shown);
            text.append(")");
            text
        },
        None => String::from_str("None"),
    }
}

/// Says that the corpus moved, given both commits as they are shown.
pub fn say_corpus_moved(baseline: &str, candidate: &str) -> (text: String)
    ensures
        text@ == moved_text(baseline@, candidate@),
{
    let mut text: String = String::from_str(
        "refusing to compare: corpus moved between runs\n  baseline:  ",
    );
    text.append(baseline);
    text.append("\n  candidate: ");
    text.append(candidate);
    text.append("\nRe-measure both sides against the same corpus commit.");
    text
}

fn optional_debug(s: &Option<String>) -> (text: String)
    ensures
        text@ == optional_debug_text(optional_text(*s)),
{
    match s {
        Some(s) => show_commit(Some(debug(s.as_str()).as_str())),
        None => show_commit(None),
    }
}

/// Tells why two reports are not compared, if they are not.
pub fn refuse(baseline: &Report, candidate: &Report) -> (message: Option<String>)
    ensures
        optional_text(message) == refusal(baseline@.corpus, candidate@.corpus),
{
    if !same_text(baseline.corpus.path.as_str(), candidate.corpus.path.as_str()) {
        let mut text: String = String::from_str(
            "refusing to compare: different corpora\n  baseline:  ",
        );
        text.append(baseline.corpus.path.as_str());
        text.append("\n  candidate: ");
        text.append(candidate.corpus.path.as_str());
        Some(text)
    } else if !same_optional_text(&baseline.corpus.git_commit, &candidate.corpus.git_commit) {
        Some(
            say_corpus_moved(
                optional_debug(&baseline.corpus.git_commit).as_str(),
                optional_debug(&candidate.corpus.git_commit).as_str(),
            ),
        )
    } else {
        None
    }
}

// ---------------------------------------------------------------------------
// Rows
// ---------------------------------------------------------------------------

/// A time read as a signed number of 128 bits.
pub open spec fn as_signed(ms: u128) -> int {
    if ms <= i128::MAX {
        ms as int
    } else {
        ms - u128::MAX - 1
    }
}

/// Reads a time as a signed number of 128 bits.
pub fn signed(ms: u128) -> (value: i128)
    ensures
        value == as_signed(ms),
{
    if ms <= i128::MAX as u128 {
        ms as i128
    } else {
        -((u128::MAX - ms) as i128) - 1
    }
}

/// What is said of one case of the baseline.
pub enum Row {
    /// The candidate has no case of this name.
    Missing { name: String, baseline_ms: u128 },
    /// One of the two was skipped.
    Skipped { name: String },
    /// Both were measured.
    Compared {
        name: String,
        baseline_ms: u128,
        candidate_ms: u128,
        delta_ms: i128,
        noise_ms: u128,
        within_noise: bool,
    },
}

/// The mathematical content of a [`Row`].
pub enum RowView {
    Missing { name: Seq<char>, baseline_ms: u128 },
    Skipped { name: Seq<char> },
    Compared {
        name: Seq<char>,
        baseline_ms: u128,
        candidate_ms: u128,
        delta_ms: int,
        noise_ms: int,
        within_noise: bool,
    },
}

impl View for Row {
    type V = RowView;

    open spec fn view(&self) -> RowView {
        match self {
            Row::Missing { name, baseline_ms } => RowView::Missing {
                name: name@,
                baseline_ms: *baseline_ms,
            },
            Row::Skipped { name } => RowView::Skipped { name: name@ },
            Row::Compared {
                name,
                baseline_ms,
                candidate_ms,
                delta_ms,
                noise_ms,
                within_noise,
            } => RowView::Compared {
                name: name@,
                baseline_ms: *baseline_ms,
                candidate_ms: *candidate_ms,
                delta_ms: *delta_ms as int,
                noise_ms: *noise_ms as int,
                within_noise: *within_noise,
            },
        }
    }
}

/// The content of a list of rows.
pub open spec fn row_views(rows: Seq<Row>) -> Seq<RowView> {
    rows.map_values(|r: Row| r@)
}

/// The last outcome of a name.
pub open spec fn last_named(cases: Seq<CaseResultView>, name: Seq<char>) -> Option<CaseResultView>
    decreases cases.len(),
{
    if cases.len() == 0 {
        None
    } else if cases.last().name == name {
        Some(cases.last())
    } else {
        last_named(cases.drop_last(), name)
    }
}

/// How much longer the candidate took than the baseline.
pub open spec fn delta_of(baseline: CaseResultView, candidate: CaseResultView) -> int {
    as_signed(candidate.best_ms) - as_signed(baseline.best_ms)
}

/// How far the runs of a case lie apart, in the report where they do so more.
pub open spec fn noise_of(baseline: CaseResultView, candidate: CaseResultView) -> int {
    if spread_of(baseline.runs_ms) >= spread_of(candidate.runs_ms) {
        spread_of(baseline.runs_ms)
    } else {
        spread_of(candidate.runs_ms)
    }
}

/// A delta that is not larger than the run-to-run spread is not a result.
///
/// Reporting `best` alone hides this: min-of-N is a biased estimator with no
/// dispersion attached, so a 3% "win" on a case that swings 40% between runs reads
/// exactly like a real one.
pub open spec fn is_noise(delta: int, noise: int) -> bool {
    -noise <= delta <= noise
}

/// What is said of a case that was measured in both reports.
pub open spec fn compared(baseline: CaseResultView, candidate: CaseResultView) -> RowView {
    RowView::Compared {
        name: baseline.name,
        baseline_ms: baseline.best_ms,
        candidate_ms: candidate.best_ms,
        delta_ms: delta_of(baseline, candidate),
        noise_ms: noise_of(baseline, candidate),
        within_noise: is_noise(delta_of(baseline, candidate), noise_of(baseline, candidate)),
    }
}

/// What is said of a case of the baseline.
pub open spec fn row_of(baseline: CaseResultView, candidates: Seq<CaseResultView>) -> RowView {
    match last_named(candidates, baseline.name) {
        None => RowView::Missing { name: baseline.name, baseline_ms: baseline.best_ms },
        Some(candidate) => if is_skipped(baseline) || is_skipped(candidate) {
            RowView::Skipped { name: baseline.name }
        } else {
            compared(baseline, candidate)
        },
    }
}

/// The delta of the row, if it has one, is a signed number of 128 bits. It is
/// wherever both times are below half of what is counted.
pub open spec fn row_fits(row: RowView) -> bool {
    row matches RowView::Compared { delta_ms, .. } ==> i128::MIN <= delta_ms <= i128::MAX
}

/// All rows of a comparison.
pub open spec fn rows_of(baseline: ReportView, candidate: ReportView) -> Seq<RowView> {
    baseline.cases.map_values(|b: CaseResultView| row_of(b, candidate.cases))
}

/// The deltas of all rows are signed numbers of 128 bits.
pub open spec fn rows_fit(baseline: ReportView, candidate: ReportView) -> bool {
    forall|i: int|
        0 <= i < baseline.cases.len() ==> row_fits(#[trigger] rows_of(baseline, candidate)[i])
}

/// The index of the last outcome of a name.
fn find_last(cases: &Vec<CaseResult>, name: &str) -> (found: Option<usize>)
    ensures
        match found {
            Some(at) => {
                &&& at < cases@.len()
                &&& last_named(result_views(cases@), name@) == Some(cases@[at as int]@)
                &&& cases@[at as int].name@ == name@
                &&& forall|j: int| at < j < cases@.len() ==> (#[trigger] cases@[j]).name@ != name@
            },
            None => {
                &&& last_named(result_views(cases@), name@) is None
                &&& forall|i: int| 0 <= i < cases@.len() ==> (#[trigger] cases@[i]).name@ != name@
            },
        },
{
    let ghost all = result_views(cases@);
    let mut left: usize = cases.len();
    assert(all.take(left as int) =~= all);
    while left > 0
        invariant
            all == result_views(cases@),
            left <= cases@.len(),
            last_named(all, name@) == last_named(all.take(left as int), name@),
            forall|j: int| left <= j < cases@.len() ==> (#[trigger] cases@[j]).name@ != name@,
        decreases left,
    {
        assert(all.take(left as int).last() == cases@[left - 1]@);
        assert(all.take(left as int).drop_last() =~= all.take(left - 1));
        if same_text(cases[left - 1].name.as_str(), name) {
            return Some(left - 1);
        }
        left = left - 1;
    }
    None
}

/// The outcome at this index has this name, and no later one has.
pub open spec fn is_last_of_name(cases: Seq<CaseResult>, name: Seq<char>, at: int) -> bool {
    &&& 0 <= at < cases.len()
    &&& cases[at].name@ == name
    &&& forall|j: int| at < j < cases.len() ==> (#[trigger] cases[j]).name@ != name
}

/// Two of the times lie as far apart as the delta is large, at least.
pub open spec fn differ_by(runs: Seq<u128>, delta: int) -> bool {
    exists|i: int, j: int|
        0 <= i < runs.len() && 0 <= j < runs.len() && {
            let apart = #[trigger] runs[i] - #[trigger] runs[j];
            -apart <= delta <= apart
        }
}

/// Tells whether the deltas of two reports are signed numbers of 128 bits.
pub fn deltas_fit(baseline: &Report, candidate: &Report) -> (yes: bool)
    ensures
        yes == rows_fit(baseline@, candidate@),
{
    let ghost rows = rows_of(baseline@, candidate@);
    let mut i: usize = 0;
    while i < baseline.cases.len()
        invariant
            rows == rows_of(baseline@, candidate@),
            i <= baseline.cases@.len(),
            forall|j: int| 0 <= j < i ==> row_fits(#[trigger] rows[j]),
        decreases baseline.cases@.len() - i,
    {
        let base: &CaseResult = &baseline.cases[i];
        assert(rows[i as int] == row_of(base@, candidate@.cases));
        if let Some(at) = find_last(&candidate.cases, base.name.as_str()) {
            let cand: &CaseResult = &candidate.cases[at];
            if !base.skipped() && !cand.skipped() {
                match signed(cand.best_ms).checked_sub(signed(base.best_ms)) {
                    Some(_) => {},
                    None => {
                        return false;
                    },
                }
            }
        }
        i = i + 1;
    }
    true
}

/// Judges one case of the baseline.
pub fn compare_case(base: &CaseResult, candidates: &Vec<CaseResult>) -> (row: Row)
    requires
        row_fits(row_of(base@, result_views(candidates@))),
    ensures
        row@ == row_of(base@, result_views(candidates@)),
        match row {
            Row::Missing { name, baseline_ms } => {
                &&& name@ == base.name@
                &&& baseline_ms == base.best_ms
                &&& forall|i: int|
                    0 <= i < candidates@.len() ==> (#[trigger] candidates@[i]).name@ != base.name@
            },
            Row::Skipped { name } => {
                &&& name@ == base.name@
                &&& exists|at: int|
                    is_last_of_name(candidates@, base.name@, at) && (base.status@ == "skipped"@
                        || (#[trigger] candidates@[at]).status@ == "skipped"@)
            },
            Row::Compared {
                name,
                baseline_ms,
                candidate_ms,
                delta_ms,
                noise_ms,
                within_noise,
            } => {
                &&& name@ == base.name@
                &&& baseline_ms == base.best_ms
                &&& base.status@ != "skipped"@
                &&& exists|at: int|
                    {
                        &&& is_last_of_name(candidates@, base.name@, at)
                        &&& (#[trigger] candidates@[at]).status@ != "skipped"@
                        &&& candidate_ms == candidates@[at].best_ms
                        &&& within_noise <==> {
                            ||| delta_ms == 0
                            ||| differ_by(base.runs_ms@, delta_ms as int)
                            ||| differ_by(candidates@[at].runs_ms@, delta_ms as int)
                        }
                    }
                &&& baseline_ms <= i128::MAX && candidate_ms <= i128::MAX ==> delta_ms
                    == candidate_ms - baseline_ms
                &&& forall|i: int, j: int|
                    0 <= i < base.runs_ms@.len() && 0 <= j < base.runs_ms@.len() ==> noise_ms
                        >= #[trigger] base.runs_ms@[i] - #[trigger] base.runs_ms@[j]
            },
        },
{
    let ghost all = result_views(candidates@);
    proof {
        law_last_of_a_name_is_found(all, base.name@);
        assert(forall|i: int|
            0 <= i < candidates@.len() ==> #[trigger] all[i] == candidates@[i]@);
    }
    match find_last(candidates, base.name.as_str()) {
        None => Row::Missing { name: base.name.clone(), baseline_ms: base.best_ms },
        Some(at) => {
            let cand: &CaseResult = &candidates[at];
            proof {
                assert forall|j: int| at < j < candidates@.len() implies (
                #[trigger] candidates@[j]).name@ != base.name@ by {
                    assert(all[j] == candidates@[j]@);
                }
                assert(is_last_of_name(candidates@, base.name@, at as int));
            }
            if base.skipped() || cand.skipped() {
                Row::Skipped { name: base.name.clone() }
            } else {
                let delta_ms: i128 = signed(cand.best_ms) - signed(base.best_ms);
                let base_spread: u128 = spread(base.runs_ms.as_slice());
                let cand_spread: u128 = spread(cand.runs_ms.as_slice());
                let noise_ms: u128 = if base_spread >= cand_spread {
                    base_spread
                } else {
                    cand_spread
                };
                let magnitude: u128 = if delta_ms < 0 {
                    (-(delta_ms + 1)) as u128 + 1
                } else {
                    delta_ms as u128
                };
                proof {
                    law_verdict_is_by_two_runs(base@, cand@);
                    law_noise_is_the_widest_distance(base@, cand@);
                    law_signed_times_wrap_round(cand.best_ms);
                    law_signed_times_wrap_round(base.best_ms);
                    assert(candidates@[at as int].best_ms == cand.best_ms);
                    assert(candidates@[at as int].status@ != "skipped"@);
                    assert((magnitude <= noise_ms) == compared(base@, cand@)->within_noise);
                    assert(differ_by(base.runs_ms@, delta_ms as int) || differ_by(
                        cand.runs_ms@,
                        delta_ms as int,
                    ) || delta_ms == 0 <==> magnitude <= noise_ms);
                }
                Row::Compared {
                    name: base.name.clone(),
                    baseline_ms: base.best_ms,
                    candidate_ms: cand.best_ms,
                    delta_ms,
                    noise_ms,
                    within_noise: magnitude <= noise_ms,
                }
            }
        },
    }
}

/// The two times whose ratio is the speedup of a row. A candidate that took no
/// measurable time has none.
pub open spec fn speedup_terms_of(row: RowView) -> Option<(u128, u128)> {
    match row {
        RowView::Compared { baseline_ms, candidate_ms, .. } => if candidate_ms > 0 {
            Some((baseline_ms, candidate_ms))
        } else {
            None
        },
        _ => None,
    }
}

/// The line of a row, given the speedup as it is shown.
pub open spec fn row_text(row: RowView, speedup: Seq<char>) -> Seq<char> {
    match row {
        RowView::Missing { name, baseline_ms } => "| "@ + name + " | "@ + decimal(
            baseline_ms as nat,
        ) + "ms | — | missing | — | — | — |"@,
        RowView::Skipped { name } => "| "@ + name + " | skipped | skipped | — | — | — | — |"@,
        RowView::Compared {
            name,
            baseline_ms,
            candidate_ms,
            delta_ms,
            noise_ms,
            within_noise,
        } => "| "@ + name + " | "@ + decimal(baseline_ms as nat) + "ms | "@ + decimal(
            candidate_ms as nat,
        ) + "ms | "@ + if delta_ms > 0 {
            "+"@
        } else {
            ""@
        } + signed_decimal(delta_ms) + "ms | "@ + speedup + "x | ±"@ + decimal(noise_ms as nat)
            + "ms | "@ + if within_noise {
            "**within noise**"@
        } else {
            ""@
        } + " |"@,
    }
}

impl Row {
    /// The two times whose ratio is the speedup.
    pub fn speedup_terms(&self) -> (terms: Option<(u128, u128)>)
        ensures
            terms == speedup_terms_of(self@),
    {
        match self {
            Row::Compared { baseline_ms, candidate_ms, .. } => if *candidate_ms > 0 {
                Some((*baseline_ms, *candidate_ms))
            } else {
                None
            },
            _ => None,
        }
    }

    /// The line of the row, given the speedup as it is shown.
    pub fn render(&self, speedup: &str) -> (line: String)
        ensures
            line@ == row_text(self@, speedup@),
    {
        let mut line: String = String::from_str("| ");
        match self {
            Row::Missing { name, baseline_ms } => {
                line.append(name.as_str());
                line.append(" | ");
                line.append(decimal_string(*baseline_ms).as_str());
                line.append("ms | — | missing | — | — | — |");
            },
            Row::Skipped { name } => {
                line.append(name.as_str());
                line.append(" | skipped | skipped | — | — | — | — |");
            },
            Row::Compared {
                name,
                baseline_ms,
                candidate_ms,
                delta_ms,
                noise_ms,
                within_noise,
            } => {
                line.append(name.as_str());
                line.append(" | ");
                line.append(decimal_string(*baseline_ms).as_str());
                line.append("ms | ");
                line.append(decimal_string(*candidate_ms).as_str());
                line.append("ms | ");
                line.append(if *delta_ms > 0 {
                    "+"
                } else {
                    ""
                });
                line.append(signed_decimal_string(*delta_ms).as_str());
                line.append("ms | ");
                line.append(speedup);
                line.append("x | ±");
                line.append(decimal_string(*noise_ms).as_str());
                line.append("ms | ");
                line.append(if *within_noise {
                    "**within noise**"
                } else {
                    ""
                });
                line.append(" |");
            },
        }
        line
    }
}

// ---------------------------------------------------------------------------
// The comparison
// ---------------------------------------------------------------------------

/// Two reports side by side: what is said above the table, and its rows.
pub struct Comparison {
    pub preamble: Vec<String>,
    pub rows: Vec<Row>,
}

/// The warning for a corpus of smoke-test scale.
pub open spec fn smoke_lines(corpus: CorpusView) -> Seq<Seq<char>> {
    if corpus.smoke_scale {
        seq![
            ""@,
            "**Smoke-scale corpus — these numbers are not meaningful for comparison.**"@,
        ]
    } else {
        seq![]
    }
}

/// The warning for reports from different machines. Not fatal like a corpus
/// mismatch, but wall-clock across different hardware is not a like-for-like
/// comparison and the reader needs to know.
pub open spec fn machine_lines(baseline: MachineView, candidate: MachineView) -> Seq<Seq<char>> {
    if baseline != candidate {
        seq![
            ""@,
            "**Warning: different machines ("@ + machine_text(baseline) + " vs "@ + machine_text(
                candidate,
            ) + "). Wall-clock numbers are not comparable across hardware.**"@,
        ]
    } else {
        seq![]
    }
}

/// The lines above the rows.
pub open spec fn preamble_of(baseline: ReportView, candidate: ReportView) -> Seq<Seq<char>> {
    seq![
        "corpus: "@ + baseline.corpus.path + " ("@ + decimal(baseline.corpus.tracked_files)
            + " tracked files)"@,
        "machine: "@ + machine_text(baseline.machine),
    ] + smoke_lines(baseline.corpus) + machine_lines(baseline.machine, candidate.machine) + seq![
        ""@,
        "| Case | Baseline | Candidate | Delta | Speedup | Noise | Verdict |"@,
        "|---|---:|---:|---:|---:|---:|---|"@,
    ]
}

fn preamble(baseline: &Report, candidate: &Report) -> (list: Vec<String>)
    ensures
        texts(list@) == preamble_of(baseline@, candidate@),
{
    let mut list: Vec<String> = Vec::new();
    assert(texts(list@) =~= seq![]);
    let mut corpus: String = String::from_str("corpus: ");
    corpus.append(baseline.corpus.path.as_str());
    corpus.append(" (");
    corpus.append(count_string(baseline.corpus.tracked_files).as_str());
    corpus.append(" tracked files)");
    add_line(&mut list, corpus);
    let mut machine: String = String::from_str("machine: ");
    machine.append(baseline.machine.describe().as_str());
    add_line(&mut list, machine);
    if baseline.corpus.smoke_scale {
        add_line(&mut list, String::from_str(""));
        add_line(
            &mut list,
            String::from_str(
                "**Smoke-scale corpus — these numbers are not meaningful for comparison.**",
            ),
        );
    }
    if baseline.machine != candidate.machine {
        let mut warning: String = String::from_str("**Warning: different machines (");
        warning.append(baseline.machine.describe().as_str());
        warning.append(" vs ");
        warning.append(candidate.machine.describe().as_str());
        warning.append("). Wall-clock numbers are not comparable across hardware.**");
        add_line(&mut list, String::from_str(""));
        add_line(&mut list, warning);
    }
    add_line(&mut list, String::from_str(""));
    add_line(
        &mut list,
        String::from_str("| Case | Baseline | Candidate | Delta | Speedup | Noise | Verdict |"),
    );
    add_line(&mut list, String::from_str("|---|---:|---:|---:|---:|---:|---|"));
    assert(texts(list@) =~= preamble_of(baseline@, candidate@));
    list
}

/// Compares a candidate with a baseline, or refuses to.
pub fn cmd_compare(baseline: &Report, candidate: &Report) -> (comparison: Result<
    Comparison,
    String,
>)
    requires
        refusal(baseline@.corpus, candidate@.corpus) is None ==> rows_fit(
            baseline@,
            candidate@,
        ),
    ensures
        match comparison {
            Ok(comparison) => {
                &&& refusal(baseline@.corpus, candidate@.corpus) is None
                &&& texts(comparison.preamble@) == preamble_of(baseline@, candidate@)
                &&& row_views(comparison.rows@) == rows_of(baseline@, candidate@)
            },
            Err(message) => refusal(baseline@.corpus, candidate@.corpus) == Some(message@),
        },
{
    if let Some(message) = refuse(baseline, candidate) {
        return Err(message);
    }
    let ghost wanted = rows_of(baseline@, candidate@);
    let mut rows: Vec<Row> = Vec::new();
    let mut i: usize = 0;
    while i < baseline.cases.len()
        invariant
            wanted == rows_of(baseline@, candidate@),
            rows_fit(baseline@, candidate@),
            i <= baseline.cases@.len(),
            rows@.len() == i,
            forall|j: int| 0 <= j < i ==> (#[trigger] rows@[j])@ == wanted[j],
        decreases baseline.cases@.len() - i,
    {
        let base: &CaseResult = &baseline.cases[i];
        assert(wanted[i as int] == row_of(base@, candidate@.cases));
        assert(row_fits(wanted[i as int]));
        rows.push(compare_case(base, &candidate.cases));
        i = i + 1;
    }
    assert(row_views(rows@) =~= wanted);
    Ok(Comparison { preamble: preamble(baseline, candidate), rows })
}

/// All lines of a comparison, given the speedup of each row as it is shown.
pub open spec fn comparison_lines(
    preamble: Seq<Seq<char>>,
    rows: Seq<RowView>,
    speedups: Seq<Seq<char>>,
) -> Seq<Seq<char>> {
    preamble + Seq::new(rows.len(), |i: int| row_text(rows[i], speedups[i]))
}

impl Comparison {
    /// Renders the comparison, given the speedup of each row as it is shown.
    pub fn render(&self, speedups: &Vec<String>) -> (list: Vec<String>)
        requires
            speedups@.len() == self.rows@.len(),
        ensures
            texts(list@) == comparison_lines(
                texts(self.preamble@),
                row_views(self.rows@),
                texts(speedups@),
            ),
    {
        let ghost above = texts(self.preamble@);
        let ghost rows = row_views(self.rows@);
        let ghost shown = texts(speedups@);
        let mut list: Vec<String> = copied(&self.preamble);
        let mut i: usize = 0;
        assert(texts(list@) =~= comparison_lines(above, rows.take(0), shown));
        while i < self.rows.len()
            invariant
                above == texts(self.preamble@),
                rows == row_views(self.rows@),
                shown == texts(speedups@),
                speedups@.len() == self.rows@.len(),
                i <= self.rows@.len(),
                texts(list@) == comparison_lines(above, rows.take(i as int), shown),
            decreases self.rows@.len() - i,
        {
            let line: String = self.rows[i].render(speedups[i].as_str());
            assert(rows[i as int] == self.rows@[i as int]@);
            assert(shown[i as int] == speedups@[i as int]@);
            add_line(&mut list, line);
            assert(texts(list@) =~= comparison_lines(above, rows.take(i + 1), shown));
            i = i + 1;
        }
        assert(rows.take(i as int) =~= rows);
        list
    }
}

// ---------------------------------------------------------------------------
// Laws
// ---------------------------------------------------------------------------

/// Two reports are compared exactly where they were made of one corpus at one
/// commit; the machines have no say in it.
pub proof fn law_only_one_corpus_is_compared(baseline: CorpusView, candidate: CorpusView)
    ensures
        refusal(baseline, candidate) is None <==> baseline.path == candidate.path
            && baseline.git_commit == candidate.git_commit,
        refusal(baseline, candidate) is None <==> refusal(candidate, baseline) is None,
{
}

/// Swapping the reports turns the sign of a delta and leaves the noise and the
/// verdict as they are.
pub proof fn law_swapping_negates_delta(a: CaseResultView, b: CaseResultView)
    ensures
        compared(a, b)->delta_ms == -compared(b, a)->delta_ms,
        compared(a, b)->noise_ms == compared(b, a)->noise_ms,
        compared(a, b)->within_noise == compared(b, a)->within_noise,
{
}

/// A delta is within noise exactly where the spread of one of the reports is at
/// least as large, either way.
pub proof fn law_verdict_is_spread(a: CaseResultView, b: CaseResultView)
    ensures
        compared(a, b)->within_noise <==> {
            ||| -spread_of(a.runs_ms) <= delta_of(a, b) <= spread_of(a.runs_ms)
            ||| -spread_of(b.runs_ms) <= delta_of(a, b) <= spread_of(b.runs_ms)
        },
{
    lemma_spread_is_not_negative(a.runs_ms);
    lemma_spread_is_not_negative(b.runs_ms);
}

proof fn lemma_spread_is_not_negative(runs: Seq<u128>)
    ensures
        0 <= spread_of(runs),
{
    if runs.len() > 0 {
        crate::stats::law_extremes_bound_all(runs);
        assert(crate::stats::smallest(runs) <= runs[0] <= crate::stats::largest(runs));
    }
}

/// Every case of the baseline has its row, in the order of the baseline and under
/// its name.
pub proof fn law_every_baseline_case_has_a_row(baseline: ReportView, candidate: ReportView, i: int)
    requires
        0 <= i < baseline.cases.len(),
    ensures
        rows_of(baseline, candidate).len() == baseline.cases.len(),
        match rows_of(baseline, candidate)[i] {
            RowView::Missing { name, .. } => name,
            RowView::Skipped { name } => name,
            RowView::Compared { name, .. } => name,
        } == baseline.cases[i].name,
{
}

/// A report whose cases have different names, compared with itself, is not refused,
/// misses no case, and shows no delta beyond noise.
pub proof fn law_self_comparison_shows_nothing(report: ReportView, i: int)
    requires
        0 <= i < report.cases.len(),
        forall|a: int, b: int|
            0 <= a < b < report.cases.len() ==> (#[trigger] report.cases[a]).name != (
            #[trigger] report.cases[b]).name,
    ensures
        refusal(report.corpus, report.corpus) is None,
        match rows_of(report, report)[i] {
            RowView::Missing { .. } => false,
            RowView::Skipped { .. } => is_skipped(report.cases[i]),
            RowView::Compared { delta_ms, within_noise, .. } => delta_ms == 0 && within_noise,
        },
{
    lemma_last_named_is_the_one(report.cases, i);
    lemma_spread_is_not_negative(report.cases[i].runs_ms);
}

proof fn lemma_last_named_is_the_one(cases: Seq<CaseResultView>, i: int)
    requires
        0 <= i < cases.len(),
        forall|a: int, b: int|
            0 <= a < b < cases.len() ==> (#[trigger] cases[a]).name != (#[trigger] cases[b]).name,
    ensures
        last_named(cases, cases[i].name) == Some(cases[i]),
    decreases cases.len(),
{
    if i < cases.len() - 1 {
        assert(cases[i].name != cases[cases.len() - 1].name);
        lemma_last_named_is_the_one(cases.drop_last(), i);
        assert(cases.drop_last()[i] == cases[i]);
    }
}

/// Two reports are refused with a message that names what differs: the corpora, or the
/// commits, each as `{:?}` shows it.
pub proof fn law_refusal_names_what_differs(baseline: CorpusView, candidate: CorpusView)
    ensures
        baseline.path != candidate.path ==> refusal(baseline, candidate) == Some(
            "refusing to compare: different corpora\n  baseline:  "@ + baseline.path
                + "\n  candidate: "@ + candidate.path,
        ),
        baseline.path == candidate.path && baseline.git_commit != candidate.git_commit
            ==> refusal(baseline, candidate) == Some(
            "refusing to compare: corpus moved between runs\n  baseline:  "@ + optional_debug_text(
                baseline.git_commit,
            ) + "\n  candidate: "@ + optional_debug_text(candidate.git_commit)
                + "\nRe-measure both sides against the same corpus commit."@,
        ),
        baseline.git_commit is None ==> optional_debug_text(baseline.git_commit) == "None"@,
        baseline.git_commit is Some ==> optional_debug_text(baseline.git_commit) == "Some("@
            + debug_text(baseline.git_commit->0) + ")"@,
{
}

/// A time that is read as signed stays as it is where it fits, and is less by two to
/// the power of 128 where it does not.
pub proof fn law_signed_times_wrap_round(ms: u128)
    ensures
        i128::MIN <= as_signed(ms) <= i128::MAX,
        as_signed(ms) == ms || as_signed(ms) == ms
            - 340_282_366_920_938_463_463_374_607_431_768_211_456,
        ms <= i128::MAX ==> as_signed(ms) == ms,
{
}

/// Of the outcomes of a name the last one counts, and none is found only where there is
/// none.
pub proof fn law_last_of_a_name_is_found(cases: Seq<CaseResultView>, name: Seq<char>)
    ensures
        match last_named(cases, name) {
            Some(found) => exists|at: int|
                {
                    &&& 0 <= at < cases.len()
                    &&& #[trigger] cases[at] == found
                    &&& found.name == name
                    &&& forall|j: int|
                        at < j < cases.len() ==> (#[trigger] cases[j]).name != name
                },
            None => forall|i: int| 0 <= i < cases.len() ==> (#[trigger] cases[i]).name != name,
        },
    decreases cases.len(),
{
    if cases.len() > 0 {
        let rest = cases.drop_last();
        let end = cases.len() - 1;
        assert(cases[end] == cases.last());
        if cases.last().name != name {
            law_last_of_a_name_is_found(rest, name);
            assert forall|i: int| 0 <= i < rest.len() implies #[trigger] rest[i] == cases[i] by {}
            match last_named(rest, name) {
                Some(found) => {
                    let at = choose|at: int|
                        {
                            &&& 0 <= at < rest.len()
                            &&& #[trigger] rest[at] == found
                            &&& found.name == name
                            &&& forall|j: int|
                                at < j < rest.len() ==> (#[trigger] rest[j]).name != name
                        };
                    assert(cases[at] == found);
                    assert forall|j: int| at < j < cases.len() implies (#[trigger] cases[j]).name
                        != name by {
                        if j < rest.len() {
                            assert(rest[j] == cases[j]);
                        }
                    }
                },
                None => {
                    assert forall|i: int| 0 <= i < cases.len() implies (#[trigger] cases[i]).name
                        != name by {
                        if i < rest.len() {
                            assert(rest[i] == cases[i]);
                        }
                    }
                },
            }
        }
    }
}

/// The noise is the largest distance between two runs of one report: no two runs lie
/// farther apart, and some two do lie so far apart, unless there are no runs.
pub proof fn law_noise_is_the_widest_distance(a: CaseResultView, b: CaseResultView)
    ensures
        forall|i: int, j: int|
            0 <= i < a.runs_ms.len() && 0 <= j < a.runs_ms.len() ==> noise_of(a, b)
                >= #[trigger] a.runs_ms[i] - #[trigger] a.runs_ms[j],
        forall|i: int, j: int|
            0 <= i < b.runs_ms.len() && 0 <= j < b.runs_ms.len() ==> noise_of(a, b)
                >= #[trigger] b.runs_ms[i] - #[trigger] b.runs_ms[j],
        ({
            ||| noise_of(a, b) == 0
            ||| exists|i: int, j: int|
                0 <= i < a.runs_ms.len() && 0 <= j < a.runs_ms.len() && noise_of(a, b)
                    == #[trigger] a.runs_ms[i] - #[trigger] a.runs_ms[j]
            ||| exists|i: int, j: int|
                0 <= i < b.runs_ms.len() && 0 <= j < b.runs_ms.len() && noise_of(a, b)
                    == #[trigger] b.runs_ms[i] - #[trigger] b.runs_ms[j]
        }),
        noise_of(a, b) >= 0,
        compared(a, b)->noise_ms == noise_of(a, b),
{
    lemma_spread_is_not_negative(a.runs_ms);
    lemma_spread_is_not_negative(b.runs_ms);
    crate::stats::law_spread_is_the_widest_distance(a.runs_ms);
    crate::stats::law_spread_is_the_widest_distance(b.runs_ms);
    assert forall|i: int, j: int|
        0 <= i < a.runs_ms.len() && 0 <= j < a.runs_ms.len() implies noise_of(a, b)
        >= #[trigger] a.runs_ms[i] - #[trigger] a.runs_ms[j] by {
        assert(spread_of(a.runs_ms) >= a.runs_ms[i] - a.runs_ms[j]);
    }
    assert forall|i: int, j: int|
        0 <= i < b.runs_ms.len() && 0 <= j < b.runs_ms.len() implies noise_of(a, b)
        >= #[trigger] b.runs_ms[i] - #[trigger] b.runs_ms[j] by {
        assert(spread_of(b.runs_ms) >= b.runs_ms[i] - b.runs_ms[j]);
    }
}

/// A delta is within noise exactly where two runs of one of the reports lie as far
/// apart, or where there is no delta. It is the candidate's time less the baseline's.
pub proof fn law_verdict_is_by_two_runs(a: CaseResultView, b: CaseResultView)
    ensures
        compared(a, b)->Compared_name == a.name,
        compared(a, b)->Compared_baseline_ms == a.best_ms,
        compared(a, b)->candidate_ms == b.best_ms,
        compared(a, b)->delta_ms == as_signed(b.best_ms) - as_signed(a.best_ms),
        a.best_ms <= i128::MAX && b.best_ms <= i128::MAX ==> compared(a, b)->delta_ms == b.best_ms
            - a.best_ms,
        compared(a, b)->within_noise <==> {
            let delta = compared(a, b)->delta_ms;
            ||| delta == 0
            ||| exists|i: int, j: int|
                0 <= i < a.runs_ms.len() && 0 <= j < a.runs_ms.len() && {
                    let apart = #[trigger] a.runs_ms[i] - #[trigger] a.runs_ms[j];
                    -apart <= delta <= apart
                }
            ||| exists|i: int, j: int|
                0 <= i < b.runs_ms.len() && 0 <= j < b.runs_ms.len() && {
                    let apart = #[trigger] b.runs_ms[i] - #[trigger] b.runs_ms[j];
                    -apart <= delta <= apart
                }
        },
{
    law_noise_is_the_widest_distance(a, b);
    let delta = compared(a, b)->delta_ms;
    let noise = noise_of(a, b);
    if compared(a, b)->within_noise && delta != 0 {
        assert(noise > 0);
        if exists|i: int, j: int|
            0 <= i < a.runs_ms.len() && 0 <= j < a.runs_ms.len() && noise == #[trigger] a.runs_ms[i]
                - #[trigger] a.runs_ms[j] {
            let (i, j) = choose|i: int, j: int|
                0 <= i < a.runs_ms.len() && 0 <= j < a.runs_ms.len() && noise
                    == #[trigger] a.runs_ms[i] - #[trigger] a.runs_ms[j];
            let apart = a.runs_ms[i] - a.runs_ms[j];
            assert(-apart <= delta <= apart);
        } else {
            let (i, j) = choose|i: int, j: int|
                0 <= i < b.runs_ms.len() && 0 <= j < b.runs_ms.len() && noise
                    == #[trigger] b.runs_ms[i] - #[trigger] b.runs_ms[j];
            let apart = b.runs_ms[i] - b.runs_ms[j];
            assert(-apart <= delta <= apart);
        }
    }
}

/// A case of the baseline is missing where the candidate has none of its name, is
/// skipped where either was, and is compared with the last one of its name else.
pub proof fn law_row_is_by_the_last_of_the_name(
    baseline: CaseResultView,
    candidates: Seq<CaseResultView>,
    at: int,
)
    ensures
        (forall|i: int| 0 <= i < candidates.len() ==> (#[trigger] candidates[i]).name
            != baseline.name) ==> row_of(baseline, candidates) == (RowView::Missing {
            name: baseline.name,
            baseline_ms: baseline.best_ms,
        }),
        0 <= at < candidates.len() && candidates[at].name == baseline.name && (forall|j: int|
            at < j < candidates.len() ==> (#[trigger] candidates[j]).name != baseline.name)
            ==> row_of(baseline, candidates) == if baseline.status == "skipped"@
            || candidates[at].status == "skipped"@ {
            RowView::Skipped { name: baseline.name }
        } else {
            compared(baseline, candidates[at])
        },
{
    law_last_of_a_name_is_found(candidates, baseline.name);
    match last_named(candidates, baseline.name) {
        Some(found) => {
            let k = choose|k: int|
                {
                    &&& 0 <= k < candidates.len()
                    &&& #[trigger] candidates[k] == found
                    &&& found.name == baseline.name
                    &&& forall|j: int|
                        k < j < candidates.len() ==> (#[trigger] candidates[j]).name
                            != baseline.name
                };
            assert(candidates[k].name == baseline.name);
            if 0 <= at < candidates.len() && candidates[at].name == baseline.name && (forall|
                j: int,
            |
                at < j < candidates.len() ==> (#[trigger] candidates[j]).name != baseline.name) {
                assert(at == k);
            }
        },
        None => {},
    }
}

/// The rows are those of the cases of the baseline, one for one, and they fit where the
/// delta of each compared one is a signed number of 128 bits, as it is for all times
/// below half of what is counted.
pub proof fn law_rows_are_judged_case_by_case(baseline: ReportView, candidate: ReportView)
    ensures
        rows_of(baseline, candidate).len() == baseline.cases.len(),
        forall|i: int|
            0 <= i < baseline.cases.len() ==> #[trigger] rows_of(baseline, candidate)[i] == row_of(
                baseline.cases[i],
                candidate.cases,
            ),
        rows_fit(baseline, candidate) <==> forall|i: int|
            0 <= i < baseline.cases.len() && (#[trigger] rows_of(baseline, candidate)[i])
                is Compared ==> i128::MIN <= rows_of(baseline, candidate)[i]->delta_ms <= i128::MAX,
{
    let rows = rows_of(baseline, candidate);
    if rows_fit(baseline, candidate) {
        assert forall|i: int|
            0 <= i < baseline.cases.len() && (#[trigger] rows[i]) is Compared implies i128::MIN
            <= rows[i]->delta_ms <= i128::MAX by {
            assert(row_fits(rows[i]));
        }
    }
}

/// Of a row all its fields are known, and of a list each row.
pub proof fn law_row_views_are_the_fields(
    name: String,
    baseline_ms: u128,
    candidate_ms: u128,
    delta_ms: i128,
    noise_ms: u128,
    within_noise: bool,
    rows: Seq<Row>,
)
    ensures
        (Row::Missing { name, baseline_ms })@ == (RowView::Missing { name: name@, baseline_ms }),
        (Row::Skipped { name })@ == (RowView::Skipped { name: name@ }),
        (Row::Compared { name, baseline_ms, candidate_ms, delta_ms, noise_ms, within_noise })@ == (
        RowView::Compared {
            name: name@,
            baseline_ms,
            candidate_ms,
            delta_ms: delta_ms as int,
            noise_ms: noise_ms as int,
            within_noise,
        }),
        row_views(rows).len() == rows.len(),
        forall|i: int| 0 <= i < rows.len() ==> #[trigger] row_views(rows)[i] == rows[i]@,
{
}

/// The speedup is the baseline's time over the candidate's; only a case that was
/// compared has one, and only where the candidate took measurable time.
pub proof fn law_speedup_is_baseline_over_candidate(row: RowView)
    ensures
        match speedup_terms_of(row) {
            Some((over, under)) => row is Compared && over == row->Compared_baseline_ms && under
                == row->candidate_ms && under > 0,
            None => row is Compared ==> row->candidate_ms == 0,
        },
{
}

/// A row shows what was found: both times, the delta with its sign, the speedup, the
/// noise, and the verdict where the delta is within it.
pub proof fn law_row_shows_what_was_found(row: RowView, speedup: Seq<char>)
    ensures
        match row {
            RowView::Missing { name, baseline_ms } => row_text(row, speedup) == "| "@ + name
                + " | "@ + decimal(baseline_ms as nat) + "ms | — | missing | — | — | — |"@,
            RowView::Skipped { name } => row_text(row, speedup) == "| "@ + name
                + " | skipped | skipped | — | — | — | — |"@,
            RowView::Compared {
                name,
                baseline_ms,
                candidate_ms,
                delta_ms,
                noise_ms,
                within_noise,
            } => {
                let times = "| "@ + name + " | "@ + decimal(baseline_ms as nat) + "ms | "@
                    + decimal(candidate_ms as nat) + "ms | "@;
                let rest = "ms | "@;
                &&& delta_ms > 0 && within_noise ==> row_text(row, speedup) == times + "+"@
                    + signed_decimal(delta_ms) + rest + speedup + "x | ±"@ + decimal(
                    noise_ms as nat,
                ) + "ms | "@ + "**within noise**"@ + " |"@
                &&& delta_ms > 0 && !within_noise ==> row_text(row, speedup) == times + "+"@
                    + signed_decimal(delta_ms) + rest + speedup + "x | ±"@ + decimal(
                    noise_ms as nat,
                ) + "ms | "@ + ""@ + " |"@
                &&& delta_ms <= 0 && within_noise ==> row_text(row, speedup) == times + ""@
                    + signed_decimal(delta_ms) + rest + speedup + "x | ±"@ + decimal(
                    noise_ms as nat,
                ) + "ms | "@ + "**within noise**"@ + " |"@
                &&& delta_ms <= 0 && !within_noise ==> row_text(row, speedup) == times + ""@
                    + signed_decimal(delta_ms) + rest + speedup + "x | ±"@ + decimal(
                    noise_ms as nat,
                ) + "ms | "@ + ""@ + " |"@
            },
        },
{
}

/// Above the rows stand the corpus and the machine of the baseline, a warning where the
/// corpus is of smoke-test scale, a warning where the machines differ, and the head of
/// the table.
pub proof fn law_preamble_warns_where_it_has_to(baseline: ReportView, candidate: ReportView)
    ensures
        ({
            let above = preamble_of(baseline, candidate);
            let corpus = "corpus: "@ + baseline.corpus.path + " ("@ + decimal(
                baseline.corpus.tracked_files,
            ) + " tracked files)"@;
            let machine = "machine: "@ + machine_text(baseline.machine);
            let smoke =
                "**Smoke-scale corpus — these numbers are not meaningful for comparison.**"@;
            let differ = "**Warning: different machines ("@ + machine_text(baseline.machine)
                + " vs "@ + machine_text(candidate.machine)
                + "). Wall-clock numbers are not comparable across hardware.**"@;
            let head = "| Case | Baseline | Candidate | Delta | Speedup | Noise | Verdict |"@;
            let rule = "|---|---:|---:|---:|---:|---:|---|"@;
            &&& baseline.corpus.smoke_scale && baseline.machine != candidate.machine ==> above
                == seq![corpus, machine, ""@, smoke, ""@, differ, ""@, head, rule]
            &&& baseline.corpus.smoke_scale && baseline.machine == candidate.machine ==> above
                == seq![corpus, machine, ""@, smoke, ""@, head, rule]
            &&& !baseline.corpus.smoke_scale && baseline.machine != candidate.machine ==> above
                == seq![corpus, machine, ""@, differ, ""@, head, rule]
            &&& !baseline.corpus.smoke_scale && baseline.machine == candidate.machine ==> above
                == seq![corpus, machine, ""@, head, rule]
        }),
{
}

/// Below the preamble stand the lines of all rows, one for one, each with its speedup.
pub proof fn law_comparison_shows_every_row(
    preamble: Seq<Seq<char>>,
    rows: Seq<RowView>,
    speedups: Seq<Seq<char>>,
)
    ensures
        comparison_lines(preamble, rows, speedups).len() == preamble.len() + rows.len(),
        comparison_lines(preamble, rows, speedups).take(preamble.len() as int) == preamble,
        forall|i: int|
            0 <= i < rows.len() ==> #[trigger] comparison_lines(preamble, rows, speedups)[
                preamble.len() + i] == row_text(rows[i], speedups[i]),
{
    assert(comparison_lines(preamble, rows, speedups).take(preamble.len() as int) =~= preamble);
}

} // verus!
