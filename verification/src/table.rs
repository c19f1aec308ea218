//! The report as a table for a reader.
use vstd::prelude::*;
use vstd::string::StringExecFns;

use crate::order::precedes;
use crate::report::{
    is_skipped, machine_text, phase_names, phase_views, result_views, CaseResult, CaseResultView, CorpusInfo,
    CorpusView, Phase, PhaseView, Report, ReportView,
};
use crate::run::reason_or_empty;
use crate::text::{
    add_line, align_left, align_right, count_string, decimal, decimal_string, left_aligned, repeat,
    repeated, right_aligned, text_or_empty, texts,
};

verus! {

/// How large the corpus is.
pub open spec fn scale_text(corpus: CorpusView) -> Seq<char> {
    "scale:     "@ + decimal(corpus.tracked_files) + " tracked files, "@ + decimal(
        corpus.owned_files,
    ) + " owned, "@ + decimal(corpus.codeowners_lines) + " CODEOWNERS lines"@
        + if corpus.smoke_scale {
        "  [SMOKE SCALE]"@
    } else {
        ""@
    }
}

/// The line that names the commit, where the corpus has one.
pub open spec fn commit_lines(corpus: CorpusView) -> Seq<Seq<char>> {
    match corpus.git_commit {
        Some(commit) => seq!["commit:    "@ + commit],
        None => seq![],
    }
}

/// The heads of the columns.
pub open spec fn column_heads() -> Seq<char> {
    left_aligned("case"@, 22) + " "@ + right_aligned("best"@, 10) + " "@ + right_aligned(
        "median"@,
        10,
    ) + "  notes"@
}

/// The lines above the cases.
pub open spec fn head_lines(report: ReportView) -> Seq<Seq<char>> {
    seq![
        ""@,
        "corpus:    "@ + report.corpus.path,
        "machine:   "@ + machine_text(report.machine),
        scale_text(report.corpus),
    ] + commit_lines(report.corpus) + seq![
        "runs:      "@ + decimal(report.runs_per_case) + " (best reported)"@,
        ""@,
        column_heads(),
        repeated('-', 72),
    ]
}

/// What is noted of a case that was measured: its errors, if there were any.
pub open spec fn notes_text(result: CaseResultView) -> Seq<char> {
    if result.validation_errors > 0 || result.io_errors > 0 {
        decimal(result.validation_errors) + " validation, "@ + decimal(result.io_errors)
            + " io errors"@
    } else {
        ""@
    }
}

/// The line of one case.
pub open spec fn case_line(result: CaseResultView) -> Seq<char> {
    if is_skipped(result) {
        left_aligned(result.name, 22) + " "@ + right_aligned("-"@, 10) + " "@ + right_aligned(
            "-"@,
            10,
        ) + "  "@ + text_or_empty(result.skip_reason)
    } else {
        left_aligned(result.name, 22) + " "@ + right_aligned(decimal(result.best_ms as nat), 9)
            + "ms "@ + right_aligned(decimal(result.median_ms as nat), 9) + "ms  "@ + notes_text(
            result,
        )
    }
}

/// The line of one phase.
pub open spec fn phase_line(phase: PhaseView) -> Seq<char> {
    "    "@ + left_aligned(phase.name, 34) + " "@ + right_aligned(decimal(phase.ms as nat), 7)
        + "ms"@
}

/// The lines of the phases of one case; none where it has no phases.
pub open spec fn breakdown_of(result: CaseResultView) -> Seq<Seq<char>> {
    if result.phases_ms.len() == 0 {
        seq![]
    } else {
        seq![result.name + ":"@] + result.phases_ms.map_values(|p: PhaseView| phase_line(p))
    }
}

/// The lines of the phases of all cases.
pub open spec fn breakdown_lines(cases: Seq<CaseResultView>) -> Seq<Seq<char>>
    decreases cases.len(),
{
    if cases.len() == 0 {
        seq![]
    } else {
        breakdown_lines(cases.drop_last()) + breakdown_of(cases.last())
    }
}

/// Below the name of its case, the lines of the phases come in the order of the phase
/// names, and no phase has two.
pub proof fn law_breakdown_is_by_name(result: CaseResultView)
    requires
        result.wf(),
        result.phases_ms.len() > 0,
    ensures
        breakdown_of(result).len() == result.phases_ms.len() + 1,
        breakdown_of(result)[0] == result.name + ":"@,
        forall|i: int|
            0 <= i < result.phases_ms.len() ==> #[trigger] breakdown_of(result)[i + 1]
                == phase_line(result.phases_ms[i]),
        forall|i: int, j: int|
            0 <= i < j < result.phases_ms.len() ==> precedes(
                (#[trigger] result.phases_ms[i]).name,
                (#[trigger] result.phases_ms[j]).name,
            ),
{
    let names = phase_names(result.phases_ms);
    assert forall|i: int, j: int| 0 <= i < j < result.phases_ms.len() implies precedes(
        (#[trigger] result.phases_ms[i]).name,
        (#[trigger] result.phases_ms[j]).name,
    ) by {
        assert(names[i] == result.phases_ms[i].name);
        assert(names[j] == result.phases_ms[j].name);
    }
}

/// All lines of the table.
pub open spec fn table_lines(report: ReportView) -> Seq<Seq<char>> {
    head_lines(report) + report.cases.map_values(|r: CaseResultView| case_line(r)) + seq![
        ""@,
        "phase breakdown (best run, nested spans are inclusive of children)"@,
        repeated('-', 72),
    ] + breakdown_lines(report.cases)
}

fn scale_string(corpus: &CorpusInfo) -> (text: String)
    ensures
        text@ == scale_text(corpus@),
{
    let mut text: String = String::from_str("scale:     ");
    text.append(count_string(corpus.tracked_files).as_str());
    text.append(" tracked files, ");
    text.append(count_string(corpus.owned_files).as_str());
    text.append(" owned, ");
    text.append(count_string(corpus.codeowners_lines).as_str());
    text.append(" CODEOWNERS lines");
    text.append(if corpus.smoke_scale {
        "  [SMOKE SCALE]"
    } else {
        ""
    });
    text
}

fn column_head_string() -> (text: String)
    ensures
        text@ == column_heads(),
{
    let mut text: String = align_left("case", 22);
    text.append(" ");
    text.append(align_right("best", 10).as_str());
    text.append(" ");
    text.append(align_right("median", 10).as_str());
    text.append("  notes");
    text
}

fn notes_string(result: &CaseResult) -> (text: String)
    ensures
        text@ == notes_text(result@),
{
    if result.validation_errors > 0 || result.io_errors > 0 {
        let mut text: String = count_string(result.validation_errors);
        text.append(" validation, ");
        text.append(count_string(result.io_errors).as_str());
        text.append(" io errors");
        text
    } else {
        String::from_str("")
    }
}

fn case_string(result: &CaseResult) -> (text: String)
    ensures
        text@ == case_line(result@),
{
    let mut text: String = align_left(result.name.as_str(), 22);
    text.append(" ");
    if result.skipped() {
        text.append(align_right("-", 10).as_str());
        text.append(" ");
        text.append(align_right("-", 10).as_str());
        text.append("  ");
        text.append(reason_or_empty(result).as_str());
    } else {
        text.append(align_right(decimal_string(result.best_ms).as_str(), 9).as_str());
        text.append("ms ");
        text.append(align_right(decimal_string(result.median_ms).as_str(), 9).as_str());
        text.append("ms  ");
        text.append(notes_string(result).as_str());
    }
    text
}

fn phase_string(phase: &Phase) -> (text: String)
    ensures
        text@ == phase_line(phase@),
{
    let mut text: String = String::from_str("    ");
    text.append(align_left(phase.name.as_str(), 34).as_str());
    text.append(" ");
    text.append(align_right(decimal_string(phase.ms).as_str(), 7).as_str());
    text.append("ms");
    text
}

fn add_head(list: &mut Vec<String>, report: &Report)
    ensures
        texts(final(list)@) == texts(old(list)@) + head_lines(report@),
{
    let ghost before = texts(list@);
    add_line(list, String::from_str(""));
    let mut corpus: String = String::from_str("corpus:    ");
    corpus.append(report.corpus.path.as_str());
    add_line(list, corpus);
    let mut machine: String = String::from_str("machine:   ");
    machine.append(report.machine.describe().as_str());
    add_line(list, machine);
    add_line(list, scale_string(&report.corpus));
    if let Some(commit) = &report.corpus.git_commit {
        let mut line: String = String::from_str("commit:    ");
        line.append(commit.as_str());
        add_line(list, line);
    }
    let mut runs: String = String::from_str("runs:      ");
    runs.append(count_string(report.runs_per_case).as_str());
    runs.append(" (best reported)");
    add_line(list, runs);
    add_line(list, String::from_str(""));
    add_line(list, column_head_string());
    add_line(list, repeat('-', 72));
    assert(texts(list@) =~= before + head_lines(report@));
}

fn add_breakdown(list: &mut Vec<String>, result: &CaseResult)
    ensures
        texts(final(list)@) == texts(old(list)@) + breakdown_of(result@),
{
    let ghost before = texts(list@);
    if result.phases_ms.len() == 0 {
        assert(before + breakdown_of(result@) =~= before);
        return;
    }
    let ghost phases = result@.phases_ms;
    let ghost rows = phases.map_values(|p: PhaseView| phase_line(p));
    let mut name: String = result.name.clone();
    name.append(":");
    let ghost title = name@;
    add_line(list, name);
    let mut i: usize = 0;
    assert(texts(list@) =~= before + (seq![title] + rows.take(0)));
    while i < result.phases_ms.len()
        invariant
            phases == phase_views(result.phases_ms@),
            rows == phases.map_values(|p: PhaseView| phase_line(p)),
            i <= result.phases_ms@.len(),
            texts(list@) == before + (seq![title] + rows.take(i as int)),
        decreases result.phases_ms@.len() - i,
    {
        let line: String = phase_string(&result.phases_ms[i]);
        assert(rows[i as int] == line@);
        assert(rows.take(i + 1) =~= rows.take(i as int).push(line@));
        add_line(list, line);
        assert(texts(list@) =~= before + (seq![title] + rows.take(i + 1)));
        i = i + 1;
    }
    assert(rows.take(i as int) =~= rows);
}

/// Renders the report as a table.
pub fn print_table(report: &Report) -> (list: Vec<String>)
    ensures
        texts(list@) == table_lines(report@),
{
    let ghost cases = report@.cases;
    let ghost rows = cases.map_values(|r: CaseResultView| case_line(r));
    let ghost head = head_lines(report@);
    let mut list: Vec<String> = Vec::new();
    assert(texts(list@) =~= seq![]);
    add_head(&mut list, report);
    assert(texts(list@) =~= head + rows.take(0));
    let mut i: usize = 0;
    while i < report.cases.len()
        invariant
            cases == result_views(report.cases@),
            rows == cases.map_values(|r: CaseResultView| case_line(r)),
            i <= report.cases@.len(),
            texts(list@) == head + rows.take(i as int),
        decreases report.cases@.len() - i,
    {
        let line: String = case_string(&report.cases[i]);
        assert(rows[i as int] == line@);
        assert(rows.take(i + 1) =~= rows.take(i as int).push(line@));
        add_line(&mut list, line);
        assert(texts(list@) =~= head + rows.take(i + 1));
        i = i + 1;
    }
    assert(rows.take(i as int) =~= rows);
    add_line(&mut list, String::from_str(""));
    add_line(
        &mut list,
        String::from_str("phase breakdown (best run, nested spans are inclusive of children)"),
    );
    add_line(&mut list, repeat('-', 72));
    let ghost upper = head + rows + seq![
        ""@,
        "phase breakdown (best run, nested spans are inclusive of children)"@,
        repeated('-', 72),
    ];
    assert(texts(list@) =~= upper);
    let mut k: usize = 0;
    assert(texts(list@) =~= upper + breakdown_lines(cases.take(0)));
    while k < report.cases.len()
        invariant
            cases == result_views(report.cases@),
            k <= report.cases@.len(),
            texts(list@) == upper + breakdown_lines(cases.take(k as int)),
        decreases report.cases@.len() - k,
    {
        proof {
            assert(cases.take(k + 1).drop_last() =~= cases.take(k as int));
            assert(cases.take(k + 1).last() == report.cases@[k as int]@);
        }
        add_breakdown(&mut list, &report.cases[k]);
        assert(texts(list@) =~= upper + breakdown_lines(cases.take(k + 1)));
        k = k + 1;
    }
    assert(cases.take(k as int) =~= cases);
    list
}

// ---------------------------------------------------------------------------
// Laws
// ---------------------------------------------------------------------------

/// The head of the table names the corpus, the machine, how many files and lines there
/// are, the commit where there is one, and how often each case was run.
pub proof fn law_head_tells_what_was_measured(report: ReportView)
    ensures
        ({
            let corpus = report.corpus;
            let scale = "scale:     "@ + decimal(corpus.tracked_files) + " tracked files, "@
                + decimal(corpus.owned_files) + " owned, "@ + decimal(corpus.codeowners_lines)
                + " CODEOWNERS lines"@;
            let first = seq![
                ""@,
                "corpus:    "@ + corpus.path,
                "machine:   "@ + machine_text(report.machine),
                scale_text(corpus),
            ];
            let last = seq![
                "runs:      "@ + decimal(report.runs_per_case) + " (best reported)"@,
                ""@,
                left_aligned("case"@, 22) + " "@ + right_aligned("best"@, 10) + " "@
                    + right_aligned("median"@, 10) + "  notes"@,
                repeated('-', 72),
            ];
            &&& corpus.smoke_scale ==> scale_text(corpus) == scale + "  [SMOKE SCALE]"@
            &&& !corpus.smoke_scale ==> scale_text(corpus) == scale + ""@
            &&& corpus.git_commit is Some ==> head_lines(report) == first + seq![
                "commit:    "@ + corpus.git_commit->0,
            ] + last
            &&& corpus.git_commit is None ==> head_lines(report) == first + last
        }),
{
}

/// The line of a case shows its best and its median time and the errors of its last
/// run, or a dash for either time and the reason for which it was skipped.
pub proof fn law_case_line_shows_times_or_reason(result: CaseResultView)
    ensures
        result.status != "skipped"@ ==> case_line(result) == left_aligned(result.name, 22) + " "@
            + right_aligned(decimal(result.best_ms as nat), 9) + "ms "@ + right_aligned(
            decimal(result.median_ms as nat),
            9,
        ) + "ms  "@ + notes_text(result),
        result.status == "skipped"@ && result.skip_reason is Some ==> case_line(result)
            == left_aligned(result.name, 22) + " "@ + right_aligned("-"@, 10) + " "@
            + right_aligned("-"@, 10) + "  "@ + result.skip_reason->0,
        result.status == "skipped"@ && result.skip_reason is None ==> case_line(result)
            == left_aligned(result.name, 22) + " "@ + right_aligned("-"@, 10) + " "@
            + right_aligned("-"@, 10) + "  "@,
        result.validation_errors == 0 && result.io_errors == 0 ==> notes_text(result) == ""@,
        result.validation_errors > 0 || result.io_errors > 0 ==> notes_text(result) == decimal(
            result.validation_errors,
        ) + " validation, "@ + decimal(result.io_errors) + " io errors"@,
{
    let dashes = left_aligned(result.name, 22) + " "@ + right_aligned("-"@, 10) + " "@
        + right_aligned("-"@, 10) + "  "@;
    assert(dashes + Seq::<char>::empty() =~= dashes);
}

/// A case without phases has no breakdown. Any other has its name, and a line for each
/// phase with the name of the phase and its time.
pub proof fn law_breakdown_has_a_line_for_each_phase(result: CaseResultView, phase: PhaseView)
    ensures
        phase_line(phase) == "    "@ + left_aligned(phase.name, 34) + " "@ + right_aligned(
            decimal(phase.ms as nat),
            7,
        ) + "ms"@,
        result.phases_ms.len() == 0 ==> breakdown_of(result).len() == 0,
        result.phases_ms.len() > 0 ==> breakdown_of(result).len() == result.phases_ms.len() + 1
            && breakdown_of(result)[0] == result.name + ":"@,
        forall|i: int|
            0 <= i < result.phases_ms.len() ==> #[trigger] breakdown_of(result)[i + 1]
                == phase_line(result.phases_ms[i]),
{
}

/// The breakdowns of all cases stand one below the other, in the order of the cases.
pub proof fn law_breakdowns_follow_the_cases(cases: Seq<CaseResultView>, result: CaseResultView)
    ensures
        breakdown_lines(seq![]).len() == 0,
        breakdown_lines(cases.push(result)) == breakdown_lines(cases) + breakdown_of(result),
{
    assert(cases.push(result).drop_last() =~= cases);
}

/// The table is its head, a line for every case in their order, and the breakdowns.
pub proof fn law_table_shows_every_case(report: ReportView)
    ensures
        ({
            let head = head_lines(report).len() as int;
            let cases = report.cases.len() as int;
            let table = table_lines(report);
            &&& table.len() == head + cases + 3 + breakdown_lines(report.cases).len()
            &&& table.take(head) == head_lines(report)
            &&& forall|i: int|
                0 <= i < cases ==> #[trigger] table[head + i] == case_line(report.cases[i])
            &&& table[head + cases] == ""@
            &&& table[head + cases + 1]
                == "phase breakdown (best run, nested spans are inclusive of children)"@
            &&& table[head + cases + 2] == repeated('-', 72)
            &&& table.skip(head + cases + 3) == breakdown_lines(report.cases)
        }),
{
    let head = head_lines(report).len() as int;
    let cases = report.cases.len() as int;
    let table = table_lines(report);
    assert(table.take(head) =~= head_lines(report));
    assert(table.skip(head + cases + 3) =~= breakdown_lines(report.cases));
}

} // verus!
