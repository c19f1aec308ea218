//! A benchmark run: what is recorded of the corpus, what is said while the cases are
//! measured, and the report in the end.
use vstd::prelude::*;
use vstd::string::StringExecFns;

use crate::cases::{Case, CaseView};
use crate::report::{
    is_skipped, result_views, CaseResult, CaseResultView, CorpusInfo, CorpusView, MachineInfo,
    Report, ReportView,
};
use crate::text::{
    count_string, decimal, decimal_string, line_count, lines, optional_str, text_or_empty,
    trim, trimmed,
};

verus! {

/// Corpora smaller than this are smoke-test scale: every case completes in
/// single-digit milliseconds and the numbers are not comparable to anything.
pub const SMOKE_SCALE_MAX_FILES: usize = 1_000;

/// What is recorded of a corpus.
pub open spec fn corpus_record(
    path: Seq<char>,
    revision: Option<Seq<char>>,
    files: nat,
    owned: nat,
    codeowners: Option<Seq<char>>,
) -> CorpusView {
    CorpusView {
        path,
        git_commit: match revision {
            Some(printed) => Some(trimmed(printed)),
            None => None,
        },
        tracked_files: files,
        owned_files: owned,
        codeowners_lines: match codeowners {
            Some(content) => lines(content).len(),
            None => 0,
        },
        smoke_scale: files < SMOKE_SCALE_MAX_FILES,
    }
}

/// Records a corpus: its path, the commit that `git rev-parse HEAD` printed, how many
/// files are tracked and owned, and the number of lines of its CODEOWNERS file. Git
/// may have printed nothing, and there may be no file.
pub fn corpus_info(
    path: String,
    revision: Option<&str>,
    files: &Vec<String>,
    pool: &Vec<String>,
    codeowners: Option<&str>,
) -> (info: CorpusInfo)
    ensures
        info@ == corpus_record(
            path@,
            optional_str(revision),
            files@.len(),
            pool@.len(),
            optional_str(codeowners),
        ),
        info.path@ == path@,
        info.tracked_files == files@.len(),
        info.owned_files == pool@.len(),
        info.smoke_scale == (files@.len() < 1000),
{
    let git_commit: Option<String> = match revision {
        Some(printed) => Some(trim(printed)),
        None => None,
    };
    let codeowners_lines: usize = match codeowners {
        Some(content) => line_count(content),
        None => 0,
    };
    CorpusInfo {
        path,
        git_commit,
        tracked_files: files.len(),
        owned_files: pool.len(),
        codeowners_lines,
        smoke_scale: files.len() < SMOKE_SCALE_MAX_FILES,
    }
}

/// The warning for a corpus of smoke-test scale.
pub open spec fn smoke_text(corpus: CorpusView) -> Seq<char> {
    "warning: corpus is "@ + corpus.path + " ("@ + decimal(corpus.tracked_files)
        + " tracked files) — smoke-test scale.\n         Results are NOT comparable. Set CODEOWNERS_PERF_CORPUS to a large monorepo\n         (see perf/README.md) for real measurements.\n"@
}

/// The warning that a reader of the table gets before the numbers, if the corpus is
/// too small for them to mean anything. A report in JSON records the same instead.
pub fn smoke_warning(info: &CorpusInfo, json: bool) -> (warning: Option<String>)
    ensures
        match warning {
            Some(text) => info@.smoke_scale && !json && text@ == smoke_text(info@),
            None => !info@.smoke_scale || json,
        },
{
    if info.smoke_scale && !json {
        let mut text: String = String::from_str("warning: corpus is ");
        text.append(info.path.as_str());
        text.append(" (");
        text.append(count_string(info.tracked_files).as_str());
        text.append(
            " tracked files) — smoke-test scale.\n         Results are NOT comparable. Set CODEOWNERS_PERF_CORPUS to a large monorepo\n         (see perf/README.md) for real measurements.\n",
        );
        Some(text)
    } else {
        None
    }
}

/// What is said before a case is measured.
pub open spec fn started_text(case: CaseView) -> Seq<char> {
    "  "@ + case.name + " ... "@
}

/// What is said once a case is done.
pub open spec fn finished_text(result: CaseResultView) -> Seq<char> {
    if is_skipped(result) {
        "skipped ("@ + text_or_empty(result.skip_reason) + ")"@
    } else {
        decimal(result.best_ms as nat) + " ms"@
    }
}

/// Announces a case, unless the output is JSON.
pub fn case_started(case: &Case, json: bool) -> (said: Option<String>)
    ensures
        match said {
            Some(text) => !json && text@ == started_text(case@),
            None => json,
        },
{
    if json {
        None
    } else {
        let mut text: String = String::from_str("  ");
        text.append(case.name);
        text.append(" ... ");
        Some(text)
    }
}

/// Tells how a case ended, unless the output is JSON.
pub fn case_finished(result: &CaseResult, json: bool) -> (said: Option<String>)
    ensures
        match said {
            Some(text) => !json && text@ == finished_text(result@),
            None => json,
        },
{
    if json {
        None
    } else if result.skipped() {
        let mut text: String = String::from_str("skipped (");
        text.append(reason_or_empty(result).as_str());
        text.append(")");
        Some(text)
    } else {
        let mut text: String = decimal_string(result.best_ms);
        text.append(" ms");
        Some(text)
    }
}

/// The reason for which a case was skipped, or the empty text.
pub fn reason_or_empty(result: &CaseResult) -> (reason: String)
    ensures
        reason@ == text_or_empty(result@.skip_reason),
{
    match &result.skip_reason {
        Some(reason) => reason.clone(),
        None => String::new(),
    }
}

/// Puts a report together. The number of runs is the one that was asked for.
pub fn report_of(
    tool_version: String,
    machine: MachineInfo,
    corpus: CorpusInfo,
    runs: usize,
    cases: Vec<CaseResult>,
) -> (report: Report)
    ensures
        report@ == (ReportView {
            tool_version: tool_version@,
            machine: machine@,
            corpus: corpus@,
            runs_per_case: runs as nat,
            cases: result_views(cases@),
        }),
{
    Report { tool_version, machine, corpus, runs_per_case: runs, cases }
}

// ---------------------------------------------------------------------------
// Laws
// ---------------------------------------------------------------------------

/// A corpus is recorded with its path, the commit that git printed without the white
/// space round it, and how many files are tracked and owned and how many lines its
/// CODEOWNERS file has. It is of smoke-test scale below a thousand tracked files.
pub proof fn law_corpus_is_recorded_as_counted(
    path: Seq<char>,
    revision: Seq<char>,
    files: nat,
    owned: nat,
    codeowners: Seq<char>,
)
    ensures
        corpus_record(path, Some(revision), files, owned, Some(codeowners)) == (CorpusView {
            path,
            git_commit: Some(trimmed(revision)),
            tracked_files: files,
            owned_files: owned,
            codeowners_lines: lines(codeowners).len(),
            smoke_scale: files < 1000,
        }),
        corpus_record(path, None, files, owned, Some(codeowners)).git_commit is None,
        corpus_record(path, None, files, owned, Some(codeowners)) == (CorpusView {
            git_commit: None,
            ..corpus_record(path, Some(revision), files, owned, Some(codeowners))
        }),
        corpus_record(path, Some(revision), files, owned, None) == (CorpusView {
            codeowners_lines: 0,
            ..corpus_record(path, Some(revision), files, owned, Some(codeowners))
        }),
        corpus_record(path, None, files, owned, None) == (CorpusView {
            git_commit: None,
            codeowners_lines: 0,
            ..corpus_record(path, Some(revision), files, owned, Some(codeowners))
        }),
{
}

/// The warning names the corpus and its size.
pub proof fn law_warning_names_the_corpus(corpus: CorpusView)
    ensures
        smoke_text(corpus) == "warning: corpus is "@ + corpus.path + " ("@ + decimal(
            corpus.tracked_files,
        )
            + " tracked files) — smoke-test scale.\n         Results are NOT comparable. Set CODEOWNERS_PERF_CORPUS to a large monorepo\n         (see perf/README.md) for real measurements.\n"@,
{
}

/// A case is announced by its name, and ends with its best time, or with the reason
/// for which it was skipped.
pub proof fn law_progress_tells_name_and_outcome(case: CaseView, result: CaseResultView)
    ensures
        started_text(case) == "  "@ + case.name + " ... "@,
        result.status != "skipped"@ ==> finished_text(result) == decimal(result.best_ms as nat)
            + " ms"@,
        result.status == "skipped"@ && result.skip_reason is Some ==> finished_text(result)
            == "skipped ("@ + result.skip_reason->0 + ")"@,
        result.status == "skipped"@ && result.skip_reason is None ==> finished_text(result)
            == "skipped ("@ + ")"@,
{
    let none = Seq::<char>::empty();
    assert("skipped ("@ + none =~= "skipped ("@);
}

} // verus!
