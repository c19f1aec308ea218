//! The report of a benchmark run.
use vstd::prelude::*;
use vstd::std_specs::cmp::PartialEqSpec;
use vstd::string::StringExecFns;

use crate::order::{precedes, strictly_sorted};
use crate::text::{count_string, decimal, optional_text, same_optional_text, same_text};

verus! {

/// Enough to notice that two reports came from different machines. Wall-clock
/// numbers are not portable across hardware, so comparing them is meaningless.
pub struct MachineInfo {
    pub os: String,
    pub arch: String,
    pub cpus: usize,
}

/// The mathematical content of a [`MachineInfo`].
pub struct MachineView {
    pub os: Seq<char>,
    pub arch: Seq<char>,
    pub cpus: nat,
}

impl View for MachineInfo {
    type V = MachineView;

    open spec fn view(&self) -> MachineView {
        MachineView { os: self.os@, arch: self.arch@, cpus: self.cpus as nat }
    }
}

/// What is printed for a machine.
pub open spec fn machine_text(machine: MachineView) -> Seq<char> {
    machine.os + "/"@ + machine.arch + " ("@ + decimal(machine.cpus) + " cpus)"@
}

impl MachineInfo {
    /// Operating system, architecture and number of processors on one line.
    pub fn describe(&self) -> (text: String)
        ensures
            text@ == machine_text(self@),
    {
        let mut text: String = self.os.clone();
        text.append("/");
        text.append(self.arch.as_str());
        text.append(" (");
        text.append(count_string(self.cpus).as_str());
        text.append(" cpus)");
        text
    }
}

impl PartialEq for MachineInfo {
    fn eq(&self, other: &Self) -> (same: bool) {
        same_text(self.os.as_str(), other.os.as_str()) && same_text(
            self.arch.as_str(),
            other.arch.as_str(),
        ) && self.cpus == other.cpus
    }
}

impl vstd::std_specs::cmp::PartialEqSpecImpl for MachineInfo {
    open spec fn obeys_eq_spec() -> bool {
        true
    }

    open spec fn eq_spec(&self, other: &Self) -> bool {
        self@ == other@
    }
}

impl Eq for MachineInfo {

}

impl Default for MachineInfo {
    /// The machine of a report that records none.
    fn default() -> (machine: Self)
        ensures
            machine@ == (MachineView { os: seq![], arch: seq![], cpus: 0 }),
    {
        MachineInfo { os: String::new(), arch: String::new(), cpus: 0 }
    }
}

/// The corpus that was measured.
pub struct CorpusInfo {
    pub path: String,
    pub git_commit: Option<String>,
    pub tracked_files: usize,
    pub owned_files: usize,
    pub codeowners_lines: usize,
    /// True when the corpus is too small for the numbers to mean anything.
    pub smoke_scale: bool,
}

/// The mathematical content of a [`CorpusInfo`].
pub struct CorpusView {
    pub path: Seq<char>,
    pub git_commit: Option<Seq<char>>,
    pub tracked_files: nat,
    pub owned_files: nat,
    pub codeowners_lines: nat,
    pub smoke_scale: bool,
}

impl View for CorpusInfo {
    type V = CorpusView;

    open spec fn view(&self) -> CorpusView {
        CorpusView {
            path: self.path@,
            git_commit: optional_text(self.git_commit),
            tracked_files: self.tracked_files as nat,
            owned_files: self.owned_files as nat,
            codeowners_lines: self.codeowners_lines as nat,
            smoke_scale: self.smoke_scale,
        }
    }
}

impl PartialEq for CorpusInfo {
    fn eq(&self, other: &Self) -> (same: bool) {
        same_text(self.path.as_str(), other.path.as_str()) && same_optional_text(
            &self.git_commit,
            &other.git_commit,
        ) && self.tracked_files == other.tracked_files && self.owned_files == other.owned_files
            && self.codeowners_lines == other.codeowners_lines && self.smoke_scale
            == other.smoke_scale
    }
}

impl vstd::std_specs::cmp::PartialEqSpecImpl for CorpusInfo {
    open spec fn obeys_eq_spec() -> bool {
        true
    }

    open spec fn eq_spec(&self, other: &Self) -> bool {
        self@ == other@
    }
}

impl Eq for CorpusInfo {

}

/// How long the spans of one name took together in one run.
pub struct Phase {
    pub name: String,
    pub ms: u128,
}

/// The mathematical content of a [`Phase`].
pub struct PhaseView {
    pub name: Seq<char>,
    pub ms: u128,
}

impl View for Phase {
    type V = PhaseView;

    open spec fn view(&self) -> PhaseView {
        PhaseView { name: self.name@, ms: self.ms }
    }
}

/// The content of a list of phases.
pub open spec fn phase_views(phases: Seq<Phase>) -> Seq<PhaseView> {
    phases.map_values(|p: Phase| p@)
}

/// The names in a list of phases.
pub open spec fn phase_names(phases: Seq<PhaseView>) -> Seq<Seq<char>> {
    phases.map_values(|p: PhaseView| p.name)
}

/// The phases stand in the order of their names, and no name occurs twice.
pub open spec fn phases_by_name(phases: Seq<PhaseView>) -> bool {
    strictly_sorted(phase_names(phases))
}

/// The outcome of one case: measured, or skipped for a reason.
pub struct CaseResult {
    pub name: String,
    pub status: String,
    pub skip_reason: Option<String>,
    pub file_count: usize,
    pub runs_ms: Vec<u128>,
    pub best_ms: u128,
    pub median_ms: u128,
    /// Span durations from the best run, by name, each name once. Nested spans are inclusive of
    /// children, so these do not sum to `best_ms`.
    pub phases_ms: Vec<Phase>,
    pub validation_errors: usize,
    pub io_errors: usize,
}

/// The mathematical content of a [`CaseResult`].
pub struct CaseResultView {
    pub name: Seq<char>,
    pub status: Seq<char>,
    pub skip_reason: Option<Seq<char>>,
    pub file_count: nat,
    pub runs_ms: Seq<u128>,
    pub best_ms: u128,
    pub median_ms: u128,
    pub phases_ms: Seq<PhaseView>,
    pub validation_errors: nat,
    pub io_errors: nat,
}

impl View for CaseResult {
    type V = CaseResultView;

    open spec fn view(&self) -> CaseResultView {
        CaseResultView {
            name: self.name@,
            status: self.status@,
            skip_reason: optional_text(self.skip_reason),
            file_count: self.file_count as nat,
            runs_ms: self.runs_ms@,
            best_ms: self.best_ms,
            median_ms: self.median_ms,
            phases_ms: phase_views(self.phases_ms@),
            validation_errors: self.validation_errors as nat,
            io_errors: self.io_errors as nat,
        }
    }
}

impl CaseResultView {
    /// The phases are listed by name, each once.
    pub open spec fn wf(self) -> bool {
        phases_by_name(self.phases_ms)
    }
}

/// The content of a list of outcomes.
pub open spec fn result_views(results: Seq<CaseResult>) -> Seq<CaseResultView> {
    results.map_values(|r: CaseResult| r@)
}

/// The status of a case that was measured.
pub open spec fn ok_status() -> Seq<char> {
    "ok"@
}

/// The status of a case that was not measured.
pub open spec fn skipped_status() -> Seq<char> {
    "skipped"@
}

/// The case was not measured.
pub open spec fn is_skipped(result: CaseResultView) -> bool {
    result.status == skipped_status()
}

impl CaseResult {
    /// Tells whether the case was skipped.
    pub fn skipped(&self) -> (yes: bool)
        ensures
            yes == is_skipped(self@),
    {
        same_text(self.status.as_str(), "skipped")
    }
}

/// Everything that one invocation measured.
pub struct Report {
    pub tool_version: String,
    pub machine: MachineInfo,
    pub corpus: CorpusInfo,
    pub runs_per_case: usize,
    pub cases: Vec<CaseResult>,
}

/// The mathematical content of a [`Report`].
pub struct ReportView {
    pub tool_version: Seq<char>,
    pub machine: MachineView,
    pub corpus: CorpusView,
    pub runs_per_case: nat,
    pub cases: Seq<CaseResultView>,
}

impl View for Report {
    type V = ReportView;

    open spec fn view(&self) -> ReportView {
        ReportView {
            tool_version: self.tool_version@,
            machine: self.machine@,
            corpus: self.corpus@,
            runs_per_case: self.runs_per_case as nat,
            cases: result_views(self.cases@),
        }
    }
}

// ---------------------------------------------------------------------------
// Laws
// ---------------------------------------------------------------------------

/// Of a machine its three properties are known, and two machines are the same where
/// all three are.
pub proof fn law_machines_are_told_apart_by_all_fields(a: MachineInfo, b: MachineInfo)
    ensures
        a@.os == a.os@,
        a@.arch == a.arch@,
        a@.cpus == a.cpus,
        a.eq_spec(&b) <==> a.os@ == b.os@ && a.arch@ == b.arch@ && a.cpus == b.cpus,
{
}

/// A machine is described by its operating system, its architecture and the number of
/// its processors, in this order.
pub proof fn law_description_names_all_of_a_machine(machine: MachineView)
    ensures
        machine_text(machine) == machine.os + "/"@ + machine.arch + " ("@ + decimal(machine.cpus)
            + " cpus)"@,
{
}

/// Of a corpus all its fields are known, and two are the same where all are.
pub proof fn law_corpora_are_told_apart_by_all_fields(a: CorpusInfo, b: CorpusInfo)
    ensures
        a@.path == a.path@,
        a@.git_commit is Some <==> a.git_commit is Some,
        a.git_commit is Some ==> a@.git_commit->0 == a.git_commit->0@,
        a@.tracked_files == a.tracked_files,
        a@.owned_files == a.owned_files,
        a@.codeowners_lines == a.codeowners_lines,
        a@.smoke_scale == a.smoke_scale,
        a.eq_spec(&b) <==> {
            &&& a.path@ == b.path@
            &&& a@.git_commit == b@.git_commit
            &&& a.tracked_files == b.tracked_files
            &&& a.owned_files == b.owned_files
            &&& a.codeowners_lines == b.codeowners_lines
            &&& a.smoke_scale == b.smoke_scale
        },
{
}

/// Of a phase its name and its time are known, of a list each phase, and the names in
/// their order.
pub proof fn law_phase_views_are_the_fields(phase: Phase, list: Seq<Phase>, views: Seq<PhaseView>)
    ensures
        phase@.name == phase.name@,
        phase@.ms == phase.ms,
        phase_views(list).len() == list.len(),
        forall|i: int| 0 <= i < list.len() ==> #[trigger] phase_views(list)[i] == list[i]@,
        phase_names(views).len() == views.len(),
        forall|i: int| 0 <= i < views.len() ==> #[trigger] phase_names(views)[i] == views[i].name,
{
}

/// Phases are listed by name where each name comes before all later ones; results and
/// samples are held to that.
pub proof fn law_phases_by_name_are_in_order(phases: Seq<PhaseView>, result: CaseResultView)
    ensures
        phases_by_name(phases) <==> forall|i: int, j: int|
            0 <= i < j < phases.len() ==> precedes(
                (#[trigger] phases[i]).name,
                (#[trigger] phases[j]).name,
            ),
        result.wf() <==> phases_by_name(result.phases_ms),
{
    let names = phase_names(phases);
    assert forall|i: int| 0 <= i < phases.len() implies #[trigger] names[i] == phases[i].name by {}
    if phases_by_name(phases) {
        assert forall|i: int, j: int| 0 <= i < j < phases.len() implies precedes(
            (#[trigger] phases[i]).name,
            (#[trigger] phases[j]).name,
        ) by {
            assert(precedes(names[i], names[j]));
        }
    }
    if forall|i: int, j: int|
        0 <= i < j < phases.len() ==> precedes(
            (#[trigger] phases[i]).name,
            (#[trigger] phases[j]).name,
        ) {
        assert forall|i: int, j: int| 0 <= i < j < names.len() implies precedes(
            #[trigger] names[i],
            #[trigger] names[j],
        ) by {
            assert(precedes(phases[i].name, phases[j].name));
        }
    }
}

/// Of an outcome all its fields are known, and of a list each outcome.
pub proof fn law_result_views_are_the_fields(result: CaseResult, list: Seq<CaseResult>)
    ensures
        result@.name == result.name@,
        result@.status == result.status@,
        result@.skip_reason is Some <==> result.skip_reason is Some,
        result.skip_reason is Some ==> result@.skip_reason->0 == result.skip_reason->0@,
        result@.file_count == result.file_count,
        result@.runs_ms == result.runs_ms@,
        result@.best_ms == result.best_ms,
        result@.median_ms == result.median_ms,
        result@.phases_ms == phase_views(result.phases_ms@),
        result@.validation_errors == result.validation_errors,
        result@.io_errors == result.io_errors,
        result_views(list).len() == list.len(),
        forall|i: int| 0 <= i < list.len() ==> #[trigger] result_views(list)[i] == list[i]@,
{
}

/// A case was skipped where its status says so, and the status of a measured case says
/// something else.
pub proof fn law_status_tells_skipped_from_measured(result: CaseResultView)
    ensures
        is_skipped(result) <==> result.status == "skipped"@,
        ok_status() == "ok"@,
        ok_status() != skipped_status(),
        skipped_status() == "skipped"@,
{
    reveal_strlit("ok");
    reveal_strlit("skipped");
    assert("ok"@.len() != "skipped"@.len());
}

/// Of a report all its fields are known.
pub proof fn law_report_view_is_the_fields(report: Report)
    ensures
        report@.tool_version == report.tool_version@,
        report@.machine == report.machine@,
        report@.corpus == report.corpus@,
        report@.runs_per_case == report.runs_per_case,
        report@.cases == result_views(report.cases@),
{
}

} // verus!
