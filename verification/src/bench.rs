//! The benchmark as a whole: one case after the other, each planned, run as often as
//! it has to be, and reported. What is to be done next is decided here; doing it, and
//! timing it, is left to the caller.
use vstd::prelude::*;

use crate::cases::{
    case_views, invocation_of, run_case, Case, CaseView, Invocation, InvocationView, Kind,
};
use crate::measure::{
    is_sample, measured_result, plan, sample_of, schedule, skipped_result, steps, timed_runs, Plan,
    Sample, SampleView, Session, Step,
};
use crate::phases::{
    has_span, reset_phases, time_of, with_spans, PhaseTotals, SpanView, NANOS_PER_MS,
};
use crate::report::{phase_names, result_views, CaseResult, CaseResultView};
use crate::text::{decimal, texts};

verus! {

// ---------------------------------------------------------------------------
// States
// ---------------------------------------------------------------------------

/// How far the present case is.
pub enum Stage {
    /// The next case has not been announced yet.
    Ready,
    /// The next case runs on these files. Before each timed run the phases are cleared.
    Running { files: Vec<String>, session: Session, cleared: bool },
    /// The last result has not been told yet.
    Concluded,
}

/// The mathematical content of a [`Stage`].
pub enum StageView {
    Ready,
    Running {
        files: Seq<Seq<char>>,
        remaining: Seq<Step>,
        samples: Seq<SampleView>,
        cleared: bool,
    },
    Concluded,
}

/// A benchmark while it runs.
pub struct Bench {
    cases: Vec<Case>,
    pool: Vec<String>,
    runs: usize,
    warmup: usize,
    results: Vec<CaseResult>,
    stage: Stage,
}

/// The mathematical content of a [`Bench`].
pub struct BenchView {
    pub cases: Seq<CaseView>,
    pub pool: Seq<Seq<char>>,
    pub runs: nat,
    pub warmup: nat,
    pub results: Seq<CaseResultView>,
    pub stage: StageView,
}

impl View for Stage {
    type V = StageView;

    open spec fn view(&self) -> StageView {
        match self {
            Stage::Ready => StageView::Ready,
            Stage::Running { files, session, cleared } => StageView::Running {
                files: texts(files@),
                remaining: session.remaining(),
                samples: session.samples(),
                cleared: *cleared,
            },
            Stage::Concluded => StageView::Concluded,
        }
    }
}

impl View for Bench {
    type V = BenchView;

    closed spec fn view(&self) -> BenchView {
        BenchView {
            cases: case_views(self.cases@),
            pool: texts(self.pool@),
            runs: self.runs as nat,
            warmup: self.warmup as nat,
            results: result_views(self.results@),
            stage: self.stage@,
        }
    }
}

/// A benchmark before its first case.
pub open spec fn initial(
    cases: Seq<CaseView>,
    pool: Seq<Seq<char>>,
    runs: nat,
    warmup: nat,
) -> BenchView {
    BenchView { cases, pool, runs, warmup, results: seq![], stage: StageView::Ready }
}

/// The case that comes next or is running.
pub open spec fn present_case(bench: BenchView) -> CaseView {
    bench.cases[bench.results.len() as int]
}

/// The result belongs to the case: it says that the case was skipped exactly where
/// the pool is too small, and else sums up as many samples as there are timed runs.
pub open spec fn is_outcome(
    case: CaseView,
    available: nat,
    runs: nat,
    result: CaseResultView,
) -> bool {
    if case.files > available {
        result == skipped_result(case, available)
    } else {
        exists|samples: Seq<SampleView>|
            samples.len() == timed_runs(runs) && result == #[trigger] measured_result(
                case,
                samples,
            )
    }
}

/// What holds of every benchmark at all times.
pub open spec fn consistent(bench: BenchView) -> bool {
    &&& bench.results.len() <= bench.cases.len()
    &&& forall|i: int|
        0 <= i < bench.results.len() ==> is_outcome(
            bench.cases[i],
            bench.pool.len(),
            bench.runs,
            #[trigger] bench.results[i],
        )
    &&& match bench.stage {
        StageView::Ready => true,
        StageView::Running { files, remaining, samples, cleared } => {
            let case = present_case(bench);
            &&& bench.results.len() < bench.cases.len()
            &&& case.files <= bench.pool.len()
            &&& files == bench.pool.take(case.files as int)
            &&& samples.len() < timed_runs(bench.runs)
            &&& remaining.len() <= bench.warmup + timed_runs(bench.runs)
            &&& cleared ==> remaining[0] == Step::Timed
            &&& exists|warmups: nat|
                remaining == #[trigger] steps(
                    warmups,
                    (timed_runs(bench.runs) - samples.len()) as nat,
                )
        },
        StageView::Concluded => bench.results.len() > 0,
    }
}

// ---------------------------------------------------------------------------
// Actions
// ---------------------------------------------------------------------------

/// What the caller has to do next.
pub enum Action {
    /// Announce the case that comes next.
    Announce(Case),
    /// Run this once, without timing.
    Warmup(Invocation),
    /// Have the phases cleared, for the timed run that comes next.
    Clear,
    /// Run this once and time it.
    Timed(Invocation),
    /// Tell how the last case ended.
    Conclude,
    /// Nothing: all cases are done.
    Done,
}

/// The mathematical content of an [`Action`].
pub enum ActionView {
    Announce(CaseView),
    Warmup(InvocationView),
    Clear,
    Timed(InvocationView),
    Conclude,
    Done,
}

impl View for Action {
    type V = ActionView;

    open spec fn view(&self) -> ActionView {
        match self {
            Action::Announce(case) => ActionView::Announce(case@),
            Action::Warmup(invocation) => ActionView::Warmup(invocation@),
            Action::Clear => ActionView::Clear,
            Action::Timed(invocation) => ActionView::Timed(invocation@),
            Action::Conclude => ActionView::Conclude,
            Action::Done => ActionView::Done,
        }
    }
}

/// What has to be done next. The runs of a case are those of its schedule, on the
/// files that were planned for it, and a timed run comes right after the phases were
/// cleared for it.
pub open spec fn action_of(bench: BenchView) -> ActionView {
    match bench.stage {
        StageView::Ready => if bench.results.len() < bench.cases.len() {
            ActionView::Announce(present_case(bench))
        } else {
            ActionView::Done
        },
        StageView::Running { files, remaining, cleared, .. } => {
            let invocation = invocation_of(present_case(bench), files);
            match remaining[0] {
                Step::Warmup => ActionView::Warmup(invocation),
                Step::Timed => if cleared {
                    ActionView::Timed(invocation)
                } else {
                    ActionView::Clear
                },
            }
        },
        StageView::Concluded => ActionView::Conclude,
    }
}

/// The invocation is a run of the case on the pool: it runs the command of the case,
/// and where that takes files, they are as many as the case asks for, the first ones of
/// the pool.
pub open spec fn is_run_of(invocation: Invocation, case: CaseView, pool: Seq<Seq<char>>) -> bool {
    match invocation {
        Invocation::Generate { no_cache, stage } => {
            &&& case.kind == Kind::Generate
            &&& no_cache == case.no_cache
            &&& !stage
        },
        Invocation::Validate { no_cache, files } => {
            &&& case.kind == Kind::Validate
            &&& no_cache == case.no_cache
            &&& files@.len() == case.files
            &&& case.files <= pool.len()
            &&& forall|i: int| 0 <= i < case.files ==> (#[trigger] files@[i])@ == pool[i]
        },
        Invocation::GenerateAndValidate { no_cache, files, stage } => {
            &&& case.kind == Kind::GenerateAndValidate
            &&& no_cache == case.no_cache
            &&& files@.len() == case.files
            &&& case.files <= pool.len()
            &&& forall|i: int| 0 <= i < case.files ==> (#[trigger] files@[i])@ == pool[i]
            &&& !stage
        },
    }
}

/// The benchmark after a case was announced: it is skipped, or its runs begin.
pub open spec fn after_announce(bench: BenchView) -> BenchView {
    let case = present_case(bench);
    if case.files > bench.pool.len() {
        BenchView {
            results: bench.results.push(skipped_result(case, bench.pool.len())),
            stage: StageView::Concluded,
            ..bench
        }
    } else {
        BenchView {
            stage: StageView::Running {
                files: bench.pool.take(case.files as int),
                remaining: schedule(bench.runs, bench.warmup),
                samples: seq![],
                cleared: false,
            },
            ..bench
        }
    }
}

/// The benchmark after a warmup.
pub open spec fn after_warmup(bench: BenchView) -> BenchView {
    BenchView {
        stage: StageView::Running {
            files: bench.stage->files,
            remaining: bench.stage->remaining.drop_first(),
            samples: bench.stage->samples,
            cleared: false,
        },
        ..bench
    }
}

/// The benchmark after the phases were cleared for a timed run.
pub open spec fn after_clear(bench: BenchView) -> BenchView {
    BenchView {
        stage: StageView::Running {
            files: bench.stage->files,
            remaining: bench.stage->remaining,
            samples: bench.stage->samples,
            cleared: true,
        },
        ..bench
    }
}

/// The benchmark after a timed run: the last one of a case concludes it.
pub open spec fn after_timed(bench: BenchView, sample: SampleView) -> BenchView {
    let remaining = bench.stage->remaining.drop_first();
    let samples = bench.stage->samples.push(sample);
    if remaining.len() == 0 {
        BenchView {
            results: bench.results.push(measured_result(present_case(bench), samples)),
            stage: StageView::Concluded,
            ..bench
        }
    } else {
        BenchView {
            stage: StageView::Running {
                files: bench.stage->files,
                remaining,
                samples,
                cleared: false,
            },
            ..bench
        }
    }
}

/// The benchmark after the result of a case was told.
pub open spec fn after_conclude(bench: BenchView) -> BenchView {
    BenchView { stage: StageView::Ready, ..bench }
}

impl Bench {
    /// The parts of the state fit together.
    pub closed spec fn wf(&self) -> bool {
        &&& consistent(self@)
        &&& phases_in_order(self@)
        &&& match self.stage {
            Stage::Running { files, session, .. } => session.wf() && session.planned() == timed_runs(
                self.runs as nat,
            ),
            _ => true,
        }
    }

    /// A benchmark before its first case.
    pub fn new(cases: Vec<Case>, pool: Vec<String>, runs: usize, warmup: usize) -> (bench: Self)
        ensures
            bench.wf(),
            consistent(bench@),
            bench@ == initial(case_views(cases@), texts(pool@), runs as nat, warmup as nat),
            bench@.cases == case_views(cases@),
            bench@.pool == texts(pool@),
            bench@.runs == runs,
            bench@.warmup == warmup,
            bench@.results.len() == 0,
            bench@.stage is Ready,
    {
        let bench: Bench = Bench {
            cases,
            pool,
            runs,
            warmup,
            results: Vec::new(),
            stage: Stage::Ready,
        };
        assert(bench@.results =~= seq![]);
        bench
    }

    /// Decides what has to be done next.
    pub fn next_action(&self) -> (action: Action)
        requires
            self.wf(),
        ensures
            action@ == action_of(self@),
            match action {
                Action::Announce(case) => {
                    &&& self@.results.len() < self@.cases.len()
                    &&& case@ == self@.cases[self@.results.len() as int]
                },
                Action::Warmup(invocation) => is_run_of(
                    invocation,
                    self@.cases[self@.results.len() as int],
                    self@.pool,
                ),
                Action::Timed(invocation) => is_run_of(
                    invocation,
                    self@.cases[self@.results.len() as int],
                    self@.pool,
                ),
                Action::Clear => true,
                Action::Conclude => self@.results.len() > 0,
                Action::Done => self@.results.len() == self@.cases.len(),
            },
    {
        match &self.stage {
            Stage::Ready => {
                if self.results.len() < self.cases.len() {
                    assert(self@.cases[self.results@.len() as int]
                        == self.cases@[self.results@.len() as int]@);
                    Action::Announce(self.cases[self.results.len()])
                } else {
                    Action::Done
                }
            },
            Stage::Running { files, session, cleared } => {
                proof {
                    lemma_running_has_steps(self@);
                    assert(self@.cases[self.results@.len() as int]
                        == self.cases@[self.results@.len() as int]@);
                }
                let invocation: Invocation = run_case(&self.cases[self.results.len()], files);
                proof {
                    lemma_invocation_is_run_of(
                        invocation,
                        self.cases@[self.results@.len() as int],
                        *files,
                        self@.pool,
                    );
                }
                match session.next_step() {
                    Some(Step::Warmup) => Action::Warmup(invocation),
                    _ => if *cleared {
                        Action::Timed(invocation)
                    } else {
                        Action::Clear
                    },
                }
            },
            Stage::Concluded => Action::Conclude,
        }
    }

    /// Notes that the next case was announced.
    pub fn announced(&mut self)
        requires
            old(self).wf(),
            action_of(old(self)@) is Announce,
        ensures
            final(self).wf(),
            consistent(final(self)@),
            final(self)@ == after_announce(old(self)@),
    {
        proof {
            law_actions_keep_consistency(self@, arbitrary());
            lemma_unchanged_samples_stay_in_order(self@);
        }
        let ghost before = self@;
        let ghost at = self.results@.len() as int;
        let case: Case = self.cases[self.results.len()];
        assert(before.cases[at] == case@);
        match plan(&case, &self.pool) {
            Plan::Skip(result) => {
                self.results.push(result);
                self.stage = Stage::Concluded;
                assert(self@.results =~= before.results.push(result@));
            },
            Plan::Run(files) => {
                let session: Session = Session::begin(self.runs, self.warmup);
                self.stage = Stage::Running { files, session, cleared: false };
            },
        }
        assert(self@ == after_announce(before));
    }

    /// Notes that a warmup was made.
    pub fn warmed_up(&mut self)
        requires
            old(self).wf(),
            action_of(old(self)@) is Warmup,
        ensures
            final(self).wf(),
            consistent(final(self)@),
            final(self)@ == after_warmup(old(self)@),
    {
        proof {
            law_actions_keep_consistency(self@, arbitrary());
            lemma_running_has_steps(self@);
            lemma_unchanged_samples_stay_in_order(self@);
        }
        match &mut self.stage {
            Stage::Running { files: _, session, cleared } => {
                session.warmed_up();
                *cleared = false;
            },
            _ => {},
        }
    }

    /// Clears the phases for the timed run that comes next, so that nothing of what
    /// closed before it is left in them.
    pub fn clear(&mut self, totals: &mut PhaseTotals)
        requires
            old(self).wf(),
            action_of(old(self)@) is Clear,
        ensures
            final(self).wf(),
            consistent(final(self)@),
            final(self)@ == after_clear(old(self)@),
            final(totals).wf(),
            final(totals)@ == Map::<Seq<char>, nat>::empty(),
    {
        proof {
            law_actions_keep_consistency(self@, arbitrary());
            lemma_unchanged_samples_stay_in_order(self@);
        }
        reset_phases(totals);
        match &mut self.stage {
            Stage::Running { files: _, session: _, cleared } => {
                *cleared = true;
            },
            _ => {},
        }
    }

    /// Notes what a timed run gave: how long it took, what it found, and the phases
    /// that have accumulated since they were cleared for it.
    pub fn timed(
        &mut self,
        totals: &PhaseTotals,
        elapsed_ms: u128,
        validation_errors: usize,
        io_errors: usize,
    )
        requires
            old(self).wf(),
            action_of(old(self)@) is Timed,
            totals.wf(),
        ensures
            final(self).wf(),
            consistent(final(self)@),
            exists|sample: SampleView| #[trigger]
                is_sample(
                    sample,
                    totals@,
                    elapsed_ms,
                    validation_errors as nat,
                    io_errors as nat,
                ) && final(self)@ == after_timed(old(self)@, sample),
    {
        let sample: Sample = sample_of(totals, elapsed_ms, validation_errors, io_errors);
        let ghost taken = sample@;
        proof {
            law_actions_keep_consistency(self@, taken);
            law_actions_keep_phases_in_order(self@, taken);
            lemma_running_has_steps(self@);
        }
        let ghost before = self@;
        let ghost at = self.results@.len() as int;
        let case: Case = self.cases[self.results.len()];
        assert(before.cases[at] == case@);
        let mut ended: Option<CaseResult> = None;
        match &mut self.stage {
            Stage::Running { files: _, session, cleared } => {
                session.timed(sample);
                *cleared = false;
                if session.next_step().is_none() {
                    ended = Some(session.finish(&case));
                }
            },
            _ => {},
        }
        if let Some(result) = ended {
            self.results.push(result);
            self.stage = Stage::Concluded;
            assert(self@.results =~= before.results.push(result@));
        }
        assert(self@ == after_timed(before, taken));
    }

    /// The result of the case that ended last.
    pub fn last_result(&self) -> (result: &CaseResult)
        requires
            self.wf(),
            action_of(self@) is Conclude,
        ensures
            result@ == self@.results.last(),
    {
        assert(self@.results.last() == self.results@[self.results@.len() - 1]@);
        &self.results[self.results.len() - 1]
    }

    /// Notes that the result of the last case was told.
    pub fn concluded(&mut self)
        requires
            old(self).wf(),
            action_of(old(self)@) is Conclude,
        ensures
            final(self).wf(),
            consistent(final(self)@),
            final(self)@ == after_conclude(old(self)@),
    {
        self.stage = Stage::Ready;
    }

    /// The results of all cases.
    pub fn finish(self) -> (results: Vec<CaseResult>)
        requires
            self.wf(),
            action_of(self@) is Done,
        ensures
            result_views(results@) == self@.results,
            results@.len() == self@.cases.len(),
            forall|i: int|
                0 <= i < results@.len() ==> is_outcome(
                    self@.cases[i],
                    self@.pool.len(),
                    self@.runs,
                    (#[trigger] results@[i])@,
                ) && results@[i]@.wf(),
            forall|i: int|
                0 <= i < results@.len() ==> (#[trigger] results@[i]).name@ == self@.cases[i].name,
            forall|i: int|
                0 <= i < results@.len() && self@.cases[i].files > self@.pool.len() ==> (
                #[trigger] results@[i]).status@ == "skipped"@ && results@[i].runs_ms@.len() == 0
                    && results@[i].skip_reason is Some,
            forall|i: int|
                0 <= i < results@.len() && self@.cases[i].files <= self@.pool.len() ==> (
                #[trigger] results@[i]).status@ == "ok"@ && results@[i].file_count
                    == self@.cases[i].files && results@[i].runs_ms@.len() == if self@.runs == 0 {
                    1
                } else {
                    self@.runs
                },
    {
        proof {
            assert forall|i: int| 0 <= i < self.results@.len() implies is_outcome(
                self@.cases[i],
                self@.pool.len(),
                self@.runs,
                (#[trigger] self.results@[i])@,
            ) && self.results@[i]@.wf() by {
                assert(self@.results[i] == self.results@[i]@);
            }
            assert forall|i: int| 0 <= i < self.results@.len() implies {
                let result = #[trigger] self.results@[i];
                &&& result.name@ == self@.cases[i].name
                &&& self@.cases[i].files > self@.pool.len() ==> result.status@ == "skipped"@
                    && result.runs_ms@.len() == 0 && result.skip_reason is Some
                &&& self@.cases[i].files <= self@.pool.len() ==> result.status@ == "ok"@
                    && result.file_count == self@.cases[i].files && result.runs_ms@.len() == if self@.runs
                    == 0 {
                    1
                } else {
                    self@.runs
                }
            } by {
                law_outcome_tells_what_was_done(
                    self@.cases[i],
                    self@.pool.len(),
                    self@.runs,
                    self.results@[i]@,
                );
            }
        }
        self.results
    }
}

// ---------------------------------------------------------------------------
// Laws
// ---------------------------------------------------------------------------

proof fn lemma_invocation_is_run_of(
    invocation: Invocation,
    case: Case,
    files: Vec<String>,
    pool: Seq<Seq<char>>,
)
    requires
        invocation@ == invocation_of(case@, texts(files@)),
        case.files <= pool.len(),
        texts(files@) == pool.take(case.files as int),
    ensures
        is_run_of(invocation, case@, pool),
{
    let given = texts(files@);
    assert(given.len() == case.files);
    assert(forall|i: int| 0 <= i < case.files ==> #[trigger] given[i] == pool[i]);
    match invocation {
        Invocation::Generate { .. } => {},
        Invocation::Validate { files: handed, .. } => {
            assert(texts(handed@) == given);
            assert(handed@.len() == texts(handed@).len());
            assert forall|i: int| 0 <= i < case.files implies (#[trigger] handed@[i])@
                == pool[i] by {
                assert(texts(handed@)[i] == handed@[i]@);
                assert(given[i] == pool[i]);
            }
        },
        Invocation::GenerateAndValidate { files: handed, .. } => {
            assert(texts(handed@) == given);
            assert(handed@.len() == texts(handed@).len());
            assert forall|i: int| 0 <= i < case.files implies (#[trigger] handed@[i])@
                == pool[i] by {
                assert(texts(handed@)[i] == handed@[i]@);
                assert(given[i] == pool[i]);
            }
        },
    }
}

/// A run of a case hands on exactly as many files as the case asks for, the first ones
/// of the pool, whatever the command; only `generate` takes none.
pub proof fn law_run_has_the_files_the_case_asks_for(
    invocation: Invocation,
    case: CaseView,
    pool: Seq<Seq<char>>,
)
    requires
        is_run_of(invocation, case, pool),
    ensures
        case.kind == Kind::Generate <==> invocation is Generate,
        case.kind == Kind::Validate <==> invocation is Validate,
        case.kind == Kind::GenerateAndValidate <==> invocation is GenerateAndValidate,
        invocation matches Invocation::Generate { no_cache, stage } ==> no_cache == case.no_cache
            && !stage,
        invocation matches Invocation::Validate { no_cache, files } ==> no_cache == case.no_cache
            && files@.len() == case.files && (forall|i: int|
            0 <= i < files@.len() ==> (#[trigger] files@[i])@ == pool[i]),
        invocation matches Invocation::GenerateAndValidate { no_cache, files, stage } ==> no_cache
            == case.no_cache && !stage && files@.len() == case.files && (forall|i: int|
            0 <= i < files@.len() ==> (#[trigger] files@[i])@ == pool[i]),
{
}

/// The outcome of a case tells what was done: a case that needs more files than there
/// are was skipped, and any other was measured on all the files it asks for, as often
/// as was asked, or once where no run was asked for.
pub proof fn law_outcome_tells_what_was_done(
    case: CaseView,
    available: nat,
    runs: nat,
    result: CaseResultView,
)
    requires
        is_outcome(case, available, runs, result),
    ensures
        result.name == case.name,
        case.files > available ==> {
            &&& result.status == "skipped"@
            &&& result.runs_ms.len() == 0
            &&& result.skip_reason == Some(
                "needs "@ + decimal(case.files) + " owned files, corpus has "@ + decimal(available),
            )
        },
        case.files <= available ==> {
            &&& result.status == "ok"@
            &&& result.skip_reason is None
            &&& result.file_count == case.files
            &&& runs >= 1 ==> result.runs_ms.len() == runs
            &&& runs == 0 ==> result.runs_ms.len() == 1
        },
{
    if case.files <= available {
        let samples = choose|samples: Seq<SampleView>|
            samples.len() == timed_runs(runs) && result == #[trigger] measured_result(
                case,
                samples,
            );
        crate::measure::law_result_sums_up_all_runs(case, samples);
    }
}

/// The next action is the next thing to do: a case that waits is announced, a case that
/// runs goes on with the first of its remaining steps, after the phases were cleared if
/// that is a timed run, a case that ended is told of, and then nothing is left.
pub proof fn law_next_action_follows_the_state(bench: BenchView)
    ensures
        bench.stage is Ready && bench.results.len() < bench.cases.len() ==> action_of(bench)
            == ActionView::Announce(bench.cases[bench.results.len() as int]),
        bench.stage is Ready && bench.results.len() >= bench.cases.len() ==> action_of(bench)
            is Done,
        bench.stage is Concluded ==> action_of(bench) is Conclude,
        bench.stage matches StageView::Running { files, remaining, cleared, .. } ==> {
            let invocation = invocation_of(bench.cases[bench.results.len() as int], files);
            &&& remaining[0] == Step::Warmup ==> action_of(bench) == ActionView::Warmup(invocation)
            &&& remaining[0] == Step::Timed && !cleared ==> action_of(bench) is Clear
            &&& remaining[0] == Step::Timed && cleared ==> action_of(bench) == ActionView::Timed(
                invocation,
            )
        },
{
}

/// What is known of an action is which it is, and the case or the run it is about.
pub proof fn law_action_views_tell_the_actions_apart(case: Case, invocation: Invocation)
    ensures
        Action::Announce(case)@ == ActionView::Announce(case@),
        Action::Warmup(invocation)@ == ActionView::Warmup(invocation@),
        Action::Clear@ == ActionView::Clear,
        Action::Timed(invocation)@ == ActionView::Timed(invocation@),
        Action::Conclude@ == ActionView::Conclude,
        Action::Done@ == ActionView::Done,
{
}

/// A benchmark begins with the cases, the pool and the numbers it is given, before its
/// first case, and these never change.
pub proof fn law_benchmark_keeps_what_it_was_given(
    bench: BenchView,
    sample: SampleView,
    cases: Seq<CaseView>,
    pool: Seq<Seq<char>>,
    runs: nat,
    warmup: nat,
)
    ensures
        initial(cases, pool, runs, warmup) == (BenchView {
            cases,
            pool,
            runs,
            warmup,
            results: seq![],
            stage: StageView::Ready,
        }),
        forall|next: BenchView|
            next == after_announce(bench) || next == after_warmup(bench) || next == after_clear(
                bench,
            ) || next == after_timed(bench, sample) || next == after_conclude(bench)
                ==> #[trigger] next.cases == bench.cases && next.pool == bench.pool && next.runs
                == bench.runs && next.warmup == bench.warmup,
{
}

/// Announcing a case skips it, with its reason, where it needs more files than there
/// are. Else its runs begin, on the first files of the pool, as many as it asks for:
/// the warmups that were asked for, then the timed runs.
pub proof fn law_announced_case_is_skipped_or_begins(bench: BenchView)
    requires
        bench.results.len() < bench.cases.len(),
    ensures
        ({
            let case = bench.cases[bench.results.len() as int];
            let next = after_announce(bench);
            if case.files > bench.pool.len() {
                &&& next.stage is Concluded
                &&& next.results == bench.results.push(skipped_result(case, bench.pool.len()))
            } else {
                &&& next.stage is Running
                &&& next.results == bench.results
                &&& next.stage->files.len() == case.files
                &&& forall|i: int|
                    0 <= i < case.files ==> #[trigger] next.stage->files[i] == bench.pool[i]
                &&& next.stage->samples.len() == 0
                &&& !next.stage->cleared
                &&& next.stage->remaining.len() == bench.warmup + if bench.runs == 0 {
                    1
                } else {
                    bench.runs
                }
                &&& forall|i: int|
                    0 <= i < next.stage->remaining.len() ==> #[trigger] next.stage->remaining[i]
                        == if i < bench.warmup {
                        Step::Warmup
                    } else {
                        Step::Timed
                    }
            }
        }),
{
}

/// A warmup leaves nothing behind but that it is done. So does the clearing of the
/// phases, and so does the telling of a result.
pub proof fn law_untimed_actions_report_nothing(bench: BenchView)
    requires
        bench.stage is Running,
    ensures
        after_warmup(bench).results == bench.results,
        after_warmup(bench).stage is Running,
        after_warmup(bench).stage->files == bench.stage->files,
        after_warmup(bench).stage->remaining == bench.stage->remaining.drop_first(),
        after_warmup(bench).stage->samples == bench.stage->samples,
        !after_warmup(bench).stage->cleared,
        after_clear(bench).results == bench.results,
        after_clear(bench).stage is Running,
        after_clear(bench).stage->files == bench.stage->files,
        after_clear(bench).stage->remaining == bench.stage->remaining,
        after_clear(bench).stage->samples == bench.stage->samples,
        after_clear(bench).stage->cleared,
        forall|any: BenchView|
            (#[trigger] after_conclude(any)).results == any.results && after_conclude(
                any,
            ).stage is Ready,
{
}

/// A timed run adds its sample behind the earlier ones. The last one of a case adds its
/// result behind the earlier ones, which sums up all samples of the case.
pub proof fn law_timed_run_adds_its_sample(bench: BenchView, sample: SampleView)
    requires
        bench.stage is Running,
        bench.stage->remaining.len() > 0,
    ensures
        ({
            let samples = bench.stage->samples.push(sample);
            let next = after_timed(bench, sample);
            if bench.stage->remaining.len() == 1 {
                &&& next.stage is Concluded
                &&& next.results == bench.results.push(
                    measured_result(bench.cases[bench.results.len() as int], samples),
                )
            } else {
                &&& next.stage is Running
                &&& next.results == bench.results
                &&& next.stage->files == bench.stage->files
                &&& next.stage->remaining == bench.stage->remaining.drop_first()
                &&& next.stage->samples == samples
                &&& !next.stage->cleared
            }
        }),
{
}

proof fn lemma_running_has_steps(bench: BenchView)
    requires
        consistent(bench),
        bench.stage is Running,
    ensures
        bench.stage->remaining.len() > 0,
        bench.stage->remaining.len() == 1 ==> bench.stage->remaining[0] == Step::Timed
            && bench.stage->samples.len() + 1 == timed_runs(bench.runs),
{
    let left = (timed_runs(bench.runs) - bench.stage->samples.len()) as nat;
    let warmups = choose|warmups: nat| bench.stage->remaining == #[trigger] steps(warmups, left);
    assert(bench.stage->remaining == steps(warmups, left));
}

/// A benchmark begins consistent, and every action keeps it so: a result always
/// belongs to its case, and a case that runs has exactly the files it asks for.
pub proof fn law_actions_keep_consistency(bench: BenchView, sample: SampleView)
    requires
        consistent(bench),
    ensures
        consistent(initial(bench.cases, bench.pool, bench.runs, bench.warmup)),
        action_of(bench) is Announce ==> consistent(after_announce(bench)),
        action_of(bench) is Warmup ==> consistent(after_warmup(bench)),
        action_of(bench) is Clear ==> consistent(after_clear(bench)),
        action_of(bench) is Timed ==> consistent(after_timed(bench, sample)),
        action_of(bench) is Conclude ==> consistent(after_conclude(bench)),
{
    if action_of(bench) is Announce {
        lemma_announce_keeps_consistency(bench);
    }
    if action_of(bench) is Warmup {
        lemma_warmup_keeps_consistency(bench);
    }
    if action_of(bench) is Clear {
        lemma_running_has_steps(bench);
    }
    if action_of(bench) is Timed {
        lemma_timed_keeps_consistency(bench, sample);
    }
}

proof fn lemma_announce_keeps_consistency(bench: BenchView)
    requires
        consistent(bench),
        action_of(bench) is Announce,
    ensures
        consistent(after_announce(bench)),
{
    let case = present_case(bench);
    let next = after_announce(bench);
    if case.files > bench.pool.len() {
        lemma_results_extend(bench, next);
    } else {
        assert(next.stage->samples.len() < timed_runs(next.runs));
        assert(next.stage->remaining == steps(
            next.warmup,
            (timed_runs(next.runs) - next.stage->samples.len()) as nat,
        ));
        assert(next.results == bench.results);
    }
}

proof fn lemma_warmup_keeps_consistency(bench: BenchView)
    requires
        consistent(bench),
        action_of(bench) is Warmup,
    ensures
        consistent(after_warmup(bench)),
{
    let left = (timed_runs(bench.runs) - bench.stage->samples.len()) as nat;
    let warmups = choose|warmups: nat| bench.stage->remaining == #[trigger] steps(warmups, left);
    assert(bench.stage->remaining == steps(warmups, left));
    assert(warmups > 0);
    assert(bench.stage->remaining.drop_first() =~= steps((warmups - 1) as nat, left));
}

proof fn lemma_timed_keeps_consistency(bench: BenchView, sample: SampleView)
    requires
        consistent(bench),
        action_of(bench) is Timed,
    ensures
        consistent(after_timed(bench, sample)),
{
    let timed = timed_runs(bench.runs);
    let samples = bench.stage->samples;
    let left = (timed - samples.len()) as nat;
    lemma_only_timed_runs_are_left(bench);
    assert(bench.stage->remaining.drop_first() =~= steps(0, (left - 1) as nat));
    let next = after_timed(bench, sample);
    if next.stage is Concluded {
        assert(samples.push(sample).len() == timed);
        assert(next.results.last() == measured_result(present_case(bench), samples.push(sample)));
        lemma_results_extend(bench, next);
    } else {
        assert(next.stage->samples.len() == samples.len() + 1);
        assert(next.stage->remaining == steps(0, (timed - next.stage->samples.len()) as nat));
    }
}

proof fn lemma_only_timed_runs_are_left(bench: BenchView)
    requires
        consistent(bench),
        action_of(bench) is Clear || action_of(bench) is Timed,
    ensures
        bench.stage->remaining == steps(
            0,
            (timed_runs(bench.runs) - bench.stage->samples.len()) as nat,
        ),
        bench.stage->remaining.len() == timed_runs(bench.runs) - bench.stage->samples.len(),
        bench.stage->remaining.len() > 0,
{
    let left = (timed_runs(bench.runs) - bench.stage->samples.len()) as nat;
    let warmups = choose|warmups: nat| bench.stage->remaining == #[trigger] steps(warmups, left);
    assert(bench.stage->remaining == steps(warmups, left));
    if warmups > 0 {
        assert(bench.stage->remaining[0] == Step::Warmup);
    }
}

proof fn lemma_results_extend(bench: BenchView, next: BenchView)
    requires
        consistent(bench),
        bench.results.len() < bench.cases.len(),
        next.results == bench.results.push(next.results.last()),
        next.cases == bench.cases,
        next.pool == bench.pool,
        next.runs == bench.runs,
        is_outcome(present_case(bench), bench.pool.len(), bench.runs, next.results.last()),
    ensures
        next.results.len() <= next.cases.len(),
        forall|i: int|
            0 <= i < next.results.len() ==> is_outcome(
                next.cases[i],
                next.pool.len(),
                next.runs,
                #[trigger] next.results[i],
            ),
{
    assert forall|i: int| 0 <= i < next.results.len() implies is_outcome(
        next.cases[i],
        next.pool.len(),
        next.runs,
        #[trigger] next.results[i],
    ) by {
        if i < bench.results.len() {
            assert(next.results[i] == bench.results[i]);
        }
    }
}

/// An upper bound on the actions that are left.
pub open spec fn actions_left(bench: BenchView) -> int {
    let per_case = 2 + bench.warmup + 2 * timed_runs(bench.runs);
    let cases = bench.cases.len() - bench.results.len();
    match bench.stage {
        StageView::Ready => cases * per_case,
        StageView::Running { remaining, samples, cleared, .. } => {
            let clears = timed_runs(bench.runs) - samples.len() - if cleared {
                1int
            } else {
                0int
            };
            (cases - 1) * per_case + 1 + remaining.len() + clears
        },
        StageView::Concluded => cases * per_case + 1,
    }
}

/// All phases that the benchmark holds are listed by name, each once.
pub open spec fn phases_in_order(bench: BenchView) -> bool {
    &&& forall|i: int| 0 <= i < bench.results.len() ==> (#[trigger] bench.results[i]).wf()
    &&& match bench.stage {
        StageView::Running { samples, .. } => forall|i: int|
            0 <= i < samples.len() ==> (#[trigger] samples[i]).wf(),
        _ => true,
    }
}

/// Every action keeps the phases in order, where each sample brings its own in order.
pub proof fn law_actions_keep_phases_in_order(bench: BenchView, sample: SampleView)
    requires
        phases_in_order(bench),
        sample.wf(),
    ensures
        phases_in_order(initial(bench.cases, bench.pool, bench.runs, bench.warmup)),
        action_of(bench) is Announce ==> phases_in_order(after_announce(bench)),
        action_of(bench) is Warmup ==> phases_in_order(after_warmup(bench)),
        action_of(bench) is Clear ==> phases_in_order(after_clear(bench)),
        action_of(bench) is Timed ==> phases_in_order(after_timed(bench, sample)),
        action_of(bench) is Conclude ==> phases_in_order(after_conclude(bench)),
{
    let case = present_case(bench);
    crate::measure::law_results_list_phases_by_name(case, bench.pool.len(), seq![]);
    if bench.stage is Running {
        let samples = bench.stage->samples.push(sample);
        assert forall|i: int| 0 <= i < samples.len() implies (#[trigger] samples[i]).wf() by {
            if i < bench.stage->samples.len() {
                assert(samples[i] == bench.stage->samples[i]);
            }
        }
        crate::measure::law_results_list_phases_by_name(case, bench.pool.len(), samples);
    }
}

proof fn lemma_unchanged_samples_stay_in_order(bench: BenchView)
    requires
        phases_in_order(bench),
    ensures
        action_of(bench) is Announce ==> phases_in_order(after_announce(bench)),
        action_of(bench) is Warmup ==> phases_in_order(after_warmup(bench)),
        action_of(bench) is Clear ==> phases_in_order(after_clear(bench)),
{
    crate::measure::law_results_list_phases_by_name(
        present_case(bench),
        bench.pool.len(),
        seq![],
    );
}

/// A timed run follows right on the clearing of the phases, on the files of its case,
/// and takes nothing with it from before: the sample that is noted of it has the phases
/// of the spans that closed in between, and the samples of the other runs stay.
pub proof fn law_timed_run_is_noted_with_its_own_phases(
    bench: BenchView,
    spans: Seq<SpanView>,
    sample: SampleView,
    elapsed_ms: u128,
    validation_errors: nat,
    io_errors: nat,
)
    requires
        consistent(bench),
        action_of(bench) is Clear,
        is_sample(
            sample,
            with_spans(Map::empty(), spans),
            elapsed_ms,
            validation_errors,
            io_errors,
        ),
    ensures
        action_of(after_clear(bench)) == ActionView::Timed(
            invocation_of(present_case(bench), bench.stage->files),
        ),
        forall|name: Seq<char>| #[trigger]
            phase_names(sample.phases_ms).contains(name) <==> has_span(spans, name),
        forall|i: int|
            0 <= i < sample.phases_ms.len() ==> (#[trigger] sample.phases_ms[i]).ms == time_of(
                spans,
                sample.phases_ms[i].name,
            ) / NANOS_PER_MS as nat,
        ({
            let noted = bench.stage->samples.push(sample);
            let next = after_timed(after_clear(bench), sample);
            if noted.len() < timed_runs(bench.runs) {
                next.stage is Running && next.stage->samples == noted && next.results
                    == bench.results
            } else {
                next.results == bench.results.push(measured_result(present_case(bench), noted))
            }
        }),
{
    lemma_only_timed_runs_are_left(bench);
    crate::phases::law_phases_tell_of_the_spans_since_the_reset(spans, sample.phases_ms);
}

/// Every action brings the benchmark closer to its end, so it ends.
pub proof fn law_actions_make_progress(bench: BenchView, sample: SampleView)
    requires
        consistent(bench),
    ensures
        0 <= actions_left(bench),
        action_of(bench) is Announce ==> actions_left(after_announce(bench)) < actions_left(bench),
        action_of(bench) is Warmup ==> actions_left(after_warmup(bench)) < actions_left(bench),
        action_of(bench) is Clear ==> actions_left(after_clear(bench)) < actions_left(bench),
        action_of(bench) is Timed ==> actions_left(after_timed(bench, sample)) < actions_left(
            bench,
        ),
        action_of(bench) is Conclude ==> actions_left(after_conclude(bench)) < actions_left(bench),
{
    let per_case = 2 + bench.warmup + 2 * timed_runs(bench.runs);
    let cases = bench.cases.len() - bench.results.len();
    assert(cases * per_case >= 0) by (nonlinear_arith)
        requires
            cases >= 0,
            per_case >= 0,
    ;
    assert((cases - 1) * per_case == cases * per_case - per_case) by (nonlinear_arith);
    if bench.stage is Running {
        lemma_running_has_steps(bench);
        assert((cases - 1) * per_case >= 0) by (nonlinear_arith)
            requires
                cases >= 1,
                per_case >= 0,
        ;
    }
    if action_of(bench) is Announce {
        let next = after_announce(bench);
        if next.stage is Running {
            assert(next.stage->remaining.len() == bench.warmup + timed_runs(bench.runs));
        }
    }
}

} // verus!
