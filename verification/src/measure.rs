//! Measuring one case: which files it gets, which runs are made, and what is
//! reported of them.
use vstd::prelude::*;
use vstd::string::StringExecFns;

use crate::cases::{Case, CaseView};
use crate::phases::{
    has_span, lists_totals, take_phases, time_of, with_spans, PhaseTotals, SpanView, NANOS_PER_MS,
};
use crate::report::{
    ok_status, phase_names, phase_views, phases_by_name, skipped_status, CaseResult,
    CaseResultView, Phase, PhaseView,
};
use crate::stats::{ascending, median, middle_of, smallest, sort_ascending};
use crate::text::{count_string, decimal, first_of, texts};

verus! {

// ---------------------------------------------------------------------------
// Which files
// ---------------------------------------------------------------------------

/// Whether a case can be measured on a corpus.
pub enum Plan {
    /// It runs on these files.
    Run(Vec<String>),
    /// It needs more files than the corpus has.
    Skip(CaseResult),
}

/// Why a case is skipped.
pub open spec fn shortage_text(needed: nat, available: nat) -> Seq<char> {
    "needs "@ + decimal(needed) + " owned files, corpus has "@ + decimal(available)
}

/// What is reported of a case that needs more files than the corpus has.
pub open spec fn skipped_result(case: CaseView, available: nat) -> CaseResultView {
    CaseResultView {
        name: case.name,
        status: skipped_status(),
        skip_reason: Some(shortage_text(case.files, available)),
        file_count: 0,
        runs_ms: seq![],
        best_ms: 0,
        median_ms: 0,
        phases_ms: seq![],
        validation_errors: 0,
        io_errors: 0,
    }
}

/// Decides what a case runs on. It gets exactly as many files as it asks for, the
/// first ones of the pool, or it is skipped; it is never shrunk.
pub fn plan(case: &Case, pool: &Vec<String>) -> (plan: Plan)
    ensures
        match plan {
            Plan::Run(files) => {
                &&& case.files <= pool@.len()
                &&& files@.len() == case.files
                &&& texts(files@) == texts(pool@).take(case.files as int)
                &&& forall|i: int| 0 <= i < case.files ==> (#[trigger] files@[i])@ == pool@[i]@
            },
            Plan::Skip(result) => {
                &&& case.files > pool@.len()
                &&& result@ == skipped_result(case@, pool@.len())
                &&& result.name@ == case.name@
                &&& result.status@ == "skipped"@
                &&& result.skip_reason is Some
                &&& result.skip_reason->0@ == "needs "@ + decimal(case.files as nat)
                    + " owned files, corpus has "@ + decimal(pool@.len())
                &&& result.file_count == 0
                &&& result.runs_ms@.len() == 0
                &&& result.phases_ms@.len() == 0
            },
        },
{
    if case.files > pool.len() {
        let mut reason: String = String::from_str("needs ");
        reason.append(count_string(case.files).as_str());
        reason.append(" owned files, corpus has ");
        reason.append(count_string(pool.len()).as_str());
        let result: CaseResult = CaseResult {
            name: case.name.to_owned(),
            status: "skipped".to_owned(),
            skip_reason: Some(reason),
            file_count: 0,
            runs_ms: Vec::new(),
            best_ms: 0,
            median_ms: 0,
            phases_ms: Vec::new(),
            validation_errors: 0,
            io_errors: 0,
        };
        assert(result@.phases_ms =~= seq![]);
        Plan::Skip(result)
    } else {
        Plan::Run(first_of(pool, case.files))
    }
}

// ---------------------------------------------------------------------------
// Which runs
// ---------------------------------------------------------------------------

/// What a timed run gave.
pub struct Sample {
    pub elapsed_ms: u128,
    pub phases_ms: Vec<Phase>,
    pub validation_errors: usize,
    pub io_errors: usize,
}

/// The mathematical content of a [`Sample`].
pub struct SampleView {
    pub elapsed_ms: u128,
    pub phases_ms: Seq<PhaseView>,
    pub validation_errors: nat,
    pub io_errors: nat,
}

impl View for Sample {
    type V = SampleView;

    open spec fn view(&self) -> SampleView {
        SampleView {
            elapsed_ms: self.elapsed_ms,
            phases_ms: phase_views(self.phases_ms@),
            validation_errors: self.validation_errors as nat,
            io_errors: self.io_errors as nat,
        }
    }
}

impl SampleView {
    /// The phases are listed by name, each once.
    pub open spec fn wf(self) -> bool {
        phases_by_name(self.phases_ms)
    }
}

/// The content of a list of samples.
pub open spec fn sample_views(samples: Seq<Sample>) -> Seq<SampleView> {
    samples.map_values(|s: Sample| s@)
}

/// The sample of a timed run: what was measured of it, and the phases that the totals
/// hold at its end.
pub open spec fn is_sample(
    sample: SampleView,
    totals: Map<Seq<char>, nat>,
    elapsed_ms: u128,
    validation_errors: nat,
    io_errors: nat,
) -> bool {
    &&& sample.elapsed_ms == elapsed_ms
    &&& lists_totals(sample.phases_ms, totals)
    &&& sample.validation_errors == validation_errors
    &&& sample.io_errors == io_errors
}

/// Takes the sample of a timed run, with the phases that the totals hold.
pub fn sample_of(
    totals: &PhaseTotals,
    elapsed_ms: u128,
    validation_errors: usize,
    io_errors: usize,
) -> (sample: Sample)
    requires
        totals.wf(),
    ensures
        is_sample(sample@, totals@, elapsed_ms, validation_errors as nat, io_errors as nat),
        sample.elapsed_ms == elapsed_ms,
        sample.validation_errors == validation_errors,
        sample.io_errors == io_errors,
        forall|i: int|
            0 <= i < sample.phases_ms@.len() ==> totals@.dom().contains(
                (#[trigger] sample.phases_ms@[i]).name@,
            ) && sample.phases_ms@[i].ms == totals@[sample.phases_ms@[i].name@] / 1_000_000,
        forall|name: Seq<char>| #[trigger]
            totals@.dom().contains(name) ==> exists|i: int|
                0 <= i < sample.phases_ms@.len() && (#[trigger] sample.phases_ms@[i]).name@ == name,
{
    Sample { elapsed_ms, phases_ms: take_phases(totals), validation_errors, io_errors }
}

/// What has to be done next for a case.
#[derive(Clone, Copy, PartialEq, Eq, Structural, Debug)]
pub enum Step {
    /// Run once without timing, to settle the cache and the page cache.
    Warmup,
    /// Run once and time it.
    Timed,
}

/// How many timed runs are made: one at least.
pub open spec fn timed_runs(runs: nat) -> nat {
    if runs == 0 {
        1
    } else {
        runs
    }
}

/// Some warmups, then some timed runs.
pub open spec fn steps(warmups: nat, timed: nat) -> Seq<Step> {
    Seq::new(warmups, |i: int| Step::Warmup) + Seq::new(timed, |i: int| Step::Timed)
}

/// The runs that are made for one case.
pub open spec fn schedule(runs: nat, warmup: nat) -> Seq<Step> {
    steps(warmup, timed_runs(runs))
}

/// The runs of one case while they are made.
pub struct Session {
    warmups_left: usize,
    runs_left: usize,
    samples: Vec<Sample>,
}

impl Session {
    /// There is a sample, or a timed run is still to come.
    pub closed spec fn wf(&self) -> bool {
        self.samples@.len() + self.runs_left >= 1
    }

    /// The steps that are left.
    pub closed spec fn remaining(&self) -> Seq<Step> {
        steps(self.warmups_left as nat, self.runs_left as nat)
    }

    /// The samples of the timed runs so far.
    pub closed spec fn samples(&self) -> Seq<SampleView> {
        sample_views(self.samples@)
    }

    /// How many samples the session will have when it is complete.
    pub closed spec fn planned(&self) -> nat {
        (self.samples@.len() + self.runs_left) as nat
    }

    /// A session before its first run.
    pub fn begin(runs: usize, warmup: usize) -> (session: Self)
        ensures
            session.wf(),
            session.remaining() == schedule(runs as nat, warmup as nat),
            session.samples() == Seq::<SampleView>::empty(),
            session.planned() == timed_runs(runs as nat),
            runs >= 1 ==> session.remaining().len() == warmup + runs,
            runs == 0 ==> session.remaining().len() == warmup + 1,
            forall|i: int|
                0 <= i < session.remaining().len() ==> #[trigger] session.remaining()[i] == if i
                    < warmup {
                    Step::Warmup
                } else {
                    Step::Timed
                },
    {
        let runs_left: usize = if runs == 0 {
            1
        } else {
            runs
        };
        let session: Session = Session { warmups_left: warmup, runs_left, samples: Vec::new() };
        assert(session.samples() =~= seq![]);
        session
    }

    /// The next step, or none when the session is complete.
    pub fn next_step(&self) -> (step: Option<Step>)
        ensures
            match step {
                Some(step) => self.remaining().len() > 0 && step == self.remaining()[0],
                None => self.remaining().len() == 0,
            },
    {
        if self.warmups_left > 0 {
            Some(Step::Warmup)
        } else if self.runs_left > 0 {
            Some(Step::Timed)
        } else {
            None
        }
    }

    /// Notes that a warmup was made. What it returned is of no interest.
    pub fn warmed_up(&mut self)
        requires
            old(self).wf(),
            old(self).remaining().len() > 0,
            old(self).remaining()[0] == Step::Warmup,
        ensures
            final(self).wf(),
            final(self).remaining() == old(self).remaining().drop_first(),
            final(self).samples() == old(self).samples(),
            final(self).planned() == old(self).planned(),
    {
        let ghost before = self.remaining();
        self.warmups_left = self.warmups_left - 1;
        assert(self.remaining() =~= before.drop_first());
    }

    /// Notes what a timed run gave.
    pub fn timed(&mut self, sample: Sample)
        requires
            old(self).wf(),
            old(self).remaining().len() > 0,
            old(self).remaining()[0] == Step::Timed,
        ensures
            final(self).wf(),
            final(self).remaining() == old(self).remaining().drop_first(),
            final(self).samples() == old(self).samples().push(sample@),
            final(self).planned() == old(self).planned(),
    {
        let ghost before = self.remaining();
        let ghost taken = self.samples();
        assert(self.warmups_left == 0) by {
            if self.warmups_left > 0 {
                assert(before[0] == Step::Warmup);
            }
        }
        self.runs_left = self.runs_left - 1;
        self.samples.push(sample);
        assert(self.remaining() =~= before.drop_first());
        assert(self.samples() =~= taken.push(sample@));
    }

    /// Reports a session that is complete.
    pub fn finish(&self, case: &Case) -> (result: CaseResult)
        requires
            self.wf(),
            self.remaining().len() == 0,
        ensures
            self.samples().len() == self.planned(),
            self.planned() >= 1,
            result@ == measured_result(case@, self.samples()),
            result.name@ == case.name@,
            result.file_count == case.files,
            result.runs_ms@.len() == self.samples().len(),
            forall|i: int|
                0 <= i < self.samples().len() ==> #[trigger] result.runs_ms@[i]
                    == self.samples()[i].elapsed_ms,
    {
        summarize(case, &self.samples)
    }
}

// ---------------------------------------------------------------------------
// What is reported
// ---------------------------------------------------------------------------

/// The wall-clock times of some runs.
pub open spec fn elapsed_times(samples: Seq<SampleView>) -> Seq<u128> {
    samples.map_values(|s: SampleView| s.elapsed_ms)
}

/// The first of the fastest runs.
pub open spec fn best_run(samples: Seq<SampleView>) -> int
    recommends
        samples.len() > 0,
    decreases samples.len(),
{
    if samples.len() <= 1 {
        0
    } else {
        let earlier = best_run(samples.drop_last());
        if samples.last().elapsed_ms < samples[earlier].elapsed_ms {
            samples.len() - 1
        } else {
            earlier
        }
    }
}

/// The phases of the best run.
pub open spec fn best_phases(samples: Seq<SampleView>) -> Seq<PhaseView> {
    if samples.len() > 0 {
        samples[best_run(samples)].phases_ms
    } else {
        seq![]
    }
}

/// What is reported of a case that was measured: the best and the median time of
/// all runs, the phases of the best run and the errors of the last one.
pub open spec fn measured_result(case: CaseView, samples: Seq<SampleView>) -> CaseResultView {
    let sorted = ascending(elapsed_times(samples));
    CaseResultView {
        name: case.name,
        status: ok_status(),
        skip_reason: None,
        file_count: case.files,
        runs_ms: elapsed_times(samples),
        best_ms: if samples.len() > 0 {
            sorted[0]
        } else {
            0
        },
        median_ms: middle_of(sorted),
        phases_ms: best_phases(samples),
        validation_errors: if samples.len() > 0 {
            samples.last().validation_errors
        } else {
            0
        },
        io_errors: if samples.len() > 0 {
            samples.last().io_errors
        } else {
            0
        },
    }
}

/// No run is faster than the best one, and every earlier run is slower.
pub proof fn law_best_run_is_the_first_fastest(samples: Seq<SampleView>)
    requires
        samples.len() > 0,
    ensures
        0 <= best_run(samples) < samples.len(),
        forall|i: int|
            0 <= i < samples.len() ==> samples[best_run(samples)].elapsed_ms
                <= (#[trigger] samples[i]).elapsed_ms,
        forall|i: int|
            0 <= i < best_run(samples) ==> samples[best_run(samples)].elapsed_ms
                < (#[trigger] samples[i]).elapsed_ms,
    decreases samples.len(),
{
    if samples.len() > 1 {
        let rest = samples.drop_last();
        law_best_run_is_the_first_fastest(rest);
        assert forall|i: int| 0 <= i < samples.len() implies samples[best_run(samples)].elapsed_ms
            <= (#[trigger] samples[i]).elapsed_ms by {
            if i < rest.len() {
                assert(rest[i] == samples[i]);
            }
        }
        assert forall|i: int| 0 <= i < best_run(samples) implies samples[best_run(
            samples,
        )].elapsed_ms < (#[trigger] samples[i]).elapsed_ms by {
            if i < rest.len() {
                assert(rest[i] == samples[i]);
            }
        }
    }
}

/// The best time is the smallest one, it is the time of the run whose phases are
/// reported, and the median lies between it and the largest one.
pub proof fn law_best_time_is_the_smallest(case: CaseView, samples: Seq<SampleView>)
    requires
        samples.len() > 0,
    ensures
        measured_result(case, samples).runs_ms.len() == samples.len(),
        measured_result(case, samples).best_ms == smallest(elapsed_times(samples)),
        measured_result(case, samples).best_ms == samples[best_run(samples)].elapsed_ms,
        measured_result(case, samples).best_ms <= measured_result(case, samples).median_ms
            <= crate::stats::largest(elapsed_times(samples)),
{
    let times = elapsed_times(samples);
    crate::stats::law_best_and_median_are_times(times);
    crate::stats::law_extremes_bound_all(times);
    law_best_run_is_the_first_fastest(samples);
    let best = best_run(samples);
    assert(times[best] == samples[best].elapsed_ms);
    let least = choose|i: int| 0 <= i < times.len() && times[i] == smallest(times);
    assert(samples[least].elapsed_ms == smallest(times));
}

/// The reported phases are those of the best run alone. Where the totals were cleared
/// before each timed run, they name the spans that closed in the first of the fastest
/// runs and say what these took; spans of warmups, of other runs and of earlier cases
/// contribute nothing.
pub proof fn law_phases_are_those_of_the_best_run(
    case: CaseView,
    samples: Seq<SampleView>,
    runs: Seq<Seq<SpanView>>,
    best: int,
)
    requires
        runs.len() == samples.len(),
        forall|i: int|
            0 <= i < samples.len() ==> lists_totals(
                (#[trigger] samples[i]).phases_ms,
                with_spans(Map::empty(), runs[i]),
            ),
        0 <= best < samples.len(),
        measured_result(case, samples).runs_ms[best] == measured_result(case, samples).best_ms,
        forall|i: int|
            0 <= i < best ==> #[trigger] measured_result(case, samples).runs_ms[i]
                != measured_result(case, samples).best_ms,
    ensures
        measured_result(case, samples).wf(),
        forall|name: Seq<char>| #[trigger]
            phase_names(measured_result(case, samples).phases_ms).contains(name) <==> has_span(
                runs[best],
                name,
            ),
        forall|i: int|
            0 <= i < measured_result(case, samples).phases_ms.len() ==> (
            #[trigger] measured_result(case, samples).phases_ms[i]).ms == time_of(
                runs[best],
                measured_result(case, samples).phases_ms[i].name,
            ) / NANOS_PER_MS as nat,
{
    law_best_run_is_the_first_fastest(samples);
    law_best_time_is_the_smallest(case, samples);
    let result = measured_result(case, samples);
    let first = best_run(samples);
    assert(result.runs_ms[first] == samples[first].elapsed_ms);
    assert(result.runs_ms[best] == samples[best].elapsed_ms);
    assert(first == best);
    assert(result.phases_ms == samples[best].phases_ms);
    crate::phases::law_phases_tell_of_the_spans_since_the_reset(runs[best], result.phases_ms);
}

/// What is reported of a case lists the phases by name, each once, as the samples do.
pub proof fn law_results_list_phases_by_name(
    case: CaseView,
    available: nat,
    samples: Seq<SampleView>,
)
    requires
        forall|i: int| 0 <= i < samples.len() ==> (#[trigger] samples[i]).wf(),
    ensures
        skipped_result(case, available).wf(),
        measured_result(case, samples).wf(),
{
    if samples.len() > 0 {
        law_best_run_is_the_first_fastest(samples);
        assert(samples[best_run(samples)].wf());
    }
}

/// Every case either ran or explains why it did not: a case that was planned on a
/// pool is skipped with a reason that names both numbers, or it has a time for each
/// of its runs, one at least.
pub proof fn law_skipped_or_measured(
    case: CaseView,
    available: nat,
    samples: Seq<SampleView>,
    runs: nat,
)
    requires
        samples.len() == timed_runs(runs),
    ensures
        crate::report::is_skipped(skipped_result(case, available)),
        skipped_result(case, available).skip_reason is Some,
        crate::text::occurs_in(
            decimal(case.files),
            skipped_result(case, available).skip_reason->0,
        ),
        crate::text::occurs_in(
            decimal(available),
            skipped_result(case, available).skip_reason->0,
        ),
        !crate::report::is_skipped(measured_result(case, samples)),
        measured_result(case, samples).skip_reason is None,
        measured_result(case, samples).runs_ms.len() == timed_runs(runs),
        measured_result(case, samples).runs_ms.len() >= 1,
{
    reveal_strlit("ok");
    reveal_strlit("skipped");
    assert("ok"@.len() != "skipped"@.len());
    let text = shortage_text(case.files, available);
    let needed = decimal(case.files);
    let there = decimal(available);
    assert(crate::text::occurs_at(needed, text, "needs "@.len() as int)) by {
        assert(text.subrange("needs "@.len() as int, "needs "@.len() as int + needed.len()) =~= needed);
    }
    assert(crate::text::occurs_at(there, text, text.len() - there.len())) by {
        assert(text.subrange(text.len() - there.len(), text.len() as int) =~= there);
    }
}

/// Reports timed runs.
pub fn summarize(case: &Case, samples: &Vec<Sample>) -> (result: CaseResult)
    ensures
        result@ == measured_result(case@, sample_views(samples@)),
        result.name@ == case.name@,
        result.status@ == "ok"@,
        result.skip_reason is None,
        result.file_count == case.files,
        result.runs_ms@.len() == samples@.len(),
        forall|i: int|
            0 <= i < samples@.len() ==> #[trigger] result.runs_ms@[i] == samples@[i].elapsed_ms,
        forall|i: int|
            0 <= i < samples@.len() ==> result.best_ms <= (#[trigger] samples@[i]).elapsed_ms,
        samples@.len() > 0 ==> exists|best: int|
            0 <= best < samples@.len() && (#[trigger] samples@[best]).elapsed_ms == result.best_ms
                && (forall|i: int|
                0 <= i < best ==> (#[trigger] samples@[i]).elapsed_ms > result.best_ms)
                && result@.phases_ms == phase_views(samples@[best].phases_ms@),
        samples@.len() > 0 ==> result.validation_errors == samples@[samples@.len()
            - 1].validation_errors && result.io_errors == samples@[samples@.len() - 1].io_errors,
{
    let ghost all = sample_views(samples@);
    let mut timings: Vec<u128> = Vec::new();
    let mut best: usize = 0;
    let mut best_ms: u128 = u128::MAX;
    let mut i: usize = 0;
    while i < samples.len()
        invariant
            all == sample_views(samples@),
            i <= samples@.len(),
            timings@ == elapsed_times(all.take(i as int)),
            i > 0 ==> best < i && best == best_run(all.take(i as int)) && best_ms
                == samples@[best as int].elapsed_ms,
        decreases samples@.len() - i,
    {
        let elapsed: u128 = samples[i].elapsed_ms;
        let ghost before = timings@;
        timings.push(elapsed);
        proof {
            let shorter = all.take(i as int);
            let longer = all.take(i + 1);
            assert(longer.drop_last() =~= shorter);
            assert(longer.last() == samples@[i as int]@);
            assert(elapsed_times(longer) =~= elapsed_times(shorter).push(elapsed));
            if i > 0 {
                assert(longer[best as int] == samples@[best as int]@);
            }
        }
        if i == 0 || elapsed < best_ms {
            best = i;
            best_ms = elapsed;
        }
        i = i + 1;
    }
    assert(all.take(i as int) =~= all);
    let sorted: Vec<u128> = sort_ascending(&timings);
    proof {
        crate::stats::law_ascending_is_the_sorted_permutation(timings@, timings@);
        assert(elapsed_times(all).len() == samples@.len());
    }
    let median_ms: u128 = median(sorted.as_slice());
    let first: u128 = if sorted.len() > 0 {
        sorted[0]
    } else {
        0
    };
    let len: usize = samples.len();
    let validation_errors: usize = if len > 0 {
        samples[len - 1].validation_errors
    } else {
        0
    };
    let io_errors: usize = if len > 0 {
        samples[len - 1].io_errors
    } else {
        0
    };
    let phases_ms: Vec<Phase> = if len > 0 {
        copied_phases(&samples[best].phases_ms)
    } else {
        Vec::new()
    };
    assert(phase_views(phases_ms@) =~= best_phases(all)) by {
        if len > 0 {
            assert(all[best as int] == samples@[best as int]@);
        }
    }
    assert(len > 0 ==> all.last() == samples@[len - 1]@);
    proof {
        assert(forall|j: int| 0 <= j < samples@.len() ==> #[trigger] all[j] == samples@[j]@);
        assert(forall|j: int|
            0 <= j < samples@.len() ==> #[trigger] timings@[j] == samples@[j].elapsed_ms);
        if len > 0 {
            law_best_run_is_the_first_fastest(all);
            law_best_time_is_the_smallest(case@, all);
            assert(all[best as int].elapsed_ms == samples@[best as int].elapsed_ms);
            assert forall|j: int| 0 <= j < samples@.len() implies first <= (
            #[trigger] samples@[j]).elapsed_ms by {
                assert(all[j].elapsed_ms == samples@[j].elapsed_ms);
            }
            assert forall|j: int| 0 <= j < best implies (#[trigger] samples@[j]).elapsed_ms
                > first by {
                assert(all[j].elapsed_ms == samples@[j].elapsed_ms);
            }
            assert(samples@[best as int].elapsed_ms == first);
        }
    }
    CaseResult {
        name: case.name.to_owned(),
        status: "ok".to_owned(),
        skip_reason: None,
        file_count: case.files,
        runs_ms: timings,
        best_ms: first,
        median_ms,
        phases_ms,
        validation_errors,
        io_errors,
    }
}

/// Copies a list of phases.
fn copied_phases(phases: &Vec<Phase>) -> (copy: Vec<Phase>)
    ensures
        phase_views(copy@) == phase_views(phases@),
{
    let mut copy: Vec<Phase> = Vec::new();
    let mut i: usize = 0;
    while i < phases.len()
        invariant
            i <= phases@.len(),
            copy@.len() == i,
            forall|j: int| 0 <= j < i ==> (#[trigger] copy@[j])@ == phases@[j]@,
        decreases phases@.len() - i,
    {
        copy.push(Phase { name: phases[i].name.clone(), ms: phases[i].ms });
        i = i + 1;
    }
    assert(phase_views(copy@) =~= phase_views(phases@));
    copy
}

// ---------------------------------------------------------------------------
// Laws
// ---------------------------------------------------------------------------

/// Of a sample all its fields are known, and of a list each sample. Its phases are in
/// order where they are listed by name.
pub proof fn law_sample_views_are_the_fields(sample: Sample, list: Seq<Sample>, view: SampleView)
    ensures
        sample@.elapsed_ms == sample.elapsed_ms,
        sample@.phases_ms == phase_views(sample.phases_ms@),
        sample@.validation_errors == sample.validation_errors,
        sample@.io_errors == sample.io_errors,
        sample_views(list).len() == list.len(),
        forall|i: int| 0 <= i < list.len() ==> #[trigger] sample_views(list)[i] == list[i]@,
        view.wf() <==> phases_by_name(view.phases_ms),
{
}

/// A case that is skipped says how many files it needs and how many there are, and
/// reports no file, no run, no phase and no error.
pub proof fn law_skipped_case_reports_its_reason_alone(case: CaseView, available: nat)
    ensures
        shortage_text(case.files, available) == "needs "@ + decimal(case.files)
            + " owned files, corpus has "@ + decimal(available),
        skipped_result(case, available).name == case.name,
        skipped_result(case, available).status == "skipped"@,
        skipped_result(case, available).skip_reason == Some(shortage_text(case.files, available)),
        skipped_result(case, available).file_count == 0,
        skipped_result(case, available).runs_ms.len() == 0,
        skipped_result(case, available).best_ms == 0,
        skipped_result(case, available).median_ms == 0,
        skipped_result(case, available).phases_ms.len() == 0,
        skipped_result(case, available).validation_errors == 0,
        skipped_result(case, available).io_errors == 0,
{
}

/// As many timed runs are made as were asked for, or one where none was, and before
/// them as many warmups as were asked for.
pub proof fn law_schedule_is_as_asked(runs: nat, warmup: nat)
    ensures
        runs >= 1 ==> timed_runs(runs) == runs,
        timed_runs(0) == 1,
        schedule(runs, warmup).len() == warmup + if runs == 0 {
            1
        } else {
            runs
        },
        forall|i: int| 0 <= i < warmup ==> #[trigger] schedule(runs, warmup)[i] == Step::Warmup,
        forall|i: int|
            warmup <= i < schedule(runs, warmup).len() ==> #[trigger] schedule(runs, warmup)[i]
                == Step::Timed,
{
}

/// Steps are so many warmups, then so many timed runs.
pub proof fn law_steps_are_counted(warmups: nat, timed: nat)
    ensures
        steps(warmups, timed).len() == warmups + timed,
        forall|i: int| 0 <= i < warmups ==> #[trigger] steps(warmups, timed)[i] == Step::Warmup,
        forall|i: int|
            warmups <= i < warmups + timed ==> #[trigger] steps(warmups, timed)[i] == Step::Timed,
{
}

/// A sample is what was measured of a run, with the phases that list the totals.
pub proof fn law_sample_holds_what_was_measured(
    sample: SampleView,
    totals: Map<Seq<char>, nat>,
    elapsed_ms: u128,
    validation_errors: nat,
    io_errors: nat,
)
    requires
        is_sample(sample, totals, elapsed_ms, validation_errors, io_errors),
    ensures
        sample.elapsed_ms == elapsed_ms,
        sample.validation_errors == validation_errors,
        sample.io_errors == io_errors,
        lists_totals(sample.phases_ms, totals),
{
}

/// What is reported of a case sums up all its runs: their times one by one, the
/// smallest of them, the one in the middle when they are put in order, the phases of
/// the first run that took the smallest time, and the errors of the last run.
pub proof fn law_result_sums_up_all_runs(case: CaseView, samples: Seq<SampleView>)
    requires
        samples.len() > 0,
    ensures
        measured_result(case, samples).name == case.name,
        measured_result(case, samples).status == "ok"@,
        measured_result(case, samples).skip_reason is None,
        measured_result(case, samples).file_count == case.files,
        measured_result(case, samples).runs_ms.len() == samples.len(),
        forall|i: int|
            0 <= i < samples.len() ==> #[trigger] measured_result(case, samples).runs_ms[i]
                == samples[i].elapsed_ms,
        forall|i: int|
            0 <= i < samples.len() ==> measured_result(case, samples).best_ms <= (
            #[trigger] samples[i]).elapsed_ms,
        exists|best: int|
            0 <= best < samples.len() && (#[trigger] samples[best]).elapsed_ms == measured_result(
                case,
                samples,
            ).best_ms && (forall|i: int|
                0 <= i < best ==> (#[trigger] samples[i]).elapsed_ms > measured_result(
                    case,
                    samples,
                ).best_ms) && measured_result(case, samples).phases_ms == samples[best].phases_ms,
        forall|sorted: Seq<u128>|
            sorted.to_multiset() == #[trigger] measured_result(case, samples).runs_ms.to_multiset()
                && (forall|i: int, j: int|
                0 <= i <= j < sorted.len() ==> #[trigger] sorted[i] <= #[trigger] sorted[j])
                ==> measured_result(case, samples).median_ms == #[trigger] sorted[sorted.len() as int
                / 2],
        measured_result(case, samples).validation_errors == samples[samples.len()
            - 1].validation_errors,
        measured_result(case, samples).io_errors == samples[samples.len() - 1].io_errors,
{
    let result = measured_result(case, samples);
    law_best_run_is_the_first_fastest(samples);
    law_best_time_is_the_smallest(case, samples);
    let best = best_run(samples);
    assert(samples[best].elapsed_ms == result.best_ms);
    assert forall|sorted: Seq<u128>|
        sorted.to_multiset() == result.runs_ms.to_multiset() && (forall|i: int, j: int|
            0 <= i <= j < sorted.len() ==> #[trigger] sorted[i] <= #[trigger] sorted[j])
            implies result.median_ms == #[trigger] sorted[sorted.len() as int / 2] by {
        crate::stats::law_ascending_is_the_sorted_permutation(result.runs_ms, sorted);
    }
}

/// Without a run there is nothing to sum up.
pub proof fn law_no_run_sums_up_to_nothing(case: CaseView)
    ensures
        measured_result(case, seq![]).runs_ms.len() == 0,
        measured_result(case, seq![]).best_ms == 0,
        measured_result(case, seq![]).median_ms == 0,
        measured_result(case, seq![]).phases_ms.len() == 0,
        measured_result(case, seq![]).validation_errors == 0,
        measured_result(case, seq![]).io_errors == 0,
        measured_result(case, seq![]).name == case.name,
        measured_result(case, seq![]).file_count == case.files,
        measured_result(case, seq![]).status == "ok"@,
{
    let none = Seq::<SampleView>::empty();
    crate::stats::law_ascending_is_the_sorted_permutation(elapsed_times(none), seq![]);
}

} // verus!
