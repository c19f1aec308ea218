//! Phase collection: how long the spans of each name took in a run.
//!
//! Durations are counted in nanoseconds and reported in milliseconds.
use vstd::prelude::*;
use vstd::string::StringExecFns;

use crate::order::{locate, precedes, strictly_sorted, Slot};
use crate::report::{phase_names, phase_views, phases_by_name, Phase, PhaseView};
use crate::text::texts;

verus! {

/// The longest time that the clock can express, in nanoseconds: the largest number
/// of whole seconds that fits in 64 bits, and the largest fraction.
pub const MAX_NANOS: u128 = 18_446_744_073_709_551_615_999_999_999;

/// Nanoseconds in a millisecond.
pub const NANOS_PER_MS: u128 = 1_000_000;

/// Accumulated durations by span name.
pub struct PhaseTotals {
    names: Vec<String>,
    nanos: Vec<u128>,
}

/// The totals after one more span: its duration is added to what its name has.
pub open spec fn with_span(totals: Map<Seq<char>, nat>, name: Seq<char>, nanos: nat) -> Map<
    Seq<char>,
    nat,
> {
    totals.insert(name, total_of(totals, name) + nanos)
}

/// What has been accumulated under a name: nothing before its first span.
pub open spec fn total_of(totals: Map<Seq<char>, nat>, name: Seq<char>) -> nat {
    if totals.dom().contains(name) {
        totals[name]
    } else {
        0
    }
}

/// The phases list the totals: every name once, in order, with whole milliseconds.
pub open spec fn lists_totals(phases: Seq<PhaseView>, totals: Map<Seq<char>, nat>) -> bool {
    &&& phases_by_name(phases)
    &&& forall|name: Seq<char>|
        #![trigger phase_names(phases).contains(name)]
        #![trigger totals.dom().contains(name)]
        phase_names(phases).contains(name) <==> totals.dom().contains(name)
    &&& forall|i: int|
        0 <= i < phases.len() ==> (#[trigger] phases[i]).ms == totals[phases[i].name]
            / NANOS_PER_MS as nat
}

/// A span that closed.
pub struct SpanView {
    pub name: Seq<char>,
    pub nanos: nat,
}

/// The totals after some more spans, one after the other.
pub open spec fn with_spans(totals: Map<Seq<char>, nat>, spans: Seq<SpanView>) -> Map<
    Seq<char>,
    nat,
>
    decreases spans.len(),
{
    if spans.len() == 0 {
        totals
    } else {
        with_span(with_spans(totals, spans.drop_last()), spans.last().name, spans.last().nanos)
    }
}

/// One of the spans has this name.
pub open spec fn has_span(spans: Seq<SpanView>, name: Seq<char>) -> bool {
    exists|i: int| 0 <= i < spans.len() && (#[trigger] spans[i]).name == name
}

/// How long the spans of this name took together.
pub open spec fn time_of(spans: Seq<SpanView>, name: Seq<char>) -> nat
    decreases spans.len(),
{
    if spans.len() == 0 {
        0
    } else {
        time_of(spans.drop_last(), name) + if spans.last().name == name {
            spans.last().nanos
        } else {
            0
        }
    }
}

/// Totals that were empty hold what the spans since then took: a name has a total
/// exactly where one of these spans has it, and the total is their sum.
pub proof fn law_spans_add_up_by_name(spans: Seq<SpanView>, name: Seq<char>)
    ensures
        with_spans(Map::empty(), spans).dom().contains(name) <==> has_span(spans, name),
        total_of(with_spans(Map::empty(), spans), name) == time_of(spans, name),
    decreases spans.len(),
{
    if spans.len() > 0 {
        let earlier = spans.drop_last();
        law_spans_add_up_by_name(earlier, name);
        if has_span(earlier, name) {
            let i = choose|i: int| 0 <= i < earlier.len() && (#[trigger] earlier[i]).name == name;
            assert(spans[i].name == name);
        }
        if has_span(spans, name) && spans.last().name != name {
            let i = choose|i: int| 0 <= i < spans.len() && (#[trigger] spans[i]).name == name;
            assert(earlier[i].name == name);
        }
        assert(spans[spans.len() - 1] == spans.last());
    }
}

/// Phases that are taken from totals that were cleared before some spans closed tell
/// of these spans alone: they name each of them, nothing else, and under each name
/// stands what its spans took together, in whole milliseconds.
pub proof fn law_phases_tell_of_the_spans_since_the_reset(
    spans: Seq<SpanView>,
    phases: Seq<PhaseView>,
)
    requires
        lists_totals(phases, with_spans(Map::empty(), spans)),
    ensures
        phases_by_name(phases),
        forall|name: Seq<char>| #[trigger]
            phase_names(phases).contains(name) <==> has_span(spans, name),
        forall|i: int|
            0 <= i < phases.len() ==> (#[trigger] phases[i]).ms == time_of(spans, phases[i].name)
                / NANOS_PER_MS as nat,
{
    let totals = with_spans(Map::empty(), spans);
    assert forall|name: Seq<char>| #[trigger]
        phase_names(phases).contains(name) <==> has_span(spans, name) by {
        law_spans_add_up_by_name(spans, name);
    }
    assert forall|i: int| 0 <= i < phases.len() implies (#[trigger] phases[i]).ms == time_of(
        spans,
        phases[i].name,
    ) / NANOS_PER_MS as nat by {
        let name = phases[i].name;
        law_spans_add_up_by_name(spans, name);
        assert(phase_names(phases)[i] == name);
        assert(phase_names(phases).contains(name));
    }
}

/// The order in which two spans close does not change the totals.
pub proof fn law_span_order_is_irrelevant(
    totals: Map<Seq<char>, nat>,
    a: Seq<char>,
    a_nanos: nat,
    b: Seq<char>,
    b_nanos: nat,
)
    ensures
        with_span(with_span(totals, a, a_nanos), b, b_nanos) == with_span(
            with_span(totals, b, b_nanos),
            a,
            a_nanos,
        ),
{
    assert(with_span(with_span(totals, a, a_nanos), b, b_nanos) =~= with_span(
        with_span(totals, b, b_nanos),
        a,
        a_nanos,
    ));
}

/// Totals determine the list of phases that is taken from them.
pub proof fn law_totals_determine_phases(
    totals: Map<Seq<char>, nat>,
    a: Seq<PhaseView>,
    b: Seq<PhaseView>,
)
    requires
        lists_totals(a, totals),
        lists_totals(b, totals),
    ensures
        a == b,
{
    crate::order::law_sorted_list_is_unique(phase_names(a), phase_names(b));
    assert(phase_names(a).len() == a.len());
    assert(phase_names(b).len() == b.len());
    assert forall|i: int| 0 <= i < a.len() implies a[i] == b[i] by {
        assert(phase_names(a)[i] == a[i].name);
        assert(phase_names(b)[i] == b[i].name);
    }
    assert(a =~= b);
}

impl View for PhaseTotals {
    type V = Map<Seq<char>, nat>;

    closed spec fn view(&self) -> Map<Seq<char>, nat> {
        totals_map(texts(self.names@), self.nanos@)
    }
}

spec fn totals_map(names: Seq<Seq<char>>, nanos: Seq<u128>) -> Map<Seq<char>, nat> {
    Map::new(
        |name: Seq<char>| names.contains(name),
        |name: Seq<char>| nanos[names.index_of(name)] as nat,
    )
}

proof fn lemma_entry(names: Seq<Seq<char>>, nanos: Seq<u128>, at: int)
    requires
        strictly_sorted(names),
        0 <= at < names.len(),
    ensures
        totals_map(names, nanos).dom().contains(names[at]),
        totals_map(names, nanos)[names[at]] == nanos[at],
{
    assert(names.contains(names[at]));
    let found = names.index_of(names[at]);
    if found < at {
        crate::order::law_order_is_strict(names[found], names[at]);
    } else if at < found {
        crate::order::law_order_is_strict(names[at], names[found]);
    }
}

impl PhaseTotals {
    /// Each name has one total, the names are in order, and no total exceeds what
    /// the clock can express.
    pub closed spec fn wf(&self) -> bool {
        &&& self.names@.len() == self.nanos@.len()
        &&& strictly_sorted(texts(self.names@))
        &&& forall|i: int| 0 <= i < self.nanos@.len() ==> #[trigger] self.nanos@[i] <= MAX_NANOS
    }

    /// The total of a name, in nanoseconds.
    pub fn total(&self, name: &str) -> (nanos: u128)
        requires
            self.wf(),
        ensures
            nanos == total_of(self@, name@),
            nanos <= MAX_NANOS,
            nanos == if self@.dom().contains(name@) {
                self@[name@]
            } else {
                0
            },
    {
        match locate(&self.names, name) {
            Slot::Found(at) => {
                proof {
                    assert(texts(self.names@)[at as int] == name@);
                    lemma_entry(texts(self.names@), self.nanos@, at as int);
                }
                self.nanos[at]
            },
            Slot::Vacant(at) => {
                proof {
                    crate::order::lemma_insert_keeps_sorted(
                        texts(self.names@),
                        name@,
                        at as int,
                    );
                }
                0
            },
        }
    }

    /// Adds the duration of a span that closed.
    pub fn record(&mut self, name: &str, nanos: u128)
        requires
            old(self).wf(),
            total_of(old(self)@, name@) + nanos <= MAX_NANOS,
        ensures
            final(self).wf(),
            final(self)@ == with_span(old(self)@, name@, nanos as nat),
            final(self)@ == old(self)@.insert(
                name@,
                (if old(self)@.dom().contains(name@) {
                    old(self)@[name@] + nanos
                } else {
                    nanos as int
                }) as nat,
            ),
    {
        let ghost names = texts(self.names@);
        let ghost before = self.nanos@;
        match locate(&self.names, name) {
            Slot::Found(at) => {
                proof {
                    assert(names[at as int] == name@);
                    lemma_entry(names, before, at as int);
                }
                let total: u128 = self.nanos[at] + nanos;
                self.nanos.set(at, total);
                assert(self@ =~= with_span(old(self)@, name@, nanos as nat)) by {
                    assert forall|n: Seq<char>| names.contains(n) implies self@[n] == with_span(
                        old(self)@,
                        name@,
                        nanos as nat,
                    )[n] by {
                        let i = choose|i: int| 0 <= i < names.len() && names[i] == n;
                        lemma_entry(names, before, i);
                        lemma_entry(names, self.nanos@, i);
                        if i < at {
                            crate::order::law_order_is_strict(names[i], names[at as int]);
                        } else if at < i {
                            crate::order::law_order_is_strict(names[at as int], names[i]);
                        }
                    }
                }
            },
            Slot::Vacant(at) => {
                proof {
                    crate::order::lemma_insert_keeps_sorted(names, name@, at as int);
                }
                let ghost longer = names.insert(at as int, name@);
                self.names.insert(at, String::from_str(name));
                self.nanos.insert(at, nanos);
                assert(texts(self.names@) =~= longer);
                assert(self@ =~= with_span(old(self)@, name@, nanos as nat)) by {
                    assert forall|n: Seq<char>| longer.contains(n) implies self@[n] == with_span(
                        old(self)@,
                        name@,
                        nanos as nat,
                    )[n] by {
                        let i = choose|i: int| 0 <= i < longer.len() && longer[i] == n;
                        lemma_entry(longer, self.nanos@, i);
                        if i < at {
                            assert(names[i] == n);
                            lemma_entry(names, before, i);
                        } else if i > at {
                            assert(names[i - 1] == n);
                            lemma_entry(names, before, i - 1);
                        }
                    }
                }
                assert forall|i: int| 0 <= i < self.nanos@.len() implies #[trigger] self.nanos@[i]
                    <= MAX_NANOS by {
                    if i < at {
                        assert(before[i] <= MAX_NANOS);
                    } else if i > at {
                        assert(before[i - 1] <= MAX_NANOS);
                    }
                }
            },
        }
    }
}

/// Totals before any span has closed.
pub fn phase_totals() -> (totals: PhaseTotals)
    ensures
        totals.wf(),
        totals@ == Map::<Seq<char>, nat>::empty(),
{
    let totals: PhaseTotals = PhaseTotals { names: Vec::new(), nanos: Vec::new() };
    assert(totals@ =~= Map::<Seq<char>, nat>::empty());
    totals
}

/// Forgets all totals, for the next run.
pub fn reset_phases(totals: &mut PhaseTotals)
    ensures
        final(totals).wf(),
        final(totals)@ == Map::<Seq<char>, nat>::empty(),
{
    *totals = phase_totals();
}

/// Lists the totals in whole milliseconds. They stay as they are.
pub fn take_phases(totals: &PhaseTotals) -> (phases: Vec<Phase>)
    requires
        totals.wf(),
    ensures
        lists_totals(phase_views(phases@), totals@),
        forall|i: int|
            0 <= i < phases@.len() ==> totals@.dom().contains((#[trigger] phases@[i]).name@)
                && phases@[i].ms == totals@[phases@[i].name@] / 1_000_000,
        forall|name: Seq<char>| #[trigger]
            totals@.dom().contains(name) ==> exists|i: int|
                0 <= i < phases@.len() && (#[trigger] phases@[i]).name@ == name,
{
    let ghost names = texts(totals.names@);
    let mut phases: Vec<Phase> = Vec::new();
    let mut i: usize = 0;
    while i < totals.names.len()
        invariant
            totals.wf(),
            names == texts(totals.names@),
            i <= names.len(),
            phases@.len() == i,
            forall|j: int|
                0 <= j < i ==> (#[trigger] phases@[j]).name@ == names[j] && phases@[j].ms
                    == totals.nanos@[j] / NANOS_PER_MS,
        decreases names.len() - i,
    {
        phases.push(Phase { name: totals.names[i].clone(), ms: totals.nanos[i] / NANOS_PER_MS });
        i = i + 1;
    }
    proof {
        assert(phase_names(phase_views(phases@)) =~= names);
        assert forall|j: int| 0 <= j < phases@.len() implies (#[trigger] phase_views(
            phases@,
        )[j]).ms == totals@[phase_views(phases@)[j].name] / NANOS_PER_MS as nat by {
            lemma_entry(names, totals.nanos@, j);
            assert(phases@[j].name@ == names[j]);
        }
        let listed = phase_views(phases@);
        law_phases_tell_the_totals(listed, totals@);
        assert forall|i: int| 0 <= i < phases@.len() implies totals@.dom().contains(
            (#[trigger] phases@[i]).name@,
        ) && phases@[i].ms == totals@[phases@[i].name@] / 1_000_000 by {
            assert(listed[i] == phases@[i]@);
        }
        assert forall|name: Seq<char>| #[trigger] totals@.dom().contains(name) implies exists|i: int|
            0 <= i < phases@.len() && (#[trigger] phases@[i]).name@ == name by {
            let i = choose|i: int| 0 <= i < listed.len() && (#[trigger] listed[i]).name == name;
            assert(phases@[i].name@ == name);
        }
    }
    phases
}

// ---------------------------------------------------------------------------
// Laws
// ---------------------------------------------------------------------------

/// A span adds its duration to the total of its name, which begins at nothing, and
/// leaves the totals of all other names as they are.
pub proof fn law_span_adds_to_its_name_alone(
    totals: Map<Seq<char>, nat>,
    name: Seq<char>,
    nanos: nat,
)
    ensures
        forall|n: Seq<char>| #[trigger]
            with_span(totals, name, nanos).dom().contains(n) <==> totals.dom().contains(n) || n
                == name,
        totals.dom().contains(name) ==> with_span(totals, name, nanos)[name] == totals[name]
            + nanos,
        !totals.dom().contains(name) ==> with_span(totals, name, nanos)[name] == nanos,
        forall|n: Seq<char>|
            n != name && totals.dom().contains(n) ==> #[trigger] with_span(totals, name, nanos)[n]
                == totals[n],
        totals.dom().contains(name) ==> total_of(totals, name) == totals[name],
        !totals.dom().contains(name) ==> total_of(totals, name) == 0,
{
}

/// A list of phases tells the totals where it has a phase for every name that has one
/// and no other, in the order of the names, each with its whole milliseconds.
pub proof fn law_phases_tell_the_totals(phases: Seq<PhaseView>, totals: Map<Seq<char>, nat>)
    requires
        lists_totals(phases, totals),
    ensures
        forall|i: int, j: int|
            0 <= i < j < phases.len() ==> precedes(
                (#[trigger] phases[i]).name,
                (#[trigger] phases[j]).name,
            ),
        forall|i: int|
            0 <= i < phases.len() ==> totals.dom().contains((#[trigger] phases[i]).name)
                && phases[i].ms * 1_000_000 <= totals[phases[i].name] < (phases[i].ms + 1)
                * 1_000_000,
        forall|name: Seq<char>| #[trigger]
            totals.dom().contains(name) ==> exists|i: int|
                0 <= i < phases.len() && (#[trigger] phases[i]).name == name,
{
    let names = phase_names(phases);
    assert forall|i: int| 0 <= i < phases.len() implies #[trigger] names[i] == phases[i].name by {}
    assert forall|i: int, j: int| 0 <= i < j < phases.len() implies precedes(
        (#[trigger] phases[i]).name,
        (#[trigger] phases[j]).name,
    ) by {
        assert(precedes(names[i], names[j]));
    }
    assert forall|i: int| 0 <= i < phases.len() implies totals.dom().contains(
        (#[trigger] phases[i]).name,
    ) && phases[i].ms * 1_000_000 <= totals[phases[i].name] < (phases[i].ms + 1) * 1_000_000 by {
        assert(names.contains(names[i]));
    }
    assert forall|name: Seq<char>| #[trigger] totals.dom().contains(name) implies exists|i: int|
        0 <= i < phases.len() && (#[trigger] phases[i]).name == name by {
        assert(names.contains(name));
        let i = choose|i: int| 0 <= i < names.len() && names[i] == name;
        assert(phases[i].name == name);
    }
}

/// The spans of a name take together what each of them takes; spans of other names
/// take no part in it.
pub proof fn law_time_of_a_name_is_a_sum(spans: Seq<SpanView>, span: SpanView, name: Seq<char>)
    ensures
        time_of(seq![], name) == 0,
        time_of(spans.push(span), span.name) == time_of(spans, span.name) + span.nanos,
        name != span.name ==> time_of(spans.push(span), name) == time_of(spans, name),
        has_span(spans.push(span), name) <==> has_span(spans, name) || name == span.name,
        !has_span(seq![], name),
{
    let more = spans.push(span);
    assert(more.drop_last() =~= spans);
    assert(more.last() == span);
    if has_span(spans, name) {
        let i = choose|i: int| 0 <= i < spans.len() && (#[trigger] spans[i]).name == name;
        assert(more[i].name == name);
    }
    if name == span.name {
        assert(more[spans.len() as int].name == name);
    }
    if has_span(more, name) && name != span.name {
        let i = choose|i: int| 0 <= i < more.len() && (#[trigger] more[i]).name == name;
        assert(spans[i].name == name);
    }
}

/// A millisecond has a million nanoseconds, and a name can take as long as the clock
/// counts: the seconds that fit in 64 bits, and less than one more.
pub proof fn law_units_are_those_of_the_clock()
    ensures
        NANOS_PER_MS == 1_000_000,
        MAX_NANOS == u64::MAX * 1_000_000_000 + 999_999_999,
{
}

} // verus!
