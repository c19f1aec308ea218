//! The benchmark cases, and what each of them runs.
use vstd::prelude::*;

use crate::text::{contains, copied, occurs_in, optional_str, texts};

verus! {

/// The command under test.
#[derive(Clone, Copy, PartialEq, Eq, Structural, Debug)]
pub enum Kind {
    Generate,
    Validate,
    GenerateAndValidate,
}

/// One benchmark case.
#[derive(Clone, Copy)]
pub struct Case {
    pub name: &'static str,
    pub kind: Kind,
    /// How many files the command is given; none for a run over the whole project.
    pub files: usize,
    pub no_cache: bool,
}

/// The mathematical content of a [`Case`].
pub struct CaseView {
    pub name: Seq<char>,
    pub kind: Kind,
    pub files: nat,
    pub no_cache: bool,
}

impl View for Case {
    type V = CaseView;

    open spec fn view(&self) -> CaseView {
        CaseView {
            name: self.name@,
            kind: self.kind,
            files: self.files as nat,
            no_cache: self.no_cache,
        }
    }
}

/// The content of a list of cases.
pub open spec fn case_views(cases: Seq<Case>) -> Seq<CaseView> {
    cases.map_values(|c: Case| c@)
}

/// The content of one case.
pub open spec fn case_view(name: Seq<char>, kind: Kind, files: nat, no_cache: bool) -> CaseView {
    CaseView { name, kind, files, no_cache }
}

/// All cases, in the order in which they are measured.
///
/// `gv <paths>` is the likely real-world pre-commit / CI invocation, and it is
/// not interchangeable with `validate <paths>`: generate needs the project
/// build, so an optimization that bypasses that build cannot apply here.
/// Measured separately so a win on `validate <paths>` is never mistaken for a
/// win on the command people actually run.
pub open spec fn all_cases() -> Seq<CaseView> {
    seq![
        case_view("generate"@, Kind::Generate, 0, false),
        case_view("validate_all"@, Kind::Validate, 0, false),
        case_view("gv"@, Kind::GenerateAndValidate, 0, false),
        case_view("gv_files_100"@, Kind::GenerateAndValidate, 100, false),
        case_view("gv_files_1000"@, Kind::GenerateAndValidate, 1000, false),
        case_view("validate_all_cold"@, Kind::Validate, 0, true),
        case_view("validate_files_1"@, Kind::Validate, 1, false),
        case_view("validate_files_100"@, Kind::Validate, 100, false),
        case_view("validate_files_1000"@, Kind::Validate, 1000, false),
        case_view("validate_files_2000"@, Kind::Validate, 2000, false),
    ]
}

/// Lists all cases.
pub fn cases() -> (list: Vec<Case>)
    ensures
        case_views(list@) == all_cases(),
{
    let list: Vec<Case> = vec![
        Case { name: "generate", kind: Kind::Generate, files: 0, no_cache: false },
        Case { name: "validate_all", kind: Kind::Validate, files: 0, no_cache: false },
        Case { name: "gv", kind: Kind::GenerateAndValidate, files: 0, no_cache: false },
        Case { name: "gv_files_100", kind: Kind::GenerateAndValidate, files: 100, no_cache: false },
        Case {
            name: "gv_files_1000",
            kind: Kind::GenerateAndValidate,
            files: 1000,
            no_cache: false,
        },
        Case { name: "validate_all_cold", kind: Kind::Validate, files: 0, no_cache: true },
        Case { name: "validate_files_1", kind: Kind::Validate, files: 1, no_cache: false },
        Case { name: "validate_files_100", kind: Kind::Validate, files: 100, no_cache: false },
        Case { name: "validate_files_1000", kind: Kind::Validate, files: 1000, no_cache: false },
        Case { name: "validate_files_2000", kind: Kind::Validate, files: 2000, no_cache: false },
    ];
    assert(case_views(list@) =~= all_cases());
    list
}

/// The case is asked for: every case is without a filter, and with one those whose
/// name holds it.
pub open spec fn is_selected(case: CaseView, filter: Option<Seq<char>>) -> bool {
    match filter {
        Some(filter) => occurs_in(filter, case.name),
        None => true,
    }
}

/// The cases that are asked for, in their order.
pub open spec fn selected_cases(filter: Option<Seq<char>>) -> Seq<CaseView> {
    all_cases().filter(|c: CaseView| is_selected(c, filter))
}

/// Without a filter all cases are measured.
pub proof fn law_no_filter_selects_all()
    ensures
        selected_cases(None) == all_cases(),
{
    let keep = |c: CaseView| is_selected(c, None);
    lemma_filter_keeps_all(all_cases(), keep);
}

proof fn lemma_filter_keeps_all(list: Seq<CaseView>, keep: spec_fn(CaseView) -> bool)
    requires
        forall|c: CaseView| #[trigger] keep(c),
    ensures
        list.filter(keep) == list,
    decreases list.len(),
{
    reveal(Seq::filter);
    if list.len() > 0 {
        lemma_filter_keeps_all(list.drop_last(), keep);
        assert(list.drop_last().push(list.last()) =~= list);
    }
}

/// Picks the cases to measure. A filter that no case meets is an error.
pub fn select_cases(filter: Option<&str>) -> (selected: Result<Vec<Case>, String>)
    ensures
        match selected {
            Ok(list) => {
                &&& case_views(list@) == selected_cases(optional_str(filter))
                &&& list@.len() > 0
            },
            Err(message) => {
                &&& selected_cases(optional_str(filter)).len() == 0
                &&& message@ == "no cases matched --case"@
            },
        },
{
    let all: Vec<Case> = cases();
    let ghost wanted = optional_str(filter);
    let ghost keep = |c: CaseView| is_selected(c, wanted);
    let mut list: Vec<Case> = Vec::new();
    let mut i: usize = 0;
    proof {
        reveal(Seq::filter);
        assert(all_cases().take(0) =~= seq![]);
        assert(case_views(list@) =~= all_cases().take(0).filter(keep));
    }
    while i < all.len()
        invariant
            case_views(all@) == all_cases(),
            wanted == optional_str(filter),
            keep == (|c: CaseView| is_selected(c, wanted)),
            i <= all@.len(),
            case_views(list@) == all_cases().take(i as int).filter(keep),
        decreases all@.len() - i,
    {
        let case: Case = all[i];
        let asked: bool = match filter {
            Some(text) => contains(case.name, text),
            None => true,
        };
        proof {
            reveal(Seq::filter);
            assert(all_cases()[i as int] == case@);
            assert(all_cases().take(i + 1).drop_last() =~= all_cases().take(i as int));
            assert(all_cases().take(i + 1).last() == case@);
            assert(keep(case@) == asked);
        }
        if asked {
            let ghost before = case_views(list@);
            list.push(case);
            assert(case_views(list@) =~= before.push(case@));
        }
        i = i + 1;
    }
    assert(all_cases().take(i as int) =~= all_cases());
    if list.len() == 0 {
        Err("no cases matched --case".to_owned())
    } else {
        Ok(list)
    }
}

/// One run of a command on the corpus. Nothing is staged in git by it.
pub enum Invocation {
    Generate { no_cache: bool, stage: bool },
    Validate { no_cache: bool, files: Vec<String> },
    GenerateAndValidate { no_cache: bool, files: Vec<String>, stage: bool },
}

/// The mathematical content of an [`Invocation`].
pub enum InvocationView {
    Generate { no_cache: bool, stage: bool },
    Validate { no_cache: bool, files: Seq<Seq<char>> },
    GenerateAndValidate { no_cache: bool, files: Seq<Seq<char>>, stage: bool },
}

impl View for Invocation {
    type V = InvocationView;

    open spec fn view(&self) -> InvocationView {
        match self {
            Invocation::Generate { no_cache, stage } => InvocationView::Generate {
                no_cache: *no_cache,
                stage: *stage,
            },
            Invocation::Validate { no_cache, files } => InvocationView::Validate {
                no_cache: *no_cache,
                files: texts(files@),
            },
            Invocation::GenerateAndValidate {
                no_cache,
                files,
                stage,
            } => InvocationView::GenerateAndValidate {
                no_cache: *no_cache,
                files: texts(files@),
                stage: *stage,
            },
        }
    }
}

/// What a case runs on some files.
pub open spec fn invocation_of(case: CaseView, files: Seq<Seq<char>>) -> InvocationView {
    match case.kind {
        Kind::Generate => InvocationView::Generate { no_cache: case.no_cache, stage: false },
        Kind::Validate => InvocationView::Validate { no_cache: case.no_cache, files },
        Kind::GenerateAndValidate => InvocationView::GenerateAndValidate {
            no_cache: case.no_cache,
            files,
            stage: false,
        },
    }
}

/// Decides what a case runs on the files that it is given.
pub fn run_case(case: &Case, files: &Vec<String>) -> (invocation: Invocation)
    ensures
        invocation@ == invocation_of(case@, texts(files@)),
        match invocation {
            Invocation::Generate { no_cache, stage } => {
                &&& case.kind == Kind::Generate
                &&& no_cache == case.no_cache
                &&& !stage
            },
            Invocation::Validate { no_cache, files: given } => {
                &&& case.kind == Kind::Validate
                &&& no_cache == case.no_cache
                &&& given@.len() == files@.len()
                &&& forall|i: int|
                    0 <= i < files@.len() ==> (#[trigger] given@[i])@ == files@[i]@
            },
            Invocation::GenerateAndValidate { no_cache, files: given, stage } => {
                &&& case.kind == Kind::GenerateAndValidate
                &&& no_cache == case.no_cache
                &&& given@.len() == files@.len()
                &&& forall|i: int|
                    0 <= i < files@.len() ==> (#[trigger] given@[i])@ == files@[i]@
                &&& !stage
            },
        },
{
    match case.kind {
        Kind::Generate => Invocation::Generate { no_cache: case.no_cache, stage: false },
        Kind::Validate => Invocation::Validate { no_cache: case.no_cache, files: copied(files) },
        Kind::GenerateAndValidate => Invocation::GenerateAndValidate {
            no_cache: case.no_cache,
            files: copied(files),
            stage: false,
        },
    }
}

// ---------------------------------------------------------------------------
// Laws
// ---------------------------------------------------------------------------

/// There are ten cases: the three commands over the whole project, `validate` over it
/// without a cache, and two of the commands on lists of files.
pub proof fn law_cases_are_these()
    ensures
        all_cases().len() == 10,
        all_cases()[0] == (CaseView {
            name: "generate"@,
            kind: Kind::Generate,
            files: 0,
            no_cache: false,
        }),
        all_cases()[1] == (CaseView {
            name: "validate_all"@,
            kind: Kind::Validate,
            files: 0,
            no_cache: false,
        }),
        all_cases()[2] == (CaseView {
            name: "gv"@,
            kind: Kind::GenerateAndValidate,
            files: 0,
            no_cache: false,
        }),
        all_cases()[3] == (CaseView {
            name: "gv_files_100"@,
            kind: Kind::GenerateAndValidate,
            files: 100,
            no_cache: false,
        }),
        all_cases()[4] == (CaseView {
            name: "gv_files_1000"@,
            kind: Kind::GenerateAndValidate,
            files: 1000,
            no_cache: false,
        }),
        all_cases()[5] == (CaseView {
            name: "validate_all_cold"@,
            kind: Kind::Validate,
            files: 0,
            no_cache: true,
        }),
        all_cases()[6] == (CaseView {
            name: "validate_files_1"@,
            kind: Kind::Validate,
            files: 1,
            no_cache: false,
        }),
        all_cases()[7] == (CaseView {
            name: "validate_files_100"@,
            kind: Kind::Validate,
            files: 100,
            no_cache: false,
        }),
        all_cases()[8] == (CaseView {
            name: "validate_files_1000"@,
            kind: Kind::Validate,
            files: 1000,
            no_cache: false,
        }),
        all_cases()[9] == (CaseView {
            name: "validate_files_2000"@,
            kind: Kind::Validate,
            files: 2000,
            no_cache: false,
        }),
{
}

/// What is known of a case is its name, its command, how many files it gets and
/// whether it runs without a cache, and of a list of cases each of them.
pub proof fn law_case_views_are_the_fields(case: Case, list: Seq<Case>)
    ensures
        case@.name == case.name@,
        case@.kind == case.kind,
        case@.files == case.files,
        case@.no_cache == case.no_cache,
        case_views(list).len() == list.len(),
        forall|i: int| 0 <= i < list.len() ==> #[trigger] case_views(list)[i] == list[i]@,
{
}

/// The selection holds the cases whose names hold the filter, all cases without one,
/// and no other; they stay in their order.
pub proof fn law_selection_is_by_name(filter: Option<Seq<char>>)
    ensures
        forall|i: int|
            0 <= i < selected_cases(filter).len() ==> {
                &&& all_cases().contains(#[trigger] selected_cases(filter)[i])
                &&& filter is Some ==> occurs_in(filter->0, selected_cases(filter)[i].name)
            },
        forall|k: int|
            0 <= k < all_cases().len() && (filter is None || occurs_in(
                filter->0,
                (#[trigger] all_cases()[k]).name,
            )) ==> selected_cases(filter).contains(all_cases()[k]),
        forall|i: int, j: int|
            0 <= i < j < selected_cases(filter).len() ==> exists|k: int, l: int|
                0 <= k < l < all_cases().len() && #[trigger] all_cases()[k]
                    == #[trigger] selected_cases(filter)[i] && #[trigger] all_cases()[l]
                    == #[trigger] selected_cases(filter)[j],
{
    let keep = |c: CaseView| is_selected(c, filter);
    let all = all_cases();
    let picked = selected_cases(filter);
    broadcast use vstd::seq_lib::group_filter_ensures;

    assert forall|i: int| 0 <= i < picked.len() implies {
        &&& all.contains(#[trigger] picked[i])
        &&& filter is Some ==> occurs_in(filter->0, picked[i].name)
    } by {
        let k = lemma_filtered_comes_from(all, keep, i);
        assert(keep(picked[i]));
    }
    assert forall|k: int|
        0 <= k < all.len() && (filter is None || occurs_in(
            filter->0,
            (#[trigger] all[k]).name,
        )) implies picked.contains(all[k]) by {
        assert(keep(all[k]));
    }
    assert forall|i: int, j: int| 0 <= i < j < picked.len() implies exists|k: int, l: int|
        0 <= k < l < all.len() && #[trigger] all[k] == #[trigger] picked[i] && #[trigger] all[l]
            == #[trigger] picked[j] by {
        let (k, l) = lemma_filtered_stay_in_order(all, keep, i, j);
        assert(all[k] == picked[i] && all[l] == picked[j]);
    }
}

proof fn lemma_filtered_comes_from(
    list: Seq<CaseView>,
    keep: spec_fn(CaseView) -> bool,
    i: int,
) -> (k: int)
    requires
        0 <= i < list.filter(keep).len(),
    ensures
        0 <= k < list.len(),
        list[k] == list.filter(keep)[i],
    decreases list.len(),
{
    reveal(Seq::filter);
    let rest = list.drop_last();
    if i < rest.filter(keep).len() {
        let k = lemma_filtered_comes_from(rest, keep, i);
        assert(rest[k] == list[k]);
        k
    } else {
        list.len() - 1
    }
}

proof fn lemma_filtered_stay_in_order(
    list: Seq<CaseView>,
    keep: spec_fn(CaseView) -> bool,
    i: int,
    j: int,
) -> (indices: (int, int))
    requires
        0 <= i < j < list.filter(keep).len(),
    ensures
        0 <= indices.0 < indices.1 < list.len(),
        list[indices.0] == list.filter(keep)[i],
        list[indices.1] == list.filter(keep)[j],
    decreases list.len(),
{
    reveal(Seq::filter);
    let rest = list.drop_last();
    if j < rest.filter(keep).len() {
        let (k, l) = lemma_filtered_stay_in_order(rest, keep, i, j);
        assert(rest[k] == list[k] && rest[l] == list[l]);
        (k, l)
    } else {
        let k = lemma_filtered_comes_from(rest, keep, i);
        assert(rest[k] == list[k]);
        (k, list.len() - 1)
    }
}

/// A case runs its own command, with or without a cache as it says, stages nothing,
/// and hands all the files on that it is given, in their order. Only `generate` takes
/// none.
pub proof fn law_case_runs_its_command_on_all_files(case: CaseView, files: Seq<Seq<char>>)
    ensures
        match invocation_of(case, files) {
            InvocationView::Generate { no_cache, stage } => {
                &&& case.kind == Kind::Generate
                &&& no_cache == case.no_cache
                &&& !stage
            },
            InvocationView::Validate { no_cache, files: given } => {
                &&& case.kind == Kind::Validate
                &&& no_cache == case.no_cache
                &&& given.len() == files.len()
                &&& forall|i: int| 0 <= i < files.len() ==> #[trigger] given[i] == files[i]
            },
            InvocationView::GenerateAndValidate { no_cache, files: given, stage } => {
                &&& case.kind == Kind::GenerateAndValidate
                &&& no_cache == case.no_cache
                &&& given.len() == files.len()
                &&& forall|i: int| 0 <= i < files.len() ==> #[trigger] given[i] == files[i]
                &&& !stage
            },
        },
{
}

/// What is known of an invocation is its command, its flags and its files.
pub proof fn law_invocation_views_are_the_fields(no_cache: bool, stage: bool, files: Vec<String>)
    ensures
        (Invocation::Generate { no_cache, stage })@ == (InvocationView::Generate {
            no_cache,
            stage,
        }),
        (Invocation::Validate { no_cache, files })@ == (InvocationView::Validate {
            no_cache,
            files: texts(files@),
        }),
        (Invocation::GenerateAndValidate { no_cache, files, stage })@ == (
        InvocationView::GenerateAndValidate { no_cache, files: texts(files@), stage }),
{
}

} // verus!
