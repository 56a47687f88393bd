//! Answering a metadata query: one lookup in the store for each attribute that
//! the query supplies, and the names common to all that they find.
//!
//! The store itself is out of reach from here. A query is therefore answered in
//! steps: each step either names the next lookup to make, or is the response.

use vstd::prelude::*;
use vstd::set_lib::lemma_set_subset_finite;
use crate::name_set::NameSet;
use crate::order::{
    ascending_listing, lemma_ascending_listing_exists, lemma_ascending_listing_of, lists,
};
use crate::record::{file_name_set, lemma_file_name_set_finite, File, FileView};
use crate::response::{names_response, response_for, response_view, ServerError};
use crate::store::{
    faithful, lemma_faithful_answer_names, names_matching, Lookup, LookupView, StoreError,
};

verus! {

/// The attributes that a query may fix. Those that are present must all hold
/// of a file for its name to be returned.
#[derive(Debug, Clone, PartialEq, Eq)]
pub struct FileFilterAttributes {
    pub file_name: Option<String>,
    pub file_type: Option<String>,
    pub file_upload_date: Option<i32>,
}

/// The attributes of a query as plain values.
pub ghost struct FileFilterAttributesView {
    pub file_name: Option<Seq<char>>,
    pub file_type: Option<Seq<char>>,
    pub file_upload_date: Option<int>,
}

impl View for FileFilterAttributes {
    type V = FileFilterAttributesView;

    open spec fn view(&self) -> FileFilterAttributesView {
        FileFilterAttributesView {
            file_name: self.file_name.deep_view(),
            file_type: self.file_type.deep_view(),
            file_upload_date: match self.file_upload_date {
                Some(date) => Some(date as int),
                None => None,
            },
        }
    }
}

/// The lookups that a query calls for: one for each attribute that is present,
/// the name first, then the type, then the date.
pub open spec fn lookups(attributes: FileFilterAttributesView) -> Seq<LookupView> {
    let by_name = match attributes.file_name {
        Some(name) => seq![LookupView::FileName(name)],
        None => seq![],
    };
    let by_type = match attributes.file_type {
        Some(kind) => seq![LookupView::FileType(kind)],
        None => seq![],
    };
    let by_date = match attributes.file_upload_date {
        Some(date) => seq![LookupView::FileUploadDate(date)],
        None => seq![],
    };
    by_name + by_type + by_date
}

/// `name` is a member of every set in `found`.
pub open spec fn in_all(found: Seq<Set<Seq<char>>>, name: Seq<char>) -> bool {
    forall|i: int| 0 <= i < found.len() ==> (#[trigger] found[i]).contains(name)
}

/// The names that a query returns, given the names that each of its lookups
/// found: those that every lookup found, and none where there was no lookup.
pub open spec fn common_names(found: Seq<Set<Seq<char>>>) -> Set<Seq<char>> {
    if found.len() == 0 {
        Set::empty()
    } else {
        Set::new(|name: Seq<char>| in_all(found, name))
    }
}

/// A query under way: the lookups still to be made after the one that is out,
/// and the names found by those that have been answered.
pub struct FilterRun {
    pending: FileFilterAttributes,
    found: Vec<NameSet>,
}

/// A query under way as plain values: the lookups still to be made, in their
/// order, and the names that each answered lookup found.
pub ghost struct FilterRunView {
    pub pending: Seq<LookupView>,
    pub found: Seq<Set<Seq<char>>>,
}

impl View for FilterRun {
    type V = FilterRunView;

    closed spec fn view(&self) -> FilterRunView {
        FilterRunView { pending: lookups(self.pending@), found: self.found.deep_view() }
    }
}

/// What is to happen next for a query.
pub enum FilterStep {
    /// Make this lookup, and hand what it returns to the run.
    Find(Lookup, FilterRun),
    /// The query is answered.
    Respond(Result<String, ServerError>),
}

/// A step as plain values.
pub ghost enum FilterStepView {
    Find(LookupView, FilterRunView),
    Respond(Result<Seq<char>, ServerError>),
}

impl View for FilterStep {
    type V = FilterStepView;

    open spec fn view(&self) -> FilterStepView {
        match self {
            FilterStep::Find(lookup, run) => FilterStepView::Find(lookup@, run@),
            FilterStep::Respond(response) => FilterStepView::Respond(response_view(*response)),
        }
    }
}

/// The step that follows when `pending` lookups are still to be made and the
/// earlier ones found `found`: the first pending lookup, or, where none is
/// left, the common names in ascending order as a JSON array.
pub open spec fn step_after(pending: Seq<LookupView>, found: Seq<Set<Seq<char>>>) -> FilterStepView {
    if pending.len() > 0 {
        FilterStepView::Find(pending[0], FilterRunView { pending: pending.drop_first(), found })
    } else {
        FilterStepView::Respond(
            response_for(ascending_listing(common_names(found))),
        )
    }
}

/// The names common to all sets in `found`, in ascending order; no name where
/// `found` is empty.
///
/// The two sets found last are replaced by their intersection until one set is
/// left.
pub fn common(found: Vec<NameSet>) -> (names: Vec<String>)
    ensures
        lists(names.deep_view(), common_names(found.deep_view())),
{
    let ghost given = found.deep_view();
    let mut found = found;
    while found.len() > 1
        invariant
            common_names(found.deep_view()) == common_names(given),
        decreases found.len(),
    {
        let ghost before = found.deep_view();
        let ghost n = found.len() - 2;
        let a = found.pop().unwrap();
        let b = found.pop().unwrap();
        found.push(a.intersection(&b));
        proof {
            let after = found.deep_view();
            assert(after.len() == n + 1);
            assert(after[n] == before[n + 1].intersect(before[n]));
            assert forall|i: int| 0 <= i < n implies after[i] == before[i] by {}
            assert forall|name: Seq<char>| in_all(after, name) <==> in_all(before, name) by {
                if in_all(after, name) {
                    assert forall|i: int| 0 <= i < before.len() implies (#[trigger] before[i]).contains(
                        name,
                    ) by {
                        if i < n {
                            assert(after[i].contains(name));
                        } else {
                            assert(after[n].contains(name));
                        }
                    }
                }
                if in_all(before, name) {
                    assert forall|i: int| 0 <= i < after.len() implies (#[trigger] after[i]).contains(
                        name,
                    ) by {
                        if i < n {
                            assert(before[i].contains(name));
                        } else {
                            assert(before[n].contains(name));
                            assert(before[n + 1].contains(name));
                        }
                    }
                }
            }
            assert(common_names(after) =~= common_names(before));
        }
    }
    if found.len() == 1 {
        let ghost last = found.deep_view();
        let only = found.pop().unwrap();
        proof {
            assert forall|name: Seq<char>| in_all(last, name) <==> last[0].contains(name) by {
                if last[0].contains(name) {
                    assert forall|i: int| 0 <= i < last.len() implies (#[trigger] last[i]).contains(
                        name,
                    ) by {}
                }
            }
            assert(common_names(last) =~= only@);
        }
        only.into_names()
    } else {
        let names: Vec<String> = Vec::new();
        proof {
            assert(names.deep_view().to_set() =~= Set::<Seq<char>>::empty());
        }
        names
    }
}

/// The step that follows from the attributes not yet looked up and the names
/// found so far.
fn next_step(pending: FileFilterAttributes, found: Vec<NameSet>) -> (step: FilterStep)
    ensures
        step@ == step_after(lookups(pending@), found.deep_view()),
{
    let ghost plan = lookups(pending@);
    let FileFilterAttributes { file_name, file_type, file_upload_date } = pending;
    if let Some(name) = file_name {
        let rest = FileFilterAttributes { file_name: None, file_type, file_upload_date };
        proof {
            assert(lookups(rest@) =~= plan.drop_first());
        }
        return FilterStep::Find(Lookup::FileName(name), FilterRun { pending: rest, found });
    }
    if let Some(kind) = file_type {
        let rest = FileFilterAttributes { file_name: None, file_type: None, file_upload_date };
        proof {
            assert(lookups(rest@) =~= plan.drop_first());
        }
        return FilterStep::Find(Lookup::FileType(kind), FilterRun { pending: rest, found });
    }
    if let Some(date) = file_upload_date {
        let rest = FileFilterAttributes { file_name: None, file_type: None, file_upload_date: None };
        proof {
            assert(lookups(rest@) =~= plan.drop_first());
        }
        return FilterStep::Find(Lookup::FileUploadDate(date), FilterRun { pending: rest, found });
    }
    let ghost sets = found.deep_view();
    let names = common(found);
    proof {
        assert(plan.len() == 0);
        lemma_ascending_listing_of(names.deep_view());
    }
    FilterStep::Respond(names_response(&names))
}

/// Begins to answer a query: the first lookup that it calls for, or, where it
/// fixes no attribute, the response with no name in it.
pub fn filter_files(attributes: FileFilterAttributes) -> (step: FilterStep)
    ensures
        step@ == step_after(lookups(attributes@), Seq::empty()),
{
    let found: Vec<NameSet> = Vec::new();
    proof {
        assert(found.deep_view() =~= Seq::empty());
    }
    next_step(attributes, found)
}

impl FilterRun {
    /// Takes what the store returned for the lookup that is out. Rows add the
    /// set of their names to what was found, and the next step follows; a
    /// failure of the store ends the query with a server failure, and no
    /// further lookup is made.
    pub fn advance(self, answer: Result<Vec<File>, StoreError>) -> (step: FilterStep)
        ensures
            step@ == match answer {
                Ok(rows) => step_after(
                    self@.pending,
                    self@.found.push(file_name_set(rows.deep_view())),
                ),
                Err(_) => FilterStepView::Respond(Err(ServerError)),
            },
    {
        match answer {
            Ok(rows) => {
                let FilterRun { pending, found } = self;
                let mut found = found;
                let ghost had = found.deep_view();
                let names = NameSet::from_files(rows);
                found.push(names);
                proof {
                    assert(found.deep_view() =~= had.push(file_name_set(rows.deep_view())));
                }
                next_step(pending, found)
            },
            Err(_) => FilterStep::Respond(Err(ServerError)),
        }
    }
}

/// The common names of one set are its members, and a further set narrows the
/// common names to those that it holds too: the common names are the
/// intersection of the sets, in whatever order they are intersected.
pub proof fn lemma_common_names_intersect(found: Seq<Set<Seq<char>>>, next: Set<Seq<char>>)
    ensures
        common_names(seq![next]) == next,
        found.len() > 0 ==> common_names(found.push(next)) == common_names(found).intersect(next),
{
    let one = seq![next];
    assert forall|name: Seq<char>| in_all(one, name) <==> next.contains(name) by {
        if in_all(one, name) {
            assert(one[0].contains(name));
        }
    }
    assert(common_names(one) =~= next);
    if found.len() > 0 {
        let more = found.push(next);
        assert forall|name: Seq<char>| in_all(more, name) <==> in_all(found, name)
            && next.contains(name) by {
            if in_all(more, name) {
                assert(more[found.len() as int].contains(name));
                assert forall|i: int| 0 <= i < found.len() implies (#[trigger] found[i]).contains(
                    name,
                ) by {
                    assert(more[i].contains(name));
                }
            }
        }
        assert(common_names(more) =~= common_names(found).intersect(next));
    }
}

/// The response to a query of which `pending` lookups are still to be made,
/// the earlier ones having found `found`, from a store that answers each
/// lookup with the rows that `answers` gives for it.
pub open spec fn outcome(
    pending: Seq<LookupView>,
    found: Seq<Set<Seq<char>>>,
    answers: spec_fn(LookupView) -> Seq<FileView>,
) -> Result<Seq<char>, ServerError>
    decreases pending.len(),
{
    match step_after(pending, found) {
        FilterStepView::Find(lookup, run) => outcome(
            run.pending,
            run.found.push(file_name_set(answers(lookup))),
            answers,
        ),
        FilterStepView::Respond(response) => response,
    }
}

/// The names that each of `lookups` finds in `answers`.
pub open spec fn names_found(
    lookups: Seq<LookupView>,
    answers: spec_fn(LookupView) -> Seq<FileView>,
) -> Seq<Set<Seq<char>>> {
    lookups.map_values(|lookup: LookupView| file_name_set(answers(lookup)))
}

/// The listing of no names is empty.
pub proof fn lemma_no_names_listing()
    ensures
        ascending_listing(Set::<Seq<char>>::empty()) == Seq::<Seq<char>>::empty(),
{
    let none = Seq::<Seq<char>>::empty();
    assert(none.to_set() =~= Set::<Seq<char>>::empty());
    lemma_ascending_listing_of(none);
}

/// Every set in `found` is finite.
pub open spec fn all_finite(found: Seq<Set<Seq<char>>>) -> bool {
    forall|i: int| 0 <= i < found.len() ==> (#[trigger] found[i]).finite()
}

/// The names common to finite sets are listed in full: the listing that a
/// response encodes is ascending, holds every common name once, and holds no
/// other name.
pub proof fn lemma_common_names_are_listed(found: Seq<Set<Seq<char>>>)
    requires
        all_finite(found),
    ensures
        common_names(found).finite(),
        lists(ascending_listing(common_names(found)), common_names(found)),
{
    if found.len() > 0 {
        assert forall|name: Seq<char>| common_names(found).contains(name) implies found[0].contains(
            name,
        ) by {
            assert(in_all(found, name));
        }
        assert(common_names(found).subset_of(found[0]));
        lemma_set_subset_finite(found[0], common_names(found));
    }
    lemma_ascending_listing_exists(common_names(found));
}

/// A query is answered with the names that every one of its lookups found,
/// each once and in ascending order, whatever the order in which the sets
/// were combined.
pub proof fn lemma_outcome_is_common_names(
    pending: Seq<LookupView>,
    found: Seq<Set<Seq<char>>>,
    answers: spec_fn(LookupView) -> Seq<FileView>,
)
    requires
        all_finite(found),
    ensures
        ({
            let names = common_names(found + names_found(pending, answers));
            &&& outcome(pending, found, answers) == response_for(ascending_listing(names))
            &&& lists(ascending_listing(names), names)
        }),
    decreases pending.len(),
{
    if pending.len() == 0 {
        assert(found + names_found(pending, answers) =~= found);
        lemma_common_names_are_listed(found);
    } else {
        let more = found.push(file_name_set(answers(pending[0])));
        lemma_file_name_set_finite(answers(pending[0]));
        lemma_outcome_is_common_names(pending.drop_first(), more, answers);
        assert(more + names_found(pending.drop_first(), answers) =~= found + names_found(
            pending,
            answers,
        ));
    }
}

/// From a store that holds `table` and answers faithfully, a query is answered
/// with the names that, for each attribute it fixes, some row of the table
/// with that value bears: each such name once, in ascending order, and no
/// other name.
pub proof fn lemma_outcome_over_table(
    attributes: FileFilterAttributesView,
    table: Seq<FileView>,
    answers: spec_fn(LookupView) -> Seq<FileView>,
)
    requires
        forall|lookup: LookupView| faithful(table, lookup, #[trigger] answers(lookup)),
    ensures
        ({
            let names = common_names(
                lookups(attributes).map_values(|lookup: LookupView| names_matching(table, lookup)),
            );
            &&& outcome(lookups(attributes), Seq::empty(), answers) == response_for(
                ascending_listing(names),
            )
            &&& lists(ascending_listing(names), names)
        }),
{
    let plan = lookups(attributes);
    let asked = plan.map_values(|lookup: LookupView| names_matching(table, lookup));
    lemma_outcome_is_common_names(plan, Seq::empty(), answers);
    assert forall|i: int| 0 <= i < plan.len() implies names_found(plan, answers)[i] == asked[i] by {
        lemma_faithful_answer_names(table, plan[i], answers(plan[i]));
    }
    assert(Seq::<Set<Seq<char>>>::empty() + names_found(plan, answers) =~= asked);
}

/// A query that fixes no attribute makes no lookup and is answered with no
/// name.
pub proof fn lemma_no_attribute_no_name(
    attributes: FileFilterAttributesView,
    answers: spec_fn(LookupView) -> Seq<FileView>,
)
    requires
        attributes.file_name is None,
        attributes.file_type is None,
        attributes.file_upload_date is None,
    ensures
        step_after(lookups(attributes), Seq::empty()) == FilterStepView::Respond(
            response_for(Seq::empty()),
        ),
        outcome(lookups(attributes), Seq::empty(), answers) == response_for(Seq::empty()),
{
    assert(lookups(attributes) =~= Seq::empty());
    lemma_no_names_listing();
}

/// A query with two lookups whose answers have no name in common is answered
/// with no name.
pub proof fn lemma_disjoint_answers_no_name(
    attributes: FileFilterAttributesView,
    answers: spec_fn(LookupView) -> Seq<FileView>,
)
    requires
        lookups(attributes).len() == 2,
        forall|i: int, j: int|
            0 <= i < answers(lookups(attributes)[0]).len() && 0 <= j < answers(
                lookups(attributes)[1],
            ).len() ==> (#[trigger] answers(lookups(attributes)[0])[i]).file_name != (
            #[trigger] answers(lookups(attributes)[1])[j]).file_name,
    ensures
        outcome(lookups(attributes), Seq::empty(), answers) == response_for(Seq::empty()),
{
    let plan = lookups(attributes);
    let found = Seq::<Set<Seq<char>>>::empty() + names_found(plan, answers);
    lemma_outcome_is_common_names(plan, Seq::empty(), answers);
    assert forall|name: Seq<char>| !in_all(found, name) by {
        if in_all(found, name) {
            assert(found[0].contains(name));
            assert(found[1].contains(name));
        }
    }
    assert(common_names(found) =~= Set::<Seq<char>>::empty());
    lemma_no_names_listing();
}

} // verus!
