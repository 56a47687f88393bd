//! Sets of file names, kept in ascending order.

use vstd::prelude::*;
use crate::order::{
    compare_names, lemma_name_less_irreflexive, lemma_name_less_transitive, name_less,
    lists, strictly_ascending, Rank,
};
use crate::record::{file_name_set, File};

verus! {

/// A finite set of file names.
///
/// The names are held in ascending order and none occurs twice, so that two
/// sets with the same members list them in the same order.
pub struct NameSet {
    names: Vec<String>,
}

/// Whether `a` comes strictly before `b`.
fn comes_before(a: &str, b: &str) -> (before: bool)
    ensures
        before == name_less(a@, b@),
{
    match compare_names(a, b) {
        Rank::Before => true,
        _ => false,
    }
}

/// Puts `name` at its place in an ascending list, unless it is there already.
fn insert_ascending(names: &mut Vec<String>, name: String)
    requires
        strictly_ascending(old(names).deep_view()),
    ensures
        strictly_ascending(final(names).deep_view()),
        final(names).deep_view().to_set() == old(names).deep_view().to_set().insert(name@),
{
    let ghost before = names.deep_view();
    let mut i: usize = 0;
    while i < names.len() && comes_before(names[i].as_str(), name.as_str())
        invariant
            i <= names.len(),
            names.deep_view() == before,
            forall|k: int| 0 <= k < i ==> name_less(before[k], name@),
        decreases names.len() - i,
    {
        i = i + 1;
    }
    if i < names.len() {
        match compare_names(names[i].as_str(), name.as_str()) {
            Rank::Same => {
                proof {
                    assert(before[i as int] == name@);
                    assert(before.to_set() =~= before.to_set().insert(name@));
                }
                return ;
            },
            _ => {},
        }
    }
    names.insert(i, name);
    proof {
        let after = names.deep_view();
        assert(after.len() == before.len() + 1);
        assert(after[i as int] == name@);
        assert forall|k: int| 0 <= k < i implies after[k] == before[k] by {}
        assert forall|k: int| i < k < after.len() implies after[k] == before[k - 1] by {}
        assert forall|k: int| i <= k < before.len() implies name_less(name@, before[k]) by {
            if k > i {
                lemma_name_less_transitive(name@, before[i as int], before[k]);
            }
        }
        assert forall|a: int, b: int| 0 <= a < b < after.len() implies name_less(
            after[a],
            after[b],
        ) by {
            if a < i && i < b {
                lemma_name_less_transitive(after[a], name@, after[b]);
            }
        }
        assert forall|x: Seq<char>| after.contains(x) <==> (before.contains(x) || x == name@) by {
            if after.contains(x) {
                let k = choose|k: int| 0 <= k < after.len() && after[k] == x;
                if k < i {
                    assert(before[k] == x);
                } else if k > i {
                    assert(before[k - 1] == x);
                }
            }
            if before.contains(x) {
                let k = choose|k: int| 0 <= k < before.len() && before[k] == x;
                if k < i {
                    assert(after[k] == x);
                } else {
                    assert(after[k + 1] == x);
                }
            }
        }
        assert(after.to_set() =~= before.to_set().insert(name@));
    }
}

impl NameSet {
    #[verifier::type_invariant]
    spec fn ascending(&self) -> bool {
        strictly_ascending(self.names.deep_view())
    }

    /// The names of `files`, each once.
    pub fn from_files(files: Vec<File>) -> (set: NameSet)
        ensures
            set@ == file_name_set(files.deep_view()),
    {
        let ghost rows = files.deep_view();
        let mut files = files;
        let mut names: Vec<String> = Vec::new();
        while files.len() > 0
            invariant
                strictly_ascending(names.deep_view()),
                files.len() <= rows.len(),
                forall|k: int| 0 <= k < files.len() ==> (#[trigger] files[k])@ == rows[k],
                forall|x: Seq<char>|
                    names.deep_view().contains(x) <==> exists|k: int|
                        files.len() <= k < rows.len() && #[trigger] rows[k].file_name == x,
            decreases files.len(),
        {
            let ghost taken = names.deep_view();
            let ghost at = files.len() - 1;
            let file = files.pop().unwrap();
            insert_ascending(&mut names, file.file_name);
            proof {
                let grown = names.deep_view();
                assert(rows[at].file_name == file.file_name@);
                assert forall|x: Seq<char>| grown.contains(x) <==> exists|k: int|
                    at <= k < rows.len() && #[trigger] rows[k].file_name == x by {
                    assert(grown.to_set().contains(x) <==> taken.to_set().insert(
                        file.file_name@,
                    ).contains(x));
                }
            }
        }
        proof {
            assert(names.deep_view().to_set() =~= file_name_set(rows));
        }
        NameSet { names }
    }

    /// The names that are members of both sets.
    pub fn intersection(&self, other: &NameSet) -> (common: NameSet)
        ensures
            common@ == self@.intersect(other@),
    {
        proof {
            use_type_invariant(self);
            use_type_invariant(other);
        }
        let ghost la = self.names.deep_view();
        let ghost lb = other.names.deep_view();
        let mut out: Vec<String> = Vec::new();
        let mut i: usize = 0;
        let mut j: usize = 0;
        while i < self.names.len() && j < other.names.len()
            invariant
                i <= la.len(),
                j <= lb.len(),
                la == self.names.deep_view(),
                lb == other.names.deep_view(),
                strictly_ascending(la),
                strictly_ascending(lb),
                strictly_ascending(out.deep_view()),
                forall|k: int, p: int|
                    0 <= k < out.len() && i <= p < la.len() ==> name_less(
                        #[trigger] out.deep_view()[k],
                        #[trigger] la[p],
                    ),
                forall|k: int|
                    0 <= k < out.len() ==> la.contains(#[trigger] out.deep_view()[k])
                        && lb.contains(out.deep_view()[k]),
                forall|p: int, q: int|
                    0 <= p < i && 0 <= q < j && #[trigger] la[p] == #[trigger] lb[q]
                        ==> out.deep_view().contains(la[p]),
                forall|p: int, q: int|
                    0 <= p < i && j <= q < lb.len() ==> #[trigger] la[p] != #[trigger] lb[q],
                forall|p: int, q: int|
                    i <= p < la.len() && 0 <= q < j ==> #[trigger] la[p] != #[trigger] lb[q],
            decreases la.len() - i + lb.len() - j,
        {
            let ghost had = out.deep_view();
            let a = &self.names[i];
            let b = &other.names[j];
            assert(la[i as int] == a@);
            assert(lb[j as int] == b@);
            match compare_names(a.as_str(), b.as_str()) {
                Rank::Before => {
                    proof {
                        assert forall|q: int| j <= q < lb.len() implies la[i as int] != lb[q] by {
                            if q > j {
                                lemma_name_less_transitive(la[i as int], lb[j as int], lb[q]);
                            }
                            lemma_name_less_irreflexive(la[i as int]);
                        }
                    }
                    i = i + 1;
                },
                Rank::After => {
                    proof {
                        assert forall|p: int| i <= p < la.len() implies la[p] != lb[j as int] by {
                            if p > i {
                                lemma_name_less_transitive(lb[j as int], la[i as int], la[p]);
                            }
                            lemma_name_less_irreflexive(lb[j as int]);
                        }
                    }
                    j = j + 1;
                },
                Rank::Same => {
                    out.push(a.clone());
                    proof {
                        let has = out.deep_view();
                        assert(has =~= had.push(la[i as int]));
                        assert forall|q: int| j < q < lb.len() implies la[i as int] != lb[q] by {
                            lemma_name_less_irreflexive(la[i as int]);
                        }
                        assert forall|p: int| i < p < la.len() implies la[p] != lb[j as int] by {
                            lemma_name_less_irreflexive(lb[j as int]);
                        }
                        assert forall|k: int| 0 <= k < has.len() implies la.contains(
                            #[trigger] has[k],
                        ) && lb.contains(has[k]) by {
                            if k < had.len() {
                                assert(has[k] == had[k]);
                            }
                        }
                        assert forall|p: int, q: int|
                            0 <= p < i + 1 && 0 <= q < j + 1 && #[trigger] la[p]
                                == #[trigger] lb[q] implies has.contains(la[p]) by {
                            if p < i && q < j {
                                let k = choose|k: int| 0 <= k < had.len() && had[k] == la[p];
                                assert(has[k] == la[p]);
                            } else {
                                assert(la[p] == la[i as int]);
                                assert(has[had.len() as int] == la[p]);
                            }
                        }
                    }
                    i = i + 1;
                    j = j + 1;
                },
            }
        }
        proof {
            let has = out.deep_view();
            assert forall|x: Seq<char>| has.contains(x) <==> la.contains(x) && lb.contains(x) by {
                if la.contains(x) && lb.contains(x) {
                    let p = choose|p: int| 0 <= p < la.len() && la[p] == x;
                    let q = choose|q: int| 0 <= q < lb.len() && lb[q] == x;
                    assert(la[p] == lb[q]);
                    assert(p < i && q < j);
                }
                if has.contains(x) {
                    let k = choose|k: int| 0 <= k < has.len() && has[k] == x;
                    assert(la.contains(has[k]));
                }
            }
            assert(has.to_set() =~= la.to_set().intersect(lb.to_set()));
        }
        NameSet { names: out }
    }

    /// The members in ascending order.
    pub fn into_names(self) -> (names: Vec<String>)
        ensures
            lists(names.deep_view(), self@),
    {
        proof {
            use_type_invariant(&self);
        }
        self.names
    }
}

impl DeepView for NameSet {
    type V = Set<Seq<char>>;

    open spec fn deep_view(&self) -> Set<Seq<char>> {
        self@
    }
}

impl View for NameSet {
    type V = Set<Seq<char>>;

    closed spec fn view(&self) -> Set<Seq<char>> {
        self.names.deep_view().to_set()
    }
}

} // verus!
