//! The scalar fields of an upload: a mapping from part names to text in which
//! a name that is written again takes the later text.

use vstd::prelude::*;
use crate::order::same_text;

verus! {

/// The mapping that results from writing `entries` one after another.
pub open spec fn entries_map(entries: Seq<(Seq<char>, Seq<char>)>) -> Map<Seq<char>, Seq<char>>
    decreases entries.len(),
{
    if entries.len() == 0 {
        Map::empty()
    } else {
        entries_map(entries.drop_last()).insert(entries.last().0, entries.last().1)
    }
}

/// No name is the key of two entries.
pub open spec fn distinct_keys(entries: Seq<(Seq<char>, Seq<char>)>) -> bool {
    forall|i: int, j: int| 0 <= i < j < entries.len() ==> entries[i].0 != entries[j].0
}

/// A name that is no entry's key is not in the mapping.
proof fn lemma_absent_key(entries: Seq<(Seq<char>, Seq<char>)>, name: Seq<char>)
    requires
        forall|i: int| 0 <= i < entries.len() ==> entries[i].0 != name,
    ensures
        !entries_map(entries).contains_key(name),
    decreases entries.len(),
{
    if entries.len() > 0 {
        lemma_absent_key(entries.drop_last(), name);
    }
}

/// The key of an entry is mapped to that entry's text.
proof fn lemma_present_key(entries: Seq<(Seq<char>, Seq<char>)>, at: int)
    requires
        distinct_keys(entries),
        0 <= at < entries.len(),
    ensures
        entries_map(entries).contains_key(entries[at].0),
        entries_map(entries)[entries[at].0] == entries[at].1,
    decreases entries.len(),
{
    if at < entries.len() - 1 {
        lemma_present_key(entries.drop_last(), at);
    }
}

/// Replacing the text of an entry maps its key to the new text and leaves the
/// rest of the mapping as it was.
proof fn lemma_replaced_entry(entries: Seq<(Seq<char>, Seq<char>)>, at: int, text: Seq<char>)
    requires
        distinct_keys(entries),
        0 <= at < entries.len(),
    ensures
        entries_map(entries.update(at, (entries[at].0, text))) == entries_map(entries).insert(
            entries[at].0,
            text,
        ),
    decreases entries.len(),
{
    let replaced = entries.update(at, (entries[at].0, text));
    if at < entries.len() - 1 {
        lemma_replaced_entry(entries.drop_last(), at, text);
        assert(replaced.drop_last() =~= entries.drop_last().update(at, (entries[at].0, text)));
    } else {
        assert(replaced.drop_last() =~= entries.drop_last());
    }
    assert(entries_map(replaced) =~= entries_map(entries).insert(entries[at].0, text));
}

/// The scalar fields collected from an upload.
pub struct FieldMap {
    entries: Vec<(String, String)>,
}

impl View for FieldMap {
    type V = Map<Seq<char>, Seq<char>>;

    closed spec fn view(&self) -> Map<Seq<char>, Seq<char>> {
        entries_map(self.entries.deep_view())
    }
}

impl FieldMap {
    #[verifier::type_invariant]
    spec fn keys_distinct(&self) -> bool {
        distinct_keys(self.entries.deep_view())
    }

    /// The mapping with no field in it.
    pub fn new() -> (fields: FieldMap)
        ensures
            fields@ == Map::<Seq<char>, Seq<char>>::empty(),
    {
        FieldMap { entries: Vec::new() }
    }

    /// The place of the entry whose key is `name`, if there is one.
    fn position(&self, name: &str) -> (at: Option<usize>)
        ensures
            match at {
                Some(i) => i < self.entries.len() && self.entries.deep_view()[i as int].0 == name@,
                None => forall|i: int|
                    0 <= i < self.entries.len() ==> self.entries.deep_view()[i].0 != name@,
            },
    {
        let mut i: usize = 0;
        while i < self.entries.len()
            invariant
                i <= self.entries.len(),
                forall|k: int| 0 <= k < i ==> self.entries.deep_view()[k].0 != name@,
            decreases self.entries.len() - i,
        {
            if same_text(self.entries[i].0.as_str(), name) {
                return Some(i);
            }
            i = i + 1;
        }
        None
    }

    /// Writes `text` under `name`, in place of what was written under it before.
    pub fn insert(self, name: String, text: String) -> (fields: FieldMap)
        ensures
            fields@ == self@.insert(name@, text@),
    {
        proof {
            use_type_invariant(&self);
        }
        let at = self.position(name.as_str());
        let ghost before = self.entries.deep_view();
        let mut entries = self.entries;
        match at {
            Some(i) => {
                entries.set(i, (name, text));
                proof {
                    lemma_replaced_entry(before, i as int, text@);
                    let after = entries.deep_view();
                    assert(after =~= before.update(i as int, (before[i as int].0, text@)));
                    assert forall|a: int, b: int| 0 <= a < b < after.len() implies after[a].0
                        != after[b].0 by {
                        assert(after[a].0 == before[a].0);
                        assert(after[b].0 == before[b].0);
                    }
                }
            },
            None => {
                entries.push((name, text));
                proof {
                    let after = entries.deep_view();
                    assert(after.drop_last() =~= before);
                    assert forall|a: int, b: int| 0 <= a < b < after.len() implies after[a].0
                        != after[b].0 by {
                        assert(after[a].0 == before[a].0);
                        if b < before.len() {
                            assert(after[b].0 == before[b].0);
                        }
                    }
                }
            },
        }
        FieldMap { entries }
    }

    /// What was last written under `name`, if anything was.
    pub fn get(&self, name: &str) -> (text: Option<&String>)
        ensures
            match text {
                Some(found) => self@.contains_key(name@) && self@[name@] == found@,
                None => !self@.contains_key(name@),
            },
    {
        proof {
            use_type_invariant(self);
        }
        match self.position(name) {
            Some(i) => {
                proof {
                    lemma_present_key(self.entries.deep_view(), i as int);
                }
                Some(&self.entries[i].1)
            },
            None => {
                proof {
                    lemma_absent_key(self.entries.deep_view(), name@);
                }
                None
            },
        }
    }
}

} // verus!
