//! What the library asks of the metadata store, and what it takes the answers
//! to mean.
//!
//! The store is a table of [`File`] rows that is only ever appended to. It is
//! reached from outside this library; here are the requests that the library
//! makes of it and the statement of a faithful answer.

use vstd::prelude::*;
use vstd::seq_lib::to_multiset_build;
use crate::record::{file_name_set, FileView};

verus! {

/// A failed operation of the metadata store.
#[derive(Debug, Clone, Copy, PartialEq, Eq)]
pub struct StoreError;

/// A request to the store for the rows in which one column has a given value.
#[derive(Debug, Clone, PartialEq, Eq)]
pub enum Lookup {
    FileName(String),
    FileType(String),
    FileUploadDate(i32),
}

/// A lookup as plain values.
pub ghost enum LookupView {
    FileName(Seq<char>),
    FileType(Seq<char>),
    FileUploadDate(int),
}

impl View for Lookup {
    type V = LookupView;

    open spec fn view(&self) -> LookupView {
        match self {
            Lookup::FileName(name) => LookupView::FileName(name@),
            Lookup::FileType(kind) => LookupView::FileType(kind@),
            Lookup::FileUploadDate(date) => LookupView::FileUploadDate(*date as int),
        }
    }
}

/// Whether `row` is one of the rows that `lookup` asks for.
pub open spec fn matches(lookup: LookupView, row: FileView) -> bool {
    match lookup {
        LookupView::FileName(name) => row.file_name == name,
        LookupView::FileType(kind) => row.file_type == Some(kind),
        LookupView::FileUploadDate(date) => row.file_upload_date == date,
    }
}

/// `rows` is a faithful answer to `lookup` from a store that holds `table`:
/// every row returned is a row of the table that the lookup asks for, and
/// every such row of the table is returned.
pub open spec fn faithful(table: Seq<FileView>, lookup: LookupView, rows: Seq<FileView>) -> bool {
    &&& forall|i: int|
        0 <= i < rows.len() ==> table.contains(#[trigger] rows[i]) && matches(lookup, rows[i])
    &&& forall|i: int|
        0 <= i < table.len() && matches(lookup, #[trigger] table[i]) ==> rows.contains(table[i])
}

/// The names of the rows of `table` that `lookup` asks for.
pub open spec fn names_matching(table: Seq<FileView>, lookup: LookupView) -> Set<Seq<char>> {
    Set::new(
        |name: Seq<char>|
            exists|i: int|
                0 <= i < table.len() && (#[trigger] table[i]).file_name == name && matches(
                    lookup,
                    table[i],
                ),
    )
}

/// The names in a faithful answer are the names of the rows asked for, in
/// whatever order and however often the store returned them.
pub proof fn lemma_faithful_answer_names(
    table: Seq<FileView>,
    lookup: LookupView,
    rows: Seq<FileView>,
)
    requires
        faithful(table, lookup, rows),
    ensures
        file_name_set(rows) == names_matching(table, lookup),
{
    assert forall|name: Seq<char>|
        file_name_set(rows).contains(name) <==> names_matching(table, lookup).contains(name) by {
        if file_name_set(rows).contains(name) {
            let i = choose|i: int| 0 <= i < rows.len() && rows[i].file_name == name;
            assert(table.contains(rows[i]));
            let k = choose|k: int| 0 <= k < table.len() && table[k] == rows[i];
            assert(table[k].file_name == name && matches(lookup, table[k]));
        }
        if names_matching(table, lookup).contains(name) {
            let k = choose|k: int|
                0 <= k < table.len() && (#[trigger] table[k]).file_name == name && matches(
                    lookup,
                    table[k],
                );
            assert(rows.contains(table[k]));
            let i = choose|i: int| 0 <= i < rows.len() && rows[i] == table[k];
            assert(rows[i].file_name == name);
        }
    }
    assert(file_name_set(rows) =~= names_matching(table, lookup));
}

/// The names that a listing of all names returns from a store that holds
/// `table`: one for each row, in the table's order.
pub open spec fn listed_names(table: Seq<FileView>) -> Seq<Seq<char>> {
    table.map_values(|row: FileView| row.file_name)
}

/// How often `name` occurs in a listing of all names.
pub open spec fn times_listed(table: Seq<FileView>, name: Seq<char>) -> nat {
    listed_names(table).to_multiset().count(name)
}

/// A row appended to the table is listed after the rows that were there: its
/// name is listed once more than before, whether or not it was there already,
/// and every other name as often as before.
pub proof fn lemma_appended_row_is_listed(table: Seq<FileView>, row: FileView)
    ensures
        listed_names(table.push(row)) == listed_names(table).push(row.file_name),
        times_listed(table.push(row), row.file_name) == times_listed(table, row.file_name) + 1,
        forall|name: Seq<char>|
            name != row.file_name ==> times_listed(table.push(row), name) == times_listed(
                table,
                name,
            ),
{
    assert(listed_names(table.push(row)) =~= listed_names(table).push(row.file_name));
    to_multiset_build(listed_names(table), row.file_name);
}

} // verus!
