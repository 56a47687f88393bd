//! The persisted file record and its mathematical view.

use vstd::prelude::*;
use vstd::seq_lib::seq_to_set_is_finite;

verus! {

/// One row of the metadata table.
///
/// `file_upload_date` is in seconds since the Unix epoch and is always set by
/// the server when the upload is accepted.
#[derive(Debug, Clone, PartialEq, Eq)]
pub struct File {
    pub file_name: String,
    pub file_type: Option<String>,
    pub file_upload_date: i32,
}

/// What a [`File`] is to a contract: its three columns as plain values.
pub ghost struct FileView {
    pub file_name: Seq<char>,
    pub file_type: Option<Seq<char>>,
    pub file_upload_date: int,
}

impl View for File {
    type V = FileView;

    open spec fn view(&self) -> FileView {
        FileView {
            file_name: self.file_name@,
            file_type: self.file_type.deep_view(),
            file_upload_date: self.file_upload_date as int,
        }
    }
}

impl DeepView for File {
    type V = FileView;

    open spec fn deep_view(&self) -> FileView {
        self@
    }
}

/// The names that occur in `rows`, each once however often it occurs.
pub open spec fn file_name_set(rows: Seq<FileView>) -> Set<Seq<char>> {
    Set::new(|name: Seq<char>| exists|i: int| 0 <= i < rows.len() && rows[i].file_name == name)
}

/// The names of the rows in a sequence are finitely many.
pub proof fn lemma_file_name_set_finite(rows: Seq<FileView>)
    ensures
        file_name_set(rows).finite(),
{
    let names = rows.map_values(|row: FileView| row.file_name);
    assert forall|name: Seq<char>| names.contains(name) <==> file_name_set(rows).contains(
        name,
    ) by {
        if names.contains(name) {
            let i = choose|i: int| 0 <= i < names.len() && names[i] == name;
            assert(rows[i].file_name == name);
        }
        if file_name_set(rows).contains(name) {
            let i = choose|i: int| 0 <= i < rows.len() && rows[i].file_name == name;
            assert(names[i] == name);
        }
    }
    assert(names.to_set() =~= file_name_set(rows));
    seq_to_set_is_finite(names);
}

} // verus!
