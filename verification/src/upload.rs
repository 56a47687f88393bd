//! An upload as a whole: what the stages of [`crate::ingest`] come to when they
//! are run one after another, each on what the step before it asked for.

use vstd::prelude::*;
use vstd::utf8::{decode_utf8, valid_utf8};
use crate::ingest::{
    after_body, after_insert, after_part, after_write, date_at, file_part, plain_name,
    AfterBodyView, AfterPartView, AfterWriteView, IngestError, Malformation, NextPartView,
    PartBodyView, WriteOutcome,
};
use crate::record::FileView;
use crate::store::{lemma_appended_row_is_listed, listed_names, times_listed, StoreError};

verus! {

/// One part of a multipart stream: its name, if it has one, and what reading
/// its body yields.
pub ghost struct PartView {
    pub name: Option<Seq<char>>,
    pub body: PartBodyView,
}

/// What an upload did and how it ended.
pub ghost struct Course {
    /// The names under which a file was written, wholly or in part.
    pub writes: Seq<Seq<char>>,
    /// The records handed to the store.
    pub inserts: Seq<FileView>,
    pub outcome: Result<FileView, IngestError>,
}

/// The course of an upload that ends with `error` before anything is written.
pub open spec fn refused(error: IngestError) -> Course {
    Course { writes: seq![], inserts: seq![], outcome: Err(error) }
}

/// The course of an upload that writes one file and inserts `record`, and ends
/// with it.
pub open spec fn stored(record: FileView) -> Course {
    Course { writes: seq![record.file_name], inserts: seq![record], outcome: Ok(record) }
}

/// A part that is collected as a scalar field: it has a name other than that
/// of the file part, and its body is read and is UTF-8 text.
pub open spec fn scalar(part: PartView) -> bool {
    &&& part.name is Some
    &&& part.name != Some(file_part())
    &&& part.body matches PartBodyView::Read(bytes) && valid_utf8(bytes)
}

/// The text of a scalar part.
pub open spec fn text(part: PartView) -> Seq<char> {
    match part.body {
        PartBodyView::Read(bytes) => decode_utf8(bytes),
        PartBodyView::Failed => Seq::empty(),
    }
}

/// The fields after `parts`, all scalar, were written into `fields` in turn.
pub open spec fn written(fields: Map<Seq<char>, Seq<char>>, parts: Seq<PartView>) -> Map<
    Seq<char>,
    Seq<char>,
>
    decreases parts.len(),
{
    if parts.len() == 0 {
        fields
    } else {
        written(fields.insert(parts[0].name.unwrap(), text(parts[0])), parts.drop_first())
    }
}

/// What the stream yields after its last part: its end, or a failure where it
/// is `broken`.
pub open spec fn closing(broken: bool) -> NextPartView {
    if broken {
        NextPartView::Failed
    } else {
        NextPartView::End
    }
}

/// The step at which collecting stops when `fields` are held and the stream
/// yields `parts` and then closes: the write of the file part, or a failure.
pub open spec fn collect(
    fields: Map<Seq<char>, Seq<char>>,
    parts: Seq<PartView>,
    broken: bool,
) -> AfterPartView
    decreases parts.len(),
{
    if parts.len() == 0 {
        after_part(fields, closing(broken))
    } else {
        match after_part(fields, NextPartView::Part(parts[0].name)) {
            AfterPartView::ReadBody(reading) => match after_body(reading, parts[0].body) {
                AfterBodyView::NextPart(more) => collect(more, parts.drop_first(), broken),
                AfterBodyView::Fail(e) => AfterPartView::Fail(e),
            },
            stop => stop,
        }
    }
}

/// The course of an upload whose stream yields `parts` and then closes, where
/// the write, if it comes to one, ends as `write`, and the insert, if it comes
/// to one, as `insert`.
pub open spec fn ingest(
    parts: Seq<PartView>,
    broken: bool,
    write: WriteOutcome,
    insert: Result<(), StoreError>,
) -> Course {
    match collect(Map::empty(), parts, broken) {
        AfterPartView::WriteFile(request) => match after_write(request, write) {
            AfterWriteView::Insert(record) => Course {
                writes: seq![request.file_name],
                inserts: seq![record],
                outcome: after_insert(record, insert),
            },
            AfterWriteView::Fail(e) => Course {
                writes: seq![request.file_name],
                inserts: seq![],
                outcome: Err(e),
            },
        },
        AfterPartView::Fail(e) => refused(e),
        // Collecting does not stop at a body that is still to be read.
        AfterPartView::ReadBody(_) => arbitrary(),
    }
}

/// Collecting takes the scalar parts at the head of the stream into the
/// fields, and goes on from the first part after them.
pub proof fn lemma_collect_scalars(
    fields: Map<Seq<char>, Seq<char>>,
    parts: Seq<PartView>,
    broken: bool,
    at: int,
)
    requires
        0 <= at <= parts.len(),
        forall|i: int| 0 <= i < at ==> scalar(#[trigger] parts[i]),
    ensures
        collect(fields, parts, broken) == collect(
            written(fields, parts.take(at)),
            parts.skip(at),
            broken,
        ),
    decreases at,
{
    if at == 0 {
        assert(parts.take(0) =~= Seq::<PartView>::empty());
        assert(parts.skip(0) =~= parts);
    } else {
        let head = parts[0];
        assert(scalar(head));
        let more = fields.insert(head.name.unwrap(), text(head));
        let rest = parts.drop_first();
        assert forall|i: int| 0 <= i < at - 1 implies scalar(#[trigger] rest[i]) by {
            assert(rest[i] == parts[i + 1]);
        }
        lemma_collect_scalars(more, rest, broken, at - 1);
        assert(rest.take(at - 1) =~= parts.take(at).drop_first());
        assert(rest.skip(at - 1) =~= parts.skip(at));
        assert(parts.take(at)[0] == head);
    }
}

/// The scalar parts at the head of `parts`, up to the part at `at`, which is
/// the file part.
pub open spec fn reaches_file_part(parts: Seq<PartView>, at: int) -> bool {
    &&& 0 <= at < parts.len()
    &&& forall|i: int| 0 <= i < at ==> scalar(#[trigger] parts[i])
    &&& parts[at].name == Some(file_part())
}

/// The fields that are held when the file part at `at` arrives.
pub open spec fn fields_at(parts: Seq<PartView>, at: int) -> Map<Seq<char>, Seq<char>> {
    written(Map::empty(), parts.take(at))
}

/// The fields held when the file part at `at` arrives name the file: they
/// include a `file_name` that is a plain name and not empty.
pub open spec fn names_file(parts: Seq<PartView>, at: int) -> bool {
    &&& fields_at(parts, at).contains_key("file_name"@)
    &&& fields_at(parts, at)["file_name"@].len() > 0
    &&& plain_name(fields_at(parts, at)["file_name"@])
}

/// The record of an upload whose file part is at `at`, written at `date`: the
/// name and the type are those last given before the file part.
pub open spec fn record_at(parts: Seq<PartView>, at: int, date: int) -> FileView {
    let fields = fields_at(parts, at);
    FileView {
        file_name: fields["file_name"@],
        file_type: if fields.contains_key("file_type"@) {
            Some(fields["file_type"@])
        } else {
            None
        },
        file_upload_date: date,
    }
}

/// An upload whose scalar parts name the file, followed by a file part that is
/// written whole at a time that a record can hold, and whose record the store
/// accepts, writes one file, under that name, and inserts one record: the
/// name and the type are those last given before the file part, and the date
/// is the very count of seconds that the clock reads, whatever the fields
/// say. The upload ends with that record. What the stream holds after the
/// file part makes no difference.
pub proof fn lemma_complete_upload_is_stored(
    parts: Seq<PartView>,
    broken: bool,
    at: int,
    now: u64,
)
    requires
        reaches_file_part(parts, at),
        names_file(parts, at),
        now <= i32::MAX,
    ensures
        ingest(parts, broken, WriteOutcome::Written { now: Some(now) }, Ok(())) == stored(
            record_at(parts, at, now as int),
        ),
{
    lemma_collect_scalars(Map::empty(), parts, broken, at);
    assert(parts.skip(at)[0] == parts[at]);
}

/// Where the clock cannot be read, or reads a time past what a record can
/// hold, an upload that was written ends with a clock error: the file stays,
/// and no record is made, rather than one with a date that is not the
/// clock's.
pub proof fn lemma_upload_without_date(
    parts: Seq<PartView>,
    broken: bool,
    at: int,
    now: Option<u64>,
    insert: Result<(), StoreError>,
)
    requires
        reaches_file_part(parts, at),
        names_file(parts, at),
        now is None || now.unwrap() > i32::MAX,
    ensures
        ingest(parts, broken, WriteOutcome::Written { now }, insert) == (Course {
            writes: seq![fields_at(parts, at)["file_name"@]],
            inserts: seq![],
            outcome: Err(IngestError::ClockError),
        }),
{
    lemma_collect_scalars(Map::empty(), parts, broken, at);
    assert(parts.skip(at)[0] == parts[at]);
}

/// Where the store appends what it is handed, an upload that is stored adds
/// its name to the names listed, once for this upload, however often the name
/// was stored before.
pub proof fn lemma_stored_upload_is_listed(
    table: Seq<FileView>,
    parts: Seq<PartView>,
    broken: bool,
    at: int,
    now: u64,
)
    requires
        reaches_file_part(parts, at),
        names_file(parts, at),
        now <= i32::MAX,
    ensures
        ({
            let name = fields_at(parts, at)["file_name"@];
            let course = ingest(parts, broken, WriteOutcome::Written { now: Some(now) }, Ok(()));
            &&& listed_names(table + course.inserts) == listed_names(table).push(name)
            &&& times_listed(table + course.inserts, name) == times_listed(table, name) + 1
        }),
{
    lemma_complete_upload_is_stored(parts, broken, at, now);
    let record = record_at(parts, at, now as int);
    assert(table + seq![record] =~= table.push(record));
    lemma_appended_row_is_listed(table, record);
}

/// An upload without a file part, all of whose parts are scalar, ends as
/// incomplete, whether the stream ends or breaks off; no file is written and
/// no record inserted.
pub proof fn lemma_upload_without_file_part(
    parts: Seq<PartView>,
    broken: bool,
    write: WriteOutcome,
    insert: Result<(), StoreError>,
)
    requires
        forall|i: int| 0 <= i < parts.len() ==> scalar(#[trigger] parts[i]),
    ensures
        ingest(parts, broken, write, insert) == refused(IngestError::IncompleteUpload),
{
    lemma_collect_scalars(Map::empty(), parts, broken, parts.len() as int);
}

/// An upload in which the body of a part cannot be read, the parts before it
/// being scalar, ends as incomplete; no file is written and no record
/// inserted.
pub proof fn lemma_upload_with_unread_body(
    parts: Seq<PartView>,
    broken: bool,
    at: int,
    write: WriteOutcome,
    insert: Result<(), StoreError>,
)
    requires
        0 <= at < parts.len(),
        forall|i: int| 0 <= i < at ==> scalar(#[trigger] parts[i]),
        parts[at].name is Some,
        parts[at].name != Some(file_part()),
        parts[at].body is Failed,
    ensures
        ingest(parts, broken, write, insert) == refused(IngestError::IncompleteUpload),
{
    lemma_collect_scalars(Map::empty(), parts, broken, at);
    assert(parts.skip(at)[0] == parts[at]);
}

/// An upload whose scalar parts before the file part do not include
/// `file_name` ends as malformed; no file is written and no record inserted.
pub proof fn lemma_upload_without_file_name(
    parts: Seq<PartView>,
    broken: bool,
    at: int,
    write: WriteOutcome,
    insert: Result<(), StoreError>,
)
    requires
        reaches_file_part(parts, at),
        !fields_at(parts, at).contains_key("file_name"@),
    ensures
        ingest(parts, broken, write, insert) == refused(
            IngestError::MalformedRequest(Malformation::MissingFileName),
        ),
{
    lemma_collect_scalars(Map::empty(), parts, broken, at);
    assert(parts.skip(at)[0] == parts[at]);
}

/// An upload whose `file_name` is empty ends as malformed; no file is written
/// and no record inserted.
pub proof fn lemma_upload_with_empty_name(
    parts: Seq<PartView>,
    broken: bool,
    at: int,
    write: WriteOutcome,
    insert: Result<(), StoreError>,
)
    requires
        reaches_file_part(parts, at),
        fields_at(parts, at).contains_key("file_name"@),
        fields_at(parts, at)["file_name"@].len() == 0,
    ensures
        ingest(parts, broken, write, insert) == refused(
            IngestError::MalformedRequest(Malformation::EmptyFileName),
        ),
{
    lemma_collect_scalars(Map::empty(), parts, broken, at);
    assert(parts.skip(at)[0] == parts[at]);
}

/// An upload whose `file_name` is not empty and not a plain name ends as
/// malformed; no file is written and no record inserted.
pub proof fn lemma_upload_with_name_not_plain(
    parts: Seq<PartView>,
    broken: bool,
    at: int,
    write: WriteOutcome,
    insert: Result<(), StoreError>,
)
    requires
        reaches_file_part(parts, at),
        fields_at(parts, at).contains_key("file_name"@),
        fields_at(parts, at)["file_name"@].len() > 0,
        !plain_name(fields_at(parts, at)["file_name"@]),
    ensures
        ingest(parts, broken, write, insert) == refused(
            IngestError::MalformedRequest(Malformation::FileNameNotPlain),
        ),
{
    lemma_collect_scalars(Map::empty(), parts, broken, at);
    assert(parts.skip(at)[0] == parts[at]);
}

/// Collecting stops at the write of a file with a plain name that is not
/// empty, or at a failure.
pub proof fn lemma_collect_stops(
    fields: Map<Seq<char>, Seq<char>>,
    parts: Seq<PartView>,
    broken: bool,
)
    ensures
        !(collect(fields, parts, broken) is ReadBody),
        collect(fields, parts, broken) matches AfterPartView::WriteFile(request) ==> plain_name(
            request.file_name,
        ) && request.file_name.len() > 0,
    decreases parts.len(),
{
    if parts.len() > 0 {
        match after_part(fields, NextPartView::Part(parts[0].name)) {
            AfterPartView::ReadBody(reading) => match after_body(reading, parts[0].body) {
                AfterBodyView::NextPart(more) => lemma_collect_stops(
                    more,
                    parts.drop_first(),
                    broken,
                ),
                AfterBodyView::Fail(_) => {},
            },
            _ => {},
        }
    }
}

/// The date that the clock gave when the write ended, if the write ended well
/// and the clock gave one.
pub open spec fn date_written(write: WriteOutcome) -> Option<int> {
    match write {
        WriteOutcome::Written { now } => date_at(now),
        _ => None,
    }
}

/// Whatever the stream holds and however the write and the insert end: at
/// most one file is written, and only under a plain name that is not empty; a
/// record is handed to the store only once the file is written whole and the
/// clock has given a date, and at most once; its date is that date, which is
/// the clock's count of seconds and never a negative or a wrapped one; and the
/// upload ends well only if the store took the record.
pub proof fn lemma_course_is_orderly(
    parts: Seq<PartView>,
    broken: bool,
    write: WriteOutcome,
    insert: Result<(), StoreError>,
)
    ensures
        ({
            let course = ingest(parts, broken, write, insert);
            &&& course.inserts.len() <= course.writes.len() <= 1
            &&& forall|i: int|
                0 <= i < course.writes.len() ==> plain_name(course.writes[i])
                    && course.writes[i].len() > 0
            &&& course.inserts.len() == 1 <==> course.writes.len() == 1 && (date_written(
                write,
            ) is Some)
            &&& forall|i: int|
                0 <= i < course.inserts.len() ==> date_written(write) == Some(
                    course.inserts[i].file_upload_date,
                ) && 0 <= course.inserts[i].file_upload_date <= i32::MAX
                    && course.inserts[i].file_name == course.writes[0]
            &&& (course.outcome is Ok) <==> course.inserts.len() == 1 && (insert is Ok)
            &&& course.outcome matches Ok(record) ==> course.inserts[0] == record
        }),
{
    lemma_collect_stops(Map::empty(), parts, broken);
}

} // verus!
