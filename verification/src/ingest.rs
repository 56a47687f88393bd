//! Taking in an upload: from the parts of a multipart stream to a file in the
//! content directory and a row in the metadata store.
//!
//! Reading the stream, writing the file and inserting the row happen
//! elsewhere. Each stage here takes what the last such operation yielded and
//! says what is to be done next, or with which error the upload ends.

use vstd::prelude::*;
use vstd::utf8::{decode_utf8, encode_utf8_decode_utf8, valid_utf8};
use vstd::string::StringSliceAdditionalSpecFns;
use crate::fields::FieldMap;
use crate::order::same_text;
use crate::record::{File, FileView};
use crate::store::StoreError;

verus! {

/// What is wrong with a request that is malformed.
#[derive(Debug, Clone, Copy, PartialEq, Eq)]
pub enum Malformation {
    /// A part has no name.
    UnnamedPart,
    /// The body of a scalar part is not UTF-8 text.
    FieldNotText,
    /// No scalar part before the file part is named `file_name`.
    MissingFileName,
    /// `file_name` is empty.
    EmptyFileName,
    /// `file_name` holds a path separator or is the parent-directory segment.
    FileNameNotPlain,
}

/// Why an upload was not taken in.
#[derive(Debug, Clone, Copy, PartialEq, Eq)]
pub enum IngestError {
    /// The request does not have the shape of an upload.
    MalformedRequest(Malformation),
    /// The stream ended, or could not be read further, before the upload was
    /// complete.
    IncompleteUpload,
    /// The file could not be written.
    IoError,
    /// The file is written, but the clock gave no date that a record can
    /// hold: it could not be read, or it reads a time past the last second
    /// that the date of a record can count.
    ClockError,
    /// The row could not be inserted.
    StoreError,
}

/// `core::str::Utf8Error`: where bytes stop being UTF-8. It is not read.
#[verifier::external_type_specification]
#[verifier::external_body]
pub struct ExUtf8Error(core::str::Utf8Error);

/// Taken on trust, not proved: `core::str::from_utf8` succeeds on exactly the
/// byte strings that are valid UTF-8, and the text it returns is made of the
/// bytes it was given.
pub assume_specification[ core::str::from_utf8 ](v: &[u8]) -> (text: Result<
    &str,
    core::str::Utf8Error,
>)
    ensures
        text is Ok <==> valid_utf8(v@),
        text matches Ok(s) ==> s.spec_bytes() == v@,
;

/// The name of the part that carries the file's content.
pub open spec fn file_part() -> Seq<char> {
    "file"@
}

/// The directory, below the working directory, in which uploaded files are
/// written, each under its `file_name`.
pub fn content_dir() -> (dir: &'static str)
    ensures
        dir@ == "audio"@,
{
    "audio"
}

/// What an upload asks for: the name under which to store the file, and
/// optionally its type.
#[derive(Debug, Clone, PartialEq, Eq)]
pub struct FileUploadRequest {
    pub file_name: String,
    pub file_type: Option<String>,
}

/// A request as plain values.
pub ghost struct FileUploadRequestView {
    pub file_name: Seq<char>,
    pub file_type: Option<Seq<char>>,
}

impl View for FileUploadRequest {
    type V = FileUploadRequestView;

    open spec fn view(&self) -> FileUploadRequestView {
        FileUploadRequestView {
            file_name: self.file_name@,
            file_type: self.file_type.deep_view(),
        }
    }
}

/// A name that stays inside the directory it is joined to: it holds no path
/// separator and is not the parent-directory segment.
pub open spec fn plain_name(name: Seq<char>) -> bool {
    !name.contains('/') && !name.contains('\\') && name != ".."@
}

/// The request that a set of scalar fields makes: `file_name` is required and
/// must be a plain name that is not empty, `file_type` is optional, and any
/// other field is ignored.
pub open spec fn request_of(fields: Map<Seq<char>, Seq<char>>) -> Result<
    FileUploadRequestView,
    Malformation,
> {
    if !fields.contains_key("file_name"@) {
        Err(Malformation::MissingFileName)
    } else if fields["file_name"@].len() == 0 {
        Err(Malformation::EmptyFileName)
    } else if !plain_name(fields["file_name"@]) {
        Err(Malformation::FileNameNotPlain)
    } else {
        Ok(
            FileUploadRequestView {
                file_name: fields["file_name"@],
                file_type: if fields.contains_key("file_type"@) {
                    Some(fields["file_type"@])
                } else {
                    None
                },
            },
        )
    }
}

/// The date of a record for a reading of the clock: the seconds since the
/// epoch that the clock counts, where it was read and the count is one that a
/// record can hold; no date otherwise.
pub open spec fn date_at(now: Option<u64>) -> Option<int> {
    match now {
        Some(seconds) => if seconds <= i32::MAX {
            Some(seconds as int)
        } else {
            None
        },
        None => None,
    }
}

/// The upload date for a reading of the clock, if there is one.
pub fn upload_date(now: Option<u64>) -> (date: Option<i32>)
    ensures
        match date {
            Some(seconds) => date_at(now) == Some(seconds as int),
            None => date_at(now) is None,
        },
{
    match now {
        Some(seconds) => if seconds <= 0x7fff_ffff {
            Some(seconds as i32)
        } else {
            None
        },
        None => None,
    }
}

/// Whether `name` is a plain name.
pub fn is_plain_name(name: &str) -> (plain: bool)
    ensures
        plain == plain_name(name@),
{
    let mut separated = false;
    for c in it: name.chars()
        invariant
            it.seq() == name@,
            separated <==> exists|k: int|
                0 <= k < it.index() && (name@[k] == '/' || name@[k] == '\\'),
    {
        if c == '/' || c == '\\' {
            separated = true;
        }
    }
    !separated && !same_text(name, "..")
}

impl FileUploadRequest {
    /// Checks the scalar fields against the shape of a request.
    pub fn from_fields(fields: &FieldMap) -> (request: Result<FileUploadRequest, Malformation>)
        ensures
            match request {
                Ok(r) => request_of(fields@) == Ok::<FileUploadRequestView, Malformation>(r@),
                Err(e) => request_of(fields@) == Err::<FileUploadRequestView, Malformation>(e),
            },
    {
        match fields.get("file_name") {
            Some(name) => {
                if name.as_str().is_empty() {
                    return Err(Malformation::EmptyFileName);
                }
                if !is_plain_name(name.as_str()) {
                    return Err(Malformation::FileNameNotPlain);
                }
                let file_type = match fields.get("file_type") {
                    Some(kind) => Some(kind.clone()),
                    None => None,
                };
                Ok(FileUploadRequest { file_name: name.clone(), file_type })
            },
            None => Err(Malformation::MissingFileName),
        }
    }
}

/// What the stream yields when asked for its next part.
#[derive(Debug, Clone, PartialEq, Eq)]
pub enum NextPart {
    /// A part, with its name if it has one.
    Part(Option<String>),
    /// The stream has ended.
    End,
    /// The stream could not be read.
    Failed,
}

/// What the stream yields for its next part, as plain values.
pub ghost enum NextPartView {
    Part(Option<Seq<char>>),
    End,
    Failed,
}

impl View for NextPart {
    type V = NextPartView;

    open spec fn view(&self) -> NextPartView {
        match self {
            NextPart::Part(name) => NextPartView::Part(name.deep_view()),
            NextPart::End => NextPartView::End,
            NextPart::Failed => NextPartView::Failed,
        }
    }
}

/// What reading the whole body of a scalar part yields.
#[derive(Debug, Clone, PartialEq, Eq)]
pub enum PartBody {
    Read(Vec<u8>),
    /// The stream could not be read.
    Failed,
}

/// What reading a body yields, as plain values.
pub ghost enum PartBodyView {
    Read(Seq<u8>),
    Failed,
}

impl View for PartBody {
    type V = PartBodyView;

    open spec fn view(&self) -> PartBodyView {
        match self {
            PartBody::Read(bytes) => PartBodyView::Read(bytes@),
            PartBody::Failed => PartBodyView::Failed,
        }
    }
}

/// How streaming the file part into the content directory ended.
#[derive(Debug, Clone, Copy, PartialEq, Eq)]
pub enum WriteOutcome {
    /// Every chunk was written. `now` is the wall clock, in seconds since the
    /// epoch, read once the write was done; `None` where the clock could not
    /// be read as a time since the epoch.
    Written { now: Option<u64> },
    /// The stream could not be read to its end.
    StreamFailed,
    /// The file system refused.
    IoFailed,
}

/// The first stage: scalar parts are collected until the file part arrives.
pub struct Collecting {
    fields: FieldMap,
}

impl View for Collecting {
    type V = Map<Seq<char>, Seq<char>>;

    closed spec fn view(&self) -> Map<Seq<char>, Seq<char>> {
        self.fields@
    }
}

/// A scalar part is open, and its body is to be read whole.
pub struct ReadingField {
    fields: FieldMap,
    name: String,
}

/// The fields collected so far and the name of the part that is open.
pub ghost struct ReadingFieldView {
    pub fields: Map<Seq<char>, Seq<char>>,
    pub name: Seq<char>,
}

impl View for ReadingField {
    type V = ReadingFieldView;

    closed spec fn view(&self) -> ReadingFieldView {
        ReadingFieldView { fields: self.fields@, name: self.name@ }
    }
}

/// The file part is open, and is to be streamed to the file named
/// `request.file_name` in the content directory, which is created if it is
/// missing; a file of that name is overwritten. The name is a plain name and
/// not empty, so the file lies in that directory.
pub struct Writing {
    pub request: FileUploadRequest,
}

/// The file is written, and `record` is to be inserted into the store.
pub struct Inserting {
    pub record: File,
}

/// What follows the arrival of a part.
pub enum AfterPart {
    /// Read the body of the part whole.
    ReadBody(ReadingField),
    /// Write the part to the content directory.
    WriteFile(Writing),
    /// The upload ends.
    Fail(IngestError),
}

/// What follows the arrival of a part, as plain values.
pub ghost enum AfterPartView {
    ReadBody(ReadingFieldView),
    WriteFile(FileUploadRequestView),
    Fail(IngestError),
}

impl View for AfterPart {
    type V = AfterPartView;

    open spec fn view(&self) -> AfterPartView {
        match self {
            AfterPart::ReadBody(reading) => AfterPartView::ReadBody(reading@),
            AfterPart::WriteFile(writing) => AfterPartView::WriteFile(writing.request@),
            AfterPart::Fail(e) => AfterPartView::Fail(*e),
        }
    }
}

/// What follows the body of a scalar part.
pub enum AfterBody {
    /// Ask the stream for its next part.
    NextPart(Collecting),
    /// The upload ends.
    Fail(IngestError),
}

/// What follows the body of a scalar part, as plain values.
pub ghost enum AfterBodyView {
    NextPart(Map<Seq<char>, Seq<char>>),
    Fail(IngestError),
}

impl View for AfterBody {
    type V = AfterBodyView;

    open spec fn view(&self) -> AfterBodyView {
        match self {
            AfterBody::NextPart(collecting) => AfterBodyView::NextPart(collecting@),
            AfterBody::Fail(e) => AfterBodyView::Fail(*e),
        }
    }
}

/// What follows the writing of the file.
pub enum AfterWrite {
    /// Insert the record into the store.
    Insert(Inserting),
    /// The upload ends. What was written of the file stays.
    Fail(IngestError),
}

/// What follows the writing of the file, as plain values.
pub ghost enum AfterWriteView {
    Insert(FileView),
    Fail(IngestError),
}

impl View for AfterWrite {
    type V = AfterWriteView;

    open spec fn view(&self) -> AfterWriteView {
        match self {
            AfterWrite::Insert(inserting) => AfterWriteView::Insert(inserting.record@),
            AfterWrite::Fail(e) => AfterWriteView::Fail(*e),
        }
    }
}

/// The record of an upload that was taken in, or the error it ended with.
pub open spec fn outcome_view(outcome: Result<File, IngestError>) -> Result<FileView, IngestError> {
    match outcome {
        Ok(record) => Ok(record@),
        Err(e) => Err(e),
    }
}

/// The rule for a part that arrives while `fields` are collected. The part
/// named `file` ends the collecting: the fields must then make a request, or
/// the upload ends before anything is written. Any other named part is a
/// scalar. A part without a name is malformed, and a
/// stream that ends or fails here leaves the upload incomplete.
pub open spec fn after_part(fields: Map<Seq<char>, Seq<char>>, event: NextPartView) -> AfterPartView {
    match event {
        NextPartView::Part(Some(name)) => if name == file_part() {
            match request_of(fields) {
                Ok(request) => AfterPartView::WriteFile(request),
                Err(e) => AfterPartView::Fail(IngestError::MalformedRequest(e)),
            }
        } else {
            AfterPartView::ReadBody(ReadingFieldView { fields, name })
        },
        NextPartView::Part(None) => AfterPartView::Fail(
            IngestError::MalformedRequest(Malformation::UnnamedPart),
        ),
        NextPartView::End => AfterPartView::Fail(IngestError::IncompleteUpload),
        NextPartView::Failed => AfterPartView::Fail(IngestError::IncompleteUpload),
    }
}

/// The rule for the body of a scalar part: UTF-8 text is written under the
/// part's name, in place of what an earlier part of that name wrote; other
/// bytes are malformed.
pub open spec fn after_body(reading: ReadingFieldView, event: PartBodyView) -> AfterBodyView {
    match event {
        PartBodyView::Read(bytes) => if valid_utf8(bytes) {
            AfterBodyView::NextPart(reading.fields.insert(reading.name, decode_utf8(bytes)))
        } else {
            AfterBodyView::Fail(IngestError::MalformedRequest(Malformation::FieldNotText))
        },
        PartBodyView::Failed => AfterBodyView::Fail(IngestError::IncompleteUpload),
    }
}

/// The rule for the end of the write: a file that was written gets a record
/// with the request's name and type and the clock's date. Where the clock
/// gives no date, the upload ends and no record is made.
pub open spec fn after_write(request: FileUploadRequestView, outcome: WriteOutcome) -> AfterWriteView {
    match outcome {
        WriteOutcome::Written { now } => match date_at(now) {
            Some(date) => AfterWriteView::Insert(
                FileView {
                    file_name: request.file_name,
                    file_type: request.file_type,
                    file_upload_date: date,
                },
            ),
            None => AfterWriteView::Fail(IngestError::ClockError),
        },
        WriteOutcome::StreamFailed => AfterWriteView::Fail(IngestError::IncompleteUpload),
        WriteOutcome::IoFailed => AfterWriteView::Fail(IngestError::IoError),
    }
}

/// The rule for the end of the insert.
pub open spec fn after_insert(record: FileView, outcome: Result<(), StoreError>) -> Result<
    FileView,
    IngestError,
> {
    match outcome {
        Ok(_) => Ok(record),
        Err(_) => Err(IngestError::StoreError),
    }
}

impl Collecting {
    /// The stage in which an upload begins: no field collected, the first part
    /// to be asked for.
    pub fn new() -> (collecting: Collecting)
        ensures
            collecting@ == Map::<Seq<char>, Seq<char>>::empty(),
    {
        Collecting { fields: FieldMap::new() }
    }

    /// Takes what the stream yielded when asked for its next part.
    pub fn on_part(self, event: NextPart) -> (next: AfterPart)
        ensures
            next@ == after_part(self@, event@),
    {
        match event {
            NextPart::Part(Some(name)) => {
                if same_text(name.as_str(), "file") {
                    match FileUploadRequest::from_fields(&self.fields) {
                        Ok(request) => AfterPart::WriteFile(Writing { request }),
                        Err(e) => AfterPart::Fail(IngestError::MalformedRequest(e)),
                    }
                } else {
                    AfterPart::ReadBody(ReadingField { fields: self.fields, name })
                }
            },
            NextPart::Part(None) => AfterPart::Fail(
                IngestError::MalformedRequest(Malformation::UnnamedPart),
            ),
            NextPart::End => AfterPart::Fail(IngestError::IncompleteUpload),
            NextPart::Failed => AfterPart::Fail(IngestError::IncompleteUpload),
        }
    }
}

impl ReadingField {
    /// Takes what reading the open part's body yielded.
    pub fn on_body(self, event: PartBody) -> (next: AfterBody)
        ensures
            next@ == after_body(self@, event@),
    {
        match event {
            PartBody::Read(bytes) => {
                match core::str::from_utf8(bytes.as_slice()) {
                    Ok(text) => {
                        proof {
                            encode_utf8_decode_utf8(text@);
                        }
                        let fields = self.fields.insert(self.name, text.to_owned());
                        AfterBody::NextPart(Collecting { fields })
                    },
                    Err(_) => AfterBody::Fail(
                        IngestError::MalformedRequest(Malformation::FieldNotText),
                    ),
                }
            },
            PartBody::Failed => AfterBody::Fail(IngestError::IncompleteUpload),
        }
    }
}

impl Writing {
    /// Takes how the write ended.
    pub fn on_written(self, outcome: WriteOutcome) -> (next: AfterWrite)
        ensures
            next@ == after_write(self.request@, outcome),
    {
        match outcome {
            WriteOutcome::Written { now } => match upload_date(now) {
                Some(date) => {
                    let record = File {
                        file_name: self.request.file_name,
                        file_type: self.request.file_type,
                        file_upload_date: date,
                    };
                    AfterWrite::Insert(Inserting { record })
                },
                None => AfterWrite::Fail(IngestError::ClockError),
            },
            WriteOutcome::StreamFailed => AfterWrite::Fail(IngestError::IncompleteUpload),
            WriteOutcome::IoFailed => AfterWrite::Fail(IngestError::IoError),
        }
    }
}

impl Inserting {
    /// Takes how the insert ended: the upload is taken in with the record, or
    /// has failed in the store. The file stays in either case.
    pub fn on_inserted(self, outcome: Result<(), StoreError>) -> (done: Result<File, IngestError>)
        ensures
            outcome_view(done) == after_insert(self.record@, outcome),
    {
        match outcome {
            Ok(_) => Ok(self.record),
            Err(_) => Err(IngestError::StoreError),
        }
    }
}

} // verus!
