use api_server::ingest::{
    content_dir, is_plain_name, upload_date, AfterBody, AfterPart, AfterWrite, Collecting,
    FileUploadRequest, IngestError, Malformation, NextPart, PartBody, WriteOutcome,
};
use api_server::response::list_files;
use api_server::record::File;
use api_server::store::StoreError;

/// What one upload asked of the world, and how it ended.
struct Course {
    writes: Vec<String>,
    inserts: Vec<File>,
    outcome: Result<File, IngestError>,
}

fn refused(error: IngestError) -> Course {
    Course { writes: vec![], inserts: vec![], outcome: Err(error) }
}

/// Drives the stages over a stream that yields `parts` and then ends.
fn run(
    parts: Vec<(Option<&str>, Vec<u8>)>,
    write: WriteOutcome,
    insert: Result<(), StoreError>,
) -> Course {
    let mut collecting = Collecting::new();
    let mut parts = parts.into_iter();
    let writing = loop {
        let (event, body) = match parts.next() {
            Some((name, body)) => (NextPart::Part(name.map(|n| n.to_string())), body),
            None => (NextPart::End, vec![]),
        };
        match collecting.on_part(event) {
            AfterPart::ReadBody(reading) => match reading.on_body(PartBody::Read(body)) {
                AfterBody::NextPart(next) => collecting = next,
                AfterBody::Fail(e) => return refused(e),
            },
            AfterPart::WriteFile(writing) => break writing,
            AfterPart::Fail(e) => return refused(e),
        }
    };
    let writes = vec![writing.request.file_name.clone()];
    let inserting = match writing.on_written(write) {
        AfterWrite::Insert(inserting) => inserting,
        AfterWrite::Fail(e) => return Course { writes, inserts: vec![], outcome: Err(e) },
    };
    let inserts = vec![inserting.record.clone()];
    Course { writes, inserts, outcome: inserting.on_inserted(insert) }
}

fn scalar<'a>(name: &'a str, text: &str) -> (Option<&'a str>, Vec<u8>) {
    (Some(name), text.as_bytes().to_vec())
}

fn payload() -> (Option<&'static str>, Vec<u8>) {
    (Some("file"), vec![0, 159, 146, 150])
}

#[test]
fn complete_upload_writes_one_file_and_inserts_one_row() {
    let course = run(
        vec![scalar("file_name", "clip.wav"), scalar("file_type", "wav"), payload()],
        WriteOutcome::Written { now: Some(1_700_000_000) },
        Ok(()),
    );
    let record = File {
        file_name: "clip.wav".to_string(),
        file_type: Some("wav".to_string()),
        file_upload_date: 1_700_000_000,
    };
    assert_eq!(course.writes, vec!["clip.wav".to_string()]);
    assert_eq!(course.inserts, vec![record.clone()]);
    assert_eq!(course.outcome, Ok(record));
}

#[test]
fn upload_without_file_type_has_none() {
    let course = run(
        vec![scalar("file_name", "clip"), payload()],
        WriteOutcome::Written { now: Some(12) },
        Ok(()),
    );
    assert_eq!(
        course.outcome,
        Ok(File { file_name: "clip".to_string(), file_type: None, file_upload_date: 12 })
    );
}

#[test]
fn stream_without_file_part_is_incomplete() {
    let course = run(
        vec![scalar("file_name", "clip.wav"), scalar("file_type", "wav")],
        WriteOutcome::Written { now: Some(1) },
        Ok(()),
    );
    assert_eq!(course.outcome, Err(IngestError::IncompleteUpload));
    assert!(course.writes.is_empty());
    assert!(course.inserts.is_empty());
}

#[test]
fn empty_stream_is_incomplete() {
    let course = run(vec![], WriteOutcome::Written { now: Some(1) }, Ok(()));
    assert_eq!(course.outcome, Err(IngestError::IncompleteUpload));
    assert!(course.writes.is_empty());
    assert!(course.inserts.is_empty());
}

#[test]
fn stream_without_file_name_is_malformed() {
    let course = run(
        vec![scalar("file_type", "wav"), payload()],
        WriteOutcome::Written { now: Some(1) },
        Ok(()),
    );
    assert_eq!(course.outcome, Err(IngestError::MalformedRequest(Malformation::MissingFileName)));
    assert!(course.writes.is_empty());
    assert!(course.inserts.is_empty());
}

#[test]
fn file_name_after_the_file_part_comes_too_late() {
    let course = run(
        vec![payload(), scalar("file_name", "clip.wav")],
        WriteOutcome::Written { now: Some(1) },
        Ok(()),
    );
    assert_eq!(course.outcome, Err(IngestError::MalformedRequest(Malformation::MissingFileName)));
    assert!(course.writes.is_empty());
}

#[test]
fn part_without_name_is_malformed() {
    let course = run(
        vec![scalar("file_name", "clip.wav"), (None, b"x".to_vec()), payload()],
        WriteOutcome::Written { now: Some(1) },
        Ok(()),
    );
    assert_eq!(course.outcome, Err(IngestError::MalformedRequest(Malformation::UnnamedPart)));
    assert!(course.writes.is_empty());
}

#[test]
fn scalar_that_is_not_utf8_is_malformed() {
    let course = run(
        vec![scalar("file_name", "clip.wav"), (Some("file_type"), vec![0xff, 0xfe]), payload()],
        WriteOutcome::Written { now: Some(1) },
        Ok(()),
    );
    assert_eq!(course.outcome, Err(IngestError::MalformedRequest(Malformation::FieldNotText)));
    assert!(course.writes.is_empty());
}

#[test]
fn overlong_and_surrogate_encodings_are_malformed() {
    for bytes in [
        vec![0xc0, 0x80],
        vec![0xed, 0xa0, 0x80],
        vec![0xe2, 0x82],
        vec![0x80],
        vec![0xf4, 0x90, 0x80, 0x80],
        vec![0xf8, 0x88, 0x80, 0x80, 0x80],
    ] {
        let course = run(
            vec![(Some("file_name"), bytes), payload()],
            WriteOutcome::Written { now: Some(1) },
            Ok(()),
        );
        assert_eq!(course.outcome, Err(IngestError::MalformedRequest(Malformation::FieldNotText)));
    }
}

#[test]
fn highest_scalar_is_text() {
    let course = run(
        vec![(Some("file_name"), vec![0xf4, 0x8f, 0xbf, 0xbf]), payload()],
        WriteOutcome::Written { now: Some(1) },
        Ok(()),
    );
    assert_eq!(course.writes, vec!["\u{10ffff}".to_string()]);
}

#[test]
fn scalar_text_is_decoded_as_utf8() {
    let course = run(
        vec![scalar("file_name", "の音.wav"), scalar("file_type", "ö"), payload()],
        WriteOutcome::Written { now: Some(5) },
        Ok(()),
    );
    assert_eq!(
        course.outcome,
        Ok(File {
            file_name: "の音.wav".to_string(),
            file_type: Some("ö".to_string()),
            file_upload_date: 5,
        })
    );
}

#[test]
fn repeated_field_takes_the_last_value() {
    let course = run(
        vec![
            scalar("file_name", "first"),
            scalar("file_type", "wav"),
            scalar("file_name", "second"),
            payload(),
        ],
        WriteOutcome::Written { now: Some(7) },
        Ok(()),
    );
    assert_eq!(course.writes, vec!["second".to_string()]);
    assert_eq!(
        course.outcome,
        Ok(File {
            file_name: "second".to_string(),
            file_type: Some("wav".to_string()),
            file_upload_date: 7,
        })
    );
}

#[test]
fn client_supplied_date_and_other_fields_are_ignored() {
    let course = run(
        vec![
            scalar("file_upload_date", "1"),
            scalar("comment", "hello"),
            scalar("file_name", "clip.wav"),
            payload(),
        ],
        WriteOutcome::Written { now: Some(1_600_000_000) },
        Ok(()),
    );
    assert_eq!(
        course.outcome,
        Ok(File {
            file_name: "clip.wav".to_string(),
            file_type: None,
            file_upload_date: 1_600_000_000,
        })
    );
}

#[test]
fn name_that_leaves_the_content_directory_is_malformed() {
    for name in ["../up/clip.wav", "/etc/clip.wav", "sub/clip.wav", "..", "a\\b", "clip/"] {
        let course = run(
            vec![scalar("file_name", name), scalar("file_type", "wav"), payload()],
            WriteOutcome::Written { now: Some(1) },
            Ok(()),
        );
        assert_eq!(
            course.outcome,
            Err(IngestError::MalformedRequest(Malformation::FileNameNotPlain))
        );
        assert!(course.writes.is_empty());
        assert!(course.inserts.is_empty());
    }
}

#[test]
fn dots_inside_a_name_are_plain() {
    for name in ["clip.wav", "..clip", "clip..", "...", ".", "a..b", "", "の音"] {
        assert!(is_plain_name(name));
    }
    for name in ["..", "/", "\\", "a/b", "a\\b", "../x", "x/..", "/x", "x/"] {
        assert!(!is_plain_name(name));
    }
}

#[test]
fn uploads_of_one_name_are_each_listed() {
    let mut table: Vec<File> = vec![];
    for now in [10, 20, 30] {
        let name = if now == 20 { "other.wav" } else { "clip.wav" };
        let course = run(
            vec![scalar("file_name", name), payload()],
            WriteOutcome::Written { now: Some(now) },
            Ok(()),
        );
        assert!(course.outcome.is_ok());
        table.extend(course.inserts);
    }
    let names: Vec<String> = table.iter().map(|row| row.file_name.clone()).collect();
    assert_eq!(
        list_files(Ok(names)),
        Ok("[\"clip.wav\",\"other.wav\",\"clip.wav\"]".to_string())
    );
}

#[test]
fn interleaved_uploads_do_not_disturb_each_other() {
    let mut uploads: Vec<Collecting> = (0..8).map(|_| Collecting::new()).collect();
    for field in ["file_name", "file_type"] {
        let mut next = vec![];
        for (i, collecting) in uploads.into_iter().enumerate() {
            let reading = match collecting.on_part(NextPart::Part(Some(field.to_string()))) {
                AfterPart::ReadBody(reading) => reading,
                _ => panic!("a scalar part is to be read"),
            };
            let text = format!("{}{}", field, i);
            match reading.on_body(PartBody::Read(text.into_bytes())) {
                AfterBody::NextPart(collecting) => next.push(collecting),
                AfterBody::Fail(_) => panic!("text is to be collected"),
            }
        }
        uploads = next;
    }
    let mut stored = vec![];
    for (i, collecting) in uploads.into_iter().enumerate().rev() {
        let writing = match collecting.on_part(NextPart::Part(Some("file".to_string()))) {
            AfterPart::WriteFile(writing) => writing,
            _ => panic!("the file part is to be written"),
        };
        assert_eq!(writing.request.file_name, format!("file_name{}", i));
        let inserting = match writing.on_written(WriteOutcome::Written { now: Some(i as u64) }) {
            AfterWrite::Insert(inserting) => inserting,
            AfterWrite::Fail(_) => panic!("the record is to be inserted"),
        };
        stored.push(inserting.on_inserted(Ok(())).unwrap());
    }
    stored.reverse();
    for (i, record) in stored.iter().enumerate() {
        assert_eq!(
            record,
            &File {
                file_name: format!("file_name{}", i),
                file_type: Some(format!("file_type{}", i)),
                file_upload_date: i as i32,
            }
        );
    }
    assert_eq!(stored.len(), 8);
}

#[test]
fn stream_failure_while_collecting_is_incomplete() {
    let collecting = Collecting::new();
    match collecting.on_part(NextPart::Failed) {
        AfterPart::Fail(e) => assert_eq!(e, IngestError::IncompleteUpload),
        _ => panic!("a failed stream must end the upload"),
    }
}

#[test]
fn stream_failure_in_a_scalar_body_is_incomplete() {
    let collecting = Collecting::new();
    let reading = match collecting.on_part(NextPart::Part(Some("file_name".to_string()))) {
        AfterPart::ReadBody(reading) => reading,
        _ => panic!("a scalar part is to be read"),
    };
    match reading.on_body(PartBody::Failed) {
        AfterBody::Fail(e) => assert_eq!(e, IngestError::IncompleteUpload),
        _ => panic!("a failed read must end the upload"),
    }
}

#[test]
fn broken_stream_during_write_is_incomplete_and_inserts_nothing() {
    let course = run(
        vec![scalar("file_name", "clip.wav"), payload()],
        WriteOutcome::StreamFailed,
        Ok(()),
    );
    assert_eq!(course.outcome, Err(IngestError::IncompleteUpload));
    assert_eq!(course.writes, vec!["clip.wav".to_string()]);
    assert!(course.inserts.is_empty());
}

#[test]
fn file_system_failure_is_io_error_and_inserts_nothing() {
    let course = run(
        vec![scalar("file_name", "clip.wav"), payload()],
        WriteOutcome::IoFailed,
        Ok(()),
    );
    assert_eq!(course.outcome, Err(IngestError::IoError));
    assert!(course.inserts.is_empty());
}

#[test]
fn store_failure_is_store_error_after_the_write() {
    let course = run(
        vec![scalar("file_name", "clip.wav"), payload()],
        WriteOutcome::Written { now: Some(3) },
        Err(StoreError),
    );
    assert_eq!(course.outcome, Err(IngestError::StoreError));
    assert_eq!(course.writes, vec!["clip.wav".to_string()]);
    assert_eq!(course.inserts.len(), 1);
}

#[test]
fn upload_date_is_the_clock_where_a_record_can_hold_it() {
    assert_eq!(upload_date(Some(0)), Some(0));
    assert_eq!(upload_date(Some(1)), Some(1));
    assert_eq!(upload_date(Some(1_700_000_000)), Some(1_700_000_000));
    assert_eq!(upload_date(Some(2_147_483_647)), Some(i32::MAX));
    assert_eq!(upload_date(Some(2_147_483_648)), None);
    assert_eq!(upload_date(Some(4_294_967_295)), None);
    assert_eq!(upload_date(Some(4_294_967_296)), None);
    assert_eq!(upload_date(Some(4_294_967_296 + 5)), None);
    assert_eq!(upload_date(Some(u64::MAX)), None);
    assert_eq!(upload_date(None), None);
}

#[test]
fn last_second_that_a_record_can_hold_is_stored() {
    let course = run(
        vec![scalar("file_name", "clip.wav"), payload()],
        WriteOutcome::Written { now: Some(2_147_483_647) },
        Ok(()),
    );
    assert_eq!(
        course.outcome,
        Ok(File { file_name: "clip.wav".to_string(), file_type: None, file_upload_date: i32::MAX })
    );
}

#[test]
fn clock_past_what_a_record_can_hold_is_a_clock_error() {
    for now in [2_147_483_648, 4_294_967_296, 4_294_967_301, u64::MAX] {
        let course = run(
            vec![scalar("file_name", "clip.wav"), payload()],
            WriteOutcome::Written { now: Some(now) },
            Ok(()),
        );
        assert_eq!(course.outcome, Err(IngestError::ClockError));
        assert_eq!(course.writes, vec!["clip.wav".to_string()]);
        assert!(course.inserts.is_empty());
    }
}

#[test]
fn clock_that_cannot_be_read_is_a_clock_error() {
    let course = run(
        vec![scalar("file_name", "clip.wav"), payload()],
        WriteOutcome::Written { now: None },
        Ok(()),
    );
    assert_eq!(course.outcome, Err(IngestError::ClockError));
    assert_eq!(course.writes, vec!["clip.wav".to_string()]);
    assert!(course.inserts.is_empty());
}

#[test]
fn empty_file_name_is_malformed() {
    let course = run(
        vec![scalar("file_name", ""), scalar("file_type", "wav"), payload()],
        WriteOutcome::Written { now: Some(1) },
        Ok(()),
    );
    assert_eq!(course.outcome, Err(IngestError::MalformedRequest(Malformation::EmptyFileName)));
    assert!(course.writes.is_empty());
    assert!(course.inserts.is_empty());
}

#[test]
fn file_name_emptied_by_a_later_part_is_malformed() {
    let course = run(
        vec![scalar("file_name", "clip.wav"), scalar("file_name", ""), payload()],
        WriteOutcome::Written { now: Some(1) },
        Ok(()),
    );
    assert_eq!(course.outcome, Err(IngestError::MalformedRequest(Malformation::EmptyFileName)));
    assert!(course.writes.is_empty());
}

#[test]
fn content_directory_is_audio() {
    assert_eq!(content_dir(), "audio");
}

#[test]
fn request_needs_only_file_name() {
    let fields = api_server::fields::FieldMap::new()
        .insert("file_name".to_string(), "a".to_string());
    assert_eq!(
        FileUploadRequest::from_fields(&fields),
        Ok(FileUploadRequest { file_name: "a".to_string(), file_type: None })
    );
    let fields = api_server::fields::FieldMap::new()
        .insert("file_type".to_string(), "wav".to_string());
    assert_eq!(FileUploadRequest::from_fields(&fields), Err(Malformation::MissingFileName));
    let fields = api_server::fields::FieldMap::new()
        .insert("file_name".to_string(), String::new());
    assert_eq!(FileUploadRequest::from_fields(&fields), Err(Malformation::EmptyFileName));
    let fields = api_server::fields::FieldMap::new()
        .insert("file_name".to_string(), "a/b".to_string());
    assert_eq!(FileUploadRequest::from_fields(&fields), Err(Malformation::FileNameNotPlain));
}
