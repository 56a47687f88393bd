use api_server::filter::{common, filter_files, FileFilterAttributes, FilterStep};
use api_server::name_set::NameSet;
use api_server::record::File;
use api_server::response::ServerError;
use api_server::store::{Lookup, StoreError};

fn file(name: &str, kind: Option<&str>, date: i32) -> File {
    File { file_name: name.to_string(), file_type: kind.map(|k| k.to_string()), file_upload_date: date }
}

/// The rows of `table` that a lookup asks for, in the table's order.
fn find(table: &[File], lookup: &Lookup) -> Vec<File> {
    table
        .iter()
        .filter(|row| match lookup {
            Lookup::FileName(name) => &row.file_name == name,
            Lookup::FileType(kind) => row.file_type.as_ref() == Some(kind),
            Lookup::FileUploadDate(date) => row.file_upload_date == *date,
        })
        .cloned()
        .collect()
}

/// Drives a query against `table`, and records the lookups made.
fn query(table: &[File], attributes: FileFilterAttributes) -> (Vec<Lookup>, Result<String, ServerError>) {
    let mut asked = vec![];
    let mut step = filter_files(attributes);
    loop {
        match step {
            FilterStep::Find(lookup, run) => {
                let rows = find(table, &lookup);
                asked.push(lookup);
                step = run.advance(Ok(rows));
            }
            FilterStep::Respond(response) => return (asked, response),
        }
    }
}

fn attributes(name: Option<&str>, kind: Option<&str>, date: Option<i32>) -> FileFilterAttributes {
    FileFilterAttributes {
        file_name: name.map(|n| n.to_string()),
        file_type: kind.map(|k| k.to_string()),
        file_upload_date: date,
    }
}

fn names(json: &str) -> Vec<String> {
    serde_json::from_str(json).unwrap()
}

#[test]
fn type_filter_returns_the_two_wav_files() {
    let table =
        [file("b.wav", Some("wav"), 1), file("a.wav", Some("wav"), 2), file("c.mp3", Some("mp3"), 3)];
    let (asked, response) = query(&table, attributes(None, Some("wav"), None));
    assert_eq!(asked, vec![Lookup::FileType("wav".to_string())]);
    assert_eq!(response, Ok("[\"a.wav\",\"b.wav\"]".to_string()));
}

#[test]
fn disjoint_predicates_return_nothing() {
    let table =
        [file("a.wav", Some("wav"), 1), file("b.wav", Some("wav"), 2), file("c.mp3", Some("mp3"), 3)];
    let (asked, response) = query(&table, attributes(None, Some("wav"), Some(3)));
    assert_eq!(asked.len(), 2);
    assert_eq!(response, Ok("[]".to_string()));
}

#[test]
fn no_predicate_returns_nothing_and_asks_nothing() {
    let table = [file("a.wav", Some("wav"), 1)];
    let (asked, response) = query(&table, attributes(None, None, None));
    assert!(asked.is_empty());
    assert_eq!(response, Ok("[]".to_string()));
}

#[test]
fn lookups_are_made_by_name_then_type_then_date() {
    let table = [file("a", Some("wav"), 9)];
    let (asked, response) = query(&table, attributes(Some("a"), Some("wav"), Some(9)));
    assert_eq!(
        asked,
        vec![
            Lookup::FileName("a".to_string()),
            Lookup::FileType("wav".to_string()),
            Lookup::FileUploadDate(9),
        ]
    );
    assert_eq!(response, Ok("[\"a\"]".to_string()));
}

#[test]
fn three_predicates_intersect() {
    let table = [
        file("a", Some("wav"), 1),
        file("b", Some("wav"), 1),
        file("c", Some("mp3"), 1),
        file("b", Some("mp3"), 2),
        file("d", Some("wav"), 2),
    ];
    let (_, response) = query(&table, attributes(Some("b"), Some("wav"), Some(1)));
    assert_eq!(names(&response.unwrap()), vec!["b".to_string()]);
    let (_, response) = query(&table, attributes(None, Some("wav"), Some(1)));
    assert_eq!(names(&response.unwrap()), vec!["a".to_string(), "b".to_string()]);
    let (_, response) = query(&table, attributes(Some("c"), Some("wav"), Some(1)));
    assert_eq!(names(&response.unwrap()), Vec::<String>::new());
}

#[test]
fn rows_of_one_name_are_collapsed() {
    let table = [file("a", Some("wav"), 1), file("a", Some("wav"), 2), file("a", Some("wav"), 3)];
    let (_, response) = query(&table, attributes(None, Some("wav"), None));
    assert_eq!(response, Ok("[\"a\"]".to_string()));
}

#[test]
fn a_name_shared_by_different_rows_is_common() {
    let table = [file("a", Some("wav"), 1), file("a", Some("mp3"), 2)];
    let (_, response) = query(&table, attributes(None, Some("wav"), Some(2)));
    assert_eq!(response, Ok("[\"a\"]".to_string()));
}

#[test]
fn empty_text_is_a_predicate() {
    let table = [file("", Some(""), 0), file("a", Some("wav"), 0)];
    let (asked, response) = query(&table, attributes(Some(""), None, None));
    assert_eq!(asked, vec![Lookup::FileName(String::new())]);
    assert_eq!(response, Ok("[\"\"]".to_string()));
}

#[test]
fn store_failure_ends_the_query_at_once() {
    let step = filter_files(attributes(Some("a"), Some("wav"), None));
    let run = match step {
        FilterStep::Find(lookup, run) => {
            assert_eq!(lookup, Lookup::FileName("a".to_string()));
            run
        }
        FilterStep::Respond(_) => panic!("a lookup by name is called for"),
    };
    match run.advance(Err(StoreError)) {
        FilterStep::Respond(response) => assert_eq!(response, Err(ServerError)),
        FilterStep::Find(..) => panic!("no lookup follows a failure"),
    }
}

#[test]
fn store_failure_in_a_later_lookup_fails_the_query() {
    let step = filter_files(attributes(Some("a"), None, Some(4)));
    let run = match step {
        FilterStep::Find(_, run) => run,
        FilterStep::Respond(_) => panic!("a lookup is called for"),
    };
    let run = match run.advance(Ok(vec![file("a", None, 4)])) {
        FilterStep::Find(lookup, run) => {
            assert_eq!(lookup, Lookup::FileUploadDate(4));
            run
        }
        FilterStep::Respond(_) => panic!("a lookup by date is called for"),
    };
    match run.advance(Err(StoreError)) {
        FilterStep::Respond(response) => assert_eq!(response, Err(ServerError)),
        FilterStep::Find(..) => panic!("no lookup follows a failure"),
    }
}

#[test]
fn names_in_the_response_are_escaped_json() {
    let table = [file("a\"b", Some("wav"), 1), file("c\\d", Some("wav"), 1)];
    let (_, response) = query(&table, attributes(None, Some("wav"), None));
    let body = response.unwrap();
    assert_eq!(body, "[\"a\\\"b\",\"c\\\\d\"]");
    assert_eq!(names(&body), vec!["a\"b".to_string(), "c\\d".to_string()]);
}

#[test]
fn common_of_no_sets_is_empty() {
    assert_eq!(common(vec![]), Vec::<String>::new());
}

#[test]
fn common_of_one_set_is_that_set() {
    let only = NameSet::from_files(vec![file("b", None, 0), file("a", None, 0)]);
    assert_eq!(common(vec![only]), vec!["a".to_string(), "b".to_string()]);
}

#[test]
fn common_of_several_sets_is_their_intersection() {
    let first = NameSet::from_files(vec![file("a", None, 0), file("b", None, 0), file("c", None, 0)]);
    let second = NameSet::from_files(vec![file("b", None, 0), file("c", None, 0), file("d", None, 0)]);
    let third = NameSet::from_files(vec![file("c", None, 0), file("e", None, 0)]);
    assert_eq!(common(vec![first, second, third]), vec!["c".to_string()]);
}
