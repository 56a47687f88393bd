use api_server::response::{json_response, list_files, names_response, ServerError};
use api_server::store::StoreError;

fn strings(names: &[&str]) -> Vec<String> {
    names.iter().map(|n| n.to_string()).collect()
}

#[test]
fn names_are_listed_as_a_json_array() {
    assert_eq!(list_files(Ok(strings(&["b.wav", "a.wav"]))), Ok("[\"b.wav\",\"a.wav\"]".to_string()));
}

#[test]
fn no_names_make_an_empty_array() {
    assert_eq!(list_files(Ok(vec![])), Ok("[]".to_string()));
}

#[test]
fn repeated_names_are_listed_as_often_as_given() {
    assert_eq!(
        list_files(Ok(strings(&["a", "b", "a", "a"]))),
        Ok("[\"a\",\"b\",\"a\",\"a\"]".to_string())
    );
}

#[test]
fn store_failure_is_a_server_failure() {
    assert_eq!(list_files(Err(StoreError)), Err(ServerError));
}

#[test]
fn names_response_escapes_text() {
    let body = names_response(&strings(&["a\"b", "line\nbreak", "é"])).unwrap();
    assert_eq!(body, "[\"a\\\"b\",\"line\\nbreak\",\"é\"]");
    let back: Vec<String> = serde_json::from_str(&body).unwrap();
    assert_eq!(back, strings(&["a\"b", "line\nbreak", "é"]));
}

#[test]
fn encoded_text_becomes_the_body() {
    assert_eq!(json_response(Ok("[1]".to_string())), Ok("[1]".to_string()));
}

#[test]
fn encoding_failure_is_a_server_failure() {
    let error = serde_json::from_str::<Vec<String>>("not json").unwrap_err();
    assert_eq!(json_response(Err(error)), Err(ServerError));
}
