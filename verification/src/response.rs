//! Response bodies: lists of file names as JSON text.

use vstd::prelude::*;
use crate::store::StoreError;

verus! {

/// The one failure that a handler reports: a generic server failure.
#[derive(Debug, Clone, Copy, PartialEq, Eq)]
pub struct ServerError;

/// `serde_json::Error`: why an encoding failed. It is passed along unread.
#[verifier::external_type_specification]
#[verifier::external_body]
pub struct ExJsonError(serde_json::Error);

/// The JSON text that `serde_json::to_string` gives for a list of strings.
pub uninterp spec fn names_json(names: Seq<Seq<char>>) -> Seq<char>;

/// Calls `serde_json::to_string` on a list of strings. Taken on trust, not
/// proved: the call succeeds, since it writes into memory and neither a list
/// nor a string refuses to be encoded; and the text it yields depends on the
/// strings alone, in their order. [`names_json`] is the name of that text.
#[verifier::external_body]
fn encode_names(names: &Vec<String>) -> (encoded: Result<String, serde_json::Error>)
    ensures
        encoded is Ok,
        encoded matches Ok(text) ==> text@ == names_json(names.deep_view()),
{
    serde_json::to_string(names)
}

/// The characters of a response body, or the failure.
pub open spec fn response_view(response: Result<String, ServerError>) -> Result<
    Seq<char>,
    ServerError,
> {
    match response {
        Ok(body) => Ok(body@),
        Err(e) => Err(e),
    }
}

/// The response whose body is the JSON array of `names`, in their order.
pub open spec fn response_for(names: Seq<Seq<char>>) -> Result<Seq<char>, ServerError> {
    Ok(names_json(names))
}

/// Turns the outcome of encoding into a response: the text as the body, or a
/// server failure.
pub fn json_response(encoded: Result<String, serde_json::Error>) -> (response: Result<
    String,
    ServerError,
>)
    ensures
        match encoded {
            Ok(text) => response == Ok::<String, ServerError>(text),
            Err(_) => response == Err::<String, ServerError>(ServerError),
        },
{
    match encoded {
        Ok(text) => Ok(text),
        Err(_) => Err(ServerError),
    }
}

/// Answers with the JSON array of `names`, in their order.
pub fn names_response(names: &Vec<String>) -> (response: Result<String, ServerError>)
    ensures
        response_view(response) == response_for(names.deep_view()),
{
    json_response(encode_names(names))
}

/// Answers a request for all file names from what the store returned: the
/// names as a JSON array in the store's order, each as often as the store
/// returned it, or a server failure where the store failed.
pub fn list_files(listed: Result<Vec<String>, StoreError>) -> (response: Result<
    String,
    ServerError,
>)
    ensures
        response_view(response) == match listed {
            Ok(names) => response_for(names.deep_view()),
            Err(_) => Err(ServerError),
        },
{
    match listed {
        Ok(names) => names_response(&names),
        Err(_) => Err(ServerError),
    }
}

} // verus!
