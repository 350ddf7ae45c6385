//! What the proxy decides about a request: where it goes, which body is
//! forwarded, and what the client is told.

use crate::scan::first_index;
use crate::seed_host::chars_of;
use crate::util::StrError;
use crate::xml_writer::WriteOk;
use vstd::prelude::*;
use vstd::string::StringExecFns;

verus! {

/// What a request asks for.
#[derive(Debug, Clone, Copy, PartialEq, Eq, Structural)]
pub enum Route {
    /// A query: it is passed on as it is.
    Select,
    /// A submission of documents: its body is enriched on the way.
    Update,
}

/// The characters with the Unicode property `White_Space`.
pub open spec fn is_white_space(c: char) -> bool {
    let n = c as u32;
    ||| 0x9 <= n <= 0xD
    ||| n == 0x20
    ||| n == 0x85
    ||| n == 0xA0
    ||| n == 0x1680
    ||| 0x2000 <= n <= 0x200A
    ||| n == 0x2028
    ||| n == 0x2029
    ||| n == 0x202F
    ||| n == 0x205F
    ||| n == 0x3000
}

/// A text without the white space at its start.
pub open spec fn trimmed_start(text: Seq<char>) -> Seq<char> {
    match first_index(text, 0, |c: char| !is_white_space(c)) {
        Some(start) => text.skip(start),
        None => Seq::empty(),
    }
}

/// A text without the white space at its end.
pub open spec fn trimmed_end(text: Seq<char>) -> Seq<char>
    decreases text.len(),
{
    if text.len() > 0 && is_white_space(text.last()) {
        trimmed_end(text.drop_last())
    } else {
        text
    }
}

/// A text without the white space at its start and at its end.
pub open spec fn trimmed(text: Seq<char>) -> Seq<char> {
    trimmed_end(trimmed_start(text))
}

/// A text that neither begins nor ends with white space is its own
/// trimmed form.
pub proof fn lemma_trimmed_is_same(text: Seq<char>)
    requires
        text.len() > 0 ==> !is_white_space(text[0]) && !is_white_space(text.last()),
    ensures
        trimmed(text) == text,
{
    if text.len() > 0 {
        assert(text.skip(0) =~= text);
    }
}

/// `str::trim`: the text without leading and trailing white space, where
/// white space is what has the Unicode property `White_Space`.
#[verifier::external_body]
fn trim(text: &str) -> (r: &str)
    ensures
        r@ == trimmed(text@),
{
    text.trim()
}

/// Where a path leads: a path that ends in `/select` is a query, one that
/// ends in `/update` a submission, and no other path is served.
pub open spec fn route_of(path: Seq<char>) -> Option<Route> {
    if "/select"@.is_suffix_of(path) {
        Some(Route::Select)
    } else if "/update"@.is_suffix_of(path) {
        Some(Route::Update)
    } else {
        None
    }
}

/// The message of the error for a path that is not served.
pub open spec fn unknown_path_message(path: Seq<char>) -> Seq<char> {
    "UNKNOWN_PATH "@ + path
}

fn has_suffix(chars: &Vec<char>, suffix: &Vec<char>) -> (r: bool)
    ensures
        r == suffix@.is_suffix_of(chars@),
{
    if suffix.len() > chars.len() {
        return false;
    }
    let from = chars.len() - suffix.len();
    let ghost tail = chars@.subrange(from as int, chars@.len() as int);
    let mut i: usize = 0;
    while i < suffix.len()
        invariant
            i <= suffix.len(),
            from + suffix.len() == chars.len(),
            tail == chars@.subrange(from as int, chars@.len() as int),
            forall|j: int| 0 <= j < i ==> suffix@[j] == tail[j],
        decreases suffix.len() - i,
    {
        if suffix[i] != chars[from + i] {
            assert(tail[i as int] == chars@[from + i]);
            return false;
        }
        assert(tail[i as int] == chars@[from + i]);
        i += 1;
    }
    assert(tail =~= suffix@);
    true
}

/// Where `path` leads, for a path that has no white space around it.
pub fn route_trimmed(path: &str) -> (r: Result<Route, StrError>)
    ensures
        match route_of(path@) {
            Some(route) => r == Ok::<Route, StrError>(route),
            None => r matches Err(error) && error.err_msg@ == unknown_path_message(path@),
        },
{
    let chars = chars_of(path);
    if has_suffix(&chars, &chars_of("/select")) {
        Ok(Route::Select)
    } else if has_suffix(&chars, &chars_of("/update")) {
        Ok(Route::Update)
    } else {
        let mut message = String::from_str("UNKNOWN_PATH ");
        message.append(path);
        Err(StrError::new(message))
    }
}

/// Where the path of a request leads. White space around the path does not
/// count.
pub fn route(path: &str) -> (r: Result<Route, StrError>)
    ensures
        match route_of(trimmed(path@)) {
            Some(route) => r == Ok::<Route, StrError>(route),
            None => r matches Err(error) && error.err_msg@ == unknown_path_message(
                trimmed(path@),
            ),
        },
{
    route_trimmed(trim(path))
}

/// The address at the backend for a request: the base address of the
/// backend with the path and the query of the request behind it.
pub fn backend_url(base: &str, path_and_query: &str) -> (url: String)
    ensures
        url@ == base@ + path_and_query@,
{
    let mut url = String::from_str(base);
    url.append(path_and_query);
    url
}

/// What is done with a submission once its body has been worked on. `E` is
/// the error that the work on the body may end in.
#[derive(Debug)]
pub struct UpdatePlan<E> {
    /// The body to forward in place of the one that was received; `None`
    /// where the body that was received is forwarded.
    pub body: Option<Vec<u8>>,
    /// The number of documents to count for the request.
    pub doc_cnt: usize,
    /// The error to tell along with the answer of the backend.
    pub parse_error: Option<E>,
}

/// The body that goes to the backend once writing has come to `written`:
/// the new body where there is one, else the body that was received.
pub open spec fn body_for(original: Seq<u8>, written: WriteOk) -> Seq<u8> {
    match written {
        WriteOk::Changed(bytes, _) => bytes@,
        WriteOk::NoChanged(_) => original,
    }
}

/// The body that `plan` sends to the backend for a request with the body
/// `original`.
pub open spec fn forwarded<E>(original: Seq<u8>, plan: UpdatePlan<E>) -> Seq<u8> {
    match plan.body {
        Some(bytes) => bytes@,
        None => original,
    }
}

/// Decides what to forward for a submission. A rewritten body is forwarded
/// in place of the original. Where nothing was changed, or the work on the
/// body failed, the original is forwarded; a failure counts no documents and
/// is kept to be told along with the answer.
pub fn plan_update<E>(parsed: Result<WriteOk, E>) -> (plan: UpdatePlan<E>)
    ensures
        match parsed {
            Ok(written) => {
                &&& forall|original: Seq<u8>| #[trigger]
                    forwarded(original, plan) == body_for(original, written)
                &&& plan.body is Some <==> written is Changed
                &&& plan.doc_cnt == match written {
                    WriteOk::Changed(_, doc_cnt) => doc_cnt,
                    WriteOk::NoChanged(doc_cnt) => doc_cnt,
                }
                &&& plan.parse_error is None
            },
            Err(error) => plan.body is None && plan.doc_cnt == 0 && plan.parse_error == Some(
                error,
            ),
        },
{
    match parsed {
        Ok(WriteOk::Changed(bytes, doc_cnt)) => UpdatePlan {
            body: Some(bytes),
            doc_cnt,
            parse_error: None,
        },
        Ok(WriteOk::NoChanged(doc_cnt)) => UpdatePlan { body: None, doc_cnt, parse_error: None },
        Err(error) => UpdatePlan { body: None, doc_cnt: 0, parse_error: Some(error) },
    }
}

} // verus!
