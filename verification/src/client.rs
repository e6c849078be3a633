use vstd::prelude::*;

use crate::errors::SemgrepError;
use crate::text::{chars_of, push_all, push_str, starts_with, string_of};

verus! {

/// A reqwest HTTP client, carried by the API client.
#[verifier::external_type_specification]
#[verifier::external_body]
pub struct ExReqwestClient(reqwest::Client);

/// A client of the NextPlaid API at a base URL.
pub struct ApiClient {
    base_url: String,
    http: reqwest::Client,
}

/// `s` without trailing `/`.
pub open spec fn trim_end_slashes(s: Seq<char>) -> Seq<char>
    decreases s.len(),
{
    if s.len() > 0 && s.last() == '/' {
        trim_end_slashes(s.drop_last())
    } else {
        s
    }
}

/// A fresh reqwest client (`reqwest::Client::new`). Nothing is claimed of it. `Client::new`
/// is `ClientBuilder::new().build()` with an `expect`; reqwest documents a panic only where
/// a TLS backend cannot be initialized or the resolver cannot load the system
/// configuration, and with default settings and the `rustls-tls` feature `build` meets
/// neither.
#[verifier::external_body]
fn new_http_client() -> reqwest::Client {
    reqwest::Client::new()
}

/// The resources of the API.
#[derive(Debug, Clone, PartialEq, Eq)]
pub enum Endpoint {
    /// All indices.
    Indices,
    /// One index.
    Index(String),
    /// The documents of an index.
    Documents(String),
    /// Adding documents to an index, which the server encodes.
    UpdateWithEncoding(String),
    /// Searching an index with a query that the server encodes.
    SearchWithEncoding(String),
    /// Searching an index with a filter and a query that the server encodes.
    FilteredSearchWithEncoding(String),
}

/// The path of an endpoint, below the base URL.
pub open spec fn endpoint_path(e: Endpoint) -> Seq<char> {
    match e {
        Endpoint::Indices => "/indices"@,
        Endpoint::Index(n) => "/indices/"@ + n@,
        Endpoint::Documents(n) => "/indices/"@ + n@ + "/documents"@,
        Endpoint::UpdateWithEncoding(n) => "/indices/"@ + n@ + "/update_with_encoding"@,
        Endpoint::SearchWithEncoding(n) => "/indices/"@ + n@ + "/search_with_encoding"@,
        Endpoint::FilteredSearchWithEncoding(n) => "/indices/"@ + n@ + "/search/filtered_with_encoding"@,
    }
}

impl ApiClient {
    /// The base URL, without trailing `/`.
    pub closed spec fn base(&self) -> Seq<char> {
        self.base_url@
    }

    /// A client of the API at `base_url`, kept without its trailing `/`.
    pub fn new(base_url: String) -> (res: Self)
        ensures
            res.base() == trim_end_slashes(base_url@),
    {
        let v = chars_of(base_url.as_str());
        let mut n = v.len();
        assert(v@.subrange(0, n as int) =~= v@);
        while n > 0 && v[n - 1] == '/'
            invariant
                n <= v@.len(),
                trim_end_slashes(v@) == trim_end_slashes(v@.subrange(0, n as int)),
            decreases n,
        {
            assert(v@.subrange(0, n as int).drop_last() =~= v@.subrange(0, n - 1));
            n = n - 1;
        }
        let trimmed = crate::text::sub_chars(v.as_slice(), 0, n);
        ApiClient { base_url: string_of(trimmed.as_slice()), http: new_http_client() }
    }

    /// The base URL.
    pub fn base_url(&self) -> (res: &str)
        ensures
            res@ == self.base(),
    {
        self.base_url.as_str()
    }

    /// The HTTP client that this API client holds.
    pub closed spec fn held_http(&self) -> reqwest::Client {
        self.http
    }

    /// The HTTP client that requests go through: the one this API client holds.
    pub fn http(&self) -> (res: &reqwest::Client)
        ensures
            *res == self.held_http(),
    {
        &self.http
    }

    /// The URL of an endpoint.
    pub fn endpoint_url(&self, endpoint: &Endpoint) -> (res: String)
        ensures
            res@ == self.base() + endpoint_path(*endpoint),
    {
        let mut v: Vec<char> = Vec::new();
        push_str(&mut v, self.base_url.as_str());
        match endpoint {
            Endpoint::Indices => {
                push_str(&mut v, "/indices");
            },
            Endpoint::Index(n) => {
                push_str(&mut v, "/indices/");
                push_str(&mut v, n.as_str());
            },
            Endpoint::Documents(n) => {
                push_str(&mut v, "/indices/");
                push_str(&mut v, n.as_str());
                push_str(&mut v, "/documents");
            },
            Endpoint::UpdateWithEncoding(n) => {
                push_str(&mut v, "/indices/");
                push_str(&mut v, n.as_str());
                push_str(&mut v, "/update_with_encoding");
            },
            Endpoint::SearchWithEncoding(n) => {
                push_str(&mut v, "/indices/");
                push_str(&mut v, n.as_str());
                push_str(&mut v, "/search_with_encoding");
            },
            Endpoint::FilteredSearchWithEncoding(n) => {
                push_str(&mut v, "/indices/");
                push_str(&mut v, n.as_str());
                push_str(&mut v, "/search/filtered_with_encoding");
            },
        }
        string_of(v.as_slice())
    }
}

/// The API calls, by how their answers are judged.
#[derive(Debug, Clone, Copy, PartialEq, Eq)]
pub enum ApiCall {
    ListIndices,
    DeleteIndex,
    CreateIndex,
    GetIndexInfo,
    DeleteDocuments,
    UpdateWithEncoding,
    Search,
}

/// How an answer of the API is taken.
#[derive(Debug, Clone, Copy, PartialEq, Eq)]
pub enum Outcome {
    /// The call did what it asked.
    Success,
    /// The index asked about does not exist.
    Absent,
    /// The call failed; the answer becomes an error.
    Failure,
}

/// A status code in the success class (2xx).
pub open spec fn is_success(status: u16) -> bool {
    200 <= status <= 299
}

/// How an answer with `status` to `call` is taken: deleting an index that is not there
/// (404) and creating one that is (409) succeed; asking for the information of an index
/// that is not there (404) finds it absent; otherwise 2xx succeeds and all else fails.
pub open spec fn outcome_spec(call: ApiCall, status: u16) -> Outcome {
    match call {
        ApiCall::DeleteIndex => if is_success(status) || status == 404 {
            Outcome::Success
        } else {
            Outcome::Failure
        },
        ApiCall::CreateIndex => if is_success(status) || status == 409 {
            Outcome::Success
        } else {
            Outcome::Failure
        },
        ApiCall::GetIndexInfo => if status == 404 {
            Outcome::Absent
        } else if is_success(status) {
            Outcome::Success
        } else {
            Outcome::Failure
        },
        _ => if is_success(status) {
            Outcome::Success
        } else {
            Outcome::Failure
        },
    }
}

/// How an answer with `status` to `call` is taken.
pub fn response_outcome(call: ApiCall, status: u16) -> (res: Outcome)
    ensures
        res == outcome_spec(call, status),
{
    let ok = 200 <= status && status <= 299;
    match call {
        ApiCall::DeleteIndex => if ok || status == 404 {
            Outcome::Success
        } else {
            Outcome::Failure
        },
        ApiCall::CreateIndex => if ok || status == 409 {
            Outcome::Success
        } else {
            Outcome::Failure
        },
        ApiCall::GetIndexInfo => if status == 404 {
            Outcome::Absent
        } else if ok {
            Outcome::Success
        } else {
            Outcome::Failure
        },
        _ => if ok {
            Outcome::Success
        } else {
            Outcome::Failure
        },
    }
}

/// The body of an error answer, where it is a JSON object.
#[derive(Debug, Clone, PartialEq, Eq)]
pub struct ApiErrorBody {
    pub code: Option<String>,
    pub message: Option<String>,
}

/// The message of a failed call: the API's message, with its code if any, where the body
/// holds one; else the status, with the body's text if not empty.
pub open spec fn api_error_message_spec(status: Seq<char>, text: Seq<char>, body: Option<ApiErrorBody>) -> Seq<char> {
    match body {
        Some(ApiErrorBody { code, message: Some(m) }) => match code {
            Some(c) => "API error "@ + status + " ("@ + c@ + "): "@ + m@,
            None => "API error "@ + status + ": "@ + m@,
        },
        _ => if text.len() == 0 {
            "API request failed with status "@ + status
        } else {
            "API request failed with status "@ + status + ": "@ + text
        },
    }
}

/// The error of a failed call, from its status (as `StatusCode` displays it), the text of
/// its body, and that body read as an error object where it is one.
pub fn api_error(status: &str, text: &str, body: Option<ApiErrorBody>) -> (res: SemgrepError)
    ensures
        res matches SemgrepError::Api(m) && m@ == api_error_message_spec(status@, text@, body),
{
    let mut v: Vec<char> = Vec::new();
    match body {
        Some(ApiErrorBody { code, message: Some(m) }) => {
            push_str(&mut v, "API error ");
            push_str(&mut v, status);
            match code {
                Some(c) => {
                    push_str(&mut v, " (");
                    push_str(&mut v, c.as_str());
                    push_str(&mut v, "): ");
                },
                None => {
                    push_str(&mut v, ": ");
                },
            }
            push_str(&mut v, m.as_str());
        },
        _ => {
            push_str(&mut v, "API request failed with status ");
            push_str(&mut v, status);
            let tv = chars_of(text);
            if tv.len() > 0 {
                push_str(&mut v, ": ");
                push_all(&mut v, tv.as_slice());
            }
        },
    }
    SemgrepError::Api(string_of(v.as_slice()))
}

/// The check before documents are uploaded: each needs its metadata.
pub fn check_update_batch(documents: usize, metadata: usize) -> (res: Result<(), SemgrepError>)
    ensures
        documents == metadata ==> res is Ok,
        documents != metadata ==> res == Err::<(), SemgrepError>(
            SemgrepError::LengthMismatch { documents, metadata },
        ),
{
    if documents != metadata {
        Err(SemgrepError::LengthMismatch { documents, metadata })
    } else {
        Ok(())
    }
}

/// The number of hits in the answer to a search: the first query's scores, document ids
/// and metadata are read side by side, as far as the shortest of them goes.
pub fn search_hit_count(scores: usize, document_ids: usize, metadata: usize) -> (res: usize)
    ensures
        res <= scores && res <= document_ids && res <= metadata,
        res == scores || res == document_ids || res == metadata,
{
    let mut n = scores;
    if document_ids < n {
        n = document_ids;
    }
    if metadata < n {
        n = metadata;
    }
    n
}

/// The number of times the index is polled while waiting for it to hold the documents.
pub const SYNC_POLLS: usize = 40;

/// The pause between polls, in milliseconds.
pub const SYNC_PAUSE_MILLIS: u64 = 200;

/// What happened last while waiting for the index.
#[derive(Debug, Clone, Copy, PartialEq, Eq)]
pub enum SyncEvent {
    /// Nothing yet.
    Start,
    /// The index was polled; the number of its documents, where the poll found it.
    Polled(Option<usize>),
    /// The pause after a poll is over.
    Paused,
}

/// What to do next while waiting for the index.
#[derive(Debug, Clone, Copy, PartialEq, Eq)]
pub enum SyncAction {
    Poll,
    Pause,
    Stop,
}

/// The next step of the wait for an index to hold `expected` documents, after `polls`
/// polls: nothing is awaited when nothing is expected; a poll that finds enough documents
/// ends the wait, any other is followed by a pause; after a pause the index is polled again
/// unless it has been polled `SYNC_POLLS` times.
pub open spec fn sync_step_spec(expected: usize, polls: usize, event: SyncEvent) -> SyncAction {
    match event {
        SyncEvent::Start => if expected == 0 {
            SyncAction::Stop
        } else {
            SyncAction::Poll
        },
        SyncEvent::Polled(found) => match found {
            Some(n) if n >= expected => SyncAction::Stop,
            _ => SyncAction::Pause,
        },
        SyncEvent::Paused => if polls >= SYNC_POLLS {
            SyncAction::Stop
        } else {
            SyncAction::Poll
        },
    }
}

/// The next step of the wait for an index to hold `expected` documents.
pub fn sync_step(expected: usize, polls: usize, event: SyncEvent) -> (res: SyncAction)
    ensures
        res == sync_step_spec(expected, polls, event),
{
    match event {
        SyncEvent::Start => if expected == 0 {
            SyncAction::Stop
        } else {
            SyncAction::Poll
        },
        SyncEvent::Polled(found) => match found {
            Some(n) => if n >= expected {
                SyncAction::Stop
            } else {
                SyncAction::Pause
            },
            None => SyncAction::Pause,
        },
        SyncEvent::Paused => if polls >= SYNC_POLLS {
            SyncAction::Stop
        } else {
            SyncAction::Poll
        },
    }
}

/// Index names that this tool made.
pub open spec fn is_tool_index(name: Seq<char>) -> bool {
    name.len() >= "semgrep-"@.len() && name.take("semgrep-"@.len() as int) == "semgrep-"@
}

/// The indices that clearing all removes: those whose names begin with `semgrep-`, in order.
pub fn indices_to_clear(indices: &Vec<String>) -> (res: Vec<String>)
    ensures
        res@.map_values(|s: String| s@) == indices@.map_values(|s: String| s@).filter(
            |n: Seq<char>| is_tool_index(n),
        ),
{
    let prefix = chars_of("semgrep-");
    let ghost all = indices@.map_values(|s: String| s@);
    let ghost pred = |n: Seq<char>| is_tool_index(n);
    let mut out: Vec<String> = Vec::new();
    for i in 0..indices.len()
        invariant
            all == indices@.map_values(|s: String| s@),
            pred == (|n: Seq<char>| is_tool_index(n)),
            prefix@ == "semgrep-"@,
            out@.map_values(|s: String| s@) == all.take(i as int).filter(pred),
    {
        proof {
            reveal(Seq::filter);
            assert(all.take(i + 1).drop_last() =~= all.take(i as int));
        }
        let v = chars_of(indices[i].as_str());
        if starts_with(v.as_slice(), prefix.as_slice()) {
            let ghost before = out@.map_values(|s: String| s@);
            out.push(indices[i].clone());
            assert(out@.map_values(|s: String| s@) =~= before.push(indices@[i as int]@));
        }
    }
    assert(all.take(all.len() as int) =~= all);
    out
}

} // verus!
