//! The host: what the plugin asks of it, and what it has answered.
//!
//! Nothing here performs a call. A procedure is a function of the answers heard so far: it
//! finishes, or it names the next call that it needs. Whoever runs it performs that call, adds
//! the answer, and runs the procedure again.

use vstd::prelude::*;
use vstd::utf8::{decode_utf8, valid_utf8};

verus! {

/// A request for the host's HTTP client.
#[derive(Debug, PartialEq, Eq)]
pub struct Request {
    /// The request method.
    pub method: String,
    /// Where the request goes.
    pub url: String,
    /// The header fields, in order.
    pub headers: Vec<(String, String)>,
    /// The content, if there is any.
    pub body: Option<Vec<u8>>,
}

/// What came back for a request.
#[derive(Debug, PartialEq, Eq)]
pub struct Response {
    /// The status code.
    pub status: u16,
    /// The header fields, in order.
    pub headers: Vec<(String, String)>,
    /// The content.
    pub body: Vec<u8>,
}

/// One result of a catalogue search.
#[derive(Clone, Debug, PartialEq, Eq)]
pub struct ItunesResult {
    /// The page of the album.
    pub collection_view_url: Option<String>,
    /// The title of the album.
    pub collection_name: Option<String>,
}

/// A call that a procedure asks for.
#[derive(Debug, PartialEq, Eq)]
pub enum Action {
    /// Read what is stored under a key.
    ReadState(String),
    /// Store bytes under a key.
    WriteState(String, Vec<u8>),
    /// Send a request.
    Send(Request),
    /// Decode the body of a search response.
    DecodeSearch(String),
    /// Look up an option of the user's.
    GetOption(String),
}

/// What the host has answered so far.
#[derive(Debug, PartialEq, Eq)]
pub struct Heard {
    /// The answers to the reads, in order.
    pub states: Vec<Result<Option<Vec<u8>>, String>>,
    /// How many writes have been performed.
    pub writes: usize,
    /// The answers to the requests, in order.
    pub responses: Vec<Result<Response, String>>,
    /// The results of the search, once decoded.
    pub search: Option<Result<Vec<ItunesResult>, String>>,
    /// The value of the option, once looked up.
    pub option: Option<Option<String>>,
}

/// How many answers of each sort a procedure has used up.
#[derive(Clone, Copy, Debug, PartialEq, Eq)]
pub struct Place {
    /// Reads.
    pub states: usize,
    /// Writes.
    pub writes: usize,
    /// Requests.
    pub responses: usize,
}

/// How far a procedure gets with what has been heard.
#[derive(Debug, PartialEq, Eq)]
pub enum Run<T> {
    /// It needs the answer to this call.
    Ask(Action),
    /// It fails, for this reason.
    Fail(String),
    /// It finishes, with this result.
    Done(T),
}

/// What a request says.
pub struct RequestText {
    /// The request method.
    pub method: Seq<char>,
    /// Where the request goes.
    pub url: Seq<char>,
    /// The header fields, in order.
    pub headers: Seq<(Seq<char>, Seq<char>)>,
    /// The content, if there is any.
    pub body: Option<Seq<u8>>,
}

/// What a call says.
pub enum Call {
    /// Read what is stored under a key.
    ReadState(Seq<char>),
    /// Store bytes under a key.
    WriteState(Seq<char>, Seq<u8>),
    /// Send a request.
    Send(RequestText),
    /// Decode the body of a search response.
    DecodeSearch(Seq<char>),
    /// Look up an option of the user's.
    GetOption(Seq<char>),
}

/// How many answers of each sort have been used up.
pub struct Mark {
    /// Reads.
    pub states: nat,
    /// Writes.
    pub writes: nat,
    /// Requests.
    pub responses: nat,
}

/// How far a procedure gets, and what it has used up when it ends.
pub enum Flow<V> {
    /// It needs the answer to this call.
    Ask(Call),
    /// It fails, for this reason.
    Fail(Seq<char>, Mark),
    /// It finishes, with this result.
    Done(V, Mark),
}

impl Mark {
    /// One read further.
    pub open spec fn past_read(self) -> Mark {
        Mark { states: self.states + 1, ..self }
    }

    /// One write further.
    pub open spec fn past_write(self) -> Mark {
        Mark { writes: self.writes + 1, ..self }
    }

    /// One request further.
    pub open spec fn past_response(self) -> Mark {
        Mark { responses: self.responses + 1, ..self }
    }
}

impl DeepView for Request {
    type V = RequestText;

    open spec fn deep_view(&self) -> RequestText {
        RequestText {
            method: self.method@,
            url: self.url@,
            headers: self.headers.deep_view(),
            body: self.body.deep_view(),
        }
    }
}

impl DeepView for Action {
    type V = Call;

    open spec fn deep_view(&self) -> Call {
        match *self {
            Action::ReadState(key) => Call::ReadState(key@),
            Action::WriteState(key, value) => Call::WriteState(key@, value@),
            Action::Send(request) => Call::Send(request.deep_view()),
            Action::DecodeSearch(body) => Call::DecodeSearch(body@),
            Action::GetOption(name) => Call::GetOption(name@),
        }
    }
}

impl View for Place {
    type V = Mark;

    open spec fn view(&self) -> Mark {
        Mark {
            states: self.states as nat,
            writes: self.writes as nat,
            responses: self.responses as nat,
        }
    }
}

/// A procedure got exactly as far as `flow` says, and stands at `at` where it ended.
pub open spec fn follows<T: DeepView>(run: Run<T>, at: Place, flow: Flow<T::V>) -> bool {
    match flow {
        Flow::Ask(call) => run matches Run::Ask(action) && action.deep_view() == call,
        Flow::Fail(reason, mark) => run matches Run::Fail(e) && e@ == reason && at@ == mark,
        Flow::Done(value, mark) => run matches Run::Done(r) && r.deep_view() == value && at@
            == mark,
    }
}

/// `later` holds the answers in `heard`, and perhaps more.
pub open spec fn extends(heard: Heard, later: Heard) -> bool {
    &&& heard.states@.is_prefix_of(later.states@)
    &&& heard.writes <= later.writes
    &&& heard.responses@.is_prefix_of(later.responses@)
    &&& heard.search is Some ==> later.search == heard.search
    &&& heard.option is Some ==> later.option == heard.option
}

/// What an ended procedure came to stands: only one that asked may get further.
pub open spec fn stands<V>(flow: Flow<V>, later: Flow<V>) -> bool {
    flow is Ask || later == flow
}

impl Place {
    /// Nothing used up yet.
    pub fn start() -> (at: Place)
        ensures
            at@ == (Mark { states: 0, writes: 0, responses: 0 }),
    {
        Place { states: 0, writes: 0, responses: 0 }
    }
}

impl Heard {
    /// Nothing heard yet.
    pub fn new() -> (heard: Heard)
        ensures
            heard.states@.len() == 0,
            heard.writes == 0,
            heard.responses@.len() == 0,
            heard.search is None,
            heard.option is None,
    {
        Heard { states: Vec::new(), writes: 0, responses: Vec::new(), search: None, option: None }
    }
}

/// The text that invalid UTF-8 is shown as.
pub uninterp spec fn patched_utf8(bytes: Seq<u8>) -> Seq<char>;

/// The text of some bytes: what they encode in UTF-8, patched up where they do not.
pub open spec fn lossy_text(bytes: Seq<u8>) -> Seq<char> {
    if valid_utf8(bytes) {
        decode_utf8(bytes)
    } else {
        patched_utf8(bytes)
    }
}

/// `String::from_utf8_lossy` decodes valid UTF-8 as it is; what it puts in place of invalid
/// sequences is only named.
#[verifier::external_body]
pub(crate) fn lossy(bytes: &Vec<u8>) -> (out: String)
    ensures
        out@ == (if valid_utf8(bytes@) {
            decode_utf8(bytes@)
        } else {
            patched_utf8(bytes@)
        }),
{
    String::from_utf8_lossy(bytes).into_owned()
}

/// `String::from_utf8` decodes valid UTF-8 and nothing else.
#[verifier::external_body]
pub(crate) fn strict(bytes: Vec<u8>) -> (out: Option<String>)
    ensures
        match out {
            Some(s) => valid_utf8(bytes@) && s@ == decode_utf8(bytes@),
            None => !valid_utf8(bytes@),
        },
{
    String::from_utf8(bytes).ok()
}

} // verus!
