//! The Codex app-server protocol as the browser reads it: JSON-RPC replies
//! and the thread records of `thread/list` and `thread/read`, decoded into
//! sessions. Transport and JSON parsing stand outside; they hand these
//! plain values over.

use crate::domain::{
    all_whitespace, sort_sessions, sorted_by_recency, Session, SessionId, SessionPage,
};
use crate::text::{sanitize_terminal_text, sanitized};
use vstd::prelude::*;

verus! {

/// A failure of the session source, with its message.
#[derive(Debug)]
pub struct SourceError {
    message: String,
}

impl View for SourceError {
    type V = Seq<char>;

    closed spec fn view(&self) -> Seq<char> {
        self.message@
    }
}

impl SourceError {
    /// An error with the message `message`.
    pub fn new(message: String) -> (r: SourceError)
        ensures
            r@ == message@,
    {
        SourceError { message }
    }

    /// The error's message.
    pub fn message(&self) -> (r: &str)
        ensures
            r@ == self@,
    {
        self.message.as_str()
    }
}

/// Where sessions come from: pages of the session list, and single
/// sessions.
pub trait CodexSessionSource {
    /// The page of sessions after `cursor` (the first page without one).
    fn list_sessions(&mut self, cursor: Option<&str>) -> Result<SessionPage, SourceError>;

    /// The session with the identifier `id`.
    fn read_thread(&mut self, id: &SessionId) -> Result<Session, SourceError>;
}

/// A JSON-RPC reply as the browser reads it: its numeric id (where it is
/// an unsigned integer), its `error` member (present or not, with the
/// error's `message` where that is text), and its `result` member.
pub struct RpcResponse<R> {
    pub id: Option<u64>,
    pub error: Option<Option<String>>,
    pub result: Option<R>,
}

/// The `status` member of a protocol thread.
pub struct ProtocolStatus {
    pub kind: String,
}

/// The `gitInfo` member of a protocol thread.
pub struct ProtocolGitInfo {
    pub branch: Option<String>,
}

/// The `source` member of a protocol thread: text, an object (with its
/// `custom` member, absent, or present as text or as something else, and
/// whether it has a `subAgent` member), or any other JSON value.
pub enum ProtocolSource {
    Text(String),
    Object { custom: Option<Option<String>>, has_sub_agent: bool },
    Other,
}

/// A thread record of the protocol.
pub struct ProtocolThread {
    pub id: String,
    pub name: Option<String>,
    pub preview: String,
    pub cwd: String,
    pub created_at: i64,
    pub updated_at: i64,
    pub recency_at: Option<i64>,
    pub model_provider: String,
    pub source: ProtocolSource,
    pub status: ProtocolStatus,
    pub git_info: Option<ProtocolGitInfo>,
}

/// The result of `thread/list`.
pub struct ThreadListResponse {
    pub data: Vec<ProtocolThread>,
    pub next_cursor: Option<String>,
}

/// The result of `thread/read`.
pub struct ThreadReadResponse {
    pub thread: ProtocolThread,
}

/// What a reply to the request `expected_id` yields: nothing for a reply to
/// another request, the error's message, or the result.
pub open spec fn reply_outcome<R>(response: RpcResponse<R>, expected_id: u64) -> Result<
    Option<R>,
    Seq<char>,
> {
    if response.id != Some(expected_id) {
        Ok(None)
    } else {
        match response.error {
            Some(Some(message)) => Err("app-server request failed: "@ + message@),
            Some(None) => Err("app-server returned a malformed JSON-RPC error"@),
            None => match response.result {
                Some(result) => Ok(Some(result)),
                None => Err("app-server response did not contain a result"@),
            },
        }
    }
}

/// Reads a reply to the request `expected_id`: `None` for a reply to
/// another request, the result, or an error naming what went wrong.
pub fn decode_response<R>(response: RpcResponse<R>, expected_id: u64) -> (r: Result<
    Option<R>,
    SourceError,
>)
    ensures
        match reply_outcome(response, expected_id) {
            Ok(v) => r == Ok::<Option<R>, SourceError>(v),
            Err(text) => r matches Err(e) && e@ == text,
        },
{
    if response.id != Some(expected_id) {
        return Ok(None);
    }
    match response.error {
        Some(error) => match error {
            Some(message) => {
                let mut text = String::from_str("app-server request failed: ");
                text.append(message.as_str());
                Err(SourceError::new(text))
            },
            None => Err(
                SourceError::new(String::from_str("app-server returned a malformed JSON-RPC error")),
            ),
        },
        None => match response.result {
            Some(result) => Ok(Some(result)),
            None => Err(
                SourceError::new(String::from_str("app-server response did not contain a result")),
            ),
        },
    }
}

/// A reply line as JSON parsing reads it (`serde_json::from_str` into a
/// JSON value): its numeric id (where `id` is an unsigned integer), its
/// `error` member (present or not, with the error's `message` where that is
/// text), and its `result` member written back as JSON text; or the parser's
/// error message where the line is not JSON.
pub uninterp spec fn reply_of(line: Seq<char>) -> Result<
    (Option<u64>, Option<Option<Seq<char>>>, Option<Seq<char>>),
    Seq<char>,
>;

/// The texts of an optional error member.
pub open spec fn error_texts(error: Option<Option<String>>) -> Option<Option<Seq<char>>> {
    match error {
        Some(Some(message)) => Some(Some(message@)),
        Some(None) => Some(None),
        None => None,
    }
}

/// Parses one reply line as JSON and picks its id, error and result
/// (`serde_json::from_str`, `Value::get`, `Value::as_u64`, `Value::as_str`,
/// and the result's JSON text).
#[verifier::external_body]
pub(crate) fn parse_reply(line: &str) -> (r: Result<RpcResponse<String>, String>)
    ensures
        match reply_of(line@) {
            Ok((id, error, result)) => r matches Ok(reply) && reply.id == id && error_texts(
                reply.error,
            ) == error && text_of(reply.result) == result,
            Err(message) => r matches Err(m) && m@ == message,
        },
{
    match serde_json::from_str::<serde_json::Value>(line) {
        Ok(value) => Ok(RpcResponse {
            id: value.get("id").and_then(serde_json::Value::as_u64),
            error: value.get("error").map(
                |error| error.get("message").and_then(serde_json::Value::as_str).map(str::to_owned),
            ),
            result: value.get("result").map(|result| result.to_string()),
        }),
        Err(error) => Err(error.to_string()),
    }
}

/// What a reply line to the request `expected_id` yields: nothing for a
/// reply to another request, the result's JSON text, or an error message.
pub open spec fn reply_line_outcome(line: Seq<char>, expected_id: u64) -> Result<
    Option<Seq<char>>,
    Seq<char>,
> {
    match reply_of(line) {
        Err(message) => Err("app-server returned invalid JSON: "@ + message),
        Ok((id, error, result)) => if id != Some(expected_id) {
            Ok(None)
        } else {
            match error {
                Some(Some(message)) => Err("app-server request failed: "@ + message),
                Some(None) => Err("app-server returned a malformed JSON-RPC error"@),
                None => match result {
                    Some(text) => Ok(Some(text)),
                    None => Err("app-server response did not contain a result"@),
                },
            }
        },
    }
}

/// Reads one reply line for the request `expected_id`: `None` for a reply
/// to another request, the result as JSON text, or an error naming what went
/// wrong (a line that is not JSON among them).
pub fn read_reply(line: &str, expected_id: u64) -> (r: Result<Option<String>, SourceError>)
    ensures
        match reply_line_outcome(line@, expected_id) {
            Ok(None) => r matches Ok(None),
            Ok(Some(text)) => r matches Ok(Some(result)) && result@ == text,
            Err(message) => r matches Err(e) && e@ == message,
        },
{
    match parse_reply(line) {
        Err(message) => {
            let mut text = String::from_str("app-server returned invalid JSON: ");
            text.append(message.as_str());
            Err(SourceError::new(text))
        },
        Ok(reply) => decode_response(reply, expected_id),
    }
}

/// What a request that is waiting for its reply does next.
#[derive(Clone, Copy, Debug, Eq, PartialEq, Structural)]
pub enum ReplyWait {
    /// Loading was cancelled: stop waiting.
    Cancelled,
    /// The request's deadline has passed: give up on it.
    TimedOut,
    /// Listen for a line for this many milliseconds, then decide again.
    Listen(u64),
}

/// The next step of a request `elapsed_ms` milliseconds after it was sent,
/// with a deadline of `timeout_ms` and a listening slice of at most
/// `slice_ms`: cancellation first, then the deadline, and otherwise a wait
/// that ends no later than the deadline.
pub open spec fn reply_wait_decision(
    cancelled: bool,
    elapsed_ms: u64,
    timeout_ms: u64,
    slice_ms: u64,
) -> ReplyWait {
    if cancelled {
        ReplyWait::Cancelled
    } else if elapsed_ms >= timeout_ms {
        ReplyWait::TimedOut
    } else if timeout_ms - elapsed_ms < slice_ms {
        ReplyWait::Listen((timeout_ms - elapsed_ms) as u64)
    } else {
        ReplyWait::Listen(slice_ms)
    }
}

/// Decides what a request waiting for its reply does next. A wait never
/// runs past the deadline, and once the deadline has passed the request
/// gives up unless loading was cancelled.
pub fn reply_wait(cancelled: bool, elapsed_ms: u64, timeout_ms: u64, slice_ms: u64) -> (r:
    ReplyWait)
    ensures
        r == reply_wait_decision(cancelled, elapsed_ms, timeout_ms, slice_ms),
        r matches ReplyWait::Listen(wait) ==> elapsed_ms + wait <= timeout_ms && wait <= slice_ms,
        r matches ReplyWait::Listen(wait) ==> (slice_ms > 0 ==> wait > 0),
        !cancelled && elapsed_ms >= timeout_ms ==> r == ReplyWait::TimedOut,
{
    if cancelled {
        ReplyWait::Cancelled
    } else if elapsed_ms >= timeout_ms {
        ReplyWait::TimedOut
    } else if timeout_ms - elapsed_ms < slice_ms {
        ReplyWait::Listen(timeout_ms - elapsed_ms)
    } else {
        ReplyWait::Listen(slice_ms)
    }
}

/// The text shown for a thread's source: sanitized text, an object's
/// `custom` text (empty where it is not text), "subAgent", or "unknown".
pub open spec fn source_text(source: ProtocolSource) -> Seq<char> {
    match source {
        ProtocolSource::Text(value) => sanitized(value@),
        ProtocolSource::Object { custom, has_sub_agent } => match custom {
            Some(Some(value)) => sanitized(value@),
            Some(None) => Seq::empty(),
            None => if has_sub_agent {
                "subAgent"@
            } else {
                "unknown"@
            },
        },
        ProtocolSource::Other => "unknown"@,
    }
}

/// The text shown for a thread's source.
pub fn display_source(source: &ProtocolSource) -> (r: String)
    ensures
        r@ == source_text(*source),
{
    match source {
        ProtocolSource::Text(value) => sanitize_terminal_text(value.as_str()),
        ProtocolSource::Object { custom, has_sub_agent } => match custom {
            Some(Some(value)) => sanitize_terminal_text(value.as_str()),
            Some(None) => String::new(),
            None => if *has_sub_agent {
                String::from_str("subAgent")
            } else {
                String::from_str("unknown")
            },
        },
        ProtocolSource::Other => String::from_str("unknown"),
    }
}

/// The text of an optional string.
pub open spec fn text_of(value: Option<String>) -> Option<Seq<char>> {
    match value {
        Some(t) => Some(t@),
        None => None,
    }
}

/// Optional text sanitized, and dropped where nothing is left of it.
pub open spec fn sanitized_present(value: Option<Seq<char>>) -> Option<Seq<char>> {
    match value {
        Some(t) => if sanitized(t).len() > 0 {
            Some(sanitized(t))
        } else {
            None
        },
        None => None,
    }
}

/// The provider shown for a thread: its sanitized model provider, followed
/// by "/" and its source where that is not empty.
pub open spec fn provider_text(thread: ProtocolThread) -> Seq<char> {
    if source_text(thread.source).len() == 0 {
        sanitized(thread.model_provider@)
    } else {
        sanitized(thread.model_provider@) + "/"@ + source_text(thread.source)
    }
}

/// The branch of a thread, where it has one.
pub open spec fn thread_branch(thread: ProtocolThread) -> Option<Seq<char>> {
    match thread.git_info {
        Some(info) => text_of(info.branch),
        None => None,
    }
}

/// `session` is what the thread record `thread` decodes to.
pub open spec fn decodes_to(thread: ProtocolThread, session: Session) -> bool {
    &&& session.id@ == thread.id@
    &&& text_of(session.name) == sanitized_present(text_of(thread.name))
    &&& session.preview@ == sanitized(thread.preview@)
    &&& session.cwd@ == sanitized(thread.cwd@)
    &&& session.created_at == thread.created_at
    &&& session.updated_at == thread.updated_at
    &&& session.recency_at == match thread.recency_at {
        Some(at) => at,
        None => thread.updated_at,
    }
    &&& session.provider@ == provider_text(thread)
    &&& session.status@ == sanitized(thread.status.kind@)
    &&& text_of(session.branch) == sanitized_present(thread_branch(thread))
}

/// A decoded session counts as active at the record's `recencyAt` where the
/// record has one; its update time stands in only where it has none. Every
/// other time of the record is carried over unchanged.
pub proof fn lemma_recency_from_record(thread: ProtocolThread, session: Session)
    requires
        decodes_to(thread, session),
    ensures
        thread.recency_at matches Some(at) ==> session.recency_at == at,
        thread.recency_at is None ==> session.recency_at == thread.updated_at,
        session.updated_at == thread.updated_at,
        session.created_at == thread.created_at,
{
}

/// The message for a thread record without a usable identifier.
pub open spec fn invalid_id_text() -> Seq<char> {
    "invalid thread id: session id is empty"@
}

/// Optional text sanitized, and dropped where nothing is left of it.
fn sanitize_present(value: Option<String>) -> (r: Option<String>)
    ensures
        text_of(r) == sanitized_present(text_of(value)),
{
    match value {
        Some(text) => {
            let cleaned = sanitize_terminal_text(text.as_str());
            if cleaned.as_str().is_empty() {
                None
            } else {
                Some(cleaned)
            }
        },
        None => None,
    }
}

/// The session that a thread record stands for; an error where its
/// identifier is empty or blank.
pub fn session_from_thread(thread: ProtocolThread) -> (r: Result<Session, SourceError>)
    ensures
        r is Ok <==> !all_whitespace(thread.id@),
        r matches Ok(session) ==> decodes_to(thread, session),
        r matches Err(e) ==> e@ == invalid_id_text(),
{
    let provider = sanitize_terminal_text(thread.model_provider.as_str());
    let source = display_source(&thread.source);
    let id = match SessionId::new(thread.id.as_str()) {
        Ok(id) => id,
        Err(error) => {
            let mut text = String::from_str("invalid thread id: ");
            text.append(error.message());
            assert(text@ =~= invalid_id_text()) by {
                reveal_strlit("invalid thread id: ");
                reveal_strlit("session id is empty");
                reveal_strlit("invalid thread id: session id is empty");
            }
            return Err(SourceError::new(text));
        },
    };
    let provider = if source.as_str().is_empty() {
        provider
    } else {
        let mut joined = provider;
        joined.append("/");
        joined.append(source.as_str());
        joined
    };
    let branch = match thread.git_info {
        Some(info) => info.branch,
        None => None,
    };
    Ok(
        Session {
            id,
            name: sanitize_present(thread.name),
            preview: sanitize_terminal_text(thread.preview.as_str()),
            cwd: sanitize_terminal_text(thread.cwd.as_str()),
            created_at: thread.created_at,
            updated_at: thread.updated_at,
            recency_at: match thread.recency_at {
                Some(at) => at,
                None => thread.updated_at,
            },
            provider,
            status: sanitize_terminal_text(thread.status.kind.as_str()),
            branch: sanitize_present(branch),
        },
    )
}

/// Decodes a `thread/list` result into a page in recency order; an error
/// where some record has no usable identifier.
pub fn decode_thread_list(response: ThreadListResponse) -> (r: Result<SessionPage, SourceError>)
    ensures
        r is Ok <==> forall|i: int| 0 <= i < response.data@.len() ==> !all_whitespace(
            #[trigger] response.data@[i].id@,
        ),
        r matches Ok(page) ==> text_of(page.next_cursor) == text_of(response.next_cursor) && exists|
            decoded: Seq<Session>,
        |
            decoded.len() == response.data@.len() && (forall|i: int|
                0 <= i < decoded.len() ==> decodes_to(response.data@[i], #[trigger] decoded[i]))
                && page.sessions@ == sorted_by_recency(decoded),
        r matches Err(e) ==> e@ == invalid_id_text(),
{
    let ThreadListResponse { data, next_cursor } = response;
    let ghost threads = data@;
    assert(threads == response.data@);
    let mut rest = data;
    let mut decoded: Vec<Session> = Vec::new();
    let ghost mut k: int = 0;
    assert(threads.skip(0) =~= threads);
    while rest.len() > 0
        invariant
            0 <= k <= threads.len(),
            threads == response.data@,
            rest@ == threads.skip(k),
            decoded@.len() == k,
            forall|i: int| 0 <= i < k ==> decodes_to(threads[i], #[trigger] decoded@[i]),
            forall|i: int| 0 <= i < k ==> !all_whitespace(#[trigger] threads[i].id@),
        decreases rest@.len(),
    {
        let thread = rest.remove(0);
        assert(thread == threads[k]);
        match session_from_thread(thread) {
            Ok(session) => {
                decoded.push(session);
            },
            Err(error) => {
                assert(all_whitespace(threads[k].id@));
                assert(threads == response.data@);
                assert(all_whitespace(response.data@[k].id@));
                return Err(error);
            },
        }
        proof {
            assert(rest@ =~= threads.skip(k + 1));
            k = k + 1;
        }
    }
    let ghost decoded_all = decoded@;
    let sessions = sort_sessions(decoded);
    Ok(SessionPage { sessions, next_cursor })
}

} // verus!
