//! The client side of the server protocol: one JSON object to a line.
//!
//! What is here builds the lines that are sent and judges those that come
//! back; the connection itself is the caller's.

use vstd::prelude::*;

use crate::json;
use crate::json::JsonModel;
use crate::text;

verus! {

/// A request line: `params` is a JSON document.
pub open spec fn request_of(id: nat, method: Seq<char>, params: Seq<char>) -> Seq<char> {
    "{\"jsonrpc\":\"2.0\",\"id\":"@ + text::digits_of(id) + ",\"method\":"@ + json::json_quoted(
        method,
    ) + ",\"params\":"@ + params + "}\n"@
}

/// A request line.
pub fn request_line(id: u64, method: &str, params: &str) -> (out: String)
    ensures
        out@ == request_of(id as nat, method@, params@),
{
    let number = text::number_text(id);
    let quoted = json::quote_json(method);
    let head = text::cat4(
        "{\"jsonrpc\":\"2.0\",\"id\":",
        number.as_str(),
        ",\"method\":",
        quoted.as_str(),
    );
    text::cat4(head.as_str(), ",\"params\":", params, "}\n")
}

/// The parameters that name a session.
pub open spec fn session_params(session: Seq<char>) -> Seq<char> {
    "{\"sessionId\":"@ + json::json_quoted(session) + "}"@
}

/// The parameters that hand a command to a session.
pub open spec fn command_params(session: Seq<char>, command: Seq<char>) -> Seq<char> {
    "{\"sessionId\":"@ + json::json_quoted(session) + ",\"command\":"@ + command + "}"@
}

/// The parameters that prove who the client is.
pub open spec fn token_params(token: Seq<char>) -> Seq<char> {
    "{\"token\":"@ + json::json_quoted(token) + "}"@
}

/// What a line says to a client that waits for a response.
pub enum Reply {
    /// Nothing: the client goes on waiting.
    Ignored,
    /// The request failed.
    Failed(String),
    /// The request succeeded; the result is a JSON document.
    Done(String),
}

/// The model of `Reply`.
pub enum ReplyModel {
    Ignored,
    Failed(Seq<char>),
    Done(Seq<char>),
}

impl View for Reply {
    type V = ReplyModel;

    open spec fn view(&self) -> ReplyModel {
        match self {
            Reply::Ignored => ReplyModel::Ignored,
            Reply::Failed(message) => ReplyModel::Failed(message@),
            Reply::Done(result) => ReplyModel::Done(result@),
        }
    }
}

/// The number that the document `s` is.
pub open spec fn number_in(s: Seq<char>) -> Option<u64> {
    match json::json_read(s) {
        Ok(JsonModel::Number(Some(n))) => Some(n),
        _ => None,
    }
}

fn read_number(s: &str) -> (r: Option<u64>)
    ensures
        r == number_in(s@),
{
    match json::node_of(s) {
        Ok(json::JsonNode::Number(Some(n))) => Some(n),
        _ => None,
    }
}

/// What is said of an error: its message, else the error itself.
pub open spec fn error_message(error: Seq<char>) -> Seq<char> {
    match json::string_at(error, "message"@) {
        Some(message) => message,
        None => error,
    }
}

/// What a response says: its error where it has one, else its result.
pub open spec fn outcome_of(error: Option<Seq<char>>, result: Option<Seq<char>>) -> ReplyModel {
    match error {
        Some(e) => ReplyModel::Failed(error_message(e)),
        None => match result {
            Some(r) => ReplyModel::Done(r),
            None => ReplyModel::Done("null"@),
        },
    }
}

/// What a response says, given its error and its result.
pub fn judge_outcome(error: Option<String>, result: Option<String>) -> (r: Reply)
    ensures
        r@ == outcome_of(text::opt_text(error), text::opt_text(result)),
{
    match error {
        Some(e) => match json::get_string(e.as_str(), "message") {
            Some(message) => Reply::Failed(message),
            None => Reply::Failed(e),
        },
        None => match result {
            Some(r) => Reply::Done(r),
            None => Reply::Done("null".to_owned()),
        },
    }
}

/// What a line says to a client that waits for the response to `id`: blank
/// lines, lines that are no JSON, notifications and the responses to other
/// requests say nothing.
pub open spec fn reply_of(line: Seq<char>, id: u64) -> ReplyModel {
    let s = text::trim_of(line);
    if s.len() == 0 || json::get_of(s, "method"@) is Some {
        ReplyModel::Ignored
    } else {
        match json::get_of(s, "id"@) {
            Some(found) => if number_in(found) == Some(id) {
                outcome_of(json::get_of(s, "error"@), json::get_of(s, "result"@))
            } else {
                ReplyModel::Ignored
            },
            None => ReplyModel::Ignored,
        }
    }
}

/// What a line says to a client that waits for the response to `id`.
pub fn read_reply(line: &str, id: u64) -> (r: Reply)
    ensures
        r@ == reply_of(line@, id),
{
    let s = text::trim(line);
    if s.unicode_len() == 0 || json::get(s, "method").is_some() {
        return Reply::Ignored;
    }
    match json::get(s, "id") {
        Some(found) => {
            let number = read_number(found.as_str());
            let same = match number {
                Some(n) => n == id,
                None => false,
            };
            if same {
                judge_outcome(json::get(s, "error"), json::get(s, "result"))
            } else {
                Reply::Ignored
            }
        },
        None => Reply::Ignored,
    }
}

/// What a line is to the stream of a subscription.
pub enum Pumped {
    /// Not an event of the subscription.
    Skipped,
    /// An event, a JSON document.
    Event(String),
}

/// The model of `Pumped`.
pub enum PumpedModel {
    Skipped,
    Event(Seq<char>),
}

impl View for Pumped {
    type V = PumpedModel;

    open spec fn view(&self) -> PumpedModel {
        match self {
            Pumped::Skipped => PumpedModel::Skipped,
            Pumped::Event(event) => PumpedModel::Event(event@),
        }
    }
}

/// The number behind the member `key` of the document `s`.
pub open spec fn number_at(s: Seq<char>, key: Seq<char>) -> Option<u64> {
    match json::get_of(s, key) {
        Some(value) => number_in(value),
        None => None,
    }
}

/// What a line is to the stream of `subscription`.
pub open spec fn pumped(line: Seq<char>, subscription: u64) -> PumpedModel {
    let s = text::trim_of(line);
    if s.len() == 0 || json::string_at(s, "method"@) != Some("event"@) {
        PumpedModel::Skipped
    } else {
        match json::get_of(s, "params"@) {
            None => PumpedModel::Skipped,
            Some(params) => if number_at(params, "subscriptionId"@) != Some(subscription) {
                PumpedModel::Skipped
            } else {
                PumpedModel::Event(
                    match json::get_of(params, "event"@) {
                        Some(event) => event,
                        None => "null"@,
                    },
                )
            },
        }
    }
}

/// What a line is to the stream of `subscription`.
pub fn pump_line(line: &str, subscription: u64) -> (r: Pumped)
    ensures
        r@ == pumped(line@, subscription),
{
    let s = text::trim(line);
    if s.unicode_len() == 0 {
        return Pumped::Skipped;
    }
    let is_event = match json::get_string(s, "method") {
        Some(method) => text::same(method.as_str(), "event"),
        None => false,
    };
    if !is_event {
        return Pumped::Skipped;
    }
    match json::get(s, "params") {
        None => Pumped::Skipped,
        Some(params) => {
            let number = match json::get(params.as_str(), "subscriptionId") {
                Some(value) => read_number(value.as_str()),
                None => None,
            };
            let same = match number {
                Some(n) => n == subscription,
                None => false,
            };
            if !same {
                return Pumped::Skipped;
            }
            let event = match json::get(params.as_str(), "event") {
                Some(event) => event,
                None => "null".to_owned(),
            };
            Pumped::Event(event)
        },
    }
}

/// What the stream of `subscription` hands on of the first `n` lines that
/// come in, until the connection closes.
pub open spec fn streamed(lines: Seq<Seq<char>>, subscription: u64, n: int) -> Seq<Seq<char>>
    decreases n,
{
    if n <= 0 {
        seq![]
    } else {
        match pumped(lines[n - 1], subscription) {
            PumpedModel::Event(event) => streamed(lines, subscription, n - 1).push(event),
            PumpedModel::Skipped => streamed(lines, subscription, n - 1),
        }
    }
}

/// The state of a client: the number of its next request, and whether its
/// lines go to the stream of a subscription.
pub struct RemoteClient {
    pub next_id: u64,
    pub streaming: bool,
}

/// A request that a client sends.
pub struct Request {
    pub id: u64,
    pub line: String,
}

impl RemoteClient {
    /// A client that has just connected.
    pub fn connect() -> (client: RemoteClient)
        ensures
            client.next_id == 1,
            !client.streaming,
    {
        RemoteClient { next_id: 1, streaming: false }
    }

    fn take_id(&mut self) -> (id: u64)
        requires
            old(self).next_id < u64::MAX,
        ensures
            id == old(self).next_id,
            final(self).next_id == old(self).next_id + 1,
            final(self).streaming == old(self).streaming,
    {
        let id = self.next_id;
        self.next_id = id + 1;
        id
    }

    /// Starts a request whose response is waited for.
    pub fn call(&mut self, method: &str, params: &str) -> (r: Request)
        requires
            old(self).next_id < u64::MAX,
        ensures
            r.id == old(self).next_id,
            r.line@ == request_of(old(self).next_id as nat, method@, params@),
            final(self).next_id == old(self).next_id + 1,
            final(self).streaming == old(self).streaming,
    {
        let id = self.take_id();
        Request { id, line: request_line(id, method, params) }
    }

    /// Whether the response to a request can be waited for.
    pub fn can_wait(&self) -> (r: Result<(), String>)
        ensures
            r is Ok <==> !self.streaming,
            r matches Err(m) ==> m@ == "client already switched to streaming mode"@,
    {
        if self.streaming {
            Err("client already switched to streaming mode".to_owned())
        } else {
            Ok(())
        }
    }

    /// Starts to prove who the client is. Without a token there is nothing to
    /// send.
    pub fn authenticate(&mut self, token: &str) -> (r: Option<Request>)
        requires
            old(self).next_id < u64::MAX,
        ensures
            r is None <==> token@.len() == 0,
            r is None ==> *final(self) == *old(self),
            r matches Some(request) ==> {
                &&& request.id == old(self).next_id
                &&& request.line@ == request_of(
                    old(self).next_id as nat,
                    "authenticate"@,
                    token_params(token@),
                )
                &&& final(self).next_id == old(self).next_id + 1
                &&& final(self).streaming == old(self).streaming
            },
    {
        if token.unicode_len() == 0 {
            return None;
        }
        let quoted = json::quote_json(token);
        let params = text::cat3("{\"token\":", quoted.as_str(), "}");
        Some(self.call("authenticate", params.as_str()))
    }

    /// Hands the lines over to the stream of a subscription: whether there
    /// were any left to hand over.
    pub fn start_event_pump(&mut self) -> (r: bool)
        ensures
            r == !old(self).streaming,
            final(self).streaming,
            final(self).next_id == old(self).next_id,
    {
        let started = !self.streaming;
        self.streaming = true;
        started
    }

    /// The line that hands a command, a JSON document, to a session.
    pub fn send_command(&mut self, session_id: &str, command: &str) -> (line: String)
        requires
            old(self).next_id < u64::MAX,
        ensures
            line@ == request_of(
                old(self).next_id as nat,
                "send"@,
                command_params(session_id@, command@),
            ),
            final(self).next_id == old(self).next_id + 1,
            final(self).streaming == old(self).streaming,
    {
        let quoted = json::quote_json(session_id);
        let params = text::cat5(
            "{\"sessionId\":",
            quoted.as_str(),
            ",\"command\":",
            command,
            "}",
        );
        let request = self.call("send", params.as_str());
        request.line
    }

    /// The line that ends a session.
    pub fn stop_session(&mut self, session_id: &str) -> (line: String)
        requires
            old(self).next_id < u64::MAX,
        ensures
            line@ == request_of(
                old(self).next_id as nat,
                "stop_session"@,
                session_params(session_id@),
            ),
            final(self).next_id == old(self).next_id + 1,
            final(self).streaming == old(self).streaming,
    {
        let quoted = json::quote_json(session_id);
        let params = text::cat3("{\"sessionId\":", quoted.as_str(), "}");
        let request = self.call("stop_session", params.as_str());
        request.line
    }
}

/// One response answers one request: a line that is a reply to `a` is ignored
/// by whoever waits for another.
pub proof fn lemma_reply_is_for_one(line: Seq<char>, a: u64, b: u64)
    requires
        a != b,
        reply_of(line, a) != ReplyModel::Ignored,
    ensures
        reply_of(line, b) == ReplyModel::Ignored,
{
}

/// An event goes to one subscription.
pub proof fn lemma_event_is_for_one(line: Seq<char>, a: u64, b: u64)
    requires
        a != b,
        pumped(line, a) is Event,
    ensures
        pumped(line, b) is Skipped,
{
}

/// Every event of a subscription is handed on, whatever events came before it:
/// it stands in the stream right behind what was handed on until then, and
/// what comes later does not take it back.
pub proof fn lemma_every_event_is_streamed(
    lines: Seq<Seq<char>>,
    subscription: u64,
    i: int,
    n: int,
)
    requires
        0 <= i < n <= lines.len(),
        pumped(lines[i], subscription) is Event,
    ensures
        streamed(lines, subscription, i).len() < streamed(lines, subscription, n).len(),
        PumpedModel::Event(
            streamed(lines, subscription, n)[streamed(lines, subscription, i).len() as int],
        ) == pumped(lines[i], subscription),
    decreases n,
{
    if n > i + 1 {
        lemma_every_event_is_streamed(lines, subscription, i, n - 1);
    }
}

/// No line is both an event and a response.
pub proof fn lemma_events_are_no_replies(line: Seq<char>, id: u64, subscription: u64)
    requires
        pumped(line, subscription) is Event,
    ensures
        reply_of(line, id) == ReplyModel::Ignored,
{
}

} // verus!
