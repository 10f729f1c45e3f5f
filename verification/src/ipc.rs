//! The request protocol: one message a line, requests with an id that their response
//! carries, and events without one.
//!
//! What is on a line is JSON, which the surroundings write and read. This module says
//! what a line is, what becomes of a request, and what it is answered.
use crate::network::{Command, NetCardEvent, NetError};
use crate::text::{
    chars_of, is_white_space, lemma_first_index_unique, lines_of, string_of, strip_cr, trim,
    trimmed,
};
use crate::{Ipv4Info, Ipv6Info, NetCardInfo};
use vstd::prelude::*;
use vstd::string::*;

verus! {

/// The socket that the service listens on.
pub const DEFAULT_SOCKET_PATH: &'static str = "/tmp/netman.sock";

/// The code of the error for a line that is no request.
pub const PARSE_ERROR: i32 = -32700;

/// The code of the error for a request that failed.
pub const REQUEST_FAILED: i32 = -32000;

// ---------------------------------------------------------------------------
// Messages
// ---------------------------------------------------------------------------

/// A request of a client.
#[allow(inconsistent_fields)]
#[derive(Debug, PartialEq, Eq)]
pub enum Request {
    GetNetCard { iface_name: String },
    GetAllNetCards,
    SetLinkState { iface_name: String, up: bool },
    SetIpv4 { iface_name: String, info: Ipv4Info },
    SetIpv6 { iface_name: String, info: Ipv6Info },
    /// Have all events sent from now on.
    Subscribe,
}

/// A request with the id that its response is to carry.
#[derive(Debug, PartialEq, Eq)]
pub struct Envelope {
    pub id: u64,
    pub request: Request,
}

/// Why a request failed.
#[derive(Debug, PartialEq, Eq)]
pub struct RpcError {
    pub code: i32,
    pub message: String,
}

impl RpcError {
    pub fn new(code: i32, message: String) -> (r: Self)
        ensures
            r == (RpcError { code, message }),
    {
        Self { code, message }
    }
}

impl Clone for RpcError {
    fn clone(&self) -> (r: Self)
        ensures
            r == *self,
    {
        RpcError { code: self.code, message: self.message.clone() }
    }
}

/// What a request that succeeded is answered.
#[derive(Debug, PartialEq, Eq)]
pub enum RpcValue {
    Null,
    Text(String),
    Card(NetCardInfo),
    Cards(Vec<NetCardInfo>),
}

/// The response to a request.
#[derive(Debug, PartialEq, Eq)]
pub struct Response {
    pub id: u64,
    pub result: Option<RpcValue>,
    pub error: Option<RpcError>,
}

impl Response {
    /// The response to a request that succeeded.
    pub fn ok(id: u64, result: RpcValue) -> (r: Self)
        ensures
            r == (Response { id, result: Some(result), error: None }),
    {
        Self { id, result: Some(result), error: None }
    }

    /// The response to a request that failed.
    pub fn err(id: u64, code: i32, message: String) -> (r: Self)
        ensures
            r == (Response { id, result: None, error: Some(RpcError { code, message }) }),
    {
        Self { id, result: None, error: Some(RpcError::new(code, message)) }
    }
}

/// Whether a response is the failure with that id, code and message.
pub open spec fn is_failure(r: Response, id: u64, code: i32, message: Seq<char>) -> bool {
    &&& r.id == id
    &&& r.result is None
    &&& r.error matches Some(e) && e.code == code && e.message@ == message
}

/// Whether a response is the success with that id and value.
pub open spec fn is_success(r: Response, id: u64, value: RpcValue) -> bool {
    r == (Response { id, result: Some(value), error: None })
}

// ---------------------------------------------------------------------------
// Lines
// ---------------------------------------------------------------------------

/// A message as it goes out: with a line feed behind it.
pub fn outgoing(message: &str) -> (r: String)
    ensures
        r@ == message@.push('\n'),
{
    let mut out = message.to_string();
    out.push('\n');
    out
}

/// The message on a line that has come in: what is left without the white space at the
/// two ends, if anything is.
pub fn incoming(line: &str) -> (r: Option<String>)
    ensures
        match r {
            Some(message) => message@ == trimmed(line@) && message@.len() > 0,
            None => trimmed(line@).len() == 0,
        },
{
    let t = trim(&chars_of(line));
    if t.len() == 0 {
        None
    } else {
        Some(string_of(&t))
    }
}

/// A message without line feeds that has no white space at its ends comes in as it went
/// out, on a line of its own.
pub proof fn law_message_read_back(message: Seq<char>)
    requires
        message.len() > 0,
        !message.contains('\n'),
        !is_white_space(message[0]),
        !is_white_space(message.last()),
    ensures
        lines_of(message.push('\n')) == seq![message],
        trimmed(message) == message,
        trimmed(message.push('\n')) == message,
{
    let s = message.push('\n');
    assert forall|k: int| 0 <= k < message.len() implies s[k] != '\n' by {
        assert(s[k] == message[k]);
    }
    lemma_first_index_unique(s, '\n', message.len() as int);
    assert(s.take(message.len() as int) =~= message);
    assert(s.skip(message.len() as int + 1) =~= Seq::empty());
    assert(lines_of(Seq::empty()) =~= Seq::empty());
    assert(is_white_space('\r'));
    assert(strip_cr(message) == message);
    assert(seq![message] + Seq::<Seq<char>>::empty() =~= seq![message]);
    assert(s.drop_last() =~= message);
    assert(s[0] == message[0]);
}

// ---------------------------------------------------------------------------
// The service's side
// ---------------------------------------------------------------------------

/// The command that a request stands for; `Subscribe` stands for none.
pub open spec fn command_of(request: Request) -> Option<Command> {
    match request {
        Request::GetNetCard { iface_name } => Some(Command::GetNetCard { iface_name }),
        Request::GetAllNetCards => Some(Command::GetAllNetCards),
        Request::SetLinkState { iface_name, up } => Some(Command::SetLinkState { iface_name, up }),
        Request::SetIpv4 { iface_name, info } => Some(Command::SetIpv4 { iface_name, info }),
        Request::SetIpv6 { iface_name, info } => Some(Command::SetIpv6 { iface_name, info }),
        Request::Subscribe => None,
    }
}

/// Every request but `Subscribe` is a command of the same kind, with the same interface,
/// the same switch and the same configuration; so two requests that stand for one
/// command are one request, and no command is out of reach.
pub proof fn law_request_kept(a: Request, b: Request, command: Command)
    ensures
        command_of(a) is None <==> a is Subscribe,
        command_of(a) is Some && command_of(a) == command_of(b) ==> a == b,
        a matches Request::GetNetCard { iface_name: asked_name } ==> (command_of(a) matches Some(
            Command::GetNetCard { iface_name },
        ) && iface_name == asked_name),
        a matches Request::GetAllNetCards ==> command_of(a) == Some(Command::GetAllNetCards),
        a matches Request::SetLinkState { iface_name: asked_name, up: asked_up } ==> (command_of(
            a,
        ) matches Some(Command::SetLinkState { iface_name, up }) && iface_name == asked_name && up
            == asked_up),
        a matches Request::SetIpv4 { iface_name: asked_name, info: asked_info } ==> (command_of(
            a,
        ) matches Some(Command::SetIpv4 { iface_name, info }) && iface_name == asked_name && info
            == asked_info),
        a matches Request::SetIpv6 { iface_name: asked_name, info: asked_info } ==> (command_of(
            a,
        ) matches Some(Command::SetIpv6 { iface_name, info }) && iface_name == asked_name && info
            == asked_info),
        exists|request: Request| #[trigger] command_of(request) == Some(command),
{
    let request = match command {
        Command::GetNetCard { iface_name } => Request::GetNetCard { iface_name },
        Command::GetAllNetCards => Request::GetAllNetCards,
        Command::SetLinkState { iface_name, up } => Request::SetLinkState { iface_name, up },
        Command::SetIpv4 { iface_name, info } => Request::SetIpv4 { iface_name, info },
        Command::SetIpv6 { iface_name, info } => Request::SetIpv6 { iface_name, info },
    };
    assert(command_of(request) == Some(command));
}

/// What becomes of a message that has come in.
pub enum SessionStep {
    /// It is answered at once.
    Reply(Response),
    /// It is answered, and then events are sent.
    Subscribe(Response),
    /// The command goes to the manager, and what comes back to `respond` with the id.
    Dispatch(u64, Command),
}

/// What becomes of a message: `parsed` is the request that it holds, or why it holds
/// none.
pub fn take_in(parsed: Result<Envelope, String>) -> (r: SessionStep)
    ensures
        match parsed {
            Err(text) => r matches SessionStep::Reply(resp) && is_failure(
                resp,
                0,
                PARSE_ERROR,
                "parse error: "@ + text@,
            ),
            Ok(env) => match command_of(env.request) {
                Some(cmd) => r == SessionStep::Dispatch(env.id, cmd),
                None => r matches SessionStep::Subscribe(ack) && ack.id == env.id
                    && ack.error is None && (ack.result matches Some(RpcValue::Text(t)) && t@
                    == "subscribed"@),
            },
        },
        parsed matches Ok(env) ==> match env.request {
            Request::GetNetCard { iface_name: asked_name } => r matches SessionStep::Dispatch(
                id,
                Command::GetNetCard { iface_name },
            ) && id == env.id && iface_name == asked_name,
            Request::GetAllNetCards => r matches SessionStep::Dispatch(
                id,
                Command::GetAllNetCards,
            ) && id == env.id,
            Request::SetLinkState { iface_name: asked_name, up: asked_up } => r matches SessionStep::Dispatch(
                id,
                Command::SetLinkState { iface_name, up },
            ) && id == env.id && iface_name == asked_name && up == asked_up,
            Request::SetIpv4 { iface_name: asked_name, info: asked_info } => r matches SessionStep::Dispatch(
                id,
                Command::SetIpv4 { iface_name, info },
            ) && id == env.id && iface_name == asked_name && info == asked_info,
            Request::SetIpv6 { iface_name: asked_name, info: asked_info } => r matches SessionStep::Dispatch(
                id,
                Command::SetIpv6 { iface_name, info },
            ) && id == env.id && iface_name == asked_name && info == asked_info,
            Request::Subscribe => r matches SessionStep::Subscribe(_),
        },
        parsed matches Err(text) ==> (r matches SessionStep::Reply(resp) && resp.id == 0
            && resp.result is None && (resp.error matches Some(e) && e.code == -32700 && e.message@
            == "parse error: "@ + text@)),
{
    match parsed {
        Err(text) => {
            let mut message = "parse error: ".to_string();
            message.append(text.as_str());
            SessionStep::Reply(Response::err(0, PARSE_ERROR, message))
        },
        Ok(env) => match env.request {
            Request::GetNetCard { iface_name } => SessionStep::Dispatch(
                env.id,
                Command::GetNetCard { iface_name },
            ),
            Request::GetAllNetCards => SessionStep::Dispatch(env.id, Command::GetAllNetCards),
            Request::SetLinkState { iface_name, up } => SessionStep::Dispatch(
                env.id,
                Command::SetLinkState { iface_name, up },
            ),
            Request::SetIpv4 { iface_name, info } => SessionStep::Dispatch(
                env.id,
                Command::SetIpv4 { iface_name, info },
            ),
            Request::SetIpv6 { iface_name, info } => SessionStep::Dispatch(
                env.id,
                Command::SetIpv6 { iface_name, info },
            ),
            Request::Subscribe => SessionStep::Subscribe(
                Response::ok(env.id, RpcValue::Text("subscribed".to_string())),
            ),
        },
    }
}

/// What came of a command.
pub enum Reply {
    Card(Result<NetCardInfo, NetError>),
    Cards(Result<Vec<NetCardInfo>, NetError>),
    Done(Result<(), NetError>),
}

/// The value that a command is answered, or the message of its error.
pub open spec fn reply_value(reply: Reply) -> Result<RpcValue, Seq<char>> {
    match reply {
        Reply::Card(Ok(card)) => Ok(RpcValue::Card(card)),
        Reply::Cards(Ok(cards)) => Ok(RpcValue::Cards(cards)),
        Reply::Done(Ok(())) => Ok(RpcValue::Null),
        Reply::Card(Err(e)) => Err(e@),
        Reply::Cards(Err(e)) => Err(e@),
        Reply::Done(Err(e)) => Err(e@),
    }
}

/// A command that succeeds is answered with what came of it, and one that fails with
/// the message of its error.
pub proof fn law_reply_kept(card: NetCardInfo, cards: Vec<NetCardInfo>, error: NetError)
    ensures
        reply_value(Reply::Card(Ok(card))) == Ok::<RpcValue, Seq<char>>(RpcValue::Card(card)),
        reply_value(Reply::Cards(Ok(cards))) == Ok::<RpcValue, Seq<char>>(RpcValue::Cards(cards)),
        reply_value(Reply::Done(Ok(()))) == Ok::<RpcValue, Seq<char>>(RpcValue::Null),
        reply_value(Reply::Card(Err(error))) == Err::<RpcValue, Seq<char>>(error@),
        reply_value(Reply::Cards(Err(error))) == Err::<RpcValue, Seq<char>>(error@),
        reply_value(Reply::Done(Err(error))) == Err::<RpcValue, Seq<char>>(error@),
{
}

/// The response to the request with that id, once its command has been dealt with.
pub fn respond(id: u64, reply: Reply) -> (r: Response)
    ensures
        match reply_value(reply) {
            Ok(value) => is_success(r, id, value),
            Err(message) => is_failure(r, id, REQUEST_FAILED, message),
        },
        r.id == id,
        r.result is Some <==> r.error is None,
        r.error matches Some(e) ==> e.code == -32000,
        match reply {
            Reply::Card(Ok(card)) => r.result == Some(RpcValue::Card(card)),
            Reply::Cards(Ok(cards)) => r.result == Some(RpcValue::Cards(cards)),
            Reply::Done(Ok(())) => r.result == Some(RpcValue::Null),
            Reply::Card(Err(error)) => r.error matches Some(e) && e.message@ == error@,
            Reply::Cards(Err(error)) => r.error matches Some(e) && e.message@ == error@,
            Reply::Done(Err(error)) => r.error matches Some(e) && e.message@ == error@,
        },
{
    match reply {
        Reply::Card(Ok(card)) => Response::ok(id, RpcValue::Card(card)),
        Reply::Cards(Ok(cards)) => Response::ok(id, RpcValue::Cards(cards)),
        Reply::Done(Ok(())) => Response::ok(id, RpcValue::Null),
        Reply::Card(Err(e)) => Response::err(id, REQUEST_FAILED, e.message()),
        Reply::Cards(Err(e)) => Response::err(id, REQUEST_FAILED, e.message()),
        Reply::Done(Err(e)) => Response::err(id, REQUEST_FAILED, e.message()),
    }
}

/// What a subscriber gets from the stream of events.
pub enum Received {
    Event(NetCardEvent),
    /// It was too slow: so many events are lost to it.
    Lagged(u64),
    /// There will be no more events.
    Closed,
}

/// What is done then for a subscriber.
pub enum SubscriberStep {
    Send(NetCardEvent),
    /// Go on with the next event.
    Skip(u64),
    Stop,
}

/// What is done for a subscriber: every event that it gets is sent, lost ones are passed
/// over, and it ends with the stream.
pub fn forward(received: Received) -> (r: SubscriberStep)
    ensures
        r == (match received {
            Received::Event(ev) => SubscriberStep::Send(ev),
            Received::Lagged(n) => SubscriberStep::Skip(n),
            Received::Closed => SubscriberStep::Stop,
        }),
{
    match received {
        Received::Event(ev) => SubscriberStep::Send(ev),
        Received::Lagged(n) => SubscriberStep::Skip(n),
        Received::Closed => SubscriberStep::Stop,
    }
}

// ---------------------------------------------------------------------------
// The client's side
// ---------------------------------------------------------------------------

/// The message of the response that a client reads: `read` is how many bytes came,
/// `line` what they hold. An error where none came.
pub fn response_line(read: usize, line: &str) -> (r: Result<String, String>)
    ensures
        match r {
            Ok(message) => read > 0 && message@ == trimmed(line@),
            Err(text) => read == 0 && text@ == "no response"@,
        },
{
    if read == 0 {
        return Err("no response".to_string());
    }
    Ok(string_of(&trim(&chars_of(line))))
}

}
