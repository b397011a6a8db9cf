//! What happens with the messages on the WebSockets: the control socket answers
//! requests, the media socket takes input and answers pings.

use vstd::prelude::*;

use crate::api::{ErrorCode, Request, Response};
use crate::media::{MediaHubError, MediaInput};
use crate::text::{join2, join3, push_decimal};

verus! {

broadcast use vstd::string::group_string_axioms;

/// The largest message on the control socket, in bytes.
pub const MAX_CONTROL_MESSAGE_SIZE: usize = 1_048_576;

/// How many input messages a client may send in a second.
pub const MAX_INPUT_MESSAGES_PER_SECOND: u32 = 240;

/// The unsigned number under a key of a JSON object, as `serde_json` reads it;
/// nothing where the text is not JSON, is no object or has no such number there.
pub uninterp spec fn json_unsigned(text: Seq<char>, key: Seq<char>) -> Option<u64>;

/// `serde_json::from_str` to a `Value`, then `Value::get` and `Value::as_u64`. What
/// comes out depends on the text and the key alone.
#[verifier::external_body]
fn read_unsigned(text: &str, key: &str) -> (r: Option<u64>)
    ensures
        r == json_unsigned(text@, key@),
{
    let value = serde_json::from_str::<serde_json::Value>(text).ok()?;
    value.get(key)?.as_u64()
}

/// The id in a request.
pub open spec fn json_request_id(text: Seq<char>) -> Option<u64> {
    json_unsigned(text, "request_id"@)
}

/// The id that an answer to a request bears: the one that was found in it, or
/// zero.
pub fn request_id_or_zero(found: Option<u64>) -> (r: u64)
    ensures
        r == (match found {
            Some(id) => id,
            None => 0,
        }),
{
    match found {
        Some(id) => id,
        None => 0,
    }
}

/// The id of a request that could not be understood, as far as it can be told.
pub fn extract_request_id(text: &str) -> (r: u64)
    ensures
        r == (match json_request_id(text@) {
            Some(id) => id,
            None => 0,
        }),
{
    request_id_or_zero(read_unsigned(text, "request_id"))
}

/// What came in on the control socket.
#[derive(Debug)]
pub enum ControlMessage {
    Text(String),
    Binary,
    PingOrPong,
    Close,
    /// Receiving failed.
    Broken,
}

/// What is to be done about it.
#[derive(Debug)]
pub enum ControlAction {
    /// Carry the request out and answer it.
    Dispatch(Request),
    Reply(Response),
    Nothing,
    Stop,
}

/// A request that was read, or could not be.
pub open spec fn control_text<P: FnOnce(&str) -> Result<Request, String>>(
    parse: P,
    text: Seq<char>,
    r: ControlAction,
) -> bool {
    exists|asked: &str, parsed: Result<Request, String>|
        {
            &&& asked@ == text
            &&& #[trigger] call_ensures(parse, (asked,), parsed)
            &&& match parsed {
                Ok(request) => r == ControlAction::Dispatch(request),
                Err(reason) => r matches ControlAction::Reply(response) && unreadable(
                    response,
                    text,
                    reason@,
                ),
            }
        }
}

/// The answer to a request that could not be read.
pub open spec fn unreadable(response: Response, text: Seq<char>, reason: Seq<char>) -> bool {
    &&& response.request_id == (match json_request_id(text) {
        Some(id) => id,
        None => 0,
    })
    &&& response.outcome is Err
    &&& crate::api::failed_with(
        response.outcome->Err_0,
        ErrorCode::InvalidRequest,
        "invalid request: "@ + reason,
    )
}

/// What is to be done about a message on the control socket.
pub open spec fn control_step<P: FnOnce(&str) -> Result<Request, String>>(
    parse: P,
    message: ControlMessage,
    r: ControlAction,
) -> bool {
    match message {
        ControlMessage::Text(text) => control_text(parse, text@, r),
        ControlMessage::Binary => {
            &&& r matches ControlAction::Reply(response)
            &&& response.request_id == 0
            &&& response.outcome is Err
            &&& crate::api::failed_with(
                response.outcome->Err_0,
                ErrorCode::InvalidRequest,
                "binary control frames are reserved for a future API version"@,
            )
        },
        ControlMessage::PingOrPong => r is Nothing,
        ControlMessage::Close => r is Stop,
        ControlMessage::Broken => r is Stop,
    }
}

/// Says what is to be done about a message on the control socket.
pub fn on_control_message<P: FnOnce(&str) -> Result<Request, String>>(
    message: ControlMessage,
    parse: P,
) -> (r: ControlAction)
    requires
        forall|text: &str| call_requires(parse, (text,)),
    ensures
        control_step(parse, message, r),
{
    match message {
        ControlMessage::Text(text) => {
            let asked = text.as_str();
            let parsed = parse(asked);
            assert(call_ensures(parse, (asked,), parsed));
            match parsed {
                Ok(request) => ControlAction::Dispatch(request),
                Err(reason) => ControlAction::Reply(
                    Response::error(
                        extract_request_id(asked),
                        ErrorCode::InvalidRequest,
                        join2("invalid request: ", reason.as_str()),
                    ),
                ),
            }
        },
        ControlMessage::Binary => ControlAction::Reply(
            Response::error(
                0,
                ErrorCode::InvalidRequest,
                "binary control frames are reserved for a future API version".to_owned(),
            ),
        ),
        ControlMessage::PingOrPong => ControlAction::Nothing,
        ControlMessage::Close => ControlAction::Stop,
        ControlMessage::Broken => ControlAction::Stop,
    }
}

/// What came in on the media socket.
#[derive(Clone, Copy, Debug, PartialEq, Eq, Structural)]
pub enum MediaMessage {
    /// A text of so many bytes.
    Text { len: usize },
    Binary,
    PingOrPong,
    Close,
    /// Receiving failed, or there is nothing more.
    Broken,
}

/// What a text on the media socket says.
#[derive(Debug)]
pub enum ClientInput {
    /// Answered at once: a ping that waited for the session would measure the
    /// session, not the link.
    Ping { nonce: u64 },
    Input(MediaInput),
}

/// What is to be done about it.
#[derive(Debug)]
pub enum MediaAction {
    /// Tell the client what is wrong.
    Reply { code: &'static str, message: String },
    Pong { nonce: u64 },
    Submit(MediaInput),
    Nothing,
    Stop,
}

/// The client is told this.
pub open spec fn replies(action: MediaAction, code: Seq<char>, message: Seq<char>) -> bool {
    &&& action matches MediaAction::Reply { code: c, message: m }
    &&& c@ == code
    &&& m@ == message
}

/// The messages of a client in the current second.
#[verifier::ext_equal]
pub struct Window {
    pub start_ms: u64,
    pub count: u32,
}

/// The window after one message more.
pub open spec fn counted(window: Window, now_ms: u64) -> Window {
    let current = if now_ms >= window.start_ms && now_ms - window.start_ms >= 1_000 {
        Window { start_ms: now_ms, count: 0 }
    } else {
        window
    };
    Window {
        count: if current.count == u32::MAX {
            u32::MAX
        } else {
            (current.count + 1) as u32
        },
        ..current
    }
}

/// The media socket of one client.
#[derive(Clone, Copy, Debug, PartialEq, Eq, Structural)]
pub struct MediaSocket {
    start_ms: u64,
    count: u32,
    max_input_message: usize,
}

impl View for MediaSocket {
    type V = Window;

    closed spec fn view(&self) -> Window {
        Window { start_ms: self.start_ms, count: self.count }
    }
}

/// A text that was neither too long nor too much.
pub open spec fn media_text<P: FnOnce() -> Result<ClientInput, String>>(
    parse: P,
    r: MediaAction,
) -> bool {
    exists|parsed: Result<ClientInput, String>|
        {
            &&& #[trigger] call_ensures(parse, (), parsed)
            &&& match parsed {
                Ok(ClientInput::Ping { nonce }) => r == (MediaAction::Pong { nonce }),
                Ok(ClientInput::Input(input)) => r == MediaAction::Submit(input),
                Err(reason) => replies(r, "invalid_input"@, "invalid input: "@ + reason@),
            }
        }
}

/// What a message on the media socket leads to. One that is too long is not even
/// counted, and one too many is not even read.
pub open spec fn media_step<P: FnOnce() -> Result<ClientInput, String>>(
    parse: P,
    limit: usize,
    window: Window,
    message: MediaMessage,
    now_ms: u64,
    r: MediaAction,
    after: Window,
) -> bool {
    match message {
        MediaMessage::Text { len } => if len > limit {
            &&& after == window
            &&& replies(
                r,
                "message_too_large"@,
                "input message exceeds "@ + crate::text::decimal(limit as nat) + " bytes"@,
            )
        } else {
            &&& after == counted(window, now_ms)
            &&& if after.count > MAX_INPUT_MESSAGES_PER_SECOND {
                replies(r, "rate_limited"@, "input rate limit exceeded"@)
            } else {
                media_text(parse, r)
            }
        },
        MediaMessage::Binary => {
            &&& after == window
            &&& replies(r, "invalid_input"@, "client media messages must be JSON text"@)
        },
        MediaMessage::PingOrPong => after == window && r is Nothing,
        MediaMessage::Close => after == window && r is Stop,
        MediaMessage::Broken => after == window && r is Stop,
    }
}

impl MediaSocket {
    pub closed spec fn limit(&self) -> usize {
        self.max_input_message
    }

    /// A socket that was opened now, for messages of at most so many bytes.
    pub fn new(now_ms: u64, max_input_message: usize) -> (r: Self)
        ensures
            r@ == (Window { start_ms: now_ms, count: 0 }),
            r.limit() == max_input_message,
    {
        MediaSocket { start_ms: now_ms, count: 0, max_input_message }
    }

    /// Says what is to be done about a message. `parse` reads the text of it.
    pub fn on_message<P: FnOnce() -> Result<ClientInput, String>>(
        &mut self,
        message: MediaMessage,
        now_ms: u64,
        parse: P,
    ) -> (r: MediaAction)
        requires
            call_requires(parse, ()),
        ensures
            final(self).limit() == old(self).limit(),
            media_step(
                parse,
                old(self).limit(),
                old(self)@,
                message,
                now_ms,
                r,
                final(self)@,
            ),
    {
        match message {
            MediaMessage::Text { len } => {
                if len > self.max_input_message {
                    let mut limit = String::new();
                    push_decimal(&mut limit, self.max_input_message as u64);
                    let message = join3("input message exceeds ", limit.as_str(), " bytes");
                    return MediaAction::Reply { code: "message_too_large", message };
                }
                if now_ms >= self.start_ms && now_ms - self.start_ms >= 1_000 {
                    self.start_ms = now_ms;
                    self.count = 0;
                }
                self.count = self.count.saturating_add(1);
                if self.count > MAX_INPUT_MESSAGES_PER_SECOND {
                    return MediaAction::Reply {
                        code: "rate_limited",
                        message: "input rate limit exceeded".to_owned(),
                    };
                }
                let parsed = parse();
                assert(call_ensures(parse, (), parsed));
                match parsed {
                    Ok(ClientInput::Ping { nonce }) => MediaAction::Pong { nonce },
                    Ok(ClientInput::Input(input)) => MediaAction::Submit(input),
                    Err(reason) => MediaAction::Reply {
                        code: "invalid_input",
                        message: join2("invalid input: ", reason.as_str()),
                    },
                }
            },
            MediaMessage::Binary => MediaAction::Reply {
                code: "invalid_input",
                message: "client media messages must be JSON text".to_owned(),
            },
            MediaMessage::PingOrPong => MediaAction::Nothing,
            MediaMessage::Close => MediaAction::Stop,
            MediaMessage::Broken => MediaAction::Stop,
        }
    }
}

/// The code that a failure of the media hub has.
pub open spec fn hub_code(error: MediaHubError) -> Seq<char> {
    match error {
        MediaHubError::InvalidInput(_) => "invalid_input"@,
        MediaHubError::InputBackpressure => "rate_limited"@,
        _ => "unavailable"@,
    }
}

/// What a client is told whose input was not taken.
pub fn media_hub_error(error: &MediaHubError) -> (r: (&'static str, String))
    ensures
        r.0@ == hub_code(*error),
        r.1@ == error.message_text(),
{
    let code = match error {
        MediaHubError::InvalidInput(_) => "invalid_input",
        MediaHubError::InputBackpressure => "rate_limited",
        _ => "unavailable",
    };
    (code, error.message())
}

/// The messages and times of a run, and the windows between them: all of them were
/// texts of a fitting length that came in the second that the first window began.
pub open spec fn within_a_window(windows: Seq<Window>, times: Seq<u64>) -> bool {
    &&& windows.len() == times.len() + 1
    &&& forall|i: int|
        0 <= i < times.len() ==> (#[trigger] times[i]) < windows[0].start_ms + 1_000
    &&& forall|i: int|
        0 <= i < times.len() ==> #[trigger] windows[i + 1] == counted(windows[i], times[i])
}

proof fn lemma_counts_up(windows: Seq<Window>, times: Seq<u64>, i: int)
    requires
        within_a_window(windows, times),
        times.len() < u32::MAX,
        windows[0].count == 0,
        0 <= i <= times.len(),
    ensures
        windows[i].start_ms == windows[0].start_ms,
        windows[i].count == i,
    decreases i,
{
    if i > 0 {
        lemma_counts_up(windows, times, i - 1);
        assert(windows[i - 1 + 1] == counted(windows[i - 1], times[i - 1]));
        assert(times[i - 1] < windows[0].start_ms + 1_000);
    }
}

/// In one second exactly the first messages up to the limit get through.
pub proof fn law_input_rate_is_bounded(windows: Seq<Window>, times: Seq<u64>, i: int)
    requires
        within_a_window(windows, times),
        times.len() < u32::MAX,
        windows[0].count == 0,
        0 <= i < times.len(),
    ensures
        (windows[i + 1].count <= MAX_INPUT_MESSAGES_PER_SECOND) == (i
            < MAX_INPUT_MESSAGES_PER_SECOND),
{
    lemma_counts_up(windows, times, i + 1);
}


/// A client may send 600 messages in a second. A message counts in the second that
/// the first one began, and once a second has passed it begins a new one.
pub proof fn law_a_second_begins_the_count_anew(window: Window, now_ms: u64)
    requires
        window.count < u32::MAX,
    ensures
        now_ms >= window.start_ms + 1_000 ==> counted(window, now_ms).start_ms == now_ms && counted(
            window,
            now_ms,
        ).count == 1,
        now_ms < window.start_ms + 1_000 ==> counted(window, now_ms).start_ms == window.start_ms
            && counted(window, now_ms).count == window.count + 1,
{
}

/// A text that fits and is not one too many does what it says: a ping is answered
/// with its own number, and an input is handed on as it is. One that is too long,
/// too many, or not a text changes nothing for the session.
pub proof fn law_media_texts_do_what_they_say<P: FnOnce() -> Result<ClientInput, String>>(
    parse: P,
    limit: usize,
    window: Window,
    message: MediaMessage,
    now_ms: u64,
    r: MediaAction,
    after: Window,
)
    requires
        media_step(parse, limit, window, message, now_ms, r, after),
    ensures
        r is Submit ==> call_ensures(
            parse,
            (),
            Ok::<ClientInput, String>(ClientInput::Input(r->Submit_0)),
        ),
        r is Pong ==> call_ensures(
            parse,
            (),
            Ok::<ClientInput, String>((ClientInput::Ping { nonce: r->Pong_nonce })),
        ),
        r is Submit || r is Pong ==> message is Text && message->len <= limit && after.count <= 600,
        r is Stop <==> message is Close || message is Broken,
        r is Nothing <==> message is PingOrPong,
        message is Binary ==> r is Reply,
        message is Text && message->len > limit ==> r is Reply && after == window,
        message is Text && message->len <= limit && after.count > 600 ==> r is Reply,
        message is Text && message->len <= limit ==> after != window || window.count == u32::MAX,
{
}

/// A request on the control socket is carried out as it was read. What could not be
/// read is answered, and only the end of the connection ends the conversation.
pub proof fn law_control_messages_are_answered<P: FnOnce(&str) -> Result<Request, String>>(
    parse: P,
    message: ControlMessage,
    r: ControlAction,
)
    requires
        control_step(parse, message, r),
    ensures
        r is Dispatch ==> message is Text && exists|asked: &str|
            asked@ == message->Text_0@ && #[trigger] call_ensures(
                parse,
                (asked,),
                Ok::<Request, String>(r->Dispatch_0),
            ),
        r is Reply ==> message is Text || message is Binary,
        message is Binary ==> r is Reply && r->Reply_0.request_id == 0,
        r is Reply ==> r->Reply_0.outcome is Err && r->Reply_0.outcome->Err_0.code
            == ErrorCode::InvalidRequest,
        r is Reply && message is Text && json_request_id(message->Text_0@) is Some
            ==> r->Reply_0.request_id == json_request_id(message->Text_0@)->0,
        r is Nothing <==> message is PingOrPong,
        r is Stop <==> message is Close || message is Broken,
{
}


/// A client can tell from the code whether its input was wrong, came too fast or could
/// not be taken for another reason.
pub proof fn law_codes_tell_failed_inputs_apart(error: MediaHubError)
    ensures
        hub_code(error) == "invalid_input"@ <==> error is InvalidInput,
        hub_code(error) == "rate_limited"@ <==> error is InputBackpressure,
        hub_code(error) == "unavailable"@ <==> !(error is InvalidInput) && !(
        error is InputBackpressure),
{
    reveal_strlit("invalid_input");
    reveal_strlit("rate_limited");
    reveal_strlit("unavailable");
    assert("invalid_input"@.len() == 13);
    assert("rate_limited"@.len() == 12);
    assert("unavailable"@.len() == 11);
}

} // verus!
