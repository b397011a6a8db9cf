use navetted::api::{ErrorCode, Request, RequestCommand};
use navetted::media::{MediaHubError, MediaInput};
use navetted::sockets::{
    extract_request_id, media_hub_error, on_control_message, request_id_or_zero, ClientInput,
    ControlAction, ControlMessage, MediaAction, MediaMessage, MediaSocket,
    MAX_INPUT_MESSAGES_PER_SECOND,
};

#[test]
fn malformed_request_preserves_numeric_request_id() {
    assert_eq!(extract_request_id(r#"{"request_id": 42, "type": "run"}"#), 42);
    assert_eq!(extract_request_id("not json"), 0);
}

#[test]
fn only_an_unsigned_number_is_an_id() {
    assert_eq!(extract_request_id(r#"{"request_id": -1}"#), 0);
    assert_eq!(extract_request_id(r#"{"request_id": "42"}"#), 0);
    assert_eq!(extract_request_id(r#"[42]"#), 0);
    assert_eq!(extract_request_id(r#"{"request_id": 18446744073709551615}"#), u64::MAX);
    assert_eq!(request_id_or_zero(Some(7)), 7);
    assert_eq!(request_id_or_zero(None), 0);
}

fn unreadable(_: &str) -> Result<Request, String> {
    Err("missing field".into())
}

#[test]
fn an_unreadable_request_is_answered_under_its_id() {
    let message = ControlMessage::Text(r#"{"request_id": 9}"#.into());
    match on_control_message(message, unreadable) {
        ControlAction::Reply(response) => {
            assert_eq!(response.request_id, 9);
            let failure = response.outcome.unwrap_err();
            assert_eq!(failure.code, ErrorCode::InvalidRequest);
            assert_eq!(failure.message, "invalid request: missing field");
        }
        _ => panic!("the request was not answered"),
    }
}

#[test]
fn a_readable_request_is_carried_out() {
    let action = on_control_message(ControlMessage::Text("list".into()), |text| {
        assert_eq!(text, "list");
        Ok(Request { request_id: 3, command: RequestCommand::ListApps })
    });
    assert!(matches!(action, ControlAction::Dispatch(request) if request.request_id == 3));
}

#[test]
fn other_control_messages() {
    match on_control_message(ControlMessage::Binary, unreadable) {
        ControlAction::Reply(response) => {
            assert_eq!(response.request_id, 0);
            assert_eq!(
                response.outcome.unwrap_err().message,
                "binary control frames are reserved for a future API version"
            );
        }
        _ => panic!("the frame was not answered"),
    }
    assert!(matches!(
        on_control_message(ControlMessage::PingOrPong, unreadable),
        ControlAction::Nothing
    ));
    assert!(matches!(on_control_message(ControlMessage::Close, unreadable), ControlAction::Stop));
    assert!(matches!(on_control_message(ControlMessage::Broken, unreadable), ControlAction::Stop));
}

fn keyframe() -> Result<ClientInput, String> {
    Ok(ClientInput::Input(MediaInput::RequestKeyframe))
}

fn reply(action: MediaAction) -> (&'static str, String) {
    match action {
        MediaAction::Reply { code, message } => (code, message),
        _ => panic!("the client was not told"),
    }
}

#[test]
fn a_ping_is_answered_at_once() {
    let mut socket = MediaSocket::new(0, 100);
    let action = socket.on_message(MediaMessage::Text { len: 10 }, 0, || {
        Ok(ClientInput::Ping { nonce: 77 })
    });
    assert!(matches!(action, MediaAction::Pong { nonce: 77 }));
}

#[test]
fn a_long_message_is_refused_unread() {
    let mut socket = MediaSocket::new(0, 100);
    let action = socket.on_message(MediaMessage::Text { len: 101 }, 0, || panic!("read"));
    assert_eq!(
        reply(action),
        ("message_too_large", "input message exceeds 100 bytes".to_string())
    );
    assert!(matches!(
        socket.on_message(MediaMessage::Text { len: 100 }, 0, keyframe),
        MediaAction::Submit(MediaInput::RequestKeyframe)
    ));
}

#[test]
fn only_so_many_inputs_get_through_in_a_second() {
    let mut socket = MediaSocket::new(5_000, 100);
    let text = MediaMessage::Text { len: 1 };
    for _ in 0..MAX_INPUT_MESSAGES_PER_SECOND {
        assert!(matches!(socket.on_message(text, 5_500, keyframe), MediaAction::Submit(_)));
    }
    assert_eq!(
        reply(socket.on_message(text, 5_999, || panic!("read"))),
        ("rate_limited", "input rate limit exceeded".to_string())
    );
    assert!(matches!(socket.on_message(text, 6_000, keyframe), MediaAction::Submit(_)));
}

#[test]
fn other_media_messages() {
    let mut socket = MediaSocket::new(0, 100);
    assert_eq!(
        reply(socket.on_message(MediaMessage::Binary, 0, keyframe)),
        ("invalid_input", "client media messages must be JSON text".to_string())
    );
    assert_eq!(
        reply(socket.on_message(MediaMessage::Text { len: 1 }, 0, || Err("no".into()))),
        ("invalid_input", "invalid input: no".to_string())
    );
    assert!(matches!(
        socket.on_message(MediaMessage::PingOrPong, 0, keyframe),
        MediaAction::Nothing
    ));
    assert!(matches!(socket.on_message(MediaMessage::Close, 0, keyframe), MediaAction::Stop));
    assert!(matches!(socket.on_message(MediaMessage::Broken, 0, keyframe), MediaAction::Stop));
}

#[test]
fn failures_of_the_hub_have_codes() {
    assert_eq!(
        media_hub_error(&MediaHubError::InvalidInput("x".into())),
        ("invalid_input", "invalid input: x".to_string())
    );
    assert_eq!(media_hub_error(&MediaHubError::InputBackpressure).0, "rate_limited");
    assert_eq!(
        media_hub_error(&MediaHubError::MissingConfig),
        ("unavailable", "stream configuration has not been published".to_string())
    );
    assert_eq!(media_hub_error(&MediaHubError::Unavailable).0, "unavailable");
}
