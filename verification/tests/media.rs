use std::cell::RefCell;

use navetted::media::{
    Handover, MediaAttachment, MediaCommand, MediaHub, MediaHubError, MediaInput, Received,
    ReceivedMessage, ServerMessage,
};
use navetted::protocol::{MediaFlags, MediaHeader, MediaKind, MediaPacket};

fn packet(kind: MediaKind, sequence: u64, keyframe: bool) -> MediaPacket {
    stream_packet(1, kind, sequence, keyframe)
}

fn stream_packet(stream_id: u64, kind: MediaKind, sequence: u64, keyframe: bool) -> MediaPacket {
    MediaPacket {
        header: MediaHeader {
            kind,
            flags: MediaFlags { keyframe, discontinuity: false },
            stream_id,
            sequence,
            timestamp_us: sequence,
            width: 1280,
            height: 720,
        },
        payload: vec![sequence as u8],
    }
}

fn publish(hub: &mut MediaHub, packet: MediaPacket) -> Result<usize, MediaHubError> {
    hub.publish("one", packet, Ok(())).map(|stats| stats.dropped)
}

fn next(client: &MediaAttachment, hub: &mut MediaHub) -> Option<MediaHeader> {
    match client.recv(hub) {
        Received::Packet(packet) => Some(packet.header),
        Received::Empty => None,
        Received::Closed => panic!("the queue is closed"),
    }
}

fn hub_with_session() -> MediaHub {
    let mut hub = MediaHub::default();
    hub.register_session("one".into());
    hub
}

#[test]
fn reconnect_starts_with_config_and_latest_keyframe() {
    let mut hub = hub_with_session();
    publish(&mut hub, packet(MediaKind::StreamConfig, 1, false)).unwrap();
    publish(&mut hub, packet(MediaKind::Video, 2, true)).unwrap();
    publish(&mut hub, packet(MediaKind::Video, 3, false)).unwrap();

    let client = hub.attach("one").unwrap();
    assert_eq!(next(&client, &mut hub).unwrap().kind, MediaKind::StreamConfig);
    let keyframe = next(&client, &mut hub).unwrap();
    assert!(keyframe.flags.keyframe);
    assert_eq!(keyframe.sequence, 2);
}

#[test]
fn new_config_invalidates_old_keyframe_and_sequences_are_monotonic() {
    let mut hub = hub_with_session();
    publish(&mut hub, packet(MediaKind::StreamConfig, 1, false)).unwrap();
    publish(&mut hub, packet(MediaKind::Video, 2, true)).unwrap();
    publish(&mut hub, packet(MediaKind::StreamConfig, 3, false)).unwrap();
    assert!(matches!(
        publish(&mut hub, packet(MediaKind::Video, 3, true)),
        Err(MediaHubError::NonMonotonicSequence)
    ));
    let client = hub.attach("one").unwrap();
    assert_eq!(next(&client, &mut hub).unwrap().sequence, 3);
    assert!(next(&client, &mut hub).is_none());
}

#[test]
fn slow_client_drops_delta_frames_until_a_fresh_keyframe() {
    let mut hub = MediaHub::with_client_queue_capacity(2);
    hub.register_session("one".into());
    let client = hub.attach("one").unwrap();
    publish(&mut hub, packet(MediaKind::StreamConfig, 1, false)).unwrap();
    publish(&mut hub, packet(MediaKind::Video, 2, true)).unwrap();
    assert_eq!(publish(&mut hub, packet(MediaKind::Video, 3, false)).unwrap(), 2);
    assert_eq!(publish(&mut hub, packet(MediaKind::Video, 4, false)).unwrap(), 1);
    publish(&mut hub, packet(MediaKind::Video, 5, true)).unwrap();

    assert_eq!(next(&client, &mut hub).unwrap().kind, MediaKind::StreamConfig);
    assert_eq!(next(&client, &mut hub).unwrap().sequence, 5);
}

#[test]
fn stream_end_stops_the_bootstrap_replay_but_still_reaches_attached_clients() {
    let mut hub = hub_with_session();
    let attached = hub.attach("one").unwrap();

    publish(&mut hub, stream_packet(1, MediaKind::StreamConfig, 1, false)).unwrap();
    publish(&mut hub, stream_packet(1, MediaKind::Video, 2, true)).unwrap();
    publish(&mut hub, stream_packet(2, MediaKind::StreamConfig, 1, false)).unwrap();
    publish(&mut hub, stream_packet(2, MediaKind::Video, 2, true)).unwrap();
    publish(&mut hub, stream_packet(1, MediaKind::StreamEnd, 3, false)).unwrap();

    let mut received = Vec::new();
    for _ in 0..5 {
        let header = next(&attached, &mut hub).unwrap();
        received.push((header.stream_id, header.kind));
    }
    assert_eq!(
        received,
        vec![
            (1, MediaKind::StreamConfig),
            (1, MediaKind::Video),
            (2, MediaKind::StreamConfig),
            (2, MediaKind::Video),
            (1, MediaKind::StreamEnd),
        ],
        "an already-attached client must still see the stream's end"
    );

    let late = hub.attach("one").unwrap();
    let config = next(&late, &mut hub).unwrap();
    assert_eq!(
        (config.stream_id, config.kind),
        (2, MediaKind::StreamConfig),
        "the ended stream must not be replayed to a new client"
    );
    let keyframe = next(&late, &mut hub).unwrap();
    assert_eq!((keyframe.stream_id, keyframe.kind), (2, MediaKind::Video));
    assert!(
        next(&late, &mut hub).is_none(),
        "the replay must end with the live stream's keyframe"
    );
}

#[test]
fn input_is_scoped_and_disconnect_removes_client() {
    let mut hub = hub_with_session();
    hub.register_session("two".into());
    let sent: RefCell<Vec<(String, MediaCommand)>> = RefCell::new(Vec::new());
    let send = |session: &str, command: MediaCommand| {
        sent.borrow_mut().push((session.to_string(), command));
        Handover::Accepted
    };

    let client = hub.attach("one").unwrap();
    client.submit_input(&hub, MediaInput::RequestKeyframe, Ok(()), 77, send).unwrap();
    assert_eq!(sent.borrow().len(), 1, "only one session gets the input");
    assert_eq!(sent.borrow()[0].0, "one");
    assert!(
        sent.borrow()[0].1
            == MediaCommand::Input {
                attachment_id: 1,
                input: MediaInput::RequestKeyframe,
                queued_at_us: 0,
            },
        "the time does not count"
    );
    assert_eq!(hub.active_clients("one"), 1);
    assert!(hub.detach(client, send));
    assert!(sent.borrow()[1].1 == MediaCommand::Disconnected { attachment_id: 1 });
    assert_eq!(hub.active_clients("one"), 0);
    assert!(matches!(hub.attach("missing"), Err(MediaHubError::UnknownSession(_))));
}

#[test]
fn refused_input_says_why() {
    let mut hub = hub_with_session();
    let client = hub.attach("one").unwrap();
    let input = || MediaInput::RequestKeyframe;
    let full = client.submit_input(&hub, input(), Ok(()), 0, |_, _| Handover::Full).unwrap_err();
    assert_eq!(full, MediaHubError::InputBackpressure);
    assert_eq!(full.message(), "input queue is full");
    let gone = client.submit_input(&hub, input(), Ok(()), 0, |_, _| Handover::Closed).unwrap_err();
    assert_eq!(gone, MediaHubError::Unavailable);
    let bad = client
        .submit_input(&hub, input(), Err("too wide".into()), 0, |_, _| Handover::Accepted)
        .unwrap_err();
    assert_eq!(bad.message(), "invalid input: too wide");
    hub.unregister_session("one");
    let lost = client
        .submit_input(&hub, input(), Ok(()), 0, |_, _| Handover::Accepted)
        .unwrap_err();
    assert_eq!(lost, MediaHubError::UnknownSession("one".into()));
}

#[test]
fn a_picture_needs_a_config_and_a_valid_size() {
    let mut hub = hub_with_session();
    assert_eq!(
        publish(&mut hub, packet(MediaKind::Video, 1, true)),
        Err(MediaHubError::MissingConfig)
    );
    let mut flat = packet(MediaKind::StreamConfig, 1, false);
    flat.header.width = 0;
    assert_eq!(publish(&mut hub, flat), Err(MediaHubError::InvalidDimensions));
    assert_eq!(
        hub.publish("one", packet(MediaKind::StreamConfig, 1, false), Err("short".into())),
        Err(MediaHubError::InvalidPacket("short".into()))
    );
    assert_eq!(
        hub.publish("two", packet(MediaKind::StreamConfig, 1, false), Ok(())),
        Err(MediaHubError::UnknownSession("two".into()))
    );
}

#[test]
fn messages_reach_every_client_of_the_session() {
    let mut hub = hub_with_session();
    hub.register_session("two".into());
    let message = ServerMessage::Clipboard { text: "hello".into() };
    assert_eq!(hub.publish_message("one", &message), 0);
    let first = hub.attach("one").unwrap();
    let second = hub.attach("one").unwrap();
    let other = hub.attach("two").unwrap();
    assert_eq!(hub.publish_message("one", &message), 2);
    for client in [&first, &second] {
        assert!(matches!(
            client.recv_message(&mut hub),
            ReceivedMessage::Message(received) if received == message
        ));
        assert!(matches!(client.recv_message(&mut hub), ReceivedMessage::Empty));
    }
    assert!(matches!(other.recv_message(&mut hub), ReceivedMessage::Empty));
}

#[test]
fn an_unregistered_session_closes_its_queues() {
    let mut hub = hub_with_session();
    publish(&mut hub, packet(MediaKind::StreamConfig, 1, false)).unwrap();
    let client = hub.attach("one").unwrap();
    hub.unregister_session("one");
    assert!(matches!(client.recv(&mut hub), Received::Packet(_)));
    assert!(matches!(client.recv(&mut hub), Received::Closed));
}

#[test]
fn there_is_room_for_ordinary_numbers_of_clients() {
    let mut hub = hub_with_session();
    for _ in 0..100 {
        assert!(hub.has_room());
        hub.attach("one").unwrap();
    }
    assert_eq!(hub.active_clients("one"), 100);
    let mut crowded = MediaHub::with_client_queue_capacity(usize::MAX - 1);
    crowded.register_session("one".into());
    assert!(crowded.has_room());
    crowded.attach("one").unwrap();
    assert!(!crowded.has_room());
}

fn shown(hub: &mut MediaHub) -> Vec<(u64, MediaKind, u64)> {
    let client = hub.attach("one").unwrap();
    let mut headers = Vec::new();
    while let Some(header) = next(&client, hub) {
        headers.push((header.stream_id, header.kind, header.sequence));
    }
    headers
}

#[test]
fn a_refused_packet_changes_no_replay() {
    let mut hub = hub_with_session();
    publish(&mut hub, stream_packet(2, MediaKind::StreamConfig, 1, false)).unwrap();
    publish(&mut hub, stream_packet(2, MediaKind::Video, 2, true)).unwrap();
    let before = shown(&mut hub);
    assert_eq!(before, [(2, MediaKind::StreamConfig, 1), (2, MediaKind::Video, 2)]);
    assert_eq!(
        publish(&mut hub, stream_packet(1, MediaKind::Video, 1, true)),
        Err(MediaHubError::MissingConfig)
    );
    assert_eq!(shown(&mut hub), before);
    assert_eq!(
        publish(&mut hub, stream_packet(2, MediaKind::Video, 2, true)),
        Err(MediaHubError::NonMonotonicSequence)
    );
    assert_eq!(shown(&mut hub), before);
}

#[test]
fn an_ended_stream_is_shown_again_once_it_is_configured() {
    let mut hub = hub_with_session();
    publish(&mut hub, stream_packet(1, MediaKind::StreamConfig, 5, false)).unwrap();
    publish(&mut hub, stream_packet(3, MediaKind::StreamConfig, 1, false)).unwrap();
    publish(&mut hub, stream_packet(1, MediaKind::StreamEnd, 6, false)).unwrap();
    assert_eq!(shown(&mut hub), [(3, MediaKind::StreamConfig, 1)]);
    assert_eq!(
        publish(&mut hub, stream_packet(1, MediaKind::Video, 7, true)),
        Err(MediaHubError::MissingConfig)
    );
    publish(&mut hub, stream_packet(3, MediaKind::Video, 9, true)).unwrap();
    assert_eq!(
        shown(&mut hub),
        [(3, MediaKind::StreamConfig, 1), (3, MediaKind::Video, 9)]
    );
    publish(&mut hub, stream_packet(1, MediaKind::StreamConfig, 1, false)).unwrap();
    assert_eq!(
        shown(&mut hub),
        [
            (1, MediaKind::StreamConfig, 1),
            (3, MediaKind::StreamConfig, 1),
            (3, MediaKind::Video, 9),
        ]
    );
}

#[test]
fn refused_input_is_not_handed_over() {
    let mut hub = hub_with_session();
    let client = hub.attach("one").unwrap();
    let never = |_: &str, _: MediaCommand| -> Handover { panic!("handed over") };
    let refused = client.submit_input(
        &hub,
        MediaInput::RequestKeyframe,
        Err("out of range".into()),
        0,
        never,
    );
    assert_eq!(refused, Err(MediaHubError::InvalidInput("out of range".into())));
    hub.unregister_session("one");
    let refused = client.submit_input(&hub, MediaInput::RequestKeyframe, Ok(()), 0, never);
    assert_eq!(refused, Err(MediaHubError::UnknownSession("one".into())));
    assert!(!hub.detach(client, never));
}
