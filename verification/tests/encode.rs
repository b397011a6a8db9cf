use std::collections::BTreeMap;

use navetted::bridge::{BridgeWorker, SceneEvent};
use navetted::encode::{
    EncodeAction, EncodeCommand, EncodeEvent, EncodeQueue, EncodedFrame, NextCommand, StreamTable,
    SurfaceKey,
};
use navetted::frame::{normalize_frame, Frame};
use navetted::media::{MediaAttachment, MediaHub, Received};
use navetted::protocol::{MediaHeader, MediaKind, MediaPacket};

fn key(client_id: u64, surface_id: u64) -> SurfaceKey {
    SurfaceKey { client_id, surface_id }
}

fn valid(_: &MediaPacket) -> Result<(), String> {
    Ok(())
}

/// A session whose encoder makes a keyframe when it is new or told to.
struct Session {
    hub: MediaHub,
    client: MediaAttachment,
    worker: BridgeWorker,
    queue: EncodeQueue,
    streams: StreamTable,
    next_stream: u64,
    size: u32,
}

impl Session {
    fn new() -> Self {
        let mut hub = MediaHub::default();
        hub.register_session("s1".into());
        let client = hub.attach("s1").unwrap();
        Session {
            hub,
            client,
            worker: BridgeWorker::new(1024),
            queue: EncodeQueue::new(),
            streams: StreamTable::new(),
            next_stream: 1,
            size: 4,
        }
    }

    fn batch(&mut self, events: Vec<SceneEvent>) {
        self.worker.handle_scene_events(&mut self.queue, &events);
        for toplevel in self.worker.take_composites() {
            let frame = Frame {
                width: self.size,
                height: self.size,
                pixels: vec![0; (self.size * self.size * 4) as usize],
            };
            self.worker.submit_composite(&mut self.queue, toplevel, frame);
        }
    }

    fn commit(&mut self, keys: &[SurfaceKey]) {
        self.batch(
            keys.iter().map(|k| SceneEvent::SurfaceCommitted { toplevel: Some(*k) }).collect(),
        );
    }

    fn encode(&mut self, key: SurfaceKey, frame: Frame) -> Result<(), String> {
        let frame = normalize_frame(frame);
        let fresh = self.streams.get(key).is_none();
        let mut event = EncodeEvent::Begin;
        loop {
            let action = self.streams.encode_frame(
                &mut self.hub,
                "s1",
                key,
                frame.width,
                frame.height,
                event,
                7,
                &valid,
            );
            event = match action {
                EncodeAction::Create { .. } => {
                    let stream_id = self.next_stream;
                    self.next_stream += 1;
                    EncodeEvent::Created { stream_id, outcome: Ok(()) }
                }
                EncodeAction::Reconfigure { .. } => EncodeEvent::Reconfigured(Ok(())),
                EncodeAction::Encode { force_keyframe } => {
                    let keyframe = fresh || force_keyframe;
                    EncodeEvent::Encoded(Ok(EncodedFrame {
                        config: if keyframe { Some(Ok(vec![1])) } else { None },
                        keyframe,
                        annex_b: vec![2, 3],
                    }))
                }
                EncodeAction::Done(outcome) => return outcome,
            };
        }
    }

    fn drain(&mut self) {
        loop {
            match self.queue.next() {
                NextCommand::Command(command, superseded) => {
                    let frame = self.streams.apply_encode_command(
                        &mut self.hub,
                        "s1",
                        command,
                        superseded,
                        7,
                        &valid,
                    );
                    if let Some((key, frame)) = frame {
                        self.encode(key, frame).unwrap();
                    }
                }
                NextCommand::Empty | NextCommand::Stopped => return,
            }
        }
    }

    fn packets(&mut self) -> Vec<MediaHeader> {
        let mut headers = Vec::new();
        while let Received::Packet(packet) = self.client.recv(&mut self.hub) {
            headers.push(packet.header);
        }
        headers
    }

    fn kinds(&mut self) -> Vec<(u64, MediaKind)> {
        self.packets().into_iter().map(|h| (h.stream_id, h.kind)).collect()
    }
}

#[test]
fn scene_commit_creates_independent_streams_with_config_before_video() {
    let mut session = Session::new();
    let (key1, key2) = (key(1, 1), key(1, 2));
    session.commit(&[key1, key2]);
    session.drain();

    let stream1 = session.streams.get(key1).unwrap();
    let stream2 = session.streams.get(key2).unwrap();
    assert_ne!(stream1.id, stream2.id, "each toplevel gets its own stream");
    assert_eq!(stream1.sequence, 2);
    assert_eq!(stream2.sequence, 2);

    let mut by_stream: BTreeMap<u64, Vec<(MediaKind, u64, bool)>> = BTreeMap::new();
    for header in session.packets() {
        by_stream.entry(header.stream_id).or_default().push((
            header.kind,
            header.sequence,
            header.flags.discontinuity,
        ));
    }
    for stream_id in [stream1.id, stream2.id] {
        let packets = by_stream.remove(&stream_id).expect("each stream published packets");
        assert_eq!(packets.len(), 2);
        assert_eq!(packets[0].0, MediaKind::StreamConfig);
        assert_eq!(packets[1].0, MediaKind::Video);
        assert!(packets[0].1 < packets[1].1, "sequence must ascend within a stream");
        assert!(packets[0].2, "a stream's first frame is a discontinuity");
        assert!(packets[1].2, "a stream's first frame is a discontinuity");
    }

    session.encode(key1, Frame { width: 4, height: 4, pixels: vec![0; 64] }).unwrap();
    assert!(session.streams.get(key1).unwrap().sequence > 2);
    assert_eq!(
        session.streams.get(key2).unwrap().sequence,
        2,
        "publishing to one stream must not disturb the other's sequencing"
    );

    session.streams.force_keyframe_on_all_streams();
    for key in [key1, key2] {
        let stream = session.streams.get(key).unwrap();
        assert!(stream.force_keyframe);
        assert!(stream.discontinuity);
    }
}

#[test]
fn commit_encodes_only_the_committed_surfaces_own_toplevel() {
    let mut session = Session::new();
    let (key1, key2) = (key(1, 1), key(1, 2));

    session.commit(&[key1]);
    session.drain();
    assert!(session.streams.get(key2).is_none(), "only the committed toplevel may be encoded");
    let stream1 = session.streams.get(key1).unwrap().id;
    assert_eq!(
        session.kinds(),
        [(stream1, MediaKind::StreamConfig), (stream1, MediaKind::Video)],
        "an untouched toplevel must publish nothing on another window's commit"
    );

    session.commit(&[key2]);
    session.drain();
    let sequence1 = session.streams.get(key1).unwrap().sequence;
    let stream2 = session.streams.get(key2).unwrap().id;
    assert_eq!(
        session.kinds(),
        [(stream2, MediaKind::StreamConfig), (stream2, MediaKind::Video)]
    );

    session.commit(&[key2]);
    session.drain();
    assert_eq!(
        session.streams.get(key1).unwrap().sequence,
        sequence1,
        "a commit to one window must not advance another window's stream"
    );
    assert_eq!(session.kinds(), [(stream2, MediaKind::Video)]);
}

#[test]
fn subsurface_commit_reencodes_its_toplevel_ancestor() {
    let mut session = Session::new();
    let toplevel = key(1, 1);
    let child = key(1, 2);
    // The scene says in which window the pixels of the child land.
    session.batch(vec![SceneEvent::SurfaceCommitted { toplevel: Some(toplevel) }]);
    session.drain();
    assert!(session.streams.get(toplevel).is_some());
    assert!(session.streams.get(child).is_none(), "a subsurface has no stream of its own");

    let before = session.streams.get(toplevel).unwrap();
    assert_eq!(
        session.kinds(),
        [(before.id, MediaKind::StreamConfig), (before.id, MediaKind::Video)]
    );
    session.batch(vec![SceneEvent::SurfaceCommitted { toplevel: Some(toplevel) }]);
    session.drain();
    let after = session.streams.get(toplevel).unwrap();
    assert_eq!(after.id, before.id);
    assert!(
        after.sequence > before.sequence,
        "each subsurface commit publishes another frame on the same stream"
    );
    assert_eq!(session.kinds(), [(before.id, MediaKind::Video)]);
}

#[test]
fn destroy_and_disconnect_end_only_the_affected_stream() {
    let mut session = Session::new();
    let (key_a, key_b) = (key(1, 1), key(2, 1));
    session.commit(&[key_a, key_b]);
    session.drain();
    let stream_a = session.streams.get(key_a).unwrap().id;
    let stream_b = session.streams.get(key_b).unwrap().id;
    assert_eq!(session.packets().len(), 4);

    session.batch(vec![SceneEvent::ClientDisconnected { client_id: 1 }]);
    session.drain();
    assert!(session.streams.get(key_a).is_none());
    assert_eq!(
        session.streams.get(key_b).unwrap().sequence,
        2,
        "client B's stream must be untouched by client A's disconnect"
    );
    assert_eq!(session.kinds(), [(stream_a, MediaKind::StreamEnd)]);

    session.batch(vec![SceneEvent::SurfaceDestroyed { key: key_b }]);
    session.drain();
    assert!(session.streams.get(key_b).is_none());
    assert_eq!(session.kinds(), [(stream_b, MediaKind::StreamEnd)]);
    assert_ne!(stream_a, stream_b);
}

#[test]
fn a_superseded_frame_collapses_into_one_encode_flagged_as_a_discontinuity() {
    let mut session = Session::new();
    let k = key(1, 1);
    session.commit(&[k]);
    session.drain();
    session.packets();
    assert!(
        !session.streams.get(k).unwrap().discontinuity,
        "an established stream starts this test with no pending gap"
    );

    session.commit(&[k]);
    session.commit(&[k]);
    session.drain();

    let video: Vec<MediaHeader> =
        session.packets().into_iter().filter(|h| h.kind == MediaKind::Video).collect();
    assert_eq!(video.len(), 1, "two frames queued for one surface must encode once, not twice");
    assert!(
        video[0].flags.discontinuity,
        "the frame that replaced another must report the gap as a discontinuity"
    );
}

#[test]
fn a_frame_composited_before_a_destroy_never_publishes_after_the_stream_ends() {
    let mut session = Session::new();
    let k = key(1, 1);
    session.commit(&[k]);
    session.drain();
    session.packets();

    session.commit(&[k]);
    session.batch(vec![SceneEvent::SurfaceDestroyed { key: k }]);
    session.drain();

    let published = session.packets();
    assert!(
        !published.iter().any(|h| h.kind == MediaKind::Video),
        "a frame from before the destroy must not be encoded once the stream is gone"
    );
    assert_eq!(
        published.iter().filter(|h| h.kind == MediaKind::StreamEnd).count(),
        1,
        "the stream still has to end exactly once"
    );
    assert!(session.streams.get(k).is_none());
}

#[test]
fn a_commit_and_destroy_in_one_batch_never_composites_the_destroyed_surface() {
    let mut session = Session::new();
    let k = key(1, 1);
    session.batch(vec![
        SceneEvent::SurfaceCommitted { toplevel: Some(k) },
        SceneEvent::SurfaceDestroyed { key: k },
    ]);
    session.drain();

    assert!(
        session.worker.take_composites().is_empty(),
        "a destroyed surface must not stay owed a composite"
    );
    assert!(
        session.packets().is_empty(),
        "a surface destroyed in the same batch as its commit must publish nothing"
    );
    assert!(session.streams.get(k).is_none());
}

#[test]
fn the_encode_thread_finishes_queued_work_then_stops_and_joins() {
    let mut session = Session::new();
    session.commit(&[key(1, 1)]);
    session.queue.stop();
    session.drain();

    let kinds: Vec<MediaKind> = session.packets().into_iter().map(|h| h.kind).collect();
    assert_eq!(
        kinds,
        [MediaKind::StreamConfig, MediaKind::Video],
        "the queued frame must be encoded and published before the thread exits"
    );
    assert!(matches!(session.queue.next(), NextCommand::Stopped));
}

#[test]
fn another_size_sets_the_encoder_up_anew() {
    let mut session = Session::new();
    let k = key(1, 1);
    session.commit(&[k]);
    session.drain();
    let first = session.streams.get(k).unwrap();
    session.packets();

    session.size = 6;
    session.commit(&[k]);
    session.drain();
    let resized = session.streams.get(k).unwrap();
    assert_eq!((resized.width, resized.height), (6, 6));
    assert_eq!(resized.id, first.id);
    let headers = session.packets();
    assert!(headers.iter().all(|h| h.width == 6 && h.flags.discontinuity));
}

#[test]
fn an_empty_queue_says_so() {
    let mut queue = EncodeQueue::new();
    assert!(matches!(queue.next(), NextCommand::Empty));
    queue.submit(EncodeCommand::ForceKeyframeAll);
    assert!(matches!(
        queue.next(),
        NextCommand::Command(EncodeCommand::ForceKeyframeAll, false)
    ));
}

#[test]
fn an_encoder_that_fails_is_reported() {
    let mut session = Session::new();
    let action = session.streams.encode_frame(
        &mut session.hub,
        "s1",
        key(1, 1),
        4,
        4,
        EncodeEvent::Created { stream_id: 9, outcome: Err("no encoder".into()) },
        0,
        &valid,
    );
    assert!(matches!(action, EncodeAction::Done(Err(reason)) if reason == "no encoder"));
    assert!(session.streams.get(key(1, 1)).is_none());
}
