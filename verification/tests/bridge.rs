use std::cell::RefCell;

use navetted::bridge::{
    keeps_running, take_clipboard_requests, BatchStep, BridgeManager, BridgeWorker, GuestData,
    GuestMessage, GuestSend, LoopPass, PassStep, PumpAction, PumpedBatch, SceneEvent, LOOP_LAG_THRESHOLD_US,
    RESIZE_DEBOUNCE_US,
};
use navetted::clipboard::OFFERED_MIME_TYPES;
use navetted::encode::{EncodeCommand, EncodeQueue, NextCommand, SurfaceKey};
use navetted::frame::Frame;
use navetted::media::{
    MediaAttachment, MediaCommand, MediaHub, MediaInput, ReceivedMessage, ServerMessage,
};
use navetted::protocol::{BlobDescriptor, Session, SessionStatus};

/// Everything that a clipboard test needs.
struct Fixture {
    worker: BridgeWorker,
    queue: EncodeQueue,
    hub: MediaHub,
    client: Option<MediaAttachment>,
    blobs: RefCell<Vec<(BlobDescriptor, Vec<u8>)>>,
}

fn blob(id: &str, size: u64) -> BlobDescriptor {
    BlobDescriptor { id: id.repeat(32), mime: "image/png".into(), size }
}

impl Fixture {
    fn new() -> Self {
        let mut hub = MediaHub::default();
        hub.register_session("s1".into());
        let client = hub.attach("s1").unwrap();
        Fixture {
            worker: BridgeWorker::new(1024),
            queue: EncodeQueue::new(),
            hub,
            client: Some(client),
            blobs: RefCell::new(Vec::new()),
        }
    }

    fn read(blobs: &RefCell<Vec<(BlobDescriptor, Vec<u8>)>>, wanted: &BlobDescriptor) -> Option<Vec<u8>> {
        blobs.borrow().iter().find(|(blob, _)| blob == wanted).map(|(_, bytes)| bytes.clone())
    }

    fn guest(&mut self, request: GuestData) -> Option<GuestSend> {
        let blobs = &self.blobs;
        self.worker.handle_guest_data(
            &mut self.hub,
            "s1",
            request,
            |mime, bytes| {
                let mut stored = blob("a", bytes.len() as u64);
                stored.mime = mime.clone();
                blobs.borrow_mut().push((stored.clone(), bytes.clone()));
                Some((stored, true))
            },
            |wanted| Self::read(blobs, wanted),
        )
    }

    fn pump(&mut self, command: MediaCommand, now_us: u64) -> PumpAction {
        let blobs = &self.blobs;
        self.worker.pump_command(
            &mut self.hub,
            &mut self.queue,
            "s1",
            command,
            now_us,
            |_| true,
            |wanted| Self::read(blobs, wanted),
        )
    }

    fn phone(&mut self, input: MediaInput) -> PumpAction {
        self.pump(MediaCommand::Input { attachment_id: 1, input, queued_at_us: 0 }, 0)
    }

    fn message(&mut self) -> Option<ServerMessage> {
        match self.client.as_ref().unwrap().recv_message(&mut self.hub) {
            ReceivedMessage::Message(message) => Some(message),
            _ => None,
        }
    }
}

fn offered(send: Option<GuestSend>) -> Vec<String> {
    match send {
        Some(GuestSend::Offer { mime_types }) => mime_types,
        _ => panic!("nothing was offered"),
    }
}

fn sent(action: PumpAction) -> Option<GuestSend> {
    match action {
        PumpAction::Send(send) => Some(send),
        _ => None,
    }
}

fn selection(mimes: &[&str]) -> GuestData {
    GuestData::SelectionSet { mime_types: mimes.iter().map(|m| m.to_string()).collect() }
}

fn answer(send: Option<GuestSend>) -> Vec<u8> {
    match send {
        Some(GuestSend::Data { bytes }) => bytes,
        _ => panic!("the paste was not answered"),
    }
}

#[test]
fn a_guest_copy_reaches_the_media_hub() {
    let mut fixture = Fixture::new();
    assert!(
        matches!(
            fixture.guest(selection(&["text/plain"])),
            Some(GuestSend::AskFor { mime }) if mime == "text/plain"
        ),
        "the bridge must ask the guest for the offered text"
    );
    assert!(fixture.guest(GuestData::Transfer { bytes: b"hello".to_vec() }).is_none());
    assert_eq!(
        fixture.message(),
        Some(ServerMessage::Clipboard { text: "hello".into() }),
        "the guest's clipboard text must reach the media hub"
    );
}

#[test]
fn a_guest_image_copy_is_stored_then_published_as_a_descriptor() {
    let mut fixture = Fixture::new();
    assert!(matches!(
        fixture.guest(selection(&["image/png"])),
        Some(GuestSend::AskFor { mime }) if mime == "image/png"
    ));
    assert!(fixture.guest(GuestData::Transfer { bytes: b"png".to_vec() }).is_none());
    match fixture.message() {
        Some(ServerMessage::ClipboardBlob { blob }) => {
            assert_eq!(blob.mime, "image/png");
            assert_eq!(Fixture::read(&fixture.blobs, &blob).unwrap(), b"png");
        }
        _ => panic!("guest image must publish a descriptor, not bytes"),
    }
}

#[test]
fn a_phone_image_descriptor_offers_image_mimes_and_missing_data_answers_empty() {
    let mut fixture = Fixture::new();
    let stored = blob("b", 3);
    fixture.blobs.borrow_mut().push((stored.clone(), b"png".to_vec()));
    let action = fixture.phone(MediaInput::SetClipboardBlob { blob: stored });
    assert_eq!(offered(sent(action)), ["image/png", "image/jpeg", "image/webp"]);
    let paste = || GuestData::TransferRequested { mime: "image/png".into() };
    assert_eq!(answer(fixture.guest(paste())), b"png");

    let action = fixture.phone(MediaInput::SetClipboardBlob { blob: blob("1", 3) });
    assert!(sent(action).is_some());
    assert!(answer(fixture.guest(paste())).is_empty());
    assert_eq!(fixture.worker.take_retired_blobs(), [blob("b", 3)]);
}

#[test]
fn a_guest_push_reaching_nobody_forgets_its_echo_so_the_same_text_reaches_the_guest_later() {
    let mut fixture = Fixture::new();
    let client = fixture.client.take().unwrap();
    fixture.hub.detach(client, |_, _| navetted::media::Handover::Accepted);

    assert!(matches!(
        fixture.guest(selection(&["text/plain"])),
        Some(GuestSend::AskFor { .. })
    ));
    assert!(fixture.guest(GuestData::Transfer { bytes: b"hello".to_vec() }).is_none());

    let action = fixture.phone(MediaInput::SetClipboard { text: "hello".into() });
    assert_eq!(
        offered(sent(action)),
        OFFERED_MIME_TYPES,
        "a genuine phone copy must not be mistaken for the echo of a push nobody received"
    );
}

#[test]
fn a_phone_copy_is_offered_and_answered() {
    let mut fixture = Fixture::new();
    let action = fixture.phone(MediaInput::SetClipboard { text: "hello".into() });
    assert_eq!(
        offered(sent(action)),
        OFFERED_MIME_TYPES,
        "the phone's clipboard must be offered to the guest"
    );
    assert_eq!(
        answer(fixture.guest(GuestData::TransferRequested { mime: "text/plain".into() })),
        b"hello",
        "the guest's paste must be answered with the phone's text"
    );
}

#[test]
fn a_paste_with_no_phone_copy_is_still_answered_on_the_wire() {
    let mut fixture = Fixture::new();
    assert!(
        answer(fixture.guest(GuestData::TransferRequested { mime: "text/plain".into() }))
            .is_empty(),
        "a paste with nothing to answer with must still be answered, or the guest hangs"
    );
}

#[test]
fn primary_selection_is_ignored_and_scene_messages_pass_through() {
    let mut fixture = Fixture::new();
    let (requests, rest) = take_clipboard_requests(vec![
        GuestMessage::Scene("raw buffer"),
        GuestMessage::Data(GuestData::Other),
        GuestMessage::Scene("surface"),
    ]);
    assert_eq!(rest, ["raw buffer", "surface"], "only data requests are taken out of the batch");
    assert_eq!(requests.len(), 1);
    for request in requests {
        assert!(fixture.guest(request).is_none());
    }
    assert!(fixture.message().is_none());
}

/// Runs a batch whose units succeed or not, and counts what happens.
fn run_batch(units: &[bool]) -> (usize, usize) {
    let mut batch = PumpedBatch::new(units.len());
    let (mut done, mut served) = (0, 0);
    loop {
        match batch.next() {
            BatchStep::Work { index } => {
                assert_eq!(served, index, "input is served before the next unit");
                if units[index] {
                    done += 1;
                }
            }
            BatchStep::Pump => served += 1,
            BatchStep::Done => return (done, served),
        }
    }
}

#[test]
fn applying_a_message_batch_serves_input_between_each_message() {
    let (_, served) = run_batch(&[true, false, true]);
    assert_eq!(
        served, 3,
        "input must be pumped once per message, including after a rejected one"
    );
}

fn key(surface_id: u64) -> SurfaceKey {
    SurfaceKey { client_id: 1, surface_id }
}

fn commit(surface_id: u64) -> SceneEvent {
    SceneEvent::SurfaceCommitted { toplevel: Some(key(surface_id)) }
}

#[test]
fn flush_composites_serves_input_between_each_composite() {
    let mut worker = BridgeWorker::new(1024);
    let mut queue = EncodeQueue::new();
    for surface_id in [1, 2, 3] {
        worker.handle_scene_events(&mut queue, &vec![commit(surface_id)]);
    }
    let composites = worker.take_composites();
    assert_eq!(composites, [key(1), key(2), key(3)], "three windows owe three composites");
    let (_, served) = run_batch(&vec![true; composites.len()]);
    assert_eq!(
        served, 3,
        "input must be pumped once per composite, not once for the whole batch"
    );
}

#[test]
fn a_failed_composite_still_serves_input_before_the_next_one() {
    let (composites, served) = run_batch(&[false, true]);
    assert_eq!(composites, 1, "only the committed surface composites");
    assert_eq!(
        served, 2,
        "input must be pumped after the failure too, not only after the success"
    );
}

#[test]
fn a_pass_goes_through_everything_in_order() {
    let mut pass = LoopPass::new(2, 1);
    let mut steps = Vec::new();
    loop {
        let step = pass.next();
        steps.push(step);
        match step {
            PassStep::Collect => pass.collected(2),
            PassStep::End => break,
            _ => {}
        }
    }
    assert_eq!(
        steps,
        [
            PassStep::Serve { index: 0 },
            PassStep::Serve { index: 1 },
            PassStep::Apply { index: 0 },
            PassStep::Pump,
            PassStep::Collect,
            PassStep::Compose { index: 0 },
            PassStep::Pump,
            PassStep::Compose { index: 1 },
            PassStep::Pump,
            PassStep::Pump,
            PassStep::End,
        ]
    );
}

#[test]
fn repeated_commits_in_one_batch_composite_once() {
    let mut worker = BridgeWorker::new(1024);
    let mut queue = EncodeQueue::new();
    worker.handle_scene_events(&mut queue, &(0..10).map(|_| commit(1)).collect());
    assert_eq!(worker.take_composites(), [key(1)], "ten commits to one window owe one composite");
    assert!(worker.take_composites().is_empty());
}

#[test]
fn start_reaps_a_dead_worker_and_restarts_the_session() {
    let mut hub = MediaHub::default();
    let mut manager: BridgeManager<bool> = BridgeManager::new();
    let session = Session {
        name: "dead".into(),
        app_id: "firefox".into(),
        app_pid: 1,
        daemon_pid: 2,
        wayland_display: "navette-dead".into(),
        socket_path: "no-such-socket".into(),
        created_at_ms: 0,
        last_attached_at_ms: None,
        client_count: 0,
        status: SessionStatus::Running,
    };
    // The handle of a worker says whether it is over.
    let finished = |handle: &bool| *handle;
    manager.start(&mut hub, &session, finished, |_| Ok(true)).unwrap();
    assert!(!manager.is_running("dead", finished));
    hub.unregister_session("dead");

    manager.start(&mut hub, &session, finished, |_| Ok(false)).unwrap();
    assert!(
        hub.attach("dead").is_ok(),
        "a dead worker's session should be restartable, not silently no-op"
    );
    assert!(manager.is_running("dead", finished));
    assert_eq!(manager.names(), ["dead"]);
    let joined = RefCell::new(0);
    assert!(manager.stop(&mut hub, "dead", |_| *joined.borrow_mut() += 1));
    assert_eq!(*joined.borrow(), 1);
    assert!(!manager.is_running("dead", finished));
}

#[test]
fn a_resize_waits_until_it_settles() {
    let mut fixture = Fixture::new();
    fixture.pump(
        MediaCommand::Input {
            attachment_id: 1,
            input: MediaInput::ViewportResize { width: 800, height: 600 },
            queued_at_us: 0,
        },
        10,
    );
    let early = fixture.worker.end_iteration(&mut fixture.queue, 10, 10 + RESIZE_DEBOUNCE_US - 1);
    assert_eq!(early.resize, None);
    let settled = 10 + RESIZE_DEBOUNCE_US;
    let end = fixture.worker.end_iteration(&mut fixture.queue, settled, settled);
    assert_eq!(end.resize, Some((800, 600)));
    assert!(!end.report);
    assert!(matches!(
        fixture.queue.next(),
        NextCommand::Command(EncodeCommand::ForceKeyframeAll, false)
    ));
    let slow = fixture.worker.end_iteration(&mut fixture.queue, 0, LOOP_LAG_THRESHOLD_US);
    assert!(slow.report);
}

#[test]
fn input_for_the_scene_is_forwarded() {
    let mut fixture = Fixture::new();
    let action = fixture.phone(MediaInput::Scene { message: "key".into() });
    assert!(matches!(
        action,
        PumpAction::Forward { attachment_id: 1, message } if message == "key"
    ));
    let action = fixture.pump(MediaCommand::Disconnected { attachment_id: 4 }, 0);
    assert!(matches!(action, PumpAction::Disconnect { attachment_id: 4 }));
    fixture.phone(MediaInput::RequestKeyframe);
    assert!(matches!(
        fixture.queue.next(),
        NextCommand::Command(EncodeCommand::ForceKeyframeAll, _)
    ));
}

#[test]
fn a_bridge_runs_until_it_is_stopped_or_cut_off() {
    assert!(keeps_running(false, true));
    assert!(!keeps_running(true, true));
    assert!(!keeps_running(false, false));
}

#[test]
fn a_composed_picture_is_queued_for_its_window() {
    let worker = BridgeWorker::new(1024);
    let mut queue = EncodeQueue::new();
    worker.submit_composite(
        &mut queue,
        key(5),
        Frame { width: 1, height: 1, pixels: vec![1, 2, 3, 4] },
    );
    match queue.next() {
        NextCommand::Command(EncodeCommand::Frame { key: k, frame }, false) => {
            assert_eq!(k, key(5));
            assert_eq!((frame.width, frame.height), (2, 2), "the encoder needs even sizes");
        }
        _ => panic!("nothing was queued"),
    }
}
