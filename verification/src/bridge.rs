//! The session bridge: what the guest's scene, the guest's clipboard and the
//! clients' input mean for the encoder, the phone and the guest. One worker runs
//! per session; the manager knows which are running.

use vstd::prelude::*;

use crate::clipboard::{announced_types, ClipboardSync, GuestEvent, SyncAction};
use crate::encode::{EncodeCommand, EncodeQueue, SurfaceKey};
use crate::frame::{normalize_frame, Frame};
use crate::media::{MediaCommand, MediaHub, MediaInput, ServerMessage};
use crate::protocol::{BlobDescriptor, Session};
use crate::sorted_map::{Key, SortedMap};

verus! {

broadcast use vstd::string::group_string_axioms;

/// How long a viewport has to keep its size before the guest is told: a tenth of
/// a second.
pub const RESIZE_DEBOUNCE_US: u64 = 100_000;

/// An iteration of the loop, or a wait for it, that is worth reporting. It is
/// above the loop's own pace and well below the guest's key repeat delay.
pub const LOOP_LAG_THRESHOLD_US: u64 = 20_000;

/// A request of the guest that concerns its clipboard.
#[derive(Debug)]
pub enum GuestData {
    /// The guest set its selection.
    SelectionSet { mime_types: Vec<String> },
    /// The guest sent data of its selection.
    Transfer { bytes: Vec<u8> },
    /// A guest application pasted.
    TransferRequested { mime: String },
    /// Primary selection, drag and drop: nothing that is synchronised.
    Other,
}

/// What goes out to the guest.
#[derive(Debug, PartialEq, Eq)]
pub enum GuestSend {
    /// Ask for the selection in this type.
    AskFor { mime: String },
    /// Offer the phone's clipboard in these types.
    Offer { mime_types: Vec<String> },
    /// The data of a paste.
    Data { bytes: Vec<u8> },
}

/// `store` was given this image and answered `stored`.
pub open spec fn stored_as<S: FnOnce(&String, &Vec<u8>) -> Option<(BlobDescriptor, bool)>>(
    store: S,
    mime: Seq<char>,
    bytes: Vec<u8>,
    stored: Option<(BlobDescriptor, bool)>,
) -> bool {
    exists|m: String| m@ == mime && #[trigger] call_ensures(store, (&m, &bytes), stored)
}

/// What storing an image means for the clipboard.
pub open spec fn stored_event(stored: Option<(BlobDescriptor, bool)>) -> crate::clipboard::GuestSays {
    match stored {
        Some((blob, valid)) => crate::clipboard::GuestSays::Blob { blob: blob@, valid },
        None => crate::clipboard::GuestSays::BlobFailed,
    }
}

/// Storing this image gave this event.
pub open spec fn keeps<S: FnOnce(&String, &Vec<u8>) -> Option<(BlobDescriptor, bool)>>(
    store: S,
    mime: Seq<char>,
    bytes: Vec<u8>,
    event: crate::clipboard::GuestSays,
) -> bool {
    exists|stored: Option<(BlobDescriptor, bool)>| #[trigger]
        stored_as(store, mime, bytes, stored) && event == stored_event(stored)
}

/// An image is awaited, in this type.
pub open spec fn awaited_image(s: crate::clipboard::ClipboardState) -> Option<Seq<char>> {
    if s.awaiting == Some(crate::clipboard::AwaitingGuestTransfer::Blob) {
        s.pending_mime
    } else {
        None
    }
}

/// The clipboard event that a request of the guest stands for.
pub open spec fn means<S: FnOnce(&String, &Vec<u8>) -> Option<(BlobDescriptor, bool)>>(
    s: crate::clipboard::ClipboardState,
    request: GuestData,
    store: S,
    event: crate::clipboard::GuestSays,
) -> bool {
    match request {
        GuestData::SelectionSet { mime_types } => event == crate::clipboard::GuestSays::Offered(
            crate::text::texts(mime_types@),
        ),
        GuestData::Transfer { bytes } => match awaited_image(s) {
            Some(mime) => keeps(store, mime, bytes, event),
            None => event == crate::clipboard::GuestSays::Text(bytes@),
        },
        GuestData::TransferRequested { mime } => event == crate::clipboard::GuestSays::Pasted(mime@),
        GuestData::Other => false,
    }
}

/// `read` was given the blob and answered `content`.
pub open spec fn read_as<R: FnOnce(&BlobDescriptor) -> Option<Vec<u8>>>(
    read: R,
    blob: crate::protocol::Blob,
    content: Option<Vec<u8>>,
) -> bool {
    exists|b: BlobDescriptor| b@ == blob && #[trigger] call_ensures(read, (&b,), content)
}

/// `bytes` are the content of the blob, or nothing where there is none.
pub open spec fn is_content<R: FnOnce(&BlobDescriptor) -> Option<Vec<u8>>>(
    read: R,
    blob: crate::protocol::Blob,
    bytes: Seq<u8>,
) -> bool {
    exists|content: Option<Vec<u8>>| #[trigger]
        read_as(read, blob, content) && bytes == (match content {
            Some(content) => content@,
            None => Seq::empty(),
        })
}

/// Every client of the session was sent this text.
pub open spec fn text_messaged(
    hub: crate::media::Hub,
    session: Seq<char>,
    text: Seq<char>,
    after: crate::media::Hub,
) -> bool {
    exists|m: ServerMessage| #[trigger]
        messaged(hub, session, m, after) && m is Clipboard && m->text@ == text
}

/// Every client of the session was sent this blob.
pub open spec fn blob_messaged(
    hub: crate::media::Hub,
    session: Seq<char>,
    blob: crate::protocol::Blob,
    after: crate::media::Hub,
) -> bool {
    exists|m: ServerMessage| #[trigger]
        messaged(hub, session, m, after) && m is ClipboardBlob && m->blob@ == blob
}

/// `read` can be given the blob that the action answers with; no other action reads one.
pub open spec fn can_answer<R: FnOnce(&BlobDescriptor) -> Option<Vec<u8>>>(
    read: R,
    action: crate::clipboard::Action,
) -> bool {
    forall|blob: &BlobDescriptor|
        action == crate::clipboard::Action::AnswerGuestBlob(blob@) ==> #[trigger] call_requires(
            read,
            (blob,),
        )
}

/// `store` can be given the image that the request brings, if it brings an awaited one.
pub open spec fn can_keep<S: FnOnce(&String, &Vec<u8>) -> Option<(BlobDescriptor, bool)>>(
    store: S,
    s: crate::clipboard::ClipboardState,
    request: GuestData,
) -> bool {
    forall|mime: &String, bytes: &Vec<u8>|
        request == (GuestData::Transfer { bytes: *bytes }) && awaited_image(s) == Some(mime@)
            ==> #[trigger] call_requires(store, (mime, bytes))
}

/// What carrying out an action does: what goes to the guest, what goes to the
/// clients, and what becomes of the clipboard where nobody was reached.
pub open spec fn carried_out<R: FnOnce(&BlobDescriptor) -> Option<Vec<u8>>>(
    s: crate::clipboard::ClipboardState,
    hub: crate::media::Hub,
    session: Seq<char>,
    action: crate::clipboard::Action,
    read: R,
    send: Option<GuestSend>,
    clipboard: crate::clipboard::ClipboardState,
    after: crate::media::Hub,
) -> bool {
    match action {
        crate::clipboard::Action::Nothing => send is None && clipboard == s && after == hub,
        crate::clipboard::Action::AskGuestFor(mime) => {
            &&& send matches Some(GuestSend::AskFor { mime: m }) && m@ == mime
            &&& clipboard == s
            &&& after == hub
        },
        crate::clipboard::Action::PushToPhone(text) => {
            &&& send is None
            &&& clipboard == kept_echo(s, hub, session)
            &&& text_messaged(hub, session, text, after)
        },
        crate::clipboard::Action::PushBlobToPhone(blob) => {
            &&& send is None
            &&& clipboard == kept_echo(s, hub, session)
            &&& blob_messaged(hub, session, blob, after)
        },
        crate::clipboard::Action::OfferToGuest(mime_types) => {
            &&& send matches Some(GuestSend::Offer { mime_types: m }) && crate::text::texts(m@)
                == crate::clipboard::announced(mime_types)
            &&& clipboard == s
            &&& after == hub
        },
        crate::clipboard::Action::AnswerGuest(bytes) => {
            &&& send matches Some(GuestSend::Data { bytes: b }) && b@ == bytes
            &&& clipboard == s
            &&& after == hub
        },
        crate::clipboard::Action::AnswerGuestBlob(blob) => {
            &&& send matches Some(GuestSend::Data { bytes: b }) && is_content(read, blob, b@)
            &&& clipboard == s
            &&& after == hub
        },
    }
}

/// A push that reached nobody is not expected back.
pub open spec fn kept_echo(
    s: crate::clipboard::ClipboardState,
    hub: crate::media::Hub,
    session: Seq<char>,
) -> crate::clipboard::ClipboardState {
    if crate::media::watching(hub.clients, session) == 0 {
        crate::clipboard::without_phone_echo(s)
    } else {
        s
    }
}

/// Every client of the session got the message.
pub open spec fn messaged(
    hub: crate::media::Hub,
    session: Seq<char>,
    message: ServerMessage,
    after: crate::media::Hub,
) -> bool {
    after == (crate::media::Hub {
        clients: Seq::new(
            hub.clients.len(),
            |i: int| crate::media::informed(hub.clients[i], session, message),
        ),
        ..hub
    })
}

/// Carries out what the clipboard decided. Where a push reached no client, the
/// clipboard is told so: what nobody got cannot come back.
pub fn apply_sync_action<R: FnOnce(&BlobDescriptor) -> Option<Vec<u8>>>(
    clipboard: &mut ClipboardSync,
    hub: &mut MediaHub,
    session: &str,
    action: SyncAction,
    read: R,
) -> (r: Option<GuestSend>)
    requires
        old(hub).wf(),
        can_answer(read, action@),
    ensures
        final(hub).wf(),
        carried_out(
            old(clipboard)@,
            old(hub)@,
            session@,
            action@,
            read,
            r,
            final(clipboard)@,
            final(hub)@,
        ),
        action is AnswerGuest || action is AnswerGuestBlob ==> r is Some && r->0 is Data,
{
    match action {
        SyncAction::Nothing => None,
        SyncAction::AskGuestFor { mime } => Some(GuestSend::AskFor { mime }),
        SyncAction::PushToPhone { text } => {
            let message = ServerMessage::Clipboard { text };
            let reached: usize = hub.publish_message(session, &message);
            assert(messaged(old(hub)@, session@, message, hub@));
            if reached == 0 {
                clipboard.forget_phone_echo();
            }
            None
        },
        SyncAction::PushBlobToPhone { blob } => {
            let message = ServerMessage::ClipboardBlob { blob };
            let reached: usize = hub.publish_message(session, &message);
            assert(messaged(old(hub)@, session@, message, hub@));
            if reached == 0 {
                clipboard.forget_phone_echo();
            }
            None
        },
        SyncAction::OfferToGuest { mime_types } => Some(
            GuestSend::Offer { mime_types: announced_types(mime_types) },
        ),
        SyncAction::AnswerGuest { bytes } => Some(GuestSend::Data { bytes }),
        SyncAction::AnswerGuestBlob { blob } => {
            let content = read(&blob);
            assert(read_as(read, blob@, content));
            let bytes = match content {
                Some(bytes) => bytes,
                None => Vec::new(),
            };
            assert(is_content(read, blob@, bytes@));
            Some(GuestSend::Data { bytes })
        },
    }
}

/// Takes a request of the guest: translates it for the clipboard and carries out
/// what that decides. `store` keeps an image and gives back its descriptor, with
/// what the protocol's own validation says of it; `read` gives back an image.
/// A paste is answered whatever comes of the rest.
pub fn handle_guest_data<
    S: FnOnce(&String, &Vec<u8>) -> Option<(BlobDescriptor, bool)>,
    R: FnOnce(&BlobDescriptor) -> Option<Vec<u8>>,
>(
    clipboard: &mut ClipboardSync,
    hub: &mut MediaHub,
    session: &str,
    request: GuestData,
    store: S,
    read: R,
) -> (r: Option<GuestSend>)
    requires
        old(hub).wf(),
        can_keep(store, old(clipboard)@, request),
        forall|event: crate::clipboard::GuestSays| #[trigger]
            means(old(clipboard)@, request, store, event) ==> can_answer(
                read,
                crate::clipboard::after_guest(old(clipboard)@, event).1,
            ),
    ensures
        final(hub).wf(),
        request is Other ==> r is None && final(clipboard)@ == old(clipboard)@ && final(hub)@
            == old(hub)@,
        !(request is Other) ==> exists|event: crate::clipboard::GuestSays|
            {
                let (decided, action) = crate::clipboard::after_guest(old(clipboard)@, event);
                &&& #[trigger] means(old(clipboard)@, request, store, event)
                &&& carried_out(
                    decided,
                    old(hub)@,
                    session@,
                    action,
                    read,
                    r,
                    final(clipboard)@,
                    final(hub)@,
                )
            },
        request is TransferRequested ==> r is Some && r->0 is Data,
{
    let ghost before = clipboard@;
    let event = match request {
        GuestData::SelectionSet { mime_types } => GuestEvent::SelectionOffered { mime_types },
        GuestData::Transfer { bytes } => match clipboard.pending_guest_blob_mime() {
            Some(mime) => {
                let stored = store(&mime, &bytes);
                assert(stored_as(store, mime@, bytes, stored));
                let event = match stored {
                    Some((blob, valid)) => GuestEvent::TransferBlobFromGuest { blob, valid },
                    None => GuestEvent::TransferBlobFailed,
                };
                assert(keeps(store, mime@, bytes, event@));
                event
            },
            None => GuestEvent::TransferFromGuest { bytes },
        },
        GuestData::TransferRequested { mime } => GuestEvent::PasteRequested { mime },
        GuestData::Other => {
            return None;
        },
    };
    assert(means(before, request, store, event@));
    let action = clipboard.on_guest(event);
    apply_sync_action(clipboard, hub, session, action, read)
}

/// A message of the guest: a data request, or one that the scene applies.
#[derive(Debug)]
pub enum GuestMessage<M> {
    Data(GuestData),
    Scene(M),
}

/// The data requests of a batch, in their order.
pub open spec fn data_requests<M>(messages: Seq<GuestMessage<M>>) -> Seq<GuestData>
    decreases messages.len(),
{
    if messages.len() == 0 {
        Seq::empty()
    } else {
        match messages.last() {
            GuestMessage::Data(request) => data_requests(messages.drop_last()).push(request),
            GuestMessage::Scene(_) => data_requests(messages.drop_last()),
        }
    }
}

/// What is left of a batch for the scene, in its order.
pub open spec fn scene_messages<M>(messages: Seq<GuestMessage<M>>) -> Seq<M>
    decreases messages.len(),
{
    if messages.len() == 0 {
        Seq::empty()
    } else {
        match messages.last() {
            GuestMessage::Data(_) => scene_messages(messages.drop_last()),
            GuestMessage::Scene(message) => scene_messages(messages.drop_last()).push(message),
        }
    }
}

/// Takes the data requests out of a batch and leaves everything else to the scene.
/// The two have nothing to do with each other, so only the order among each of
/// them is kept.
pub fn take_clipboard_requests<M>(messages: Vec<GuestMessage<M>>) -> (r: (Vec<GuestData>, Vec<M>))
    ensures
        r.0@ == data_requests(messages@),
        r.1@ == scene_messages(messages@),
{
    let ghost all = messages@;
    let mut requests: Vec<GuestData> = Vec::new();
    let mut rest: Vec<M> = Vec::new();
    for message in it: messages
        invariant
            it.seq() == all,
            requests@ == data_requests(all.take(it.index())),
            rest@ == scene_messages(all.take(it.index())),
    {
        assert(all.take(it.index() + 1).drop_last() =~= all.take(it.index()));
        match message {
            GuestMessage::Data(request) => requests.push(request),
            GuestMessage::Scene(message) => rest.push(message),
        }
    }
    assert(all.take(all.len() as int) =~= all);
    (requests, rest)
}

/// Something that happened to the guest's surfaces.
#[derive(Clone, Copy, Debug, PartialEq, Eq, Structural)]
pub enum SceneEvent {
    /// A surface was committed; its pixels land in this window, if in any.
    SurfaceCommitted { toplevel: Option<SurfaceKey> },
    SurfaceDestroyed { key: SurfaceKey },
    ClientDisconnected { client_id: u64 },
    /// Nothing that changes a picture.
    Unrelated,
}

/// The windows that are to be composited, and the encoder's queue.
#[verifier::ext_equal]
pub struct SceneWork {
    pub composites: Set<SurfaceKey>,
    pub queue: crate::encode::Pending,
}

/// What one event leaves to be done. A commit only marks its window: however
/// many there are, it is composited once. What is owed to a surface that is gone
/// is dropped, and its stream ends.
pub open spec fn after_scene_event(work: SceneWork, event: SceneEvent) -> SceneWork {
    match event {
        SceneEvent::SurfaceCommitted { toplevel } => match toplevel {
            Some(key) => SceneWork { composites: work.composites.insert(key), ..work },
            None => work,
        },
        SceneEvent::SurfaceDestroyed { key } => SceneWork {
            composites: work.composites.remove(key),
            queue: crate::encode::submitted(work.queue, EncodeCommand::EndStream { key }),
        },
        SceneEvent::ClientDisconnected { client_id } => SceneWork {
            composites: work.composites.filter(|key: SurfaceKey| key.client_id != client_id),
            queue: crate::encode::submitted(work.queue, EncodeCommand::ClientGone { client_id }),
        },
        SceneEvent::Unrelated => work,
    }
}

pub open spec fn after_scene_events(work: SceneWork, events: Seq<SceneEvent>) -> SceneWork
    decreases events.len(),
{
    if events.len() == 0 {
        work
    } else {
        after_scene_event(after_scene_events(work, events.drop_last()), events.last())
    }
}

/// What one iteration of the loop did with input.
#[derive(Clone, Copy, Debug, PartialEq, Eq, Structural)]
pub struct InputStats {
    pub inputs: u32,
    /// The longest that an input waited before it was applied.
    pub worst_wait_us: u64,
}

/// A viewport size that was asked for.
#[derive(Clone, Copy, Debug, PartialEq, Eq, Structural)]
pub struct Resize {
    pub requested_us: u64,
    pub width: u32,
    pub height: u32,
}

/// The state of a worker.
#[verifier::ext_equal]
pub struct Worker {
    pub composites: Set<SurfaceKey>,
    pub clipboard: crate::clipboard::ClipboardState,
    pub resize: Option<Resize>,
    pub stats: InputStats,
}

pub open spec fn no_input() -> InputStats {
    InputStats { inputs: 0, worst_wait_us: 0 }
}

/// The statistics with one more input, queued at this time.
pub open spec fn counted(stats: InputStats, queued_at_us: u64, now_us: u64) -> InputStats {
    let wait = if now_us >= queued_at_us {
        (now_us - queued_at_us) as u64
    } else {
        0
    };
    InputStats {
        inputs: (stats.inputs + 1) as u32,
        worst_wait_us: if wait > stats.worst_wait_us {
            wait
        } else {
            stats.worst_wait_us
        },
    }
}

/// What is left to be done for a command of a client.
#[derive(Debug, PartialEq, Eq)]
pub enum PumpAction {
    Nothing,
    /// Send this to the guest.
    Send(GuestSend),
    /// Let the scene apply the input.
    Forward { attachment_id: u64, message: String },
    /// Release what the client held.
    Disconnect { attachment_id: u64 },
}

/// What the end of an iteration asks for.
#[derive(Clone, Copy, Debug, PartialEq, Eq)]
pub struct IterationEnd {
    /// Tell the guest about this viewport size.
    pub resize: Option<(u32, u32)>,
    /// The iteration, or a wait in it, was long enough to report.
    pub report: bool,
}

/// The part of a session's bridge that decides.
pub struct BridgeWorker {
    composites: SortedMap<SurfaceKey, ()>,
    clipboard: ClipboardSync,
    resize: Option<Resize>,
    stats: InputStats,
}

impl View for BridgeWorker {
    type V = Worker;

    closed spec fn view(&self) -> Worker {
        Worker {
            composites: self.composites@.dom(),
            clipboard: self.clipboard@,
            resize: self.resize,
            stats: self.stats,
        }
    }
}

/// `send` is what goes out to the guest with this action.
pub open spec fn sends(action: PumpAction, send: Option<GuestSend>) -> bool {
    match send {
        Some(send) => action == PumpAction::Send(send),
        None => action == PumpAction::Nothing,
    }
}

/// Carrying out `action` leaves the worker and the hub like this.
pub open spec fn synchronised<R: FnOnce(&BlobDescriptor) -> Option<Vec<u8>>>(
    decided: (crate::clipboard::ClipboardState, crate::clipboard::Action),
    hub: crate::media::Hub,
    session: Seq<char>,
    read: R,
    action: PumpAction,
    clipboard: crate::clipboard::ClipboardState,
    after: crate::media::Hub,
) -> bool {
    exists|send: Option<GuestSend>| #[trigger]
        sends(action, send) && carried_out(
            decided.0,
            hub,
            session,
            decided.1,
            read,
            send,
            clipboard,
            after,
        )
}

/// The protocol's own validation of the blob says this.
pub open spec fn judged<V: FnOnce(&BlobDescriptor) -> bool>(
    validate: V,
    blob: BlobDescriptor,
    valid: bool,
) -> bool {
    call_ensures(validate, (&blob,), valid)
}

/// The command sets this blob as the clipboard.
pub open spec fn brings_blob(command: MediaCommand, blob: BlobDescriptor) -> bool {
    command matches MediaCommand::Input { input, .. } && input == (
    MediaInput::SetClipboardBlob { blob })
}

/// A blob from the phone was taken like this.
pub open spec fn phone_blob_taken<
    V: FnOnce(&BlobDescriptor) -> bool,
    R: FnOnce(&BlobDescriptor) -> Option<Vec<u8>>,
>(
    s: crate::clipboard::ClipboardState,
    blob: BlobDescriptor,
    validate: V,
    hub: crate::media::Hub,
    session: Seq<char>,
    read: R,
    action: PumpAction,
    clipboard: crate::clipboard::ClipboardState,
    after: crate::media::Hub,
) -> bool {
    exists|valid: bool| #[trigger]
        judged(validate, blob, valid) && synchronised(
            crate::clipboard::after_phone_blob(s, blob@, valid),
            hub,
            session,
            read,
            action,
            clipboard,
            after,
        )
}

/// A command of a client was taken like this: `r` is left to be done, and the worker,
/// the hub and the encoder's queue are as they are now.
pub open spec fn pumped<
    V: FnOnce(&BlobDescriptor) -> bool,
    R: FnOnce(&BlobDescriptor) -> Option<Vec<u8>>,
>(
    worker: Worker,
    hub: crate::media::Hub,
    queue: crate::encode::Pending,
    session: Seq<char>,
    command: MediaCommand,
    now_us: u64,
    validate: V,
    read: R,
    r: PumpAction,
    after: Worker,
    hub_after: crate::media::Hub,
    queue_after: crate::encode::Pending,
) -> bool {
    match command {
        MediaCommand::Disconnected { attachment_id } => {
            &&& r == PumpAction::Disconnect { attachment_id }
            &&& after == worker
            &&& hub_after == hub
            &&& queue_after == queue
        },
        MediaCommand::Input { attachment_id, input, queued_at_us } => {
            let next = Worker { stats: counted(worker.stats, queued_at_us, now_us), ..worker };
            match input {
                MediaInput::ViewportResize { width, height } => {
                    &&& r == PumpAction::Nothing
                    &&& after == (Worker {
                        resize: Some(Resize { requested_us: now_us, width, height }),
                        ..next
                    })
                    &&& hub_after == hub
                    &&& queue_after == queue
                },
                MediaInput::RequestKeyframe => {
                    &&& r == PumpAction::Nothing
                    &&& after == next
                    &&& hub_after == hub
                    &&& queue_after == crate::encode::submitted(
                        queue,
                        EncodeCommand::ForceKeyframeAll,
                    )
                },
                MediaInput::SetClipboard { text } => {
                    &&& after == (Worker { clipboard: after.clipboard, ..next })
                    &&& queue_after == queue
                    &&& synchronised(
                        crate::clipboard::after_phone_text(next.clipboard, text@),
                        hub,
                        session,
                        read,
                        r,
                        after.clipboard,
                        hub_after,
                    )
                },
                MediaInput::SetClipboardBlob { blob } => {
                    &&& after == (Worker { clipboard: after.clipboard, ..next })
                    &&& queue_after == queue
                    &&& phone_blob_taken(
                        next.clipboard,
                        blob,
                        validate,
                        hub,
                        session,
                        read,
                        r,
                        after.clipboard,
                        hub_after,
                    )
                },
                MediaInput::Scene { message } => {
                    &&& r == PumpAction::Forward { attachment_id, message }
                    &&& after == next
                    &&& hub_after == hub
                    &&& queue_after == queue
                },
            }
        },
    }
}

/// An iteration of the loop ended like this.
pub open spec fn iteration_ended(
    worker: Worker,
    queue: crate::encode::Pending,
    started_us: u64,
    now_us: u64,
    r: IterationEnd,
    after: Worker,
    queue_after: crate::encode::Pending,
) -> bool {
    let due = worker.resize is Some && now_us - worker.resize->0.requested_us
        >= RESIZE_DEBOUNCE_US;
    &&& r.resize == (if due {
        Some((worker.resize->0.width, worker.resize->0.height))
    } else {
        None
    })
    &&& r.report == (now_us - started_us >= LOOP_LAG_THRESHOLD_US || worker.stats.worst_wait_us
        >= LOOP_LAG_THRESHOLD_US)
    &&& after == (Worker {
        resize: if due {
            None
        } else {
            worker.resize
        },
        stats: no_input(),
        ..worker
    })
    &&& queue_after == (if due {
        crate::encode::submitted(queue, EncodeCommand::ForceKeyframeAll)
    } else {
        queue
    })
}

impl BridgeWorker {
    pub closed spec fn wf(&self) -> bool {
        self.composites.wf()
    }

    /// A worker for a session that has seen nothing. A guest text of more than
    /// `max_text_bytes` bytes is not passed on.
    pub fn new(max_text_bytes: usize) -> (r: Self)
        ensures
            r.wf(),
            r@ == (Worker {
                composites: Set::empty(),
                clipboard: crate::clipboard::fresh(max_text_bytes as nat),
                resize: None,
                stats: no_input(),
            }),
    {
        let r = BridgeWorker {
            composites: SortedMap::new(),
            clipboard: ClipboardSync::new(max_text_bytes),
            resize: None,
            stats: InputStats { inputs: 0, worst_wait_us: 0 },
        };
        assert(r@.composites =~= Set::<SurfaceKey>::empty());
        r
    }

    /// Drops what is owed to the windows of a client.
    fn forget_client(&mut self, client_id: u64)
        requires
            old(self).wf(),
        ensures
            final(self).wf(),
            final(self)@ == (Worker {
                composites: old(self)@.composites.filter(
                    |key: SurfaceKey| key.client_id != client_id,
                ),
                ..old(self)@
            }),
    {
        let ghost before = self.composites@.dom();
        let mut i: usize = 0;
        proof {
            self.composites.lemma_rows();
        }
        while i < self.composites.len()
            invariant
                i <= self.composites.rows().len(),
                self.composites.wf(),
                before == old(self).composites@.dom(),
                self.clipboard == old(self).clipboard,
                self.resize == old(self).resize,
                self.stats == old(self).stats,
                forall|j: int|
                    0 <= j < i ==> (#[trigger] self.composites.rows()[j]).0.client_id != client_id,
                forall|key: SurfaceKey|
                    self.composites@.dom().contains(key) ==> before.contains(key),
                forall|key: SurfaceKey|
                    before.contains(key) && key.client_id != client_id
                        ==> self.composites@.dom().contains(key),
            decreases self.composites.rows().len() - i,
        {
            let key = *self.composites.key_at(i);
            if key.client_id == client_id {
                let _ = self.composites.remove_at(i);
            } else {
                i += 1;
            }
        }
        proof {
            self.composites.lemma_rows();
            let after = self.composites@.dom();
            assert forall|key: SurfaceKey| after.contains(key) implies key.client_id
                != client_id by {
                let j = choose|j: int|
                    crate::sorted_map::row_has(self.composites.rows(), j, key);
                assert(crate::sorted_map::row_has(self.composites.rows(), j, key));
            }
            assert(after =~= before.filter(|key: SurfaceKey| key.client_id != client_id));
        }
    }

    /// Takes a batch of scene events: marks the windows to be composited, and
    /// ends the streams of what is gone.
    pub fn handle_scene_events(&mut self, queue: &mut EncodeQueue, events: &Vec<SceneEvent>)
        requires
            old(self).wf(),
            old(queue).wf(),
        ensures
            final(self).wf(),
            final(queue).wf(),
            ({
                let work = after_scene_events(
                    SceneWork { composites: old(self)@.composites, queue: old(queue)@ },
                    events@,
                );
                &&& final(self)@ == (Worker { composites: work.composites, ..old(self)@ })
                &&& final(queue)@ == work.queue
            }),
    {
        let ghost start = SceneWork { composites: self@.composites, queue: queue@ };
        let mut i: usize = 0;
        assert(events@.take(0) =~= Seq::<SceneEvent>::empty());
        while i < events.len()
            invariant
                i <= events@.len(),
                self.wf(),
                queue.wf(),
                start == (SceneWork { composites: old(self)@.composites, queue: old(queue)@ }),
                self@ == (Worker {
                    composites: after_scene_events(start, events@.take(i as int)).composites,
                    ..old(self)@
                }),
                queue@ == after_scene_events(start, events@.take(i as int)).queue,
            decreases events@.len() - i,
        {
            let ghost before = self@.composites;
            assert(events@.take(i as int + 1).drop_last() =~= events@.take(i as int));
            match events[i] {
                SceneEvent::SurfaceCommitted { toplevel } => match toplevel {
                    Some(key) => {
                        let _ = self.composites.insert(key, ());
                        assert(self@.composites =~= before.insert(key));
                    },
                    None => {},
                },
                SceneEvent::SurfaceDestroyed { key } => {
                    let _ = self.composites.remove(&key);
                    assert(self@.composites =~= before.remove(key));
                    queue.submit(EncodeCommand::EndStream { key });
                },
                SceneEvent::ClientDisconnected { client_id } => {
                    self.forget_client(client_id);
                    queue.submit(EncodeCommand::ClientGone { client_id });
                },
                SceneEvent::Unrelated => {},
            }
            i += 1;
        }
        assert(events@.take(events@.len() as int) =~= events@);
    }

    /// Hands out the windows to be composited, in the order of their keys, each
    /// once.
    pub fn take_composites(&mut self) -> (r: Vec<SurfaceKey>)
        requires
            old(self).wf(),
        ensures
            final(self).wf(),
            final(self)@ == (Worker { composites: Set::empty(), ..old(self)@ }),
            forall|i: int, j: int|
                0 <= i < j < r@.len() ==> SurfaceKey::precedes(#[trigger] r@[i], #[trigger] r@[j]),
            forall|key: SurfaceKey| #[trigger]
                r@.contains(key) <==> old(self)@.composites.contains(key),
    {
        proof {
            self.composites.lemma_rows();
        }
        let ghost rows = self.composites.rows();
        let mut keys: Vec<SurfaceKey> = Vec::new();
        let mut i: usize = 0;
        while i < self.composites.len()
            invariant
                i <= rows.len(),
                rows == self.composites.rows(),
                keys@.len() == i,
                forall|j: int| 0 <= j < i ==> #[trigger] keys@[j] == rows[j].0,
                *self == *old(self),
            decreases rows.len() - i,
        {
            keys.push(*self.composites.key_at(i));
            i += 1;
        }
        proof {
            assert forall|a: int, b: int| 0 <= a < b < keys@.len() implies SurfaceKey::precedes(
                #[trigger] keys@[a],
                #[trigger] keys@[b],
            ) by {
                let _ = (rows[a], rows[b]);
            }
            assert forall|key: SurfaceKey| #[trigger] keys@.contains(key) <==> old(
                self)@.composites.contains(key) by {
                if keys@.contains(key) {
                    let a = keys@.index_of(key);
                    assert(rows[a].0 == key);
                    assert(self.composites@.dom().contains(rows[a].0.repr()));
                }
                if old(self)@.composites.contains(key) {
                    let a = choose|a: int| crate::sorted_map::row_has(rows, a, key);
                    assert(crate::sorted_map::row_has(rows, a, key));
                    assert(keys@[a] == key);
                }
            }
        }
        self.composites = SortedMap::new();
        assert(self@.composites =~= Set::<SurfaceKey>::empty());
        keys
    }

    /// Hands a composited window to the encoder.
    pub fn submit_composite(&self, queue: &mut EncodeQueue, key: SurfaceKey, frame: Frame)
        requires
            old(queue).wf(),
            crate::frame::can_be_evened(frame),
        ensures
            final(queue).wf(),
            exists|even: Frame| #[trigger]
                crate::frame::normalized(frame, even) && final(queue)@ == crate::encode::submitted(
                    old(queue)@,
                    EncodeCommand::Frame { key, frame: even },
                ),
    {
        let even = normalize_frame(frame);
        queue.submit(EncodeCommand::Frame { key, frame: even });
        assert(crate::frame::normalized(frame, even));
    }

    /// Takes a request of the guest that concerns the clipboard.
    pub fn handle_guest_data<
        S: FnOnce(&String, &Vec<u8>) -> Option<(BlobDescriptor, bool)>,
        R: FnOnce(&BlobDescriptor) -> Option<Vec<u8>>,
    >(&mut self, hub: &mut MediaHub, session: &str, request: GuestData, store: S, read: R) -> (r:
        Option<GuestSend>)
        requires
            old(self).wf(),
            old(hub).wf(),
            can_keep(store, old(self)@.clipboard, request),
            forall|event: crate::clipboard::GuestSays| #[trigger]
                means(old(self)@.clipboard, request, store, event) ==> can_answer(
                    read,
                    crate::clipboard::after_guest(old(self)@.clipboard, event).1,
                ),
        ensures
            final(self).wf(),
            final(hub).wf(),
            final(self)@ == (Worker { clipboard: final(self)@.clipboard, ..old(self)@ }),
            request is Other ==> r is None && final(self)@ == old(self)@ && final(hub)@ == old(
                hub)@,
            !(request is Other) ==> exists|event: crate::clipboard::GuestSays|
                {
                    let (decided, action) = crate::clipboard::after_guest(
                        old(self)@.clipboard,
                        event,
                    );
                    &&& #[trigger] means(old(self)@.clipboard, request, store, event)
                    &&& carried_out(
                        decided,
                        old(hub)@,
                        session@,
                        action,
                        read,
                        r,
                        final(self)@.clipboard,
                        final(hub)@,
                    )
                },
            request is TransferRequested ==> r is Some && r->0 is Data,
    {
        handle_guest_data(&mut self.clipboard, hub, session, request, store, read)
    }

    /// Takes one command of a client. Resizes wait until they settle; a
    /// keyframe is asked of every stream; clipboard values are synchronised;
    /// everything else is the scene's.
    pub fn pump_command<
        V: FnOnce(&BlobDescriptor) -> bool,
        R: FnOnce(&BlobDescriptor) -> Option<Vec<u8>>,
    >(
        &mut self,
        hub: &mut MediaHub,
        queue: &mut EncodeQueue,
        session: &str,
        command: MediaCommand,
        now_us: u64,
        validate: V,
        read: R,
    ) -> (r: PumpAction)
        requires
            old(self).wf(),
            old(hub).wf(),
            old(queue).wf(),
            old(self)@.stats.inputs < u32::MAX,
            forall|blob: &BlobDescriptor|
                brings_blob(command, *blob) ==> #[trigger] call_requires(validate, (blob,)),
        ensures
            final(self).wf(),
            final(hub).wf(),
            final(queue).wf(),
            pumped(
                old(self)@,
                old(hub)@,
                old(queue)@,
                session@,
                command,
                now_us,
                validate,
                read,
                r,
                final(self)@,
                final(hub)@,
                final(queue)@,
            ),
    {
        match command {
            MediaCommand::Disconnected { attachment_id } => PumpAction::Disconnect { attachment_id },
            MediaCommand::Input { attachment_id, input, queued_at_us } => {
                let wait: u64 = now_us.saturating_sub(queued_at_us);
                self.stats.inputs = self.stats.inputs + 1;
                if wait > self.stats.worst_wait_us {
                    self.stats.worst_wait_us = wait;
                }
                match input {
                    MediaInput::ViewportResize { width, height } => {
                        self.resize = Some(Resize { requested_us: now_us, width, height });
                        PumpAction::Nothing
                    },
                    MediaInput::RequestKeyframe => {
                        queue.submit(EncodeCommand::ForceKeyframeAll);
                        PumpAction::Nothing
                    },
                    MediaInput::SetClipboard { text } => {
                        let action = self.clipboard.on_phone_clipboard(text);
                        let send = apply_sync_action(
                            &mut self.clipboard,
                            hub,
                            session,
                            action,
                            read,
                        );
                        BridgeWorker::as_action(send)
                    },
                    MediaInput::SetClipboardBlob { blob } => {
                        let valid: bool = validate(&blob);
                        assert(judged(validate, blob, valid));
                        let action = self.clipboard.on_phone_blob(blob, valid);
                        let send = apply_sync_action(
                            &mut self.clipboard,
                            hub,
                            session,
                            action,
                            read,
                        );
                        BridgeWorker::as_action(send)
                    },
                    MediaInput::Scene { message } => PumpAction::Forward { attachment_id, message },
                }
            },
        }
    }

    fn as_action(send: Option<GuestSend>) -> (r: PumpAction)
        ensures
            sends(r, send),
    {
        match send {
            Some(send) => PumpAction::Send(send),
            None => PumpAction::Nothing,
        }
    }

    /// Hands out the images that newer clipboard values displaced.
    pub fn take_retired_blobs(&mut self) -> (r: Vec<BlobDescriptor>)
        requires
            old(self).wf(),
        ensures
            final(self).wf(),
            Seq::new(r@.len(), |i: int| r@[i]@) == old(self)@.clipboard.retired,
            final(self)@ == (Worker {
                clipboard: crate::clipboard::ClipboardState {
                    retired: Seq::empty(),
                    ..old(self)@.clipboard
                },
                ..old(self)@
            }),
    {
        self.clipboard.take_retired_blobs()
    }

    /// Ends an iteration of the loop that started at `started_us`. A viewport
    /// size that has settled is passed on, and every stream starts over with it.
    pub fn end_iteration(&mut self, queue: &mut EncodeQueue, started_us: u64, now_us: u64) -> (r:
        IterationEnd)
        requires
            old(self).wf(),
            old(queue).wf(),
        ensures
            final(self).wf(),
            final(queue).wf(),
            iteration_ended(
                old(self)@,
                old(queue)@,
                started_us,
                now_us,
                r,
                final(self)@,
                final(queue)@,
            ),
    {
        let mut settled: Option<(u32, u32)> = None;
        match self.resize {
            Some(resize) => {
                if now_us >= resize.requested_us && now_us - resize.requested_us
                    >= RESIZE_DEBOUNCE_US {
                    settled = Some((resize.width, resize.height));
                    queue.submit(EncodeCommand::ForceKeyframeAll);
                    self.resize = None;
                }
            },
            None => {},
        }
        let slow: bool = now_us >= started_us && now_us - started_us >= LOOP_LAG_THRESHOLD_US;
        let report: bool = slow || self.stats.worst_wait_us >= LOOP_LAG_THRESHOLD_US;
        self.stats = InputStats { inputs: 0, worst_wait_us: 0 };
        IterationEnd { resize: settled, report }
    }
}

/// A batch of work that input is served in between of: messages to apply, or
/// windows to compose. Every unit may take long, so an input waits for one of them
/// at most.
#[derive(Clone, Copy, Debug, PartialEq, Eq, Structural)]
pub struct PumpedBatch {
    total: usize,
    worked: usize,
    pumped: usize,
}

/// What a batch does next.
#[derive(Clone, Copy, Debug, PartialEq, Eq, Structural)]
pub enum BatchStep {
    /// Do this unit of the work, whether or not it succeeds.
    Work { index: usize },
    /// Serve the input that is waiting.
    Pump,
    Done,
}

/// How far a batch has come.
#[verifier::ext_equal]
pub struct Batch {
    pub total: nat,
    pub worked: nat,
    pub pumped: nat,
}

/// The next step of a batch, and how far it has come then.
pub open spec fn batch_step(batch: Batch) -> (BatchStep, Batch) {
    if batch.pumped < batch.worked {
        (BatchStep::Pump, Batch { pumped: batch.pumped + 1, ..batch })
    } else if batch.worked < batch.total {
        (
            BatchStep::Work { index: batch.worked as usize },
            Batch { worked: batch.worked + 1, ..batch },
        )
    } else {
        (BatchStep::Done, batch)
    }
}

impl View for PumpedBatch {
    type V = Batch;

    closed spec fn view(&self) -> Batch {
        Batch {
            total: self.total as nat,
            worked: self.worked as nat,
            pumped: self.pumped as nat,
        }
    }
}

impl PumpedBatch {
    pub closed spec fn wf(&self) -> bool {
        self.pumped <= self.worked <= self.total
    }

    /// A batch of so many units.
    pub fn new(total: usize) -> (r: Self)
        ensures
            r.wf(),
            r@ == (Batch { total: total as nat, worked: 0, pumped: 0 }),
    {
        PumpedBatch { total, worked: 0, pumped: 0 }
    }

    pub fn next(&mut self) -> (r: BatchStep)
        requires
            old(self).wf(),
        ensures
            final(self).wf(),
            (r, final(self)@) == batch_step(old(self)@),
    {
        if self.pumped < self.worked {
            self.pumped = self.pumped + 1;
            BatchStep::Pump
        } else if self.worked < self.total {
            let index = self.worked;
            self.worked = index + 1;
            BatchStep::Work { index }
        } else {
            BatchStep::Done
        }
    }
}

/// Input is served right after every unit of work, the last one too.
pub proof fn law_input_waits_for_one_unit_at_most(batch: Batch)
    requires
        batch.pumped == batch.worked,
        batch.worked < batch.total,
    ensures
        batch_step(batch).0 is Work,
        batch_step(batch_step(batch).1).0 == BatchStep::Pump,
        ({
            let after = batch_step(batch_step(batch).1).1;
            after.pumped == after.worked && after.worked == batch.worked + 1
        }),
{
}


/// One pass of the loop over what the guest sent: the data requests first, then
/// the messages of the scene, then a picture of every window that is owed one, and
/// input after each unit of that and once more at the end.
#[derive(Clone, Copy, Debug, PartialEq, Eq, Structural)]
pub struct LoopPass {
    requests: usize,
    served: usize,
    messages: PumpedBatch,
    windows: Option<PumpedBatch>,
    pumped_last: bool,
}

/// What a pass does next.
#[derive(Clone, Copy, Debug, PartialEq, Eq, Structural)]
pub enum PassStep {
    /// Serve this data request.
    Serve { index: usize },
    /// Let the scene apply this message.
    Apply { index: usize },
    /// Take the windows that are owed a picture, and say how many there are.
    Collect,
    /// Compose the picture of this window.
    Compose { index: usize },
    /// Serve the input that is waiting.
    Pump,
    /// The pass is over.
    End,
}

/// How far a pass has come.
#[verifier::ext_equal]
pub struct Pass {
    pub requests: nat,
    pub served: nat,
    pub messages: Batch,
    /// Once it is known which windows are owed a picture.
    pub windows: Option<Batch>,
    pub pumped_last: bool,
}

/// Whether everything of a batch is done, and input served after it.
pub open spec fn is_done(batch: Batch) -> bool {
    batch_step(batch).0 == BatchStep::Done
}

/// The next step of a pass, and how far it has come then.
pub open spec fn pass_step(pass: Pass) -> (PassStep, Pass) {
    if pass.served < pass.requests {
        (
            PassStep::Serve { index: pass.served as usize },
            Pass { served: pass.served + 1, ..pass },
        )
    } else if !is_done(pass.messages) {
        let (step, messages) = batch_step(pass.messages);
        (
            match step {
                BatchStep::Work { index } => PassStep::Apply { index },
                _ => PassStep::Pump,
            },
            Pass { messages, ..pass },
        )
    } else {
        match pass.windows {
            None => (PassStep::Collect, pass),
            Some(windows) => if !is_done(windows) {
                let (step, windows) = batch_step(windows);
                (
                    match step {
                        BatchStep::Work { index } => PassStep::Compose { index },
                        _ => PassStep::Pump,
                    },
                    Pass { windows: Some(windows), ..pass },
                )
            } else if !pass.pumped_last {
                (PassStep::Pump, Pass { pumped_last: true, ..pass })
            } else {
                (PassStep::End, pass)
            },
        }
    }
}

impl View for LoopPass {
    type V = Pass;

    closed spec fn view(&self) -> Pass {
        Pass {
            requests: self.requests as nat,
            served: self.served as nat,
            messages: self.messages@,
            windows: match self.windows {
                Some(windows) => Some(windows@),
                None => None,
            },
            pumped_last: self.pumped_last,
        }
    }
}

impl LoopPass {
    pub closed spec fn wf(&self) -> bool {
        &&& self.served <= self.requests
        &&& self.messages.wf()
        &&& self.windows is Some ==> self.windows->0.wf()
    }

    /// A pass over so many data requests and messages.
    pub fn new(requests: usize, messages: usize) -> (r: Self)
        ensures
            r.wf(),
            r@ == (Pass {
                requests: requests as nat,
                served: 0,
                messages: Batch { total: messages as nat, worked: 0, pumped: 0 },
                windows: None,
                pumped_last: false,
            }),
    {
        LoopPass {
            requests,
            served: 0,
            messages: PumpedBatch::new(messages),
            windows: None,
            pumped_last: false,
        }
    }

    /// So many windows are owed a picture.
    pub fn collected(&mut self, windows: usize)
        requires
            old(self).wf(),
        ensures
            final(self).wf(),
            final(self)@ == (Pass {
                windows: Some(Batch { total: windows as nat, worked: 0, pumped: 0 }),
                ..old(self)@
            }),
    {
        self.windows = Some(PumpedBatch::new(windows));
    }

    pub fn next(&mut self) -> (r: PassStep)
        requires
            old(self).wf(),
        ensures
            final(self).wf(),
            (r, final(self)@) == pass_step(old(self)@),
    {
        if self.served < self.requests {
            let index = self.served;
            self.served = index + 1;
            return PassStep::Serve { index };
        }
        match self.messages.next() {
            BatchStep::Work { index } => {
                return PassStep::Apply { index };
            },
            BatchStep::Pump => {
                return PassStep::Pump;
            },
            BatchStep::Done => {},
        }
        let mut windows = match self.windows {
            None => {
                return PassStep::Collect;
            },
            Some(windows) => windows,
        };
        let step = windows.next();
        self.windows = Some(windows);
        match step {
            BatchStep::Work { index } => PassStep::Compose { index },
            BatchStep::Pump => PassStep::Pump,
            BatchStep::Done => if !self.pumped_last {
                self.pumped_last = true;
                PassStep::Pump
            } else {
                PassStep::End
            },
        }
    }
}

/// A picture is composed only after every message was applied and every data
/// request served, so a window is composed once however often it was painted; and
/// input is served once more after everything else.
pub proof fn law_pictures_follow_the_messages(pass: Pass)
    ensures
        pass_step(pass).0 is Compose ==> pass.served >= pass.requests && is_done(pass.messages),
        pass_step(pass).0 == PassStep::End ==> {
            &&& pass.served >= pass.requests
            &&& is_done(pass.messages)
            &&& pass.windows is Some
            &&& is_done(pass.windows->0)
            &&& pass.pumped_last
        },
{
}


/// Whether the loop goes on: until it is told to stop or the guest is gone.
pub fn keeps_running(stop: bool, connected: bool) -> (r: bool)
    ensures
        r == (!stop && connected),
{
    !stop && connected
}

/// Nothing of a destroyed surface is left to be done: no composite is owed to it
/// and no frame of it is queued; the same goes for the surfaces of a client that
/// disconnected. What other surfaces are owed stays.
pub proof fn law_destroyed_surface_is_dropped(
    work: SceneWork,
    key: SurfaceKey,
    client_id: u64,
    other: SurfaceKey,
)
    requires
        crate::encode::pending_ok(work.queue),
    ensures
        ({
            let after = after_scene_event(work, SceneEvent::SurfaceDestroyed { key });
            &&& !after.composites.contains(key)
            &&& !crate::encode::has_frame(after.queue.queue, key)
            &&& other != key ==> after.composites.contains(other) == work.composites.contains(other)
        }),
        ({
            let after = after_scene_event(work, SceneEvent::ClientDisconnected { client_id });
            &&& other.client_id == client_id ==> !after.composites.contains(other)
                && !crate::encode::has_frame(after.queue.queue, other)
            &&& other.client_id != client_id ==> after.composites.contains(other)
                == work.composites.contains(other)
        }),
{
    crate::encode::law_queue_stays_in_order(work.queue, EncodeCommand::EndStream { key });
    crate::encode::law_queue_stays_in_order(work.queue, EncodeCommand::ClientGone { client_id });
}

/// However often a window is committed in a batch, it is composited once: more
/// commits of a marked window change nothing.
pub proof fn law_commits_coalesce(work: SceneWork, key: SurfaceKey)
    ensures
        ({
            let commit = SceneEvent::SurfaceCommitted { toplevel: Some(key) };
            let once = after_scene_event(work, commit);
            &&& once.composites.contains(key)
            &&& once.queue == work.queue
            &&& after_scene_event(once, commit) == once
        }),
{
    let commit = SceneEvent::SurfaceCommitted { toplevel: Some(key) };
    let once = after_scene_event(work, commit);
    assert(once.composites.insert(key) =~= once.composites);
}

/// The workers that are still at it, as far as `finished` says.
pub open spec fn reaped<H, F: Fn(&H) -> bool>(
    finished: F,
    before: Map<Seq<char>, H>,
    after: Map<Seq<char>, H>,
) -> bool {
    &&& forall|name: Seq<char>| #[trigger]
        after.dom().contains(name) ==> before.dom().contains(name) && after[name] == before[name]
    &&& forall|name: Seq<char>| #[trigger]
        before.dom().contains(name) ==> if after.dom().contains(name) {
            call_ensures(finished, (&before[name],), false)
        } else {
            call_ensures(finished, (&before[name],), true)
        }
}

/// The bridge workers by session; a handle `H` stands for a running worker.
pub struct BridgeManager<H> {
    workers: SortedMap<String, H>,
}

impl<H> View for BridgeManager<H> {
    type V = Map<Seq<char>, H>;

    closed spec fn view(&self) -> Map<Seq<char>, H> {
        self.workers@
    }
}

/// Starting a worker ended like this.
pub open spec fn started<H, S: FnOnce(&Session) -> Result<H, String>>(
    workers: Map<Seq<char>, H>,
    hub: crate::media::Hub,
    session: Session,
    spawn: S,
    r: Result<(), String>,
    after: Map<Seq<char>, H>,
    hub_after: crate::media::Hub,
) -> bool {
    let registered = crate::media::Hub {
        sessions: hub.sessions.insert(session.name@, Map::empty()),
        clients: crate::media::all_orphaned(hub.clients, session.name@),
        ..hub
    };
    if workers.dom().contains(session.name@) {
        r is Ok && after == workers && hub_after == hub
    } else {
        &&& hub_after == registered
        &&& match r {
            Ok(()) => {
                &&& after == workers.insert(session.name@, after[session.name@])
                &&& call_ensures(spawn, (&session,), Ok(after[session.name@]))
            },
            Err(reason) => call_ensures(spawn, (&session,), Err(reason)) && after == workers,
        }
    }
}

impl<H> BridgeManager<H> {
    pub closed spec fn wf(&self) -> bool {
        self.workers.wf()
    }

    pub fn new() -> (r: Self)
        ensures
            r.wf(),
            r@ == Map::<Seq<char>, H>::empty(),
    {
        BridgeManager { workers: SortedMap::new() }
    }

    /// Forgets the workers that have exited.
    fn reap<F: Fn(&H) -> bool>(&mut self, finished: &F)
        requires
            old(self).wf(),
            forall|handle: &H| call_requires(*finished, (handle,)),
        ensures
            final(self).wf(),
            reaped(*finished, old(self)@, final(self)@),
    {
        proof {
            self.workers.lemma_rows();
        }
        let ghost all = self.workers@;
        let mut i: usize = 0;
        while i < self.workers.len()
            invariant
                i <= self.workers.rows().len(),
                self.workers.wf(),
                all == old(self)@,
                forall|handle: &H| call_requires(*finished, (handle,)),
                forall|name: Seq<char>| #[trigger]
                    self.workers@.dom().contains(name) ==> all.dom().contains(name)
                        && self.workers@[name] == all[name],
                forall|j: int|
                    0 <= j < i ==> call_ensures(
                        *finished,
                        (&(#[trigger] self.workers.rows()[j]).1,),
                        false,
                    ),
                forall|name: Seq<char>| #[trigger]
                    all.dom().contains(name) && !self.workers@.dom().contains(name)
                        ==> call_ensures(*finished, (&all[name],), true),
            decreases self.workers.rows().len() - i,
        {
            proof {
                self.workers.lemma_rows();
                let _ = self.workers.rows()[i as int];
            }
            let over: bool = finished(self.workers.value_at(i));
            if over {
                let ghost row = self.workers.rows()[i as int];
                let ghost before = self.workers@;
                let _ = self.workers.remove_at(i);
                proof {
                    assert(before.dom().contains(row.0@));
                    assert(before[row.0@] == row.1);
                    assert(all[row.0@] == row.1);
                }
            } else {
                i += 1;
            }
        }
        proof {
            self.workers.lemma_rows();
            assert forall|name: Seq<char>| #[trigger] all.dom().contains(name) implies if self@.dom().contains(
                name,
            ) {
                call_ensures(*finished, (&all[name],), false)
            } else {
                call_ensures(*finished, (&all[name],), true)
            } by {
                if self@.dom().contains(name) {
                    let j = choose|j: int|
                        crate::sorted_map::row_has(self.workers.rows(), j, name);
                    assert(crate::sorted_map::row_has(self.workers.rows(), j, name));
                    let row = self.workers.rows()[j];
                    assert(self@[name] == row.1);
                }
            }
        }
    }

    /// Starts the worker of a session, unless one is running. A worker that has
    /// exited by itself does not count.
    pub fn start<F: Fn(&H) -> bool, S: FnOnce(&Session) -> Result<H, String>>(
        &mut self,
        hub: &mut MediaHub,
        session: &Session,
        finished: F,
        spawn: S,
    ) -> (r: Result<(), String>)
        requires
            old(self).wf(),
            old(hub).wf(),
            forall|handle: &H| call_requires(finished, (handle,)),
            forall|alive: Map<Seq<char>, H>| #[trigger]
                reaped(finished, old(self)@, alive) && !alive.dom().contains(session.name@)
                    ==> call_requires(spawn, (session,)),
        ensures
            final(self).wf(),
            final(hub).wf(),
            exists|alive: Map<Seq<char>, H>| #[trigger]
                reaped(finished, old(self)@, alive) && started(
                    alive,
                    old(hub)@,
                    *session,
                    spawn,
                    r,
                    final(self)@,
                    final(hub)@,
                ),
    {
        self.reap(&finished);
        let ghost alive = self@;
        assert(reaped(finished, old(self)@, alive));
        if self.workers.contains_key(&session.name) {
            return Ok(());
        }
        hub.register_session(session.name.clone());
        match spawn(session) {
            Err(reason) => Err(reason),
            Ok(handle) => {
                let _ = self.workers.insert(session.name.clone(), handle);
                assert(self@ =~= alive.insert(session.name@, self@[session.name@]));
                Ok(())
            },
        }
    }

    /// Stops the worker of a session: `join` is given its handle, and then its
    /// clients lose the session.
    pub fn stop<J: FnOnce(H)>(&mut self, hub: &mut MediaHub, session: &str, join: J) -> (r: bool)
        requires
            old(self).wf(),
            old(hub).wf(),
            old(self)@.dom().contains(session@) ==> call_requires(join, (old(self)@[session@],)),
        ensures
            final(self).wf(),
            final(hub).wf(),
            r == old(self)@.dom().contains(session@),
            r ==> call_ensures(join, (old(self)@[session@],), ()),
            final(self)@ == old(self)@.remove(session@),
            final(hub)@ == (crate::media::Hub {
                sessions: old(hub)@.sessions.remove(session@),
                clients: crate::media::all_orphaned(old(hub)@.clients, session@),
                ..old(hub)@
            }),
    {
        let known: bool = match self.workers.remove(&session.to_owned()) {
            Some(handle) => {
                join(handle);
                true
            },
            None => false,
        };
        hub.unregister_session(session);
        known
    }

    /// Whether the worker of a session is running.
    pub fn is_running<F: Fn(&H) -> bool>(&self, session: &str, finished: F) -> (r: bool)
        requires
            self.wf(),
            forall|handle: &H| call_requires(finished, (handle,)),
        ensures
            if self@.dom().contains(session@) {
                call_ensures(finished, (&self@[session@],), !r)
            } else {
                !r
            },
    {
        match self.workers.get(&session.to_owned()) {
            Some(handle) => !finished(handle),
            None => false,
        }
    }

    /// The sessions that have a worker.
    pub fn names(&self) -> (r: Vec<String>)
        requires
            self.wf(),
        ensures
            forall|name: Seq<char>| #[trigger]
                crate::text::texts(r@).contains(name) <==> self@.dom().contains(name),
    {
        proof {
            self.workers.lemma_rows();
        }
        let ghost rows = self.workers.rows();
        let mut names: Vec<String> = Vec::new();
        let mut i: usize = 0;
        while i < self.workers.len()
            invariant
                i <= rows.len(),
                rows == self.workers.rows(),
                names@.len() == i,
                forall|j: int| 0 <= j < i ==> (#[trigger] names@[j])@ == rows[j].0@,
            decreases rows.len() - i,
        {
            names.push(self.workers.key_at(i).clone());
            i += 1;
        }
        proof {
            let list = crate::text::texts(names@);
            assert forall|name: Seq<char>| #[trigger] list.contains(name) <==> self@.dom().contains(
                name,
            ) by {
                if list.contains(name) {
                    let j = list.index_of(name);
                    assert(names@[j]@ == rows[j].0@);
                    assert(self@.dom().contains(rows[j].0.repr()));
                }
                if self@.dom().contains(name) {
                    let j = choose|j: int| crate::sorted_map::row_has(rows, j, name);
                    assert(crate::sorted_map::row_has(rows, j, name));
                    assert(list[j] == name);
                }
            }
        }
        names
    }
}


/// A viewport size that a client asked for is passed on to the guest once it was not
/// changed for a tenth of a second, with its width and its height, and every stream
/// starts over with a keyframe. Until then nothing is passed on, and nothing is
/// passed on twice.
pub proof fn law_settled_size_is_passed_on<
    V: FnOnce(&BlobDescriptor) -> bool,
    R: FnOnce(&BlobDescriptor) -> Option<Vec<u8>>,
>(
    worker: Worker,
    hub: crate::media::Hub,
    queue: crate::encode::Pending,
    session: Seq<char>,
    attachment_id: u64,
    width: u32,
    height: u32,
    queued_at_us: u64,
    asked_us: u64,
    validate: V,
    read: R,
    action: PumpAction,
    asked: Worker,
    hub_after: crate::media::Hub,
    queue_asked: crate::encode::Pending,
    started_us: u64,
    now_us: u64,
    end: IterationEnd,
    after: Worker,
    queue_after: crate::encode::Pending,
)
    requires
        pumped(
            worker,
            hub,
            queue,
            session,
            (MediaCommand::Input {
                attachment_id,
                input: MediaInput::ViewportResize { width, height },
                queued_at_us,
            }),
            asked_us,
            validate,
            read,
            action,
            asked,
            hub_after,
            queue_asked,
        ),
        iteration_ended(asked, queue_asked, started_us, now_us, end, after, queue_after),
    ensures
        queue_asked == queue,
        now_us >= asked_us + 100_000 ==> {
            &&& end.resize == Some((width, height))
            &&& after.resize is None
            &&& queue_after.queue == queue.queue.push(EncodeCommand::ForceKeyframeAll)
        },
        now_us < asked_us + 100_000 ==> {
            &&& end.resize is None
            &&& after.resize is Some && after.resize->0.width == width && after.resize->0.height
                == height && after.resize->0.requested_us == asked_us
            &&& queue_after == queue
        },
{
}

/// Where no size is waiting, the guest is told of none. An iteration is reported
/// where it took, or an input waited, two hundredths of a second or longer, and the
/// next one is counted from nothing.
pub proof fn law_iteration_is_reported_where_it_was_slow(
    worker: Worker,
    queue: crate::encode::Pending,
    started_us: u64,
    now_us: u64,
    r: IterationEnd,
    after: Worker,
    queue_after: crate::encode::Pending,
)
    requires
        iteration_ended(worker, queue, started_us, now_us, r, after, queue_after),
    ensures
        worker.resize is None ==> r.resize is None && queue_after == queue,
        r.report <==> now_us >= started_us + 20_000 || worker.stats.worst_wait_us >= 20_000,
        after.stats.inputs == 0 && after.stats.worst_wait_us == 0,
        after.composites == worker.composites,
        after.clipboard == worker.clipboard,
{
}

/// A command does what it says: an input goes to the scene as it is, for the client
/// that sent it; a client that went is released; a keyframe is asked for behind
/// everything that is queued. Every input counts once, with the longest wait.
pub proof fn law_commands_do_what_they_say<
    V: FnOnce(&BlobDescriptor) -> bool,
    R: FnOnce(&BlobDescriptor) -> Option<Vec<u8>>,
>(
    worker: Worker,
    hub: crate::media::Hub,
    queue: crate::encode::Pending,
    session: Seq<char>,
    command: MediaCommand,
    now_us: u64,
    validate: V,
    read: R,
    r: PumpAction,
    after: Worker,
    hub_after: crate::media::Hub,
    queue_after: crate::encode::Pending,
)
    requires
        worker.stats.inputs < u32::MAX,
        pumped(
            worker,
            hub,
            queue,
            session,
            command,
            now_us,
            validate,
            read,
            r,
            after,
            hub_after,
            queue_after,
        ),
    ensures
        command is Disconnected ==> r == (PumpAction::Disconnect {
            attachment_id: command->Disconnected_attachment_id,
        }) && after == worker && hub_after == hub && queue_after == queue,
        command is Input && command->input is Scene ==> r == (PumpAction::Forward {
            attachment_id: command->Input_attachment_id,
            message: command->input->message,
        }) && hub_after == hub && queue_after == queue,
        command is Input && command->input is RequestKeyframe ==> r == PumpAction::Nothing
            && queue_after.queue == queue.queue.push(EncodeCommand::ForceKeyframeAll)
            && hub_after == hub,
        r is Forward ==> command is Input && command->input is Scene,
        r is Disconnect ==> command is Disconnected,
        command is Input ==> after.stats.inputs == worker.stats.inputs + 1,
        command is Input ==> after.stats.worst_wait_us >= worker.stats.worst_wait_us,
        command is Input && now_us >= command->queued_at_us ==> after.stats.worst_wait_us >= now_us
            - command->queued_at_us,
        command is Input ==> after.stats.worst_wait_us == worker.stats.worst_wait_us
            || after.stats.worst_wait_us == now_us - command->queued_at_us,
        command is Input && !(command->input is ViewportResize) ==> after.resize == worker.resize,
        after.composites == worker.composites,
{
}

/// The data requests and the messages of the scene are parted and keep their order:
/// what one batch brings and then another is what both bring together, and nothing
/// is lost.
pub proof fn law_messages_are_parted_in_order<M>(
    first: Seq<GuestMessage<M>>,
    second: Seq<GuestMessage<M>>,
    request: GuestData,
    message: M,
)
    ensures
        data_requests(first + second) == data_requests(first) + data_requests(second),
        scene_messages(first + second) == scene_messages(first) + scene_messages(second),
        data_requests(first).len() + scene_messages(first).len() == first.len(),
        data_requests(seq![GuestMessage::<M>::Data(request)]) == seq![request],
        scene_messages(seq![GuestMessage::<M>::Data(request)]).len() == 0,
        scene_messages(seq![GuestMessage::Scene(message)]) == seq![message],
        data_requests(seq![GuestMessage::Scene(message)]).len() == 0,
    decreases first.len() + second.len(),
{
    reveal_with_fuel(data_requests, 2);
    reveal_with_fuel(scene_messages, 2);
    assert(seq![GuestMessage::<M>::Data(request)].drop_last() =~= Seq::empty());
    assert(seq![GuestMessage::Scene(message)].drop_last() =~= Seq::empty());
    assert(Seq::empty().push(request) =~= seq![request]);
    assert(Seq::empty().push(message) =~= seq![message]);
    if second.len() == 0 {
        assert(first + second =~= first);
        assert(data_requests(second) =~= Seq::empty());
        assert(scene_messages(second) =~= Seq::empty());
        assert(data_requests(first) + data_requests(second) =~= data_requests(first));
        assert(scene_messages(first) + scene_messages(second) =~= scene_messages(first));
        if first.len() > 0 {
            law_messages_are_parted_in_order(first.drop_last(), Seq::empty(), request, message);
        }
    } else {
        law_messages_are_parted_in_order(first, second.drop_last(), request, message);
        assert((first + second).drop_last() =~= first + second.drop_last());
        assert((first + second).last() == second.last());
        assert(data_requests(first + second) =~= data_requests(first) + data_requests(second));
        assert(scene_messages(first + second) =~= scene_messages(first) + scene_messages(second));
    }
}

/// What scene events leave to be done goes by the events in their order, one batch
/// or several. The end of a surface, or of a client, is queued behind everything
/// else; a commit outside any window asks for nothing.
pub proof fn law_scene_events_count_in_order(
    work: SceneWork,
    first: Seq<SceneEvent>,
    second: Seq<SceneEvent>,
    key: SurfaceKey,
    client_id: u64,
)
    ensures
        after_scene_events(work, first + second) == after_scene_events(
            after_scene_events(work, first),
            second,
        ),
        after_scene_events(work, Seq::empty()) == work,
        ({
            let after = after_scene_event(work, SceneEvent::SurfaceDestroyed { key });
            after.queue.queue.len() > 0 && after.queue.queue.last() == (EncodeCommand::EndStream {
                key,
            })
        }),
        ({
            let after = after_scene_event(work, SceneEvent::ClientDisconnected { client_id });
            after.queue.queue.len() > 0 && after.queue.queue.last() == (EncodeCommand::ClientGone {
                client_id,
            })
        }),
        after_scene_event(work, SceneEvent::SurfaceCommitted { toplevel: None }) == work,
        after_scene_event(work, SceneEvent::Unrelated) == work,
    decreases second.len(),
{
    if second.len() == 0 {
        assert(first + second =~= first);
    } else {
        law_scene_events_count_in_order(work, first, second.drop_last(), key, client_id);
        assert((first + second).drop_last() =~= first + second.drop_last());
        assert((first + second).last() == second.last());
    }
}

/// What the clipboard decided is carried out to the letter: the guest is asked for
/// the type, is offered the types, or is sent the bytes; a push sends nothing to
/// the guest and anything else nothing to the clients.
pub proof fn law_decisions_are_carried_out<R: FnOnce(&BlobDescriptor) -> Option<Vec<u8>>>(
    s: crate::clipboard::ClipboardState,
    hub: crate::media::Hub,
    session: Seq<char>,
    action: crate::clipboard::Action,
    read: R,
    send: Option<GuestSend>,
    clipboard: crate::clipboard::ClipboardState,
    after: crate::media::Hub,
)
    requires
        carried_out(s, hub, session, action, read, send, clipboard, after),
    ensures
        action is AskGuestFor ==> send is Some && send->0 is AskFor && send->0->mime@
            == action->AskGuestFor_0,
        action is AnswerGuest ==> send is Some && send->0 is Data && send->0->bytes@
            == action->AnswerGuest_0,
        action is AnswerGuestBlob ==> send is Some && send->0 is Data && is_content(
            read,
            action->AnswerGuestBlob_0,
            send->0->bytes@,
        ),
        action is OfferToGuest ==> send is Some && send->0 is Offer,
        action is Nothing || action is PushToPhone || action is PushBlobToPhone ==> send is None,
        !(action is PushToPhone) && !(action is PushBlobToPhone) ==> after == hub && clipboard == s,
{
}

/// A push reaches every client of the session and no other: each gets one message
/// more, with the text or the blob that was pushed, behind those that it has.
pub proof fn law_push_reaches_every_client<R: FnOnce(&BlobDescriptor) -> Option<Vec<u8>>>(
    s: crate::clipboard::ClipboardState,
    hub: crate::media::Hub,
    session: Seq<char>,
    action: crate::clipboard::Action,
    read: R,
    send: Option<GuestSend>,
    clipboard: crate::clipboard::ClipboardState,
    after: crate::media::Hub,
    i: int,
)
    requires
        carried_out(s, hub, session, action, read, send, clipboard, after),
        action is PushToPhone || action is PushBlobToPhone,
        0 <= i < hub.clients.len(),
    ensures
        after.clients.len() == hub.clients.len(),
        after.sessions == hub.sessions,
        hub.clients[i].session == Some(session) ==> {
            let messages = after.clients[i].messages;
            &&& messages.len() == hub.clients[i].messages.len() + 1
            &&& messages.drop_last() == hub.clients[i].messages
            &&& action is PushToPhone ==> messages.last() is Clipboard && messages.last()->text@
                == action->PushToPhone_0
            &&& action is PushBlobToPhone ==> messages.last() is ClipboardBlob
                && messages.last()->blob@ == action->PushBlobToPhone_0
        },
        hub.clients[i].session != Some(session) ==> after.clients[i] == hub.clients[i],
        hub.clients[i].session == Some(session) ==> clipboard == s,
{
    if hub.clients[i].session == Some(session) {
        lemma_somebody_watches(hub.clients, session, i);
    }
    match action {
        crate::clipboard::Action::PushToPhone(text) => {
            let m = choose|m: ServerMessage| #[trigger]
                messaged(hub, session, m, after) && m is Clipboard && m->text@ == text;
            assert(after.clients[i] == crate::media::informed(hub.clients[i], session, m));
            assert(hub.clients[i].messages.push(m).drop_last() =~= hub.clients[i].messages);
        },
        crate::clipboard::Action::PushBlobToPhone(blob) => {
            let m = choose|m: ServerMessage| #[trigger]
                messaged(hub, session, m, after) && m is ClipboardBlob && m->blob@ == blob;
            assert(after.clients[i] == crate::media::informed(hub.clients[i], session, m));
            assert(hub.clients[i].messages.push(m).drop_last() =~= hub.clients[i].messages);
        },
        _ => {},
    }
}

proof fn lemma_somebody_watches(clients: Seq<crate::media::Client>, session: Seq<char>, i: int)
    requires
        0 <= i < clients.len(),
        clients[i].session == Some(session),
    ensures
        crate::media::watching(clients, session) > 0,
    decreases clients.len(),
{
    if i < clients.len() - 1 {
        lemma_somebody_watches(clients.drop_last(), session, i);
    }
}

/// What the guest sends is an image where one is awaited, and is kept in the type
/// that was asked for; otherwise it is text, byte for byte. An offer and a paste
/// are what they say.
pub proof fn law_guest_request_means_what_it_brings<
    S: FnOnce(&String, &Vec<u8>) -> Option<(BlobDescriptor, bool)>,
>(
    s: crate::clipboard::ClipboardState,
    request: GuestData,
    store: S,
    event: crate::clipboard::GuestSays,
)
    requires
        means(s, request, store, event),
    ensures
        request is SelectionSet ==> event == crate::clipboard::GuestSays::Offered(
            crate::text::texts(request->mime_types@),
        ),
        request is TransferRequested ==> event == crate::clipboard::GuestSays::Pasted(
            request->mime@,
        ),
        request is Transfer && s.awaiting != Some(crate::clipboard::AwaitingGuestTransfer::Blob)
            ==> event == crate::clipboard::GuestSays::Text(request->bytes@),
        request is Transfer && s.awaiting == Some(crate::clipboard::AwaitingGuestTransfer::Blob)
            && s.pending_mime is Some ==> {
            &&& event is Blob || event is BlobFailed
            &&& event is Blob ==> exists|m: String, blob: BlobDescriptor|
                m@ == s.pending_mime->0 && blob@ == event->blob && #[trigger] call_ensures(
                    store,
                    (&m, &request->bytes),
                    Some((blob, event->valid)),
                )
        },
{
    if request is Transfer && awaited_image(s) is Some {
        let mime = awaited_image(s)->0;
        let bytes = request->bytes;
        let stored = choose|stored: Option<(BlobDescriptor, bool)>| #[trigger]
            stored_as(store, mime, bytes, stored) && event == stored_event(stored);
        let m = choose|m: String| m@ == mime && #[trigger] call_ensures(store, (&m, &bytes), stored);
        if stored is Some {
            let blob = (stored->0).0;
            assert(stored == Some((blob, event->valid)));
            assert(call_ensures(store, (&m, &bytes), Some((blob, event->valid))));
        }
    }
}

/// A worker is started for a session that has none at work, and the session then has
/// it; its clients of before lose the session. One that is at work is left alone, and
/// so are the workers of other sessions.
pub proof fn law_one_worker_runs_per_session<
    H,
    F: Fn(&H) -> bool,
    S: FnOnce(&Session) -> Result<H, String>,
>(
    finished: F,
    before: Map<Seq<char>, H>,
    alive: Map<Seq<char>, H>,
    hub: crate::media::Hub,
    session: Session,
    spawn: S,
    r: Result<(), String>,
    after: Map<Seq<char>, H>,
    hub_after: crate::media::Hub,
    name: Seq<char>,
)
    requires
        reaped(finished, before, alive),
        started(alive, hub, session, spawn, r, after, hub_after),
        before.dom().contains(session.name@) ==> forall|over: bool| #[trigger]
            call_ensures(finished, (&before[session.name@],), over) ==> !over,
    ensures
        before.dom().contains(session.name@) ==> r is Ok && hub_after == hub
            && after.dom().contains(session.name@) && after[session.name@]
            == before[session.name@],
        !before.dom().contains(session.name@) && r is Ok ==> {
            &&& after.dom().contains(session.name@)
            &&& call_ensures(spawn, (&session,), Ok::<H, String>(after[session.name@]))
            &&& hub_after.sessions.dom().contains(session.name@)
            &&& hub_after.sessions[session.name@] == Map::<u64, crate::media::StreamBootstrap>::empty()
        },
        r is Err ==> !after.dom().contains(session.name@) && call_ensures(
            spawn,
            (&session,),
            Err::<H, String>(r->Err_0),
        ),
        name != session.name@ && after.dom().contains(name) ==> before.dom().contains(name)
            && after[name] == before[name] && call_ensures(finished, (&before[name],), false),
        name != session.name@ && before.dom().contains(name) && !after.dom().contains(name)
            ==> call_ensures(finished, (&before[name],), true),
{
    if before.dom().contains(session.name@) {
        if !alive.dom().contains(session.name@) {
            assert(call_ensures(finished, (&before[session.name@],), true));
        }
    }
}

/// A pass serves the data requests from the first to the last, then applies the
/// messages from the first to the last, then composes the windows likewise.
pub proof fn law_pass_goes_from_first_to_last(pass: Pass)
    requires
        pass.requests <= usize::MAX,
        pass.messages.total <= usize::MAX,
        pass.windows is Some ==> pass.windows->0.total <= usize::MAX,
    ensures
        pass.served < pass.requests ==> pass_step(pass).0 == (PassStep::Serve {
            index: pass.served as usize,
        }) && pass_step(pass).1.served == pass.served + 1,
        pass_step(pass).0 is Serve ==> pass.served < pass.requests,
        pass_step(pass).0 is Apply ==> {
            &&& pass.served >= pass.requests
            &&& pass_step(pass).0->Apply_index == pass.messages.worked
            &&& pass.messages.worked < pass.messages.total
            &&& pass_step(pass).1.messages.worked == pass.messages.worked + 1
        },
        pass_step(pass).0 is Collect ==> pass.served >= pass.requests && pass.messages.worked
            >= pass.messages.total && pass.windows is None,
        pass_step(pass).0 is Compose ==> {
            &&& pass.served >= pass.requests
            &&& pass.messages.worked >= pass.messages.total
            &&& pass.windows is Some
            &&& pass_step(pass).0->Compose_index == pass.windows->0.worked
            &&& pass.windows->0.worked < pass.windows->0.total
            &&& pass_step(pass).1.windows->0.worked == pass.windows->0.worked + 1
        },
        pass_step(pass).0 is End ==> pass.windows is Some && pass.windows->0.worked
            >= pass.windows->0.total,
{
}

} // verus!
