//! The media hub: which clients watch which session, what each of them has
//! still to receive, and what a client that attaches late is shown first.

use std::collections::{HashSet, VecDeque};
use std::sync::Arc;

use vstd::prelude::*;

use crate::protocol::{BlobDescriptor, MediaKind, MediaPacket};
use crate::sorted_map::SortedMap;
use crate::text::{join2, same_text};

verus! {

broadcast use {
    vstd::std_specs::hash::group_hash_axioms,
    vstd::std_specs::vecdeque::group_vec_dequeue_axioms,
};

/// What became of a packet that was pushed to a client.
#[derive(Clone, Copy, Debug, PartialEq, Eq, Structural)]
pub enum QueuePush {
    /// It is queued; `evicted` older packets made room for it.
    Sent { evicted: usize },
    /// It was dropped, `count` packets with those it took along.
    Dropped { count: usize },
    Closed,
}

/// The state of a client's queue.
#[verifier::ext_equal]
pub struct Queue {
    pub packets: Seq<MediaPacket>,
    /// The streams whose delta frames cannot be decoded: something was dropped
    /// from them, and no keyframe has come since.
    pub needs_keyframe: Set<u64>,
    pub closed: bool,
    pub capacity: nat,
}

pub open spec fn is_video(packet: MediaPacket) -> bool {
    packet.header.kind == MediaKind::Video
}

pub open spec fn is_keyframe(packet: MediaPacket) -> bool {
    is_video(packet) && packet.header.flags.keyframe
}

/// A frame that builds on frames before it.
pub open spec fn is_delta(packet: MediaPacket) -> bool {
    is_video(packet) && !packet.header.flags.keyframe
}

pub open spec fn is_config_of(packet: MediaPacket, stream: u64) -> bool {
    packet.header.kind == MediaKind::StreamConfig && packet.header.stream_id == stream
}

/// A configuration of `stream` is queued.
pub open spec fn has_config(packets: Seq<MediaPacket>, stream: u64) -> bool {
    exists|i: int| 0 <= i < packets.len() && is_config_of(#[trigger] packets[i], stream)
}

/// The streams with video in the queue.
pub open spec fn video_streams(packets: Seq<MediaPacket>) -> Set<u64> {
    Set::new(
        |stream: u64|
            exists|i: int|
                0 <= i < packets.len() && is_video(#[trigger] packets[i])
                    && packets[i].header.stream_id == stream,
    )
}

/// The latest configuration of each stream, in the order of the queue.
pub open spec fn latest_configs(packets: Seq<MediaPacket>) -> Seq<MediaPacket>
    decreases packets.len(),
{
    if packets.len() == 0 {
        Seq::empty()
    } else if packets[0].header.kind == MediaKind::StreamConfig && !has_config(
        packets.drop_first(),
        packets[0].header.stream_id,
    ) {
        seq![packets[0]] + latest_configs(packets.drop_first())
    } else {
        latest_configs(packets.drop_first())
    }
}

/// What survives of a full queue: configurations, with a place left free.
pub open spec fn survivors(q: Queue) -> Seq<MediaPacket> {
    let configs = latest_configs(q.packets);
    if configs.len() <= q.capacity - 1 {
        configs
    } else {
        configs.take(q.capacity - 1)
    }
}

/// A full queue thrown out to make room for a packet of `stream`.
pub open spec fn emptied(q: Queue, stream: u64) -> Queue {
    Queue {
        packets: survivors(q),
        needs_keyframe: q.needs_keyframe.union(video_streams(q.packets)).insert(stream),
        ..q
    }
}

/// `packet` at the end of the queue.
pub open spec fn appended(q: Queue, packet: MediaPacket) -> Queue {
    Queue {
        packets: q.packets.push(packet),
        needs_keyframe: if is_keyframe(packet) {
            q.needs_keyframe.remove(packet.header.stream_id)
        } else {
            q.needs_keyframe
        },
        ..q
    }
}

/// The queue and the outcome after a push.
pub open spec fn pushed(q: Queue, packet: MediaPacket) -> (Queue, QueuePush) {
    let stream = packet.header.stream_id;
    if q.closed {
        (q, QueuePush::Closed)
    } else if is_delta(packet) && q.needs_keyframe.contains(stream) {
        (q, QueuePush::Dropped { count: 1 })
    } else if q.packets.len() < q.capacity {
        (appended(q, packet), QueuePush::Sent { evicted: 0 })
    } else {
        let room = emptied(q, stream);
        let evicted = q.packets.len() - room.packets.len();
        if is_delta(packet) {
            (room, QueuePush::Dropped { count: (evicted + 1) as usize })
        } else {
            (appended(room, packet), QueuePush::Sent { evicted: evicted as usize })
        }
    }
}

/// What a client finds when it looks into its queue.
#[derive(Debug, PartialEq, Eq)]
pub enum Received {
    Packet(Arc<MediaPacket>),
    /// Nothing yet.
    Empty,
    /// Nothing, and nothing will come.
    Closed,
}

/// Looking into the queue `before` gives `r` and leaves `after`: the packets
/// come out in order, and a closed queue still hands out what it holds.
pub open spec fn received(before: Queue, r: Received, after: Queue) -> bool {
    match r {
        Received::Packet(packet) => {
            &&& before.packets.len() > 0
            &&& *packet == before.packets[0]
            &&& after == (Queue { packets: before.packets.drop_first(), ..before })
        },
        Received::Empty => before.packets.len() == 0 && !before.closed && after == before,
        Received::Closed => before.packets.len() == 0 && before.closed && after == before,
    }
}

/// A bounded queue of packets for one client. A client that falls behind loses
/// frames and resumes at a keyframe. Of the configurations, at most as many as
/// leave one place free are kept.
pub struct ClientQueue {
    packets: VecDeque<Arc<MediaPacket>>,
    needs_keyframe: HashSet<u64>,
    closed: bool,
    capacity: usize,
}

spec fn unshare(packet: &Arc<MediaPacket>) -> MediaPacket {
    **packet
}

spec fn unshared(packets: Seq<Arc<MediaPacket>>) -> Seq<MediaPacket> {
    Seq::new(packets.len(), |i: int| *packets[i])
}

impl View for ClientQueue {
    type V = Queue;

    closed spec fn view(&self) -> Queue {
        Queue {
            packets: unshared(self.packets@),
            needs_keyframe: self.needs_keyframe@,
            closed: self.closed,
            capacity: self.capacity as nat,
        }
    }
}

proof fn lemma_latest_configs(packets: Seq<MediaPacket>)
    ensures
        latest_configs(packets).len() <= packets.len(),
        forall|i: int|
            0 <= i < latest_configs(packets).len() ==> packets.contains(
                #[trigger] latest_configs(packets)[i],
            ) && latest_configs(packets)[i].header.kind == MediaKind::StreamConfig,
        forall|stream: u64| #[trigger]
            has_config(packets, stream) ==> has_config(latest_configs(packets), stream),
    decreases packets.len(),
{
    if packets.len() > 0 {
        let rest = packets.drop_first();
        let configs = latest_configs(packets);
        let tail = latest_configs(rest);
        lemma_latest_configs(rest);
        assert forall|i: int| 0 <= i < configs.len() implies packets.contains(
            #[trigger] configs[i],
        ) && configs[i].header.kind == MediaKind::StreamConfig by {
            let own = configs.len() != tail.len();
            if own && i == 0 {
                assert(packets.contains(packets[0]));
            } else {
                let j = if own { i - 1 } else { i };
                assert(configs[i] == tail[j]);
                let k = rest.index_of(tail[j]);
                assert(rest.contains(tail[j]));
                assert(packets[k + 1] == tail[j]);
            }
        }
        assert forall|stream: u64| #[trigger] has_config(packets, stream) implies has_config(
            configs,
            stream,
        ) by {
            if has_config(rest, stream) {
                assert(has_config(tail, stream));
                let i = choose|i: int|
                    0 <= i < tail.len() && is_config_of(#[trigger] tail[i], stream);
                let j = if configs.len() != tail.len() { i + 1 } else { i };
                assert(is_config_of(configs[j], stream));
            } else {
                let i = choose|i: int|
                    0 <= i < packets.len() && is_config_of(#[trigger] packets[i], stream);
                if i > 0 {
                    assert(is_config_of(rest[i - 1], stream));
                }
                assert(is_config_of(configs[0], stream));
            }
        }
    }
}

impl ClientQueue {
    pub open spec fn wf(&self) -> bool {
        2 <= self@.capacity < usize::MAX && self@.packets.len() <= self@.capacity
    }

    pub fn new(capacity: usize) -> (r: Self)
        requires
            2 <= capacity < usize::MAX,
        ensures
            r.wf(),
            r@ == (Queue {
                packets: Seq::empty(),
                needs_keyframe: Set::empty(),
                closed: false,
                capacity: capacity as nat,
            }),
    {
        ClientQueue {
            packets: VecDeque::new(),
            needs_keyframe: HashSet::new(),
            closed: false,
            capacity,
        }
    }

    /// The latest configuration of each stream in the queue, at most `limit`.
    fn take_configs(&self, limit: usize) -> (r: VecDeque<Arc<MediaPacket>>)
        ensures
            unshared(r@) == (if latest_configs(self@.packets).len() <= limit {
                latest_configs(self@.packets)
            } else {
                latest_configs(self@.packets).take(limit as int)
            }),
    {
        let mut kept: VecDeque<Arc<MediaPacket>> = VecDeque::new();
        let ghost all = self@.packets;
        let mut i: usize = 0;
        assert(all.skip(0) =~= all);
        assert(unshared(kept@) + latest_configs(all) =~= latest_configs(all));
        while i < self.packets.len() && kept.len() < limit
            invariant
                i <= self.packets@.len(),
                all == self@.packets,
                all.len() == self.packets@.len(),
                kept@.len() <= limit,
                latest_configs(all) == unshared(kept@) + latest_configs(all.skip(i as int)),
            decreases self.packets@.len() - i,
        {
            let ghost rest = all.skip(i as int);
            let ghost tail = all.skip(i as int + 1);
            assert(rest.drop_first() =~= tail);
            let packet = &self.packets[i];
            assert(rest[0] == **packet);
            if packet.header.kind == MediaKind::StreamConfig {
                let stream: u64 = packet.header.stream_id;
                let mut superseded: bool = false;
                let mut j: usize = i + 1;
                while j < self.packets.len() && !superseded
                    invariant
                        i < j <= self.packets@.len(),
                        all == self@.packets,
                        all.len() == self.packets@.len(),
                        tail == all.skip(i as int + 1),
                        superseded ==> has_config(tail, stream),
                        !superseded ==> forall|k: int|
                            0 <= k < j - i - 1 ==> !is_config_of(#[trigger] tail[k], stream),
                    decreases self.packets@.len() - j,
                {
                    let other = &self.packets[j];
                    assert(tail[j - i - 1] == **other);
                    if other.header.kind == MediaKind::StreamConfig && other.header.stream_id
                        == stream {
                        superseded = true;
                        assert(is_config_of(tail[j - i - 1], stream));
                    }
                    j += 1;
                }
                if !superseded {
                    let ghost before = kept@;
                    kept.push_back(packet.clone());
                    assert(unshared(kept@) =~= unshared(before).push(rest[0]));
                    assert(unshared(before) + (seq![rest[0]] + latest_configs(tail)) =~= unshared(
                        kept@,
                    ) + latest_configs(tail));
                }
            }
            i += 1;
        }
        proof {
            let done = unshared(kept@);
            if i < self.packets@.len() {
                if latest_configs(all).len() <= limit {
                    assert(done =~= latest_configs(all));
                } else {
                    assert(done =~= latest_configs(all).take(limit as int));
                }
            } else {
                assert(all.skip(i as int) =~= Seq::<MediaPacket>::empty());
                assert(done =~= latest_configs(all));
            }
        }
        kept
    }

    /// Appends a packet. A full queue is reduced to its configurations first,
    /// and delta frames of a stream that lost something are dropped until its
    /// next keyframe.
    pub fn push(&mut self, packet: Arc<MediaPacket>) -> (r: QueuePush)
        requires
            old(self).wf(),
        ensures
            final(self).wf(),
            (final(self)@, r) == pushed(old(self)@, *packet),
    {
        if self.closed {
            return QueuePush::Closed;
        }
        let stream: u64 = packet.header.stream_id;
        let video: bool = packet.header.kind == MediaKind::Video;
        let keyframe: bool = video && packet.header.flags.keyframe;
        if video && !keyframe && self.needs_keyframe.contains(&stream) {
            return QueuePush::Dropped { count: 1 };
        }
        let mut evicted: usize = 0;
        if self.packets.len() >= self.capacity {
            let previous: usize = self.packets.len();
            let kept = self.take_configs(self.capacity - 1);
            proof {
                lemma_latest_configs(self@.packets);
            }
            let ghost packets = self@.packets;
            let ghost needed = self.needs_keyframe@;
            let mut i: usize = 0;
            while i < self.packets.len()
                invariant
                    i <= self.packets@.len(),
                    packets == self@.packets,
                    packets.len() == self.packets@.len(),
                    self.packets == old(self).packets,
                    self.closed == old(self).closed,
                    self.capacity == old(self).capacity,
                    self.needs_keyframe@ == needed.union(video_streams(packets.take(i as int))),
                decreases self.packets@.len() - i,
            {
                let item = &self.packets[i];
                assert(packets[i as int] == **item);
                let ghost front = packets.take(i as int);
                let ghost next = packets.take(i as int + 1);
                assert(next =~= front.push(packets[i as int]));
                proof {
                    assert forall|s: u64| video_streams(next).contains(s) == (
                    video_streams(front).contains(s) || (is_video(packets[i as int])
                        && packets[i as int].header.stream_id == s)) by {
                        if video_streams(front).contains(s) {
                            let k = choose|k: int|
                                0 <= k < front.len() && is_video(#[trigger] front[k])
                                    && front[k].header.stream_id == s;
                            assert(next[k] == front[k]);
                        }
                        if is_video(packets[i as int]) && packets[i as int].header.stream_id == s {
                            assert(next[i as int] == packets[i as int]);
                        }
                        if video_streams(next).contains(s) {
                            let k = choose|k: int|
                                0 <= k < next.len() && is_video(#[trigger] next[k])
                                    && next[k].header.stream_id == s;
                            if k < i {
                                assert(front[k] == next[k]);
                            }
                        }
                    }
                }
                if item.header.kind == MediaKind::Video {
                    let watched: u64 = item.header.stream_id;
                    let _ = self.needs_keyframe.insert(watched);
                }
                assert(self.needs_keyframe@ =~= needed.union(video_streams(next)));
                i += 1;
            }
            assert(packets.take(packets.len() as int) =~= packets);
            assert(unshared(kept@).len() == kept@.len());
            self.packets = kept;
            evicted = previous - self.packets.len();
            let _ = self.needs_keyframe.insert(stream);
            assert(self@ =~= emptied(old(self)@, stream));
            if video && !keyframe {
                return QueuePush::Dropped { count: evicted + 1 };
            }
        }
        if keyframe {
            let _ = self.needs_keyframe.remove(&stream);
        }
        let ghost before = self@;
        self.packets.push_back(packet);
        assert(self@.packets =~= before.packets.push(*packet));
        QueuePush::Sent { evicted }
    }

    /// Takes the next packet out. A closed queue still hands out what it holds.
    pub fn receive(&mut self) -> (r: Received)
        requires
            old(self).wf(),
        ensures
            final(self).wf(),
            received(old(self)@, r, final(self)@),
    {
        match self.packets.pop_front() {
            Some(packet) => {
                assert(self@.packets =~= old(self)@.packets.drop_first());
                Received::Packet(packet)
            },
            None => {
                if self.closed {
                    Received::Closed
                } else {
                    Received::Empty
                }
            },
        }
    }

    /// Lets nothing more in.
    pub fn close(&mut self)
        requires
            old(self).wf(),
        ensures
            final(self).wf(),
            final(self)@ == (Queue { closed: true, ..old(self)@ }),
    {
        self.closed = true;
    }
}

pub const DEFAULT_CLIENT_QUEUE_CAPACITY: usize = 8;

/// The largest width and height of a coded picture.
pub const MAX_CODED_DIMENSION: u32 = 8192;

/// An input message of a client. What the session's own scene handles is carried
/// through as the message it came in.
#[derive(Debug)]
pub enum MediaInput {
    ViewportResize { width: u32, height: u32 },
    RequestKeyframe,
    SetClipboard { text: String },
    SetClipboardBlob { blob: BlobDescriptor },
    Scene { message: String },
}

/// What the hub hands to a session.
#[derive(Debug)]
pub enum MediaCommand {
    Input {
        attachment_id: u64,
        input: MediaInput,
        /// When it was handed over, to tell how long it waited.
        queued_at_us: u64,
    },
    Disconnected { attachment_id: u64 },
}

/// What a session sends to its clients beside the streams.
#[derive(Debug, PartialEq, Eq)]
pub enum ServerMessage {
    Clipboard { text: String },
    ClipboardBlob { blob: BlobDescriptor },
}

/// What became of a command that was handed to a session.
#[derive(Clone, Copy, Debug, PartialEq, Eq, Structural)]
pub enum Handover {
    Accepted,
    Full,
    Closed,
}

#[derive(Clone, Copy, Debug, PartialEq, Eq, Structural)]
pub struct PublishStats {
    pub sent: usize,
    pub dropped: usize,
}

#[derive(Debug, PartialEq, Eq)]
pub enum MediaHubError {
    UnknownSession(String),
    InvalidPacket(String),
    InvalidInput(String),
    InputBackpressure,
    MissingConfig,
    NonMonotonicSequence,
    InvalidDimensions,
    Unavailable,
}

/// What a client that attaches late needs of a stream.
pub struct StreamBootstrap {
    pub config: Option<Arc<MediaPacket>>,
    pub keyframe: Option<Arc<MediaPacket>>,
    pub last_sequence: Option<u64>,
}

/// An attached client.
#[verifier::ext_equal]
pub struct Client {
    pub id: u64,
    /// The session it watches, until that is gone or registered anew.
    pub session: Option<Seq<char>>,
    pub queue: Queue,
    pub messages: Seq<ServerMessage>,
}

/// The state of the hub.
#[verifier::ext_equal]
pub struct Hub {
    pub sessions: Map<Seq<char>, Map<u64, StreamBootstrap>>,
    /// In the order in which they attached.
    pub clients: Seq<Client>,
    pub next_client_id: u64,
    pub capacity: nat,
}

pub open spec fn empty_queue(capacity: nat) -> Queue {
    Queue { packets: Seq::empty(), needs_keyframe: Set::empty(), closed: false, capacity }
}

/// The client loses its session: nothing more comes, what is queued stays.
pub open spec fn orphaned(client: Client, session: Seq<char>) -> Client {
    if client.session == Some(session) {
        Client { session: None, queue: Queue { closed: true, ..client.queue }, ..client }
    } else {
        client
    }
}

pub open spec fn all_orphaned(clients: Seq<Client>, session: Seq<char>) -> Seq<Client> {
    Seq::new(clients.len(), |i: int| orphaned(clients[i], session))
}

pub open spec fn delivered(client: Client, session: Seq<char>, packet: MediaPacket) -> Client {
    if client.session == Some(session) {
        Client { queue: pushed(client.queue, packet).0, ..client }
    } else {
        client
    }
}

pub open spec fn all_delivered(
    clients: Seq<Client>,
    session: Seq<char>,
    packet: MediaPacket,
) -> Seq<Client> {
    Seq::new(clients.len(), |i: int| delivered(clients[i], session, packet))
}

/// How many clients of the session got the packet.
pub open spec fn sent_count(clients: Seq<Client>, session: Seq<char>, packet: MediaPacket) -> nat
    decreases clients.len(),
{
    if clients.len() == 0 {
        0
    } else {
        let last = clients.last();
        sent_count(clients.drop_last(), session, packet) + if last.session == Some(session)
            && pushed(last.queue, packet).1 is Sent {
            1nat
        } else {
            0
        }
    }
}

/// How many packets one push drops.
pub open spec fn drops(outcome: QueuePush) -> nat {
    match outcome {
        QueuePush::Sent { evicted } => evicted as nat,
        QueuePush::Dropped { count } => count as nat,
        QueuePush::Closed => 0,
    }
}

/// How many packets the clients of the session lost to this one.
pub open spec fn dropped_count(clients: Seq<Client>, session: Seq<char>, packet: MediaPacket) -> nat
    decreases clients.len(),
{
    if clients.len() == 0 {
        0
    } else {
        let last = clients.last();
        dropped_count(clients.drop_last(), session, packet) + if last.session == Some(session) {
            drops(pushed(last.queue, packet).1)
        } else {
            0
        }
    }
}

/// The clients that watch the session.
pub open spec fn watching(clients: Seq<Client>, session: Seq<char>) -> nat
    decreases clients.len(),
{
    if clients.len() == 0 {
        0
    } else {
        watching(clients.drop_last(), session) + if clients.last().session == Some(session) {
            1nat
        } else {
            0
        }
    }
}

pub open spec fn informed(client: Client, session: Seq<char>, message: ServerMessage) -> Client {
    if client.session == Some(session) {
        Client { messages: client.messages.push(message), ..client }
    } else {
        client
    }
}

/// Every client of the session has the message.
pub open spec fn announced(hub: Hub, session: Seq<char>, message: ServerMessage) -> Hub {
    Hub {
        clients: Seq::new(
            hub.clients.len(),
            |i: int| informed(hub.clients[i], session, message),
        ),
        ..hub
    }
}

pub open spec fn in_range(packet: MediaPacket) -> bool {
    1 <= packet.header.width <= MAX_CODED_DIMENSION && 1 <= packet.header.height
        <= MAX_CODED_DIMENSION
}

/// A stream of which nothing was published.
pub open spec fn no_stream() -> StreamBootstrap {
    StreamBootstrap { config: None, keyframe: None, last_sequence: None }
}

pub open spec fn stream_of(streams: Map<u64, StreamBootstrap>, id: u64) -> StreamBootstrap {
    if streams.dom().contains(id) {
        streams[id]
    } else {
        no_stream()
    }
}

/// A stream cannot start with anything but its configuration.
pub open spec fn lacks_config(stream: StreamBootstrap, packet: MediaPacket) -> bool {
    packet.header.kind != MediaKind::StreamConfig && stream.config is None
}

pub open spec fn out_of_order(stream: StreamBootstrap, packet: MediaPacket) -> bool {
    stream.last_sequence matches Some(last) && packet.header.sequence <= last
}

/// What is kept of a stream after a packet: the latest configuration, and the
/// latest keyframe since.
pub open spec fn advanced(stream: StreamBootstrap, packet: MediaPacket) -> StreamBootstrap {
    StreamBootstrap {
        config: if packet.header.kind == MediaKind::StreamConfig {
            Some(Arc::new(packet))
        } else {
            stream.config
        },
        keyframe: if packet.header.kind == MediaKind::StreamConfig {
            None
        } else if is_keyframe(packet) {
            Some(Arc::new(packet))
        } else {
            stream.keyframe
        },
        last_sequence: Some(packet.header.sequence),
    }
}

/// The streams after an accepted packet; an ended one is gone.
pub open spec fn streams_after(
    streams: Map<u64, StreamBootstrap>,
    packet: MediaPacket,
) -> Map<u64, StreamBootstrap> {
    let id = packet.header.stream_id;
    if packet.header.kind == MediaKind::StreamEnd {
        streams.remove(id)
    } else {
        streams.insert(id, advanced(stream_of(streams, id), packet))
    }
}

/// Publishing the packet ends with `r` and leaves `after`. A refused packet
/// changes nothing, except that a stream which lacks its configuration is known
/// from then on.
pub open spec fn published(
    hub: Hub,
    session: Seq<char>,
    packet: MediaPacket,
    check: Result<(), String>,
    r: Result<PublishStats, MediaHubError>,
    after: Hub,
) -> bool {
    let streams = hub.sessions[session];
    let id = packet.header.stream_id;
    let stream = stream_of(streams, id);
    if check is Err {
        &&& r == Err::<PublishStats, _>(MediaHubError::InvalidPacket(check->Err_0))
        &&& after == hub
    } else if !hub.sessions.dom().contains(session) {
        &&& r matches Err(MediaHubError::UnknownSession(name)) && name@ == session
        &&& after == hub
    } else if !in_range(packet) {
        &&& r == Err::<PublishStats, _>(MediaHubError::InvalidDimensions)
        &&& after == hub
    } else if lacks_config(stream, packet) {
        &&& r == Err::<PublishStats, _>(MediaHubError::MissingConfig)
        &&& after == (Hub {
            sessions: hub.sessions.insert(session, streams.insert(id, stream)),
            ..hub
        })
    } else if out_of_order(stream, packet) {
        &&& r == Err::<PublishStats, _>(MediaHubError::NonMonotonicSequence)
        &&& after == hub
    } else {
        &&& r is Ok
        &&& r->Ok_0.sent == sent_count(hub.clients, session, packet)
        &&& r->Ok_0.dropped == dropped_count(hub.clients, session, packet)
        &&& after == (Hub {
            sessions: hub.sessions.insert(session, streams_after(streams, packet)),
            clients: all_delivered(hub.clients, session, packet),
            ..hub
        })
    }
}

/// `ids` are the streams in ascending order.
pub open spec fn ascending(ids: Seq<u64>, streams: Set<u64>) -> bool {
    &&& forall|i: int, j: int| 0 <= i < j < ids.len() ==> #[trigger] ids[i] < #[trigger] ids[j]
    &&& forall|id: u64| streams.contains(id) <==> #[trigger] ids.contains(id)
}

pub open spec fn pushed_if_some(q: Queue, packet: Option<Arc<MediaPacket>>) -> Queue {
    match packet {
        Some(packet) => pushed(q, *packet).0,
        None => q,
    }
}

/// `q` after the configuration and the keyframe of each of the streams.
pub open spec fn replayed(q: Queue, streams: Map<u64, StreamBootstrap>, ids: Seq<u64>) -> Queue
    decreases ids.len(),
{
    if ids.len() == 0 {
        q
    } else {
        let stream = streams[ids.last()];
        pushed_if_some(
            pushed_if_some(replayed(q, streams, ids.drop_last()), stream.config),
            stream.keyframe,
        )
    }
}

/// `q` is what a client gets to see first of these streams.
pub open spec fn bootstrapped(capacity: nat, streams: Map<u64, StreamBootstrap>, q: Queue) -> bool {
    exists|ids: Seq<u64>| #[trigger]
        ascending(ids, streams.dom()) && q == replayed(empty_queue(capacity), streams, ids)
}

struct ClientSlot {
    id: u64,
    session: Option<String>,
    queue: ClientQueue,
    messages: VecDeque<ServerMessage>,
}

impl View for ClientSlot {
    type V = Client;

    closed spec fn view(&self) -> Client {
        Client {
            id: self.id,
            session: match self.session {
                Some(session) => Some(session@),
                None => None,
            },
            queue: self.queue@,
            messages: self.messages@,
        }
    }
}

impl ClientSlot {
    fn watches(&self, session: &str) -> (r: bool)
        ensures
            r == (self@.session == Some(session@)),
    {
        match &self.session {
            Some(own) => same_text(own.as_str(), session),
            None => false,
        }
    }
}

/// A client's hold on the hub.
#[derive(Debug)]
pub struct MediaAttachment {
    client_id: u64,
    session: String,
}

impl MediaAttachment {
    pub closed spec fn spec_id(&self) -> u64 {
        self.client_id
    }

    pub closed spec fn spec_session(&self) -> Seq<char> {
        self.session@
    }

    pub fn id(&self) -> (r: u64)
        ensures
            r == self.spec_id(),
    {
        self.client_id
    }

    pub fn session(&self) -> (r: &String)
        ensures
            r@ == self.spec_session(),
    {
        &self.session
    }
}

/// The sessions with their streams, and the clients with their queues.
pub struct MediaHub {
    sessions: SortedMap<String, SortedMap<u64, StreamBootstrap>>,
    clients: Vec<ClientSlot>,
    next_client_id: u64,
    client_queue_capacity: usize,
}

spec fn slots(clients: Seq<ClientSlot>) -> Seq<Client> {
    Seq::new(clients.len(), |i: int| clients[i]@)
}

spec fn stream_maps(
    sessions: Map<Seq<char>, SortedMap<u64, StreamBootstrap>>,
) -> Map<Seq<char>, Map<u64, StreamBootstrap>> {
    Map::new(|k: Seq<char>| sessions.dom().contains(k), |k: Seq<char>| sessions[k]@)
}

impl View for MediaHub {
    type V = Hub;

    closed spec fn view(&self) -> Hub {
        Hub {
            sessions: stream_maps(self.sessions@),
            clients: slots(self.clients@),
            next_client_id: self.next_client_id,
            capacity: self.client_queue_capacity as nat,
        }
    }
}

/// A queue that belongs to a hub of this capacity.
pub open spec fn queue_ok(q: Queue, capacity: nat) -> bool {
    q.capacity == capacity && q.packets.len() <= capacity
}

/// What is kept of a stream belongs to it: a configuration, and a keyframe only
/// beside one.
pub open spec fn stream_ok(id: u64, stream: StreamBootstrap) -> bool {
    &&& stream.config matches Some(config) ==> is_config_of(*config, id)
    &&& stream.keyframe matches Some(keyframe) ==> is_keyframe(*keyframe)
        && keyframe.header.stream_id == id && stream.config is Some
}

pub open spec fn streams_ok(streams: Map<u64, StreamBootstrap>) -> bool {
    forall|id: u64| #[trigger] streams.dom().contains(id) ==> stream_ok(id, streams[id])
}

/// Clients are numbered in the order in which they attached; one that watches a
/// session watches a registered one and its queue is open, and the queue of any
/// other is closed. No queue is longer than the capacity.
pub open spec fn hub_ok(hub: Hub) -> bool {
    &&& 2 <= hub.capacity < usize::MAX
    &&& forall|session: Seq<char>| #[trigger]
        hub.sessions.dom().contains(session) ==> streams_ok(hub.sessions[session])
    &&& forall|i: int|
        0 <= i < hub.clients.len() ==> (#[trigger] hub.clients[i]).id < hub.next_client_id
            && queue_ok(hub.clients[i].queue, hub.capacity)
    &&& forall|i: int, j: int|
        0 <= i < j < hub.clients.len() ==> (#[trigger] hub.clients[i]).id < (
        #[trigger] hub.clients[j]).id
    &&& forall|i: int|
        0 <= i < hub.clients.len() ==> (#[trigger] hub.clients[i]).queue.closed
            == hub.clients[i].session is None
    &&& forall|i: int|
        0 <= i < hub.clients.len() && (#[trigger] hub.clients[i]).session is Some
            ==> hub.sessions.dom().contains(hub.clients[i].session->0)
}

/// `after` is `hub` with one more client, which starts with what the streams of
/// the session need.
pub open spec fn with_client(hub: Hub, session: Seq<char>, after: Hub) -> bool {
    &&& after == (Hub {
        clients: hub.clients.push(after.clients.last()),
        next_client_id: (hub.next_client_id + 1) as u64,
        ..hub
    })
    &&& after.clients.last().id == hub.next_client_id
    &&& after.clients.last().session == Some(session)
    &&& after.clients.last().messages == Seq::<ServerMessage>::empty()
    &&& bootstrapped(hub.capacity, hub.sessions[session], after.clients.last().queue)
}

/// The hub with a session that has no streams yet.
pub open spec fn with_session(hub: Hub, session: Seq<char>) -> Hub {
    Hub {
        sessions: hub.sessions.insert(session, Map::empty()),
        clients: all_orphaned(hub.clients, session),
        ..hub
    }
}

/// The hub without a session.
pub open spec fn without_session(hub: Hub, session: Seq<char>) -> Hub {
    Hub {
        sessions: hub.sessions.remove(session),
        clients: all_orphaned(hub.clients, session),
        ..hub
    }
}

/// The hub after a client could not attach: its number is used up.
pub open spec fn without_client(hub: Hub) -> Hub {
    Hub { next_client_id: (hub.next_client_id + 1) as u64, ..hub }
}

impl MediaHub {
    pub closed spec fn wf(&self) -> bool {
        &&& hub_ok(self@)
        &&& self.sessions.wf()
        &&& forall|k: Seq<char>| #[trigger]
            self.sessions@.dom().contains(k) ==> self.sessions@[k].wf()
    }

    /// What the invariant says of the hub's state.
    pub proof fn lemma_wf(&self)
        requires
            self.wf(),
        ensures
            hub_ok(self@),
    {
    }

    pub fn with_client_queue_capacity(client_queue_capacity: usize) -> (r: Self)
        requires
            2 <= client_queue_capacity < usize::MAX,
        ensures
            r.wf(),
            r@ == (Hub {
                sessions: Map::empty(),
                clients: Seq::empty(),
                next_client_id: 1,
                capacity: client_queue_capacity as nat,
            }),
    {
        let r = MediaHub {
            sessions: SortedMap::new(),
            clients: Vec::new(),
            next_client_id: 1,
            client_queue_capacity,
        };
        assert(r@.sessions =~= Map::<Seq<char>, Map<u64, StreamBootstrap>>::empty());
        r
    }

    /// Closes the queues of the session's clients.
    fn orphan(&mut self, session: &str)
        requires
            2 <= old(self).client_queue_capacity < usize::MAX,
            forall|i: int|
                0 <= i < old(self).clients@.len() ==> queue_ok(
                    (#[trigger] old(self).clients@[i])@.queue,
                    old(self).client_queue_capacity as nat,
                ),
        ensures
            slots(final(self).clients@) == all_orphaned(slots(old(self).clients@), session@),
            final(self).sessions == old(self).sessions,
            final(self).next_client_id == old(self).next_client_id,
            final(self).client_queue_capacity == old(self).client_queue_capacity,
    {
        let mut i: usize = 0;
        while i < self.clients.len()
            invariant
                i <= self.clients@.len(),
                self.clients@.len() == old(self).clients@.len(),
                self.sessions == old(self).sessions,
                self.next_client_id == old(self).next_client_id,
                self.client_queue_capacity == old(self).client_queue_capacity,
                2 <= self.client_queue_capacity < usize::MAX,
                forall|j: int|
                    0 <= j < i ==> (#[trigger] self.clients@[j])@ == orphaned(
                        old(self).clients@[j]@,
                        session@,
                    ),
                forall|j: int|
                    i <= j < self.clients@.len() ==> #[trigger] self.clients@[j] == old(self).clients@[j],
                forall|j: int|
                    0 <= j < old(self).clients@.len() ==> queue_ok(
                        (#[trigger] old(self).clients@[j])@.queue,
                        self.client_queue_capacity as nat,
                    ),
            decreases self.clients@.len() - i,
        {
            assert(self.clients@[i as int] == old(self).clients@[i as int]);
            if self.clients[i].watches(session) {
                let slot = &mut self.clients[i];
                slot.queue.close();
                slot.session = None;
            }
            i += 1;
        }
        assert(slots(self.clients@) =~= all_orphaned(slots(old(self).clients@), session@));
    }

    /// Starts a session with no streams. Clients of an earlier one under the
    /// same name lose it.
    pub fn register_session(&mut self, session: String)
        requires
            old(self).wf(),
        ensures
            final(self).wf(),
            final(self)@ == with_session(old(self)@, session@),
    {
        proof {
            assert forall|i: int| 0 <= i < self.clients@.len() implies queue_ok(
                (#[trigger] self.clients@[i])@.queue,
                self.client_queue_capacity as nat,
            ) by {
                assert(self@.clients[i] == self.clients@[i]@);
            }
        }
        self.orphan(session.as_str());
        let _ = self.sessions.insert(session, SortedMap::new());
        assert(self@.sessions =~= old(self)@.sessions.insert(session@, Map::empty()));
    }

    /// Ends a session. Its clients lose it.
    pub fn unregister_session(&mut self, session: &str)
        requires
            old(self).wf(),
        ensures
            final(self).wf(),
            final(self)@ == without_session(old(self)@, session@),
    {
        proof {
            assert forall|i: int| 0 <= i < self.clients@.len() implies queue_ok(
                (#[trigger] self.clients@[i])@.queue,
                self.client_queue_capacity as nat,
            ) by {
                assert(self@.clients[i] == self.clients@[i]@);
            }
        }
        self.orphan(session);
        let _ = self.sessions.remove(&session.to_owned());
        assert(self@.sessions =~= old(self)@.sessions.remove(session@));
    }

    /// Whether one more client can attach: there is a number for it, and what is
    /// published to all of them can still be counted.
    pub fn has_room(&self) -> (r: bool)
        requires
            self.wf(),
        ensures
            r == (self@.next_client_id < u64::MAX && (self@.clients.len() + 1) * (self@.capacity
                + 1) <= usize::MAX),
    {
        let clients = self.clients.len() as u128 + 1;
        let slots = self.client_queue_capacity as u128 + 1;
        assert(self@.clients.len() == self.clients@.len());
        assert(clients * slots <= 0x1_0000_0000_0000_0000 * 0xffff_ffff_ffff_ffff)
            by (nonlinear_arith)
            requires
                clients <= 0x1_0000_0000_0000_0000,
                slots <= 0xffff_ffff_ffff_ffff,
        ;
        self.next_client_id < u64::MAX && clients * slots <= usize::MAX as u128
    }


    /// Adds a client to a session. Its queue starts with the configuration and
    /// the keyframe of each stream, in the order of the streams' ids.
    pub fn attach(&mut self, session: &str) -> (r: Result<MediaAttachment, MediaHubError>)
        requires
            old(self).wf(),
            old(self)@.next_client_id < u64::MAX,
        ensures
            final(self).wf(),
            match r {
                Ok(attachment) => {
                    &&& old(self)@.sessions.dom().contains(session@)
                    &&& attachment.spec_id() == old(self)@.next_client_id
                    &&& attachment.spec_session() == session@
                    &&& with_client(old(self)@, session@, final(self)@)
                },
                Err(MediaHubError::UnknownSession(name)) => {
                    &&& name@ == session@
                    &&& !old(self)@.sessions.dom().contains(session@)
                    &&& final(self)@ == without_client(old(self)@)
                },
                Err(_) => false,
            },
    {
        let client_id: u64 = self.next_client_id;
        self.next_client_id = client_id + 1;
        let key = session.to_owned();
        let mut queue = ClientQueue::new(self.client_queue_capacity);
        let streams = match self.sessions.get(&key) {
            None => {
                assert(self@ == without_client(old(self)@));
                assert(self@.clients == old(self)@.clients);
                return Err(MediaHubError::UnknownSession(key));
            },
            Some(streams) => streams,
        };
        proof {
            streams.lemma_rows();
        }
        let ghost rows = streams.rows();
        let ghost ids = Seq::new(rows.len(), |i: int| rows[i].0);
        let ghost fresh = queue@;
        let mut i: usize = 0;
        assert(ids.take(0) =~= Seq::<u64>::empty());
        while i < streams.len()
            invariant
                i <= rows.len(),
                rows == streams.rows(),
                streams.wf(),
                ids == Seq::new(rows.len(), |j: int| rows[j].0),
                forall|j: int|
                    0 <= j < rows.len() ==> streams@.dom().contains((#[trigger] rows[j]).0)
                        && streams@[rows[j].0] == rows[j].1,
                queue.wf(),
                queue@.capacity == fresh.capacity,
                !queue@.closed,
                queue@ == replayed(fresh, streams@, ids.take(i as int)),
            decreases rows.len() - i,
        {
            let stream = streams.value_at(i);
            assert(ids.take(i as int + 1).drop_last() =~= ids.take(i as int));
            assert(ids.take(i as int + 1).last() == rows[i as int].0);
            match &stream.config {
                Some(config) => {
                    let _ = queue.push(config.clone());
                },
                None => {},
            }
            match &stream.keyframe {
                Some(keyframe) => {
                    let _ = queue.push(keyframe.clone());
                },
                None => {},
            }
            i += 1;
        }
        proof {
            assert(ids.take(ids.len() as int) =~= ids);
            assert forall|id: u64| streams@.dom().contains(id) <==> #[trigger] ids.contains(id) by {
                if streams@.dom().contains(id) {
                    let j = choose|j: int| crate::sorted_map::row_has(rows, j, id);
                    assert(crate::sorted_map::row_has(rows, j, id));
                    assert(ids[j] == id);
                }
                if ids.contains(id) {
                    let j = ids.index_of(id);
                    assert(rows[j].0 == id);
                }
            }
            assert forall|a: int, b: int| 0 <= a < b < ids.len() implies #[trigger] ids[a]
                < #[trigger] ids[b] by {
                let _ = (rows[a], rows[b]);
            }
            assert(ascending(ids, streams@.dom()));
        }
        let ghost before = self.clients@;
        self.clients.push(
            ClientSlot {
                id: client_id,
                session: Some(session.to_owned()),
                queue,
                messages: VecDeque::new(),
            },
        );
        proof {
            let client = self.clients@.last()@;
            assert(slots(self.clients@) =~= slots(before).push(client));
            assert(slots(before) == old(self)@.clients);
            assert(self@.clients.last() == client);
            assert(self@.clients == old(self)@.clients.push(client));
            assert(with_client(old(self)@, session@, self@));
            assert(queue_ok(client.queue, self@.capacity));
            assert(hub_ok(self@));
        }
        Ok(MediaAttachment { client_id, session: key })
    }

    /// How many clients watch the session.
    pub fn active_clients(&self, session: &str) -> (r: usize)
        requires
            self.wf(),
        ensures
            r == watching(self@.clients, session@),
    {
        let ghost clients = slots(self.clients@);
        let mut count: usize = 0;
        let mut i: usize = 0;
        assert(clients.take(0) =~= Seq::<Client>::empty());
        while i < self.clients.len()
            invariant
                i <= self.clients@.len(),
                clients == slots(self.clients@),
                count == watching(clients.take(i as int), session@),
                count <= i,
            decreases self.clients@.len() - i,
        {
            assert(clients.take(i as int + 1).drop_last() =~= clients.take(i as int));
            assert(clients.take(i as int + 1).last() == self.clients@[i as int]@);
            if self.clients[i].watches(session) {
                count += 1;
            }
            i += 1;
        }
        assert(clients.take(clients.len() as int) =~= clients);
        count
    }

    /// Hands the packet to every client of the session.
    fn deliver(&mut self, session: &str, packet: &Arc<MediaPacket>) -> (r: PublishStats)
        requires
            2 <= old(self).client_queue_capacity < usize::MAX,
            forall|i: int|
                0 <= i < old(self).clients@.len() ==> queue_ok(
                    (#[trigger] old(self).clients@[i])@.queue,
                    old(self).client_queue_capacity as nat,
                ),
            old(self).clients@.len() * (old(self).client_queue_capacity + 1) <= usize::MAX,
        ensures
            slots(final(self).clients@) == all_delivered(
                slots(old(self).clients@),
                session@,
                **packet,
            ),
            final(self).sessions == old(self).sessions,
            final(self).next_client_id == old(self).next_client_id,
            final(self).client_queue_capacity == old(self).client_queue_capacity,
            r.sent == sent_count(slots(old(self).clients@), session@, **packet),
            r.dropped == dropped_count(slots(old(self).clients@), session@, **packet),
    {
        let ghost clients = slots(old(self).clients@);
        let ghost room = self.client_queue_capacity + 1;
        let ghost whole = unshare(packet);
        let mut stats = PublishStats { sent: 0, dropped: 0 };
        let mut i: usize = 0;
        assert(clients.take(0) =~= Seq::<Client>::empty());
        while i < self.clients.len()
            invariant
                i <= self.clients@.len(),
                self.clients@.len() == old(self).clients@.len(),
                clients == slots(old(self).clients@),
                room == self.client_queue_capacity + 1,
                whole == **packet,
                clients.len() * room <= usize::MAX,
                self.sessions == old(self).sessions,
                self.next_client_id == old(self).next_client_id,
                self.client_queue_capacity == old(self).client_queue_capacity,
                2 <= self.client_queue_capacity < usize::MAX,
                forall|j: int|
                    0 <= j < i ==> (#[trigger] self.clients@[j])@ == delivered(
                        old(self).clients@[j]@,
                        session@,
                        **packet,
                    ),
                forall|j: int|
                    i <= j < self.clients@.len() ==> #[trigger] self.clients@[j] == old(self).clients@[j],
                forall|j: int|
                    0 <= j < old(self).clients@.len() ==> queue_ok(
                        (#[trigger] old(self).clients@[j])@.queue,
                        self.client_queue_capacity as nat,
                    ),
                stats.sent == sent_count(clients.take(i as int), session@, **packet),
                stats.dropped == dropped_count(clients.take(i as int), session@, **packet),
                stats.sent <= i,
                stats.dropped <= i * room,
            decreases self.clients@.len() - i,
        {
            let ghost one = clients.take(i as int + 1);
            assert(one.drop_last() =~= clients.take(i as int));
            assert(one.last() == clients[i as int]);
            assert(self.clients@[i as int] == old(self).clients@[i as int]);
            proof {
                lemma_push_drops(clients[i as int].queue, whole);
                assert((i + 1) * room == i * room + room) by (nonlinear_arith);
                assert((i + 1) * room <= clients.len() * room) by (nonlinear_arith)
                    requires
                        i + 1 <= clients.len(),
                        0 <= room,
                ;
            }
            if self.clients[i].watches(session) {
                let slot = &mut self.clients[i];
                match slot.queue.push(packet.clone()) {
                    QueuePush::Sent { evicted } => {
                        stats.sent = stats.sent + 1;
                        stats.dropped = stats.dropped + evicted;
                    },
                    QueuePush::Dropped { count } => {
                        stats.dropped = stats.dropped + count;
                    },
                    QueuePush::Closed => {},
                }
            }
            i += 1;
        }
        assert(clients.take(clients.len() as int) =~= clients);
        assert(slots(self.clients@) =~= all_delivered(clients, session@, **packet));
        stats
    }

    /// Publishes a packet of a stream to the clients of its session. `check` is
    /// what the protocol's own validation says of the packet.
    pub fn publish(
        &mut self,
        session: &str,
        packet: MediaPacket,
        check: Result<(), String>,
    ) -> (r: Result<PublishStats, MediaHubError>)
        requires
            old(self).wf(),
            old(self)@.clients.len() * (old(self)@.capacity + 1) <= usize::MAX,
        ensures
            final(self).wf(),
            published(old(self)@, session@, packet, check, r, final(self)@),
    {
        match check {
            Err(reason) => {
                return Err(MediaHubError::InvalidPacket(reason));
            },
            Ok(()) => {},
        }
        let ghost whole = packet;
        let packet = Arc::new(packet);
        let key = session.to_owned();
        let at = match self.sessions.position(&key) {
            None => {
                return Err(MediaHubError::UnknownSession(key));
            },
            Some(at) => at,
        };
        if packet.header.width == 0 || packet.header.height == 0 || packet.header.width
            > MAX_CODED_DIMENSION || packet.header.height > MAX_CODED_DIMENSION {
            return Err(MediaHubError::InvalidDimensions);
        }
        let id: u64 = packet.header.stream_id;
        let kind = packet.header.kind;
        let sequence: u64 = packet.header.sequence;
        let ghost all = self.sessions@;
        let mut streams = self.sessions.set_at(at, SortedMap::new());
        let ghost known = streams@;
        assert(old(self)@.sessions.dom().contains(session@));
        assert(known == old(self)@.sessions[session@]);
        let mut stream = match streams.remove(&id) {
            Some(stream) => stream,
            None => StreamBootstrap { config: None, keyframe: None, last_sequence: None },
        };
        let ghost before = stream;
        assert(before == stream_of(known, id));
        let missing: bool = kind != MediaKind::StreamConfig && stream.config.is_none();
        let stale: bool = match stream.last_sequence {
            Some(last) => sequence <= last,
            None => false,
        };
        if missing || stale {
            let _ = streams.insert(id, stream);
            let _ = self.sessions.set_at(at, streams);
            proof {
                assert(streams@ =~= known.insert(id, before));
                assert(streams_ok(known));
                if stale {
                    assert(streams@ =~= known);
                }
                assert(self.sessions@ =~= all.insert(session@, streams));
                self.lemma_rebound(*old(self), session@, streams);
                if !missing {
                    assert(self@.sessions =~= old(self)@.sessions);
                }
            }
            return if missing {
                Err(MediaHubError::MissingConfig)
            } else {
                Err(MediaHubError::NonMonotonicSequence)
            };
        }
        stream.last_sequence = Some(sequence);
        if kind == MediaKind::StreamConfig {
            stream.config = Some(packet.clone());
            stream.keyframe = None;
        } else if kind == MediaKind::Video && packet.header.flags.keyframe {
            stream.keyframe = Some(packet.clone());
        }
        assert(stream == advanced(before, *packet));
        // Only the clients that are attached now see a stream end: its entry is
        // not kept, so none that attaches later is shown a dead stream.
        if kind != MediaKind::StreamEnd {
            let _ = streams.insert(id, stream);
        }
        let _ = self.sessions.set_at(at, streams);
        proof {
            assert(streams@ =~= streams_after(known, *packet));
            assert(streams_ok(known));
            assert(self.sessions@ =~= all.insert(session@, streams));
            self.lemma_rebound(*old(self), session@, streams);
            assert forall|i: int| 0 <= i < self.clients@.len() implies queue_ok(
                (#[trigger] self.clients@[i])@.queue,
                self.client_queue_capacity as nat,
            ) by {
                assert(self@.clients[i] == self.clients@[i]@);
            }
        }
        let stats = self.deliver(session, &packet);
        proof {
            lemma_delivered_ok(old(self)@, session@, whole, streams_after(known, whole));
        }
        Ok(stats)
    }

    /// The state after the streams of one session changed.
    proof fn lemma_rebound(
        &self,
        before: MediaHub,
        session: Seq<char>,
        streams: SortedMap<u64, StreamBootstrap>,
    )
        requires
            before.wf(),
            before@.sessions.dom().contains(session),
            streams.wf(),
            streams_ok(streams@),
            self.sessions.wf(),
            self.sessions@ == before.sessions@.insert(session, streams),
            self.clients == before.clients,
            self.next_client_id == before.next_client_id,
            self.client_queue_capacity == before.client_queue_capacity,
        ensures
            self.wf(),
            self@ == (Hub { sessions: before@.sessions.insert(session, streams@), ..before@ }),
    {
        assert(self@.sessions =~= before@.sessions.insert(session, streams@));
    }
}

/// A push never drops more than the queue held and the packet itself.
proof fn lemma_push_drops(q: Queue, packet: MediaPacket)
    requires
        2 <= q.capacity < usize::MAX,
        q.packets.len() <= q.capacity,
    ensures
        drops(pushed(q, packet).1) <= q.capacity + 1,
        queue_ok(pushed(q, packet).0, q.capacity),
        pushed(q, packet).0.closed == q.closed,
{
    lemma_latest_configs(q.packets);
}

proof fn lemma_delivered_ok(
    hub: Hub,
    session: Seq<char>,
    packet: MediaPacket,
    streams: Map<u64, StreamBootstrap>,
)
    requires
        hub_ok(hub),
        streams_ok(streams),
    ensures
        hub_ok(
            Hub {
                sessions: hub.sessions.insert(session, streams),
                clients: all_delivered(hub.clients, session, packet),
                ..hub
            },
        ),
{
    let next = all_delivered(hub.clients, session, packet);
    assert forall|i: int| 0 <= i < next.len() implies queue_ok(
        (#[trigger] next[i]).queue,
        hub.capacity,
    ) && next[i].queue.closed == hub.clients[i].queue.closed && next[i].id == hub.clients[i].id
        && next[i].session == hub.clients[i].session by {
        lemma_push_drops(hub.clients[i].queue, packet);
    }
}

/// Client number `i` is the one with this id.
pub open spec fn is_client(hub: Hub, i: int, id: u64) -> bool {
    0 <= i < hub.clients.len() && hub.clients[i].id == id
}

/// What a client finds when it looks for messages.
#[derive(Debug, PartialEq, Eq)]
pub enum ReceivedMessage {
    Message(ServerMessage),
    Empty,
    Closed,
}

impl MediaHub {
    /// The client with this id.
    fn find(&self, id: u64) -> (r: Option<usize>)
        ensures
            match r {
                Some(i) => is_client(self@, i as int, id),
                None => forall|i: int| !is_client(self@, i, id),
            },
    {
        let mut i: usize = 0;
        while i < self.clients.len()
            invariant
                i <= self.clients@.len(),
                forall|j: int| 0 <= j < i ==> (#[trigger] self@.clients[j]).id != id,
            decreases self.clients@.len() - i,
        {
            assert(self@.clients[i as int] == self.clients@[i as int]@);
            if self.clients[i].id == id {
                return Some(i);
            }
            i += 1;
        }
        None
    }

    /// Sends a message to every client of the session and says how many that
    /// were: none where nobody watches.
    pub fn publish_message(&mut self, session: &str, message: &ServerMessage) -> (r: usize)
        requires
            old(self).wf(),
        ensures
            final(self).wf(),
            r == watching(old(self)@.clients, session@),
            final(self)@ == announced(old(self)@, session@, *message),
    {
        let ghost clients = slots(old(self).clients@);
        let mut count: usize = 0;
        let mut i: usize = 0;
        assert(clients.take(0) =~= Seq::<Client>::empty());
        while i < self.clients.len()
            invariant
                i <= self.clients@.len(),
                self.clients@.len() == old(self).clients@.len(),
                clients == slots(old(self).clients@),
                self.sessions == old(self).sessions,
                self.next_client_id == old(self).next_client_id,
                self.client_queue_capacity == old(self).client_queue_capacity,
                forall|j: int|
                    0 <= j < i ==> (#[trigger] self.clients@[j])@ == informed(
                        old(self).clients@[j]@,
                        session@,
                        *message,
                    ),
                forall|j: int|
                    i <= j < self.clients@.len() ==> #[trigger] self.clients@[j] == old(self).clients@[j],
                count == watching(clients.take(i as int), session@),
                count <= i,
            decreases self.clients@.len() - i,
        {
            let ghost one = clients.take(i as int + 1);
            assert(one.drop_last() =~= clients.take(i as int));
            assert(one.last() == clients[i as int]);
            assert(self.clients@[i as int] == old(self).clients@[i as int]);
            if self.clients[i].watches(session) {
                let slot = &mut self.clients[i];
                slot.messages.push_back(message.clone());
                count += 1;
            }
            i += 1;
        }
        assert(clients.take(clients.len() as int) =~= clients);
        assert(self@.clients =~= Seq::new(
            old(self)@.clients.len(),
            |i: int| informed(old(self)@.clients[i], session@, *message),
        ));
        proof {
            assert forall|j: int| 0 <= j < self@.clients.len() implies {
                &&& (#[trigger] self@.clients[j]).id == old(self)@.clients[j].id
                &&& self@.clients[j].queue == old(self)@.clients[j].queue
                &&& self@.clients[j].session == old(self)@.clients[j].session
            } by {}
        }
        count
    }

    /// Takes a client out. The session, if there is one under its name, is told
    /// that the client is gone; the result says whether it was.
    pub fn detach<S: FnOnce(&str, MediaCommand) -> Handover>(
        &mut self,
        attachment: MediaAttachment,
        send: S,
    ) -> (r: bool)
        requires
            old(self).wf(),
            old(self)@.sessions.dom().contains(attachment.spec_session()) ==> can_hand_over(
                send,
                attachment.spec_session(),
                MediaCommand::Disconnected { attachment_id: attachment.spec_id() },
            ),
        ensures
            final(self).wf(),
            client_left(
                old(self)@,
                attachment.spec_id(),
                attachment.spec_session(),
                send,
                r,
                final(self)@,
            ),
    {
        let id: u64 = attachment.client_id;
        match self.find(id) {
            None => {},
            Some(at) => {
                let ghost before = self.clients@;
                assert(is_client(old(self)@, at as int, attachment.spec_id()));
                let _ = self.clients.remove(at);
                proof {
                    assert(slots(self.clients@) =~= slots(before).remove(at as int));
                    assert(self@.clients == old(self)@.clients.remove(at as int));
                    assert forall|i: int| #[trigger] is_client(old(self)@, i, id) implies i
                        == at by {
                        if i < at {
                            assert(old(self)@.clients[i].id < old(self)@.clients[at as int].id);
                        }
                        if at < i {
                            assert(old(self)@.clients[at as int].id < old(self)@.clients[i].id);
                        }
                    }
                    assert forall|i: int| 0 <= i < self@.clients.len() implies #[trigger]
                    self@.clients[i] == old(self)@.clients[if i < at {
                        i
                    } else {
                        i + 1
                    }] by {}
                    assert forall|i: int| !is_client(self@, i, id) by {
                        if is_client(self@, i, id) {
                            assert(is_client(
                                old(self)@,
                                if i < at {
                                    i
                                } else {
                                    i + 1
                                },
                                id,
                            ));
                        }
                    }
                }
            },
        }
        if !self.sessions.contains_key(&attachment.session) {
            return false;
        }
        let outcome = send(
            attachment.session.as_str(),
            MediaCommand::Disconnected { attachment_id: id },
        );
        assert(handed_over(
            send,
            attachment.spec_session(),
            MediaCommand::Disconnected { attachment_id: attachment.spec_id() },
        ));
        true
    }
}

/// A client was taken out like this.
pub open spec fn client_left<S: FnOnce(&str, MediaCommand) -> Handover>(
    hub: Hub,
    id: u64,
    session: Seq<char>,
    send: S,
    r: bool,
    after: Hub,
) -> bool {
    &&& after.sessions == hub.sessions
    &&& after.next_client_id == hub.next_client_id
    &&& after.capacity == hub.capacity
    &&& forall|i: int| !is_client(after, i, id)
    &&& (forall|i: int| !is_client(hub, i, id)) ==> after.clients == hub.clients
    &&& forall|i: int| #[trigger]
        is_client(hub, i, id) ==> after.clients == hub.clients.remove(i)
    &&& r == hub.sessions.dom().contains(session)
    &&& r ==> handed_over(send, session, MediaCommand::Disconnected { attachment_id: id })
}

/// `send` can be given this command for this session.
pub open spec fn can_hand_over<S: FnOnce(&str, MediaCommand) -> Handover>(
    send: S,
    session: Seq<char>,
    command: MediaCommand,
) -> bool {
    forall|name: &str| name@ == session ==> #[trigger] call_requires(send, (name, command))
}

/// `send` was given this command for this session.
pub open spec fn handed_over<S: FnOnce(&str, MediaCommand) -> Handover>(
    send: S,
    session: Seq<char>,
    command: MediaCommand,
) -> bool {
    exists|name: &str, outcome: Handover|
        name@ == session && #[trigger] call_ensures(send, (name, command), outcome)
}

/// `send` was given this command for this session and answered `outcome`.
pub open spec fn answered<S: FnOnce(&str, MediaCommand) -> Handover>(
    send: S,
    session: Seq<char>,
    command: MediaCommand,
    outcome: Handover,
) -> bool {
    exists|name: &str| name@ == session && #[trigger] call_ensures(send, (name, command), outcome)
}

/// Passing an input on to its session ends with `r`.
pub open spec fn input_submitted<S: FnOnce(&str, MediaCommand) -> Handover>(
    hub: Hub,
    attachment_id: u64,
    session: Seq<char>,
    input: MediaInput,
    check: Result<(), String>,
    queued_at_us: u64,
    send: S,
    r: Result<(), MediaHubError>,
) -> bool {
    let command = MediaCommand::Input {
        attachment_id,
        input,
        queued_at_us,
    };
    if check is Err {
        r == Err::<(), _>(MediaHubError::InvalidInput(check->Err_0))
    } else if !hub.sessions.dom().contains(session) {
        r matches Err(MediaHubError::UnknownSession(name)) && name@ == session
    } else {
        match r {
            Ok(()) => answered(send, session, command, Handover::Accepted),
            Err(MediaHubError::InputBackpressure) => answered(
                send,
                session,
                command,
                Handover::Full,
            ),
            Err(MediaHubError::Unavailable) => answered(
                send,
                session,
                command,
                Handover::Closed,
            ),
            Err(_) => false,
        }
    }
}

/// Taking the next packet of a client ends with `r`.
pub open spec fn packet_received(hub: Hub, id: u64, r: Received, after: Hub) -> bool {
    &&& (forall|i: int| !is_client(hub, i, id)) ==> r is Closed && after
        == hub
    &&& forall|i: int| #[trigger]
        is_client(hub, i, id) ==> {
            let queue = after.clients[i].queue;
            &&& received(hub.clients[i].queue, r, queue)
            &&& after == (Hub {
                clients: hub.clients.update(
                    i,
                    Client { queue, ..hub.clients[i] },
                ),
                ..hub
            })
        }
}

/// Taking the next message of a client ends with `r`.
pub open spec fn message_received(hub: Hub, id: u64, r: ReceivedMessage, after: Hub) -> bool {
    &&& (forall|i: int| !is_client(hub, i, id)) ==> r is Closed && after
        == hub
    &&& forall|i: int| #[trigger]
        is_client(hub, i, id) ==> {
            let client = hub.clients[i];
            if client.messages.len() > 0 {
                &&& r == ReceivedMessage::Message(client.messages[0])
                &&& after == (Hub {
                    clients: hub.clients.update(
                        i,
                        Client { messages: client.messages.drop_first(), ..client },
                    ),
                    ..hub
                })
            } else {
                &&& r == (if client.session is None {
                    ReceivedMessage::Closed
                } else {
                    ReceivedMessage::Empty
                })
                &&& after == hub
            }
        }
}

impl MediaAttachment {
    /// Takes the next packet for this client out of its queue.
    pub fn recv(&self, hub: &mut MediaHub) -> (r: Received)
        requires
            old(hub).wf(),
        ensures
            final(hub).wf(),
            packet_received(old(hub)@, self.spec_id(), r, final(hub)@),
    {
        let id: u64 = self.client_id;
        match hub.find(id) {
            None => Received::Closed,
            Some(at) => {
                proof {
                    assert(is_client(old(hub)@, at as int, self.spec_id()));
                    assert(hub@.clients[at as int] == hub.clients@[at as int]@);
                    assert forall|i: int| #[trigger] is_client(hub@, i, id) implies i == at by {
                        if i < at {
                            assert(hub@.clients[i].id < hub@.clients[at as int].id);
                        }
                        if at < i {
                            assert(hub@.clients[at as int].id < hub@.clients[i].id);
                        }
                    }
                }
                let ghost before = hub@.clients;
                let slot = &mut hub.clients[at];
                let r = slot.queue.receive();
                proof {
                    let queue = hub.clients@[at as int]@.queue;
                    assert(hub@.clients =~= before.update(
                        at as int,
                        Client { queue, ..before[at as int] },
                    ));
                }
                r
            },
        }
    }

    /// Takes the next message for this client.
    pub fn recv_message(&self, hub: &mut MediaHub) -> (r: ReceivedMessage)
        requires
            old(hub).wf(),
        ensures
            final(hub).wf(),
            message_received(old(hub)@, self.spec_id(), r, final(hub)@),
    {
        let id: u64 = self.client_id;
        match hub.find(id) {
            None => ReceivedMessage::Closed,
            Some(at) => {
                proof {
                    assert(is_client(old(hub)@, at as int, self.spec_id()));
                    assert(hub@.clients[at as int] == hub.clients@[at as int]@);
                    assert forall|i: int| #[trigger] is_client(hub@, i, id) implies i == at by {
                        if i < at {
                            assert(hub@.clients[i].id < hub@.clients[at as int].id);
                        }
                        if at < i {
                            assert(hub@.clients[at as int].id < hub@.clients[i].id);
                        }
                    }
                }
                let ghost before = hub@.clients;
                let gone: bool = hub.clients[at].session.is_none();
                let slot = &mut hub.clients[at];
                match slot.messages.pop_front() {
                    Some(message) => {
                        proof {
                            let messages = before[at as int].messages.drop_first();
                            assert(hub.clients@[at as int]@.messages =~= messages);
                            assert(hub@.clients =~= before.update(
                                at as int,
                                Client { messages, ..before[at as int] },
                            ));
                        }
                        ReceivedMessage::Message(message)
                    },
                    None => {
                        assert(hub@.clients =~= before);
                        if gone {
                            ReceivedMessage::Closed
                        } else {
                            ReceivedMessage::Empty
                        }
                    },
                }
            },
        }
    }

    /// Passes an input of this client on to its session. `check` is what the
    /// protocol's own validation says of the input.
    pub fn submit_input<S: FnOnce(&str, MediaCommand) -> Handover>(
        &self,
        hub: &MediaHub,
        input: MediaInput,
        check: Result<(), String>,
        queued_at_us: u64,
        send: S,
    ) -> (r: Result<(), MediaHubError>)
        requires
            hub.wf(),
            check is Ok && hub@.sessions.dom().contains(self.spec_session()) ==> can_hand_over(
                send,
                self.spec_session(),
                MediaCommand::Input { attachment_id: self.spec_id(), input, queued_at_us },
            ),
        ensures
            input_submitted(
                hub@,
                self.spec_id(),
                self.spec_session(),
                input,
                check,
                queued_at_us,
                send,
                r,
            ),
    {
        match check {
            Err(reason) => {
                return Err(MediaHubError::InvalidInput(reason));
            },
            Ok(()) => {},
        }
        if !hub.sessions.contains_key(&self.session) {
            return Err(MediaHubError::UnknownSession(self.session.clone()));
        }
        let command = MediaCommand::Input { attachment_id: self.client_id, input, queued_at_us };
        match send(self.session.as_str(), command) {
            Handover::Accepted => Ok(()),
            Handover::Full => Err(MediaHubError::InputBackpressure),
            Handover::Closed => Err(MediaHubError::Unavailable),
        }
    }
}

impl Clone for ServerMessage {
    fn clone(&self) -> (r: Self)
        ensures
            r == *self,
    {
        match self {
            ServerMessage::Clipboard { text } => ServerMessage::Clipboard { text: text.clone() },
            ServerMessage::ClipboardBlob { blob } => ServerMessage::ClipboardBlob {
                blob: blob.clone(),
            },
        }
    }
}

impl Default for MediaHub {
    fn default() -> (r: Self)
        ensures
            r.wf(),
            r@ == (Hub {
                sessions: Map::empty(),
                clients: Seq::empty(),
                next_client_id: 1,
                capacity: DEFAULT_CLIENT_QUEUE_CAPACITY as nat,
            }),
    {
        MediaHub::with_client_queue_capacity(DEFAULT_CLIENT_QUEUE_CAPACITY)
    }
}

impl PartialEq for MediaInput {
    fn eq(&self, other: &Self) -> (r: bool) {
        match (self, other) {
            (
                MediaInput::ViewportResize { width: w1, height: h1 },
                MediaInput::ViewportResize { width: w2, height: h2 },
            ) => *w1 == *w2 && *h1 == *h2,
            (MediaInput::RequestKeyframe, MediaInput::RequestKeyframe) => true,
            (
                MediaInput::SetClipboard { text: left },
                MediaInput::SetClipboard { text: right },
            ) => same_text(left.as_str(), right.as_str()),
            (
                MediaInput::SetClipboardBlob { blob: left },
                MediaInput::SetClipboardBlob { blob: right },
            ) => same_text(left.id.as_str(), right.id.as_str()) && same_text(
                left.mime.as_str(),
                right.mime.as_str(),
            ) && left.size == right.size,
            (MediaInput::Scene { message: left }, MediaInput::Scene { message: right }) => same_text(
                left.as_str(),
                right.as_str(),
            ),
            _ => false,
        }
    }
}

impl vstd::std_specs::cmp::PartialEqSpecImpl for MediaInput {
    open spec fn obeys_eq_spec() -> bool {
        true
    }

    open spec fn eq_spec(&self, other: &Self) -> bool {
        match (self, other) {
            (
                MediaInput::ViewportResize { width: w1, height: h1 },
                MediaInput::ViewportResize { width: w2, height: h2 },
            ) => w1 == w2 && h1 == h2,
            (MediaInput::RequestKeyframe, MediaInput::RequestKeyframe) => true,
            (
                MediaInput::SetClipboard { text: left },
                MediaInput::SetClipboard { text: right },
            ) => left@ == right@,
            (
                MediaInput::SetClipboardBlob { blob: left },
                MediaInput::SetClipboardBlob { blob: right },
            ) => left.id@ == right.id@ && left.mime@ == right.mime@ && left.size == right.size,
            (MediaInput::Scene { message: left }, MediaInput::Scene { message: right }) => left@
                == right@,
            _ => false,
        }
    }
}

/// Two commands are the same whenever they were queued.
impl PartialEq for MediaCommand {
    fn eq(&self, other: &Self) -> (r: bool) {
        match (self, other) {
            (
                MediaCommand::Input { attachment_id: left, input: left_input, queued_at_us: _ },
                MediaCommand::Input { attachment_id: right, input: right_input, queued_at_us: _ },
            ) => *left == *right && *left_input == *right_input,
            (
                MediaCommand::Disconnected { attachment_id: left },
                MediaCommand::Disconnected { attachment_id: right },
            ) => *left == *right,
            _ => false,
        }
    }
}

impl vstd::std_specs::cmp::PartialEqSpecImpl for MediaCommand {
    open spec fn obeys_eq_spec() -> bool {
        true
    }

    open spec fn eq_spec(&self, other: &Self) -> bool {
        match (self, other) {
            (
                MediaCommand::Input { attachment_id: left, input: left_input, queued_at_us: _ },
                MediaCommand::Input { attachment_id: right, input: right_input, queued_at_us: _ },
            ) => left == right && vstd::std_specs::cmp::PartialEqSpec::eq_spec(
                left_input,
                right_input,
            ),
            (
                MediaCommand::Disconnected { attachment_id: left },
                MediaCommand::Disconnected { attachment_id: right },
            ) => left == right,
            _ => false,
        }
    }
}

impl MediaHubError {
    /// The message that goes with the error.
    pub open spec fn message_text(&self) -> Seq<char> {
        match self {
            MediaHubError::UnknownSession(name) => "unknown media session: "@ + name@,
            MediaHubError::InvalidPacket(reason) => "invalid media packet: "@ + reason@,
            MediaHubError::InvalidInput(reason) => "invalid input: "@ + reason@,
            MediaHubError::InputBackpressure => "input queue is full"@,
            MediaHubError::MissingConfig => "stream configuration has not been published"@,
            MediaHubError::NonMonotonicSequence => "media sequence must increase monotonically"@,
            MediaHubError::InvalidDimensions => "coded dimensions are out of range"@,
            MediaHubError::Unavailable => "media service is unavailable"@,
        }
    }

    pub fn message(&self) -> (r: String)
        ensures
            r@ == self.message_text(),
    {
        match self {
            MediaHubError::UnknownSession(name) => join2("unknown media session: ", name.as_str()),
            MediaHubError::InvalidPacket(reason) => join2("invalid media packet: ", reason.as_str()),
            MediaHubError::InvalidInput(reason) => join2("invalid input: ", reason.as_str()),
            MediaHubError::InputBackpressure => "input queue is full".to_owned(),
            MediaHubError::MissingConfig => "stream configuration has not been published".to_owned(),
            MediaHubError::NonMonotonicSequence => "media sequence must increase monotonically".to_owned(),
            MediaHubError::InvalidDimensions => "coded dimensions are out of range".to_owned(),
            MediaHubError::Unavailable => "media service is unavailable".to_owned(),
        }
    }
}

/// No push makes a queue longer than its capacity or reopens or closes it.
pub proof fn law_queue_stays_bounded(q: Queue, packet: MediaPacket)
    requires
        2 <= q.capacity < usize::MAX,
        q.packets.len() <= q.capacity,
    ensures
        pushed(q, packet).0.packets.len() <= q.capacity,
        pushed(q, packet).0.capacity == q.capacity,
        pushed(q, packet).0.closed == q.closed,
{
    lemma_push_drops(q, packet);
}

/// A client is never handed a delta frame that it cannot decode. Whatever a push
/// throws out of a queue or turns away, the stream it belonged to waits for a
/// keyframe afterwards; while a stream waits, its delta frames are turned away;
/// and a keyframe ends the wait.
pub proof fn law_deltas_wait_for_a_keyframe(q: Queue, packet: MediaPacket, stream: u64)
    requires
        2 <= q.capacity < usize::MAX,
        q.packets.len() <= q.capacity,
        !q.closed,
    ensures
        ({
            let (next, outcome) = pushed(q, packet);
            let waiting = is_delta(packet) && q.needs_keyframe.contains(packet.header.stream_id);
            // Evicted video leaves its stream waiting, unless this is its keyframe.
            &&& !waiting && q.packets.len() == q.capacity && video_streams(q.packets).contains(
                stream,
            ) && !(is_keyframe(packet) && packet.header.stream_id == stream)
                ==> next.needs_keyframe.contains(stream)
            // A frame that is turned away leaves its stream waiting.
            &&& outcome is Dropped ==> next.needs_keyframe.contains(packet.header.stream_id)
            // A waiting stream's delta frame is turned away, and nothing else changes.
            &&& waiting ==> next == q && outcome == QueuePush::Dropped { count: 1 }
            // Nothing but a keyframe ends the wait.
            &&& q.needs_keyframe.contains(stream) && !next.needs_keyframe.contains(stream)
                ==> is_keyframe(packet) && packet.header.stream_id == stream
            // A keyframe always gets through and ends it.
            &&& is_keyframe(packet) ==> outcome is Sent && next.packets.last() == packet
                && !next.needs_keyframe.contains(packet.header.stream_id)
        }),
{
    lemma_push_drops(q, packet);
    lemma_latest_configs(q.packets);
}

/// As long as the configurations leave a place free, no push loses the last
/// configuration of a stream.
pub proof fn law_configs_survive(q: Queue, packet: MediaPacket, stream: u64)
    requires
        2 <= q.capacity < usize::MAX,
        q.packets.len() <= q.capacity,
        latest_configs(q.packets).len() < q.capacity,
        has_config(q.packets, stream),
    ensures
        has_config(pushed(q, packet).0.packets, stream),
{
    lemma_latest_configs(q.packets);
    let next = pushed(q, packet).0.packets;
    let configs = latest_configs(q.packets);
    assert(has_config(configs, stream));
    let i = choose|i: int| 0 <= i < configs.len() && is_config_of(#[trigger] configs[i], stream);
    let j = choose|j: int| 0 <= j < q.packets.len() && is_config_of(#[trigger] q.packets[j], stream);
    if q.closed || (is_delta(packet) && q.needs_keyframe.contains(packet.header.stream_id))
        || q.packets.len() < q.capacity {
        assert(is_config_of(next[j], stream));
    } else {
        assert(is_config_of(next[i], stream));
    }
}

/// The packets that a client is shown first: of each stream its configuration,
/// then its keyframe.
pub open spec fn opening(streams: Map<u64, StreamBootstrap>, ids: Seq<u64>) -> Seq<MediaPacket>
    decreases ids.len(),
{
    if ids.len() == 0 {
        Seq::empty()
    } else {
        let stream = streams[ids.last()];
        let config = match stream.config {
            Some(config) => seq![*config],
            None => Seq::empty(),
        };
        let keyframe = match stream.keyframe {
            Some(keyframe) => seq![*keyframe],
            None => Seq::empty(),
        };
        opening(streams, ids.drop_last()) + config + keyframe
    }
}

/// A client that attaches late starts with the configuration and the latest
/// keyframe of every stream, each configuration before its keyframe, and with
/// nothing else, as far as its queue can hold them.
pub proof fn law_late_client_starts_with_config_and_keyframe(
    capacity: nat,
    streams: Map<u64, StreamBootstrap>,
    ids: Seq<u64>,
)
    requires
        opening(streams, ids).len() <= capacity,
    ensures
        replayed(empty_queue(capacity), streams, ids) == (Queue {
            packets: opening(streams, ids),
            ..empty_queue(capacity)
        }),
    decreases ids.len(),
{
    if ids.len() > 0 {
        law_late_client_starts_with_config_and_keyframe(capacity, streams, ids.drop_last());
        let q = replayed(empty_queue(capacity), streams, ids.drop_last());
        let stream = streams[ids.last()];
        let q1 = pushed_if_some(q, stream.config);
        let q2 = pushed_if_some(q1, stream.keyframe);
        assert(q1.needs_keyframe =~= Set::<u64>::empty());
        assert(q2.needs_keyframe =~= Set::<u64>::empty());
        assert(q2.packets =~= opening(streams, ids));
    }
}

/// Sequence numbers of a stream only go up: after a packet, only one with a
/// larger number is accepted, until the stream has ended.
pub proof fn law_sequences_ascend(
    streams: Map<u64, StreamBootstrap>,
    first: MediaPacket,
    second: MediaPacket,
)
    requires
        first.header.kind != MediaKind::StreamEnd,
        second.header.stream_id == first.header.stream_id,
    ensures
        ({
            let stream = stream_of(streams_after(streams, first), second.header.stream_id);
            out_of_order(stream, second) <==> second.header.sequence <= first.header.sequence
        }),
{
}

/// Streams do not touch each other: a packet of one leaves what is known of every
/// other one as it was, the number of its last packet included.
pub proof fn law_streams_are_independent(
    hub: Hub,
    session: Seq<char>,
    packet: MediaPacket,
    check: Result<(), String>,
    r: Result<PublishStats, MediaHubError>,
    after: Hub,
    stream: u64,
)
    requires
        published(hub, session, packet, check, r, after),
        packet.header.stream_id != stream,
    ensures
        stream_of(after.sessions[session], stream) == stream_of(hub.sessions[session], stream),
{
}

/// An ended stream is forgotten: no client that attaches later is shown it, and
/// its next packet has to be a configuration.
pub proof fn law_ended_stream_is_forgotten(
    streams: Map<u64, StreamBootstrap>,
    end: MediaPacket,
    next: MediaPacket,
)
    requires
        end.header.kind == MediaKind::StreamEnd,
        next.header.stream_id == end.header.stream_id,
    ensures
        !streams_after(streams, end).dom().contains(end.header.stream_id),
        lacks_config(stream_of(streams_after(streams, end), next.header.stream_id), next)
            <==> next.header.kind != MediaKind::StreamConfig,
{
}

/// Whether a stream is not `stream`.
pub open spec fn is_other(stream: u64) -> spec_fn(u64) -> bool {
    |id: u64| id != stream
}

/// Whether a packet is not of `stream`.
pub open spec fn is_of_other(stream: u64) -> spec_fn(MediaPacket) -> bool {
    |packet: MediaPacket| packet.header.stream_id != stream
}

/// The streams other than `stream`.
pub open spec fn others(ids: Seq<u64>, stream: u64) -> Seq<u64> {
    crate::lists::retained(ids, is_other(stream))
}

/// The packets of the streams other than `stream`.
pub open spec fn without_stream(packets: Seq<MediaPacket>, stream: u64) -> Seq<MediaPacket> {
    crate::lists::retained(packets, is_of_other(stream))
}

/// There is a packet of the stream among these.
pub open spec fn shows(packets: Seq<MediaPacket>, stream: u64) -> bool {
    exists|i: int| 0 <= i < packets.len() && (#[trigger] packets[i]).header.stream_id == stream
}

/// There is one way only to put the streams in order.
proof fn lemma_one_order(a: Seq<u64>, b: Seq<u64>, streams: Set<u64>)
    requires
        ascending(a, streams),
        ascending(b, streams),
    ensures
        a == b,
    decreases a.len(),
{
    if a.len() == 0 {
        if b.len() > 0 {
            assert(b.contains(b[0]));
            assert(a.contains(b[0]));
        }
        assert(a =~= b);
    } else {
        let x = a.last();
        assert(a.contains(x));
        assert(b.contains(x));
        let y = b.last();
        assert(b.contains(y));
        assert(a.contains(y));
        let i = b.index_of(x);
        let j = a.index_of(y);
        assert(x == y) by {
            if i < b.len() - 1 {
                assert(b[i] < b[b.len() - 1]);
            }
            if j < a.len() - 1 {
                assert(a[j] < a[a.len() - 1]);
            }
        }
        lemma_front_ascends(a, streams);
        lemma_front_ascends(b, streams);
        lemma_one_order(a.drop_last(), b.drop_last(), streams.remove(x));
        assert(a =~= a.drop_last().push(x));
        assert(b =~= b.drop_last().push(x));
    }
}

proof fn lemma_front_ascends(ids: Seq<u64>, streams: Set<u64>)
    requires
        ascending(ids, streams),
        ids.len() > 0,
    ensures
        ascending(ids.drop_last(), streams.remove(ids.last())),
{
    let front = ids.drop_last();
    assert forall|id: u64|
        streams.remove(ids.last()).contains(id) <==> #[trigger] front.contains(id) by {
        if streams.remove(ids.last()).contains(id) {
            assert(ids.contains(id));
            let i = ids.index_of(id);
            assert(front[i] == id);
        }
        if front.contains(id) {
            let i = front.index_of(id);
            assert(ids[i] == id);
            assert(ids.contains(id));
            assert(ids[i] < ids[ids.len() - 1]);
        }
    }
}

proof fn lemma_others_ascend(ids: Seq<u64>, streams: Set<u64>, stream: u64)
    requires
        ascending(ids, streams),
    ensures
        ascending(others(ids, stream), streams.remove(stream)),
{
    let keep = is_other(stream);
    let rest = others(ids, stream);
    let places = crate::lists::lemma_retained(ids, keep);
    assert forall|i: int, j: int| 0 <= i < j < rest.len() implies #[trigger] rest[i]
        < #[trigger] rest[j] by {
        assert(places[i] < places[j]);
        assert(ids[places[i]] < ids[places[j]]);
    }
    assert forall|id: u64| streams.remove(stream).contains(id) <==> #[trigger] rest.contains(id) by {
        if streams.remove(stream).contains(id) {
            assert(ids.contains(id));
            let i = ids.index_of(id);
            assert(keep(ids[i]));
        }
        if rest.contains(id) {
            let i = rest.index_of(id);
            assert(keep(rest[i]));
            assert(ids[places[i]] == id);
            assert(ids.contains(id));
        }
    }
}

/// The streams in order with one more of them.
proof fn lemma_one_more_in_order(ids: Seq<u64>, streams: Set<u64>, stream: u64) -> (r: Seq<u64>)
    requires
        ascending(ids, streams),
        !streams.contains(stream),
    ensures
        ascending(r, streams.insert(stream)),
        others(r, stream) == ids,
    decreases ids.len(),
{
    let keep = is_other(stream);
    if ids.len() == 0 || ids.last() < stream {
        let r = ids.push(stream);
        assert forall|i: int| 0 <= i < ids.len() implies keep(#[trigger] ids[i]) by {
            assert(ids.contains(ids[i]));
        }
        crate::lists::lemma_retained_all(ids, keep);
        assert(r.drop_last() =~= ids);
        assert forall|i: int| 0 <= i < ids.len() implies #[trigger] ids[i] < stream by {
            if i < ids.len() - 1 {
                assert(ids[i] < ids[ids.len() - 1]);
            }
        }
        assert forall|id: u64| streams.insert(stream).contains(id) <==> #[trigger] r.contains(
            id,
        ) by {
            if id == stream {
                assert(r[ids.len() as int] == id);
            } else if ids.contains(id) {
                let i = ids.index_of(id);
                assert(r[i] == id);
            }
            if r.contains(id) && id != stream {
                let i = r.index_of(id);
                assert(ids[i] == id);
                assert(ids.contains(id));
            }
        }
        r
    } else {
        let last = ids.last();
        let front = ids.drop_last();
        lemma_front_ascends(ids, streams);
        let before = lemma_one_more_in_order(front, streams.remove(last), stream);
        let r = before.push(last);
        assert(ids.contains(last));
        assert(r.drop_last() =~= before);
        assert(others(r, stream) =~= ids);
        let known = streams.remove(last).insert(stream);
        assert forall|i: int| 0 <= i < before.len() implies #[trigger] before[i] < last by {
            assert(before.contains(before[i]));
            assert(known.contains(before[i]));
            if before[i] != stream {
                assert(front.contains(before[i]));
                let j = front.index_of(before[i]);
                assert(ids[j] < ids[ids.len() - 1]);
            }
        }
        assert forall|id: u64| streams.insert(stream).contains(id) <==> #[trigger] r.contains(
            id,
        ) by {
            if streams.insert(stream).contains(id) {
                if id == last {
                    assert(r[before.len() as int] == id);
                } else {
                    assert(known.contains(id));
                    assert(before.contains(id));
                    let i = before.index_of(id);
                    assert(r[i] == id);
                }
            }
            if r.contains(id) && id != last {
                let i = r.index_of(id);
                assert(before[i] == id);
                assert(before.contains(id));
            }
        }
        r
    }
}

/// A stream of which there is nothing to show, or that is not asked for, makes no
/// difference to a replay.
proof fn lemma_replay_without(
    q: Queue,
    streams: Map<u64, StreamBootstrap>,
    rest: Map<u64, StreamBootstrap>,
    ids: Seq<u64>,
    stream: u64,
)
    requires
        forall|i: int|
            0 <= i < ids.len() && #[trigger] ids[i] != stream ==> rest[ids[i]] == streams[ids[i]],
    ensures
        replayed(q, rest, others(ids, stream)) == replayed(q, streams, others(ids, stream)),
        streams[stream].config is None && streams[stream].keyframe is None ==> replayed(
            q,
            streams,
            ids,
        ) == replayed(q, streams, others(ids, stream)),
    decreases ids.len(),
{
    if ids.len() > 0 {
        let front = ids.drop_last();
        assert forall|i: int| 0 <= i < front.len() && #[trigger] front[i] != stream implies rest[front[i]]
            == streams[front[i]] by {
            assert(front[i] == ids[i]);
        }
        lemma_replay_without(q, streams, rest, front, stream);
        if ids.last() != stream {
            assert(ids[ids.len() - 1] == ids.last());
            assert(others(ids, stream) == others(front, stream).push(ids.last()));
            assert(others(ids, stream).drop_last() =~= others(front, stream));
        }
    }
}

spec fn inside(packet: Option<Arc<MediaPacket>>) -> MediaPacket {
    *packet->0
}

proof fn lemma_push_shows(q: Queue, packet: MediaPacket, stream: u64)
    requires
        !shows(q.packets, stream),
        packet.header.stream_id != stream,
        q.capacity >= 1,
    ensures
        !shows(pushed(q, packet).0.packets, stream),
{
    lemma_latest_configs(q.packets);
    let next = pushed(q, packet).0.packets;
    assert forall|i: int| 0 <= i < next.len() implies (#[trigger] next[i]).header.stream_id
        != stream by {
        if next[i] != packet {
            assert(q.packets.contains(next[i])) by {
                if q.closed || (is_delta(packet) && q.needs_keyframe.contains(
                    packet.header.stream_id,
                )) || q.packets.len() < q.capacity {
                    assert(next[i] == q.packets[i]);
                } else {
                    assert(next[i] == latest_configs(q.packets)[i]);
                }
            }
            let j = q.packets.index_of(next[i]);
            assert(q.packets[j].header.stream_id != stream);
        }
    }
}

/// What is replayed of other streams holds nothing of this one.
proof fn lemma_replay_shows(
    capacity: nat,
    streams: Map<u64, StreamBootstrap>,
    ids: Seq<u64>,
    stream: u64,
)
    requires
        capacity >= 2,
        forall|i: int| 0 <= i < ids.len() ==> stream_ok(#[trigger] ids[i], streams[ids[i]]),
        forall|i: int|
            0 <= i < ids.len() ==> #[trigger] ids[i] != stream || streams[stream].config is None,
    ensures
        !shows(replayed(empty_queue(capacity), streams, ids).packets, stream),
        replayed(empty_queue(capacity), streams, ids).capacity == capacity,
    decreases ids.len(),
{
    if ids.len() > 0 {
        let front = ids.drop_last();
        let id = ids.last();
        assert forall|i: int| 0 <= i < front.len() implies #[trigger] front[i] == ids[i] by {}
        lemma_replay_shows(capacity, streams, front, stream);
        assert(id == ids[ids.len() - 1]);
        assert(stream_ok(id, streams[id]));
        let q = replayed(empty_queue(capacity), streams, front);
        if streams[id].config is Some {
            lemma_push_shows(q, inside(streams[id].config), stream);
        }
        let next = pushed_if_some(q, streams[id].config);
        if streams[id].keyframe is Some {
            lemma_push_shows(next, inside(streams[id].keyframe), stream);
        }
    }
}

/// Leaving a stream out of the opening leaves out its packets and no others.
proof fn lemma_opening_without(
    streams: Map<u64, StreamBootstrap>,
    ids: Seq<u64>,
    stream: u64,
)
    requires
        forall|i: int| 0 <= i < ids.len() ==> stream_ok(#[trigger] ids[i], streams[ids[i]]),
    ensures
        opening(streams, others(ids, stream)) == without_stream(opening(streams, ids), stream),
        opening(streams, others(ids, stream)).len() <= opening(streams, ids).len(),
    decreases ids.len(),
{
    if ids.len() > 0 {
        let front = ids.drop_last();
        let id = ids.last();
        assert forall|i: int| 0 <= i < front.len() implies #[trigger] front[i] == ids[i] by {}
        lemma_opening_without(streams, front, stream);
        assert(id == ids[ids.len() - 1]);
        assert(stream_ok(id, streams[id]));
        let before = opening(streams, front);
        let config = inside(streams[id].config);
        let keyframe = inside(streams[id].keyframe);
        let with_config = if streams[id].config is Some {
            before.push(config)
        } else {
            before
        };
        let all = if streams[id].keyframe is Some {
            with_config.push(keyframe)
        } else {
            with_config
        };
        assert(opening(streams, ids) =~= all);
        crate::lists::lemma_retained_push(before, config, is_of_other(stream));
        crate::lists::lemma_retained_push(with_config, keyframe, is_of_other(stream));
        if id != stream {
            assert(others(ids, stream) == others(front, stream).push(id));
            assert(others(ids, stream).drop_last() =~= others(front, stream));
            assert(opening(streams, others(ids, stream)) =~= without_stream(all, stream));
        }
    }
}

/// The end of a stream reaches every client that is attached then.
pub proof fn law_stream_end_reaches_its_clients(
    hub: Hub,
    session: Seq<char>,
    end: MediaPacket,
    check: Result<(), String>,
    r: Result<PublishStats, MediaHubError>,
    after: Hub,
)
    requires
        hub_ok(hub),
        published(hub, session, end, check, r, after),
        r is Ok,
        end.header.kind == MediaKind::StreamEnd,
    ensures
        forall|i: int|
            0 <= i < hub.clients.len() && (#[trigger] hub.clients[i]).session == Some(session)
                ==> after.clients[i].queue.packets.len() > 0
                && after.clients[i].queue.packets.last() == end,
{
    assert forall|i: int|
        0 <= i < hub.clients.len() && (#[trigger] hub.clients[i]).session == Some(session) implies
    after.clients[i].queue.packets.len() > 0 && after.clients[i].queue.packets.last() == end by {
        assert(after.clients[i] == delivered(hub.clients[i], session, end));
        assert(!hub.clients[i].queue.closed);
    }
}

/// A client that attaches after the end of a stream is shown no packet of it. It is
/// shown what there is of the other streams, in the same order: that is what a
/// client was shown before less the packets of the ended stream, where the queue
/// could hold all of them.
pub proof fn law_ended_stream_is_not_replayed(
    hub: Hub,
    session: Seq<char>,
    end: MediaPacket,
    check: Result<(), String>,
    r: Result<PublishStats, MediaHubError>,
    after: Hub,
    ids: Seq<u64>,
    q: Queue,
)
    requires
        hub_ok(hub),
        published(hub, session, end, check, r, after),
        r is Ok,
        end.header.kind == MediaKind::StreamEnd,
        ascending(ids, hub.sessions[session].dom()),
        bootstrapped(after.capacity, after.sessions[session], q),
    ensures
        !shows(q.packets, end.header.stream_id),
        q == replayed(
            empty_queue(hub.capacity),
            hub.sessions[session],
            others(ids, end.header.stream_id),
        ),
        opening(hub.sessions[session], ids).len() <= hub.capacity ==> q.packets == without_stream(
            replayed(empty_queue(hub.capacity), hub.sessions[session], ids).packets,
            end.header.stream_id,
        ),
        stream_of(after.sessions[session], end.header.stream_id).config is None,
{
    let streams = hub.sessions[session];
    let rest = after.sessions[session];
    let stream = end.header.stream_id;
    let kept = others(ids, stream);
    assert(hub.sessions.dom().contains(session));
    assert(streams_ok(streams));
    assert forall|i: int| 0 <= i < ids.len() implies stream_ok(#[trigger] ids[i], streams[ids[i]]) by {
        assert(ids.contains(ids[i]));
        assert(streams.dom().contains(ids[i]));
    }
    assert(rest == streams.remove(stream));
    assert(rest.dom() =~= streams.dom().remove(stream));
    let chosen = choose|chosen: Seq<u64>| #[trigger]
        ascending(chosen, rest.dom()) && q == replayed(empty_queue(after.capacity), rest, chosen);
    lemma_others_ascend(ids, streams.dom(), stream);
    lemma_one_order(chosen, kept, rest.dom());
    lemma_replay_without(empty_queue(hub.capacity), streams, rest, ids, stream);
    let places = crate::lists::lemma_retained(ids, is_other(stream));
    assert forall|i: int| 0 <= i < kept.len() implies #[trigger] kept[i] != stream && stream_ok(
        kept[i],
        streams[kept[i]],
    ) by {
        assert(kept[i] == ids[places[i]]);
    }
    lemma_replay_shows(hub.capacity, streams, kept, stream);
    if opening(streams, ids).len() <= hub.capacity {
        lemma_opening_without(streams, ids, stream);
        law_late_client_starts_with_config_and_keyframe(hub.capacity, streams, ids);
        law_late_client_starts_with_config_and_keyframe(hub.capacity, streams, kept);
    }
}

/// A stream without a configuration, be it new or ended, is shown to nobody, and
/// stays so whatever is published, until its configuration is.
pub proof fn law_stream_is_shown_once_it_is_configured(
    hub: Hub,
    session: Seq<char>,
    packet: MediaPacket,
    check: Result<(), String>,
    r: Result<PublishStats, MediaHubError>,
    after: Hub,
    watched: Seq<char>,
    stream: u64,
    q: Queue,
)
    requires
        hub_ok(hub),
        published(hub, session, packet, check, r, after),
        hub.sessions.dom().contains(watched),
        stream_of(hub.sessions[watched], stream).config is None,
    ensures
        bootstrapped(hub.capacity, hub.sessions[watched], q) ==> !shows(q.packets, stream),
        !(session == watched && is_config_of(packet, stream)) ==> stream_of(
            after.sessions[watched],
            stream,
        ).config is None,
{
    let streams = hub.sessions[watched];
    assert(streams_ok(streams));
    if bootstrapped(hub.capacity, streams, q) {
        let ids = choose|ids: Seq<u64>| #[trigger]
            ascending(ids, streams.dom()) && q == replayed(empty_queue(hub.capacity), streams, ids);
        assert forall|i: int| 0 <= i < ids.len() implies stream_ok(
            #[trigger] ids[i],
            streams[ids[i]],
        ) && streams.dom().contains(ids[i]) by {
            assert(ids.contains(ids[i]));
        }
        lemma_replay_shows(hub.capacity, streams, ids, stream);
    }
}

/// A refused packet changes nothing that anyone sees: no client is sent anything,
/// and a client that attaches next is shown the same, whatever it watches.
pub proof fn law_refused_packet_changes_no_replay(
    hub: Hub,
    session: Seq<char>,
    packet: MediaPacket,
    check: Result<(), String>,
    r: Result<PublishStats, MediaHubError>,
    after: Hub,
    watched: Seq<char>,
    q: Queue,
)
    requires
        hub_ok(hub),
        published(hub, session, packet, check, r, after),
        r is Err,
    ensures
        after.clients == hub.clients,
        after.capacity == hub.capacity,
        after.sessions.dom() == hub.sessions.dom(),
        hub.sessions.dom().contains(watched) ==> (bootstrapped(
            after.capacity,
            after.sessions[watched],
            q,
        ) <==> bootstrapped(hub.capacity, hub.sessions[watched], q)),
{
    assert(after.sessions.dom() =~= hub.sessions.dom());
    let streams = hub.sessions[watched];
    let next = after.sessions[watched];
    let id = packet.header.stream_id;
    if hub.sessions.dom().contains(watched) && next != streams {
        assert(watched == session);
        assert(streams_ok(streams));
        if streams.dom().contains(id) {
            assert(next =~= streams);
        } else {
            assert(next == streams.insert(id, no_stream()));
            assert(next.dom() =~= streams.dom().insert(id));
            assert(next.dom().remove(id) =~= streams.dom());
            let fresh = empty_queue(hub.capacity);
            if bootstrapped(hub.capacity, streams, q) {
                let ids = choose|ids: Seq<u64>| #[trigger]
                    ascending(ids, streams.dom()) && q == replayed(fresh, streams, ids);
                let more = lemma_one_more_in_order(ids, streams.dom(), id);
                lemma_replay_without(fresh, next, streams, more, id);
                assert(ascending(more, next.dom()));
            }
            if bootstrapped(hub.capacity, next, q) {
                let more = choose|more: Seq<u64>| #[trigger]
                    ascending(more, next.dom()) && q == replayed(fresh, next, more);
                lemma_others_ascend(more, next.dom(), id);
                lemma_replay_without(fresh, next, streams, more, id);
                assert(ascending(others(more, id), streams.dom()));
            }
        }
    }
}

/// A new configuration outdates the keyframe before it: a client that attaches
/// now is shown the configuration alone.
pub proof fn law_new_config_outdates_the_keyframe(
    streams: Map<u64, StreamBootstrap>,
    config: MediaPacket,
)
    requires
        config.header.kind == MediaKind::StreamConfig,
    ensures
        ({
            let stream = streams_after(streams, config)[config.header.stream_id];
            stream.keyframe is None && stream.config == Some(Arc::new(config))
        }),
{
}

/// The packets of one stream among these, in their order.
pub open spec fn of_stream(packets: Seq<MediaPacket>, stream: u64) -> Seq<MediaPacket> {
    crate::lists::retained(packets, is_of(stream))
}

/// Whether a packet is of `stream`.
pub open spec fn is_of(stream: u64) -> spec_fn(MediaPacket) -> bool {
    |packet: MediaPacket| packet.header.stream_id == stream
}

/// The packets were published one after the other and all accepted, and `hubs` lists the
/// states of the hub in between.
pub open spec fn all_accepted(hubs: Seq<Hub>, session: Seq<char>, packets: Seq<MediaPacket>) -> bool {
    &&& hubs.len() == packets.len() + 1
    &&& forall|i: int|
        0 <= i < packets.len() ==> was_accepted(
            #[trigger] hubs[i],
            session,
            packets[i],
            hubs[i + 1],
        )
}

/// The packet was published and accepted.
pub open spec fn was_accepted(
    hub: Hub,
    session: Seq<char>,
    packet: MediaPacket,
    after: Hub,
) -> bool {
    exists|check: Result<(), String>, r: Result<PublishStats, MediaHubError>| #[trigger]
        published(hub, session, packet, check, r, after) && r is Ok
}

/// After an accepted packet a stream is kept as follows: its configuration is the packet
/// if that is one, its keyframe is the packet if that is one, and nothing of another
/// stream changes.
pub proof fn law_accepted_packet_is_kept(
    hub: Hub,
    session: Seq<char>,
    packet: MediaPacket,
    after: Hub,
    stream: u64,
)
    requires
        was_accepted(hub, session, packet, after),
    ensures
        ({
            let before = stream_of(hub.sessions[session], stream);
            let kept = stream_of(after.sessions[session], stream);
            let own = packet.header.stream_id == stream;
            let kind = packet.header.kind;
            &&& after.sessions.dom().contains(session)
            &&& own && kind == MediaKind::StreamConfig ==> kept.config == Some(Arc::new(packet))
                && kept.keyframe is None
            &&& own && kind == MediaKind::Video && packet.header.flags.keyframe ==> kept.keyframe
                == Some(Arc::new(packet)) && kept.config == before.config
            &&& own && kind == MediaKind::Video && !packet.header.flags.keyframe ==> kept.keyframe
                == before.keyframe && kept.config == before.config
            &&& own && kind == MediaKind::StreamEnd ==> kept.config is None && kept.keyframe is None
            &&& !own ==> kept == before
        }),
{
    let (check, r) = choose|check: Result<(), String>, r: Result<PublishStats, MediaHubError>|
        #[trigger] published(hub, session, packet, check, r, after) && r is Ok;
    assert(published(hub, session, packet, check, r, after));
}

/// `c` is the last configuration of the stream among the packets, and the stream does not
/// end after it.
pub open spec fn is_last_config(packets: Seq<MediaPacket>, stream: u64, c: int) -> bool {
    &&& 0 <= c < packets.len()
    &&& packets[c].header.stream_id == stream
    &&& packets[c].header.kind == MediaKind::StreamConfig
    &&& forall|i: int|
        c < i < packets.len() && (#[trigger] packets[i]).header.stream_id == stream
            ==> packets[i].header.kind == MediaKind::Video
}

/// `k` is the last keyframe of the stream among the packets.
pub open spec fn is_last_keyframe(packets: Seq<MediaPacket>, stream: u64, k: int) -> bool {
    &&& 0 <= k < packets.len()
    &&& packets[k].header.stream_id == stream
    &&& packets[k].header.kind == MediaKind::Video
    &&& packets[k].header.flags.keyframe
    &&& forall|i: int|
        k < i < packets.len() && (#[trigger] packets[i]).header.stream_id == stream
            && packets[i].header.kind == MediaKind::Video ==> !packets[i].header.flags.keyframe
}

/// However many packets were published, what is kept of a stream is its last
/// configuration and the last keyframe after that.
pub proof fn law_last_config_and_keyframe_are_kept(
    hubs: Seq<Hub>,
    session: Seq<char>,
    packets: Seq<MediaPacket>,
    stream: u64,
    c: int,
)
    requires
        all_accepted(hubs, session, packets),
        is_last_config(packets, stream, c),
    ensures
        ({
            let kept = stream_of(hubs.last().sessions[session], stream);
            &&& kept.config == Some(Arc::new(packets[c]))
            &&& forall|k: int| c < k && #[trigger] is_last_keyframe(packets, stream, k)
                ==> kept.keyframe == Some(Arc::new(packets[k]))
            &&& (forall|i: int|
                c < i < packets.len() && (#[trigger] packets[i]).header.stream_id == stream
                    ==> !packets[i].header.flags.keyframe) ==> kept.keyframe is None
        }),
    decreases packets.len(),
{
    let n = packets.len() - 1;
    let front = packets.drop_last();
    let before = hubs.drop_last();
    let last = packets.last();
    assert(was_accepted(hubs[n], session, packets[n], hubs[n + 1]));
    law_accepted_packet_is_kept(hubs[n], session, last, hubs.last(), stream);
    if c < n {
        assert(all_accepted(before, session, front)) by {
            assert forall|i: int| 0 <= i < front.len() implies was_accepted(
                #[trigger] before[i],
                session,
                front[i],
                before[i + 1],
            ) by {
                assert(was_accepted(hubs[i], session, packets[i], hubs[i + 1]));
            }
        }
        assert forall|i: int| 0 <= i < front.len() implies #[trigger] front[i] == packets[i] by {}
        law_last_config_and_keyframe_are_kept(before, session, front, stream, c);
        assert(before.last() == hubs[n]);
        let kept = stream_of(hubs.last().sessions[session], stream);
        assert forall|k: int| c < k && #[trigger] is_last_keyframe(
            packets,
            stream,
            k,
        ) implies kept.keyframe == Some(Arc::new(packets[k])) by {
            if k < n {
                assert(is_last_keyframe(front, stream, k));
                assert(packets[n] == last);
            }
        }
        if forall|i: int|
            c < i < packets.len() && (#[trigger] packets[i]).header.stream_id == stream
                ==> !packets[i].header.flags.keyframe {
            assert forall|i: int|
                c < i < front.len() && (#[trigger] front[i]).header.stream_id
                    == stream implies !front[i].header.flags.keyframe by {
                assert(front[i] == packets[i]);
            }
            assert(packets[n] == last);
        }
    }
}

/// What a client is shown of one stream when it attaches: as far as its queue can hold
/// two packets of every stream, it is shown the configuration that is kept of it and then
/// the keyframe, and nothing else of that stream.
pub proof fn law_late_client_is_shown_what_is_kept(
    capacity: nat,
    streams: Map<u64, StreamBootstrap>,
    q: Queue,
    stream: u64,
)
    requires
        streams_ok(streams),
        bootstrapped(capacity, streams, q),
        streams.dom().finite(),
        2 * streams.dom().len() <= capacity,
    ensures
        ({
            let kept = stream_of(streams, stream);
            let shown = of_stream(q.packets, stream);
            &&& kept.config is None ==> shown.len() == 0
            &&& kept.config is Some && kept.keyframe is None ==> shown.len() == 1
                && kept.config == Some(Arc::new(shown[0]))
            &&& kept.config is Some && kept.keyframe is Some ==> shown.len() == 2
                && kept.config == Some(Arc::new(shown[0])) && kept.keyframe
                == Some(Arc::new(shown[1]))
        }),
        !q.closed,
        q.needs_keyframe == Set::<u64>::empty(),
{
    let ids = choose|ids: Seq<u64>| #[trigger]
        ascending(ids, streams.dom()) && q == replayed(empty_queue(capacity), streams, ids);
    assert(ids.to_set() =~= streams.dom());
    assert(ids.no_duplicates()) by {
        assert forall|i: int, j: int|
            0 <= i < ids.len() && 0 <= j < ids.len() && i != j implies ids[i] != ids[j] by {
            if i < j {
                assert(ids[i] < ids[j]);
            } else {
                assert(ids[j] < ids[i]);
            }
        }
    }
    ids.unique_seq_to_set();
    lemma_opening_length(streams, ids);
    law_late_client_starts_with_config_and_keyframe(capacity, streams, ids);
    assert forall|i: int| 0 <= i < ids.len() implies stream_ok(#[trigger] ids[i], streams[ids[i]]) by {
        assert(ids.contains(ids[i]));
        assert(streams.dom().contains(ids[i]));
    }
    lemma_opening_of_stream(streams, ids, stream);
    if streams.dom().contains(stream) {
        assert(ids.contains(stream));
        let i = ids.index_of(stream);
        assert(stream_ok(ids[i], streams[ids[i]]));
        let alone = seq![stream];
        assert(alone.drop_last() =~= Seq::<u64>::empty());
        assert(opening(streams, alone.drop_last()) =~= Seq::<MediaPacket>::empty());
        let shown = of_stream(q.packets, stream);
        assert(shown == opening(streams, alone));
        if streams[stream].config is Some {
            assert(shown[0] == inside(streams[stream].config));
            if streams[stream].keyframe is Some {
                assert(shown[1] == inside(streams[stream].keyframe));
            }
        }
    } else {
        assert(!ids.contains(stream));
    }
}

proof fn lemma_opening_length(streams: Map<u64, StreamBootstrap>, ids: Seq<u64>)
    ensures
        opening(streams, ids).len() <= 2 * ids.len(),
    decreases ids.len(),
{
    if ids.len() > 0 {
        lemma_opening_length(streams, ids.drop_last());
    }
}

proof fn lemma_opening_of_stream(streams: Map<u64, StreamBootstrap>, ids: Seq<u64>, stream: u64)
    requires
        forall|i: int| 0 <= i < ids.len() ==> stream_ok(#[trigger] ids[i], streams[ids[i]]),
        forall|i: int, j: int| 0 <= i < j < ids.len() ==> #[trigger] ids[i] < #[trigger] ids[j],
    ensures
        !ids.contains(stream) ==> of_stream(opening(streams, ids), stream).len() == 0,
        ids.contains(stream) ==> of_stream(opening(streams, ids), stream) == opening(
            streams,
            seq![stream],
        ),
    decreases ids.len(),
{
    if ids.len() > 0 {
        let front = ids.drop_last();
        let id = ids.last();
        assert forall|i: int| 0 <= i < front.len() implies #[trigger] front[i] == ids[i] by {}
        lemma_opening_of_stream(streams, front, stream);
        assert(id == ids[ids.len() - 1]);
        assert(stream_ok(id, streams[id]));
        let before = opening(streams, front);
        let config = inside(streams[id].config);
        let keyframe = inside(streams[id].keyframe);
        let with_config = if streams[id].config is Some {
            before.push(config)
        } else {
            before
        };
        let all = if streams[id].keyframe is Some {
            with_config.push(keyframe)
        } else {
            with_config
        };
        assert(opening(streams, ids) =~= all);
        crate::lists::lemma_retained_push(before, config, is_of(stream));
        crate::lists::lemma_retained_push(with_config, keyframe, is_of(stream));
        if id == stream {
            assert(ids.contains(stream));
            assert(!front.contains(stream)) by {
                if front.contains(stream) {
                    let i = front.index_of(stream);
                    assert(ids[i] < ids[ids.len() - 1]);
                }
            }
            let alone = seq![stream];
            assert(alone.drop_last() =~= Seq::<u64>::empty());
            assert(opening(streams, alone.drop_last()) =~= Seq::<MediaPacket>::empty());
            assert(of_stream(before, stream) =~= Seq::<MediaPacket>::empty());
            assert(of_stream(all, stream) =~= opening(streams, alone));
        } else {
            if ids.contains(stream) {
                let i = ids.index_of(stream);
                assert(front[i] == stream);
                assert(front.contains(stream));
            }
            if front.contains(stream) {
                let i = front.index_of(stream);
                assert(ids[i] == stream);
                assert(ids.contains(stream));
            }
            assert(of_stream(all, stream) == of_stream(before, stream));
        }
    }
}

/// A client that attaches after any number of accepted packets is shown of a stream its
/// last configuration, then the last keyframe since, and nothing else of it.
pub proof fn law_late_client_is_shown_the_latest(
    hubs: Seq<Hub>,
    session: Seq<char>,
    packets: Seq<MediaPacket>,
    stream: u64,
    c: int,
    k: int,
    attached: Hub,
)
    requires
        all_accepted(hubs, session, packets),
        is_last_config(packets, stream, c),
        c < k,
        is_last_keyframe(packets, stream, k),
        hub_ok(hubs.last()),
        hubs.last().sessions.dom().contains(session),
        hubs.last().sessions[session].dom().finite(),
        2 * hubs.last().sessions[session].dom().len() <= hubs.last().capacity,
        with_client(hubs.last(), session, attached),
    ensures
        of_stream(attached.clients.last().queue.packets, stream) == seq![packets[c], packets[k]],
{
    let streams = hubs.last().sessions[session];
    let q = attached.clients.last().queue;
    law_last_config_and_keyframe_are_kept(hubs, session, packets, stream, c);
    law_late_client_is_shown_what_is_kept(hubs.last().capacity, streams, q, stream);
    let shown = of_stream(q.packets, stream);
    assert(Some(Arc::new(packets[c])) == Some(Arc::new(shown[0])));
    assert(Some(Arc::new(packets[k])) == Some(Arc::new(shown[1])));
    assert(shown =~= seq![packets[c], packets[k]]);
}

/// An accepted packet goes to the clients of its session and to nobody else. Every one of
/// them has it last in its queue, unless it is a frame that builds on frames which the
/// client has lost or would lose; and what was queued before comes first.
pub proof fn law_accepted_packet_reaches_its_clients(
    hub: Hub,
    session: Seq<char>,
    packet: MediaPacket,
    after: Hub,
    i: int,
)
    requires
        hub_ok(hub),
        was_accepted(hub, session, packet, after),
        0 <= i < hub.clients.len(),
    ensures
        after.clients.len() == hub.clients.len(),
        after.clients[i].id == hub.clients[i].id,
        after.clients[i].session == hub.clients[i].session,
        after.clients[i].messages == hub.clients[i].messages,
        hub.clients[i].session != Some(session) ==> after.clients[i] == hub.clients[i],
        hub.clients[i].session == Some(session) ==> {
            let before = hub.clients[i].queue;
            let now = after.clients[i].queue;
            let delta = packet.header.kind == MediaKind::Video && !packet.header.flags.keyframe;
            let lost = before.needs_keyframe.contains(packet.header.stream_id);
            &&& !delta ==> now.packets.len() > 0 && now.packets.last() == packet
            &&& delta && !lost && before.packets.len() < before.capacity ==> now.packets
                == before.packets.push(packet)
            &&& before.packets.len() < before.capacity && !delta ==> now.packets
                == before.packets.push(packet)
            &&& delta && lost ==> now == before
            &&& delta && before.packets.len() == before.capacity ==> !now.packets.contains(packet)
                || before.packets.contains(packet)
        },
{
    let (check, r) = choose|check: Result<(), String>, r: Result<PublishStats, MediaHubError>|
        #[trigger] published(hub, session, packet, check, r, after) && r is Ok;
    assert(published(hub, session, packet, check, r, after));
    assert(after.clients[i] == delivered(hub.clients[i], session, packet));
    if hub.clients[i].session == Some(session) {
        assert(!hub.clients[i].queue.closed);
        assert(queue_ok(hub.clients[i].queue, hub.capacity));
        let q = hub.clients[i].queue;
        lemma_latest_configs(q.packets);
        let now = after.clients[i].queue;
        let delta = packet.header.kind == MediaKind::Video && !packet.header.flags.keyframe;
        if delta && q.packets.len() == q.capacity && now.packets.contains(packet) {
            let m = now.packets.index_of(packet);
            if !q.needs_keyframe.contains(packet.header.stream_id) {
                assert(now.packets[m] == latest_configs(q.packets)[m]);
            }
        }
    }
}

/// A packet is accepted exactly where it continues its stream: the session is there, the
/// picture has a size that can be coded, the stream was configured or this configures it,
/// and its number is larger than the last one.
pub proof fn law_packets_are_accepted_in_order(
    hub: Hub,
    session: Seq<char>,
    packet: MediaPacket,
    r: Result<PublishStats, MediaHubError>,
    after: Hub,
)
    requires
        published(hub, session, packet, Ok(()), r, after),
    ensures
        ({
            let stream = stream_of(hub.sessions[session], packet.header.stream_id);
            r is Ok <==> {
                &&& hub.sessions.dom().contains(session)
                &&& 0 < packet.header.width <= 8192
                &&& 0 < packet.header.height <= 8192
                &&& packet.header.kind == MediaKind::StreamConfig || stream.config is Some
                &&& stream.last_sequence is None || packet.header.sequence
                    > stream.last_sequence->0
            }
        }),
        r is Ok && packet.header.kind != MediaKind::StreamEnd ==> stream_of(
            after.sessions[session],
            packet.header.stream_id,
        ).last_sequence == Some(packet.header.sequence),
        r is Err ==> after.clients == hub.clients,
{
}

/// Packets come out of a queue in the order in which they went in, each once.
pub proof fn law_queue_is_first_in_first_out(
    q: Queue,
    r: Received,
    after: Queue,
    packet: MediaPacket,
)
    requires
        received(q, r, after),
        !q.closed,
        q.packets.len() < q.capacity,
        !is_delta(packet),
    ensures
        q.packets.len() > 0 ==> (r matches Received::Packet(first) && *first == q.packets[0]
            && seq![*first] + after.packets == q.packets),
        q.packets.len() == 0 ==> r is Empty && after == q,
        pushed(q, packet).0.packets == q.packets + seq![packet],
{
    assert(pushed(q, packet).0.packets =~= q.packets + seq![packet]);
    if q.packets.len() > 0 {
        if let Received::Packet(first) = r {
            assert(seq![q.packets[0]] + after.packets =~= q.packets);
        }
    }
}

/// A push puts nothing into a queue but the packet.
pub proof fn lemma_push_adds_only(q: Queue, packet: MediaPacket)
    requires
        q.capacity >= 1,
    ensures
        forall|p: MediaPacket| #[trigger]
            pushed(q, packet).0.packets.contains(p) ==> q.packets.contains(p) || p == packet,
{
    lemma_latest_configs(q.packets);
    let next = pushed(q, packet).0.packets;
    assert forall|p: MediaPacket| #[trigger] next.contains(p) implies q.packets.contains(p) || p
        == packet by {
        let i = next.index_of(p);
        if p != packet {
            if q.closed || (is_delta(packet) && q.needs_keyframe.contains(
                packet.header.stream_id,
            )) || q.packets.len() < q.capacity {
                assert(q.packets[i] == p);
            } else {
                assert(latest_configs(q.packets)[i] == p);
            }
        }
    }
}

/// Publishing keeps the hub sound.
pub proof fn lemma_published_ok(
    hub: Hub,
    session: Seq<char>,
    packet: MediaPacket,
    check: Result<(), String>,
    r: Result<PublishStats, MediaHubError>,
    after: Hub,
)
    requires
        hub_ok(hub),
        published(hub, session, packet, check, r, after),
    ensures
        hub_ok(after),
{
    if hub.sessions.dom().contains(session) {
        let streams = hub.sessions[session];
        assert(streams_ok(streams));
        if r is Ok {
            let next = streams_after(streams, packet);
            assert(streams_ok(next));
            lemma_delivered_ok(hub, session, packet, next);
        } else {
            let id = packet.header.stream_id;
            assert(streams_ok(streams.insert(id, stream_of(streams, id))));
        }
    }
}


/// An input that passed its validation is handed to the session of the client that sent
/// it, as it is, with the client's own number and the time that it came. What the
/// session answers decides; a full one is reported as such, and so is one that is gone.
pub proof fn law_input_goes_to_its_session<S: FnOnce(&str, MediaCommand) -> Handover>(
    hub: Hub,
    attachment_id: u64,
    session: Seq<char>,
    input: MediaInput,
    check: Result<(), String>,
    queued_at_us: u64,
    send: S,
    r: Result<(), MediaHubError>,
)
    requires
        input_submitted(hub, attachment_id, session, input, check, queued_at_us, send, r),
    ensures
        r is Ok ==> check is Ok && hub.sessions.dom().contains(session) && exists|name: &str|
            name@ == session && #[trigger] call_ensures(
                send,
                (name, (MediaCommand::Input { attachment_id, input, queued_at_us })),
                Handover::Accepted,
            ),
        r is Err && r->Err_0 is InputBackpressure ==> exists|name: &str|
            name@ == session && #[trigger] call_ensures(
                send,
                (name, (MediaCommand::Input { attachment_id, input, queued_at_us })),
                Handover::Full,
            ),
        r is Err && r->Err_0 is Unavailable ==> exists|name: &str|
            name@ == session && #[trigger] call_ensures(
                send,
                (name, (MediaCommand::Input { attachment_id, input, queued_at_us })),
                Handover::Closed,
            ),
        check is Err ==> r is Err && r->Err_0 is InvalidInput,
        check is Ok && !hub.sessions.dom().contains(session) ==> r is Err
            && r->Err_0 is UnknownSession,
        r is Err ==> r->Err_0 is InvalidInput || r->Err_0 is UnknownSession
            || r->Err_0 is InputBackpressure || r->Err_0 is Unavailable,
{
}

/// A client that left is gone and every other stays, with all that it has and in its
/// order. The session is told which client left.
pub proof fn law_client_that_left_is_gone<S: FnOnce(&str, MediaCommand) -> Handover>(
    hub: Hub,
    id: u64,
    session: Seq<char>,
    send: S,
    r: bool,
    after: Hub,
    i: int,
    j: int,
)
    requires
        hub_ok(hub),
        client_left(hub, id, session, send, r, after),
        0 <= i < hub.clients.len(),
        hub.clients[i].id == id,
    ensures
        after.clients.len() == hub.clients.len() - 1,
        0 <= j < i ==> after.clients[j] == hub.clients[j],
        i < j < hub.clients.len() ==> after.clients[j - 1] == hub.clients[j],
        0 <= j < after.clients.len() ==> after.clients[j].id != id,
        hub.sessions.dom().contains(session) ==> r && handed_over(
            send,
            session,
            (MediaCommand::Disconnected { attachment_id: id }),
        ),
{
    assert(is_client(hub, i, id));
    if 0 <= j < after.clients.len() {
        assert(!is_client(after, j, id));
    }
}

/// A client gets its messages from the first to the last, each once, and nobody else's
/// change. It waits while there is none, until it has lost its session.
pub proof fn law_messages_come_from_first_to_last(
    hub: Hub,
    id: u64,
    r: ReceivedMessage,
    after: Hub,
    i: int,
    j: int,
)
    requires
        hub_ok(hub),
        message_received(hub, id, r, after),
        0 <= i < hub.clients.len(),
        hub.clients[i].id == id,
    ensures
        after.clients.len() == hub.clients.len(),
        hub.clients[i].messages.len() > 0 ==> r == ReceivedMessage::Message(
            hub.clients[i].messages[0],
        ) && after.clients[i].messages == hub.clients[i].messages.skip(1),
        hub.clients[i].messages.len() == 0 ==> after == hub && (r is Closed
            <==> hub.clients[i].session is None) && (r is Empty
            <==> hub.clients[i].session is Some),
        after.clients[i].queue == hub.clients[i].queue,
        0 <= j < hub.clients.len() && j != i ==> after.clients[j] == hub.clients[j],
{
    assert(is_client(hub, i, id));
    if hub.clients[i].messages.len() > 0 {
        assert(hub.clients[i].messages.drop_first() =~= hub.clients[i].messages.skip(1));
    }
}

/// A packet that a client gets comes out of its own queue, the first one of it, and
/// nobody else's queue changes.
pub proof fn law_packets_come_out_of_the_clients_own_queue(
    hub: Hub,
    id: u64,
    r: Received,
    after: Hub,
    i: int,
    j: int,
)
    requires
        hub_ok(hub),
        packet_received(hub, id, r, after),
        0 <= i < hub.clients.len(),
        hub.clients[i].id == id,
    ensures
        after.clients.len() == hub.clients.len(),
        received(hub.clients[i].queue, r, after.clients[i].queue),
        after.clients[i].messages == hub.clients[i].messages,
        after.clients[i].session == hub.clients[i].session,
        0 <= j < hub.clients.len() && j != i ==> after.clients[j] == hub.clients[j],
        after.sessions == hub.sessions,
{
    assert(is_client(hub, i, id));
}

/// Where a session begins anew or ends, its clients lose it: nothing more comes to them,
/// and what is queued stays. The clients of other sessions notice nothing.
pub proof fn law_clients_lose_a_session_that_ends(
    clients: Seq<Client>,
    session: Seq<char>,
    i: int,
)
    requires
        0 <= i < clients.len(),
    ensures
        all_orphaned(clients, session).len() == clients.len(),
        clients[i].session == Some(session) ==> all_orphaned(clients, session)[i].session is None
            && all_orphaned(clients, session)[i].queue.closed && all_orphaned(
            clients,
            session,
        )[i].queue.packets == clients[i].queue.packets && all_orphaned(
            clients,
            session,
        )[i].messages == clients[i].messages,
        clients[i].session != Some(session) ==> all_orphaned(clients, session)[i] == clients[i],
        all_orphaned(clients, session)[i].id == clients[i].id,
{
}

/// A new client has a number of its own, watches the session that it attached to and has
/// no messages yet; the clients before it stay as they are.
pub proof fn law_new_client_is_added(hub: Hub, session: Seq<char>, after: Hub, i: int)
    requires
        hub_ok(hub),
        hub.next_client_id < u64::MAX,
        with_client(hub, session, after),
    ensures
        after.clients.len() == hub.clients.len() + 1,
        after.clients.last().session == Some(session),
        after.clients.last().messages.len() == 0,
        0 <= i < hub.clients.len() ==> after.clients[i] == hub.clients[i] && after.clients[i].id
            != after.clients.last().id,
        after.next_client_id > after.clients.last().id,
        after.sessions == hub.sessions,
{
    if 0 <= i < hub.clients.len() {
        assert(hub.clients[i].id < hub.next_client_id);
    }
}

/// The count of those who got a packet never exceeds those who watch, and is all of
/// them where every one has room; nobody counts who does not watch.
pub proof fn law_publishing_counts_those_who_watch(
    clients: Seq<Client>,
    session: Seq<char>,
    packet: MediaPacket,
)
    ensures
        sent_count(clients, session, packet) <= watching(clients, session) <= clients.len(),
        (forall|i: int|
            0 <= i < clients.len() && (#[trigger] clients[i]).session == Some(session)
                ==> pushed(clients[i].queue, packet).1 is Sent) ==> sent_count(
            clients,
            session,
            packet,
        ) == watching(clients, session),
        (forall|i: int| 0 <= i < clients.len() ==> (#[trigger] clients[i]).session != Some(session))
            ==> watching(clients, session) == 0 && sent_count(clients, session, packet) == 0
            && dropped_count(clients, session, packet) == 0,
        (forall|i: int| 0 <= i < clients.len() ==> (#[trigger] clients[i]).session == Some(session))
            ==> watching(clients, session) == clients.len(),
    decreases clients.len(),
{
    if clients.len() > 0 {
        let front = clients.drop_last();
        law_publishing_counts_those_who_watch(front, session, packet);
        assert(clients[clients.len() - 1] == clients.last());
        assert forall|i: int| 0 <= i < front.len() implies front[i] == #[trigger] clients[i] by {}
    }
}


/// Number `i` is a configuration, and no later one is of the same stream.
pub open spec fn is_latest_config(packets: Seq<MediaPacket>, i: int) -> bool {
    &&& 0 <= i < packets.len()
    &&& packets[i].header.kind == MediaKind::StreamConfig
    &&& forall|j: int|
        i < j < packets.len() && (#[trigger] packets[j]).header.kind == MediaKind::StreamConfig
            ==> packets[j].header.stream_id != packets[i].header.stream_id
}

proof fn lemma_latest_config_is_kept(packets: Seq<MediaPacket>, i: int)
    requires
        is_latest_config(packets, i),
    ensures
        latest_configs(packets).contains(packets[i]),
        forall|k: int|
            0 <= k < latest_configs(packets).len() && (#[trigger] latest_configs(
                packets,
            )[k]).header.stream_id == packets[i].header.stream_id ==> latest_configs(packets)[k]
                == packets[i],
    decreases packets.len(),
{
    let rest = packets.drop_first();
    let tail = latest_configs(rest);
    let all = latest_configs(packets);
    let stream = packets[i].header.stream_id;
    lemma_latest_configs(rest);
    if i == 0 {
        assert(!has_config(rest, stream)) by {
            if has_config(rest, stream) {
                let j = choose|j: int| 0 <= j < rest.len() && is_config_of(#[trigger] rest[j], stream);
                assert(packets[j + 1] == rest[j]);
            }
        }
        assert(all == seq![packets[0]] + tail);
        assert(all[0] == packets[0]);
        assert forall|k: int|
            0 <= k < all.len() && (#[trigger] all[k]).header.stream_id == stream implies all[k]
            == packets[i] by {
            if k > 0 {
                assert(all[k] == tail[k - 1]);
                assert(rest.contains(tail[k - 1]));
                let j = rest.index_of(tail[k - 1]);
                assert(is_config_of(rest[j], stream));
            }
        }
    } else {
        assert(is_latest_config(rest, i - 1)) by {
            assert forall|j: int|
                i - 1 < j < rest.len() && (#[trigger] rest[j]).header.kind
                    == MediaKind::StreamConfig implies rest[j].header.stream_id
                != rest[i - 1].header.stream_id by {
                assert(rest[j] == packets[j + 1]);
            }
        }
        lemma_latest_config_is_kept(rest, i - 1);
        assert(is_config_of(rest[i - 1], stream));
        let m = tail.index_of(packets[i]);
        if packets[0].header.kind == MediaKind::StreamConfig && !has_config(
            rest,
            packets[0].header.stream_id,
        ) {
            assert(packets[0].header.stream_id != stream);
            assert(all == seq![packets[0]] + tail);
            assert(all[m + 1] == packets[i]);
            assert forall|k: int|
                0 <= k < all.len() && (#[trigger] all[k]).header.stream_id == stream implies all[k]
                == packets[i] by {
                if k > 0 {
                    assert(all[k] == tail[k - 1]);
                }
            }
        }
    }
}

/// Where a full queue is thrown out, the configuration of a stream that is kept is its
/// latest one, and no earlier one of that stream is. Only configurations are kept.
pub proof fn law_latest_configuration_is_kept(q: Queue, packet: MediaPacket, i: int, k: int)
    requires
        !q.closed,
        q.packets.len() == q.capacity,
        q.capacity >= 2,
        !(packet.header.kind == MediaKind::Video && !packet.header.flags.keyframe),
        latest_configs(q.packets).len() < q.capacity,
        is_latest_config(q.packets, i),
    ensures
        ({
            let after = pushed(q, packet).0.packets;
            &&& after.len() > 0 && after.last() == packet
            &&& after.drop_last().contains(q.packets[i])
            &&& 0 <= k < after.len() - 1 ==> after[k].header.kind == MediaKind::StreamConfig
                && q.packets.contains(after[k])
            &&& 0 <= k < after.len() - 1 && after[k].header.stream_id
                == q.packets[i].header.stream_id ==> after[k] == q.packets[i]
        }),
{
    let after = pushed(q, packet).0.packets;
    let configs = latest_configs(q.packets);
    lemma_latest_configs(q.packets);
    lemma_latest_config_is_kept(q.packets, i);
    assert(after == configs.push(packet));
    assert(after.drop_last() =~= configs);
    if 0 <= k < after.len() - 1 {
        assert(after[k] == configs[k]);
    }
}

/// No packet is lost without being counted: what a queue holds after a push, and what
/// the push reports as dropped, is what it held before and the packet.
pub proof fn law_every_dropped_packet_is_counted(q: Queue, packet: MediaPacket)
    requires
        q.capacity >= 1,
        q.packets.len() <= q.capacity,
        q.capacity < usize::MAX,
    ensures
        ({
            let (after, outcome) = pushed(q, packet);
            &&& outcome is Sent ==> after.packets.len() + outcome->evicted == q.packets.len() + 1
            &&& outcome is Dropped ==> after.packets.len() + outcome->count == q.packets.len() + 1
            &&& outcome is Closed ==> after == q
            &&& outcome is Closed <==> q.closed
            &&& !q.closed ==> after.packets.len() + drops(outcome) == q.packets.len() + 1
            &&& q.closed ==> drops(outcome) == 0
        }),
{
    lemma_latest_configs(q.packets);
}


/// A session that was started has no streams, whatever an earlier one had; one that was
/// ended is not known. Other sessions keep theirs, and of no session do clients of an
/// earlier one remain.
pub proof fn law_session_starts_without_streams(
    hub: Hub,
    session: Seq<char>,
    other: Seq<char>,
    i: int,
)
    ensures
        with_session(hub, session).sessions.dom().contains(session),
        with_session(hub, session).sessions[session].dom() == Set::<u64>::empty(),
        !without_session(hub, session).sessions.dom().contains(session),
        other != session ==> with_session(hub, session).sessions.dom().contains(other)
            == hub.sessions.dom().contains(other) && with_session(hub, session).sessions[other]
            == hub.sessions[other],
        other != session ==> without_session(hub, session).sessions.dom().contains(other)
            == hub.sessions.dom().contains(other) && without_session(hub, session).sessions[other]
            == hub.sessions[other],
        0 <= i < hub.clients.len() ==> with_session(hub, session).clients[i].session != Some(session)
            && without_session(hub, session).clients[i].session != Some(session),
        with_session(hub, session).clients.len() == hub.clients.len(),
        without_session(hub, session).clients.len() == hub.clients.len(),
{
}


/// A message is the last that each client of its session has to read and follows all
/// that was there; a client of another session, and one that waits for none, has none of
/// it, and no client's packets are touched.
pub proof fn law_message_is_for_one_session(
    hub: Hub,
    session: Seq<char>,
    message: ServerMessage,
    i: int,
)
    requires
        0 <= i < hub.clients.len(),
    ensures
        ({
            let after = announced(hub, session, message);
            let was = hub.clients[i];
            let now = after.clients[i];
            &&& after.clients.len() == hub.clients.len()
            &&& after.sessions == hub.sessions
            &&& now.queue == was.queue
            &&& now.session == was.session
            &&& now.id == was.id
            &&& was.session == Some(session) ==> now.messages.len() == was.messages.len() + 1
                && now.messages.last() == message && now.messages.drop_last() == was.messages
            &&& was.session != Some(session) ==> now.messages == was.messages
        }),
{
    assert(hub.clients[i].messages.push(message).drop_last() =~= hub.clients[i].messages);
}

/// A message about a session or a reason ends with it.
pub proof fn law_media_messages_name_their_subject(subject: String)
    ensures
        crate::text::text_ends_with(MediaHubError::UnknownSession(subject).message_text(), subject@),
        crate::text::text_ends_with(MediaHubError::InvalidPacket(subject).message_text(), subject@),
        crate::text::text_ends_with(MediaHubError::InvalidInput(subject).message_text(), subject@),
{
    let a = MediaHubError::UnknownSession(subject).message_text();
    let b = MediaHubError::InvalidPacket(subject).message_text();
    let c = MediaHubError::InvalidInput(subject).message_text();
    assert(a.skip(a.len() - subject@.len()) =~= subject@);
    assert(b.skip(b.len() - subject@.len()) =~= subject@);
    assert(c.skip(c.len() - subject@.len()) =~= subject@);
}

} // verus!
