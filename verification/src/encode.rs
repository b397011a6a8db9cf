//! The way from composited frames to published packets: a queue that keeps one
//! frame per surface, and the books of the streams that the frames are encoded
//! to.

use vstd::prelude::*;

use crate::frame::Frame;
use crate::media::{MediaHub, PublishStats};
use crate::protocol::{MediaFlags, MediaHeader, MediaKind, MediaPacket};
use crate::sorted_map::{Key, SortedMap};

verus! {

/// A surface of a guest client.
#[derive(Clone, Copy, Debug, PartialEq, Eq, Structural)]
pub struct SurfaceKey {
    pub client_id: u64,
    pub surface_id: u64,
}

/// Surfaces are ordered by client, and by surface within a client.
impl Key for SurfaceKey {
    type Repr = SurfaceKey;

    open spec fn repr(&self) -> SurfaceKey {
        *self
    }

    open spec fn precedes(a: SurfaceKey, b: SurfaceKey) -> bool {
        a.client_id < b.client_id || (a.client_id == b.client_id && a.surface_id < b.surface_id)
    }

    proof fn order_irreflexive(a: SurfaceKey) {
    }

    proof fn order_total(a: SurfaceKey, b: SurfaceKey) {
    }

    proof fn order_transitive(a: SurfaceKey, b: SurfaceKey, c: SurfaceKey) {
    }

    fn is_before(&self, other: &Self) -> (r: bool) {
        self.client_id < other.client_id || (self.client_id == other.client_id && self.surface_id
            < other.surface_id)
    }
}

/// Work for the encoder. It all goes through one queue: a frame that was
/// composited before its surface was destroyed must not be published after the
/// end of its stream.
#[derive(Debug, PartialEq, Eq)]
pub enum EncodeCommand {
    Frame { key: SurfaceKey, frame: Frame },
    ForceKeyframeAll,
    EndStream { key: SurfaceKey },
    /// Ends every stream of a client that went away.
    ClientGone { client_id: u64 },
}

/// The state of the queue.
#[verifier::ext_equal]
pub struct Pending {
    pub queue: Seq<EncodeCommand>,
    /// Surfaces whose queued frame took the place of another one.
    pub superseded: Set<SurfaceKey>,
    pub stopped: bool,
}

pub open spec fn is_frame_of(command: EncodeCommand, key: SurfaceKey) -> bool {
    command matches EncodeCommand::Frame { key: k, frame: _ } && k == key
}

pub open spec fn is_frame_from(command: EncodeCommand, client_id: u64) -> bool {
    command matches EncodeCommand::Frame { key: k, frame: _ } && k.client_id == client_id
}

/// Number `i` is the first queued frame of the surface.
pub open spec fn is_first_frame(queue: Seq<EncodeCommand>, key: SurfaceKey, i: int) -> bool {
    &&& 0 <= i < queue.len()
    &&& is_frame_of(queue[i], key)
    &&& forall|j: int| 0 <= j < i ==> !is_frame_of(#[trigger] queue[j], key)
}

pub open spec fn has_frame(queue: Seq<EncodeCommand>, key: SurfaceKey) -> bool {
    exists|i: int| 0 <= i < queue.len() && is_frame_of(#[trigger] queue[i], key)
}

/// The queue after a command came in: a frame takes the place of one that is
/// queued for its surface, and the frames of a surface that ends, or of a client
/// that goes, are dropped.
pub open spec fn submitted(p: Pending, command: EncodeCommand) -> Pending {
    match command {
        EncodeCommand::Frame { key, frame: _ } => if has_frame(p.queue, key) {
            Pending {
                queue: p.queue.update(
                    choose|i: int| is_first_frame(p.queue, key, i),
                    command,
                ),
                superseded: p.superseded.insert(key),
                ..p
            }
        } else {
            Pending { queue: p.queue.push(command), ..p }
        },
        EncodeCommand::EndStream { key } => Pending {
            queue: crate::lists::retained(p.queue, |c: EncodeCommand| !is_frame_of(c, key)).push(
                command,
            ),
            superseded: p.superseded.remove(key),
            ..p
        },
        EncodeCommand::ClientGone { client_id } => Pending {
            queue: crate::lists::retained(
                p.queue,
                |c: EncodeCommand| !is_frame_from(c, client_id),
            ).push(command),
            superseded: p.superseded.filter(|key: SurfaceKey| key.client_id != client_id),
            ..p
        },
        EncodeCommand::ForceKeyframeAll => Pending { queue: p.queue.push(command), ..p },
    }
}

/// The queue without its first command.
pub open spec fn popped(p: Pending) -> Pending {
    Pending {
        queue: p.queue.drop_first(),
        superseded: match p.queue[0] {
            EncodeCommand::Frame { key, frame: _ } => p.superseded.remove(key),
            _ => p.superseded,
        },
        ..p
    }
}

/// The first command is a frame that took the place of another one.
pub open spec fn first_superseded(p: Pending) -> bool {
    p.queue[0] matches EncodeCommand::Frame { key, frame: _ } && p.superseded.contains(key)
}

/// At most one frame is queued for a surface; only a surface with a queued frame
/// can have lost one; and no frame stands before the end of its own stream.
pub open spec fn pending_ok(p: Pending) -> bool {
    &&& forall|i: int, j: int|
        #![trigger p.queue[i], p.queue[j]]
        0 <= i < j < p.queue.len() ==> {
            &&& p.queue[i] matches EncodeCommand::Frame { key, frame: _ } ==> !is_frame_of(
                p.queue[j],
                key,
            )
            &&& p.queue[j] matches EncodeCommand::EndStream { key } ==> !is_frame_of(
                p.queue[i],
                key,
            )
            &&& p.queue[j] matches EncodeCommand::ClientGone { client_id } ==> !is_frame_from(
                p.queue[i],
                client_id,
            )
        }
    &&& forall|key: SurfaceKey| #[trigger] p.superseded.contains(key) ==> has_frame(p.queue, key)
}

/// What comes next for the encoder.
#[derive(Debug, PartialEq, Eq)]
pub enum NextCommand {
    /// The command, and whether a frame was dropped in its favour.
    Command(EncodeCommand, bool),
    /// Nothing yet.
    Empty,
    /// Nothing, and the queue is stopped.
    Stopped,
}

/// The queue between the bridge loop and the encoder.
pub struct EncodeQueue {
    queue: Vec<EncodeCommand>,
    superseded: SortedMap<SurfaceKey, ()>,
    stopped: bool,
}

impl View for EncodeQueue {
    type V = Pending;

    closed spec fn view(&self) -> Pending {
        Pending {
            queue: self.queue@,
            superseded: self.superseded@.dom(),
            stopped: self.stopped,
        }
    }
}

proof fn lemma_first_frame_exists(queue: Seq<EncodeCommand>, key: SurfaceKey)
    requires
        has_frame(queue, key),
    ensures
        exists|i: int| is_first_frame(queue, key, i),
    decreases queue.len(),
{
    let front = queue.drop_last();
    if has_frame(front, key) {
        lemma_first_frame_exists(front, key);
        let i = choose|i: int| is_first_frame(front, key, i);
        assert(is_first_frame(queue, key, i)) by {
            assert forall|j: int| 0 <= j < i implies !is_frame_of(#[trigger] queue[j], key) by {
                assert(front[j] == queue[j]);
            }
        }
    } else {
        let i = choose|i: int| 0 <= i < queue.len() && is_frame_of(#[trigger] queue[i], key);
        assert(is_first_frame(queue, key, i)) by {
            assert forall|j: int| 0 <= j < i implies !is_frame_of(#[trigger] queue[j], key) by {
                assert(front[j] == queue[j]);
            }
        }
    }
}

proof fn lemma_first_frame_unique(queue: Seq<EncodeCommand>, key: SurfaceKey, i: int, j: int)
    requires
        is_first_frame(queue, key, i),
        is_first_frame(queue, key, j),
    ensures
        i == j,
{
    let _ = (queue[i], queue[j]);
}

/// What is left of the queue after frames were dropped keeps its order.
proof fn lemma_retained_pending(p: Pending, keep: spec_fn(EncodeCommand) -> bool)
    requires
        pending_ok(p),
    ensures
        ({
            let queue = crate::lists::retained(p.queue, keep);
            &&& forall|i: int, j: int|
                #![trigger queue[i], queue[j]]
                0 <= i < j < queue.len() ==> {
                    &&& queue[i] matches EncodeCommand::Frame { key, frame: _ } ==> !is_frame_of(
                        queue[j],
                        key,
                    )
                    &&& queue[j] matches EncodeCommand::EndStream { key } ==> !is_frame_of(
                        queue[i],
                        key,
                    )
                    &&& queue[j] matches EncodeCommand::ClientGone { client_id } ==> !is_frame_from(
                        queue[i],
                        client_id,
                    )
                }
            &&& forall|i: int| 0 <= i < queue.len() ==> keep(#[trigger] queue[i])
            &&& forall|i: int|
                0 <= i < p.queue.len() && keep(#[trigger] p.queue[i]) ==> queue.contains(p.queue[i])
        }),
{
    let queue = crate::lists::retained(p.queue, keep);
    let places = crate::lists::lemma_retained(p.queue, keep);
    assert forall|i: int, j: int|
        #![trigger queue[i], queue[j]]
        0 <= i < j < queue.len() implies {
        &&& queue[i] matches EncodeCommand::Frame { key, frame: _ } ==> !is_frame_of(queue[j], key)
        &&& queue[j] matches EncodeCommand::EndStream { key } ==> !is_frame_of(queue[i], key)
        &&& queue[j] matches EncodeCommand::ClientGone { client_id } ==> !is_frame_from(
            queue[i],
            client_id,
        )
    } by {
        assert(places[i] < places[j]);
        let _ = (p.queue[places[i]], p.queue[places[j]]);
    }
}

/// Submitting keeps the queue in order: never two frames for one surface, and
/// never a frame before the end of its own stream.
pub proof fn law_queue_stays_in_order(p: Pending, command: EncodeCommand)
    requires
        pending_ok(p),
    ensures
        pending_ok(submitted(p, command)),
        command matches EncodeCommand::EndStream { key } ==> !has_frame(
            submitted(p, command).queue,
            key,
        ),
        command matches EncodeCommand::ClientGone { client_id } ==> forall|i: int|
            0 <= i < submitted(p, command).queue.len() ==> !is_frame_from(
                #[trigger] submitted(p, command).queue[i],
                client_id,
            ),
        command matches EncodeCommand::Frame { key, frame: _ } ==> {
            &&& has_frame(submitted(p, command).queue, key)
            &&& submitted(p, command).queue.contains(command)
            &&& submitted(p, command).superseded.contains(key) <==> has_frame(p.queue, key)
                || p.superseded.contains(key)
        },
{
    let next = submitted(p, command);
    match command {
        EncodeCommand::Frame { key, frame: _ } => {
            if has_frame(p.queue, key) {
                lemma_first_frame_exists(p.queue, key);
                let at = choose|i: int| is_first_frame(p.queue, key, i);
                assert(next.queue[at] == command);
                assert forall|i: int| 0 <= i < next.queue.len() && i != at implies #[trigger]
                next.queue[i] == p.queue[i] by {}
                assert forall|k: SurfaceKey| #[trigger] next.superseded.contains(k) implies has_frame(
                    next.queue,
                    k,
                ) by {
                    if k == key {
                        assert(is_frame_of(next.queue[at], key));
                    } else {
                        assert(has_frame(p.queue, k));
                        let i = choose|i: int|
                            0 <= i < p.queue.len() && is_frame_of(#[trigger] p.queue[i], k);
                        assert(is_frame_of(next.queue[i], k));
                    }
                }
                assert(is_frame_of(next.queue[at], key));
            } else {
                let last = p.queue.len() as int;
                assert(next.queue[last] == command);
                assert forall|i: int| 0 <= i < last implies #[trigger] next.queue[i]
                    == p.queue[i] by {}
                assert forall|k: SurfaceKey| #[trigger] next.superseded.contains(k) implies has_frame(
                    next.queue,
                    k,
                ) by {
                    assert(has_frame(p.queue, k));
                    let i = choose|i: int|
                        0 <= i < p.queue.len() && is_frame_of(#[trigger] p.queue[i], k);
                    assert(is_frame_of(next.queue[i], k));
                }
                assert(is_frame_of(next.queue[last], key));
                assert forall|i: int| 0 <= i < last implies !is_frame_of(
                    #[trigger] next.queue[i],
                    key,
                ) by {
                    assert(!is_frame_of(p.queue[i], key));
                }
            }
        },
        EncodeCommand::EndStream { key } => {
            let keep = |c: EncodeCommand| !is_frame_of(c, key);
            lemma_retained_pending(p, keep);
            let kept = crate::lists::retained(p.queue, keep);
            assert(next.queue == kept.push(command));
            assert forall|i: int| 0 <= i < kept.len() implies !is_frame_of(
                #[trigger] next.queue[i],
                key,
            ) by {
                assert(keep(kept[i]));
                assert(next.queue[i] == kept[i]);
            }
            assert forall|k: SurfaceKey| #[trigger] next.superseded.contains(k) implies has_frame(
                next.queue,
                k,
            ) by {
                assert(has_frame(p.queue, k));
                let i = choose|i: int|
                    0 <= i < p.queue.len() && is_frame_of(#[trigger] p.queue[i], k);
                assert(keep(p.queue[i]));
                let j = kept.index_of(p.queue[i]);
                assert(kept.contains(p.queue[i]));
                assert(is_frame_of(next.queue[j], k));
            }
        },
        EncodeCommand::ClientGone { client_id } => {
            let keep = |c: EncodeCommand| !is_frame_from(c, client_id);
            lemma_retained_pending(p, keep);
            let kept = crate::lists::retained(p.queue, keep);
            assert(next.queue == kept.push(command));
            assert forall|i: int| 0 <= i < kept.len() implies !is_frame_from(
                #[trigger] next.queue[i],
                client_id,
            ) by {
                assert(keep(kept[i]));
                assert(next.queue[i] == kept[i]);
            }
            assert forall|k: SurfaceKey| #[trigger] next.superseded.contains(k) implies has_frame(
                next.queue,
                k,
            ) by {
                assert(p.superseded.contains(k));
                assert(has_frame(p.queue, k));
                let i = choose|i: int|
                    0 <= i < p.queue.len() && is_frame_of(#[trigger] p.queue[i], k);
                assert(keep(p.queue[i]));
                let j = kept.index_of(p.queue[i]);
                assert(kept.contains(p.queue[i]));
                assert(is_frame_of(next.queue[j], k));
            }
        },
        EncodeCommand::ForceKeyframeAll => {
            let last = p.queue.len() as int;
            assert forall|i: int| 0 <= i < last implies #[trigger] next.queue[i] == p.queue[i] by {}
            assert forall|k: SurfaceKey| #[trigger] next.superseded.contains(k) implies has_frame(
                next.queue,
                k,
            ) by {
                assert(has_frame(p.queue, k));
                let i = choose|i: int|
                    0 <= i < p.queue.len() && is_frame_of(#[trigger] p.queue[i], k);
                assert(is_frame_of(next.queue[i], k));
            }
        },
    }
}

/// Taking the first command out keeps the rest in order.
pub proof fn law_popping_keeps_the_order(p: Pending)
    requires
        pending_ok(p),
        p.queue.len() > 0,
    ensures
        pending_ok(popped(p)),
{
    let next = popped(p);
    assert forall|i: int| 0 <= i < next.queue.len() implies #[trigger] next.queue[i] == p.queue[i
        + 1] by {}
    assert forall|k: SurfaceKey| #[trigger] next.superseded.contains(k) implies has_frame(
        next.queue,
        k,
    ) by {
        assert(has_frame(p.queue, k));
        let i = choose|i: int| 0 <= i < p.queue.len() && is_frame_of(#[trigger] p.queue[i], k);
        if i > 0 {
            assert(is_frame_of(next.queue[i - 1], k));
        }
    }
}

/// Taking the next command out ends with `r` and leaves `after`.
pub open spec fn handed_out(p: Pending, r: NextCommand, after: Pending) -> bool {
    if p.queue.len() > 0 {
        &&& r == NextCommand::Command(p.queue[0], first_superseded(p))
        &&& after == popped(p)
    } else {
        &&& r == (if p.stopped {
            NextCommand::Stopped
        } else {
            NextCommand::Empty
        })
        &&& after == p
    }
}

impl EncodeQueue {
    pub closed spec fn wf(&self) -> bool {
        pending_ok(self@) && self.superseded.wf()
    }

    /// What the invariant says of the queue's state.
    pub proof fn lemma_wf(&self)
        requires
            self.wf(),
        ensures
            pending_ok(self@),
    {
    }

    pub fn new() -> (r: Self)
        ensures
            r.wf(),
            r@ == (Pending { queue: Seq::empty(), superseded: Set::empty(), stopped: false }),
    {
        let r = EncodeQueue { queue: Vec::new(), superseded: SortedMap::new(), stopped: false };
        assert(r@.superseded =~= Set::<SurfaceKey>::empty());
        r
    }

    /// Where a frame of the surface is queued.
    fn find_frame(&self, key: SurfaceKey) -> (r: Option<usize>)
        ensures
            match r {
                Some(i) => is_first_frame(self@.queue, key, i as int),
                None => !has_frame(self@.queue, key),
            },
    {
        let mut i: usize = 0;
        while i < self.queue.len()
            invariant
                i <= self.queue@.len(),
                forall|j: int| 0 <= j < i ==> !is_frame_of(#[trigger] self@.queue[j], key),
            decreases self.queue@.len() - i,
        {
            let here: bool = match &self.queue[i] {
                EncodeCommand::Frame { key: queued, frame: _ } => *queued == key,
                _ => false,
            };
            if here {
                return Some(i);
            }
            i += 1;
        }
        None
    }

    /// Drops the frames of one surface, or of all surfaces of its client.
    fn drop_frames(&mut self, key: SurfaceKey, whole_client: bool)
        ensures
            final(self).queue@ == crate::lists::retained(
                old(self).queue@,
                dropping(key, whole_client),
            ),
            final(self).superseded == old(self).superseded,
            final(self).stopped == old(self).stopped,
    {
        let ghost all = self.queue@;
        let ghost keep = dropping(key, whole_client);
        let ghost mut done: int = 0;
        let mut i: usize = 0;
        assert(all.take(0) =~= Seq::<EncodeCommand>::empty());
        assert(crate::lists::retained(all.take(0), keep) + all.skip(0) =~= all);
        while i < self.queue.len()
            invariant
                0 <= done <= all.len(),
                keep == dropping(key, whole_client),
                i == crate::lists::retained(all.take(done), keep).len(),
                self.queue@ == crate::lists::retained(all.take(done), keep) + all.skip(done),
                self.superseded == old(self).superseded,
                self.stopped == old(self).stopped,
            decreases all.len() - done,
        {
            let ghost kept = crate::lists::retained(all.take(done), keep);
            assert(self.queue@[i as int] == all.skip(done)[0]);
            assert(all.take(done + 1).drop_last() =~= all.take(done));
            let drop: bool = match &self.queue[i] {
                EncodeCommand::Frame { key: queued, frame: _ } => if whole_client {
                    queued.client_id == key.client_id
                } else {
                    *queued == key
                },
                _ => false,
            };
            assert(drop == !keep(all[done]));
            if drop {
                let _ = self.queue.remove(i);
                assert(self.queue@ =~= kept + all.skip(done + 1));
            } else {
                assert(self.queue@ =~= kept.push(all[done]) + all.skip(done + 1));
                i += 1;
            }
            proof {
                done = done + 1;
            }
        }
        assert(all.skip(done) =~= Seq::<EncodeCommand>::empty());
        assert(all.take(done) =~= all);
        assert(self.queue@ =~= crate::lists::retained(all, keep));
    }

    /// Forgets that surfaces of the client lost a frame.
    fn forget_client(&mut self, client_id: u64)
        requires
            old(self).superseded.wf(),
        ensures
            final(self).superseded.wf(),
            final(self).superseded@.dom() == old(self).superseded@.dom().filter(
                |key: SurfaceKey| key.client_id != client_id,
            ),
            final(self).queue == old(self).queue,
            final(self).stopped == old(self).stopped,
    {
        let ghost before = self.superseded@.dom();
        let mut i: usize = 0;
        proof {
            self.superseded.lemma_rows();
        }
        while i < self.superseded.len()
            invariant
                i <= self.superseded.rows().len(),
                self.superseded.wf(),
                before == old(self).superseded@.dom(),
                self.queue == old(self).queue,
                self.stopped == old(self).stopped,
                forall|j: int|
                    0 <= j < i ==> (#[trigger] self.superseded.rows()[j]).0.client_id != client_id,
                forall|key: SurfaceKey|
                    self.superseded@.dom().contains(key) ==> before.contains(key),
                forall|key: SurfaceKey|
                    before.contains(key) && key.client_id != client_id
                        ==> self.superseded@.dom().contains(key),
            decreases self.superseded.rows().len() - i,
        {
            let key = *self.superseded.key_at(i);
            if key.client_id == client_id {
                let _ = self.superseded.remove_at(i);
            } else {
                i += 1;
            }
        }
        proof {
            self.superseded.lemma_rows();
            let after = self.superseded@.dom();
            assert forall|key: SurfaceKey| after.contains(key) implies key.client_id
                != client_id by {
                let j = choose|j: int|
                    crate::sorted_map::row_has(self.superseded.rows(), j, key);
                assert(crate::sorted_map::row_has(self.superseded.rows(), j, key));
            }
            assert(after =~= before.filter(|key: SurfaceKey| key.client_id != client_id));
        }
    }

    /// Takes a command in.
    pub fn submit(&mut self, command: EncodeCommand)
        requires
            old(self).wf(),
        ensures
            final(self).wf(),
            final(self)@ == submitted(old(self)@, command),
    {
        proof {
            law_queue_stays_in_order(self@, command);
        }
        match &command {
            EncodeCommand::Frame { key, frame: _ } => {
                let key = *key;
                match self.find_frame(key) {
                    Some(i) => {
                        proof {
                            lemma_first_frame_exists(self@.queue, key);
                            let j = choose|j: int| is_first_frame(self@.queue, key, j);
                            lemma_first_frame_unique(self@.queue, key, i as int, j);
                        }
                        let mut slot = command;
                        core::mem::swap(&mut self.queue[i], &mut slot);
                        let _ = self.superseded.insert(key, ());
                        assert(self@ =~= submitted(old(self)@, command));
                        return ;
                    },
                    None => {},
                }
            },
            EncodeCommand::EndStream { key } => {
                let key = *key;
                self.drop_frames(key, false);
                let _ = self.superseded.remove(&key);
                assert(self@.superseded =~= old(self)@.superseded.remove(key));
                assert(crate::lists::retained(
                    old(self)@.queue,
                    |c: EncodeCommand| !is_frame_of(c, key),
                ) == self.queue@) by {
                    assert(dropping(key, false) =~= (|c: EncodeCommand| !is_frame_of(c, key)));
                }
            },
            EncodeCommand::ClientGone { client_id } => {
                let client_id: u64 = *client_id;
                let any = SurfaceKey { client_id, surface_id: 0 };
                self.drop_frames(any, true);
                self.forget_client(client_id);
                assert(crate::lists::retained(
                    old(self)@.queue,
                    |c: EncodeCommand| !is_frame_from(c, client_id),
                ) == self.queue@) by {
                    assert(dropping(any, true) =~= (|c: EncodeCommand|
                        !is_frame_from(c, client_id)));
                }
            },
            EncodeCommand::ForceKeyframeAll => {},
        }
        self.queue.push(command);
        assert(self@ =~= submitted(old(self)@, command));
    }

    /// Takes the next command out.
    pub fn next(&mut self) -> (r: NextCommand)
        requires
            old(self).wf(),
        ensures
            final(self).wf(),
            handed_out(old(self)@, r, final(self)@),
    {
        if self.queue.len() == 0 {
            return if self.stopped {
                NextCommand::Stopped
            } else {
                NextCommand::Empty
            };
        }
        proof {
            law_popping_keeps_the_order(self@);
        }
        let command = self.queue.remove(0);
        assert(self.queue@ =~= old(self)@.queue.drop_first());
        let superseded: bool = match &command {
            EncodeCommand::Frame { key, frame: _ } => self.superseded.remove(key).is_some(),
            _ => false,
        };
        assert(self@ =~= popped(old(self)@));
        NextCommand::Command(command, superseded)
    }

    /// Lets the encoder finish: what is queued is still handed out.
    pub fn stop(&mut self)
        requires
            old(self).wf(),
        ensures
            final(self).wf(),
            final(self)@ == (Pending { stopped: true, ..old(self)@ }),
    {
        self.stopped = true;
    }
}

/// Whether a queued command outlives the end of a surface, or of its client.
pub open spec fn dropping(key: SurfaceKey, whole_client: bool) -> spec_fn(EncodeCommand) -> bool {
    |c: EncodeCommand|
        if whole_client {
            !is_frame_from(c, key.client_id)
        } else {
            !is_frame_of(c, key)
        }
}

/// What is known of a stream besides its encoder.
#[derive(Clone, Copy, Debug, PartialEq, Eq, Structural)]
pub struct StreamState {
    pub id: u64,
    /// The number of the last packet.
    pub sequence: u64,
    /// The next frame is to be a keyframe.
    pub force_keyframe: bool,
    /// The next packets do not continue what the viewer has.
    pub discontinuity: bool,
    /// What the encoder is set up for.
    pub width: u32,
    pub height: u32,
    pub started_us: u64,
}

/// What the encoder made of a frame. `config` is there when the stream's
/// configuration changed: the payload that announces it, or why there is none.
#[derive(Debug)]
pub struct EncodedFrame {
    pub config: Option<Result<Vec<u8>, String>>,
    pub keyframe: bool,
    pub annex_b: Vec<u8>,
}

/// How far the encoding of a frame has come.
#[derive(Debug)]
pub enum EncodeEvent {
    /// The frame is at hand.
    Begin,
    /// An encoder was asked for, for a stream with this id.
    Created { stream_id: u64, outcome: Result<(), String> },
    /// The encoder was set up for another size.
    Reconfigured(Result<(), String>),
    /// The frame was encoded.
    Encoded(Result<EncodedFrame, String>),
}

/// What is to be done next for a frame.
#[derive(Debug, PartialEq, Eq)]
pub enum EncodeAction {
    /// Create an encoder.
    Create { width: u32, height: u32 },
    /// Set the encoder up for another size.
    Reconfigure { width: u32, height: u32 },
    /// Encode the frame.
    Encode { force_keyframe: bool },
    /// Nothing more: the frame is published, or it is not and this is why.
    Done(Result<(), String>),
}

/// A stream that was just opened.
pub open spec fn fresh_stream(id: u64, width: u32, height: u32, now_us: u64) -> StreamState {
    StreamState {
        id,
        sequence: 0,
        force_keyframe: true,
        discontinuity: true,
        width,
        height,
        started_us: now_us,
    }
}

/// A stream whose encoder starts over.
pub open spec fn restarted(stream: StreamState, width: u32, height: u32) -> StreamState {
    StreamState { force_keyframe: true, discontinuity: true, width, height, ..stream }
}

/// A stream with one packet more.
pub open spec fn bumped(stream: StreamState) -> StreamState {
    StreamState {
        sequence: if stream.sequence == u64::MAX {
            u64::MAX
        } else {
            (stream.sequence + 1) as u64
        },
        ..stream
    }
}

/// The frame can be encoded once the encoder is set up for its size.
pub open spec fn next_action(stream: StreamState, width: u32, height: u32) -> EncodeAction {
    if stream.width != width || stream.height != height {
        EncodeAction::Reconfigure { width, height }
    } else {
        EncodeAction::Encode { force_keyframe: stream.force_keyframe }
    }
}

/// The header of a packet of the stream.
pub open spec fn header_of(stream: StreamState, kind: MediaKind, keyframe: bool, now_us: u64) -> MediaHeader {
    MediaHeader {
        kind,
        flags: MediaFlags { keyframe, discontinuity: stream.discontinuity },
        stream_id: stream.id,
        sequence: stream.sequence,
        timestamp_us: if now_us >= stream.started_us {
            (now_us - stream.started_us) as u64
        } else {
            0
        },
        width: stream.width,
        height: stream.height,
    }
}

/// Publishing a packet with this header and payload ended with `r`; `check` is
/// the protocol's own validation of the packet.
pub open spec fn sent<C: Fn(&MediaPacket) -> Result<(), String>>(
    check: C,
    hub: crate::media::Hub,
    session: Seq<char>,
    header: MediaHeader,
    payload: Seq<u8>,
    r: Result<PublishStats, crate::media::MediaHubError>,
    after: crate::media::Hub,
) -> bool {
    exists|packet: MediaPacket, verdict: Result<(), String>|
        {
            &&& packet.header == header
            &&& packet.payload@ == payload
            &&& #[trigger] call_ensures(check, (&packet,), verdict)
            &&& crate::media::published(hub, session, packet, verdict, r, after)
        }
}

/// What a refused packet says.
pub open spec fn failure(
    action: EncodeAction,
    error: crate::media::MediaHubError,
) -> bool {
    action matches EncodeAction::Done(Err(reason)) && reason@ == error.message_text()
}

/// Publishing the encoded picture ends like this. The stream continues for the
/// viewer only once the picture went out.
pub open spec fn picture_sent<C: Fn(&MediaPacket) -> Result<(), String>>(
    check: C,
    hub: crate::media::Hub,
    session: Seq<char>,
    stream: StreamState,
    encoded: EncodedFrame,
    now_us: u64,
    action: EncodeAction,
    after: crate::media::Hub,
    left: StreamState,
) -> bool {
    let next = bumped(stream);
    exists|r: Result<PublishStats, crate::media::MediaHubError>|
        {
            &&& #[trigger] sent(
                check,
                hub,
                session,
                header_of(next, MediaKind::Video, encoded.keyframe, now_us),
                encoded.annex_b@,
                r,
                after,
            )
            &&& match r {
                Ok(_) => action == EncodeAction::Done(Ok(())) && left == (StreamState {
                    discontinuity: false,
                    ..next
                }),
                Err(error) => failure(action, error) && left == next,
            }
        }
}

/// Publishing an encoded frame ends like this: a new configuration goes out
/// before the picture, and without it the picture does not go out.
pub open spec fn frame_sent<C: Fn(&MediaPacket) -> Result<(), String>>(
    check: C,
    hub: crate::media::Hub,
    session: Seq<char>,
    stream: StreamState,
    encoded: EncodedFrame,
    now_us: u64,
    action: EncodeAction,
    after: crate::media::Hub,
    left: StreamState,
) -> bool {
    let settled = StreamState { force_keyframe: false, ..stream };
    match encoded.config {
        None => picture_sent(check, hub, session, settled, encoded, now_us, action, after, left),
        Some(Err(reason)) => {
            &&& action == EncodeAction::Done(Err(reason))
            &&& left == bumped(settled)
            &&& after == hub
        },
        Some(Ok(payload)) => exists|
            r: Result<PublishStats, crate::media::MediaHubError>,
            mid: crate::media::Hub,
        |
            {
                &&& #[trigger] sent(
                    check,
                    hub,
                    session,
                    header_of(bumped(settled), MediaKind::StreamConfig, false, now_us),
                    payload@,
                    r,
                    mid,
                )
                &&& match r {
                    Err(error) => failure(action, error) && left == bumped(settled) && after == mid,
                    Ok(_) => picture_sent(
                        check,
                        mid,
                        session,
                        bumped(settled),
                        encoded,
                        now_us,
                        action,
                        after,
                        left,
                    ),
                }
            },
    }
}

/// One step of the encoding of a frame of this size ends with `r`, and leaves the streams
/// and the hub as `after` and `hub_after`.
pub open spec fn encoding_step<C: Fn(&MediaPacket) -> Result<(), String>>(
    check: C,
    streams: Map<SurfaceKey, StreamState>,
    hub: crate::media::Hub,
    session: Seq<char>,
    key: SurfaceKey,
    width: u32,
    height: u32,
    event: EncodeEvent,
    now_us: u64,
    r: EncodeAction,
    after: Map<SurfaceKey, StreamState>,
    hub_after: crate::media::Hub,
) -> bool {
    match event {
        EncodeEvent::Begin => {
            &&& after == streams
            &&& hub_after == hub
            &&& r == (if streams.dom().contains(key) {
                next_action(streams[key], width, height)
            } else {
                EncodeAction::Create { width, height }
            })
        },
        EncodeEvent::Created { stream_id, outcome } => {
            &&& hub_after == hub
            &&& match outcome {
                Err(reason) => r == EncodeAction::Done(Err(reason)) && after == streams,
                Ok(_) => {
                    let stream = fresh_stream(stream_id, width, height, now_us);
                    &&& r == next_action(stream, width, height)
                    &&& after == streams.insert(key, stream)
                },
            }
        },
        EncodeEvent::Reconfigured(outcome) => {
            &&& hub_after == hub
            &&& match outcome {
                Err(reason) => r == EncodeAction::Done(Err(reason)) && after == streams,
                Ok(_) => {
                    let stream = restarted(streams[key], width, height);
                    &&& r == next_action(stream, width, height)
                    &&& after == streams.insert(key, stream)
                },
            }
        },
        EncodeEvent::Encoded(outcome) => match outcome {
            Err(reason) => {
                &&& r == EncodeAction::Done(Err(reason))
                &&& after == streams
                &&& hub_after == hub
            },
            Ok(encoded) => {
                &&& after == streams.insert(key, after[key])
                &&& frame_sent(
                    check,
                    hub,
                    session,
                    streams[key],
                    encoded,
                    now_us,
                    r,
                    hub_after,
                    after[key],
                )
            },
        },
    }
}

/// The end of a stream goes out as its last packet.
pub open spec fn end_sent<C: Fn(&MediaPacket) -> Result<(), String>>(
    check: C,
    hub: crate::media::Hub,
    session: Seq<char>,
    stream: StreamState,
    now_us: u64,
    after: crate::media::Hub,
) -> bool {
    exists|r: Result<PublishStats, crate::media::MediaHubError>| #[trigger]
        sent(
            check,
            hub,
            session,
            header_of(bumped(stream), MediaKind::StreamEnd, false, now_us),
            Seq::empty(),
            r,
            after,
        )
}

/// The ends of these streams go out one after the other, and `trace` lists the
/// states of the hub in between.
pub open spec fn ends_trace<C: Fn(&MediaPacket) -> Result<(), String>>(
    check: C,
    session: Seq<char>,
    streams: Map<SurfaceKey, StreamState>,
    keys: Seq<SurfaceKey>,
    now_us: u64,
    trace: Seq<crate::media::Hub>,
) -> bool {
    &&& trace.len() == keys.len() + 1
    &&& forall|i: int|
        0 <= i < keys.len() ==> end_sent(
            check,
            trace[i],
            session,
            streams[#[trigger] keys[i]],
            now_us,
            trace[i + 1],
        )
}

/// The ends of these streams go out one after the other.
pub open spec fn ends_sent<C: Fn(&MediaPacket) -> Result<(), String>>(
    check: C,
    hub: crate::media::Hub,
    session: Seq<char>,
    streams: Map<SurfaceKey, StreamState>,
    keys: Seq<SurfaceKey>,
    now_us: u64,
    after: crate::media::Hub,
) -> bool {
    exists|trace: Seq<crate::media::Hub>|
        {
            &&& #[trigger] ends_trace(check, session, streams, keys, now_us, trace)
            &&& trace[0] == hub
            &&& trace.last() == after
        }
}

/// `keys` are the streams of the client, in order.
pub open spec fn streams_of(
    keys: Seq<SurfaceKey>,
    streams: Map<SurfaceKey, StreamState>,
    client_id: u64,
) -> bool {
    &&& forall|i: int, j: int|
        0 <= i < j < keys.len() ==> SurfaceKey::precedes(#[trigger] keys[i], #[trigger] keys[j])
    &&& forall|key: SurfaceKey| #[trigger]
        keys.contains(key) <==> streams.dom().contains(key) && key.client_id == client_id
}

/// The room that publishing needs in the counters.
pub open spec fn hub_fits(hub: crate::media::Hub) -> bool {
    hub.clients.len() * (hub.capacity + 1) <= usize::MAX
}

/// Applying a command ends with `r` and leaves the streams and the hub as `after` and
/// `hub_after`.
pub open spec fn command_applied<C: Fn(&MediaPacket) -> Result<(), String>>(
    check: C,
    streams: Map<SurfaceKey, StreamState>,
    hub: crate::media::Hub,
    session: Seq<char>,
    command: EncodeCommand,
    superseded: bool,
    now_us: u64,
    r: Option<(SurfaceKey, Frame)>,
    after: Map<SurfaceKey, StreamState>,
    hub_after: crate::media::Hub,
) -> bool {
    match command {
        EncodeCommand::Frame { key, frame } => {
            &&& r == Some((key, frame))
            &&& hub_after == hub
            &&& after == (if superseded && streams.dom().contains(key) {
                streams.insert(
                    key,
                    StreamState { discontinuity: true, ..streams[key] },
                )
            } else {
                streams
            })
        },
        EncodeCommand::ForceKeyframeAll => {
            &&& r is None
            &&& hub_after == hub
            &&& after.dom() == streams.dom()
            &&& forall|key: SurfaceKey| #[trigger]
                after.dom().contains(key) ==> after[key] == restarted(
                    streams[key],
                    streams[key].width,
                    streams[key].height,
                )
        },
        EncodeCommand::EndStream { key } => {
            &&& r is None
            &&& after == streams.remove(key)
            &&& if streams.dom().contains(key) {
                end_sent(check, hub, session, streams[key], now_us, hub_after)
            } else {
                hub_after == hub
            }
        },
        EncodeCommand::ClientGone { client_id } => {
            &&& r is None
            &&& after == streams.remove_keys(
                Set::new(|key: SurfaceKey| key.client_id == client_id),
            )
            &&& exists|keys: Seq<SurfaceKey>|
                {
                    &&& #[trigger] streams_of(keys, streams, client_id)
                    &&& ends_sent(
                        check,
                        hub,
                        session,
                        streams,
                        keys,
                        now_us,
                        hub_after,
                    )
                }
        },
    }
}

/// The streams of a session by surface.
pub struct StreamTable {
    streams: SortedMap<SurfaceKey, StreamState>,
}

impl View for StreamTable {
    type V = Map<SurfaceKey, StreamState>;

    closed spec fn view(&self) -> Map<SurfaceKey, StreamState> {
        self.streams@
    }
}

impl StreamTable {
    pub closed spec fn wf(&self) -> bool {
        self.streams.wf()
    }

    pub fn new() -> (r: Self)
        ensures
            r.wf(),
            r@ == Map::<SurfaceKey, StreamState>::empty(),
    {
        StreamTable { streams: SortedMap::new() }
    }

    /// The stream of a surface.
    pub fn get(&self, key: SurfaceKey) -> (r: Option<StreamState>)
        requires
            self.wf(),
        ensures
            r == (if self@.dom().contains(key) {
                Some(self@[key])
            } else {
                None
            }),
    {
        match self.streams.get(&key) {
            Some(stream) => Some(*stream),
            None => None,
        }
    }

    /// Makes every stream start over with its next frame.
    pub fn force_keyframe_on_all_streams(&mut self)
        requires
            old(self).wf(),
        ensures
            final(self).wf(),
            final(self)@.dom() == old(self)@.dom(),
            forall|key: SurfaceKey| #[trigger]
                final(self)@.dom().contains(key) ==> final(self)@[key] == restarted(
                    old(self)@[key],
                    old(self)@[key].width,
                    old(self)@[key].height,
                ),
    {
        proof {
            self.streams.lemma_rows();
        }
        let ghost rows = self.streams.rows();
        let mut i: usize = 0;
        while i < self.streams.len()
            invariant
                i <= self.streams.rows().len(),
                self.streams.rows().len() == rows.len(),
                self.streams.wf(),
                rows == old(self).streams.rows(),
                crate::sorted_map::sorted_rows(rows),
                self.streams@.dom() == old(self).streams@.dom(),
                forall|j: int|
                    0 <= j < rows.len() ==> (#[trigger] self.streams.rows()[j]).0 == rows[j].0,
                forall|j: int|
                    0 <= j < i ==> (#[trigger] self.streams.rows()[j]).1 == restarted(
                        rows[j].1,
                        rows[j].1.width,
                        rows[j].1.height,
                    ),
                forall|j: int|
                    i <= j < rows.len() ==> (#[trigger] self.streams.rows()[j]).1 == rows[j].1,
            decreases self.streams.rows().len() - i,
        {
            let mut stream = *self.streams.value_at(i);
            stream.force_keyframe = true;
            stream.discontinuity = true;
            proof {
                self.streams.lemma_rows();
                let _ = self.streams.rows()[i as int];
            }
            let ghost before = self.streams@;
            let _ = self.streams.set_at(i, stream);
            assert(self.streams@.dom() =~= before.dom());
            i += 1;
        }
        proof {
            self.streams.lemma_rows();
            old(self).streams.lemma_rows();
            assert forall|key: SurfaceKey| #[trigger] self@.dom().contains(key) implies self@[key]
                == restarted(old(self)@[key], old(self)@[key].width, old(self)@[key].height) by {
                let j = choose|j: int| crate::sorted_map::row_has(self.streams.rows(), j, key);
                assert(crate::sorted_map::row_has(self.streams.rows(), j, key));
                let _ = (self.streams.rows()[j], rows[j]);
            }
        }
    }

    /// Publishes one packet of the stream.
    fn publish_packet<C: Fn(&MediaPacket) -> Result<(), String>>(
        hub: &mut MediaHub,
        session: &str,
        stream: &StreamState,
        kind: MediaKind,
        keyframe: bool,
        payload: Vec<u8>,
        now_us: u64,
        check: &C,
    ) -> (r: Result<PublishStats, crate::media::MediaHubError>)
        requires
            old(hub).wf(),
            hub_fits(old(hub)@),
            forall|packet: &MediaPacket| call_requires(*check, (packet,)),
        ensures
            final(hub).wf(),
            hub_fits(final(hub)@),
            sent(
                *check,
                old(hub)@,
                session@,
                header_of(*stream, kind, keyframe, now_us),
                payload@,
                r,
                final(hub)@,
            ),
    {
        let packet = MediaPacket {
            header: MediaHeader {
                kind,
                flags: MediaFlags { keyframe, discontinuity: stream.discontinuity },
                stream_id: stream.id,
                sequence: stream.sequence,
                timestamp_us: now_us.saturating_sub(stream.started_us),
                width: stream.width,
                height: stream.height,
            },
            payload,
        };
        let verdict = check(&packet);
        assert(call_ensures(*check, (&packet,), verdict));
        hub.publish(session, packet, verdict)
    }

    /// Takes the encoding of a frame one step further: says what is to be done
    /// with the encoder next, and publishes what it produced.
    pub fn encode_frame<C: Fn(&MediaPacket) -> Result<(), String>>(
        &mut self,
        hub: &mut MediaHub,
        session: &str,
        key: SurfaceKey,
        width: u32,
        height: u32,
        event: EncodeEvent,
        now_us: u64,
        check: &C,
    ) -> (r: EncodeAction)
        requires
            old(self).wf(),
            old(hub).wf(),
            hub_fits(old(hub)@),
            event is Reconfigured || event is Encoded ==> old(self)@.dom().contains(key),
            forall|packet: &MediaPacket| call_requires(*check, (packet,)),
        ensures
            final(self).wf(),
            final(hub).wf(),
            hub_fits(final(hub)@),
            encoding_step(
                *check,
                old(self)@,
                old(hub)@,
                session@,
                key,
                width,
                height,
                event,
                now_us,
                r,
                final(self)@,
                final(hub)@,
            ),
    {
        match event {
            EncodeEvent::Begin => match self.streams.get(&key) {
                Some(stream) => StreamTable::plan(stream, width, height),
                None => EncodeAction::Create { width, height },
            },
            EncodeEvent::Created { stream_id, outcome } => match outcome {
                Err(reason) => EncodeAction::Done(Err(reason)),
                Ok(_) => {
                    let stream = StreamState {
                        id: stream_id,
                        sequence: 0,
                        force_keyframe: true,
                        discontinuity: true,
                        width,
                        height,
                        started_us: now_us,
                    };
                    let _ = self.streams.insert(key, stream);
                    StreamTable::plan(&stream, width, height)
                },
            },
            EncodeEvent::Reconfigured(outcome) => match outcome {
                Err(reason) => EncodeAction::Done(Err(reason)),
                Ok(_) => {
                    let mut stream = match self.streams.get(&key) {
                        Some(stream) => *stream,
                        None => {
                            return EncodeAction::Create { width, height };
                        },
                    };
                    stream.width = width;
                    stream.height = height;
                    stream.force_keyframe = true;
                    stream.discontinuity = true;
                    let _ = self.streams.insert(key, stream);
                    StreamTable::plan(&stream, width, height)
                },
            },
            EncodeEvent::Encoded(outcome) => match outcome {
                Err(reason) => EncodeAction::Done(Err(reason)),
                Ok(encoded) => {
                    let stream = match self.streams.get(&key) {
                        Some(stream) => *stream,
                        None => {
                            return EncodeAction::Create { width, height };
                        },
                    };
                    let (action, left) = StreamTable::publish_encoded(
                        hub,
                        session,
                        stream,
                        encoded,
                        now_us,
                        check,
                    );
                    let _ = self.streams.insert(key, left);
                    assert(self@ =~= old(self)@.insert(key, self@[key]));
                    action
                },
            },
        }
    }

    fn plan(stream: &StreamState, width: u32, height: u32) -> (r: EncodeAction)
        ensures
            r == next_action(*stream, width, height),
    {
        if stream.width != width || stream.height != height {
            EncodeAction::Reconfigure { width, height }
        } else {
            EncodeAction::Encode { force_keyframe: stream.force_keyframe }
        }
    }

    /// Publishes what the encoder made of a frame.
    fn publish_encoded<C: Fn(&MediaPacket) -> Result<(), String>>(
        hub: &mut MediaHub,
        session: &str,
        stream: StreamState,
        encoded: EncodedFrame,
        now_us: u64,
        check: &C,
    ) -> (r: (EncodeAction, StreamState))
        requires
            old(hub).wf(),
            hub_fits(old(hub)@),
            forall|packet: &MediaPacket| call_requires(*check, (packet,)),
        ensures
            final(hub).wf(),
            hub_fits(final(hub)@),
            frame_sent(
                *check,
                old(hub)@,
                session@,
                stream,
                encoded,
                now_us,
                r.0,
                final(hub)@,
                r.1,
            ),
    {
        let ghost given = encoded;
        let mut left = stream;
        left.force_keyframe = false;
        let EncodedFrame { config, keyframe, annex_b } = encoded;
        match config {
            None => {},
            Some(Err(reason)) => {
                left.sequence = left.sequence.saturating_add(1);
                return (EncodeAction::Done(Err(reason)), left);
            },
            Some(Ok(payload)) => {
                left.sequence = left.sequence.saturating_add(1);
                match StreamTable::publish_packet(
                    hub,
                    session,
                    &left,
                    MediaKind::StreamConfig,
                    false,
                    payload,
                    now_us,
                    check,
                ) {
                    Err(error) => {
                        return (EncodeAction::Done(Err(error.message())), left);
                    },
                    Ok(_) => {},
                }
            },
        }
        let ghost mid = hub@;
        let ghost announced = left;
        left.sequence = left.sequence.saturating_add(1);
        let outcome = StreamTable::publish_packet(
            hub,
            session,
            &left,
            MediaKind::Video,
            keyframe,
            annex_b,
            now_us,
            check,
        );
        let action = match outcome {
            Err(error) => EncodeAction::Done(Err(error.message())),
            Ok(_) => {
                left.discontinuity = false;
                EncodeAction::Done(Ok(()))
            },
        };
        assert(picture_sent(
            *check,
            mid,
            session@,
            announced,
            given,
            now_us,
            action,
            hub@,
            left,
        ));
        (action, left)
    }

    /// Ends the stream of a surface, if it has one.
    pub fn end_stream<C: Fn(&MediaPacket) -> Result<(), String>>(
        &mut self,
        hub: &mut MediaHub,
        session: &str,
        key: SurfaceKey,
        now_us: u64,
        check: &C,
    )
        requires
            old(self).wf(),
            old(hub).wf(),
            hub_fits(old(hub)@),
            forall|packet: &MediaPacket| call_requires(*check, (packet,)),
        ensures
            final(self).wf(),
            final(hub).wf(),
            hub_fits(final(hub)@),
            final(self)@ == old(self)@.remove(key),
            if old(self)@.dom().contains(key) {
                end_sent(*check, old(hub)@, session@, old(self)@[key], now_us, final(hub)@)
            } else {
                final(hub)@ == old(hub)@
            },
    {
        match self.streams.remove(&key) {
            None => {},
            Some(stream) => {
                let mut stream = stream;
                stream.sequence = stream.sequence.saturating_add(1);
                let ended = StreamTable::publish_packet(
                    hub,
                    session,
                    &stream,
                    MediaKind::StreamEnd,
                    false,
                    Vec::new(),
                    now_us,
                    check,
                );
            },
        }
    }
}

impl StreamTable {
    /// The surfaces of the client that have a stream.
    fn keys_of(&self, client_id: u64) -> (r: Vec<SurfaceKey>)
        requires
            self.wf(),
        ensures
            streams_of(r@, self@, client_id),
    {
        proof {
            self.streams.lemma_rows();
        }
        let ghost rows = self.streams.rows();
        let mut keys: Vec<SurfaceKey> = Vec::new();
        let mut i: usize = 0;
        while i < self.streams.len()
            invariant
                i <= rows.len(),
                rows == self.streams.rows(),
                crate::sorted_map::sorted_rows(rows),
                forall|a: int, b: int|
                    0 <= a < b < keys@.len() ==> SurfaceKey::precedes(
                        #[trigger] keys@[a],
                        #[trigger] keys@[b],
                    ),
                forall|a: int|
                    0 <= a < keys@.len() ==> (#[trigger] keys@[a]).client_id == client_id && exists|
                        j: int,
                    |
                        0 <= j < i && (#[trigger] rows[j]).0 == keys@[a],
                forall|j: int|
                    0 <= j < i && (#[trigger] rows[j]).0.client_id == client_id ==> keys@.contains(
                        rows[j].0,
                    ),
            decreases rows.len() - i,
        {
            let key = *self.streams.key_at(i);
            let ghost before = keys@;
            if key.client_id == client_id {
                keys.push(key);
                proof {
                    assert(keys@[before.len() as int] == key);
                    assert forall|a: int, b: int| 0 <= a < b < keys@.len() implies SurfaceKey::precedes(
                        #[trigger] keys@[a],
                        #[trigger] keys@[b],
                    ) by {
                        if b == before.len() {
                            assert(before[a] == keys@[a]);
                            let j = choose|j: int| 0 <= j < i && (#[trigger] rows[j]).0 == keys@[a];
                            let _ = (rows[j], rows[i as int]);
                        } else {
                            assert(before[a] == keys@[a] && before[b] == keys@[b]);
                        }
                    }
                    assert forall|a: int| 0 <= a < keys@.len() implies (
                    #[trigger] keys@[a]).client_id == client_id && exists|j: int|
                        0 <= j < i + 1 && (#[trigger] rows[j]).0 == keys@[a] by {
                        if a < before.len() {
                            assert(before[a] == keys@[a]);
                        } else {
                            assert(rows[i as int].0 == keys@[a]);
                        }
                    }
                    assert forall|j: int| 0 <= j < i + 1 && (#[trigger] rows[j]).0.client_id
                        == client_id implies keys@.contains(rows[j].0) by {
                        if j < i {
                            let k = before.index_of(rows[j].0);
                            assert(before.contains(rows[j].0));
                            assert(keys@[k] == rows[j].0);
                        } else {
                            assert(keys@[before.len() as int] == rows[j].0);
                        }
                    }
                }
            }
            i += 1;
        }
        proof {
            assert forall|key: SurfaceKey| #[trigger] keys@.contains(key) <==> self@.dom().contains(
                key,
            ) && key.client_id == client_id by {
                if keys@.contains(key) {
                    let a = keys@.index_of(key);
                    assert(keys@[a] == key);
                    let j = choose|j: int| 0 <= j < rows.len() && (#[trigger] rows[j]).0 == keys@[a];
                    assert(self@.dom().contains(rows[j].0.repr()));
                }
                if self@.dom().contains(key) && key.client_id == client_id {
                    let j = choose|j: int| crate::sorted_map::row_has(rows, j, key);
                    assert(crate::sorted_map::row_has(rows, j, key));
                    assert(rows[j].0 == key);
                }
            }
        }
        keys
    }

    /// Applies one command. A frame comes back: it is to be encoded next.
    pub fn apply_encode_command<C: Fn(&MediaPacket) -> Result<(), String>>(
        &mut self,
        hub: &mut MediaHub,
        session: &str,
        command: EncodeCommand,
        superseded: bool,
        now_us: u64,
        check: &C,
    ) -> (r: Option<(SurfaceKey, Frame)>)
        requires
            old(self).wf(),
            old(hub).wf(),
            hub_fits(old(hub)@),
            forall|packet: &MediaPacket| call_requires(*check, (packet,)),
        ensures
            final(self).wf(),
            final(hub).wf(),
            hub_fits(final(hub)@),
            command_applied(
                *check,
                old(self)@,
                old(hub)@,
                session@,
                command,
                superseded,
                now_us,
                r,
                final(self)@,
                final(hub)@,
            ),
    {
        match command {
            EncodeCommand::Frame { key, frame } => {
                if superseded {
                    match self.get(key) {
                        Some(stream) => {
                            let mut stream = stream;
                            stream.discontinuity = true;
                            let _ = self.streams.insert(key, stream);
                        },
                        None => {},
                    }
                }
                Some((key, frame))
            },
            EncodeCommand::ForceKeyframeAll => {
                self.force_keyframe_on_all_streams();
                None
            },
            EncodeCommand::EndStream { key } => {
                self.end_stream(hub, session, key, now_us, check);
                None
            },
            EncodeCommand::ClientGone { client_id } => {
                let keys = self.keys_of(client_id);
                let ghost all = self@;
                let mut i: usize = 0;
                assert(keys@.take(0) =~= Seq::<SurfaceKey>::empty());
                let ghost mut trace = seq![hub@];
                while i < keys.len()
                    invariant
                        i <= keys@.len(),
                        self.wf(),
                        hub.wf(),
                        hub_fits(hub@),
                        all == old(self)@,
                        streams_of(keys@, all, client_id),
                        forall|packet: &MediaPacket| call_requires(*check, (packet,)),
                        forall|key: SurfaceKey| #[trigger]
                            self@.dom().contains(key) <==> all.dom().contains(key)
                                && !keys@.take(i as int).contains(key),
                        forall|key: SurfaceKey| #[trigger]
                            self@.dom().contains(key) ==> self@[key] == all[key],
                        ends_trace(
                            *check,
                            session@,
                            all,
                            keys@.take(i as int),
                            now_us,
                            trace,
                        ),
                        trace[0] == old(hub)@,
                        trace.last() == hub@,
                    decreases keys@.len() - i,
                {
                    let key = keys[i];
                    let ghost before = hub@;
                    let ghost done = keys@.take(i as int);
                    let ghost next = keys@.take(i as int + 1);
                    proof {
                        assert(next.drop_last() =~= done);
                        assert(next.last() == key);
                        assert(keys@.contains(key));
                        assert(!done.contains(key)) by {
                            if done.contains(key) {
                                let k = done.index_of(key);
                                assert(keys@[k] == key);
                                assert(SurfaceKey::precedes(keys@[k], keys@[i as int]));
                            }
                        }
                        assert(self@.dom().contains(key));
                        assert forall|k: SurfaceKey| next.contains(k) <==> done.contains(k) || k
                            == key by {
                            if next.contains(k) {
                                let m = next.index_of(k);
                                if m < i {
                                    assert(done[m] == k);
                                }
                            }
                            if done.contains(k) {
                                let m = done.index_of(k);
                                assert(next[m] == k);
                            }
                            assert(next[i as int] == key);
                        }
                    }
                    assert(self@[key] == all[key]);
                    self.end_stream(hub, session, key, now_us, check);
                    proof {
                        let longer = trace.push(hub@);
                        assert forall|k: int| 0 <= k < next.len() implies end_sent(
                            *check,
                            longer[k],
                            session@,
                            all[#[trigger] next[k]],
                            now_us,
                            longer[k + 1],
                        ) by {
                            if k < i {
                                assert(done[k] == next[k]);
                            }
                        }
                        trace = longer;
                    }
                    i += 1;
                }
                proof {
                    assert(keys@.take(keys@.len() as int) =~= keys@);
                    let gone = Set::new(|key: SurfaceKey| key.client_id == client_id);
                    assert forall|key: SurfaceKey| self@.dom().contains(key) <==> all.remove_keys(
                        gone,
                    ).dom().contains(key) by {
                        let _ = keys@.contains(key);
                    }
                    assert(self@ =~= all.remove_keys(gone));
                }
                None
            },
        }
    }
}

/// The packets of a stream are numbered upwards, one by one, up to the largest
/// number there is.
pub proof fn law_stream_numbers_ascend(stream: StreamState)
    ensures
        stream.sequence < u64::MAX ==> bumped(stream).sequence == stream.sequence + 1,
        bumped(stream).sequence >= stream.sequence,
        bumped(stream).id == stream.id,
{
}

/// A gap is never passed over in silence. Whatever made a stream discontinuous
/// (a fresh encoder, a forced keyframe, a dropped frame), the flag is on every
/// packet that goes out until a picture has, and only that takes it off.
pub proof fn law_discontinuity_lasts_until_a_picture_went_out<
    C: Fn(&MediaPacket) -> Result<(), String>,
>(
    check: C,
    hub: crate::media::Hub,
    session: Seq<char>,
    stream: StreamState,
    encoded: EncodedFrame,
    now_us: u64,
    action: EncodeAction,
    after: crate::media::Hub,
    left: StreamState,
)
    requires
        stream.discontinuity,
        frame_sent(check, hub, session, stream, encoded, now_us, action, after, left),
    ensures
        left.discontinuity <==> action != EncodeAction::Done(Ok(())),
        forall|kind: MediaKind, keyframe: bool|
            #[trigger] header_of(bumped(stream), kind, keyframe, now_us).flags.discontinuity,
        left.id == stream.id,
        !left.force_keyframe,
{
}

/// The packet belongs to this frame: it bears the frame's size, and it is the
/// configuration that the encoder gave for it or the picture that it made of it.
pub open spec fn is_packet_of(
    packet: MediaPacket,
    encoded: EncodedFrame,
    width: u32,
    height: u32,
) -> bool {
    &&& packet.header.width == width
    &&& packet.header.height == height
    &&& {
        ||| packet.header.kind == MediaKind::Video && packet.header.flags.keyframe
            == encoded.keyframe && packet.payload@ == encoded.annex_b@
        ||| packet.header.kind == MediaKind::StreamConfig && encoded.config is Some
            && encoded.config->0 is Ok && packet.payload@ == encoded.config->0->Ok_0@
    }
}

proof fn lemma_published_adds_only(
    hub: crate::media::Hub,
    session: Seq<char>,
    packet: MediaPacket,
    check: Result<(), String>,
    r: Result<PublishStats, crate::media::MediaHubError>,
    after: crate::media::Hub,
    i: int,
)
    requires
        crate::media::hub_ok(hub),
        crate::media::published(hub, session, packet, check, r, after),
        0 <= i < hub.clients.len(),
    ensures
        after.clients.len() == hub.clients.len(),
        after.clients[i].session == hub.clients[i].session,
        forall|p: MediaPacket| #[trigger]
            after.clients[i].queue.packets.contains(p) ==> hub.clients[i].queue.packets.contains(p)
                || (p == packet && hub.clients[i].session == Some(session) && r is Ok),
        r is Ok && hub.clients[i].session == Some(session) && !(packet.header.kind
            == MediaKind::Video && !packet.header.flags.keyframe)
            ==> after.clients[i].queue.packets.len() > 0 && after.clients[i].queue.packets.last()
            == packet,
{
    let before = hub.clients[i].queue;
    let now = after.clients[i].queue;
    assert(crate::media::queue_ok(before, hub.capacity));
    crate::media::lemma_push_adds_only(before, packet);
    if r is Ok {
        assert(after.clients[i] == crate::media::delivered(hub.clients[i], session, packet));
    }
    assert forall|p: MediaPacket| #[trigger] now.packets.contains(
        p,
    ) implies before.packets.contains(p) || (p == packet && hub.clients[i].session == Some(session)
        && r is Ok) by {}
}

/// Every packet that goes out for a frame is of the frame's own size. Once a step for a
/// frame of this width and height says that the frame is to be encoded, whatever the next
/// step for it puts into the queue of a client has that width and that height in its
/// header, and is the configuration or the picture that the encoder made. A client of
/// another session gets nothing.
pub proof fn law_packets_have_the_size_of_their_frame<
    C: Fn(&MediaPacket) -> Result<(), String>,
>(
    check: C,
    streams: Map<SurfaceKey, StreamState>,
    hub: crate::media::Hub,
    session: Seq<char>,
    key: SurfaceKey,
    width: u32,
    height: u32,
    event: EncodeEvent,
    now_us: u64,
    force_keyframe: bool,
    ready: Map<SurfaceKey, StreamState>,
    hub_ready: crate::media::Hub,
    encoded: EncodedFrame,
    later_us: u64,
    r: EncodeAction,
    after: Map<SurfaceKey, StreamState>,
    hub_after: crate::media::Hub,
    i: int,
    packet: MediaPacket,
)
    requires
        crate::media::hub_ok(hub_ready),
        encoding_step(
            check,
            streams,
            hub,
            session,
            key,
            width,
            height,
            event,
            now_us,
            EncodeAction::Encode { force_keyframe },
            ready,
            hub_ready,
        ),
        encoding_step(
            check,
            ready,
            hub_ready,
            session,
            key,
            width,
            height,
            EncodeEvent::Encoded(Ok(encoded)),
            later_us,
            r,
            after,
            hub_after,
        ),
        0 <= i < hub_ready.clients.len(),
        hub_after.clients[i].queue.packets.contains(packet),
        !hub_ready.clients[i].queue.packets.contains(packet),
    ensures
        packet.header.width == width,
        packet.header.height == height,
        is_packet_of(packet, encoded, width, height),
        hub_ready.clients[i].session == Some(session),
        packet.header.stream_id == ready[key].id,
        packet.header.sequence > ready[key].sequence || ready[key].sequence == u64::MAX,
        later_us >= ready[key].started_us ==> packet.header.timestamp_us == later_us
            - ready[key].started_us,
        packet.header.flags.discontinuity == ready[key].discontinuity,
{
    let stream = ready[key];
    assert(stream.width == width && stream.height == height);
    let settled = StreamState { force_keyframe: false, ..stream };
    if encoded.config is Some && encoded.config->0 is Ok {
        let payload = encoded.config->0->Ok_0;
        let (r1, mid) = choose|
            r1: Result<PublishStats, crate::media::MediaHubError>,
            mid: crate::media::Hub,
        |
            {
                &&& #[trigger] sent(
                    check,
                    hub_ready,
                    session,
                    header_of(bumped(settled), MediaKind::StreamConfig, false, later_us),
                    payload@,
                    r1,
                    mid,
                )
                &&& match r1 {
                    Err(error) => failure(r, error) && after[key] == bumped(settled) && hub_after
                        == mid,
                    Ok(_) => picture_sent(
                        check,
                        mid,
                        session,
                        bumped(settled),
                        encoded,
                        later_us,
                        r,
                        hub_after,
                        after[key],
                    ),
                }
            };
        let p1 = lemma_sent(
            check,
            hub_ready,
            session,
            header_of(bumped(settled), MediaKind::StreamConfig, false, later_us),
            payload@,
            r1,
            mid,
            i,
        );
        if r1 is Ok {
            lemma_picture(
                check,
                mid,
                session,
                bumped(settled),
                encoded,
                later_us,
                r,
                hub_after,
                after[key],
                i,
                packet,
            );
        }
    } else if encoded.config is None {
        lemma_picture(
            check,
            hub_ready,
            session,
            settled,
            encoded,
            later_us,
            r,
            hub_after,
            after[key],
            i,
            packet,
        );
    }
}

/// What was published with this header and payload, and that nothing else was.
proof fn lemma_sent<C: Fn(&MediaPacket) -> Result<(), String>>(
    check: C,
    hub: crate::media::Hub,
    session: Seq<char>,
    header: MediaHeader,
    payload: Seq<u8>,
    r: Result<PublishStats, crate::media::MediaHubError>,
    after: crate::media::Hub,
    i: int,
) -> (packet: MediaPacket)
    requires
        crate::media::hub_ok(hub),
        sent(check, hub, session, header, payload, r, after),
        0 <= i < hub.clients.len(),
    ensures
        packet.header == header,
        packet.payload@ == payload,
        crate::media::hub_ok(after),
        after.clients.len() == hub.clients.len(),
        after.clients[i].session == hub.clients[i].session,
        forall|p: MediaPacket| #[trigger]
            after.clients[i].queue.packets.contains(p) ==> hub.clients[i].queue.packets.contains(p)
                || (p == packet && hub.clients[i].session == Some(session) && r is Ok),
        r is Ok && hub.clients[i].session == Some(session) && !(header.kind == MediaKind::Video
            && !header.flags.keyframe) ==> after.clients[i].queue.packets.len() > 0
            && after.clients[i].queue.packets.last() == packet,
{
    let (packet, verdict) = choose|packet: MediaPacket, verdict: Result<(), String>|
        {
            &&& packet.header == header
            &&& packet.payload@ == payload
            &&& #[trigger] call_ensures(check, (&packet,), verdict)
            &&& crate::media::published(hub, session, packet, verdict, r, after)
        };
    lemma_published_adds_only(hub, session, packet, verdict, r, after, i);
    crate::media::lemma_published_ok(hub, session, packet, verdict, r, after);
    packet
}

proof fn lemma_picture<C: Fn(&MediaPacket) -> Result<(), String>>(
    check: C,
    hub: crate::media::Hub,
    session: Seq<char>,
    stream: StreamState,
    encoded: EncodedFrame,
    now_us: u64,
    action: EncodeAction,
    after: crate::media::Hub,
    left: StreamState,
    i: int,
    packet: MediaPacket,
)
    requires
        crate::media::hub_ok(hub),
        picture_sent(check, hub, session, stream, encoded, now_us, action, after, left),
        0 <= i < hub.clients.len(),
        after.clients[i].queue.packets.contains(packet),
    ensures
        hub.clients[i].queue.packets.contains(packet) || {
            &&& packet.header == header_of(
                bumped(stream),
                MediaKind::Video,
                encoded.keyframe,
                now_us,
            )
            &&& packet.payload@ == encoded.annex_b@
            &&& hub.clients[i].session == Some(session)
        },
{
    let next = bumped(stream);
    let r = choose|r: Result<PublishStats, crate::media::MediaHubError>|
        {
            &&& #[trigger] sent(
                check,
                hub,
                session,
                header_of(next, MediaKind::Video, encoded.keyframe, now_us),
                encoded.annex_b@,
                r,
                after,
            )
            &&& match r {
                Ok(_) => action == EncodeAction::Done(Ok(())) && left == (StreamState {
                    discontinuity: false,
                    ..next
                }),
                Err(error) => failure(action, error) && left == next,
            }
        };
    let p = lemma_sent(
        check,
        hub,
        session,
        header_of(next, MediaKind::Video, encoded.keyframe, now_us),
        encoded.annex_b@,
        r,
        after,
        i,
    );
}

/// The encoder is set up for the frame that comes: it is created or reconfigured with the
/// frame's width and height, and a frame is encoded only once its stream has just these.
/// A new stream begins with a keyframe and a discontinuity, under the id it was given, and
/// so does a reconfigured one under the id it had; a stream that is not touched stays.
pub proof fn law_encoder_follows_the_frame<C: Fn(&MediaPacket) -> Result<(), String>>(
    check: C,
    streams: Map<SurfaceKey, StreamState>,
    hub: crate::media::Hub,
    session: Seq<char>,
    key: SurfaceKey,
    width: u32,
    height: u32,
    event: EncodeEvent,
    now_us: u64,
    r: EncodeAction,
    after: Map<SurfaceKey, StreamState>,
    hub_after: crate::media::Hub,
    other: SurfaceKey,
)
    requires
        encoding_step(
            check,
            streams,
            hub,
            session,
            key,
            width,
            height,
            event,
            now_us,
            r,
            after,
            hub_after,
        ),
    ensures
        r matches EncodeAction::Create { width: w, height: h } ==> w == width && h == height
            && event is Begin && !streams.dom().contains(key),
        r matches EncodeAction::Reconfigure { width: w, height: h } ==> w == width && h == height
            && (after[key].width != width || after[key].height != height),
        r matches EncodeAction::Encode { force_keyframe } ==> after.dom().contains(key)
            && after[key].width == width && after[key].height == height && force_keyframe
            == after[key].force_keyframe,
        event is Begin && streams.dom().contains(key) && streams[key].width == width
            && streams[key].height == height ==> r is Encode,
        event is Begin && streams.dom().contains(key) && !(streams[key].width == width
            && streams[key].height == height) ==> r is Reconfigure,
        event is Begin && !streams.dom().contains(key) ==> r is Create,
        event matches EncodeEvent::Created { stream_id, outcome: Ok(_) } ==> r == (
        EncodeAction::Encode { force_keyframe: true }) && after[key].id == stream_id
            && after[key].discontinuity && after[key].started_us == now_us
            && after[key].sequence == 0,
        event matches EncodeEvent::Reconfigured(Ok(_)) ==> r == (EncodeAction::Encode {
            force_keyframe: true,
        }) && after[key].id == streams[key].id && after[key].discontinuity
            && after[key].sequence == streams[key].sequence && after[key].started_us
            == streams[key].started_us,
        other != key ==> after.dom().contains(other) == streams.dom().contains(other)
            && after[other] == streams[other],
        !(event is Encoded) ==> hub_after == hub,
{
}

/// The end of a stream goes out as one packet of it, numbered after all its others; and
/// nobody but the clients of the session gets it.
pub proof fn law_stream_ends_with_its_last_packet<C: Fn(&MediaPacket) -> Result<(), String>>(
    check: C,
    hub: crate::media::Hub,
    session: Seq<char>,
    stream: StreamState,
    now_us: u64,
    after: crate::media::Hub,
    i: int,
    packet: MediaPacket,
)
    requires
        crate::media::hub_ok(hub),
        end_sent(check, hub, session, stream, now_us, after),
        0 <= i < hub.clients.len(),
        after.clients[i].queue.packets.contains(packet),
        !hub.clients[i].queue.packets.contains(packet),
    ensures
        packet.header.kind == MediaKind::StreamEnd,
        packet.header.stream_id == stream.id,
        packet.header.width == stream.width && packet.header.height == stream.height,
        packet.payload@.len() == 0,
        !packet.header.flags.keyframe,
        stream.sequence < u64::MAX ==> packet.header.sequence == stream.sequence + 1,
        hub.clients[i].session == Some(session),
{
    let r = choose|r: Result<PublishStats, crate::media::MediaHubError>| #[trigger]
        sent(
            check,
            hub,
            session,
            header_of(bumped(stream), MediaKind::StreamEnd, false, now_us),
            Seq::empty(),
            r,
            after,
        );
    let p = lemma_sent(
        check,
        hub,
        session,
        header_of(bumped(stream), MediaKind::StreamEnd, false, now_us),
        Seq::empty(),
        r,
        after,
        i,
    );
}

/// Of a surface only its latest frame waits: a new one takes the place of the one that is
/// queued, where that stands, and the loss is noted; otherwise it goes to the end. Every
/// other command stays where it was.
pub proof fn law_latest_frame_waits(p: Pending, key: SurfaceKey, frame: Frame, i: int)
    requires
        pending_ok(p),
    ensures
        ({
            let command = EncodeCommand::Frame { key, frame };
            let next = submitted(p, command);
            let n = p.queue.len() as int;
            &&& 0 <= i < n && (p.queue[i] matches EncodeCommand::Frame { key: k, frame: _ } && k
                == key) ==> next.queue == p.queue.update(i, command) && next.superseded.contains(
                key,
            )
            &&& (forall|j: int|
                0 <= j < n ==> !((#[trigger] p.queue[j]) is Frame && p.queue[j]->Frame_key == key))
                ==> next.queue == p.queue.push(command) && next.superseded == p.superseded
            &&& next.stopped == p.stopped
            &&& forall|other: SurfaceKey|
                other != key ==> #[trigger] next.superseded.contains(other)
                    == p.superseded.contains(other)
        }),
{
    if 0 <= i < p.queue.len() && is_frame_of(p.queue[i], key) {
        assert(has_frame(p.queue, key));
        lemma_first_frame_exists(p.queue, key);
        let f = choose|f: int| is_first_frame(p.queue, key, f);
        if f < i {
            let _ = (p.queue[f], p.queue[i]);
        }
        if i < f {
            let _ = (p.queue[i], p.queue[f]);
        }
        assert(f == i);
    }
    if forall|j: int|
        0 <= j < p.queue.len() ==> !((#[trigger] p.queue[j]) is Frame && p.queue[j]->Frame_key
            == key) {
        assert(!has_frame(p.queue, key));
    }
}

/// The end of a surface or of a client is queued last, takes the frames that are queued
/// for it with it, and leaves every other command.
pub proof fn law_end_takes_the_frames_along(p: Pending, key: SurfaceKey, c: EncodeCommand)
    ensures
        ({
            let next = submitted(p, EncodeCommand::EndStream { key });
            &&& next.queue.last() == (EncodeCommand::EndStream { key })
            &&& !(c is Frame && c->Frame_key == key) && p.queue.contains(c) ==> next.queue.contains(
                c,
            )
            &&& c is Frame && c->Frame_key == key ==> !next.queue.contains(c)
            &&& !next.superseded.contains(key)
        }),
        ({
            let client_id = key.client_id;
            let next = submitted(p, EncodeCommand::ClientGone { client_id });
            &&& next.queue.last() == (EncodeCommand::ClientGone { client_id })
            &&& !(c is Frame && c->Frame_key.client_id == client_id) && p.queue.contains(c)
                ==> next.queue.contains(c)
            &&& c is Frame && c->Frame_key.client_id == client_id ==> !next.queue.contains(c)
            &&& !next.superseded.contains(key)
        }),
        submitted(p, EncodeCommand::ForceKeyframeAll).queue == p.queue.push(
            EncodeCommand::ForceKeyframeAll,
        ),
{
    lemma_kept_commands(p.queue, |x: EncodeCommand| !is_frame_of(x, key), c);
    lemma_kept_commands(p.queue, |x: EncodeCommand| !is_frame_from(x, key.client_id), c);
    let ended = crate::lists::retained(p.queue, |x: EncodeCommand| !is_frame_of(x, key));
    let gone = crate::lists::retained(
        p.queue,
        |x: EncodeCommand| !is_frame_from(x, key.client_id),
    );
    lemma_push_contains(ended, EncodeCommand::EndStream { key }, c);
    lemma_push_contains(gone, EncodeCommand::ClientGone { client_id: key.client_id }, c);
    assert(submitted(p, EncodeCommand::EndStream { key }).queue == ended.push(
        EncodeCommand::EndStream { key },
    ));
    assert(submitted(p, EncodeCommand::ClientGone { client_id: key.client_id }).queue == gone.push(
        EncodeCommand::ClientGone { client_id: key.client_id },
    ));
}

proof fn lemma_push_contains(list: Seq<EncodeCommand>, x: EncodeCommand, c: EncodeCommand)
    ensures
        list.push(x).contains(c) <==> list.contains(c) || c == x,
{
    if list.contains(c) {
        let i = list.index_of(c);
        assert(list.push(x)[i] == c);
    }
    if c == x {
        assert(list.push(x)[list.len() as int] == c);
    }
    if list.push(x).contains(c) {
        let i = list.push(x).index_of(c);
        if i < list.len() {
            assert(list[i] == c);
        }
    }
}

proof fn lemma_kept_commands(
    queue: Seq<EncodeCommand>,
    keep: spec_fn(EncodeCommand) -> bool,
    c: EncodeCommand,
)
    ensures
        crate::lists::retained(queue, keep).contains(c) <==> queue.contains(c) && keep(c),
{
    let kept = crate::lists::retained(queue, keep);
    let places = crate::lists::lemma_retained(queue, keep);
    if kept.contains(c) {
        let i = kept.index_of(c);
        assert(keep(kept[i]));
        assert(queue[places[i]] == c);
    }
    if queue.contains(c) && keep(c) {
        let i = queue.index_of(c);
        assert(keep(queue[i]));
    }
}

/// Commands come out in the order in which they stand, and a frame that took the place of
/// another one is marked, once.
pub proof fn law_commands_come_out_in_order(p: Pending)
    requires
        p.queue.len() > 0,
    ensures
        seq![p.queue[0]] + popped(p).queue == p.queue,
        first_superseded(p) <==> p.queue[0] is Frame && p.superseded.contains(
            p.queue[0]->Frame_key,
        ),
        p.queue[0] is Frame ==> !popped(p).superseded.contains(p.queue[0]->Frame_key),
        !(p.queue[0] is Frame) ==> popped(p).superseded == p.superseded,
{
    assert(seq![p.queue[0]] + popped(p).queue =~= p.queue);
}

/// A frame that is done went out to every client of the session: one with a keyframe is
/// the last packet in each of their queues, with the size that was asked for and what the
/// encoder made.
pub proof fn law_finished_keyframe_is_in_every_queue<
    C: Fn(&MediaPacket) -> Result<(), String>,
>(
    check: C,
    streams: Map<SurfaceKey, StreamState>,
    hub: crate::media::Hub,
    session: Seq<char>,
    key: SurfaceKey,
    width: u32,
    height: u32,
    encoded: EncodedFrame,
    now_us: u64,
    after: Map<SurfaceKey, StreamState>,
    hub_after: crate::media::Hub,
    i: int,
)
    requires
        crate::media::hub_ok(hub),
        encoding_step(
            check,
            streams,
            hub,
            session,
            key,
            width,
            height,
            EncodeEvent::Encoded(Ok(encoded)),
            now_us,
            EncodeAction::Done(Ok(())),
            after,
            hub_after,
        ),
        encoded.keyframe,
        0 <= i < hub.clients.len(),
        hub.clients[i].session == Some(session),
    ensures
        ({
            let packets = hub_after.clients[i].queue.packets;
            &&& packets.len() > 0
            &&& packets.last().header.kind == MediaKind::Video
            &&& packets.last().header.flags.keyframe
            &&& packets.last().payload@ == encoded.annex_b@
            &&& packets.last().header.width == streams[key].width
            &&& packets.last().header.height == streams[key].height
            &&& packets.last().header.stream_id == streams[key].id
        }),
        !after[key].discontinuity,
        !after[key].force_keyframe,
        streams[key].sequence < u64::MAX - 2 ==> after[key].sequence == streams[key].sequence + (
        if encoded.config is Some {
            2int
        } else {
            1
        }),
{
    let stream = streams[key];
    let settled = StreamState { force_keyframe: false, ..stream };
    let r = EncodeAction::Done(Ok(()));
    if encoded.config is Some {
        let payload = encoded.config->0->Ok_0;
        let (r1, mid) = choose|
            r1: Result<PublishStats, crate::media::MediaHubError>,
            mid: crate::media::Hub,
        |
            {
                &&& #[trigger] sent(
                    check,
                    hub,
                    session,
                    header_of(bumped(settled), MediaKind::StreamConfig, false, now_us),
                    payload@,
                    r1,
                    mid,
                )
                &&& match r1 {
                    Err(error) => failure(r, error) && after[key] == bumped(settled) && hub_after
                        == mid,
                    Ok(_) => picture_sent(
                        check,
                        mid,
                        session,
                        bumped(settled),
                        encoded,
                        now_us,
                        r,
                        hub_after,
                        after[key],
                    ),
                }
            };
        let p1 = lemma_sent(
            check,
            hub,
            session,
            header_of(bumped(settled), MediaKind::StreamConfig, false, now_us),
            payload@,
            r1,
            mid,
            i,
        );
        lemma_keyframe_last(
            check,
            mid,
            session,
            bumped(settled),
            encoded,
            now_us,
            hub_after,
            after[key],
            i,
        );
    } else {
        lemma_keyframe_last(
            check,
            hub,
            session,
            settled,
            encoded,
            now_us,
            hub_after,
            after[key],
            i,
        );
    }
}

proof fn lemma_keyframe_last<C: Fn(&MediaPacket) -> Result<(), String>>(
    check: C,
    hub: crate::media::Hub,
    session: Seq<char>,
    stream: StreamState,
    encoded: EncodedFrame,
    now_us: u64,
    after: crate::media::Hub,
    left: StreamState,
    i: int,
)
    requires
        crate::media::hub_ok(hub),
        picture_sent(
            check,
            hub,
            session,
            stream,
            encoded,
            now_us,
            EncodeAction::Done(Ok(())),
            after,
            left,
        ),
        encoded.keyframe,
        0 <= i < hub.clients.len(),
        hub.clients[i].session == Some(session),
    ensures
        after.clients[i].queue.packets.len() > 0,
        after.clients[i].queue.packets.last().header == header_of(
            bumped(stream),
            MediaKind::Video,
            true,
            now_us,
        ),
        after.clients[i].queue.packets.last().payload@ == encoded.annex_b@,
        left == (StreamState { discontinuity: false, ..bumped(stream) }),
{
    let next = bumped(stream);
    let r = choose|r: Result<PublishStats, crate::media::MediaHubError>|
        {
            &&& #[trigger] sent(
                check,
                hub,
                session,
                header_of(next, MediaKind::Video, encoded.keyframe, now_us),
                encoded.annex_b@,
                r,
                after,
            )
            &&& match r {
                Ok(_) => EncodeAction::Done(Ok(())) == EncodeAction::Done(Ok(())) && left == (
                StreamState { discontinuity: false, ..next }),
                Err(error) => failure(EncodeAction::Done(Ok(())), error) && left == next,
            }
        };
    let p = lemma_sent(
        check,
        hub,
        session,
        header_of(next, MediaKind::Video, encoded.keyframe, now_us),
        encoded.annex_b@,
        r,
        after,
        i,
    );
}


/// A command does what it says. A frame comes back as it is, and only a lost one makes
/// its stream discontinuous. After a forced keyframe every stream begins anew at its
/// own size, id and number. The end of a surface ends its stream and no other, and a
/// client that goes takes exactly its own streams along.
pub proof fn law_commands_reach_their_streams<C: Fn(&MediaPacket) -> Result<(), String>>(
    check: C,
    streams: Map<SurfaceKey, StreamState>,
    hub: crate::media::Hub,
    session: Seq<char>,
    command: EncodeCommand,
    superseded: bool,
    now_us: u64,
    r: Option<(SurfaceKey, Frame)>,
    after: Map<SurfaceKey, StreamState>,
    hub_after: crate::media::Hub,
    key: SurfaceKey,
)
    requires
        command_applied(
            check,
            streams,
            hub,
            session,
            command,
            superseded,
            now_us,
            r,
            after,
            hub_after,
        ),
    ensures
        command is Frame ==> r == Some((command->Frame_key, command->frame)) && hub_after == hub,
        !(command is Frame) ==> r is None,
        command is Frame && !superseded ==> after == streams,
        command is Frame && superseded && streams.dom().contains(key) ==> after.dom().contains(key)
            && after[key].discontinuity == (key == command->Frame_key || streams[key].discontinuity)
            && after[key].id == streams[key].id && after[key].sequence == streams[key].sequence
            && after[key].width == streams[key].width && after[key].height == streams[key].height,
        command is ForceKeyframeAll ==> hub_after == hub && (after.dom().contains(key)
            <==> streams.dom().contains(key)),
        command is ForceKeyframeAll && streams.dom().contains(key) ==> {
            let stream = after[key];
            &&& stream.force_keyframe && stream.discontinuity
            &&& stream.id == streams[key].id && stream.sequence == streams[key].sequence
            &&& stream.width == streams[key].width && stream.height == streams[key].height
            &&& stream.started_us == streams[key].started_us
        },
        command is EndStream ==> (after.dom().contains(key) <==> streams.dom().contains(key) && key
            != command->EndStream_key),
        command is ClientGone ==> (after.dom().contains(key) <==> streams.dom().contains(key)
            && key.client_id != command->client_id),
        (command is EndStream || command is ClientGone) && after.dom().contains(key)
            ==> after[key] == streams[key],
        command is EndStream && !streams.dom().contains(command->EndStream_key) ==> hub_after == hub,
{
    if command is ForceKeyframeAll {
        assert(after.dom().contains(key) <==> streams.dom().contains(key));
    }
}

/// Commands are handed out from the first to the last, each once, with the note whether
/// a frame was lost to it. The encoder stops only once nothing is left.
pub proof fn law_encoder_stops_once_nothing_is_left(p: Pending, r: NextCommand, after: Pending)
    requires
        handed_out(p, r, after),
    ensures
        p.queue.len() > 0 ==> r is Command && r->Command_0 == p.queue[0] && after.queue
            == p.queue.skip(1),
        p.queue.len() > 0 && p.queue[0] is Frame ==> r->Command_1 == p.superseded.contains(
            p.queue[0]->Frame_key,
        ) && !after.superseded.contains(p.queue[0]->Frame_key),
        p.queue.len() > 0 && !(p.queue[0] is Frame) ==> !r->Command_1 && after.superseded
            == p.superseded,
        r is Stopped <==> p.queue.len() == 0 && p.stopped,
        r is Empty <==> p.queue.len() == 0 && !p.stopped,
        after.stopped == p.stopped,
{
    if p.queue.len() > 0 {
        assert(p.queue.drop_first() =~= p.queue.skip(1));
    }
}


/// Surfaces are gone through client by client, and surface by surface within one.
pub proof fn law_surfaces_go_by_client(a: SurfaceKey, b: SurfaceKey)
    ensures
        a.client_id < b.client_id ==> SurfaceKey::precedes(a, b),
        a.client_id == b.client_id && a.surface_id < b.surface_id ==> SurfaceKey::precedes(a, b),
        SurfaceKey::precedes(a, b) ==> a.client_id <= b.client_id && a != b,
{
}

} // verus!
