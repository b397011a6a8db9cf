//! Bounded storage of clipboard images, one namespace per live session. A blob is
//! written to a partial file under a budget and becomes visible whole or not at
//! all; its writer holds a lease on the session's incarnation and can publish
//! nothing once that is gone.

use vstd::prelude::*;

use crate::file_transfers::Usage;
use crate::paths::join_path;
use crate::protocol::{is_blob_id, BlobDescriptor, MAX_BLOB_BYTES};
use crate::registry::validate_session_name;
use crate::sorted_map::SortedMap;
use crate::text::{ends_with_text, hex_of, join2, same_text};

verus! {

broadcast use vstd::string::group_string_axioms;

pub const MAX_SESSION_BLOB_BYTES: u64 = 268_435_456;

/// Many tiny images must not exhaust the file system's inodes.
pub const MAX_SESSION_BLOB_OBJECTS: u64 = 1_024;

#[derive(Debug, PartialEq, Eq)]
pub enum BlobStoreError {
    InvalidSession,
    UnsupportedMime,
    InvalidDescriptor,
    BlobTooLarge,
    SessionBudgetExceeded,
    NotFound,
    SessionNotLive,
    Io(String),
}

impl BlobStoreError {
    /// The message that goes with the error.
    pub open spec fn message_text(&self) -> Seq<char> {
        match self {
            BlobStoreError::InvalidSession => "invalid session"@,
            BlobStoreError::UnsupportedMime => "unsupported blob MIME type"@,
            BlobStoreError::InvalidDescriptor => "invalid blob descriptor"@,
            BlobStoreError::BlobTooLarge => "blob exceeds the per-blob limit"@,
            BlobStoreError::SessionBudgetExceeded => "session blob budget is exhausted"@,
            BlobStoreError::NotFound => "blob not found"@,
            BlobStoreError::SessionNotLive => "session is not live"@,
            BlobStoreError::Io(reason) => "blob I/O failed: "@ + reason@,
        }
    }

    pub fn message(&self) -> (r: String)
        ensures
            r@ == self.message_text(),
    {
        match self {
            BlobStoreError::InvalidSession => "invalid session".to_owned(),
            BlobStoreError::UnsupportedMime => "unsupported blob MIME type".to_owned(),
            BlobStoreError::InvalidDescriptor => "invalid blob descriptor".to_owned(),
            BlobStoreError::BlobTooLarge => "blob exceeds the per-blob limit".to_owned(),
            BlobStoreError::SessionBudgetExceeded => "session blob budget is exhausted".to_owned(),
            BlobStoreError::NotFound => "blob not found".to_owned(),
            BlobStoreError::SessionNotLive => "session is not live".to_owned(),
            BlobStoreError::Io(reason) => join2("blob I/O failed: ", reason.as_str()),
        }
    }
}

/// Why a file operation failed, as far as it matters here.
#[derive(Debug, PartialEq, Eq)]
pub enum IoFailure {
    NotFound,
    Other(String),
}

/// A file that is not there is a blob that is not there.
pub fn not_found(failure: IoFailure) -> (r: BlobStoreError)
    ensures
        r == (match failure {
            IoFailure::NotFound => BlobStoreError::NotFound,
            IoFailure::Other(reason) => BlobStoreError::Io(reason),
        }),
{
    match failure {
        IoFailure::NotFound => BlobStoreError::NotFound,
        IoFailure::Other(reason) => BlobStoreError::Io(reason),
    }
}

/// What is not there need not be removed.
pub fn ignore_not_found(failure: IoFailure) -> (r: Result<(), String>)
    ensures
        r == (match failure {
            IoFailure::NotFound => Ok(()),
            IoFailure::Other(reason) => Err(reason),
        }),
{
    match failure {
        IoFailure::NotFound => Ok(()),
        IoFailure::Other(reason) => Err(reason),
    }
}

/// What writers hold of a session's budget.
#[derive(Clone, Copy, Debug, PartialEq, Eq, Structural)]
pub struct Reservation {
    pub bytes: u64,
    pub objects: u64,
}

#[derive(Clone, Copy, Debug, PartialEq, Eq, Structural)]
pub struct BlobLimits {
    pub max_blob_bytes: u64,
    pub max_session_bytes: u64,
    pub max_session_objects: u64,
}

/// The state of a store.
#[verifier::ext_equal]
pub struct Blobs {
    pub root: Seq<char>,
    /// What the writers of each incarnation hold.
    pub active: Map<(Seq<char>, u64), Reservation>,
    /// The live sessions, each with the number of its incarnation.
    pub live: Map<Seq<char>, u64>,
    pub next_epoch: u64,
    pub limits: BlobLimits,
}

pub open spec fn is_supported(mime: Seq<char>) -> bool {
    mime == "image/png"@ || mime == "image/jpeg"@ || mime == "image/webp"@
}

fn is_supported_mime(mime: &str) -> (r: bool)
    ensures
        r == is_supported(mime@),
{
    same_text(mime, "image/png") || same_text(mime, "image/jpeg") || same_text(mime, "image/webp")
}

pub open spec fn session_dir(root: Seq<char>, session: Seq<char>) -> Seq<char> {
    crate::paths::joined(root, session)
}

/// Where the content of a blob is kept.
pub open spec fn blob_path(root: Seq<char>, session: Seq<char>, id: Seq<char>) -> Seq<char> {
    crate::paths::joined(session_dir(root, session), id)
}

/// Where a blob's descriptor is kept.
pub open spec fn meta_path(root: Seq<char>, session: Seq<char>, id: Seq<char>) -> Seq<char> {
    crate::paths::joined(session_dir(root, session), id + ".meta"@)
}

/// Where the content is written before it is published.
pub open spec fn part_path(root: Seq<char>, session: Seq<char>, id: Seq<char>) -> Seq<char> {
    crate::paths::joined(session_dir(root, session), id + ".part"@)
}

pub open spec fn nothing_held() -> Reservation {
    Reservation { bytes: 0, objects: 0 }
}

/// What the writers of one incarnation hold.
pub open spec fn held(
    active: Map<(Seq<char>, u64), Reservation>,
    key: (Seq<char>, u64),
) -> Reservation {
    if active.dom().contains(key) {
        active[key]
    } else {
        nothing_held()
    }
}

/// The session cannot take this much more: what is stored and what writers hold
/// count alike. Bytes only matter where some are asked for.
pub open spec fn exceeds(
    limits: BlobLimits,
    stored: Usage,
    holds: Reservation,
    bytes: u64,
    objects: u64,
) -> bool {
    ||| bytes > 0 && stored.bytes + holds.bytes + bytes > limits.max_session_bytes
    ||| stored.objects + holds.objects + objects > limits.max_session_objects
}

pub open spec fn reserved(
    active: Map<(Seq<char>, u64), Reservation>,
    key: (Seq<char>, u64),
    bytes: u64,
    objects: u64,
) -> Map<(Seq<char>, u64), Reservation> {
    active.insert(
        key,
        Reservation {
            bytes: (held(active, key).bytes + bytes) as u64,
            objects: (held(active, key).objects + objects) as u64,
        },
    )
}

pub open spec fn less(a: u64, b: u64) -> u64 {
    if a <= b {
        0
    } else {
        (a - b) as u64
    }
}

/// A part of what is held given back; an entry that holds nothing goes.
pub open spec fn released(
    active: Map<(Seq<char>, u64), Reservation>,
    key: (Seq<char>, u64),
    bytes: u64,
    objects: u64,
) -> Map<(Seq<char>, u64), Reservation> {
    let left = Reservation {
        bytes: less(held(active, key).bytes, bytes),
        objects: less(held(active, key).objects, objects),
    };
    if !active.dom().contains(key) {
        active
    } else if left == nothing_held() {
        active.remove(key)
    } else {
        active.insert(key, left)
    }
}

/// `remove` was asked to remove `path` and answered `outcome`.
pub open spec fn tree_removal<R: FnOnce(&str) -> Result<(), IoFailure>>(
    remove: R,
    path: Seq<char>,
    outcome: Result<(), IoFailure>,
) -> bool {
    exists|p: &str| p@ == path && #[trigger] call_ensures(remove, (p,), outcome)
}

/// The removal left nothing behind.
pub open spec fn is_gone(outcome: Result<(), IoFailure>) -> bool {
    outcome is Ok || outcome == Err::<(), _>(IoFailure::NotFound)
}

/// The stores of the sessions' blobs.
pub struct BlobStore {
    root: String,
    active: SortedMap<(String, u64), Reservation>,
    live: SortedMap<String, u64>,
    next_epoch: u64,
    limits: BlobLimits,
}

impl View for BlobStore {
    type V = Blobs;

    closed spec fn view(&self) -> Blobs {
        Blobs {
            root: self.root@,
            active: self.active@,
            live: self.live@,
            next_epoch: self.next_epoch,
            limits: self.limits,
        }
    }
}

pub open spec fn no_blobs(root: Seq<char>, limits: BlobLimits) -> Blobs {
    Blobs { root, active: Map::empty(), live: Map::empty(), next_epoch: 0, limits }
}

/// A new incarnation of the session is live.
pub open spec fn opened(blobs: Blobs, session: Seq<char>) -> Blobs {
    let epoch = crate::file_transfers::epoch_after(blobs.next_epoch);
    Blobs { live: blobs.live.insert(session, epoch), next_epoch: epoch, ..blobs }
}

/// Every live session has a valid name.
pub open spec fn blobs_ok(blobs: Blobs) -> bool {
    forall|session: Seq<char>| #[trigger]
        blobs.live.dom().contains(session) ==> crate::registry::valid_name(session)
}

/// A lease on this incarnation is good.
pub open spec fn leased(blobs: Blobs, session: Seq<char>, epoch: u64) -> bool {
    blobs.live.dom().contains(session) && blobs.live[session] == epoch
}

/// Starting a namespace for a session ends with `r` and leaves the store as `after`.
pub open spec fn activation<R: FnOnce(&str) -> Result<(), IoFailure>>(
    blobs: Blobs,
    session: Seq<char>,
    remove_tree: R,
    r: Result<(), BlobStoreError>,
    after: Blobs,
) -> bool {
    if !crate::registry::valid_name(session) {
        r == Err::<(), _>(BlobStoreError::InvalidSession) && after == blobs
    } else {
        exists|outcome: Result<(), IoFailure>|
            {
                &&& #[trigger] tree_removal(
                    remove_tree,
                    session_dir(blobs.root, session),
                    outcome,
                )
                &&& if is_gone(outcome) {
                    r is Ok && after == opened(blobs, session)
                } else {
                    &&& r == Err::<(), _>(BlobStoreError::Io(outcome->Err_0->Other_0))
                    &&& after == blobs
                }
            }
    }
}

/// Ending a session's namespace ends with `r` and leaves the store as `after`.
pub open spec fn deactivation<R: FnOnce(&str) -> Result<(), IoFailure>>(
    blobs: Blobs,
    session: Seq<char>,
    remove_tree: R,
    r: Result<(), BlobStoreError>,
    after: Blobs,
) -> bool {
    if !crate::registry::valid_name(session) {
        r == Err::<(), _>(BlobStoreError::InvalidSession) && after == blobs
    } else {
        &&& after == (Blobs { live: blobs.live.remove(session), ..blobs })
        &&& exists|outcome: Result<(), IoFailure>|
            {
                &&& #[trigger] tree_removal(
                    remove_tree,
                    session_dir(blobs.root, session),
                    outcome,
                )
                &&& r == if is_gone(outcome) {
                    Ok(())
                } else {
                    Err(BlobStoreError::Io(outcome->Err_0->Other_0))
                }
            }
    }
}

impl BlobStore {
    pub closed spec fn wf(&self) -> bool {
        blobs_ok(self@) && self.active.wf() && self.live.wf()
    }

    /// What the invariant says of the store's state.
    pub proof fn lemma_wf(&self)
        requires
            self.wf(),
        ensures
            blobs_ok(self@),
    {
    }

    pub fn new(root: String) -> (r: Self)
        ensures
            r.wf(),
            r@ == no_blobs(
                root@,
                BlobLimits {
                    max_blob_bytes: MAX_BLOB_BYTES,
                    max_session_bytes: MAX_SESSION_BLOB_BYTES,
                    max_session_objects: MAX_SESSION_BLOB_OBJECTS,
                },
            ),
    {
        BlobStore::with_limits(
            root,
            BlobLimits {
                max_blob_bytes: MAX_BLOB_BYTES,
                max_session_bytes: MAX_SESSION_BLOB_BYTES,
                max_session_objects: MAX_SESSION_BLOB_OBJECTS,
            },
        )
    }

    pub fn with_limits(root: String, limits: BlobLimits) -> (r: Self)
        ensures
            r.wf(),
            r@ == no_blobs(root@, limits),
    {
        BlobStore {
            root,
            active: SortedMap::new(),
            live: SortedMap::new(),
            next_epoch: 0,
            limits,
        }
    }

    /// The directory of the session's blobs.
    fn dir(&self, session: &str) -> (r: String)
        ensures
            r@ == session_dir(self@.root, session@),
    {
        join_path(self.root.as_str(), session)
    }

    /// Starts an empty namespace for a session. Where the old one cannot be
    /// removed, nothing changes.
    pub fn activate<R: FnOnce(&str) -> Result<(), IoFailure>>(
        &mut self,
        session: &str,
        remove_tree: R,
    ) -> (r: Result<(), BlobStoreError>)
        requires
            old(self).wf(),
            crate::registry::valid_name(session@) ==> crate::paths::takes_path(
                remove_tree,
                session_dir(old(self)@.root, session@),
            ),
        ensures
            final(self).wf(),
            activation(old(self)@, session@, remove_tree, r, final(self)@),
    {
        if validate_session_name(session).is_err() {
            return Err(BlobStoreError::InvalidSession);
        }
        let path = self.dir(session);
        let outcome = remove_tree(path.as_str());
        assert(tree_removal(remove_tree, session_dir(old(self)@.root, session@), outcome));
        match outcome {
            Ok(_) => {},
            Err(failure) => match ignore_not_found(failure) {
                Ok(()) => {},
                Err(reason) => {
                    return Err(BlobStoreError::Io(reason));
                },
            },
        }
        let next: u64 = self.next_epoch.wrapping_add(1);
        self.next_epoch = if next == 0 {
            1
        } else {
            next
        };
        let _ = self.live.insert(session.to_owned(), self.next_epoch);
        assert(self@ =~= opened(old(self)@, session@));
        Ok(())
    }

    /// Ends a session's namespace: its leases are void from now on, whether or
    /// not its files can be removed.
    pub fn deactivate<R: FnOnce(&str) -> Result<(), IoFailure>>(
        &mut self,
        session: &str,
        remove_tree: R,
    ) -> (r: Result<(), BlobStoreError>)
        requires
            old(self).wf(),
            crate::registry::valid_name(session@) ==> crate::paths::takes_path(
                remove_tree,
                session_dir(old(self)@.root, session@),
            ),
        ensures
            final(self).wf(),
            deactivation(old(self)@, session@, remove_tree, r, final(self)@),
    {
        if validate_session_name(session).is_err() {
            return Err(BlobStoreError::InvalidSession);
        }
        let _ = self.live.remove(&session.to_owned());
        assert(self@ =~= (Blobs { live: old(self)@.live.remove(session@), ..old(self)@ }));
        let path = self.dir(session);
        let outcome = remove_tree(path.as_str());
        assert(tree_removal(remove_tree, session_dir(old(self)@.root, session@), outcome));
        match outcome {
            Ok(_) => Ok(()),
            Err(failure) => match ignore_not_found(failure) {
                Ok(()) => Ok(()),
                Err(reason) => Err(BlobStoreError::Io(reason)),
            },
        }
    }

    /// Whether a lease on this incarnation is good.
    fn lease(&self, session: &String, epoch: u64) -> (r: bool)
        requires
            self.wf(),
        ensures
            r == leased(self@, session@, epoch),
    {
        match self.live.get(session) {
            Some(live) => *live == epoch,
            None => false,
        }
    }

    /// Takes bytes and objects out of the session's budget. `stored` is what its
    /// completed blobs take up.
    fn reserve(
        &mut self,
        session: &String,
        epoch: u64,
        bytes: u64,
        objects: u64,
        stored: Result<Usage, String>,
    ) -> (r: Result<(), BlobStoreError>)
        requires
            old(self).wf(),
        ensures
            final(self).wf(),
            r == (match stored {
                Err(reason) => Err(BlobStoreError::Io(reason)),
                Ok(stored) => if exceeds(
                    old(self)@.limits,
                    stored,
                    held(old(self)@.active, (session@, epoch)),
                    bytes,
                    objects,
                ) {
                    Err(BlobStoreError::SessionBudgetExceeded)
                } else {
                    Ok(())
                },
            }),
            final(self)@ == if r is Ok {
                Blobs {
                    active: reserved(old(self)@.active, (session@, epoch), bytes, objects),
                    ..old(self)@
                }
            } else {
                old(self)@
            },
    {
        let stored = match stored {
            Err(reason) => {
                return Err(BlobStoreError::Io(reason));
            },
            Ok(stored) => stored,
        };
        let key = (session.clone(), epoch);
        let holds = match self.active.get(&key) {
            Some(holds) => *holds,
            None => Reservation { bytes: 0, objects: 0 },
        };
        assert(holds == held(self@.active, (session@, epoch)));
        let used: u128 = stored.bytes as u128 + holds.bytes as u128 + bytes as u128;
        if bytes > 0 && used > self.limits.max_session_bytes as u128 {
            return Err(BlobStoreError::SessionBudgetExceeded);
        }
        let count: u128 = stored.objects as u128 + holds.objects as u128 + objects as u128;
        if count > self.limits.max_session_objects as u128 {
            return Err(BlobStoreError::SessionBudgetExceeded);
        }
        let _ = self.active.insert(
            key,
            Reservation { bytes: holds.bytes + bytes, objects: holds.objects + objects },
        );
        assert(self@ =~= (Blobs {
            active: reserved(old(self)@.active, (session@, epoch), bytes, objects),
            ..old(self)@
        }));
        Ok(())
    }

    /// Gives bytes and objects back to the budget of one incarnation.
    fn release(&mut self, session: &String, epoch: u64, bytes: u64, objects: u64)
        requires
            old(self).wf(),
        ensures
            final(self).wf(),
            final(self)@ == (Blobs {
                active: released(old(self)@.active, (session@, epoch), bytes, objects),
                ..old(self)@
            }),
    {
        let key = (session.clone(), epoch);
        let holds = match self.active.get(&key) {
            Some(holds) => *holds,
            None => {
                return ;
            },
        };
        let left = Reservation {
            bytes: holds.bytes.saturating_sub(bytes),
            objects: holds.objects.saturating_sub(objects),
        };
        if left.bytes == 0 && left.objects == 0 {
            let _ = self.active.remove(&key);
        } else {
            let _ = self.active.insert(key, left);
        }
        assert(self@.live == old(self)@.live);
    }
}

/// A blob being written: what its writer holds of the budget, and whether the
/// partial file is still there.
#[derive(Debug)]
pub struct BlobWriter {
    session: String,
    mime: String,
    id: String,
    part_path: String,
    open: bool,
    reserved: u64,
    reserved_objects: u64,
    epoch: u64,
    revoked: bool,
}

/// The state of a writer.
#[verifier::ext_equal]
pub struct Writer {
    pub session: Seq<char>,
    pub mime: Seq<char>,
    pub id: Seq<char>,
    pub part_path: Seq<char>,
    pub open: bool,
    pub reserved: u64,
    pub reserved_objects: u64,
    pub epoch: u64,
    pub revoked: bool,
}

impl View for BlobWriter {
    type V = Writer;

    closed spec fn view(&self) -> Writer {
        Writer {
            session: self.session@,
            mime: self.mime@,
            id: self.id@,
            part_path: self.part_path@,
            open: self.open,
            reserved: self.reserved,
            reserved_objects: self.reserved_objects,
            epoch: self.epoch,
            revoked: self.revoked,
        }
    }
}

pub open spec fn key_of(writer: Writer) -> (Seq<char>, u64) {
    (writer.session, writer.epoch)
}

/// The store after the writer gave back what it holds.
pub open spec fn given_back(blobs: Blobs, writer: Writer) -> Blobs {
    if writer.open {
        Blobs {
            active: released(
                blobs.active,
                key_of(writer),
                writer.reserved,
                writer.reserved_objects,
            ),
            ..blobs
        }
    } else {
        blobs
    }
}

/// A writer whose session is gone: it holds nothing any more.
pub open spec fn revoked(writer: Writer) -> Writer {
    Writer { open: false, reserved: 0, reserved_objects: 0, revoked: true, ..writer }
}

/// Why a write is refused from the start, in the order of the checks.
pub open spec fn unwritable(blobs: Blobs, session: Seq<char>, mime: Seq<char>) -> Option<
    BlobStoreError,
> {
    if !crate::registry::valid_name(session) {
        Some(BlobStoreError::InvalidSession)
    } else if !is_supported(mime) {
        Some(BlobStoreError::UnsupportedMime)
    } else if !blobs.live.dom().contains(session) {
        Some(BlobStoreError::SessionNotLive)
    } else {
        None
    }
}

/// `act` was given `path` and answered `outcome`.
pub open spec fn asked<T, F: FnOnce(&str) -> Result<T, String>>(
    act: F,
    path: Seq<char>,
    outcome: Result<T, String>,
) -> bool {
    exists|p: &str| p@ == path && #[trigger] call_ensures(act, (p,), outcome)
}

/// Beginning to write a blob ends with `r` and leaves the store as `after`.
pub open spec fn write_begun<
    P: FnOnce(&str) -> Result<Usage, String>,
    C: FnOnce(&str) -> Result<(), String>,
>(
    blobs: Blobs,
    session: Seq<char>,
    mime: Seq<char>,
    id_bytes: Seq<u8>,
    prepare: P,
    create: C,
    r: Result<BlobWriter, BlobStoreError>,
    after: Blobs,
) -> bool {
    match unwritable(blobs, session, mime) {
        Some(reason) => r == Err::<BlobWriter, _>(reason) && after == blobs,
        None => {
            let id = crate::text::hex_text(id_bytes);
            let epoch = blobs.live[session];
            let key = (session, epoch);
            let path = part_path(blobs.root, session, id);
            exists|stored: Result<Usage, String>|
                {
                    &&& #[trigger] asked(prepare, session_dir(blobs.root, session), stored)
                    &&& match stored {
                        Err(reason) => r == Err::<BlobWriter, _>(BlobStoreError::Io(reason))
                            && after == blobs,
                        Ok(stored) => if exceeds(
                            blobs.limits,
                            stored,
                            held(blobs.active, key),
                            0,
                            1,
                        ) {
                            &&& r == Err::<BlobWriter, _>(BlobStoreError::SessionBudgetExceeded)
                            &&& after == blobs
                        } else {
                            let taken = reserved(blobs.active, key, 0, 1);
                            match r {
                                Ok(writer) => {
                                    &&& asked(create, path, Ok(()))
                                    &&& after == (Blobs { active: taken, ..blobs })
                                    &&& writer@ == (Writer {
                                        session,
                                        mime,
                                        id,
                                        part_path: path,
                                        open: true,
                                        reserved: 0,
                                        reserved_objects: 1,
                                        epoch,
                                        revoked: false,
                                    })
                                },
                                Err(BlobStoreError::Io(reason)) => {
                                    &&& asked(create, path, Err(reason))
                                    &&& after == (Blobs {
                                        active: released(taken, key, 0, 1),
                                        ..blobs
                                    })
                                },
                                Err(_) => false,
                            }
                        },
                    }
                }
        },
    }
}

impl BlobStore {
    /// Begins to write a blob. `prepare` makes the session's directory and says
    /// what the completed blobs in it take up; `create` makes the partial file.
    /// An object is taken out of the budget before there is a file, so that a
    /// burst of writers cannot outrun the count.
    pub fn begin_write<
        P: FnOnce(&str) -> Result<Usage, String>,
        C: FnOnce(&str) -> Result<(), String>,
    >(&mut self, session: &str, mime: &str, id_bytes: [u8; 16], prepare: P, create: C) -> (r:
        Result<BlobWriter, BlobStoreError>)
        requires
            old(self).wf(),
            unwritable(old(self)@, session@, mime@) is None ==> crate::paths::takes_path(
                prepare,
                session_dir(old(self)@.root, session@),
            ),
            forall|stored: Usage| #[trigger]
                asked(prepare, session_dir(old(self)@.root, session@), Ok(stored)) && unwritable(
                    old(self)@,
                    session@,
                    mime@,
                ) is None && !exceeds(
                    old(self)@.limits,
                    stored,
                    held(old(self)@.active, (session@, old(self)@.live[session@])),
                    0,
                    1,
                ) ==> crate::paths::takes_path(
                    create,
                    part_path(old(self)@.root, session@, crate::text::hex_text(id_bytes@)),
                ),
        ensures
            final(self).wf(),
            write_begun(old(self)@, session@, mime@, id_bytes@, prepare, create, r, final(self)@),
    {
        if validate_session_name(session).is_err() {
            return Err(BlobStoreError::InvalidSession);
        }
        if !is_supported_mime(mime) {
            return Err(BlobStoreError::UnsupportedMime);
        }
        let name = session.to_owned();
        let epoch: u64 = match self.live.get(&name) {
            Some(epoch) => *epoch,
            None => {
                return Err(BlobStoreError::SessionNotLive);
            },
        };
        let directory = self.dir(session);
        let stored = prepare(directory.as_str());
        assert(asked(prepare, session_dir(old(self)@.root, session@), stored));
        match self.reserve(&name, epoch, 0, 1, stored) {
            Err(error) => {
                return Err(error);
            },
            Ok(()) => {},
        }
        let id = hex_of(id_bytes.as_slice());
        let path = join_path(directory.as_str(), join2(id.as_str(), ".part").as_str());
        let outcome = create(path.as_str());
        assert(asked(
            create,
            part_path(old(self)@.root, session@, crate::text::hex_text(id_bytes@)),
            outcome,
        ));
        match outcome {
            Err(reason) => {
                self.release(&name, epoch, 0, 1);
                Err(BlobStoreError::Io(reason))
            },
            Ok(nothing) => {
                assert(nothing == ());
                Ok(
                    BlobWriter {
                        session: name,
                        mime: mime.to_owned(),
                        id,
                        part_path: path,
                        open: true,
                        reserved: 0,
                        reserved_objects: 1,
                        epoch,
                        revoked: false,
                    },
                )
            },
        }
    }
}

/// Everything that publishing a blob takes: the descriptor goes to the partial
/// metadata file, and then both files to their final names.
#[derive(Debug)]
pub struct Publication {
    pub part_path: String,
    pub final_path: String,
    pub metadata_part: String,
    pub metadata_path: String,
    pub descriptor: BlobDescriptor,
}

/// `publication` is the one for this writer.
pub open spec fn publication_of(publication: Publication, root: Seq<char>, writer: Writer) -> bool {
    &&& publication.part_path@ == writer.part_path
    &&& publication.final_path@ == blob_path(root, writer.session, writer.id)
    &&& publication.metadata_part@ == crate::paths::joined(
        session_dir(root, writer.session),
        writer.id + ".meta.part"@,
    )
    &&& publication.metadata_path@ == meta_path(root, writer.session, writer.id)
    &&& publication.descriptor.id@ == writer.id
    &&& publication.descriptor.mime@ == writer.mime
    &&& publication.descriptor.size == writer.reserved
}

/// `publish` was given the publication of this writer and answered `outcome`.
pub open spec fn published<P: FnOnce(&Publication) -> Result<(), String>>(
    publish: P,
    root: Seq<char>,
    writer: Writer,
    outcome: Result<(), String>,
) -> bool {
    exists|publication: Publication| #[trigger]
        publication_of(publication, root, writer) && call_ensures(
            publish,
            (&publication,),
            outcome,
        )
}

/// A piece of this length is written: the writer is open and its session live, and
/// the piece is within the limits.
pub open spec fn may_write(
    blobs: Blobs,
    writer: Writer,
    length: nat,
    stored: Result<Usage, String>,
) -> bool {
    &&& writer.open
    &&& leased(blobs, writer.session, writer.epoch)
    &&& writer.reserved + length <= blobs.limits.max_blob_bytes
    &&& stored is Ok
    &&& !exceeds(
        blobs.limits,
        stored->Ok_0,
        held(blobs.active, key_of(writer)),
        length as u64,
        0,
    )
}

/// Writing a piece of a blob ends with `r` and leaves the store and the writer as
/// `after` and `next`.
pub open spec fn chunk_taken<W: FnOnce(&[u8]) -> Result<(), String>>(
    blobs: Blobs,
    writer: Writer,
    chunk: &[u8],
    stored: Result<Usage, String>,
    write: W,
    r: Result<(), BlobStoreError>,
    after: Blobs,
    next: Writer,
) -> bool {
    let size = writer.reserved + chunk@.len();
    if !leased(blobs, writer.session, writer.epoch) {
        &&& r == Err::<(), _>(BlobStoreError::SessionNotLive)
        &&& next == revoked(writer)
        &&& after == given_back(blobs, writer)
    } else if size > blobs.limits.max_blob_bytes {
        &&& r == Err::<(), _>(BlobStoreError::BlobTooLarge)
        &&& next == writer
        &&& after == blobs
    } else if stored is Err {
        &&& r == Err::<(), _>(BlobStoreError::Io(stored->Err_0))
        &&& next == writer
        &&& after == blobs
    } else if exceeds(
        blobs.limits,
        stored->Ok_0,
        held(blobs.active, key_of(writer)),
        chunk@.len() as u64,
        0,
    ) {
        &&& r == Err::<(), _>(BlobStoreError::SessionBudgetExceeded)
        &&& next == writer
        &&& after == blobs
    } else {
        let taken = reserved(blobs.active, key_of(writer), chunk@.len() as u64, 0);
        match r {
            Ok(()) => {
                &&& writer.open ==> call_ensures(write, (chunk,), Ok(()))
                &&& next == (Writer { reserved: size as u64, ..writer })
                &&& after == (Blobs { active: taken, ..blobs })
            },
            Err(BlobStoreError::Io(reason)) => {
                &&& writer.open
                &&& call_ensures(write, (chunk,), Err(reason))
                &&& next == writer
                &&& after == (Blobs {
                    active: released(taken, key_of(writer), chunk@.len() as u64, 0),
                    ..blobs
                })
            },
            Err(_) => false,
        }
    }
}

/// Ending the writing of a blob ends with `r`.
pub open spec fn finished<
    S: FnOnce() -> Result<(), String>,
    V: FnOnce(&BlobDescriptor) -> bool,
    P: FnOnce(&Publication) -> Result<(), String>,
>(
    blobs: Blobs,
    writer: Writer,
    sync: S,
    validate: V,
    publish: P,
    r: Result<BlobDescriptor, BlobStoreError>,
) -> bool {
    if writer.revoked {
        r == Err::<BlobDescriptor, _>(BlobStoreError::SessionNotLive)
    } else if writer.reserved == 0 {
        r == Err::<BlobDescriptor, _>(BlobStoreError::InvalidDescriptor)
    } else {
        ||| r matches Err(BlobStoreError::Io(reason)) && call_ensures(sync, (), Err(reason))
        ||| {
            &&& call_ensures(sync, (), Ok(()))
            &&& exists|descriptor: BlobDescriptor, valid: bool|
                {
                    &&& descriptor@ == (crate::protocol::Blob {
                        id: writer.id,
                        mime: writer.mime,
                        size: writer.reserved,
                    })
                    &&& #[trigger] call_ensures(validate, (&descriptor,), valid)
                    &&& if !valid {
                        r == Err::<BlobDescriptor, _>(BlobStoreError::InvalidDescriptor)
                    } else if !leased(blobs, writer.session, writer.epoch) {
                        r == Err::<BlobDescriptor, _>(BlobStoreError::SessionNotLive)
                    } else {
                        match r {
                            Ok(done) => done@ == descriptor@ && published(
                                publish,
                                blobs.root,
                                writer,
                                Ok(()),
                            ),
                            Err(BlobStoreError::Io(reason)) => published(
                                publish,
                                blobs.root,
                                writer,
                                Err(reason),
                            ),
                            Err(_) => false,
                        }
                    }
                }
        }
    }
}

impl BlobWriter {
    /// Where the content is written before it is published.
    pub fn part_path(&self) -> (r: &String)
        ensures
            r@ == self@.part_path,
    {
        &self.part_path
    }

    /// Writes the next piece. `stored` is what the session's completed blobs take
    /// up. Once the session is gone the writer is revoked, and its partial file is
    /// to be removed.
    pub fn write_chunk<W: FnOnce(&[u8]) -> Result<(), String>>(
        &mut self,
        store: &mut BlobStore,
        chunk: &[u8],
        stored: Result<Usage, String>,
        write: W,
    ) -> (r: Result<(), BlobStoreError>)
        requires
            old(store).wf(),
            may_write(old(store)@, old(self)@, chunk@.len(), stored) ==> call_requires(
                write,
                (chunk,),
            ),
        ensures
            final(store).wf(),
            chunk_taken(
                old(store)@,
                old(self)@,
                chunk,
                stored,
                write,
                r,
                final(store)@,
                final(self)@,
            ),
    {
        if !store.lease(&self.session, self.epoch) {
            self.revoke(store);
            return Err(BlobStoreError::SessionNotLive);
        }
        let length: usize = chunk.len();
        if self.reserved as u128 + length as u128 > store.limits.max_blob_bytes as u128 {
            return Err(BlobStoreError::BlobTooLarge);
        }
        let additional: u64 = length as u64;
        match store.reserve(&self.session, self.epoch, additional, 0, stored) {
            Err(error) => {
                return Err(error);
            },
            Ok(()) => {},
        }
        if self.open {
            match write(chunk) {
                Ok(nothing) => {
                    assert(nothing == ());
                },
                Err(reason) => {
                    store.release(&self.session, self.epoch, additional, 0);
                    return Err(BlobStoreError::Io(reason));
                },
            }
        }
        self.reserved = self.reserved + additional;
        Ok(())
    }

    /// Gives back what the writer holds, once and for all.
    fn revoke(&mut self, store: &mut BlobStore)
        requires
            old(store).wf(),
        ensures
            final(store).wf(),
            final(self)@ == revoked(old(self)@),
            final(store)@ == given_back(old(store)@, old(self)@),
    {
        if self.open {
            store.release(&self.session, self.epoch, self.reserved, self.reserved_objects);
            self.open = false;
        }
        self.reserved = 0;
        self.reserved_objects = 0;
        self.revoked = true;
    }

    /// Publishes the blob. `sync` makes what was written durable, `validate` is
    /// the protocol's own check of the descriptor, and `publish` moves the files.
    /// However it ends, what the writer held is given back; after an error the
    /// partial file is to be removed.
    pub fn finish<
        S: FnOnce() -> Result<(), String>,
        V: FnOnce(&BlobDescriptor) -> bool,
        P: FnOnce(&Publication) -> Result<(), String>,
    >(self, store: &mut BlobStore, sync: S, validate: V, publish: P) -> (r: Result<
        BlobDescriptor,
        BlobStoreError,
    >)
        requires
            old(store).wf(),
            !self@.revoked && self@.reserved > 0 ==> call_requires(sync, ()),
            forall|descriptor: &BlobDescriptor| call_requires(validate, (descriptor,)),
            forall|publication: &Publication|
                !self@.revoked && self@.reserved > 0 && leased(
                    old(store)@,
                    self@.session,
                    self@.epoch,
                ) && call_ensures(sync, (), Ok(())) && call_ensures(
                    validate,
                    (&publication.descriptor,),
                    true,
                ) && publication_of(*publication, old(store)@.root, self@)
                    ==> #[trigger] call_requires(publish, (publication,)),
        ensures
            final(store).wf(),
            final(store)@ == given_back(old(store)@, self@),
            finished(old(store)@, self@, sync, validate, publish, r),
    {
        let mut writer = self;
        if writer.revoked {
            writer.revoke(store);
            return Err(BlobStoreError::SessionNotLive);
        }
        if writer.reserved == 0 {
            writer.revoke(store);
            return Err(BlobStoreError::InvalidDescriptor);
        }
        match sync() {
            Ok(nothing) => {
                assert(nothing == ());
            },
            Err(reason) => {
                writer.revoke(store);
                return Err(BlobStoreError::Io(reason));
            },
        }
        let descriptor = BlobDescriptor {
            id: writer.id.clone(),
            mime: writer.mime.clone(),
            size: writer.reserved,
        };
        let valid: bool = validate(&descriptor);
        assert(call_ensures(validate, (&descriptor,), valid));
        if !valid {
            writer.revoke(store);
            return Err(BlobStoreError::InvalidDescriptor);
        }
        if !store.lease(&writer.session, writer.epoch) {
            writer.revoke(store);
            return Err(BlobStoreError::SessionNotLive);
        }
        let directory = store.dir(writer.session.as_str());
        let publication = Publication {
            part_path: writer.part_path.clone(),
            final_path: join_path(directory.as_str(), writer.id.as_str()),
            metadata_part: join_path(
                directory.as_str(),
                join2(writer.id.as_str(), ".meta.part").as_str(),
            ),
            metadata_path: join_path(
                directory.as_str(),
                join2(writer.id.as_str(), ".meta").as_str(),
            ),
            descriptor: descriptor.clone(),
        };
        assert(publication_of(publication, old(store)@.root, self@));
        let outcome = publish(&publication);
        assert(published(publish, old(store)@.root, self@, outcome));
        writer.revoke(store);
        match outcome {
            Ok(nothing) => {
                assert(nothing == ());
                Ok(descriptor)
            },
            Err(reason) => Err(BlobStoreError::Io(reason)),
        }
    }

    /// Gives an unfinished blob up; its partial file is to be removed.
    pub fn discard(self, store: &mut BlobStore)
        requires
            old(store).wf(),
        ensures
            final(store).wf(),
            final(store)@ == given_back(old(store)@, self@),
    {
        let mut writer = self;
        writer.revoke(store);
    }
}

/// What the file system says of a path, links not followed.
#[derive(Clone, Copy, Debug, PartialEq, Eq, Structural)]
pub struct FileFacts {
    pub is_file: bool,
    pub len: u64,
}

/// `act` was given `path` and answered `outcome`.
pub open spec fn told<T, F: FnOnce(&str) -> Result<T, IoFailure>>(
    act: F,
    path: Seq<char>,
    outcome: Result<T, IoFailure>,
) -> bool {
    exists|p: &str| p@ == path && #[trigger] call_ensures(act, (p,), outcome)
}

/// What a failed file operation means for a blob.
pub open spec fn blob_error(failure: IoFailure) -> BlobStoreError {
    match failure {
        IoFailure::NotFound => BlobStoreError::NotFound,
        IoFailure::Other(reason) => BlobStoreError::Io(reason),
    }
}

/// Why a blob is not looked for, in the order of the checks.
pub open spec fn unreadable(session: Seq<char>, valid: bool) -> Option<BlobStoreError> {
    if !crate::registry::valid_name(session) {
        Some(BlobStoreError::InvalidSession)
    } else if !valid {
        Some(BlobStoreError::InvalidDescriptor)
    } else {
        None
    }
}

/// Looking for a blob whose file `facts` describe ends like this.
pub open spec fn located(
    path: Seq<char>,
    size: u64,
    facts: Result<FileFacts, IoFailure>,
    r: Result<String, BlobStoreError>,
) -> bool {
    match facts {
        Err(failure) => r == Err::<String, _>(blob_error(failure)),
        Ok(facts) => if facts.is_file && facts.len == size {
            r matches Ok(p) && p@ == path
        } else {
            r == Err::<String, _>(BlobStoreError::NotFound)
        },
    }
}

/// The stored descriptor of a blob, where `load` finds a sound one under its id.
pub open spec fn stored_descriptor(
    session: Seq<char>,
    id: Seq<char>,
    loaded: Option<(BlobDescriptor, bool)>,
) -> Option<crate::protocol::Blob> {
    match loaded {
        Some((descriptor, valid)) if crate::registry::valid_name(session)
            && crate::protocol::valid_id(id) && descriptor.id@ == id && valid => Some(descriptor@),
        _ => None,
    }
}

/// `load` was given `path` and answered `loaded`.
pub open spec fn loaded_from<L: FnOnce(&str) -> Option<(BlobDescriptor, bool)>>(
    load: L,
    path: Seq<char>,
    loaded: Option<(BlobDescriptor, bool)>,
) -> bool {
    exists|p: &str| p@ == path && #[trigger] call_ensures(load, (p,), loaded)
}

/// `load` found exactly this blob under its id.
pub open spec fn is_stored<L: FnOnce(&str) -> Option<(BlobDescriptor, bool)>>(
    load: L,
    root: Seq<char>,
    session: Seq<char>,
    blob: crate::protocol::Blob,
) -> bool {
    exists|loaded: Option<(BlobDescriptor, bool)>| #[trigger]
        loaded_from(load, meta_path(root, session, blob.id), loaded) && stored_descriptor(
            session,
            blob.id,
            loaded,
        ) == Some(blob)
}

/// Looking for the file of a blob ends with `r`.
pub open spec fn file_located<F: FnOnce(&str) -> Result<FileFacts, IoFailure>>(
    root: Seq<char>,
    session: Seq<char>,
    blob: crate::protocol::Blob,
    valid: bool,
    stat: F,
    r: Result<String, BlobStoreError>,
) -> bool {
    match unreadable(session, valid) {
        Some(reason) => r == Err::<String, _>(reason),
        None => exists|facts: Result<FileFacts, IoFailure>| #[trigger]
            told(stat, blob_path(root, session, blob.id), facts) && located(
                blob_path(root, session, blob.id),
                blob.size,
                facts,
                r,
            ),
    }
}

/// Reading the content of a blob ends with `r`.
pub open spec fn content_read<
    F: FnOnce(&str) -> Result<FileFacts, IoFailure>,
    G: FnOnce(&str) -> Result<Vec<u8>, IoFailure>,
>(
    root: Seq<char>,
    session: Seq<char>,
    blob: crate::protocol::Blob,
    valid: bool,
    stat: F,
    load: G,
    r: Result<Vec<u8>, BlobStoreError>,
) -> bool {
    match unreadable(session, valid) {
        Some(reason) => r == Err::<Vec<u8>, _>(reason),
        None => {
            let path = blob_path(root, session, blob.id);
            exists|facts: Result<FileFacts, IoFailure>|
                {
                    &&& #[trigger] told(stat, path, facts)
                    &&& match facts {
                        Err(failure) => r == Err::<Vec<u8>, _>(blob_error(failure)),
                        Ok(facts) => if facts.is_file && facts.len == blob.size {
                            match r {
                                Ok(bytes) => told(load, path, Ok(bytes)),
                                Err(BlobStoreError::NotFound) => told(
                                    load,
                                    path,
                                    Err(IoFailure::NotFound),
                                ),
                                Err(BlobStoreError::Io(reason)) => told(
                                    load,
                                    path,
                                    Err(IoFailure::Other(reason)),
                                ),
                                Err(_) => false,
                            }
                        } else {
                            r == Err::<Vec<u8>, _>(BlobStoreError::NotFound)
                        },
                    }
                }
        },
    }
}

/// Looking for the descriptor of a blob ends with `r`.
pub open spec fn descriptor_found<L: FnOnce(&str) -> Option<(BlobDescriptor, bool)>>(
    root: Seq<char>,
    session: Seq<char>,
    id: Seq<char>,
    load: L,
    r: Option<BlobDescriptor>,
) -> bool {
    if crate::registry::valid_name(session) && crate::protocol::valid_id(id) {
        exists|loaded: Option<(BlobDescriptor, bool)>|
            {
                &&& #[trigger] loaded_from(load, meta_path(root, session, id), loaded)
                &&& match stored_descriptor(session, id, loaded) {
                    Some(blob) => r matches Some(descriptor) && descriptor@ == blob,
                    None => r is None,
                }
            }
    } else {
        r is None
    }
}

/// Removing a blob ends with `r`.
pub open spec fn blob_removed<
    L: FnOnce(&str) -> Option<(BlobDescriptor, bool)>,
    R: FnOnce(&str) -> Result<(), IoFailure>,
    M: FnOnce(&str) -> Result<(), IoFailure>,
>(
    root: Seq<char>,
    session: Seq<char>,
    blob: crate::protocol::Blob,
    valid: bool,
    load: L,
    remove_content: R,
    remove_meta: M,
    r: Result<(), BlobStoreError>,
) -> bool {
    match unreadable(session, valid) {
        Some(reason) => r == Err::<(), _>(reason),
        None => if !crate::protocol::valid_id(blob.id) {
            r == Err::<(), _>(BlobStoreError::NotFound)
        } else {
            exists|loaded: Option<(BlobDescriptor, bool)>|
                {
                    &&& #[trigger] loaded_from(load, meta_path(root, session, blob.id), loaded)
                    &&& if stored_descriptor(session, blob.id, loaded) != Some(blob) {
                        r == Err::<(), _>(BlobStoreError::NotFound)
                    } else {
                        deleted(remove_content, remove_meta, root, session, blob.id, r)
                    }
                }
        },
    }
}

impl BlobStore {
    /// The file of a blob: a regular file of exactly the blob's size. `valid`
    /// says whether the descriptor passed the protocol's own validation.
    pub fn read_path<F: FnOnce(&str) -> Result<FileFacts, IoFailure>>(
        &self,
        session: &str,
        blob: &BlobDescriptor,
        valid: bool,
        stat: F,
    ) -> (r: Result<String, BlobStoreError>)
        requires
            unreadable(session@, valid) is None ==> crate::paths::takes_path(
                stat,
                blob_path(self@.root, session@, blob@.id),
            ),
        ensures
            file_located(self@.root, session@, blob@, valid, stat, r),
    {
        if validate_session_name(session).is_err() {
            return Err(BlobStoreError::InvalidSession);
        }
        if !valid {
            return Err(BlobStoreError::InvalidDescriptor);
        }
        let path = join_path(self.dir(session).as_str(), blob.id.as_str());
        let facts = stat(path.as_str());
        assert(told(stat, blob_path(self@.root, session@, blob@.id), facts));
        match facts {
            Err(failure) => Err(not_found(failure)),
            Ok(facts) => {
                if !facts.is_file || facts.len != blob.size {
                    Err(BlobStoreError::NotFound)
                } else {
                    Ok(path)
                }
            },
        }
    }

    /// The content of a blob.
    pub fn read<
        F: FnOnce(&str) -> Result<FileFacts, IoFailure>,
        G: FnOnce(&str) -> Result<Vec<u8>, IoFailure>,
    >(&self, session: &str, blob: &BlobDescriptor, valid: bool, stat: F, load: G) -> (r: Result<
        Vec<u8>,
        BlobStoreError,
    >)
        requires
            unreadable(session@, valid) is None ==> crate::paths::takes_path(
                stat,
                blob_path(self@.root, session@, blob@.id),
            ),
            forall|facts: FileFacts| #[trigger]
                told(stat, blob_path(self@.root, session@, blob@.id), Ok(facts)) && unreadable(
                    session@,
                    valid,
                ) is None && facts.is_file && facts.len == blob@.size ==> crate::paths::takes_path(
                    load,
                    blob_path(self@.root, session@, blob@.id),
                ),
        ensures
            content_read(self@.root, session@, blob@, valid, stat, load, r),
    {
        match self.read_path(session, blob, valid, stat) {
            Err(error) => Err(error),
            Ok(path) => {
                let content = load(path.as_str());
                assert(told(load, blob_path(self@.root, session@, blob@.id), content));
                match content {
                    Ok(bytes) => Ok(bytes),
                    Err(failure) => Err(not_found(failure)),
                }
            },
        }
    }

    /// The descriptor that was stored with a blob. The id is all that a caller
    /// brings; type and size are the store's own. `load` reads a descriptor from
    /// a file and says whether it passed the protocol's own validation.
    pub fn descriptor<L: FnOnce(&str) -> Option<(BlobDescriptor, bool)>>(
        &self,
        session: &str,
        id: &str,
        load: L,
    ) -> (r: Option<BlobDescriptor>)
        requires
            crate::registry::valid_name(session@) && crate::protocol::valid_id(id@)
                ==> crate::paths::takes_path(load, meta_path(self@.root, session@, id@)),
        ensures
            descriptor_found(self@.root, session@, id@, load, r),
    {
        if validate_session_name(session).is_err() || !is_blob_id(id) {
            return None;
        }
        let path = join_path(self.dir(session).as_str(), join2(id, ".meta").as_str());
        let loaded = load(path.as_str());
        assert(loaded_from(load, meta_path(self@.root, session@, id@), loaded));
        match loaded {
            Some((descriptor, valid)) => {
                if valid && same_text(descriptor.id.as_str(), id) {
                    Some(descriptor)
                } else {
                    None
                }
            },
            None => None,
        }
    }

    /// Removes a blob, content and descriptor, if what is stored under its id is
    /// exactly this blob: a stale or made-up descriptor deletes nothing.
    pub fn remove<
        L: FnOnce(&str) -> Option<(BlobDescriptor, bool)>,
        R: FnOnce(&str) -> Result<(), IoFailure>,
        M: FnOnce(&str) -> Result<(), IoFailure>,
    >(
        &self,
        session: &str,
        blob: &BlobDescriptor,
        valid: bool,
        load: L,
        remove_content: R,
        remove_meta: M,
    ) -> (r: Result<(), BlobStoreError>)
        requires
            unreadable(session@, valid) is None && crate::protocol::valid_id(blob@.id)
                ==> crate::paths::takes_path(load, meta_path(self@.root, session@, blob@.id)),
            is_stored(load, self@.root, session@, blob@) && valid ==> crate::paths::takes_path(
                remove_content,
                blob_path(self@.root, session@, blob@.id),
            ),
            is_stored(load, self@.root, session@, blob@) && valid && told(
                remove_content,
                blob_path(self@.root, session@, blob@.id),
                Ok(()),
            ) ==> crate::paths::takes_path(
                remove_meta,
                meta_path(self@.root, session@, blob@.id),
            ),
        ensures
            blob_removed(
                self@.root,
                session@,
                blob@,
                valid,
                load,
                remove_content,
                remove_meta,
                r,
            ),
    {
        if validate_session_name(session).is_err() {
            return Err(BlobStoreError::InvalidSession);
        }
        if !valid {
            return Err(BlobStoreError::InvalidDescriptor);
        }
        match self.descriptor(session, blob.id.as_str(), load) {
            None => {
                return Err(BlobStoreError::NotFound);
            },
            Some(stored) => {
                if !(same_text(stored.id.as_str(), blob.id.as_str()) && same_text(
                    stored.mime.as_str(),
                    blob.mime.as_str(),
                ) && stored.size == blob.size) {
                    return Err(BlobStoreError::NotFound);
                }
            },
        }
        let directory = self.dir(session);
        let content = join_path(directory.as_str(), blob.id.as_str());
        let first = remove_content(content.as_str());
        assert(told(remove_content, blob_path(self@.root, session@, blob@.id), first));
        match first {
            Ok(nothing) => {
                assert(nothing == ());
            },
            Err(failure) => {
                return Err(not_found(failure));
            },
        }
        let meta = join_path(directory.as_str(), join2(blob.id.as_str(), ".meta").as_str());
        let second = remove_meta(meta.as_str());
        assert(told(remove_meta, meta_path(self@.root, session@, blob@.id), second));
        match second {
            Ok(nothing) => {
                assert(nothing == ());
                Ok(())
            },
            Err(failure) => Err(not_found(failure)),
        }
    }
}

/// The content is removed first, then the descriptor; the first failure ends it.
pub open spec fn deleted<
    R: FnOnce(&str) -> Result<(), IoFailure>,
    M: FnOnce(&str) -> Result<(), IoFailure>,
>(
    remove_content: R,
    remove_meta: M,
    root: Seq<char>,
    session: Seq<char>,
    id: Seq<char>,
    r: Result<(), BlobStoreError>,
) -> bool {
    exists|first: Result<(), IoFailure>|
        {
            &&& #[trigger] told(remove_content, blob_path(root, session, id), first)
            &&& match first {
                Err(failure) => r == Err::<(), _>(blob_error(failure)),
                Ok(_) => exists|second: Result<(), IoFailure>|
                    {
                        &&& #[trigger] told(remove_meta, meta_path(root, session, id), second)
                        &&& r == match second {
                            Ok(_) => Ok(()),
                            Err(failure) => Err(blob_error(failure)),
                        }
                    },
            }
        }
}

/// A file in a session's directory: its name, whether it is a regular file (a
/// link is not), and the disk blocks of 512 bytes it takes.
#[derive(Debug)]
pub struct BlobFile {
    pub name: String,
    pub is_file: bool,
    pub blocks: u64,
}

/// A completed file: partial ones are covered by reservations.
pub open spec fn is_stable(file: BlobFile) -> bool {
    file.is_file && !crate::text::text_ends_with(file.name@, ".part"@)
}

/// The content of a blob, not its descriptor.
pub open spec fn is_content(file: BlobFile) -> bool {
    is_stable(file) && !crate::text::text_ends_with(file.name@, ".meta"@)
}

pub open spec fn stable_bytes(files: Seq<BlobFile>) -> nat {
    crate::lists::total(
        files,
        |file: BlobFile|
            if is_stable(file) {
                crate::file_transfers::capped((file.blocks * 512) as nat) as nat
            } else {
                0
            },
    )
}

pub open spec fn stable_objects(files: Seq<BlobFile>) -> nat {
    crate::lists::total(
        files,
        |file: BlobFile|
            if is_content(file) {
                1nat
            } else {
                0
            },
    )
}

/// What a session's completed blobs take up. Content and descriptor both take
/// disk space; only contents count as objects.
pub fn stable_usage(files: &Vec<BlobFile>) -> (r: Usage)
    ensures
        r.bytes == crate::file_transfers::capped(stable_bytes(files@)),
        r.objects == crate::file_transfers::capped(stable_objects(files@)),
{
    let mut usage = Usage { bytes: 0, objects: 0 };
    let mut i: usize = 0;
    assert(files@.take(0) =~= Seq::<BlobFile>::empty());
    while i < files.len()
        invariant
            i <= files@.len(),
            usage.bytes == crate::file_transfers::capped(stable_bytes(files@.take(i as int))),
            usage.objects == crate::file_transfers::capped(stable_objects(files@.take(i as int))),
        decreases files@.len() - i,
    {
        let file = &files[i];
        assert(files@.take(i as int + 1).drop_last() =~= files@.take(i as int));
        if file.is_file && !ends_with_text(file.name.as_str(), ".part") {
            let wide: u128 = file.blocks as u128 * 512;
            let size: u64 = if wide <= u64::MAX as u128 {
                wide as u64
            } else {
                u64::MAX
            };
            usage.bytes = usage.bytes.saturating_add(size);
            if !ends_with_text(file.name.as_str(), ".meta") {
                usage.objects = usage.objects.saturating_add(1);
            }
        }
        i += 1;
    }
    assert(files@.take(files@.len() as int) =~= files@);
    usage
}

/// Giving back what was just taken leaves what everyone holds as it was, whatever
/// that is; and the books themselves are the same but for an entry that holds
/// nothing, which goes.
pub proof fn law_release_undoes_reserve(
    limits: BlobLimits,
    stored: Usage,
    active: Map<(Seq<char>, u64), Reservation>,
    key: (Seq<char>, u64),
    bytes: u64,
    objects: u64,
)
    requires
        !exceeds(limits, stored, held(active, key), bytes, objects),
    ensures
        ({
            let after = released(reserved(active, key, bytes, objects), key, bytes, objects);
            &&& forall|other: (Seq<char>, u64)| #[trigger] held(after, other) == held(active, other)
            &&& after == if held(active, key) == nothing_held() {
                active.remove(key)
            } else {
                active
            }
        }),
{
    let after = released(reserved(active, key, bytes, objects), key, bytes, objects);
    if held(active, key) == nothing_held() {
        assert(after =~= active.remove(key));
    } else {
        assert(after =~= active);
    }
}

/// Giving back more than is held leaves nothing held, and whatever is given back,
/// nobody else holds more or less than before.
pub proof fn law_release_stops_at_nothing(
    active: Map<(Seq<char>, u64), Reservation>,
    key: (Seq<char>, u64),
    bytes: u64,
    objects: u64,
)
    ensures
        ({
            let after = released(active, key, bytes, objects);
            &&& held(after, key).bytes == less(held(active, key).bytes, bytes)
            &&& held(after, key).objects == less(held(active, key).objects, objects)
            &&& forall|other: (Seq<char>, u64)|
                other != key ==> #[trigger] held(after, other) == held(active, other)
        }),
{
}

/// A reservation that was granted keeps the session within its budget.
pub proof fn law_reservations_keep_the_budget(
    limits: BlobLimits,
    stored: Usage,
    active: Map<(Seq<char>, u64), Reservation>,
    key: (Seq<char>, u64),
    bytes: u64,
    objects: u64,
)
    requires
        !exceeds(limits, stored, held(active, key), bytes, objects),
    ensures
        ({
            let after = held(reserved(active, key, bytes, objects), key);
            &&& bytes > 0 ==> stored.bytes + after.bytes <= limits.max_session_bytes
            &&& stored.objects + after.objects <= limits.max_session_objects
            &&& after.bytes == held(active, key).bytes + bytes
            &&& after.objects == held(active, key).objects + objects
        }),
{
}

/// The books of two incarnations are separate: what the writers of one take or
/// give back changes nothing for the other.
pub proof fn law_incarnations_have_separate_books(
    active: Map<(Seq<char>, u64), Reservation>,
    session: Seq<char>,
    earlier: u64,
    current: u64,
    bytes: u64,
    objects: u64,
)
    requires
        earlier != current,
    ensures
        held(released(active, (session, earlier), bytes, objects), (session, current)) == held(
            active,
            (session, current),
        ),
        held(reserved(active, (session, earlier), bytes, objects), (session, current)) == held(
            active,
            (session, current),
        ),
{
}

/// Reusing a session's name voids the leases of the writers before it: until the
/// numbers run out, none of the numbers given out so far is live under the name.
pub proof fn law_name_reuse_voids_writers(blobs: Blobs, session: Seq<char>, epoch: u64)
    requires
        epoch <= blobs.next_epoch,
        blobs.next_epoch < u64::MAX,
    ensures
        !leased(opened(blobs, session), session, epoch),
        !leased(Blobs { live: blobs.live.remove(session), ..blobs }, session, epoch),
{
}

/// The incarnations were numbered in order so far.
pub open spec fn epochs_in_order(blobs: Blobs) -> bool {
    &&& blobs.next_epoch < u64::MAX
    &&& forall|session: Seq<char>| #[trigger]
        blobs.live.dom().contains(session) ==> blobs.live[session] <= blobs.next_epoch
}

/// The incarnations stay numbered in order while numbers last, and a live one has a
/// number that was given out.
pub proof fn law_epochs_stay_in_order(blobs: Blobs, session: Seq<char>, epoch: u64)
    requires
        epochs_in_order(blobs),
    ensures
        leased(blobs, session, epoch) ==> epoch <= blobs.next_epoch,
        blobs.next_epoch + 1 < u64::MAX ==> epochs_in_order(opened(blobs, session)),
        opened(blobs, session).next_epoch > blobs.next_epoch,
        epochs_in_order(Blobs { live: blobs.live.remove(session), ..blobs }),
{
}

/// A revoked writer is done for good: it holds nothing, gives nothing back a
/// second time, and stays revoked.
pub proof fn law_revocation_is_final(blobs: Blobs, writer: Writer)
    ensures
        revoked(revoked(writer)) == revoked(writer),
        given_back(blobs, revoked(writer)) == blobs,
{
}

/// Every piece that was written counts, and nothing else does: the blob grows by the
/// length of each, whatever else is the writer's stays, and a refused piece adds
/// nothing.
pub proof fn law_blob_grows_by_what_is_written<W: FnOnce(&[u8]) -> Result<(), String>>(
    blobs: Blobs,
    writer: Writer,
    chunk: &[u8],
    stored: Result<Usage, String>,
    write: W,
    r: Result<(), BlobStoreError>,
    after: Blobs,
    next: Writer,
)
    requires
        chunk_taken(blobs, writer, chunk, stored, write, r, after, next),
    ensures
        r is Ok ==> next.reserved == writer.reserved + chunk@.len(),
        r is Err ==> next == writer || next == revoked(writer),
        next.session == writer.session,
        next.mime == writer.mime,
        next.id == writer.id,
        next.epoch == writer.epoch,
{
}

/// A finished blob is described by the type it was begun with and the size that was
/// written, and what was published of it is found under its id. Nothing is published of
/// an empty blob or one whose session has ended or begun anew.
pub proof fn law_finished_blob_is_as_it_was_written<
    S: FnOnce() -> Result<(), String>,
    V: FnOnce(&BlobDescriptor) -> bool,
    P: FnOnce(&Publication) -> Result<(), String>,
>(
    blobs: Blobs,
    writer: Writer,
    sync: S,
    validate: V,
    publish: P,
    r: Result<BlobDescriptor, BlobStoreError>,
)
    requires
        finished(blobs, writer, sync, validate, publish, r),
    ensures
        match r {
            Ok(descriptor) => {
                &&& descriptor@.id == writer.id
                &&& descriptor@.mime == writer.mime
                &&& descriptor@.size == writer.reserved
                &&& crate::registry::valid_name(writer.session) && crate::protocol::valid_id(
                    writer.id,
                ) ==> stored_descriptor(writer.session, writer.id, Some((descriptor, true)))
                    == Some(descriptor@)
                &&& published(publish, blobs.root, writer, Ok(()))
            },
            Err(_) => true,
        },
        writer.reserved == 0 || writer.revoked || !leased(blobs, writer.session, writer.epoch)
            ==> r is Err,
{
}

/// A blob is read where it was published: the content and the descriptor lie under
/// the id that the descriptor gives, in the directory of the writer's session.
pub proof fn law_read_where_it_was_published(
    publication: Publication,
    root: Seq<char>,
    writer: Writer,
)
    requires
        publication_of(publication, root, writer),
    ensures
        publication.final_path@ == blob_path(root, writer.session, publication.descriptor@.id),
        publication.metadata_path@ == meta_path(
            root,
            writer.session,
            publication.descriptor@.id,
        ),
        publication.descriptor@.size == writer.reserved,
{
}

/// Whatever a client asks for, every path that is handed out is the store's own: made
/// from the root, the name of a session and an id.
pub proof fn law_every_path_is_the_stores_own(
    blobs: Blobs,
    session: Seq<char>,
    id: Seq<char>,
    writer: Writer,
    publication: Publication,
)
    requires
        blobs_ok(blobs),
        blobs.root.len() > 0,
        blobs.root.last() != '/',
    ensures
        crate::registry::valid_name(session) ==> session_dir(blobs.root, session) == blobs.root
            + "/"@ + session,
        crate::registry::valid_name(session) && crate::protocol::valid_id(id) ==> {
            &&& blob_path(blobs.root, session, id) == blobs.root + "/"@ + session + "/"@ + id
            &&& meta_path(blobs.root, session, id) == blobs.root + "/"@ + session + "/"@ + id
                + ".meta"@
            &&& part_path(blobs.root, session, id) == blobs.root + "/"@ + session + "/"@ + id
                + ".part"@
        },
        leased(blobs, writer.session, writer.epoch) ==> crate::registry::valid_name(writer.session),
        publication_of(publication, blobs.root, writer) && leased(
            blobs,
            writer.session,
            writer.epoch,
        ) && crate::protocol::valid_id(writer.id) ==> {
            &&& publication.final_path@ == blobs.root + "/"@ + writer.session + "/"@ + writer.id
            &&& publication.metadata_path@ == blobs.root + "/"@ + writer.session + "/"@
                + writer.id + ".meta"@
            &&& publication.metadata_part@ == blobs.root + "/"@ + writer.session + "/"@
                + writer.id + ".meta.part"@
        },
{
    if crate::registry::valid_name(session) {
        lemma_own_paths(blobs.root, session, id);
    }
    if crate::registry::valid_name(writer.session) {
        lemma_own_paths(blobs.root, writer.session, writer.id);
    }
}

proof fn lemma_own_paths(root: Seq<char>, session: Seq<char>, id: Seq<char>)
    requires
        root.len() > 0,
        root.last() != '/',
        crate::registry::valid_name(session),
    ensures
        session_dir(root, session) == root + "/"@ + session,
        crate::protocol::valid_id(id) ==> {
            let dir = root + "/"@ + session;
            &&& blob_path(root, session, id) == dir + "/"@ + id
            &&& meta_path(root, session, id) == dir + "/"@ + id + ".meta"@
            &&& part_path(root, session, id) == dir + "/"@ + id + ".part"@
            &&& crate::paths::joined(session_dir(root, session), id + ".meta.part"@) == dir + "/"@
                + id + ".meta.part"@
        },
{
    reveal_strlit("/");
    reveal_strlit(".meta");
    reveal_strlit(".part");
    reveal_strlit(".meta.part");
    let dir = root + "/"@ + session;
    assert(crate::registry::is_name_start(session[0]));
    assert(dir.last() == session.last());
    assert(crate::registry::is_name_char(session[session.len() - 1]));
    if crate::protocol::valid_id(id) {
        assert(crate::text::is_hex_digit(id[0]));
        assert((id + ".meta"@)[0] == id[0]);
        assert((id + ".part"@)[0] == id[0]);
        assert((id + ".meta.part"@)[0] == id[0]);
        assert(dir + "/"@ + (id + ".meta"@) =~= dir + "/"@ + id + ".meta"@);
        assert(dir + "/"@ + (id + ".part"@) =~= dir + "/"@ + id + ".part"@);
        assert(dir + "/"@ + (id + ".meta.part"@) =~= dir + "/"@ + id + ".meta.part"@);
    }
}


/// The budget of a session can be used up to the last byte and the last object, and
/// not beyond.
pub proof fn law_budget_can_be_used_up(
    limits: BlobLimits,
    stored: Usage,
    holds: Reservation,
    bytes: u64,
    objects: u64,
)
    ensures
        stored.bytes + holds.bytes + bytes <= limits.max_session_bytes && stored.objects
            + holds.objects + objects <= limits.max_session_objects ==> !exceeds(
            limits,
            stored,
            holds,
            bytes,
            objects,
        ),
        bytes > 0 && stored.bytes + holds.bytes + bytes > limits.max_session_bytes ==> exceeds(
            limits,
            stored,
            holds,
            bytes,
            objects,
        ),
        stored.objects + holds.objects + objects > limits.max_session_objects ==> exceeds(
            limits,
            stored,
            holds,
            bytes,
            objects,
        ),
        bytes == 0 && stored.objects + holds.objects + objects <= limits.max_session_objects
            ==> !exceeds(limits, stored, holds, bytes, objects),
{
}

/// A piece is refused exactly for what stands against it: a session that is no
/// longer the writer's, a blob that would grow too large, what is stored not being
/// known, or a budget that would be exceeded. Otherwise writing it decides.
pub proof fn law_piece_is_refused_for_a_reason<W: FnOnce(&[u8]) -> Result<(), String>>(
    blobs: Blobs,
    writer: Writer,
    chunk: &[u8],
    stored: Result<Usage, String>,
    write: W,
    r: Result<(), BlobStoreError>,
    after: Blobs,
    next: Writer,
)
    requires
        chunk_taken(blobs, writer, chunk, stored, write, r, after, next),
        writer.open,
    ensures
        ({
            let live = blobs.live.dom().contains(writer.session) && blobs.live[writer.session]
                == writer.epoch;
            let fits = writer.reserved + chunk@.len() <= blobs.limits.max_blob_bytes;
            let room = stored is Ok && !(chunk@.len() > 0 && stored->Ok_0.bytes + held(
                blobs.active,
                (writer.session, writer.epoch),
            ).bytes + (chunk@.len() as u64) > blobs.limits.max_session_bytes) && stored->Ok_0.objects
                + held(blobs.active, (writer.session, writer.epoch)).objects
                <= blobs.limits.max_session_objects;
            &&& r == Err::<(), _>(BlobStoreError::SessionNotLive) <==> !live
            &&& r == Err::<(), _>(BlobStoreError::BlobTooLarge) <==> live && !fits
            &&& r == Err::<(), _>(BlobStoreError::SessionBudgetExceeded) <==> live && fits
                && stored is Ok && !room && chunk@.len() <= u64::MAX
            &&& r is Ok ==> live && fits && room && call_ensures(write, (chunk,), Ok::<(), String>(()))
            &&& live && r is Err ==> next == writer
            &&& !live ==> next.revoked && !next.open && next.reserved == 0
        }),
{
}

/// A piece that was written is held against the session's budget; one that was not
/// costs nothing. What others hold never changes.
pub proof fn law_only_written_pieces_are_held<W: FnOnce(&[u8]) -> Result<(), String>>(
    blobs: Blobs,
    writer: Writer,
    chunk: &[u8],
    stored: Result<Usage, String>,
    write: W,
    r: Result<(), BlobStoreError>,
    after: Blobs,
    next: Writer,
    other: (Seq<char>, u64),
)
    requires
        chunk_taken(blobs, writer, chunk, stored, write, r, after, next),
        chunk@.len() <= u64::MAX,
    ensures
        r is Ok ==> held(after.active, (writer.session, writer.epoch)).bytes == held(
            blobs.active,
            (writer.session, writer.epoch),
        ).bytes + chunk@.len(),
        r is Ok ==> held(after.active, (writer.session, writer.epoch)).objects == held(
            blobs.active,
            (writer.session, writer.epoch),
        ).objects,
        r is Err && r->Err_0 != BlobStoreError::SessionNotLive ==> held(after.active, other)
            == held(blobs.active, other),
        other != (writer.session, writer.epoch) ==> held(after.active, other) == held(
            blobs.active,
            other,
        ),
        after.live == blobs.live,
        after.root == blobs.root,
        after.limits == blobs.limits,
{
    let key = (writer.session, writer.epoch);
    if leased(blobs, writer.session, writer.epoch) && stored is Ok && !exceeds(
        blobs.limits,
        stored->Ok_0,
        held(blobs.active, key),
        chunk@.len() as u64,
        0,
    ) {
        law_release_undoes_reserve(
            blobs.limits,
            stored->Ok_0,
            blobs.active,
            key,
            chunk@.len() as u64,
            0,
        );
        law_reservations_keep_the_budget(
            blobs.limits,
            stored->Ok_0,
            blobs.active,
            key,
            chunk@.len() as u64,
            0,
        );
    }
    law_release_stops_at_nothing(
        blobs.active,
        key,
        writer.reserved,
        writer.reserved_objects,
    );
}

/// A writer writes for the session and the type that were asked for, in its present
/// incarnation, to the partial file of an id that spells its random bytes. It holds
/// one object and nothing else yet; where there is no writer, nothing is held for it.
pub proof fn law_writer_is_the_one_asked_for<
    P: FnOnce(&str) -> Result<Usage, String>,
    C: FnOnce(&str) -> Result<(), String>,
>(
    blobs: Blobs,
    session: Seq<char>,
    mime: Seq<char>,
    id_bytes: Seq<u8>,
    prepare: P,
    create: C,
    r: Result<BlobWriter, BlobStoreError>,
    after: Blobs,
    other: (Seq<char>, u64),
)
    requires
        write_begun(blobs, session, mime, id_bytes, prepare, create, r, after),
    ensures
        r is Ok ==> {
            let writer = r->Ok_0@;
            &&& writer.session == session
            &&& writer.mime == mime
            &&& writer.id == crate::text::hex_text(id_bytes)
            &&& writer.part_path == part_path(blobs.root, session, writer.id)
            &&& asked(create, writer.part_path, Ok::<(), String>(()))
            &&& leased(after, writer.session, writer.epoch)
            &&& writer.open && !writer.revoked && writer.reserved == 0
            &&& mime == "image/png"@ || mime == "image/jpeg"@ || mime == "image/webp"@
            &&& held(after.active, (session, writer.epoch)).objects == held(
                blobs.active,
                (session, writer.epoch),
            ).objects + 1
            &&& held(after.active, (session, writer.epoch)).bytes == held(
                blobs.active,
                (session, writer.epoch),
            ).bytes
            &&& other != (session, writer.epoch) ==> held(after.active, other) == held(
                blobs.active,
                other,
            )
        },
        r is Err ==> held(after.active, other) == held(blobs.active, other),
        after.live == blobs.live,
        after.next_epoch == blobs.next_epoch,
        r == Err::<BlobWriter, _>(BlobStoreError::SessionNotLive) ==> !blobs.live.dom().contains(
            session,
        ),
        r == Err::<BlobWriter, _>(BlobStoreError::UnsupportedMime) ==> mime != "image/png"@ && mime
            != "image/jpeg"@ && mime != "image/webp"@,
{
    if unwritable(blobs, session, mime) is None {
        let key = (session, blobs.live[session]);
        let stored = choose|stored: Result<Usage, String>|
            {
                &&& #[trigger] asked(prepare, session_dir(blobs.root, session), stored)
                &&& match stored {
                    Err(reason) => r == Err::<BlobWriter, _>(BlobStoreError::Io(reason)) && after
                        == blobs,
                    Ok(stored) => if exceeds(blobs.limits, stored, held(blobs.active, key), 0, 1) {
                        &&& r == Err::<BlobWriter, _>(BlobStoreError::SessionBudgetExceeded)
                        &&& after == blobs
                    } else {
                        let taken = reserved(blobs.active, key, 0, 1);
                        match r {
                            Ok(writer) => after == (Blobs { active: taken, ..blobs }),
                            Err(_) => after == (Blobs {
                                active: released(taken, key, 0, 1),
                                ..blobs
                            }),
                        }
                    },
                }
            };
        if stored is Ok && !exceeds(blobs.limits, stored->Ok_0, held(blobs.active, key), 0, 1) {
            law_release_undoes_reserve(blobs.limits, stored->Ok_0, blobs.active, key, 0, 1);
            law_reservations_keep_the_budget(blobs.limits, stored->Ok_0, blobs.active, key, 0, 1);
        }
    }
}

/// A session that was started is live in an incarnation of its own, after the files
/// under its own directory were removed; one that was ended is not live. No other
/// session notices either.
pub proof fn law_activation_is_for_one_session<R: FnOnce(&str) -> Result<(), IoFailure>>(
    blobs: Blobs,
    session: Seq<char>,
    remove_tree: R,
    r: Result<(), BlobStoreError>,
    after: Blobs,
    other: Seq<char>,
)
    ensures
        activation(blobs, session, remove_tree, r, after) && r is Ok ==> {
            &&& after.live.dom().contains(session)
            &&& blobs.next_epoch < u64::MAX ==> after.live[session] == blobs.next_epoch + 1
            &&& tree_removal(remove_tree, session_dir(blobs.root, session), Ok(())) || tree_removal(
                remove_tree,
                session_dir(blobs.root, session),
                Err(IoFailure::NotFound),
            )
        },
        activation(blobs, session, remove_tree, r, after) && r is Err ==> after == blobs,
        deactivation(blobs, session, remove_tree, r, after) && crate::registry::valid_name(session)
            ==> !after.live.dom().contains(session),
        (activation(blobs, session, remove_tree, r, after) || deactivation(
            blobs,
            session,
            remove_tree,
            r,
            after,
        )) && other != session ==> after.live.dom().contains(other)
            == blobs.live.dom().contains(other) && (blobs.live.dom().contains(other)
            ==> after.live[other] == blobs.live[other]),
        activation(blobs, session, remove_tree, r, after) || deactivation(
            blobs,
            session,
            remove_tree,
            r,
            after,
        ) ==> after.active == blobs.active && after.root == blobs.root && after.limits
            == blobs.limits,
{
    if activation(blobs, session, remove_tree, r, after) && r is Ok {
        let outcome = choose|outcome: Result<(), IoFailure>|
            {
                &&& #[trigger] tree_removal(
                    remove_tree,
                    session_dir(blobs.root, session),
                    outcome,
                )
                &&& if is_gone(outcome) {
                    r is Ok && after == opened(blobs, session)
                } else {
                    &&& r == Err::<(), _>(BlobStoreError::Io(outcome->Err_0->Other_0))
                    &&& after == blobs
                }
            };
        if outcome is Ok {
            assert(outcome->Ok_0 == ());
            assert(outcome == Ok::<(), IoFailure>(()));
        }
    }
}

/// The content of a blob is read from a regular file of exactly the blob's size,
/// under its id in its session; anything else in its place is no blob.
pub proof fn law_content_is_the_blobs_own<
    F: FnOnce(&str) -> Result<FileFacts, IoFailure>,
    G: FnOnce(&str) -> Result<Vec<u8>, IoFailure>,
>(
    root: Seq<char>,
    session: Seq<char>,
    blob: crate::protocol::Blob,
    valid: bool,
    stat: F,
    load: G,
    r: Result<Vec<u8>, BlobStoreError>,
    path: Result<String, BlobStoreError>,
)
    ensures
        content_read(root, session, blob, valid, stat, load, r) && r is Ok ==> {
            &&& valid
            &&& told(load, blob_path(root, session, blob.id), Ok::<Vec<u8>, IoFailure>(r->Ok_0))
            &&& is_whole(stat, blob_path(root, session, blob.id), blob.size)
        },
        file_located(root, session, blob, valid, stat, path) && path is Ok ==> {
            &&& valid
            &&& path->Ok_0@ == blob_path(root, session, blob.id)
            &&& is_whole(stat, blob_path(root, session, blob.id), blob.size)
        },
{
    let place = blob_path(root, session, blob.id);
    if content_read(root, session, blob, valid, stat, load, r) && r is Ok {
        let facts = choose|facts: Result<FileFacts, IoFailure>|
            {
                &&& #[trigger] told(stat, place, facts)
                &&& facts is Ok && facts->Ok_0.is_file && facts->Ok_0.len == blob.size
            };
        assert(told(stat, place, Ok::<FileFacts, IoFailure>(facts->Ok_0)));
    }
    if file_located(root, session, blob, valid, stat, path) && path is Ok {
        let facts = choose|facts: Result<FileFacts, IoFailure>|
            {
                &&& #[trigger] told(stat, place, facts)
                &&& facts is Ok && facts->Ok_0.is_file && facts->Ok_0.len == blob.size
            };
        assert(told(stat, place, Ok::<FileFacts, IoFailure>(facts->Ok_0)));
    }
}

/// A regular file of exactly that size was seen at the path.
pub open spec fn is_whole<F: FnOnce(&str) -> Result<FileFacts, IoFailure>>(
    stat: F,
    path: Seq<char>,
    size: u64,
) -> bool {
    exists|facts: FileFacts| #[trigger]
        told(stat, path, Ok::<FileFacts, IoFailure>(facts)) && facts.is_file && facts.len == size
}

/// The descriptor that is found is one that was stored under the id that was asked
/// for, and it was found sound.
pub proof fn law_descriptor_is_the_stored_one<L: FnOnce(&str) -> Option<(BlobDescriptor, bool)>>(
    root: Seq<char>,
    session: Seq<char>,
    id: Seq<char>,
    load: L,
    r: Option<BlobDescriptor>,
)
    requires
        descriptor_found(root, session, id, load, r),
        r is Some,
    ensures
        r->0.id@ == id,
        crate::registry::valid_name(session),
        id.len() == 32,
        exists|stored: BlobDescriptor|
            stored@ == r->0@ && #[trigger] loaded_from(
                load,
                meta_path(root, session, id),
                Some((stored, true)),
            ),
{
    let loaded = choose|loaded: Option<(BlobDescriptor, bool)>|
        {
            &&& #[trigger] loaded_from(load, meta_path(root, session, id), loaded)
            &&& stored_descriptor(session, id, loaded) is Some
            &&& r->0@ == stored_descriptor(session, id, loaded)->0
        };
    let stored = (loaded->0).0;
    assert(loaded == Some((stored, true)));
}

/// A blob is removed only where what is stored under its id is that blob, with the
/// same type and the same size; its content goes before its descriptor.
pub proof fn law_only_the_blob_itself_is_removed<
    L: FnOnce(&str) -> Option<(BlobDescriptor, bool)>,
    R: FnOnce(&str) -> Result<(), IoFailure>,
    M: FnOnce(&str) -> Result<(), IoFailure>,
>(
    root: Seq<char>,
    session: Seq<char>,
    blob: crate::protocol::Blob,
    valid: bool,
    load: L,
    remove_content: R,
    remove_meta: M,
    r: Result<(), BlobStoreError>,
)
    requires
        blob_removed(root, session, blob, valid, load, remove_content, remove_meta, r),
    ensures
        r is Ok ==> {
            &&& valid
            &&& told(remove_content, blob_path(root, session, blob.id), Ok::<(), IoFailure>(()))
            &&& told(remove_meta, meta_path(root, session, blob.id), Ok::<(), IoFailure>(()))
            &&& holds_blob(load, meta_path(root, session, blob.id), blob)
        },
        (forall|stored: BlobDescriptor, sound: bool| #[trigger]
            loaded_from(load, meta_path(root, session, blob.id), Some((stored, sound)))
                ==> stored.size != blob.size || stored.mime@ != blob.mime || stored.id@ != blob.id
                || !sound) ==> r is Err && !(r->Err_0 is Io),
{
    let place = meta_path(root, session, blob.id);
    if unreadable(session, valid) is None && crate::protocol::valid_id(blob.id) {
        let loaded = choose|loaded: Option<(BlobDescriptor, bool)>|
            {
                &&& #[trigger] loaded_from(load, place, loaded)
                &&& if stored_descriptor(session, blob.id, loaded) != Some(blob) {
                    r == Err::<(), _>(BlobStoreError::NotFound)
                } else {
                    deleted(remove_content, remove_meta, root, session, blob.id, r)
                }
            };
        if stored_descriptor(session, blob.id, loaded) == Some(blob) {
            let stored = (loaded->0).0;
            assert(loaded == Some((stored, true)));
            assert(stored@ == blob);
            assert(loaded_from(load, place, Some((stored, true))));
            let first = choose|first: Result<(), IoFailure>|
                {
                    &&& #[trigger] told(remove_content, blob_path(root, session, blob.id), first)
                    &&& match first {
                        Err(failure) => r == Err::<(), _>(blob_error(failure)),
                        Ok(_) => exists|second: Result<(), IoFailure>|
                            {
                                &&& #[trigger] told(remove_meta, place, second)
                                &&& r == match second {
                                    Ok(_) => Ok(()),
                                    Err(failure) => Err(blob_error(failure)),
                                }
                            },
                    }
                };
            if r is Ok {
                assert(first->Ok_0 == ());
                assert(first == Ok::<(), IoFailure>(()));
                let second = choose|second: Result<(), IoFailure>|
                    {
                        &&& #[trigger] told(remove_meta, place, second)
                        &&& r == match second {
                            Ok(_) => Ok(()),
                            Err(failure) => Err(blob_error(failure)),
                        }
                    };
                assert(second->Ok_0 == ());
                assert(second == Ok::<(), IoFailure>(()));
            }
        }
    }
}

/// A sound descriptor of exactly that blob was stored there.
pub open spec fn holds_blob<L: FnOnce(&str) -> Option<(BlobDescriptor, bool)>>(
    load: L,
    path: Seq<char>,
    blob: crate::protocol::Blob,
) -> bool {
    exists|stored: BlobDescriptor| #[trigger]
        loaded_from(load, path, Some((stored, true))) && stored.id@ == blob.id && stored.mime@
            == blob.mime && stored.size == blob.size
}

/// A completed file takes up its blocks of 512 bytes, and one that is no descriptor
/// counts as an object. A partial file, or what is no regular file, counts for
/// nothing.
pub proof fn law_completed_files_take_up_their_blocks(files: Seq<BlobFile>, file: BlobFile)
    requires
        file.blocks * 512 <= u64::MAX,
    ensures
        stable_bytes(Seq::empty()) == 0,
        stable_objects(Seq::empty()) == 0,
        ({
            let name = file.name@;
            let partial = name.len() >= 5 && name.skip(name.len() - 5) == seq!['.', 'p', 'a', 'r', 't'];
            let about = name.len() >= 5 && name.skip(name.len() - 5) == seq!['.', 'm', 'e', 't', 'a'];
            &&& stable_bytes(files.push(file)) == stable_bytes(files) + if file.is_file && !partial {
                file.blocks * 512
            } else {
                0
            }
            &&& stable_objects(files.push(file)) == stable_objects(files) + if file.is_file
                && !partial && !about {
                1int
            } else {
                0
            }
        }),
{
    reveal_strlit(".part");
    reveal_strlit(".meta");
    assert(".part"@ =~= seq!['.', 'p', 'a', 'r', 't']);
    assert(".meta"@ =~= seq!['.', 'm', 'e', 't', 'a']);
    assert(files.push(file).drop_last() =~= files);
}


/// A writer that is given up gives back all that it holds, bytes and objects, and
/// nothing of what others hold.
pub proof fn law_given_up_writer_gives_everything_back(
    blobs: Blobs,
    writer: Writer,
    other: (Seq<char>, u64),
)
    requires
        writer.open,
        writer.reserved <= held(blobs.active, (writer.session, writer.epoch)).bytes,
        writer.reserved_objects <= held(blobs.active, (writer.session, writer.epoch)).objects,
    ensures
        held(given_back(blobs, writer).active, (writer.session, writer.epoch)).bytes
            == held(blobs.active, (writer.session, writer.epoch)).bytes - writer.reserved,
        held(given_back(blobs, writer).active, (writer.session, writer.epoch)).objects
            == held(blobs.active, (writer.session, writer.epoch)).objects
            - writer.reserved_objects,
        other != (writer.session, writer.epoch) ==> held(given_back(blobs, writer).active, other)
            == held(blobs.active, other),
        given_back(blobs, writer).live == blobs.live,
{
    law_release_stops_at_nothing(
        blobs.active,
        (writer.session, writer.epoch),
        writer.reserved,
        writer.reserved_objects,
    );
}

/// Beginning to write a blob and giving it up leaves what everyone holds as it was.
pub proof fn law_giving_up_undoes_beginning<
    P: FnOnce(&str) -> Result<Usage, String>,
    C: FnOnce(&str) -> Result<(), String>,
>(
    blobs: Blobs,
    session: Seq<char>,
    mime: Seq<char>,
    id_bytes: Seq<u8>,
    prepare: P,
    create: C,
    writer: BlobWriter,
    between: Blobs,
    other: (Seq<char>, u64),
)
    requires
        write_begun(blobs, session, mime, id_bytes, prepare, create, Ok(writer), between),
    ensures
        held(given_back(between, writer@).active, other) == held(blobs.active, other),
        given_back(between, writer@).live == blobs.live,
{
    law_writer_is_the_one_asked_for(
        blobs,
        session,
        mime,
        id_bytes,
        prepare,
        create,
        Ok(writer),
        between,
        other,
    );
    law_given_up_writer_gives_everything_back(between, writer@, other);
}


/// What is said of a failed file operation ends with the reason that the system gave.
pub proof fn law_blob_reason_is_passed_on(reason: String)
    ensures
        crate::text::text_ends_with(BlobStoreError::Io(reason).message_text(), reason@),
{
    let text = BlobStoreError::Io(reason).message_text();
    assert(text.skip(text.len() - reason@.len()) =~= reason@);
}

} // verus!
