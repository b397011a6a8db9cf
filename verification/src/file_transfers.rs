//! File delivery from a client into a session. A client names a file and its
//! size first, uploads exactly that, and the file is then moved where the guest
//! can see it. The client never chooses a path: it gets an id, and every path is
//! made from the session's name and that id.

use vstd::prelude::*;
use vstd::string::StringExecFns;

use crate::paths::join_path;
use crate::protocol::{is_blob_id, MAX_BLOB_BYTES};
use crate::registry::validate_session_name;
use crate::sorted_map::SortedMap;
use crate::text::{chars_of, hex_of, join2, same_text};

verus! {

broadcast use vstd::string::group_string_axioms;

pub const MAX_FILE_BYTES: u64 = MAX_BLOB_BYTES;

pub const MAX_SESSION_FILE_BYTES: u64 = 268_435_456;

pub const MAX_SESSION_FILE_OBJECTS: u64 = 64;

/// Transfers that ended without a delivery stay queryable for a while; more
/// than this many of a session are not kept.
pub const MAX_TERMINAL_TRANSFERS_PER_SESSION: usize = 64;

/// How long a transfer waits for its upload: a quarter of an hour.
pub const TRANSFER_EXPIRY_NS: u128 = 900_000_000_000;

#[derive(Debug)]
pub struct FilePreflight {
    pub name: String,
    pub mime: String,
    pub size: u64,
}

#[derive(Clone, Copy, Debug, PartialEq, Eq, Structural)]
pub enum FileTransferState {
    AwaitingUpload,
    Queued,
    Materializing,
    Delivered,
    Failed,
    Cancelled,
}

#[derive(Debug, PartialEq, Eq)]
pub struct FileTransferStatus {
    pub transfer_id: String,
    pub name: String,
    pub mime: String,
    pub size: u64,
    pub bytes_received: u64,
    pub state: FileTransferState,
    pub expires_at: Option<u64>,
}

#[derive(Debug)]
pub struct FilePreflightResponse {
    pub transfer_id: String,
    pub upload_url: String,
    pub expires_at: u64,
}

#[derive(Debug, PartialEq, Eq)]
pub enum FileTransferError {
    InvalidSession,
    InvalidName,
    InvalidMime,
    FileTooLarge,
    SessionBudgetExceeded,
    NotFound,
    SessionNotLive,
    UploadInProgress,
    InvalidState,
    NotCancellable,
    Cancelled,
    SizeMismatch,
    Io(String),
}

impl FileTransferError {
    /// The message that goes with the error.
    pub open spec fn message_text(&self) -> Seq<char> {
        match self {
            FileTransferError::InvalidSession => "invalid session"@,
            FileTransferError::InvalidName => "invalid file name"@,
            FileTransferError::InvalidMime => "invalid MIME type"@,
            FileTransferError::FileTooLarge => "file exceeds the per-file limit"@,
            FileTransferError::SessionBudgetExceeded => "session file budget is exhausted"@,
            FileTransferError::NotFound => "transfer not found"@,
            FileTransferError::SessionNotLive => "session is not live"@,
            FileTransferError::UploadInProgress => "transfer is already being uploaded"@,
            FileTransferError::InvalidState => "transfer is not awaiting an upload"@,
            FileTransferError::NotCancellable => "transfer cannot be cancelled"@,
            FileTransferError::Cancelled => "transfer was cancelled"@,
            FileTransferError::SizeMismatch => "upload length does not match its preflight"@,
            FileTransferError::Io(reason) => "file transfer I/O failed: "@ + reason@,
        }
    }

    pub fn message(&self) -> (r: String)
        ensures
            r@ == self.message_text(),
    {
        match self {
            FileTransferError::InvalidSession => "invalid session".to_owned(),
            FileTransferError::InvalidName => "invalid file name".to_owned(),
            FileTransferError::InvalidMime => "invalid MIME type".to_owned(),
            FileTransferError::FileTooLarge => "file exceeds the per-file limit".to_owned(),
            FileTransferError::SessionBudgetExceeded => "session file budget is exhausted".to_owned(),
            FileTransferError::NotFound => "transfer not found".to_owned(),
            FileTransferError::SessionNotLive => "session is not live".to_owned(),
            FileTransferError::UploadInProgress => "transfer is already being uploaded".to_owned(),
            FileTransferError::InvalidState => "transfer is not awaiting an upload".to_owned(),
            FileTransferError::NotCancellable => "transfer cannot be cancelled".to_owned(),
            FileTransferError::Cancelled => "transfer was cancelled".to_owned(),
            FileTransferError::SizeMismatch => "upload length does not match its preflight".to_owned(),
            FileTransferError::Io(reason) => join2("file transfer I/O failed: ", reason.as_str()),
        }
    }
}

/// Proof that a request saw one particular live incarnation of a session.
#[derive(Debug)]
pub struct FileSessionLease {
    session: String,
    epoch: u64,
}

impl FileSessionLease {
    pub closed spec fn spec_session(&self) -> Seq<char> {
        self.session@
    }

    pub closed spec fn spec_epoch(&self) -> u64 {
        self.epoch
    }
}

/// What a session's files take up.
#[derive(Clone, Copy, Debug, PartialEq, Eq, Structural)]
pub struct Usage {
    pub bytes: u64,
    pub objects: u64,
}

/// The limits that a store keeps.
#[derive(Clone, Copy, Debug, PartialEq, Eq, Structural)]
pub struct FileLimits {
    pub max_file_bytes: u64,
    pub max_session_bytes: u64,
    pub max_session_objects: u64,
    pub expiry_ns: u128,
}

/// One transfer. Times are nanoseconds since the Unix epoch.
#[derive(Debug)]
pub struct Transfer {
    pub session: String,
    pub id: String,
    pub name: String,
    pub mime: String,
    pub size: u64,
    pub bytes_received: u64,
    pub state: FileTransferState,
    pub expires_at_ns: u128,
    pub uploading: bool,
    pub terminal_at_ns: Option<u128>,
    pub epoch: u64,
}

/// The state of a store.
#[verifier::ext_equal]
pub struct Files {
    pub root: Seq<char>,
    /// In the order in which they were asked for.
    pub transfers: Seq<Transfer>,
    /// The live sessions, each with the number of its incarnation.
    pub live: Map<Seq<char>, u64>,
    pub next_epoch: u64,
    pub limits: FileLimits,
}

/// A control character: the general category Cc.
pub open spec fn is_control(c: char) -> bool {
    c <= '\u{1f}' || '\u{7f}' <= c <= '\u{9f}'
}

/// A name that a file can have inside a directory: not empty, at most 255 bytes,
/// not `.` or `..`, without separators and control characters.
pub open spec fn valid_file_name(name: Seq<char>) -> bool {
    &&& name.len() > 0
    &&& vstd::utf8::encode_utf8(name).len() <= 255
    &&& name != "."@
    &&& name != ".."@
    &&& forall|i: int|
        0 <= i < name.len() ==> (#[trigger] name[i]) != '/' && name[i] != '\\' && !is_control(name[i])
}

fn validate(session: &str) -> (r: Result<(), FileTransferError>)
    ensures
        r == (if crate::registry::valid_name(session@) {
            Ok(())
        } else {
            Err(FileTransferError::InvalidSession)
        }),
{
    match validate_session_name(session) {
        Ok(()) => Ok(()),
        Err(_) => Err(FileTransferError::InvalidSession),
    }
}

fn validate_name(name: &str) -> (r: Result<(), FileTransferError>)
    ensures
        r == (if valid_file_name(name@) {
            Ok(())
        } else {
            Err(FileTransferError::InvalidName)
        }),
{
    let bytes = name.as_bytes();
    if bytes.len() > 255 || same_text(name, ".") || same_text(name, "..") {
        return Err(FileTransferError::InvalidName);
    }
    let chars = chars_of(name);
    if chars.len() == 0 {
        return Err(FileTransferError::InvalidName);
    }
    let mut i: usize = 0;
    while i < chars.len()
        invariant
            i <= chars.len(),
            chars@ == name@,
            forall|j: int|
                0 <= j < i ==> (#[trigger] name@[j]) != '/' && name@[j] != '\\' && !is_control(
                    name@[j],
                ),
        decreases chars.len() - i,
    {
        let c = chars[i];
        if c == '/' || c == '\\' || c <= '\u{1f}' || ('\u{7f}' <= c && c <= '\u{9f}') {
            assert(!valid_file_name(name@)) by {
                assert(name@[i as int] == c);
            }
            return Err(FileTransferError::InvalidName);
        }
        i += 1;
    }
    Ok(())
}

fn validate_id(id: &str) -> (r: Result<(), FileTransferError>)
    ensures
        r == (if crate::protocol::valid_id(id@) {
            Ok(())
        } else {
            Err(FileTransferError::NotFound)
        }),
{
    if is_blob_id(id) {
        Ok(())
    } else {
        Err(FileTransferError::NotFound)
    }
}

/// The number in milliseconds, as far as it fits.
pub open spec fn millis(ns: u128) -> u64 {
    if ns / 1_000_000 <= u64::MAX {
        (ns / 1_000_000) as u64
    } else {
        u64::MAX
    }
}

fn timestamp_ms(ns: u128) -> (r: u64)
    ensures
        r == millis(ns),
{
    let ms: u128 = ns / 1_000_000;
    if ms <= u64::MAX as u128 {
        ms as u64
    } else {
        u64::MAX
    }
}

/// The directory that the guest sees.
pub open spec fn drop_path(root: Seq<char>, session: Seq<char>) -> Seq<char> {
    crate::paths::joined(root, session)
}

/// Where uploads of the session are written.
pub open spec fn staging_dir_path(root: Seq<char>, session: Seq<char>) -> Seq<char> {
    crate::paths::joined(crate::paths::joined(root, ".staging"@), session)
}

/// Where one upload is written.
pub open spec fn staged_path(root: Seq<char>, session: Seq<char>, id: Seq<char>) -> Seq<char> {
    crate::paths::joined(staging_dir_path(root, session), id + ".part"@)
}

/// A transfer that nobody began to upload in time.
pub open spec fn expired(t: Transfer, now_ns: u128) -> bool {
    t.state == FileTransferState::AwaitingUpload && !t.uploading && t.expires_at_ns <= now_ns
}

pub open spec fn unexpired(transfers: Seq<Transfer>, now_ns: u128) -> Seq<Transfer> {
    crate::lists::retained(transfers, |t: Transfer| !expired(t, now_ns))
}

pub open spec fn not_of(transfers: Seq<Transfer>, session: Seq<char>) -> Seq<Transfer> {
    crate::lists::retained(transfers, |t: Transfer| t.session@ != session)
}

/// The transfer still has a claim on the session's budget: it has not ended, and
/// there is no delivered file that would be counted instead.
pub open spec fn reserves(t: Transfer, session: Seq<char>) -> bool {
    t.session@ == session && !(t.state == FileTransferState::Delivered || t.state
        == FileTransferState::Failed || t.state == FileTransferState::Cancelled)
}

pub open spec fn reserved_bytes(transfers: Seq<Transfer>, session: Seq<char>) -> nat {
    crate::lists::total(
        transfers,
        |t: Transfer|
            if reserves(t, session) {
                t.size as nat
            } else {
                0
            },
    )
}

pub open spec fn reserved_objects(transfers: Seq<Transfer>, session: Seq<char>) -> nat {
    crate::lists::total(
        transfers,
        |t: Transfer|
            if reserves(t, session) {
                1nat
            } else {
                0
            },
    )
}

/// A transfer of the session that ended without a delivery.
pub open spec fn is_terminal(t: Transfer, session: Seq<char>) -> bool {
    t.session@ == session && t.terminal_at_ns is Some
}

pub open spec fn terminal_count(transfers: Seq<Transfer>, session: Seq<char>) -> nat {
    crate::lists::total(
        transfers,
        |t: Transfer|
            if is_terminal(t, session) {
                1nat
            } else {
                0
            },
    )
}

/// Such a transfer, other than the one to keep.
pub open spec fn prunable(t: Transfer, session: Seq<char>, keep: Seq<char>) -> bool {
    is_terminal(t, session) && t.id@ != keep
}

/// Number `i` is the one that ended first (of those that ended together, the one
/// asked for first).
pub open spec fn is_oldest(
    transfers: Seq<Transfer>,
    session: Seq<char>,
    keep: Seq<char>,
    i: int,
) -> bool {
    &&& 0 <= i < transfers.len()
    &&& prunable(transfers[i], session, keep)
    &&& forall|j: int|
        0 <= j < transfers.len() && prunable(#[trigger] transfers[j], session, keep)
            ==> transfers[i].terminal_at_ns->0 < transfers[j].terminal_at_ns->0 || (
        transfers[i].terminal_at_ns->0 == transfers[j].terminal_at_ns->0 && i <= j)
}

/// The transfers without the `n` that ended first.
pub open spec fn without_oldest(
    transfers: Seq<Transfer>,
    session: Seq<char>,
    keep: Seq<char>,
    n: nat,
) -> Seq<Transfer>
    decreases n,
{
    if n == 0 || !(exists|i: int| is_oldest(transfers, session, keep, i)) {
        transfers
    } else {
        let i = choose|i: int| is_oldest(transfers, session, keep, i);
        without_oldest(transfers.remove(i), session, keep, (n - 1) as nat)
    }
}

/// Of the session's transfers that ended without a delivery, the latest 64 are
/// kept, and `keep` in any case.
pub open spec fn pruned(transfers: Seq<Transfer>, session: Seq<char>, keep: Seq<char>) -> Seq<
    Transfer,
> {
    let count = terminal_count(transfers, session);
    without_oldest(
        transfers,
        session,
        keep,
        if count > MAX_TERMINAL_TRANSFERS_PER_SESSION {
            (count - MAX_TERMINAL_TRANSFERS_PER_SESSION) as nat
        } else {
            0
        },
    )
}

/// Transfer number `i` is this one.
pub open spec fn is_transfer(
    transfers: Seq<Transfer>,
    i: int,
    session: Seq<char>,
    id: Seq<char>,
) -> bool {
    0 <= i < transfers.len() && transfers[i].session@ == session && transfers[i].id@ == id
}

/// A transfer that is what its state says.
pub open spec fn transfer_ok(t: Transfer) -> bool {
    &&& crate::protocol::valid_id(t.id@)
    &&& valid_file_name(t.name@)
    &&& t.uploading ==> t.state == FileTransferState::AwaitingUpload
    &&& (t.state == FileTransferState::Failed || t.state == FileTransferState::Cancelled)
        ==> t.terminal_at_ns is Some
    &&& t.state == FileTransferState::AwaitingUpload ==> t.bytes_received == 0
        && t.terminal_at_ns is None
    &&& (t.state == FileTransferState::Queued || t.state == FileTransferState::Materializing
        || t.state == FileTransferState::Delivered) ==> t.bytes_received == t.size
}

/// Every transfer is sound and belongs to the live incarnation of its session;
/// no two have the same id; and of no session more than 64 that ended without a
/// delivery are kept.
pub open spec fn files_ok(files: Files) -> bool {
    &&& forall|i: int|
        0 <= i < files.transfers.len() ==> {
            &&& transfer_ok(#[trigger] files.transfers[i])
            &&& files.live.dom().contains(files.transfers[i].session@)
            &&& files.transfers[i].epoch == files.live[files.transfers[i].session@]
        }
    &&& forall|i: int, j: int|
        0 <= i < j < files.transfers.len() ==> (#[trigger] files.transfers[i]).id@ != (
        #[trigger] files.transfers[j]).id@
    &&& forall|session: Seq<char>| #[trigger]
        terminal_count(files.transfers, session) <= MAX_TERMINAL_TRANSFERS_PER_SESSION
    &&& forall|session: Seq<char>| #[trigger]
        files.live.dom().contains(session) ==> crate::registry::valid_name(session)
}

/// What a client is told of a transfer.
pub open spec fn describes(status: FileTransferStatus, t: Transfer) -> bool {
    &&& status.transfer_id@ == t.id@
    &&& status.name@ == t.name@
    &&& status.mime@ == t.mime@
    &&& status.size == t.size
    &&& status.bytes_received == t.bytes_received
    &&& status.state == t.state
    &&& status.expires_at == (if t.state == FileTransferState::AwaitingUpload {
        Some(millis(t.expires_at_ns))
    } else {
        None
    })
}

fn status(t: &Transfer) -> (r: FileTransferStatus)
    ensures
        describes(r, *t),
{
    FileTransferStatus {
        transfer_id: t.id.clone(),
        name: t.name.clone(),
        mime: t.mime.clone(),
        size: t.size,
        bytes_received: t.bytes_received,
        state: t.state,
        expires_at: if t.state == FileTransferState::AwaitingUpload {
            Some(timestamp_ms(t.expires_at_ns))
        } else {
            None
        },
    }
}

/// The transfers on their own: sound, live, and with ids of their own.
pub open spec fn transfers_ok(transfers: Seq<Transfer>, live: Map<Seq<char>, u64>) -> bool {
    &&& forall|i: int|
        0 <= i < transfers.len() ==> {
            &&& transfer_ok(#[trigger] transfers[i])
            &&& live.dom().contains(transfers[i].session@)
            &&& transfers[i].epoch == live[transfers[i].session@]
        }
    &&& forall|i: int, j: int|
        0 <= i < j < transfers.len() ==> (#[trigger] transfers[i]).id@ != (
        #[trigger] transfers[j]).id@
}

proof fn lemma_remove_ok(transfers: Seq<Transfer>, live: Map<Seq<char>, u64>, i: int)
    requires
        transfers_ok(transfers, live),
        0 <= i < transfers.len(),
    ensures
        transfers_ok(transfers.remove(i), live),
{
    let next = transfers.remove(i);
    assert forall|j: int| 0 <= j < next.len() implies #[trigger] next[j] == transfers[if j < i {
        j
    } else {
        j + 1
    }] by {}
}

proof fn lemma_retained_ok(
    transfers: Seq<Transfer>,
    live: Map<Seq<char>, u64>,
    keep: spec_fn(Transfer) -> bool,
)
    requires
        transfers_ok(transfers, live),
    ensures
        transfers_ok(crate::lists::retained(transfers, keep), live),
{
    let kept = crate::lists::retained(transfers, keep);
    let places = crate::lists::lemma_retained(transfers, keep);
    assert forall|i: int| 0 <= i < kept.len() implies 0 <= #[trigger] places[i] < transfers.len()
        && kept[i] == transfers[places[i]] by {}
    assert forall|i: int| 0 <= i < kept.len() implies {
        &&& transfer_ok(#[trigger] kept[i])
        &&& live.dom().contains(kept[i].session@)
        &&& kept[i].epoch == live[kept[i].session@]
    } by {
        let _ = places[i];
    }
    assert forall|i: int, j: int| 0 <= i < j < kept.len() implies (#[trigger] kept[i]).id@ != (
    #[trigger] kept[j]).id@ by {
        assert(places[i] < places[j]);
        let _ = (transfers[places[i]], transfers[places[j]]);
    }
}

proof fn lemma_counts_retained(transfers: Seq<Transfer>, keep: spec_fn(Transfer) -> bool)
    ensures
        forall|session: Seq<char>| #[trigger]
            terminal_count(crate::lists::retained(transfers, keep), session) <= terminal_count(
                transfers,
                session,
            ),
{
    assert forall|session: Seq<char>| #[trigger]
        terminal_count(crate::lists::retained(transfers, keep), session) <= terminal_count(
            transfers,
            session,
        ) by {
        crate::lists::lemma_total_retained(
            transfers,
            keep,
            |t: Transfer|
                if is_terminal(t, session) {
                    1nat
                } else {
                    0
                },
        );
    }
}

proof fn lemma_count_remove(transfers: Seq<Transfer>, i: int, session: Seq<char>)
    requires
        0 <= i < transfers.len(),
    ensures
        terminal_count(transfers, session) == terminal_count(transfers.remove(i), session) + (
        if is_terminal(transfers[i], session) {
            1nat
        } else {
            0
        }),
{
    crate::lists::lemma_total_remove(
        transfers,
        i,
        |t: Transfer|
            if is_terminal(t, session) {
                1nat
            } else {
                0
            },
    );
}

proof fn lemma_count_update(transfers: Seq<Transfer>, i: int, t: Transfer, session: Seq<char>)
    requires
        0 <= i < transfers.len(),
    ensures
        terminal_count(transfers.update(i, t), session) + (if is_terminal(transfers[i], session) {
            1nat
        } else {
            0
        }) == terminal_count(transfers, session) + (if is_terminal(t, session) {
            1nat
        } else {
            0
        }),
{
    crate::lists::lemma_total_update(
        transfers,
        i,
        t,
        |t: Transfer|
            if is_terminal(t, session) {
                1nat
            } else {
                0
            },
    );
}

proof fn lemma_oldest_unique(
    transfers: Seq<Transfer>,
    session: Seq<char>,
    keep: Seq<char>,
    i: int,
    j: int,
)
    requires
        is_oldest(transfers, session, keep, i),
        is_oldest(transfers, session, keep, j),
    ensures
        i == j,
{
    let _ = (transfers[i], transfers[j]);
}

/// Where there is a transfer to drop, one of them is the oldest.
proof fn lemma_oldest_exists(transfers: Seq<Transfer>, session: Seq<char>, keep: Seq<char>, k: int)
    requires
        0 <= k < transfers.len(),
        prunable(transfers[k], session, keep),
    ensures
        exists|i: int| is_oldest(transfers, session, keep, i),
    decreases transfers.len(),
{
    let front = transfers.drop_last();
    let last = transfers.len() - 1;
    if exists|j: int| 0 <= j < front.len() && prunable(#[trigger] front[j], session, keep) {
        let j = choose|j: int| 0 <= j < front.len() && prunable(#[trigger] front[j], session, keep);
        lemma_oldest_exists(front, session, keep, j);
        let i = choose|i: int| is_oldest(front, session, keep, i);
        assert forall|m: int| 0 <= m < last implies transfers[m] == #[trigger] front[m] by {}
        if prunable(transfers[last], session, keep) && transfers[last].terminal_at_ns->0
            < front[i].terminal_at_ns->0 {
            assert forall|m: int|
                0 <= m < transfers.len() && prunable(#[trigger] transfers[m], session, keep) implies
            transfers[last].terminal_at_ns->0 < transfers[m].terminal_at_ns->0 || (
            transfers[last].terminal_at_ns->0 == transfers[m].terminal_at_ns->0 && last <= m) by {
                if m < last {
                    assert(prunable(front[m], session, keep));
                }
            }
            assert(is_oldest(transfers, session, keep, last));
        } else {
            assert forall|m: int|
                0 <= m < transfers.len() && prunable(#[trigger] transfers[m], session, keep) implies
            transfers[i].terminal_at_ns->0 < transfers[m].terminal_at_ns->0 || (
            transfers[i].terminal_at_ns->0 == transfers[m].terminal_at_ns->0 && i <= m) by {
                if m < last {
                    assert(prunable(front[m], session, keep));
                }
            }
            assert(is_oldest(transfers, session, keep, i));
        }
    } else {
        assert(k == last) by {
            if k < last {
                assert(prunable(front[k], session, keep));
            }
        }
        assert forall|m: int|
            0 <= m < transfers.len() && prunable(#[trigger] transfers[m], session, keep) implies m
            == last by {
            if m < last {
                assert(prunable(front[m], session, keep));
            }
        }
        assert(is_oldest(transfers, session, keep, last));
    }
}

/// With more than one ended transfer, one of them is not the one to keep.
proof fn lemma_some_prunable(
    transfers: Seq<Transfer>,
    live: Map<Seq<char>, u64>,
    session: Seq<char>,
    keep: Seq<char>,
)
    requires
        transfers_ok(transfers, live),
        terminal_count(transfers, session) > 1,
    ensures
        exists|i: int| 0 <= i < transfers.len() && prunable(#[trigger] transfers[i], session, keep),
    decreases transfers.len(),
{
    let weight = |t: Transfer|
        if is_terminal(t, session) {
            1nat
        } else {
            0
        };
    if !(exists|i: int| 0 <= i < transfers.len() && prunable(#[trigger] transfers[i], session, keep)) {
        if exists|i: int| 0 <= i < transfers.len() && is_terminal(#[trigger] transfers[i], session) {
            let i = choose|i: int|
                0 <= i < transfers.len() && is_terminal(#[trigger] transfers[i], session);
            assert(!prunable(transfers[i], session, keep));
            crate::lists::lemma_total_remove(transfers, i, weight);
            let rest = transfers.remove(i);
            assert forall|j: int| 0 <= j < rest.len() implies weight(#[trigger] rest[j]) == 0 by {
                let k = if j < i {
                    j
                } else {
                    j + 1
                };
                assert(rest[j] == transfers[k]);
                assert(!prunable(transfers[k], session, keep));
                assert(transfers[k].id@ != transfers[i].id@);
            }
            crate::lists::lemma_total_nothing(rest, weight);
        } else {
            assert forall|j: int| 0 <= j < transfers.len() implies weight(#[trigger] transfers[j])
                == 0 by {
                assert(!is_terminal(transfers[j], session));
            }
            crate::lists::lemma_total_nothing(transfers, weight);
        }
        assert(false);
    }
}

/// Dropping the oldest of too many leaves exactly as many as are to stay, leaves
/// other sessions alone, and spares the one to keep.
proof fn lemma_without_oldest(
    transfers: Seq<Transfer>,
    live: Map<Seq<char>, u64>,
    session: Seq<char>,
    keep: Seq<char>,
    n: nat,
)
    requires
        transfers_ok(transfers, live),
        terminal_count(transfers, session) > n,
    ensures
        transfers_ok(without_oldest(transfers, session, keep, n), live),
        terminal_count(without_oldest(transfers, session, keep, n), session) == terminal_count(
            transfers,
            session,
        ) - n,
        forall|other: Seq<char>|
            other != session ==> #[trigger] terminal_count(
                without_oldest(transfers, session, keep, n),
                other,
            ) == terminal_count(transfers, other),
        forall|t: Transfer|
            transfers.contains(t) && !prunable(t, session, keep)
                ==> #[trigger] without_oldest(transfers, session, keep, n).contains(t),
        forall|t: Transfer| #[trigger]
            without_oldest(transfers, session, keep, n).contains(t) ==> transfers.contains(t),
    decreases n,
{
    if n > 0 {
        lemma_some_prunable(transfers, live, session, keep);
        let k = choose|k: int|
            0 <= k < transfers.len() && prunable(#[trigger] transfers[k], session, keep);
        lemma_oldest_exists(transfers, session, keep, k);
        let i = choose|i: int| is_oldest(transfers, session, keep, i);
        let next = transfers.remove(i);
        lemma_remove_ok(transfers, live, i);
        lemma_count_remove(transfers, i, session);
        lemma_without_oldest(next, live, session, keep, (n - 1) as nat);
        assert forall|other: Seq<char>| other != session implies #[trigger] terminal_count(
            without_oldest(transfers, session, keep, n),
            other,
        ) == terminal_count(transfers, other) by {
            lemma_count_remove(transfers, i, other);
            assert(terminal_count(
                without_oldest(next, session, keep, (n - 1) as nat),
                other,
            ) == terminal_count(next, other));
        }
        assert forall|t: Transfer|
            transfers.contains(t) && !prunable(t, session, keep) implies #[trigger] without_oldest(
            transfers,
            session,
            keep,
            n,
        ).contains(t) by {
            let m = transfers.index_of(t);
            assert(next[if m < i {
                m
            } else {
                m - 1
            }] == t);
            assert(next.contains(t));
        }
        assert forall|t: Transfer| #[trigger]
            without_oldest(transfers, session, keep, n).contains(t) implies transfers.contains(
            t,
        ) by {
            assert(next.contains(t));
            let m = next.index_of(t);
            assert(transfers[if m < i {
                m
            } else {
                m + 1
            }] == t);
        }
    }
}

proof fn lemma_pruned(
    transfers: Seq<Transfer>,
    live: Map<Seq<char>, u64>,
    session: Seq<char>,
    keep: Seq<char>,
)
    requires
        transfers_ok(transfers, live),
        forall|other: Seq<char>|
            other != session ==> #[trigger] terminal_count(transfers, other)
                <= MAX_TERMINAL_TRANSFERS_PER_SESSION,
    ensures
        transfers_ok(pruned(transfers, session, keep), live),
        forall|other: Seq<char>| #[trigger]
            terminal_count(pruned(transfers, session, keep), other)
                <= MAX_TERMINAL_TRANSFERS_PER_SESSION,
        forall|t: Transfer|
            transfers.contains(t) && !prunable(t, session, keep) ==> #[trigger] pruned(
                transfers,
                session,
                keep,
            ).contains(t),
        forall|t: Transfer| #[trigger]
            pruned(transfers, session, keep).contains(t) ==> transfers.contains(t),
{
    let count = terminal_count(transfers, session);
    if count > MAX_TERMINAL_TRANSFERS_PER_SESSION {
        lemma_without_oldest(
            transfers,
            live,
            session,
            keep,
            (count - MAX_TERMINAL_TRANSFERS_PER_SESSION) as nat,
        );
    }
}

/// A piece of work on the store's directories.
#[derive(Debug, PartialEq, Eq)]
pub enum DirStep {
    /// Remove the directory with all it holds, if it is there.
    RemoveTree(String),
    /// Create the directory, readable for its owner alone.
    CreatePrivate(String),
}

/// Directory work, over mathematical values.
#[verifier::ext_equal]
pub enum DirWork {
    RemoveTree(Seq<char>),
    CreatePrivate(Seq<char>),
}

impl View for DirStep {
    type V = DirWork;

    open spec fn view(&self) -> DirWork {
        match self {
            DirStep::RemoveTree(path) => DirWork::RemoveTree(path@),
            DirStep::CreatePrivate(path) => DirWork::CreatePrivate(path@),
        }
    }
}

pub open spec fn works(steps: Seq<DirStep>) -> Seq<DirWork> {
    Seq::new(steps.len(), |i: int| steps[i]@)
}

/// The number of the incarnation after `epoch`; zero is never used.
pub open spec fn epoch_after(epoch: u64) -> u64 {
    if epoch == u64::MAX {
        1
    } else {
        (epoch + 1) as u64
    }
}

/// A new incarnation of the session: it is live, and nothing is left of the
/// transfers of earlier ones.
pub open spec fn activated(files: Files, session: Seq<char>) -> Files {
    Files {
        transfers: not_of(files.transfers, session),
        live: files.live.insert(session, epoch_after(files.next_epoch)),
        next_epoch: epoch_after(files.next_epoch),
        ..files
    }
}

/// The session is gone, and its transfers with it.
pub open spec fn deactivated(files: Files, session: Seq<char>) -> Files {
    Files {
        transfers: not_of(files.transfers, session),
        live: files.live.remove(session),
        ..files
    }
}

/// Starting a new incarnation of a session with empty directories ends with `r`.
pub open spec fn started(
    files: Files,
    session: Seq<char>,
    r: Result<Vec<DirStep>, FileTransferError>,
    after: Files,
) -> bool {
    if crate::registry::valid_name(session) {
        &&& r is Ok
        &&& works(r->Ok_0@) == seq![
            DirWork::RemoveTree(drop_path(files.root, session)),
            DirWork::RemoveTree(staging_dir_path(files.root, session)),
            DirWork::CreatePrivate(drop_path(files.root, session)),
        ]
        &&& after == activated(files, session)
    } else {
        r == Err::<Vec<DirStep>, _>(FileTransferError::InvalidSession) && after == files
    }
}

/// Starting a new incarnation whose drop directory is ready ends with `r`.
pub open spec fn started_prepared(
    files: Files,
    session: Seq<char>,
    r: Result<Vec<DirStep>, FileTransferError>,
    after: Files,
) -> bool {
    if crate::registry::valid_name(session) {
        &&& r is Ok
        &&& works(r->Ok_0@) == seq![
            DirWork::RemoveTree(staging_dir_path(files.root, session)),
        ]
        &&& after == activated(files, session)
    } else {
        r == Err::<Vec<DirStep>, _>(FileTransferError::InvalidSession) && after == files
    }
}

/// Taking up a session that outlived a restart ends with `r`.
pub open spec fn recovered(
    files: Files,
    session: Seq<char>,
    r: Result<Vec<DirStep>, FileTransferError>,
    after: Files,
) -> bool {
    if crate::registry::valid_name(session) {
        &&& r is Ok
        &&& works(r->Ok_0@) == seq![
            DirWork::CreatePrivate(drop_path(files.root, session)),
            DirWork::RemoveTree(staging_dir_path(files.root, session)),
        ]
        &&& after == activated(files, session)
    } else {
        r == Err::<Vec<DirStep>, _>(FileTransferError::InvalidSession) && after == files
    }
}

/// Ending a session ends with `r`.
pub open spec fn ended(
    files: Files,
    session: Seq<char>,
    r: Result<Vec<DirStep>, FileTransferError>,
    after: Files,
) -> bool {
    if crate::registry::valid_name(session) {
        &&& r is Ok
        &&& works(r->Ok_0@) == seq![
            DirWork::RemoveTree(drop_path(files.root, session)),
            DirWork::RemoveTree(staging_dir_path(files.root, session)),
        ]
        &&& after == deactivated(files, session)
    } else {
        r == Err::<Vec<DirStep>, _>(FileTransferError::InvalidSession) && after == files
    }
}

/// `remove` was asked to remove `path` and answered `outcome`.
pub open spec fn removal<R: Fn(&str) -> Result<(), String>>(
    remove: R,
    path: Seq<char>,
    outcome: Result<(), String>,
) -> bool {
    exists|p: &str| p@ == path && #[trigger] call_ensures(remove, (p,), outcome)
}

pub open spec fn path_of(files: Files, t: Transfer) -> Seq<char> {
    staged_path(files.root, t.session@, t.id@)
}

/// The store without its expired transfers.
pub open spec fn purged(files: Files, now_ns: u128) -> Files {
    Files { transfers: unexpired(files.transfers, now_ns), ..files }
}

/// The files of all expired transfers could be removed.
pub open spec fn cleared<R: Fn(&str) -> Result<(), String>>(
    files: Files,
    now_ns: u128,
    remove: R,
) -> bool {
    forall|i: int|
        0 <= i < files.transfers.len() && expired(#[trigger] files.transfers[i], now_ns)
            ==> removal(remove, path_of(files, files.transfers[i]), Ok(()))
}

/// `remove` can be given the file of every expired transfer.
pub open spec fn can_clear<R: Fn(&str) -> Result<(), String>>(
    files: Files,
    now_ns: u128,
    remove: R,
) -> bool {
    forall|i: int|
        0 <= i < files.transfers.len() && expired(#[trigger] files.transfers[i], now_ns)
            ==> crate::paths::takes_path(remove, path_of(files, files.transfers[i]))
}

/// The file of an expired transfer could not be removed: the purge stopped
/// there, and `after` is what it left.
pub open spec fn purge_failed<R: Fn(&str) -> Result<(), String>>(
    files: Files,
    now_ns: u128,
    remove: R,
    error: FileTransferError,
    after: Files,
) -> bool {
    &&& error is Io
    &&& exists|k: int|
        {
            &&& 0 <= k < files.transfers.len()
            &&& expired(#[trigger] files.transfers[k], now_ns)
            &&& removal(remove, path_of(files, files.transfers[k]), Err(error->Io_0))
            &&& after == (Files {
                transfers: unexpired(files.transfers.take(k), now_ns) + files.transfers.skip(k + 1),
                ..files
            })
        }
}

/// The files, the live sessions and what each of them has under way.
pub struct FileTransferStore {
    root: String,
    transfers: Vec<Transfer>,
    live: SortedMap<String, u64>,
    next_epoch: u64,
    limits: FileLimits,
}

impl View for FileTransferStore {
    type V = Files;

    closed spec fn view(&self) -> Files {
        Files {
            root: self.root@,
            transfers: self.transfers@,
            live: self.live@,
            next_epoch: self.next_epoch,
            limits: self.limits,
        }
    }
}

/// A store that has seen nothing.
pub open spec fn no_files(root: Seq<char>, limits: FileLimits) -> Files {
    Files { root, transfers: Seq::empty(), live: Map::empty(), next_epoch: 0, limits }
}

impl FileTransferStore {
    pub closed spec fn wf(&self) -> bool {
        files_ok(self@) && self.live.wf()
    }

    /// What the invariant says of the store's state.
    pub proof fn lemma_wf(&self)
        requires
            self.wf(),
        ensures
            files_ok(self@),
    {
    }

    pub fn new(root: String) -> (r: Self)
        ensures
            r.wf(),
            r@ == no_files(
                root@,
                FileLimits {
                    max_file_bytes: MAX_FILE_BYTES,
                    max_session_bytes: MAX_SESSION_FILE_BYTES,
                    max_session_objects: MAX_SESSION_FILE_OBJECTS,
                    expiry_ns: TRANSFER_EXPIRY_NS,
                },
            ),
    {
        FileTransferStore::with_limits(
            root,
            FileLimits {
                max_file_bytes: MAX_FILE_BYTES,
                max_session_bytes: MAX_SESSION_FILE_BYTES,
                max_session_objects: MAX_SESSION_FILE_OBJECTS,
                expiry_ns: TRANSFER_EXPIRY_NS,
            },
        )
    }

    pub fn with_limits(root: String, limits: FileLimits) -> (r: Self)
        ensures
            r.wf(),
            r@ == no_files(root@, limits),
    {
        FileTransferStore {
            root,
            transfers: Vec::new(),
            live: SortedMap::new(),
            next_epoch: 0,
            limits,
        }
    }

    /// The directory that the guest of the session sees.
    pub fn drop_dir(&self, session: &str) -> (r: String)
        ensures
            r@ == drop_path(self@.root, session@),
    {
        join_path(self.root.as_str(), session)
    }

    /// Where uploads of the session are written.
    pub fn staging_dir(&self, session: &str) -> (r: String)
        ensures
            r@ == staging_dir_path(self@.root, session@),
    {
        join_path(join_path(self.root.as_str(), ".staging").as_str(), session)
    }

    /// Where one upload is written.
    pub fn staging_path(&self, session: &str, id: &str) -> (r: String)
        ensures
            r@ == staged_path(self@.root, session@, id@),
    {
        join_path(self.staging_dir(session).as_str(), join2(id, ".part").as_str())
    }

    /// Forgets the session's transfers.
    fn forget(&mut self, session: &str)
        ensures
            final(self)@ == (Files { transfers: not_of(old(self)@.transfers, session@), ..old(self)@ }),
            final(self).live == old(self).live,
    {
        let ghost all = self.transfers@;
        let ghost keep = |t: Transfer| t.session@ != session@;
        let ghost mut done: int = 0;
        let mut i: usize = 0;
        assert(all.take(0) =~= Seq::<Transfer>::empty());
        assert(all.skip(0) =~= all);
        assert(crate::lists::retained(all.take(0), keep) + all.skip(0) =~= all);
        while i < self.transfers.len()
            invariant
                0 <= done <= all.len(),
                keep == (|t: Transfer| t.session@ != session@),
                i == crate::lists::retained(all.take(done), keep).len(),
                self.transfers@ == crate::lists::retained(all.take(done), keep) + all.skip(done),
                self.root == old(self).root,
                self.live == old(self).live,
                self.next_epoch == old(self).next_epoch,
                self.limits == old(self).limits,
            decreases all.len() - done,
        {
            let ghost kept = crate::lists::retained(all.take(done), keep);
            assert(self.transfers@[i as int] == all.skip(done)[0]);
            assert(all.take(done + 1).drop_last() =~= all.take(done));
            if same_text(self.transfers[i].session.as_str(), session) {
                let _ = self.transfers.remove(i);
                assert(self.transfers@ =~= kept + all.skip(done + 1));
            } else {
                assert(self.transfers@ =~= kept.push(all[done]) + all.skip(done + 1));
                i += 1;
            }
            proof {
                done = done + 1;
            }
        }
        assert(all.skip(done) =~= Seq::<Transfer>::empty());
        assert(all.take(done) =~= all);
        assert(self.transfers@ =~= not_of(all, session@));
    }

    /// Starts a new incarnation of the session in the store.
    fn advance(&mut self, session: &str)
        requires
            old(self).wf(),
            crate::registry::valid_name(session@),
        ensures
            final(self).wf(),
            final(self)@ == activated(old(self)@, session@),
    {
        let next: u64 = self.next_epoch.wrapping_add(1);
        self.next_epoch = if next == 0 {
            1
        } else {
            next
        };
        let _ = self.live.insert(session.to_owned(), self.next_epoch);
        self.forget(session);
        proof {
            let all = old(self)@.transfers;
            let keep = |t: Transfer| t.session@ != session@;
            lemma_retained_ok(all, old(self)@.live, keep);
            lemma_counts_retained(all, keep);
            let places = crate::lists::lemma_retained(all, keep);
            assert forall|i: int| 0 <= i < self@.transfers.len() implies {
                &&& self@.live.dom().contains((#[trigger] self@.transfers[i]).session@)
                &&& self@.transfers[i].epoch == self@.live[self@.transfers[i].session@]
            } by {
                assert(keep(self@.transfers[i]));
            }
        }
    }

    /// Starts a new incarnation of the session with empty directories.
    pub fn activate(&mut self, session: &str) -> (r: Result<Vec<DirStep>, FileTransferError>)
        requires
            old(self).wf(),
        ensures
            final(self).wf(),
            started(old(self)@, session@, r, final(self)@),
    {
        match validate(session) {
            Err(error) => {
                return Err(error);
            },
            Ok(()) => {},
        }
        self.advance(session);
        let mut steps: Vec<DirStep> = Vec::new();
        steps.push(DirStep::RemoveTree(self.drop_dir(session)));
        steps.push(DirStep::RemoveTree(self.staging_dir(session)));
        steps.push(DirStep::CreatePrivate(self.drop_dir(session)));
        assert(works(steps@) =~= seq![
            DirWork::RemoveTree(drop_path(old(self)@.root, session@)),
            DirWork::RemoveTree(staging_dir_path(old(self)@.root, session@)),
            DirWork::CreatePrivate(drop_path(old(self)@.root, session@)),
        ]);
        Ok(steps)
    }

    /// Starts a new incarnation of a session whose drop directory was reset
    /// before its guest was started. That directory is left alone: the guest may
    /// have put something there already.
    pub fn activate_prepared(&mut self, session: &str) -> (r: Result<
        Vec<DirStep>,
        FileTransferError,
    >)
        requires
            old(self).wf(),
        ensures
            final(self).wf(),
            started_prepared(old(self)@, session@, r, final(self)@),
    {
        match validate(session) {
            Err(error) => {
                return Err(error);
            },
            Ok(()) => {},
        }
        self.advance(session);
        let mut steps: Vec<DirStep> = Vec::new();
        steps.push(DirStep::RemoveTree(self.staging_dir(session)));
        assert(works(steps@) =~= seq![
            DirWork::RemoveTree(staging_dir_path(old(self)@.root, session@)),
        ]);
        Ok(steps)
    }

    /// Takes up a session that outlived a restart. Its delivered files stay with
    /// the guest; uploads cannot be resumed and are discarded.
    pub fn recover(&mut self, session: &str) -> (r: Result<Vec<DirStep>, FileTransferError>)
        requires
            old(self).wf(),
        ensures
            final(self).wf(),
            recovered(old(self)@, session@, r, final(self)@),
    {
        match validate(session) {
            Err(error) => {
                return Err(error);
            },
            Ok(()) => {},
        }
        self.advance(session);
        let mut steps: Vec<DirStep> = Vec::new();
        steps.push(DirStep::CreatePrivate(self.drop_dir(session)));
        steps.push(DirStep::RemoveTree(self.staging_dir(session)));
        assert(works(steps@) =~= seq![
            DirWork::CreatePrivate(drop_path(old(self)@.root, session@)),
            DirWork::RemoveTree(staging_dir_path(old(self)@.root, session@)),
        ]);
        Ok(steps)
    }

    /// Ends the session: nothing of it stays, in the store or on disk.
    pub fn deactivate(&mut self, session: &str) -> (r: Result<Vec<DirStep>, FileTransferError>)
        requires
            old(self).wf(),
        ensures
            final(self).wf(),
            ended(old(self)@, session@, r, final(self)@),
    {
        match validate(session) {
            Err(error) => {
                return Err(error);
            },
            Ok(()) => {},
        }
        let _ = self.live.remove(&session.to_owned());
        self.forget(session);
        proof {
            let all = old(self)@.transfers;
            let keep = |t: Transfer| t.session@ != session@;
            lemma_retained_ok(all, old(self)@.live, keep);
            lemma_counts_retained(all, keep);
            let places = crate::lists::lemma_retained(all, keep);
            assert forall|i: int| 0 <= i < self@.transfers.len() implies {
                &&& self@.live.dom().contains((#[trigger] self@.transfers[i]).session@)
                &&& self@.transfers[i].epoch == self@.live[self@.transfers[i].session@]
            } by {
                assert(keep(self@.transfers[i]));
            }
        }
        let mut steps: Vec<DirStep> = Vec::new();
        steps.push(DirStep::RemoveTree(self.drop_dir(session)));
        steps.push(DirStep::RemoveTree(self.staging_dir(session)));
        assert(works(steps@) =~= seq![
            DirWork::RemoveTree(drop_path(old(self)@.root, session@)),
            DirWork::RemoveTree(staging_dir_path(old(self)@.root, session@)),
        ]);
        assert(self@ =~= deactivated(old(self)@, session@));
        Ok(steps)
    }

    /// The number of the session's live incarnation.
    fn live_epoch(&self, session: &str) -> (r: Result<u64, FileTransferError>)
        requires
            self.wf(),
        ensures
            r == (if self@.live.dom().contains(session@) {
                Ok(self@.live[session@])
            } else {
                Err(FileTransferError::SessionNotLive)
            }),
    {
        match self.live.get(&session.to_owned()) {
            Some(epoch) => Ok(*epoch),
            None => Err(FileTransferError::SessionNotLive),
        }
    }

    /// Takes down which incarnation of the session is live now.
    pub fn lease(&self, session: &str) -> (r: Result<FileSessionLease, FileTransferError>)
        requires
            self.wf(),
        ensures
            leased(self@, session@, r),
    {
        match validate(session) {
            Err(error) => {
                return Err(error);
            },
            Ok(()) => {},
        }
        match self.live_epoch(session) {
            Ok(epoch) => Ok(FileSessionLease { session: session.to_owned(), epoch }),
            Err(error) => Err(error),
        }
    }
}

/// Taking down the live incarnation of the session ends with `r`.
pub open spec fn leased(
    files: Files,
    session: Seq<char>,
    r: Result<FileSessionLease, FileTransferError>,
) -> bool {
    if !crate::registry::valid_name(session) {
        r == Err::<FileSessionLease, _>(FileTransferError::InvalidSession)
    } else if !files.live.dom().contains(session) {
        r == Err::<FileSessionLease, _>(FileTransferError::SessionNotLive)
    } else {
        r matches Ok(lease) && lease.spec_session() == session && lease.spec_epoch()
            == files.live[session]
    }
}

/// The request reached transfer number `i` of `after`: the session and the id
/// are valid, the session is live, and the transfer is of its incarnation.
pub open spec fn found(
    files: Files,
    session: Seq<char>,
    id: Seq<char>,
    i: int,
) -> bool {
    &&& crate::registry::valid_name(session)
    &&& crate::protocol::valid_id(id)
    &&& files.live.dom().contains(session)
    &&& is_transfer(files.transfers, i, session, id)
}

/// Why a request for a transfer does not get there, in the order of the checks.
pub open spec fn unreachable(files: Files, session: Seq<char>, id: Seq<char>) -> Option<
    FileTransferError,
> {
    if !crate::registry::valid_name(session) {
        Some(FileTransferError::InvalidSession)
    } else if !crate::protocol::valid_id(id) {
        Some(FileTransferError::NotFound)
    } else if !files.live.dom().contains(session) {
        Some(FileTransferError::SessionNotLive)
    } else {
        None
    }
}

/// A request that purges first was refused with `error`, leaving `after`.
pub open spec fn refused<R: Fn(&str) -> Result<(), String>>(
    files: Files,
    session: Seq<char>,
    id: Seq<char>,
    now_ns: u128,
    remove: R,
    error: FileTransferError,
    after: Files,
) -> bool {
    match unreachable(files, session, id) {
        Some(reason) => error == reason && after == files,
        None => {
            ||| purge_failed(files, now_ns, remove, error, after)
            ||| {
                &&& cleared(files, now_ns, remove)
                &&& after == purged(files, now_ns)
                &&& error == FileTransferError::NotFound
                &&& forall|i: int| !is_transfer(after.transfers, i, session, id)
            }
        },
    }
}

/// A transfer was looked up: it is described as it stands, once what has expired
/// is gone.
pub open spec fn looked_up<R: Fn(&str) -> Result<(), String>>(
    files: Files,
    session: Seq<char>,
    id: Seq<char>,
    now_ns: u128,
    remove: R,
    r: Result<FileTransferStatus, FileTransferError>,
    after: Files,
) -> bool {
    match r {
        Ok(status) => {
            &&& cleared(files, now_ns, remove)
            &&& after == purged(files, now_ns)
            &&& exists|i: int| #[trigger]
                found(after, session, id, i) && describes(status, after.transfers[i])
        },
        Err(error) => refused(files, session, id, now_ns, remove, error, after),
    }
}

/// Transfer number `i` with another record, and then the surplus of ended
/// transfers dropped.
pub open spec fn settled(files: Files, i: int, t: Transfer) -> Files {
    Files { transfers: pruned(files.transfers.update(i, t), t.session@, t.id@), ..files }
}

/// A transfer that was cancelled.
pub open spec fn cancelled(t: Transfer, now_ns: u128) -> Transfer {
    Transfer {
        state: FileTransferState::Cancelled,
        uploading: false,
        terminal_at_ns: Some(now_ns),
        ..t
    }
}

/// A transfer that failed.
pub open spec fn failed(t: Transfer, now_ns: u128) -> Transfer {
    Transfer {
        state: FileTransferState::Failed,
        uploading: false,
        terminal_at_ns: Some(now_ns),
        ..t
    }
}

pub open spec fn is_cancellable(t: Transfer) -> bool {
    t.state == FileTransferState::AwaitingUpload || t.state == FileTransferState::Queued
}

proof fn lemma_settled(files: Files, i: int, t: Transfer)
    requires
        files_ok(files),
        0 <= i < files.transfers.len(),
        transfer_ok(t),
        t.id == files.transfers[i].id,
        t.session == files.transfers[i].session,
        t.epoch == files.transfers[i].epoch,
    ensures
        files_ok(settled(files, i, t)),
        settled(files, i, t).transfers.contains(t),
        forall|x: Transfer|
            files.transfers.update(i, t).contains(x) && !prunable(x, t.session@, t.id@)
                ==> #[trigger] settled(files, i, t).transfers.contains(x),
        forall|x: Transfer| #[trigger]
            settled(files, i, t).transfers.contains(x) ==> files.transfers.update(i, t).contains(x),
{
    let next = files.transfers.update(i, t);
    assert forall|j: int| 0 <= j < next.len() implies {
        &&& transfer_ok(#[trigger] next[j])
        &&& files.live.dom().contains(next[j].session@)
        &&& next[j].epoch == files.live[next[j].session@]
        &&& next[j].id@ == files.transfers[j].id@
    } by {
        let _ = files.transfers[j];
    }
    assert(transfers_ok(next, files.live)) by {
        assert forall|a: int, b: int| 0 <= a < b < next.len() implies (#[trigger] next[a]).id@ != (
        #[trigger] next[b]).id@ by {
            let _ = (files.transfers[a], files.transfers[b]);
        }
    }
    assert forall|other: Seq<char>| other != t.session@ implies #[trigger] terminal_count(
        next,
        other,
    ) <= MAX_TERMINAL_TRANSFERS_PER_SESSION by {
        lemma_count_update(files.transfers, i, t, other);
        assert(terminal_count(files.transfers, other) <= MAX_TERMINAL_TRANSFERS_PER_SESSION);
    }
    lemma_pruned(next, files.live, t.session@, t.id@);
    assert(next[i] == t);
    assert(next.contains(t));
}

/// A transfer changed in a way that ends nothing.
proof fn lemma_updated(files: Files, i: int, t: Transfer)
    requires
        files_ok(files),
        0 <= i < files.transfers.len(),
        transfer_ok(t),
        t.terminal_at_ns is Some <==> files.transfers[i].terminal_at_ns is Some,
        t.id == files.transfers[i].id,
        t.session == files.transfers[i].session,
        t.epoch == files.transfers[i].epoch,
    ensures
        files_ok(Files { transfers: files.transfers.update(i, t), ..files }),
{
    let next = files.transfers.update(i, t);
    assert forall|j: int| 0 <= j < next.len() implies {
        &&& transfer_ok(#[trigger] next[j])
        &&& files.live.dom().contains(next[j].session@)
        &&& next[j].epoch == files.live[next[j].session@]
        &&& next[j].id@ == files.transfers[j].id@
    } by {
        let _ = files.transfers[j];
    }
    assert forall|a: int, b: int| 0 <= a < b < next.len() implies (#[trigger] next[a]).id@ != (
    #[trigger] next[b]).id@ by {
        let _ = (files.transfers[a], files.transfers[b]);
    }
    assert forall|session: Seq<char>| #[trigger]
        terminal_count(next, session) <= MAX_TERMINAL_TRANSFERS_PER_SESSION by {
        lemma_count_update(files.transfers, i, t, session);
        assert(terminal_count(files.transfers, session) <= MAX_TERMINAL_TRANSFERS_PER_SESSION);
    }
}

impl FileTransferStore {
    /// Drops the transfers that nobody began to upload in time, each with what
    /// may be left of its file; stops where a file cannot be removed.
    fn purge_expired<R: Fn(&str) -> Result<(), String>>(&mut self, now_ns: u128, remove: &R) -> (r:
        Result<(), FileTransferError>)
        requires
            old(self).wf(),
            can_clear(old(self)@, now_ns, *remove),
        ensures
            final(self).wf(),
            match r {
                Ok(()) => cleared(old(self)@, now_ns, *remove) && final(self)@ == purged(
                    old(self)@,
                    now_ns,
                ),
                Err(error) => purge_failed(old(self)@, now_ns, *remove, error, final(self)@),
            },
    {
        let ghost all = self.transfers@;
        let ghost live = self.live@;
        let ghost keep = |t: Transfer| !expired(t, now_ns);
        let ghost mut done: int = 0;
        let mut i: usize = 0;
        assert(all.take(0) =~= Seq::<Transfer>::empty());
        assert(crate::lists::retained(all.take(0), keep) + all.skip(0) =~= all);
        while i < self.transfers.len()
            invariant
                0 <= done <= all.len(),
                all == old(self)@.transfers,
                live == old(self)@.live,
                old(self).wf(),
                keep == (|t: Transfer| !expired(t, now_ns)),
                i == crate::lists::retained(all.take(done), keep).len(),
                self.transfers@ == crate::lists::retained(all.take(done), keep) + all.skip(done),
                transfers_ok(self.transfers@, live),
                forall|s: Seq<char>| #[trigger]
                    terminal_count(self.transfers@, s) <= MAX_TERMINAL_TRANSFERS_PER_SESSION,
                self.root == old(self).root,
                self.live == old(self).live,
                self.next_epoch == old(self).next_epoch,
                self.limits == old(self).limits,
                can_clear(old(self)@, now_ns, *remove),
                forall|j: int|
                    0 <= j < done && expired(#[trigger] all[j], now_ns) ==> removal(
                        *remove,
                        path_of(old(self)@, all[j]),
                        Ok(()),
                    ),
            decreases all.len() - done,
        {
            let ghost kept = crate::lists::retained(all.take(done), keep);
            assert(self.transfers@[i as int] == all.skip(done)[0]);
            assert(self.transfers@[i as int] == all[done]);
            assert(all.take(done + 1).drop_last() =~= all.take(done));
            let t = &self.transfers[i];
            let over: bool = t.state == FileTransferState::AwaitingUpload && !t.uploading
                && t.expires_at_ns <= now_ns;
            if over {
                let path = self.staging_path(t.session.as_str(), t.id.as_str());
                proof {
                    lemma_remove_ok(self.transfers@, live, i as int);
                    assert forall|s: Seq<char>| #[trigger]
                        terminal_count(self.transfers@.remove(i as int), s)
                            <= MAX_TERMINAL_TRANSFERS_PER_SESSION by {
                        lemma_count_remove(self.transfers@, i as int, s);
                        assert(terminal_count(self.transfers@, s)
                            <= MAX_TERMINAL_TRANSFERS_PER_SESSION);
                    }
                }
                let _ = self.transfers.remove(i);
                assert(self.transfers@ =~= kept + all.skip(done + 1));
                assert(expired(old(self)@.transfers[done], now_ns));
                let outcome = remove(path.as_str());
                assert(removal(*remove, path_of(old(self)@, all[done]), outcome));
                match outcome {
                    Ok(nothing) => {
                        assert(nothing == ());
                    },
                    Err(reason) => {
                        assert(purge_failed(
                            old(self)@,
                            now_ns,
                            *remove,
                            FileTransferError::Io(reason),
                            self@,
                        )) by {
                            assert(expired(old(self)@.transfers[done], now_ns));
                            assert(self@.transfers =~= unexpired(all.take(done), now_ns) + all.skip(
                                done + 1,
                            ));
                        }
                        return Err(FileTransferError::Io(reason));
                    },
                }
            } else {
                assert(self.transfers@ =~= kept.push(all[done]) + all.skip(done + 1));
                i += 1;
            }
            proof {
                done = done + 1;
            }
        }
        assert(all.skip(done) =~= Seq::<Transfer>::empty());
        assert(all.take(done) =~= all);
        assert(self.transfers@ =~= unexpired(all, now_ns));
        Ok(())
    }

    /// Where the transfer is.
    fn position(&self, session: &str, id: &str) -> (r: Option<usize>)
        ensures
            match r {
                Some(i) => is_transfer(self@.transfers, i as int, session@, id@),
                None => forall|i: int| !is_transfer(self@.transfers, i, session@, id@),
            },
    {
        let mut i: usize = 0;
        while i < self.transfers.len()
            invariant
                i <= self.transfers@.len(),
                forall|j: int| 0 <= j < i ==> !is_transfer(self@.transfers, j, session@, id@),
            decreases self.transfers@.len() - i,
        {
            let t = &self.transfers[i];
            if same_text(t.session.as_str(), session) && same_text(t.id.as_str(), id) {
                return Some(i);
            }
            i += 1;
        }
        None
    }

    /// Checks the request and finds its transfer.
    fn locate(&self, session: &str, id: &str) -> (r: Result<usize, FileTransferError>)
        requires
            self.wf(),
        ensures
            match r {
                Ok(i) => found(self@, session@, id@, i as int),
                Err(error) => match unreachable(self@, session@, id@) {
                    Some(reason) => error == reason,
                    None => error == FileTransferError::NotFound && forall|i: int|
                        !is_transfer(self@.transfers, i, session@, id@),
                },
            },
    {
        match validate(session) {
            Err(error) => {
                return Err(error);
            },
            Ok(()) => {},
        }
        match validate_id(id) {
            Err(error) => {
                return Err(error);
            },
            Ok(()) => {},
        }
        let epoch: u64 = match self.live_epoch(session) {
            Err(error) => {
                return Err(error);
            },
            Ok(epoch) => epoch,
        };
        match self.position(session, id) {
            Some(i) => {
                assert(self@.transfers[i as int].epoch == epoch);
                Ok(i)
            },
            None => Err(FileTransferError::NotFound),
        }
    }

    /// The same, after the expired transfers are gone.
    fn purge_and_locate<R: Fn(&str) -> Result<(), String>>(
        &mut self,
        session: &str,
        id: &str,
        now_ns: u128,
        remove: &R,
    ) -> (r: Result<usize, FileTransferError>)
        requires
            old(self).wf(),
            unreachable(old(self)@, session@, id@) is None ==> can_clear(
                old(self)@,
                now_ns,
                *remove,
            ),
        ensures
            final(self).wf(),
            match r {
                Ok(i) => {
                    &&& cleared(old(self)@, now_ns, *remove)
                    &&& final(self)@ == purged(old(self)@, now_ns)
                    &&& found(final(self)@, session@, id@, i as int)
                },
                Err(error) => refused(
                    old(self)@,
                    session@,
                    id@,
                    now_ns,
                    *remove,
                    error,
                    final(self)@,
                ),
            },
    {
        match validate(session) {
            Err(error) => {
                return Err(error);
            },
            Ok(()) => {},
        }
        match validate_id(id) {
            Err(error) => {
                return Err(error);
            },
            Ok(()) => {},
        }
        match self.live_epoch(session) {
            Err(error) => {
                return Err(error);
            },
            Ok(_) => {},
        }
        match self.purge_expired(now_ns, remove) {
            Err(error) => {
                return Err(error);
            },
            Ok(()) => {},
        }
        match self.position(session, id) {
            Some(i) => Ok(i),
            None => Err(FileTransferError::NotFound),
        }
    }

    /// The ended transfer of the session that is to go first.
    fn find_oldest(&self, session: &str, keep: &str) -> (r: Option<usize>)
        ensures
            match r {
                Some(i) => is_oldest(self@.transfers, session@, keep@, i as int),
                None => forall|i: int| !is_oldest(self@.transfers, session@, keep@, i),
            },
    {
        let mut best: Option<usize> = None;
        let mut i: usize = 0;
        while i < self.transfers.len()
            invariant
                i <= self.transfers@.len(),
                match best {
                    None => forall|j: int|
                        0 <= j < i ==> !prunable(#[trigger] self.transfers@[j], session@, keep@),
                    Some(b) => {
                        &&& b < i
                        &&& prunable(self.transfers@[b as int], session@, keep@)
                        &&& forall|j: int|
                            0 <= j < i && prunable(#[trigger] self.transfers@[j], session@, keep@)
                                ==> self.transfers@[b as int].terminal_at_ns->0
                                < self.transfers@[j].terminal_at_ns->0 || (
                            self.transfers@[b as int].terminal_at_ns->0
                                == self.transfers@[j].terminal_at_ns->0 && b <= j)
                    },
                },
            decreases self.transfers@.len() - i,
        {
            let t = &self.transfers[i];
            match t.terminal_at_ns {
                Some(at) => {
                    if same_text(t.session.as_str(), session) && !same_text(t.id.as_str(), keep) {
                        let earlier: bool = match best {
                            None => true,
                            Some(b) => match self.transfers[b].terminal_at_ns {
                                Some(first) => at < first,
                                None => true,
                            },
                        };
                        if earlier {
                            best = Some(i);
                        }
                    }
                },
                None => {},
            }
            i += 1;
        }
        best
    }

    /// How many transfers of the session ended without a delivery.
    fn count_terminal(&self, session: &str) -> (r: usize)
        ensures
            r == terminal_count(self@.transfers, session@),
    {
        let mut count: usize = 0;
        let mut i: usize = 0;
        assert(self.transfers@.take(0) =~= Seq::<Transfer>::empty());
        while i < self.transfers.len()
            invariant
                i <= self.transfers@.len(),
                count <= i,
                count == terminal_count(self.transfers@.take(i as int), session@),
            decreases self.transfers@.len() - i,
        {
            assert(self.transfers@.take(i as int + 1).drop_last() =~= self.transfers@.take(i as int));
            let t = &self.transfers[i];
            if t.terminal_at_ns.is_some() && same_text(t.session.as_str(), session) {
                count += 1;
            }
            i += 1;
        }
        assert(self.transfers@.take(self.transfers@.len() as int) =~= self.transfers@);
        count
    }

    /// Drops the surplus of ended transfers of the session.
    fn prune_terminal(&mut self, session: &str, keep: &str)
        ensures
            final(self)@ == (Files {
                transfers: pruned(old(self)@.transfers, session@, keep@),
                ..old(self)@
            }),
            final(self).live == old(self).live,
    {
        let count: usize = self.count_terminal(session);
        let mut excess: usize = if count > MAX_TERMINAL_TRANSFERS_PER_SESSION {
            count - MAX_TERMINAL_TRANSFERS_PER_SESSION
        } else {
            0
        };
        let ghost target = pruned(self@.transfers, session@, keep@);
        while excess > 0
            invariant
                target == pruned(old(self)@.transfers, session@, keep@),
                target == without_oldest(self@.transfers, session@, keep@, excess as nat),
                self@ == (Files { transfers: self@.transfers, ..old(self)@ }),
                self.live == old(self).live,
            decreases excess,
        {
            match self.find_oldest(session, keep) {
                None => {
                    assert(self@.transfers == target);
                    return ;
                },
                Some(i) => {
                    proof {
                        let j = choose|j: int| is_oldest(self@.transfers, session@, keep@, j);
                        assert(is_oldest(self@.transfers, session@, keep@, i as int));
                        lemma_oldest_unique(self@.transfers, session@, keep@, i as int, j);
                    }
                    let _ = self.transfers.remove(i);
                    excess -= 1;
                },
            }
        }
    }

    /// Gives transfer number `i` another record.
    fn replace(&mut self, i: usize, t: Transfer)
        requires
            i < old(self)@.transfers.len(),
        ensures
            final(self)@ == (Files {
                transfers: old(self)@.transfers.update(i as int, t),
                ..old(self)@
            }),
            final(self).live == old(self).live,
    {
        let mut t = t;
        core::mem::swap(&mut self.transfers[i], &mut t);
    }

    /// What became of a transfer.
    pub fn status<R: Fn(&str) -> Result<(), String>>(
        &mut self,
        session: &str,
        id: &str,
        now_ns: u128,
        remove: R,
    ) -> (r: Result<FileTransferStatus, FileTransferError>)
        requires
            old(self).wf(),
            unreachable(old(self)@, session@, id@) is None ==> can_clear(
                old(self)@,
                now_ns,
                remove,
            ),
        ensures
            final(self).wf(),
            looked_up(old(self)@, session@, id@, now_ns, remove, r, final(self)@),
    {
        match self.purge_and_locate(session, id, now_ns, &remove) {
            Err(error) => Err(error),
            Ok(i) => Ok(status(&self.transfers[i])),
        }
    }
}

impl Clone for Transfer {
    fn clone(&self) -> (r: Self)
        ensures
            r == *self,
    {
        Transfer {
            session: self.session.clone(),
            id: self.id.clone(),
            name: self.name.clone(),
            mime: self.mime.clone(),
            size: self.size,
            bytes_received: self.bytes_received,
            state: self.state,
            expires_at_ns: self.expires_at_ns,
            uploading: self.uploading,
            terminal_at_ns: self.terminal_at_ns,
            epoch: self.epoch,
        }
    }
}

/// What a preflight rests on besides the store: whether the protocol accepts the
/// MIME type, what the delivered files of the session take up, the time, and the
/// random bytes that the id is made of.
#[derive(Debug)]
pub struct PreflightFacts {
    pub mime_ok: bool,
    pub durable: Result<Usage, String>,
    pub now_ns: u128,
    pub id_bytes: [u8; 16],
}

/// Why a preflight is refused for what it asks, in the order of the checks.
pub open spec fn bad_request(files: Files, request: FilePreflight, mime_ok: bool) -> Option<
    FileTransferError,
> {
    if !valid_file_name(request.name@) {
        Some(FileTransferError::InvalidName)
    } else if !mime_ok {
        Some(FileTransferError::InvalidMime)
    } else if request.size == 0 || request.size > files.limits.max_file_bytes {
        Some(FileTransferError::FileTooLarge)
    } else {
        None
    }
}

pub open spec fn capped(n: nat) -> u64 {
    if n <= u64::MAX {
        n as u64
    } else {
        u64::MAX
    }
}

/// One more file of `size` bytes would exceed the session's budget: delivered
/// files and reservations count alike.
pub open spec fn over_budget(files: Files, session: Seq<char>, durable: Usage, size: u64) -> bool {
    ||| durable.bytes + capped(reserved_bytes(files.transfers, session)) + size
        > files.limits.max_session_bytes
    ||| durable.objects + capped(reserved_objects(files.transfers, session))
        >= files.limits.max_session_objects
}

/// The id is in use, in whatever session.
pub open spec fn id_taken(transfers: Seq<Transfer>, id: Seq<char>) -> bool {
    exists|i: int| 0 <= i < transfers.len() && (#[trigger] transfers[i]).id@ == id
}

/// `t` is the transfer that an accepted preflight creates.
pub open spec fn created(
    t: Transfer,
    files: Files,
    lease: FileSessionLease,
    request: FilePreflight,
    id: Seq<char>,
    now_ns: u128,
) -> bool {
    &&& t.session@ == lease.spec_session()
    &&& t.id@ == id
    &&& t.name == request.name
    &&& t.mime == request.mime
    &&& t.size == request.size
    &&& t.bytes_received == 0
    &&& t.state == FileTransferState::AwaitingUpload
    &&& t.expires_at_ns == now_ns + files.limits.expiry_ns
    &&& !t.uploading
    &&& t.terminal_at_ns is None
    &&& t.epoch == lease.spec_epoch()
}

/// Where the content of a transfer is uploaded to.
pub open spec fn upload_url_of(session: Seq<char>, id: Seq<char>) -> Seq<char> {
    "/v1/sessions/"@ + session + "/files/"@ + id + "/content"@
}

/// The outcome of a preflight in a store without expired transfers.
pub open spec fn preflighted(
    files: Files,
    lease: FileSessionLease,
    request: FilePreflight,
    facts: PreflightFacts,
    r: Result<Option<FilePreflightResponse>, FileTransferError>,
    after: Files,
) -> bool {
    let session = lease.spec_session();
    let id = crate::text::hex_text(facts.id_bytes@);
    match facts.durable {
        Err(reason) => r == Err::<Option<FilePreflightResponse>, _>(FileTransferError::Io(reason))
            && after == files,
        Ok(durable) => if over_budget(files, session, durable, request.size) {
            &&& r == Err::<Option<FilePreflightResponse>, _>(
                FileTransferError::SessionBudgetExceeded,
            )
            &&& after == files
        } else if id_taken(files.transfers, id) {
            &&& r == Ok::<Option<FilePreflightResponse>, FileTransferError>(None)
            &&& after == files
        } else {
            &&& r matches Ok(Some(response))
            &&& response.transfer_id@ == id
            &&& response.upload_url@ == upload_url_of(session, id)
            &&& response.expires_at == millis((facts.now_ns + files.limits.expiry_ns) as u128)
            &&& after == (Files {
                transfers: files.transfers.push(after.transfers.last()),
                ..files
            })
            &&& created(
                after.transfers.last(),
                files,
                lease,
                request,
                id,
                facts.now_ns,
            )
        },
    }
}

/// Asking for room for a file under a lease ends with `r` and leaves `after`.
pub open spec fn requested<R: Fn(&str) -> Result<(), String>>(
    files: Files,
    lease: FileSessionLease,
    request: FilePreflight,
    facts: PreflightFacts,
    remove: R,
    r: Result<Option<FilePreflightResponse>, FileTransferError>,
    after: Files,
) -> bool {
    match bad_request(files, request, facts.mime_ok) {
        Some(reason) => r == Err::<Option<FilePreflightResponse>, _>(reason) && after == files,
        None => if !files.live.dom().contains(lease.spec_session())
            || files.live[lease.spec_session()] != lease.spec_epoch() {
            &&& r == Err::<Option<FilePreflightResponse>, _>(FileTransferError::SessionNotLive)
            &&& after == files
        } else {
            ||| r matches Err(error) && purge_failed(files, facts.now_ns, remove, error, after)
            ||| cleared(files, facts.now_ns, remove) && preflighted(
                purged(files, facts.now_ns),
                lease,
                request,
                facts,
                r,
                after,
            )
        },
    }
}

impl FileTransferStore {
    /// What the session's unfinished transfers lay claim to.
    fn reservation_usage(&self, session: &str) -> (r: Usage)
        ensures
            r.bytes == capped(reserved_bytes(self@.transfers, session@)),
            r.objects == capped(reserved_objects(self@.transfers, session@)),
    {
        let mut usage = Usage { bytes: 0, objects: 0 };
        let mut i: usize = 0;
        assert(self.transfers@.take(0) =~= Seq::<Transfer>::empty());
        while i < self.transfers.len()
            invariant
                i <= self.transfers@.len(),
                usage.bytes == capped(reserved_bytes(self.transfers@.take(i as int), session@)),
                usage.objects == capped(reserved_objects(self.transfers@.take(i as int), session@)),
            decreases self.transfers@.len() - i,
        {
            assert(self.transfers@.take(i as int + 1).drop_last() =~= self.transfers@.take(i as int));
            let t = &self.transfers[i];
            let ended: bool = t.state == FileTransferState::Delivered || t.state
                == FileTransferState::Failed || t.state == FileTransferState::Cancelled;
            if !ended && same_text(t.session.as_str(), session) {
                usage.bytes = usage.bytes.saturating_add(t.size);
                usage.objects = usage.objects.saturating_add(1);
            }
            i += 1;
        }
        assert(self.transfers@.take(self.transfers@.len() as int) =~= self.transfers@);
        usage
    }

    /// Whether the id is in use.
    fn is_taken(&self, id: &String) -> (r: bool)
        ensures
            r == id_taken(self@.transfers, id@),
    {
        let mut i: usize = 0;
        while i < self.transfers.len()
            invariant
                i <= self.transfers@.len(),
                forall|j: int| 0 <= j < i ==> (#[trigger] self@.transfers[j]).id@ != id@,
            decreases self.transfers@.len() - i,
        {
            if self.transfers[i].id == *id {
                assert(self@.transfers[i as int].id@ == id@);
                return true;
            }
            i += 1;
        }
        false
    }

    /// Reserves room for a file in the incarnation that the lease was taken of.
    /// `None` says that the random id is in use: draw another one.
    pub fn preflight_with_lease<R: Fn(&str) -> Result<(), String>>(
        &mut self,
        lease: &FileSessionLease,
        request: FilePreflight,
        facts: PreflightFacts,
        remove: R,
    ) -> (r: Result<Option<FilePreflightResponse>, FileTransferError>)
        requires
            old(self).wf(),
            facts.now_ns + old(self)@.limits.expiry_ns <= u128::MAX,
            bad_request(old(self)@, request, facts.mime_ok) is None && old(
                self)@.live.dom().contains(lease.spec_session())
                && old(self)@.live[lease.spec_session()] == lease.spec_epoch() ==> can_clear(
                old(self)@,
                facts.now_ns,
                remove,
            ),
        ensures
            final(self).wf(),
            requested(old(self)@, *lease, request, facts, remove, r, final(self)@),
    {
        match validate_name(request.name.as_str()) {
            Err(error) => {
                return Err(error);
            },
            Ok(()) => {},
        }
        if !facts.mime_ok {
            return Err(FileTransferError::InvalidMime);
        }
        if request.size == 0 || request.size > self.limits.max_file_bytes {
            return Err(FileTransferError::FileTooLarge);
        }
        let session = lease.session.as_str();
        match self.live_epoch(session) {
            Err(error) => {
                return Err(error);
            },
            Ok(epoch) => {
                if epoch != lease.epoch {
                    return Err(FileTransferError::SessionNotLive);
                }
            },
        }
        let now_ns: u128 = facts.now_ns;
        match self.purge_expired(now_ns, &remove) {
            Err(error) => {
                return Err(error);
            },
            Ok(()) => {},
        }
        let durable = match facts.durable {
            Err(reason) => {
                return Err(FileTransferError::Io(reason));
            },
            Ok(durable) => durable,
        };
        let reserved = self.reservation_usage(session);
        let bytes: u128 = durable.bytes as u128 + reserved.bytes as u128 + request.size as u128;
        let objects: u128 = durable.objects as u128 + reserved.objects as u128;
        if bytes > self.limits.max_session_bytes as u128 || objects
            >= self.limits.max_session_objects as u128 {
            return Err(FileTransferError::SessionBudgetExceeded);
        }
        let id = hex_of(facts.id_bytes.as_slice());
        if self.is_taken(&id) {
            return Ok(None);
        }
        let expires_at_ns: u128 = now_ns + self.limits.expiry_ns;
        let mut url = "/v1/sessions/".to_owned();
        url.append(session);
        url.append("/files/");
        url.append(id.as_str());
        url.append("/content");
        let response = FilePreflightResponse {
            transfer_id: id.clone(),
            upload_url: url,
            expires_at: timestamp_ms(expires_at_ns),
        };
        let ghost before = self@;
        self.transfers.push(
            Transfer {
                session: lease.session.clone(),
                id,
                name: request.name,
                mime: request.mime,
                size: request.size,
                bytes_received: 0,
                state: FileTransferState::AwaitingUpload,
                expires_at_ns,
                uploading: false,
                terminal_at_ns: None,
                epoch: lease.epoch,
            },
        );
        proof {
            let t = self@.transfers.last();
            crate::text::lemma_hex_text(facts.id_bytes@);
            assert(transfer_ok(t));
            assert forall|s: Seq<char>| #[trigger]
                terminal_count(self@.transfers, s) <= MAX_TERMINAL_TRANSFERS_PER_SESSION by {
                crate::lists::lemma_total_push(
                    before.transfers,
                    t,
                    |t: Transfer|
                        if is_terminal(t, s) {
                            1nat
                        } else {
                            0
                        },
                );
                assert(terminal_count(before.transfers, s) <= MAX_TERMINAL_TRANSFERS_PER_SESSION);
            }
            assert(self@.transfers == before.transfers.push(t));
            assert(created(
                t,
                before,
                *lease,
                request,
                crate::text::hex_text(facts.id_bytes@),
                facts.now_ns,
            ));
        }
        Ok(Some(response))
    }

    /// Reserves room for a file in the session as it is now.
    pub fn preflight<R: Fn(&str) -> Result<(), String>>(
        &mut self,
        session: &str,
        request: FilePreflight,
        facts: PreflightFacts,
        remove: R,
    ) -> (r: Result<Option<FilePreflightResponse>, FileTransferError>)
        requires
            old(self).wf(),
            facts.now_ns + old(self)@.limits.expiry_ns <= u128::MAX,
            crate::registry::valid_name(session@) && old(self)@.live.dom().contains(session@)
                && bad_request(old(self)@, request, facts.mime_ok) is None ==> can_clear(
                old(self)@,
                facts.now_ns,
                remove,
            ),
        ensures
            final(self).wf(),
            if !crate::registry::valid_name(session@) {
                &&& r == Err::<Option<FilePreflightResponse>, _>(FileTransferError::InvalidSession)
                &&& final(self)@ == old(self)@
            } else if !old(self)@.live.dom().contains(session@) {
                &&& r == Err::<Option<FilePreflightResponse>, _>(FileTransferError::SessionNotLive)
                &&& final(self)@ == old(self)@
            } else {
                match bad_request(old(self)@, request, facts.mime_ok) {
                    Some(reason) => r == Err::<Option<FilePreflightResponse>, _>(reason) && final(
                        self)@ == old(self)@,
                    None => {
                        ||| r matches Err(error) && purge_failed(
                            old(self)@,
                            facts.now_ns,
                            remove,
                            error,
                            final(self)@,
                        )
                        ||| cleared(old(self)@, facts.now_ns, remove) && exists|
                            lease: FileSessionLease,
                        |
                            lease.spec_session() == session@ && lease.spec_epoch() == old(
                                self)@.live[session@] && #[trigger] preflighted(
                                purged(old(self)@, facts.now_ns),
                                lease,
                                request,
                                facts,
                                r,
                                final(self)@,
                            )
                    },
                }
            },
    {
        match self.lease(session) {
            Err(error) => Err(error),
            Ok(lease) => self.preflight_with_lease(&lease, request, facts, remove),
        }
    }
}

/// An upload under way: how much of a transfer has been written.
#[derive(Debug)]
pub struct FileUpload {
    session: String,
    id: String,
    path: String,
    written: u64,
    expected: u64,
    epoch: u64,
}

/// The state of an upload.
#[verifier::ext_equal]
pub struct Upload {
    pub session: Seq<char>,
    pub id: Seq<char>,
    pub path: Seq<char>,
    pub written: u64,
    pub expected: u64,
    pub epoch: u64,
}

impl View for FileUpload {
    type V = Upload;

    closed spec fn view(&self) -> Upload {
        Upload {
            session: self.session@,
            id: self.id@,
            path: self.path@,
            written: self.written,
            expected: self.expected,
            epoch: self.epoch,
        }
    }
}

/// The incarnation that the upload was begun in is live.
pub open spec fn is_current(files: Files, upload: Upload) -> bool {
    files.live.dom().contains(upload.session) && files.live[upload.session] == upload.epoch
}

/// The upload's transfer was cancelled meanwhile.
pub open spec fn was_cancelled(files: Files, upload: Upload) -> bool {
    exists|i: int| #[trigger]
        is_transfer(files.transfers, i, upload.session, upload.id) && files.transfers[i].state
            == FileTransferState::Cancelled
}

/// Transfer number `i` is the upload's, and still awaits it.
pub open spec fn awaits(files: Files, upload: Upload, i: int) -> bool {
    is_current(files, upload) && is_transfer(files.transfers, i, upload.session, upload.id)
        && files.transfers[i].state == FileTransferState::AwaitingUpload
}

/// The upload is over without a result: a transfer that still awaits it can be
/// uploaded again, or has failed for good.
pub open spec fn aborted(files: Files, upload: Upload, fail: bool, now_ns: u128, after: Files) -> bool {
    &&& (forall|i: int| !awaits(files, upload, i)) ==> after == files
    &&& forall|i: int| #[trigger]
        awaits(files, upload, i) ==> after == if fail {
            settled(files, i, failed(files.transfers[i], now_ns))
        } else {
            Files {
                transfers: files.transfers.update(
                    i,
                    Transfer { uploading: false, ..files.transfers[i] },
                ),
                ..files
            }
        }
}

/// No two transfers have one id, so a transfer is found in one place only.
proof fn lemma_one_place(files: Files, session: Seq<char>, id: Seq<char>, i: int, j: int)
    requires
        files_ok(files),
        is_transfer(files.transfers, i, session, id),
        is_transfer(files.transfers, j, session, id),
    ensures
        i == j,
{
    let _ = (files.transfers[i], files.transfers[j]);
    if i < j {
        assert(files.transfers[i].id@ != files.transfers[j].id@);
    }
    if j < i {
        assert(files.transfers[j].id@ != files.transfers[i].id@);
    }
}

/// Beginning the upload of a transfer ends with `r` and leaves `after`: a transfer
/// that awaits its upload and has none under way has one then.
pub open spec fn begun<R: Fn(&str) -> Result<(), String>>(
    files: Files,
    session: Seq<char>,
    id: Seq<char>,
    now_ns: u128,
    remove: R,
    r: Result<FileUpload, FileTransferError>,
    after: Files,
) -> bool {
    let mid = purged(files, now_ns);
    match r {
        Ok(upload) => {
            &&& cleared(files, now_ns, remove)
            &&& exists|i: int|
                {
                    &&& #[trigger] found(mid, session, id, i)
                    &&& mid.transfers[i].state == FileTransferState::AwaitingUpload
                    &&& !mid.transfers[i].uploading
                    &&& after == (Files {
                        transfers: mid.transfers.update(
                            i,
                            Transfer { uploading: true, ..mid.transfers[i] },
                        ),
                        ..mid
                    })
                    &&& upload@ == (Upload {
                        session,
                        id,
                        path: staged_path(mid.root, session, id),
                        written: 0,
                        expected: mid.transfers[i].size,
                        epoch: mid.live[session],
                    })
                }
        },
        Err(error) => {
            ||| refused(files, session, id, now_ns, remove, error, after)
            ||| {
                &&& cleared(files, now_ns, remove)
                &&& after == mid
                &&& exists|i: int|
                    {
                        &&& #[trigger] found(mid, session, id, i)
                        &&& error == if mid.transfers[i].state
                            != FileTransferState::AwaitingUpload {
                            FileTransferError::InvalidState
                        } else {
                            FileTransferError::UploadInProgress
                        }
                        &&& mid.transfers[i].state != FileTransferState::AwaitingUpload
                            || mid.transfers[i].uploading
                    }
            }
        },
    }
}

/// A transfer was cancelled if it could be, and what was staged of it was removed.
pub open spec fn cancelling<R: Fn(&str) -> Result<(), String>>(
    files: Files,
    session: Seq<char>,
    id: Seq<char>,
    now_ns: u128,
    remove: R,
    r: Result<(), FileTransferError>,
    after: Files,
) -> bool {
    let mid = purged(files, now_ns);
    ||| r is Err && refused(files, session, id, now_ns, remove, r->Err_0, after)
    ||| {
        &&& cleared(files, now_ns, remove)
        &&& exists|i: int|
            {
                &&& #[trigger] found(mid, session, id, i)
                &&& if is_cancellable(mid.transfers[i]) {
                    &&& after == settled(mid, i, cancelled(mid.transfers[i], now_ns))
                    &&& removed(remove, staged_path(mid.root, session, id), r)
                } else {
                    &&& r == Err::<(), _>(FileTransferError::NotCancellable)
                    &&& after == mid
                }
            }
    }
}

impl FileTransferStore {
    /// Begins the upload of a transfer. Where its file cannot be created, the
    /// upload is to be abandoned.
    pub fn begin_upload<R: Fn(&str) -> Result<(), String>>(
        &mut self,
        session: &str,
        id: &str,
        now_ns: u128,
        remove: R,
    ) -> (r: Result<FileUpload, FileTransferError>)
        requires
            old(self).wf(),
            unreachable(old(self)@, session@, id@) is None ==> can_clear(
                old(self)@,
                now_ns,
                remove,
            ),
        ensures
            final(self).wf(),
            begun(old(self)@, session@, id@, now_ns, remove, r, final(self)@),
    {
        let i: usize = match self.purge_and_locate(session, id, now_ns, &remove) {
            Err(error) => {
                return Err(error);
            },
            Ok(i) => i,
        };
        let ghost mid = self@;
        assert(found(mid, session@, id@, i as int));
        let mut t = self.transfers[i].clone();
        if t.state != FileTransferState::AwaitingUpload {
            return Err(FileTransferError::InvalidState);
        }
        if t.uploading {
            return Err(FileTransferError::UploadInProgress);
        }
        let upload = FileUpload {
            session: session.to_owned(),
            id: id.to_owned(),
            path: self.staging_path(session, id),
            written: 0,
            expected: t.size,
            epoch: t.epoch,
        };
        t.uploading = true;
        proof {
            let _ = mid.transfers[i as int];
            lemma_updated(mid, i as int, t);
        }
        self.replace(i, t);
        Ok(upload)
    }

    /// Cancels a transfer that is not being delivered yet. An upload that is
    /// under way does not prevent it: the upload finds out.
    pub fn cancel<R: Fn(&str) -> Result<(), String>>(
        &mut self,
        session: &str,
        id: &str,
        now_ns: u128,
        remove: R,
    ) -> (r: Result<(), FileTransferError>)
        requires
            old(self).wf(),
            unreachable(old(self)@, session@, id@) is None ==> can_clear(
                old(self)@,
                now_ns,
                remove,
            ),
            forall|i: int| #[trigger]
                found(purged(old(self)@, now_ns), session@, id@, i) && is_cancellable(
                    purged(old(self)@, now_ns).transfers[i],
                ) && cleared(old(self)@, now_ns, remove) ==> crate::paths::takes_path(
                    remove,
                    staged_path(old(self)@.root, session@, id@),
                ),
        ensures
            final(self).wf(),
            cancelling(old(self)@, session@, id@, now_ns, remove, r, final(self)@),
    {
        let i: usize = match self.purge_and_locate(session, id, now_ns, &remove) {
            Err(error) => {
                return Err(error);
            },
            Ok(i) => i,
        };
        let ghost mid = self@;
        assert(found(mid, session@, id@, i as int));
        let mut t = self.transfers[i].clone();
        if t.state != FileTransferState::AwaitingUpload && t.state != FileTransferState::Queued {
            return Err(FileTransferError::NotCancellable);
        }
        t.state = FileTransferState::Cancelled;
        t.uploading = false;
        t.terminal_at_ns = Some(now_ns);
        proof {
            let _ = mid.transfers[i as int];
            lemma_settled(mid, i as int, t);
        }
        self.replace(i, t);
        self.prune_terminal(session, id);
        proof {
            assert(cancelled(mid.transfers[i as int], now_ns) == t);
            lemma_pruned_by_text(mid, i as int, t, session@, id@);
        }
        self.remove_staged(session, id, &remove)
    }

    /// Removes what there may be of an upload.
    fn remove_staged<R: Fn(&str) -> Result<(), String>>(
        &self,
        session: &str,
        id: &str,
        remove: &R,
    ) -> (r: Result<(), FileTransferError>)
        requires
            crate::paths::takes_path(*remove, staged_path(self@.root, session@, id@)),
        ensures
            removed(*remove, staged_path(self@.root, session@, id@), r),
    {
        let path = self.staging_path(session, id);
        let outcome = remove(path.as_str());
        assert(removal(*remove, staged_path(self@.root, session@, id@), outcome));
        match outcome {
            Ok(nothing) => {
                assert(nothing == ());
                Ok(())
            },
            Err(reason) => Err(FileTransferError::Io(reason)),
        }
    }

    /// Marks a queued transfer as failed whose delivery could not be started.
    pub fn fail_queued_materialization<R: Fn(&str) -> Result<(), String>>(
        &mut self,
        session: &str,
        id: &str,
        now_ns: u128,
        remove: R,
    ) -> (r: Result<(), FileTransferError>)
        requires
            old(self).wf(),
            forall|i: int| #[trigger]
                found(old(self)@, session@, id@, i) && old(self)@.transfers[i].state
                    == FileTransferState::Queued ==> crate::paths::takes_path(
                    remove,
                    staged_path(old(self)@.root, session@, id@),
                ),
        ensures
            final(self).wf(),
            queue_failed(old(self)@, session@, id@, now_ns, remove, r, final(self)@),
    {
        let i: usize = match self.locate(session, id) {
            Err(error) => {
                return Err(error);
            },
            Ok(i) => i,
        };
        let ghost before = self@;
        proof {
            assert(is_transfer(before.transfers, i as int, session@, id@));
            assert forall|j: int| #[trigger]
                is_transfer(before.transfers, j, session@, id@) implies j == i by {
                lemma_one_place(before, session@, id@, i as int, j);
            }
        }
        let mut t = self.transfers[i].clone();
        if t.state != FileTransferState::Queued {
            return Err(FileTransferError::InvalidState);
        }
        t.state = FileTransferState::Failed;
        t.terminal_at_ns = Some(now_ns);
        proof {
            let _ = before.transfers[i as int];
            lemma_settled(before, i as int, t);
        }
        self.replace(i, t);
        self.prune_terminal(session, id);
        proof {
            assert(failed(before.transfers[i as int], now_ns) == t);
            lemma_pruned_by_text(before, i as int, t, session@, id@);
        }
        self.remove_staged(session, id, &remove)
    }
}

/// Removing `path` ended like this.
pub open spec fn removed<R: Fn(&str) -> Result<(), String>>(
    remove: R,
    path: Seq<char>,
    r: Result<(), FileTransferError>,
) -> bool {
    match r {
        Ok(()) => removal(remove, path, Ok(())),
        Err(FileTransferError::Io(reason)) => removal(remove, path, Err(reason)),
        Err(_) => false,
    }
}

proof fn lemma_pruned_by_text(files: Files, i: int, t: Transfer, session: Seq<char>, id: Seq<char>)
    requires
        t.session@ == session,
        t.id@ == id,
    ensures
        settled(files, i, t) == (Files {
            transfers: pruned(files.transfers.update(i, t), session, id),
            ..files
        }),
{
}

/// What is handed over for a delivery: move the upload `staged` from the staging
/// directory to `name` in a new directory `id` of the drop directory, if it is a
/// regular file of the expected size.
#[derive(Debug)]
pub struct Delivery {
    pub drop_dir: String,
    pub staging_dir: String,
    pub id: String,
    pub name: String,
    pub expected: u64,
}

/// `delivery` is the one for this transfer.
pub open spec fn delivery_of(delivery: Delivery, files: Files, t: Transfer) -> bool {
    &&& delivery.drop_dir@ == drop_path(files.root, t.session@)
    &&& delivery.staging_dir@ == staging_dir_path(files.root, t.session@)
    &&& delivery.id@ == t.id@
    &&& delivery.name@ == t.name@
    &&& delivery.expected == t.size
}

/// `deliver` was given the delivery of this transfer and answered `outcome`.
pub open spec fn attempted<D: FnOnce(&Delivery) -> Result<(), String>>(
    deliver: D,
    files: Files,
    t: Transfer,
    outcome: Result<(), String>,
) -> bool {
    exists|delivery: Delivery| #[trigger]
        delivery_of(delivery, files, t) && call_ensures(deliver, (&delivery,), outcome)
}

/// `deliver` can be given the delivery of this transfer.
pub open spec fn can_deliver<D: FnOnce(&Delivery) -> Result<(), String>>(
    deliver: D,
    files: Files,
    t: Transfer,
) -> bool {
    forall|delivery: &Delivery|
        delivery_of(*delivery, files, t) ==> #[trigger] call_requires(deliver, (delivery,))
}

pub open spec fn delivered(t: Transfer) -> Transfer {
    Transfer { state: FileTransferState::Delivered, ..t }
}

/// Marking a queued transfer as failed ends with `r` and leaves `after`.
pub open spec fn queue_failed<R: Fn(&str) -> Result<(), String>>(
    files: Files,
    session: Seq<char>,
    id: Seq<char>,
    now_ns: u128,
    remove: R,
    r: Result<(), FileTransferError>,
    after: Files,
) -> bool {
    match unreachable(files, session, id) {
        Some(reason) => r == Err::<(), _>(reason) && after == files,
        None => {
            &&& (forall|i: int| !is_transfer(files.transfers, i, session, id)) ==> r == Err::<
                (),
                _,
            >(FileTransferError::NotFound) && after == files
            &&& forall|i: int| #[trigger]
                is_transfer(files.transfers, i, session, id) ==> if files.transfers[i].state
                    == FileTransferState::Queued {
                    &&& after == settled(files, i, failed(files.transfers[i], now_ns))
                    &&& removed(remove, staged_path(files.root, session, id), r)
                } else {
                    &&& r == Err::<(), _>(FileTransferError::InvalidState)
                    &&& after == files
                }
        },
    }
}

/// Delivering a queued transfer ends with `r` and leaves `after`.
pub open spec fn materialized<
    D: FnOnce(&Delivery) -> Result<(), String>,
    R: Fn(&str) -> Result<(), String>,
>(
    files: Files,
    session: Seq<char>,
    id: Seq<char>,
    now_ns: u128,
    deliver: D,
    remove: R,
    r: Result<FileTransferStatus, FileTransferError>,
    after: Files,
) -> bool {
    match unreachable(files, session, id) {
        Some(reason) => r == Err::<FileTransferStatus, _>(reason) && after == files,
        None => {
            &&& (forall|i: int| !is_transfer(files.transfers, i, session, id)) ==> r == Err::<
                FileTransferStatus,
                _,
            >(FileTransferError::NotFound) && after == files
            &&& forall|i: int| #[trigger]
                is_transfer(files.transfers, i, session, id) ==> {
                    let t = files.transfers[i];
                    if t.state != FileTransferState::Queued {
                        &&& r == Err::<FileTransferStatus, _>(FileTransferError::InvalidState)
                        &&& after == files
                    } else {
                        match r {
                            Ok(status) => {
                                &&& attempted(deliver, files, t, Ok(()))
                                &&& after == settled(files, i, delivered(t))
                                &&& describes(status, delivered(t))
                            },
                            Err(FileTransferError::Io(reason)) => {
                                &&& attempted(deliver, files, t, Err(reason))
                                &&& after == settled(files, i, failed(t, now_ns))
                                &&& exists|outcome: Result<(), String>| #[trigger]
                                    removal(
                                        remove,
                                        staged_path(files.root, session, id),
                                        outcome,
                                    )
                            },
                            Err(_) => false,
                        }
                    }
                }
        },
    }
}

impl FileTransferStore {
    /// Delivers a queued transfer to the guest.
    pub fn materialize<
        D: FnOnce(&Delivery) -> Result<(), String>,
        R: Fn(&str) -> Result<(), String>,
    >(&mut self, session: &str, id: &str, now_ns: u128, deliver: D, remove: R) -> (r: Result<
        FileTransferStatus,
        FileTransferError,
    >)
        requires
            old(self).wf(),
            forall|i: int| #[trigger]
                found(old(self)@, session@, id@, i) && old(self)@.transfers[i].state
                    == FileTransferState::Queued ==> can_deliver(
                    deliver,
                    old(self)@,
                    old(self)@.transfers[i],
                ),
            forall|i: int, reason: String|
                #![trigger found(old(self)@, session@, id@, i), attempted(
                    deliver,
                    old(self)@,
                    old(self)@.transfers[i],
                    Err(reason),
                )]
                found(old(self)@, session@, id@, i) && old(self)@.transfers[i].state
                    == FileTransferState::Queued && attempted(
                    deliver,
                    old(self)@,
                    old(self)@.transfers[i],
                    Err(reason),
                ) ==> crate::paths::takes_path(
                    remove,
                    staged_path(old(self)@.root, session@, id@),
                ),
        ensures
            final(self).wf(),
            materialized(
                old(self)@,
                session@,
                id@,
                now_ns,
                deliver,
                remove,
                r,
                final(self)@,
            ),
    {
        let i: usize = match self.locate(session, id) {
            Err(error) => {
                return Err(error);
            },
            Ok(i) => i,
        };
        let ghost before = self@;
        proof {
            assert(is_transfer(before.transfers, i as int, session@, id@));
            assert forall|j: int| #[trigger]
                is_transfer(before.transfers, j, session@, id@) implies j == i by {
                lemma_one_place(before, session@, id@, i as int, j);
            }
        }
        let mut t = self.transfers[i].clone();
        let ghost queued = t;
        if t.state != FileTransferState::Queued {
            return Err(FileTransferError::InvalidState);
        }
        let delivery = Delivery {
            drop_dir: self.drop_dir(session),
            staging_dir: self.staging_dir(session),
            id: t.id.clone(),
            name: t.name.clone(),
            expected: t.size,
        };
        assert(delivery_of(delivery, before, queued));
        let outcome = deliver(&delivery);
        assert(attempted(deliver, before, queued, outcome));
        proof {
            let _ = before.transfers[i as int];
        }
        match outcome {
            Ok(nothing) => {
                assert(nothing == ());
                t.state = FileTransferState::Delivered;
                let report = status(&t);
                proof {
                    lemma_settled(before, i as int, t);
                    lemma_pruned_by_text(before, i as int, t, session@, id@);
                    assert(delivered(queued) == t);
                }
                self.replace(i, t);
                self.prune_terminal(session, id);
                Ok(report)
            },
            Err(reason) => {
                t.state = FileTransferState::Failed;
                t.terminal_at_ns = Some(now_ns);
                proof {
                    lemma_settled(before, i as int, t);
                    lemma_pruned_by_text(before, i as int, t, session@, id@);
                    assert(failed(queued, now_ns) == t);
                }
                self.replace(i, t);
                self.prune_terminal(session, id);
                let path = self.staging_path(session, id);
                let gone = remove(path.as_str());
                assert(removal(remove, staged_path(before.root, session@, id@), gone));
                Err(FileTransferError::Io(reason))
            },
        }
    }

    /// Takes the result of a complete upload.
    fn complete_upload(
        &mut self,
        session: &str,
        id: &str,
        epoch: u64,
        written: u64,
        now_ns: u128,
    ) -> (r: Result<FileTransferStatus, FileTransferError>)
        requires
            old(self).wf(),
        ensures
            final(self).wf(),
            completed(
                old(self)@,
                session@,
                id@,
                epoch,
                written,
                now_ns,
                r,
                final(self)@,
            ),
    {
        match self.live_epoch(session) {
            Err(error) => {
                return Err(error);
            },
            Ok(current) => {
                if current != epoch {
                    return Err(FileTransferError::SessionNotLive);
                }
            },
        }
        let i: usize = match self.position(session, id) {
            None => {
                return Err(FileTransferError::NotFound);
            },
            Some(i) => i,
        };
        let ghost before = self@;
        proof {
            assert(is_transfer(before.transfers, i as int, session@, id@));
            assert forall|j: int| #[trigger]
                is_transfer(before.transfers, j, session@, id@) implies j == i by {
                lemma_one_place(before, session@, id@, i as int, j);
            }
            let _ = before.transfers[i as int];
        }
        let mut t = self.transfers[i].clone();
        if t.state == FileTransferState::Cancelled {
            return Err(FileTransferError::Cancelled);
        }
        t.uploading = false;
        if written != t.size {
            t.state = FileTransferState::Failed;
            t.terminal_at_ns = Some(now_ns);
            proof {
                lemma_settled(before, i as int, t);
                lemma_pruned_by_text(before, i as int, t, session@, id@);
                assert(failed(before.transfers[i as int], now_ns) == t);
            }
            self.replace(i, t);
            self.prune_terminal(session, id);
            return Err(FileTransferError::SizeMismatch);
        }
        t.bytes_received = written;
        t.state = FileTransferState::Queued;
        let report = status(&t);
        proof {
            lemma_updated(before, i as int, t);
            assert(queued(before.transfers[i as int]) == t);
        }
        self.replace(i, t);
        Ok(report)
    }

    /// Gives up an upload.
    fn abort_upload(&mut self, session: &str, id: &str, epoch: u64, fail: bool, now_ns: u128)
        requires
            old(self).wf(),
        ensures
            final(self).wf(),
            forall|upload: Upload|
                upload.session == session@ && upload.id == id@ && upload.epoch == epoch
                    ==> #[trigger] aborted(old(self)@, upload, fail, now_ns, final(self)@),
    {
        match self.live_epoch(session) {
            Err(_) => {
                return ;
            },
            Ok(current) => {
                if current != epoch {
                    return ;
                }
            },
        }
        let i: usize = match self.position(session, id) {
            None => {
                return ;
            },
            Some(i) => i,
        };
        let ghost before = self@;
        proof {
            assert(is_transfer(before.transfers, i as int, session@, id@));
            assert forall|j: int| #[trigger]
                is_transfer(before.transfers, j, session@, id@) implies j == i by {
                lemma_one_place(before, session@, id@, i as int, j);
            }
            let _ = before.transfers[i as int];
        }
        let mut t = self.transfers[i].clone();
        if t.state != FileTransferState::AwaitingUpload {
            return ;
        }
        t.uploading = false;
        if fail {
            t.state = FileTransferState::Failed;
            t.terminal_at_ns = Some(now_ns);
            proof {
                lemma_settled(before, i as int, t);
                lemma_pruned_by_text(before, i as int, t, session@, id@);
                assert(failed(before.transfers[i as int], now_ns) == t);
            }
            self.replace(i, t);
            self.prune_terminal(session, id);
        } else {
            proof {
                lemma_updated(before, i as int, t);
            }
            self.replace(i, t);
        }
        proof {
            assert forall|upload: Upload|
                upload.session == session@ && upload.id == id@ && upload.epoch
                    == epoch implies #[trigger] aborted(before, upload, fail, now_ns, self@) by {
                assert(awaits(before, upload, i as int));
            }
        }
    }
}

/// Writing the next piece of an upload ends with `r` and leaves the store and the
/// upload as `after` and `next`.
pub open spec fn chunk_written<W: FnOnce(&[u8]) -> Result<(), String>>(
    files: Files,
    upload: Upload,
    chunk: &[u8],
    now_ns: u128,
    write: W,
    r: Result<(), FileTransferError>,
    after: Files,
    next: Upload,
) -> bool {
    if !is_current(files, upload) {
        &&& r == Err::<(), _>(FileTransferError::SessionNotLive)
        &&& after == files
        &&& next == upload
    } else if was_cancelled(files, upload) {
        &&& r == Err::<(), _>(FileTransferError::Cancelled)
        &&& after == files
        &&& next == upload
    } else if upload.written + chunk@.len() > upload.expected {
        &&& r == Err::<(), _>(FileTransferError::SizeMismatch)
        &&& aborted(files, upload, true, now_ns, after)
        &&& next == upload
    } else {
        &&& after == files
        &&& match r {
            Ok(()) => call_ensures(write, (chunk,), Ok(())) && next == (Upload {
                written: (upload.written + chunk@.len()) as u64,
                ..upload
            }),
            Err(FileTransferError::Io(reason)) => call_ensures(write, (chunk,), Err(reason)) && next
                == upload,
            Err(_) => false,
        }
    }
}

/// Ending an upload ends with `r` and leaves `after`.
pub open spec fn upload_finished<S: FnOnce() -> Result<(), String>>(
    files: Files,
    upload: Upload,
    now_ns: u128,
    sync: S,
    r: Result<FileTransferStatus, FileTransferError>,
    after: Files,
) -> bool {
    if is_current(files, upload) && was_cancelled(files, upload) {
        &&& r == Err::<FileTransferStatus, _>(FileTransferError::Cancelled)
        &&& after == files
    } else if upload.written != upload.expected {
        &&& r == Err::<FileTransferStatus, _>(FileTransferError::SizeMismatch)
        &&& aborted(files, upload, true, now_ns, after)
    } else {
        ||| r matches Err(FileTransferError::Io(reason)) && call_ensures(sync, (), Err(reason))
            && aborted(files, upload, false, now_ns, after)
        ||| call_ensures(sync, (), Ok(())) && completed(
            files,
            upload.session,
            upload.id,
            upload.epoch,
            upload.written,
            now_ns,
            r,
            after,
        )
    }
}

/// A transfer that was uploaded and waits for its delivery.
pub open spec fn queued(t: Transfer) -> Transfer {
    Transfer {
        state: FileTransferState::Queued,
        uploading: false,
        bytes_received: t.size,
        ..t
    }
}

/// The outcome of completing an upload of `written` bytes.
pub open spec fn completed(
    files: Files,
    session: Seq<char>,
    id: Seq<char>,
    epoch: u64,
    written: u64,
    now_ns: u128,
    r: Result<FileTransferStatus, FileTransferError>,
    after: Files,
) -> bool {
    if !files.live.dom().contains(session) || files.live[session] != epoch {
        r == Err::<FileTransferStatus, _>(FileTransferError::SessionNotLive) && after == files
    } else {
        &&& (forall|i: int| !is_transfer(files.transfers, i, session, id)) ==> r == Err::<
            FileTransferStatus,
            _,
        >(FileTransferError::NotFound) && after == files
        &&& forall|i: int| #[trigger]
            is_transfer(files.transfers, i, session, id) ==> {
                let t = files.transfers[i];
                if t.state == FileTransferState::Cancelled {
                    r == Err::<FileTransferStatus, _>(FileTransferError::Cancelled) && after == files
                } else if written != t.size {
                    &&& r == Err::<FileTransferStatus, _>(FileTransferError::SizeMismatch)
                    &&& after == settled(files, i, failed(t, now_ns))
                } else {
                    &&& r matches Ok(status)
                    &&& describes(status, queued(t))
                    &&& after == (Files { transfers: files.transfers.update(i, queued(t)), ..files })
                }
            }
    }
}

impl FileUpload {
    /// Where the upload is written.
    pub fn path(&self) -> (r: &String)
        ensures
            r@ == self@.path,
    {
        &self.path
    }

    /// The upload may go on: its session is live and nobody cancelled it.
    fn ensure_live(&self, store: &FileTransferStore) -> (r: Result<(), FileTransferError>)
        requires
            store.wf(),
        ensures
            r == (if !is_current(store@, self@) {
                Err(FileTransferError::SessionNotLive)
            } else if was_cancelled(store@, self@) {
                Err(FileTransferError::Cancelled)
            } else {
                Ok(())
            }),
    {
        match store.live_epoch(self.session.as_str()) {
            Err(error) => {
                return Err(error);
            },
            Ok(current) => {
                if current != self.epoch {
                    return Err(FileTransferError::SessionNotLive);
                }
            },
        }
        match store.position(self.session.as_str(), self.id.as_str()) {
            None => Ok(()),
            Some(i) => {
                proof {
                    assert(is_transfer(store@.transfers, i as int, self@.session, self@.id));
                    assert forall|j: int| #[trigger]
                        is_transfer(store@.transfers, j, self@.session, self@.id) implies j
                        == i by {
                        lemma_one_place(store@, self@.session, self@.id, i as int, j);
                    }
                }
                if store.transfers[i].state == FileTransferState::Cancelled {
                    Err(FileTransferError::Cancelled)
                } else {
                    Ok(())
                }
            },
        }
    }

    /// Writes the next piece. More than was announced fails the transfer.
    pub fn write_chunk<W: FnOnce(&[u8]) -> Result<(), String>>(
        &mut self,
        store: &mut FileTransferStore,
        chunk: &[u8],
        now_ns: u128,
        write: W,
    ) -> (r: Result<(), FileTransferError>)
        requires
            old(store).wf(),
            old(self)@.written <= old(self)@.expected,
            is_current(old(store)@, old(self)@) && !was_cancelled(old(store)@, old(self)@) && old(
                self)@.written + chunk@.len() <= old(self)@.expected ==> call_requires(
                write,
                (chunk,),
            ),
        ensures
            final(store).wf(),
            final(self)@.written <= final(self)@.expected,
            chunk_written(
                old(store)@,
                old(self)@,
                chunk,
                now_ns,
                write,
                r,
                final(store)@,
                final(self)@,
            ),
    {
        match self.ensure_live(store) {
            Err(error) => {
                return Err(error);
            },
            Ok(()) => {},
        }
        let room: u64 = self.expected - self.written;
        let length: usize = chunk.len();
        if length as u128 > room as u128 {
            store.abort_upload(self.session.as_str(), self.id.as_str(), self.epoch, true, now_ns);
            return Err(FileTransferError::SizeMismatch);
        }
        match write(chunk) {
            Ok(nothing) => {
                assert(nothing == ());
                self.written = self.written + length as u64;
                Ok(())
            },
            Err(reason) => Err(FileTransferError::Io(reason)),
        }
    }

    /// Ends the upload. A short one fails the transfer; a complete one is queued
    /// for delivery once `sync` has made it durable. Where that fails, the
    /// transfer is left to another try. After an error, what was written is to be
    /// removed.
    pub fn finish<S: FnOnce() -> Result<(), String>>(
        self,
        store: &mut FileTransferStore,
        now_ns: u128,
        sync: S,
    ) -> (r: Result<FileTransferStatus, FileTransferError>)
        requires
            old(store).wf(),
            !(is_current(old(store)@, self@) && was_cancelled(old(store)@, self@))
                && self@.written == self@.expected ==> call_requires(sync, ()),
        ensures
            final(store).wf(),
            upload_finished(old(store)@, self@, now_ns, sync, r, final(store)@),
    {
        match self.ensure_live(store) {
            Err(FileTransferError::Cancelled) => {
                return Err(FileTransferError::Cancelled);
            },
            _ => {},
        }
        if self.written != self.expected {
            store.abort_upload(self.session.as_str(), self.id.as_str(), self.epoch, true, now_ns);
            return Err(FileTransferError::SizeMismatch);
        }
        match sync() {
            Ok(nothing) => {
                assert(nothing == ());
            },
            Err(reason) => {
                store.abort_upload(
                    self.session.as_str(),
                    self.id.as_str(),
                    self.epoch,
                    false,
                    now_ns,
                );
                return Err(FileTransferError::Io(reason));
            },
        }
        store.complete_upload(
            self.session.as_str(),
            self.id.as_str(),
            self.epoch,
            self.written,
            now_ns,
        )
    }

    /// Lets go of an unfinished upload: its transfer is left to another try, and
    /// what was written is to be removed.
    pub fn abandon(self, store: &mut FileTransferStore, now_ns: u128)
        requires
            old(store).wf(),
        ensures
            final(store).wf(),
            aborted(old(store)@, self@, false, now_ns, final(store)@),
    {
        store.abort_upload(self.session.as_str(), self.id.as_str(), self.epoch, false, now_ns);
    }
}

/// A file in a transfer's drop directory: its name if that is text, whether it
/// is a regular file (a link is not), and the disk blocks of 512 bytes it takes.
#[derive(Debug)]
pub struct DropFile {
    pub name: Option<String>,
    pub is_file: bool,
    pub blocks: u64,
}

/// An entry of a session's drop directory: its name if that is text, whether it
/// is a directory (a link is not), and what it holds.
#[derive(Debug)]
pub struct DropEntry {
    pub name: Option<String>,
    pub is_dir: bool,
    pub files: Vec<DropFile>,
}

/// The directory of a transfer: nothing else in a drop directory counts.
pub open spec fn is_transfer_dir(entry: DropEntry) -> bool {
    entry.is_dir && entry.name is Some && crate::protocol::valid_id(entry.name->0@)
}

/// A delivered file: nothing else in a transfer's directory counts.
pub open spec fn is_delivered_file(file: DropFile) -> bool {
    file.is_file && file.name is Some && valid_file_name(file.name->0@)
}

/// What a file takes up on disk.
pub open spec fn allocated(file: DropFile) -> nat {
    capped((file.blocks * 512) as nat) as nat
}

pub open spec fn file_bytes(files: Seq<DropFile>) -> nat {
    crate::lists::total(
        files,
        |file: DropFile|
            if is_delivered_file(file) {
                allocated(file)
            } else {
                0
            },
    )
}

pub open spec fn file_objects(files: Seq<DropFile>) -> nat {
    crate::lists::total(
        files,
        |file: DropFile|
            if is_delivered_file(file) {
                1nat
            } else {
                0
            },
    )
}

pub open spec fn durable_bytes(entries: Seq<DropEntry>) -> nat {
    crate::lists::total(
        entries,
        |entry: DropEntry|
            if is_transfer_dir(entry) {
                file_bytes(entry.files@)
            } else {
                0
            },
    )
}

pub open spec fn durable_objects(entries: Seq<DropEntry>) -> nat {
    crate::lists::total(
        entries,
        |entry: DropEntry|
            if is_transfer_dir(entry) {
                file_objects(entry.files@)
            } else {
                0
            },
    )
}

/// Whether an entry of a drop directory is to be looked into.
pub fn counts_as_transfer_dir(name: &Option<String>, is_dir: bool) -> (r: bool)
    ensures
        r == (is_dir && *name is Some && crate::protocol::valid_id((*name)->0@)),
{
    match name {
        Some(name) => is_dir && validate_id(name.as_str()).is_ok(),
        None => false,
    }
}

fn counts_as_delivered_file(file: &DropFile) -> (r: bool)
    ensures
        r == is_delivered_file(*file),
{
    match &file.name {
        Some(name) => file.is_file && validate_name(name.as_str()).is_ok(),
        None => false,
    }
}

/// The disk space that a session's delivered files take, and how many they are.
/// Allocated blocks count, not the length of the content.
pub fn durable_usage(entries: &Vec<DropEntry>) -> (r: Usage)
    ensures
        r.bytes == capped(durable_bytes(entries@)),
        r.objects == capped(durable_objects(entries@)),
{
    let mut usage = Usage { bytes: 0, objects: 0 };
    let mut i: usize = 0;
    assert(entries@.take(0) =~= Seq::<DropEntry>::empty());
    while i < entries.len()
        invariant
            i <= entries@.len(),
            usage.bytes == capped(durable_bytes(entries@.take(i as int))),
            usage.objects == capped(durable_objects(entries@.take(i as int))),
        decreases entries@.len() - i,
    {
        let entry = &entries[i];
        assert(entries@.take(i as int + 1).drop_last() =~= entries@.take(i as int));
        if counts_as_transfer_dir(&entry.name, entry.is_dir) {
            let ghost bytes = durable_bytes(entries@.take(i as int));
            let ghost objects = durable_objects(entries@.take(i as int));
            let mut j: usize = 0;
            assert(entry.files@.take(0) =~= Seq::<DropFile>::empty());
            while j < entry.files.len()
                invariant
                    j <= entry.files@.len(),
                    usage.bytes == capped(bytes + file_bytes(entry.files@.take(j as int))),
                    usage.objects == capped(objects + file_objects(entry.files@.take(j as int))),
                decreases entry.files@.len() - j,
            {
                let file = &entry.files[j];
                assert(entry.files@.take(j as int + 1).drop_last() =~= entry.files@.take(j as int));
                if counts_as_delivered_file(file) {
                    let wide: u128 = file.blocks as u128 * 512;
                    let size: u64 = if wide <= u64::MAX as u128 {
                        wide as u64
                    } else {
                        u64::MAX
                    };
                    usage.bytes = usage.bytes.saturating_add(size);
                    usage.objects = usage.objects.saturating_add(1);
                }
                j += 1;
            }
            assert(entry.files@.take(entry.files@.len() as int) =~= entry.files@);
        }
        i += 1;
    }
    assert(entries@.take(entries@.len() as int) =~= entries@);
    usage
}

/// Whether an upload can be delivered: a regular file of exactly the expected
/// size. `mode` and `size` are what the file system says of the open file.
pub fn is_deliverable(mode: u32, size: i64, expected: u64) -> (r: bool)
    ensures
        r == (mode & 0o170000u32 == 0o100000u32 && size == expected),
{
    mode & 0o170000u32 == 0o100000u32 && size >= 0 && size as u64 == expected
}

/// A transfer gives its room back when it ends without a delivery: what the
/// session's transfers lay claim to shrinks by at least its size.
pub proof fn law_ended_transfer_releases_its_reservation(files: Files, i: int, now_ns: u128)
    requires
        files_ok(files),
        0 <= i < files.transfers.len(),
        reserves(files.transfers[i], files.transfers[i].session@),
    ensures
        ({
            let t = files.transfers[i];
            let session = t.session@;
            &&& reserved_bytes(settled(files, i, cancelled(t, now_ns)).transfers, session) + t.size
                <= reserved_bytes(files.transfers, session)
            &&& reserved_objects(settled(files, i, cancelled(t, now_ns)).transfers, session) + 1
                <= reserved_objects(files.transfers, session)
            &&& reserved_bytes(settled(files, i, failed(t, now_ns)).transfers, session) + t.size
                <= reserved_bytes(files.transfers, session)
            &&& reserved_objects(settled(files, i, failed(t, now_ns)).transfers, session) + 1
                <= reserved_objects(files.transfers, session)
        }),
{
    lemma_settled_reserves_less(files, i, cancelled(files.transfers[i], now_ns));
    lemma_settled_reserves_less(files, i, failed(files.transfers[i], now_ns));
}

proof fn lemma_settled_reserves_less(files: Files, i: int, next: Transfer)
    requires
        0 <= i < files.transfers.len(),
        reserves(files.transfers[i], files.transfers[i].session@),
        next.session == files.transfers[i].session,
        !reserves(next, next.session@),
    ensures
        reserved_bytes(settled(files, i, next).transfers, next.session@) + files.transfers[i].size
            <= reserved_bytes(files.transfers, next.session@),
        reserved_objects(settled(files, i, next).transfers, next.session@) + 1 <= reserved_objects(
            files.transfers,
            next.session@,
        ),
{
    let session = next.session@;
    let bytes = |t: Transfer|
        if reserves(t, session) {
            t.size as nat
        } else {
            0
        };
    let objects = |t: Transfer|
        if reserves(t, session) {
            1nat
        } else {
            0
        };
    crate::lists::lemma_total_update(files.transfers, i, next, bytes);
    crate::lists::lemma_total_update(files.transfers, i, next, objects);
    let updated = files.transfers.update(i, next);
    lemma_without_oldest_weighs_less(
        updated,
        session,
        next.id@,
        (terminal_count(updated, session) - MAX_TERMINAL_TRANSFERS_PER_SESSION) as nat,
        bytes,
    );
    lemma_without_oldest_weighs_less(
        updated,
        session,
        next.id@,
        (terminal_count(updated, session) - MAX_TERMINAL_TRANSFERS_PER_SESSION) as nat,
        objects,
    );
}

proof fn lemma_without_oldest_weighs_less(
    transfers: Seq<Transfer>,
    session: Seq<char>,
    keep: Seq<char>,
    n: nat,
    weight: spec_fn(Transfer) -> nat,
)
    ensures
        crate::lists::total(without_oldest(transfers, session, keep, n), weight)
            <= crate::lists::total(transfers, weight),
    decreases n,
{
    if n > 0 && exists|i: int| is_oldest(transfers, session, keep, i) {
        let i = choose|i: int| is_oldest(transfers, session, keep, i);
        crate::lists::lemma_total_remove(transfers, i, weight);
        lemma_without_oldest_weighs_less(
            transfers.remove(i),
            session,
            keep,
            (n - 1) as nat,
            weight,
        );
    }
}

/// Expiry gives room back too: a purge never adds to what a session lays claim
/// to, and no expired transfer is left afterwards.
pub proof fn law_expiry_releases_reservations(files: Files, now_ns: u128, session: Seq<char>)
    ensures
        reserved_bytes(purged(files, now_ns).transfers, session) <= reserved_bytes(
            files.transfers,
            session,
        ),
        reserved_objects(purged(files, now_ns).transfers, session) <= reserved_objects(
            files.transfers,
            session,
        ),
        forall|i: int|
            0 <= i < purged(files, now_ns).transfers.len() ==> !expired(
                #[trigger] purged(files, now_ns).transfers[i],
                now_ns,
            ),
{
    let keep = |t: Transfer| !expired(t, now_ns);
    crate::lists::lemma_total_retained(
        files.transfers,
        keep,
        |t: Transfer|
            if reserves(t, session) {
                t.size as nat
            } else {
                0
            },
    );
    crate::lists::lemma_total_retained(
        files.transfers,
        keep,
        |t: Transfer|
            if reserves(t, session) {
                1nat
            } else {
                0
            },
    );
    let places = crate::lists::lemma_retained(files.transfers, keep);
    assert forall|i: int| 0 <= i < purged(files, now_ns).transfers.len() implies !expired(
        #[trigger] purged(files, now_ns).transfers[i],
        now_ns,
    ) by {
        assert(keep(crate::lists::retained(files.transfers, keep)[i]));
    }
}

/// An accepted preflight keeps the session within its budget: delivered files
/// and reservations together, the new one included.
pub proof fn law_budget_is_kept(
    files: Files,
    lease: FileSessionLease,
    request: FilePreflight,
    facts: PreflightFacts,
    r: Result<Option<FilePreflightResponse>, FileTransferError>,
    after: Files,
)
    requires
        bad_request(files, request, facts.mime_ok) is None,
        preflighted(files, lease, request, facts, r, after),
        r matches Ok(Some(_)),
    ensures
        ({
            let session = lease.spec_session();
            let durable = facts.durable->Ok_0;
            &&& durable.bytes + reserved_bytes(after.transfers, session)
                <= files.limits.max_session_bytes
            &&& durable.objects + reserved_objects(after.transfers, session)
                <= files.limits.max_session_objects
        }),
{
    let session = lease.spec_session();
    let t = after.transfers.last();
    crate::lists::lemma_total_push(
        files.transfers,
        t,
        |t: Transfer|
            if reserves(t, session) {
                t.size as nat
            } else {
                0
            },
    );
    crate::lists::lemma_total_push(
        files.transfers,
        t,
        |t: Transfer|
            if reserves(t, session) {
                1nat
            } else {
                0
            },
    );
}

proof fn lemma_not_of(transfers: Seq<Transfer>, session: Seq<char>)
    ensures
        forall|i: int|
            0 <= i < not_of(transfers, session).len() ==> (#[trigger] not_of(
                transfers,
                session,
            )[i]).session@ != session,
        forall|t: Transfer| #[trigger]
            not_of(transfers, session).contains(t) <==> transfers.contains(t) && t.session@
                != session,
        (forall|i: int| 0 <= i < transfers.len() ==> (#[trigger] transfers[i]).session@ != session)
            ==> not_of(transfers, session) == transfers,
    decreases transfers.len(),
{
    let kept = not_of(transfers, session);
    if transfers.len() > 0 {
        let front = transfers.drop_last();
        let last = transfers.last();
        lemma_not_of(front, session);
        assert forall|t: Transfer| #[trigger]
            kept.contains(t) <==> transfers.contains(t) && t.session@ != session by {
            let before = not_of(front, session);
            if kept.contains(t) {
                let i = kept.index_of(t);
                if i < before.len() {
                    assert(before[i] == t);
                    assert(before.contains(t));
                    assert(front.contains(t));
                    let j = front.index_of(t);
                    assert(transfers[j] == t);
                } else {
                    assert(transfers[transfers.len() - 1] == t);
                }
            }
            if transfers.contains(t) && t.session@ != session {
                let i = transfers.index_of(t);
                if i < front.len() {
                    assert(front[i] == t);
                    assert(front.contains(t));
                    assert(before.contains(t));
                    let j = before.index_of(t);
                    assert(kept[j] == t);
                } else {
                    assert(kept[kept.len() - 1] == t);
                }
            }
        }
        if forall|i: int| 0 <= i < transfers.len() ==> (#[trigger] transfers[i]).session@ != session {
            assert forall|i: int| 0 <= i < front.len() implies (#[trigger] front[i]).session@
                != session by {
                assert(front[i] == transfers[i]);
            }
            assert(transfers[transfers.len() - 1].session@ != session);
            assert(kept =~= transfers);
        }
    }
}

/// The incarnations were numbered in order so far.
pub open spec fn epochs_in_order(files: Files) -> bool {
    &&& files.next_epoch < u64::MAX
    &&& forall|session: Seq<char>| #[trigger]
        files.live.dom().contains(session) ==> files.live[session] <= files.next_epoch
}

/// Reusing a session's name leaves nothing to the incarnations before it: with
/// the numbers given out so far, an earlier lease is void, an earlier upload
/// cannot go on or be completed, and no earlier transfer can be asked for or
/// delivered. It holds until the numbers run out.
pub proof fn law_name_reuse_voids_earlier_leases(
    files: Files,
    session: Seq<char>,
    lease: FileSessionLease,
    upload: Upload,
    id: Seq<char>,
)
    requires
        epochs_in_order(files),
        lease.spec_session() == session,
        lease.spec_epoch() <= files.next_epoch,
        upload.session == session,
        upload.epoch <= files.next_epoch,
    ensures
        ({
            let after = activated(files, session);
            &&& after.live[session] != lease.spec_epoch()
            &&& !is_current(after, upload)
            &&& forall|i: int| !is_transfer(after.transfers, i, session, id)
            &&& files.next_epoch + 1 < u64::MAX ==> epochs_in_order(after)
        }),
{
    lemma_not_of(files.transfers, session);
}

/// The incarnations stay numbered in order while numbers last, whatever is called: a new
/// store has none, starting a session takes the next number, ending one takes none, and
/// nothing else touches them. Leases and uploads bear numbers that were given out.
pub proof fn law_epochs_stay_in_order<
    D: FnOnce(&Delivery) -> Result<(), String>,
    R: Fn(&str) -> Result<(), String>,
>(
    files: Files,
    root: Seq<char>,
    limits: FileLimits,
    session: Seq<char>,
    id: Seq<char>,
    now_ns: u128,
    deliver: D,
    remove: R,
    lease: FileSessionLease,
    request: FilePreflight,
    facts: PreflightFacts,
    taken: Result<FileSessionLease, FileTransferError>,
    reported: Result<FileTransferStatus, FileTransferError>,
    done: Result<(), FileTransferError>,
    begun_upload: Result<FileUpload, FileTransferError>,
    response: Result<Option<FilePreflightResponse>, FileTransferError>,
    upload: Upload,
    fail: bool,
    after: Files,
)
    requires
        epochs_in_order(files),
    ensures
        epochs_in_order(no_files(root, limits)),
        files.next_epoch + 1 < u64::MAX ==> epochs_in_order(activated(files, session)),
        activated(files, session).next_epoch > files.next_epoch,
        epochs_in_order(deactivated(files, session)),
        looked_up(files, session, id, now_ns, remove, reported, after) || cancelling(
            files,
            session,
            id,
            now_ns,
            remove,
            done,
            after,
        ) || begun(files, session, id, now_ns, remove, begun_upload, after) || materialized(
            files,
            session,
            id,
            now_ns,
            deliver,
            remove,
            reported,
            after,
        ) || queue_failed(files, session, id, now_ns, remove, done, after) || requested(
            files,
            lease,
            request,
            facts,
            remove,
            response,
            after,
        ) || aborted(files, upload, fail, now_ns, after) || completed(
            files,
            upload.session,
            upload.id,
            upload.epoch,
            upload.written,
            now_ns,
            reported,
            after,
        ) ==> epochs_in_order(after) && after.live == files.live && after.next_epoch
            == files.next_epoch,
        leased(files, session, taken) && taken is Ok ==> taken->Ok_0.spec_epoch()
            <= files.next_epoch,
        begun(files, session, id, now_ns, remove, begun_upload, after) && begun_upload is Ok
            ==> begun_upload->Ok_0@.epoch <= files.next_epoch,
{
    if aborted(files, upload, fail, now_ns, after) {
        if exists|i: int| #[trigger] awaits(files, upload, i) {
            let i = choose|i: int| #[trigger] awaits(files, upload, i);
            assert(awaits(files, upload, i));
        }
    }
    if begun(files, session, id, now_ns, remove, begun_upload, after) && begun_upload is Ok {
        let mid = purged(files, now_ns);
        let i = choose|i: int|
            #[trigger] found(mid, session, id, i) && begun_upload->Ok_0@.epoch
                == mid.live[session];
        assert(files.live.dom().contains(session));
    }
    if exists|i: int| #[trigger] is_transfer(files.transfers, i, session, id) {
        let i = choose|i: int| #[trigger] is_transfer(files.transfers, i, session, id);
        assert(is_transfer(files.transfers, i, session, id));
    }
    if exists|i: int| #[trigger] is_transfer(files.transfers, i, upload.session, upload.id) {
        let i = choose|i: int| #[trigger]
            is_transfer(files.transfers, i, upload.session, upload.id);
        assert(is_transfer(files.transfers, i, upload.session, upload.id));
    }
}

/// A cancellation is final for an upload that is under way: it stays recorded,
/// the upload sees it and can neither go on nor be completed, and giving the
/// upload up changes nothing either.
pub proof fn law_cancellation_wins_over_an_upload(
    files: Files,
    upload: Upload,
    i: int,
    now_ns: u128,
    fail: bool,
    later_ns: u128,
    r: Result<FileTransferStatus, FileTransferError>,
    after: Files,
)
    requires
        files_ok(files),
        is_current(files, upload),
        is_transfer(files.transfers, i, upload.session, upload.id),
        is_cancellable(files.transfers[i]),
    ensures
        ({
            let cancelled_files = settled(files, i, cancelled(files.transfers[i], now_ns));
            &&& was_cancelled(cancelled_files, upload)
            &&& is_current(cancelled_files, upload)
            &&& aborted(cancelled_files, upload, fail, later_ns, after) ==> after == cancelled_files
            &&& completed(
                cancelled_files,
                upload.session,
                upload.id,
                upload.epoch,
                upload.written,
                later_ns,
                r,
                after,
            ) ==> r == Err::<FileTransferStatus, _>(FileTransferError::Cancelled) && after
                == cancelled_files
        }),
{
    let t = cancelled(files.transfers[i], now_ns);
    let cancelled_files = settled(files, i, t);
    let _ = files.transfers[i];
    lemma_settled(files, i, t);
    let j = cancelled_files.transfers.index_of(t);
    assert(is_transfer(cancelled_files.transfers, j, upload.session, upload.id));
    assert forall|k: int| !awaits(cancelled_files, upload, k) by {
        if awaits(cancelled_files, upload, k) {
            lemma_one_place(cancelled_files, upload.session, upload.id, j, k);
        }
    }
}

/// The two are one transfer: what was asked for and promised is the same.
pub open spec fn same_request(a: Transfer, b: Transfer) -> bool {
    &&& a.session@ == b.session@
    &&& a.id@ == b.id@
    &&& a.name@ == b.name@
    &&& a.mime@ == b.mime@
    &&& a.size == b.size
    &&& a.expires_at_ns == b.expires_at_ns
    &&& a.epoch == b.epoch
}

/// Every transfer that is in both has the same name, type, size and expiry in both.
pub open spec fn requests_kept(before: Seq<Transfer>, after: Seq<Transfer>) -> bool {
    forall|i: int, j: int|
        0 <= i < before.len() && 0 <= j < after.len() && (#[trigger] before[i]).id@ == (
        #[trigger] after[j]).id@ ==> same_request(before[i], after[j])
}

/// Every transfer but this one is as it was, if it has neither ended nor expired.
pub open spec fn others_stay(
    before: Seq<Transfer>,
    after: Seq<Transfer>,
    id: Seq<char>,
    now_ns: u128,
) -> bool {
    forall|t: Transfer|
        before.contains(t) && t.id@ != id && t.terminal_at_ns is None && !expired(t, now_ns)
            ==> #[trigger] after.contains(t)
}

/// The transfer was asked for before.
spec fn asked_in(before: Seq<Transfer>, t: Transfer) -> bool {
    exists|i: int| 0 <= i < before.len() && same_request(#[trigger] before[i], t)
}

/// Every transfer was asked for before.
spec fn derives(before: Seq<Transfer>, after: Seq<Transfer>) -> bool {
    forall|t: Transfer| #[trigger] after.contains(t) ==> asked_in(before, t)
}

proof fn lemma_derived_is_kept(files: Files, after: Seq<Transfer>)
    requires
        files_ok(files),
        derives(files.transfers, after),
    ensures
        requests_kept(files.transfers, after),
{
    assert forall|i: int, j: int|
        0 <= i < files.transfers.len() && 0 <= j < after.len() && (
        #[trigger] files.transfers[i]).id@ == (
        #[trigger] after[j]).id@ implies same_request(files.transfers[i], after[j]) by {
        assert(after.contains(after[j]));
        assert(asked_in(files.transfers, after[j]));
        let m = choose|m: int|
            0 <= m < files.transfers.len() && same_request(
                #[trigger] files.transfers[m],
                after[j],
            );
        if m < i {
            assert(files.transfers[m].id@ != files.transfers[i].id@);
        }
        if i < m {
            assert(files.transfers[i].id@ != files.transfers[m].id@);
        }
    }
}

proof fn lemma_derives_step(a: Seq<Transfer>, b: Seq<Transfer>, c: Seq<Transfer>)
    requires
        derives(a, b),
        derives(b, c),
    ensures
        derives(a, c),
{
    assert forall|t: Transfer| #[trigger] c.contains(t) implies asked_in(a, t) by {
        assert(asked_in(b, t));
        let i = choose|i: int| 0 <= i < b.len() && same_request(#[trigger] b[i], t);
        assert(b.contains(b[i]));
        assert(asked_in(a, b[i]));
        let j = choose|j: int| 0 <= j < a.len() && same_request(#[trigger] a[j], b[i]);
        assert(same_request(a[j], t));
    }
}

proof fn lemma_part_derives(before: Seq<Transfer>, after: Seq<Transfer>)
    requires
        forall|t: Transfer| #[trigger] after.contains(t) ==> before.contains(t),
    ensures
        derives(before, after),
{
    assert forall|t: Transfer| #[trigger] after.contains(t) implies asked_in(before, t) by {
        let i = before.index_of(t);
        assert(before.contains(t));
        assert(same_request(before[i], t));
    }
}

proof fn lemma_unexpired(transfers: Seq<Transfer>, now_ns: u128)
    ensures
        forall|t: Transfer| #[trigger]
            unexpired(transfers, now_ns).contains(t) <==> transfers.contains(t) && !expired(
                t,
                now_ns,
            ),
{
    let keep = |t: Transfer| !expired(t, now_ns);
    let kept = unexpired(transfers, now_ns);
    let places = crate::lists::lemma_retained(transfers, keep);
    assert forall|t: Transfer| #[trigger] kept.contains(t) <==> transfers.contains(t) && !expired(
        t,
        now_ns,
    ) by {
        if kept.contains(t) {
            let i = kept.index_of(t);
            assert(keep(kept[i]));
            assert(transfers[places[i]] == t);
            assert(transfers.contains(t));
        }
        if transfers.contains(t) && !expired(t, now_ns) {
            let i = transfers.index_of(t);
            assert(keep(transfers[i]));
        }
    }
}

proof fn lemma_purged(files: Files, now_ns: u128)
    requires
        files_ok(files),
    ensures
        files_ok(purged(files, now_ns)),
        derives(files.transfers, purged(files, now_ns).transfers),
        forall|t: Transfer| #[trigger]
            purged(files, now_ns).transfers.contains(t) <==> files.transfers.contains(t)
                && !expired(t, now_ns),
{
    let keep = |t: Transfer| !expired(t, now_ns);
    lemma_retained_ok(files.transfers, files.live, keep);
    lemma_counts_retained(files.transfers, keep);
    lemma_unexpired(files.transfers, now_ns);
    lemma_part_derives(files.transfers, purged(files, now_ns).transfers);
    let after = purged(files, now_ns);
    assert forall|session: Seq<char>| #[trigger]
        terminal_count(after.transfers, session) <= MAX_TERMINAL_TRANSFERS_PER_SESSION by {
        assert(terminal_count(files.transfers, session) <= MAX_TERMINAL_TRANSFERS_PER_SESSION);
    }
}

/// A purge that stopped midway took away nothing but expired transfers.
proof fn lemma_purge_failed<R: Fn(&str) -> Result<(), String>>(
    files: Files,
    now_ns: u128,
    remove: R,
    error: FileTransferError,
    after: Files,
)
    requires
        purge_failed(files, now_ns, remove, error, after),
    ensures
        derives(files.transfers, after.transfers),
        forall|t: Transfer|
            files.transfers.contains(t) && !expired(t, now_ns)
                ==> #[trigger] after.transfers.contains(t),
{
    let k = choose|k: int|
        {
            &&& 0 <= k < files.transfers.len()
            &&& expired(#[trigger] files.transfers[k], now_ns)
            &&& removal(remove, path_of(files, files.transfers[k]), Err(error->Io_0))
            &&& after == (Files {
                transfers: unexpired(files.transfers.take(k), now_ns) + files.transfers.skip(k + 1),
                ..files
            })
        };
    let front = files.transfers.take(k);
    let kept = unexpired(front, now_ns);
    let rest = files.transfers.skip(k + 1);
    lemma_unexpired(front, now_ns);
    assert forall|t: Transfer| #[trigger]
        after.transfers.contains(t) implies files.transfers.contains(t) by {
        let i = after.transfers.index_of(t);
        if i < kept.len() {
            assert(kept[i] == t);
            assert(kept.contains(t));
            let j = front.index_of(t);
            assert(files.transfers[j] == t);
        } else {
            assert(rest[i - kept.len()] == t);
            assert(files.transfers[i - kept.len() + k + 1] == t);
        }
    }
    lemma_part_derives(files.transfers, after.transfers);
    assert forall|t: Transfer|
        files.transfers.contains(t) && !expired(
            t,
            now_ns,
        ) implies #[trigger] after.transfers.contains(t) by {
        let i = files.transfers.index_of(t);
        if i < k {
            assert(front[i] == t);
            assert(front.contains(t));
            assert(kept.contains(t));
            let j = kept.index_of(t);
            assert(after.transfers[j] == t);
        } else {
            assert(i != k);
            assert(rest[i - k - 1] == t);
            assert(after.transfers[kept.len() + i - k - 1] == t);
        }
    }
}

proof fn lemma_refused<R: Fn(&str) -> Result<(), String>>(
    files: Files,
    session: Seq<char>,
    id: Seq<char>,
    now_ns: u128,
    remove: R,
    error: FileTransferError,
    after: Files,
)
    requires
        files_ok(files),
        refused(files, session, id, now_ns, remove, error, after),
    ensures
        derives(files.transfers, after.transfers),
        forall|t: Transfer|
            files.transfers.contains(t) && !expired(t, now_ns)
                ==> #[trigger] after.transfers.contains(t),
{
    lemma_part_derives(files.transfers, files.transfers);
    lemma_purged(files, now_ns);
    if unreachable(files, session, id) is None && purge_failed(
        files,
        now_ns,
        remove,
        error,
        after,
    ) {
        lemma_purge_failed(files, now_ns, remove, error, after);
    }
}

/// A transfer changed without a change to what was asked for.
proof fn lemma_changed(files: Files, i: int, t: Transfer)
    requires
        files_ok(files),
        0 <= i < files.transfers.len(),
        same_request(files.transfers[i], t),
    ensures
        derives(files.transfers, files.transfers.update(i, t)),
        forall|x: Transfer|
            files.transfers.contains(x) && x.id@ != t.id@ ==> #[trigger] files.transfers.update(
                i,
                t,
            ).contains(x),
{
    let next = files.transfers.update(i, t);
    assert forall|x: Transfer| #[trigger] next.contains(x) implies asked_in(
        files.transfers,
        x,
    ) by {
        let j = next.index_of(x);
        assert(same_request(files.transfers[j], x));
    }
    assert forall|x: Transfer|
        files.transfers.contains(x) && x.id@ != t.id@ implies #[trigger] next.contains(x) by {
        let j = files.transfers.index_of(x);
        assert(next[j] == x);
    }
}

proof fn lemma_settled_stays(files: Files, i: int, t: Transfer)
    requires
        files_ok(files),
        0 <= i < files.transfers.len(),
        same_request(files.transfers[i], t),
        t.id == files.transfers[i].id,
        t.session == files.transfers[i].session,
        transfer_ok(t),
    ensures
        derives(files.transfers, settled(files, i, t).transfers),
        forall|x: Transfer|
            files.transfers.contains(x) && x.id@ != t.id@ && x.terminal_at_ns is None
                ==> #[trigger] settled(files, i, t).transfers.contains(x),
{
    let next = files.transfers.update(i, t);
    lemma_changed(files, i, t);
    lemma_settled(files, i, t);
    lemma_part_derives(next, settled(files, i, t).transfers);
    lemma_derives_step(files.transfers, next, settled(files, i, t).transfers);
    assert forall|x: Transfer|
        files.transfers.contains(x) && x.id@ != t.id@ && x.terminal_at_ns is None implies
    #[trigger] settled(files, i, t).transfers.contains(x) by {
        assert(next.contains(x));
        assert(!prunable(x, t.session@, t.id@));
    }
}

/// Nothing that is done to a transfer changes its name, type, size or expiry, and
/// nothing that is done to one changes another one that has not ended or expired.
pub proof fn law_calls_keep_requests<
    D: FnOnce(&Delivery) -> Result<(), String>,
    R: Fn(&str) -> Result<(), String>,
>(
    files: Files,
    session: Seq<char>,
    id: Seq<char>,
    now_ns: u128,
    deliver: D,
    remove: R,
    reported: Result<FileTransferStatus, FileTransferError>,
    done: Result<(), FileTransferError>,
    upload: Result<FileUpload, FileTransferError>,
    after: Files,
)
    requires
        files_ok(files),
        looked_up(files, session, id, now_ns, remove, reported, after) || cancelling(
            files,
            session,
            id,
            now_ns,
            remove,
            done,
            after,
        ) || begun(files, session, id, now_ns, remove, upload, after) || materialized(
            files,
            session,
            id,
            now_ns,
            deliver,
            remove,
            reported,
            after,
        ) || queue_failed(files, session, id, now_ns, remove, done, after),
    ensures
        requests_kept(files.transfers, after.transfers),
        others_stay(files.transfers, after.transfers, id, now_ns),
{
    let mid = purged(files, now_ns);
    lemma_purged(files, now_ns);
    lemma_part_derives(files.transfers, files.transfers);
    if looked_up(files, session, id, now_ns, remove, reported, after) {
        if reported is Err {
            lemma_refused(files, session, id, now_ns, remove, reported->Err_0, after);
        }
    } else if cancelling(files, session, id, now_ns, remove, done, after) {
        if done is Err && refused(files, session, id, now_ns, remove, done->Err_0, after) {
            lemma_refused(files, session, id, now_ns, remove, done->Err_0, after);
        } else if after != mid {
            let i = choose|i: int|
                {
                    &&& #[trigger] found(mid, session, id, i)
                    &&& is_cancellable(mid.transfers[i])
                    &&& after == settled(mid, i, cancelled(mid.transfers[i], now_ns))
                };
            assert(transfer_ok(mid.transfers[i]));
            lemma_settled_stays(mid, i, cancelled(mid.transfers[i], now_ns));
            lemma_derives_step(files.transfers, mid.transfers, after.transfers);
        }
    } else if begun(files, session, id, now_ns, remove, upload, after) {
        if upload is Err && refused(files, session, id, now_ns, remove, upload->Err_0, after) {
            lemma_refused(files, session, id, now_ns, remove, upload->Err_0, after);
        } else if after != mid {
            let i = choose|i: int|
                {
                    &&& #[trigger] found(mid, session, id, i)
                    &&& after == (Files {
                        transfers: mid.transfers.update(
                            i,
                            Transfer { uploading: true, ..mid.transfers[i] },
                        ),
                        ..mid
                    })
                };
            lemma_changed(mid, i, Transfer { uploading: true, ..mid.transfers[i] });
            lemma_derives_step(files.transfers, mid.transfers, after.transfers);
        }
    } else if after != files {
        assert(unreachable(files, session, id) is None);
        let i = choose|i: int| #[trigger] is_transfer(files.transfers, i, session, id);
        assert(is_transfer(files.transfers, i, session, id));
        assert(transfer_ok(files.transfers[i]));
        lemma_settled_stays(files, i, delivered(files.transfers[i]));
        lemma_settled_stays(files, i, failed(files.transfers[i], now_ns));
    }
    lemma_derived_is_kept(files, after.transfers);
}

/// Neither giving up nor completing an upload changes the name, type, size or expiry
/// of a transfer, or another transfer that has not ended.
pub proof fn law_uploads_keep_requests(
    files: Files,
    upload: Upload,
    fail: bool,
    now_ns: u128,
    r: Result<FileTransferStatus, FileTransferError>,
    after: Files,
)
    requires
        files_ok(files),
        aborted(files, upload, fail, now_ns, after) || completed(
            files,
            upload.session,
            upload.id,
            upload.epoch,
            upload.written,
            now_ns,
            r,
            after,
        ),
    ensures
        requests_kept(files.transfers, after.transfers),
        others_stay(files.transfers, after.transfers, upload.id, now_ns),
{
    lemma_part_derives(files.transfers, files.transfers);
    if after != files {
        assert(exists|i: int| #[trigger]
            is_transfer(files.transfers, i, upload.session, upload.id)) by {
            if aborted(files, upload, fail, now_ns, after) {
                let i = choose|i: int| #[trigger] awaits(files, upload, i);
                assert(is_transfer(files.transfers, i, upload.session, upload.id));
            }
        }
        let i = choose|i: int| #[trigger]
            is_transfer(files.transfers, i, upload.session, upload.id);
        let t = files.transfers[i];
        assert(transfer_ok(t));
        if aborted(files, upload, fail, now_ns, after) {
            let j = choose|j: int| #[trigger] awaits(files, upload, j);
            lemma_one_place(files, upload.session, upload.id, i, j);
            assert(awaits(files, upload, i));
        }
        lemma_settled_stays(files, i, failed(t, now_ns));
        lemma_changed(files, i, Transfer { uploading: false, ..t });
        lemma_changed(files, i, queued(t));
    }
    lemma_derived_is_kept(files, after.transfers);
}

/// An accepted preflight adds a transfer and changes none: its id was not in use.
pub proof fn law_preflights_keep_requests<R: Fn(&str) -> Result<(), String>>(
    files: Files,
    lease: FileSessionLease,
    request: FilePreflight,
    facts: PreflightFacts,
    remove: R,
    r: Result<Option<FilePreflightResponse>, FileTransferError>,
    after: Files,
)
    requires
        files_ok(files),
        requested(files, lease, request, facts, remove, r, after),
    ensures
        requests_kept(purged(files, facts.now_ns).transfers, after.transfers),
        forall|t: Transfer|
            files.transfers.contains(t) && !expired(t, facts.now_ns)
                ==> #[trigger] after.transfers.contains(t),
{
    let mid = purged(files, facts.now_ns);
    lemma_purged(files, facts.now_ns);
    lemma_part_derives(files.transfers, files.transfers);
    if r is Err && purge_failed(files, facts.now_ns, remove, r->Err_0, after) {
        lemma_purge_failed(files, facts.now_ns, remove, r->Err_0, after);
        lemma_derived_is_kept(files, after.transfers);
        lemma_kept_of_part(files.transfers, mid.transfers, after.transfers);
    } else if after == files {
        lemma_derived_is_kept(files, after.transfers);
        lemma_kept_of_part(files.transfers, mid.transfers, after.transfers);
    } else if after == mid {
        lemma_part_derives(mid.transfers, mid.transfers);
        lemma_derived_is_kept(mid, after.transfers);
    } else {
        let t = after.transfers.last();
        assert(after.transfers == mid.transfers.push(t));
        lemma_part_derives(mid.transfers, mid.transfers);
        lemma_derived_is_kept(mid, mid.transfers);
        assert forall|i: int, j: int|
            0 <= i < mid.transfers.len() && 0 <= j < after.transfers.len() && (
            #[trigger] mid.transfers[i]).id@ == (
            #[trigger] after.transfers[j]).id@ implies same_request(
            mid.transfers[i],
            after.transfers[j],
        ) by {
            if j < mid.transfers.len() {
                assert(after.transfers[j] == mid.transfers[j]);
            } else {
                assert(id_taken(mid.transfers, t.id@));
            }
        }
        assert forall|x: Transfer|
            files.transfers.contains(x) && !expired(
                x,
                facts.now_ns,
            ) implies #[trigger] after.transfers.contains(x) by {
            assert(mid.transfers.contains(x));
            let i = mid.transfers.index_of(x);
            assert(after.transfers[i] == x);
        }
    }
}

proof fn lemma_kept_of_part(
    before: Seq<Transfer>,
    part: Seq<Transfer>,
    after: Seq<Transfer>,
)
    requires
        requests_kept(before, after),
        forall|t: Transfer| #[trigger] part.contains(t) ==> before.contains(t),
    ensures
        requests_kept(part, after),
{
    assert forall|i: int, j: int|
        0 <= i < part.len() && 0 <= j < after.len() && (#[trigger] part[i]).id@ == (
        #[trigger] after[j]).id@ implies same_request(part[i], after[j]) by {
        assert(part.contains(part[i]));
        let m = before.index_of(part[i]);
        assert(before[m].id@ == after[j].id@);
    }
}

/// What a client is told of a transfer is what was asked for, however much has been
/// done since, as long as the transfer was there all the while: every step keeps the
/// requests, so the name, the type and the size are the first ones.
pub proof fn law_status_tells_what_was_asked_for<R: Fn(&str) -> Result<(), String>>(
    history: Seq<Files>,
    t: Transfer,
    session: Seq<char>,
    now_ns: u128,
    remove: R,
    status: FileTransferStatus,
    after: Files,
)
    requires
        history.len() > 0,
        forall|k: int|
            0 <= k < history.len() ==> files_ok(#[trigger] history[k]) && id_taken(
                history[k].transfers,
                t.id@,
            ),
        forall|k: int, next: int|
            0 <= k < history.len() && next == k + 1 && next < history.len() ==> requests_kept(
                (#[trigger] history[k]).transfers,
                (#[trigger] history[next]).transfers,
            ),
        history[0].transfers.contains(t),
        looked_up(history.last(), session, t.id@, now_ns, remove, Ok(status), after),
    ensures
        status.transfer_id@ == t.id@,
        status.name@ == t.name@,
        status.mime@ == t.mime@,
        status.size == t.size,
{
    let last = history.len() - 1;
    lemma_request_through(history, t, last as int);
    lemma_purged(history[last], now_ns);
    let i = choose|i: int| #[trigger]
        found(after, session, t.id@, i) && describes(status, after.transfers[i]);
    let u = after.transfers[i];
    assert(after.transfers.contains(u));
    assert(history[last].transfers.contains(u));
    let j = history[last].transfers.index_of(u);
    assert(history[last].transfers[j].id@ == t.id@);
}

proof fn lemma_request_through(history: Seq<Files>, t: Transfer, n: int)
    requires
        0 <= n < history.len(),
        forall|k: int|
            0 <= k < history.len() ==> files_ok(#[trigger] history[k]) && id_taken(
                history[k].transfers,
                t.id@,
            ),
        forall|k: int, next: int|
            0 <= k < history.len() && next == k + 1 && next < history.len() ==> requests_kept(
                (#[trigger] history[k]).transfers,
                (#[trigger] history[next]).transfers,
            ),
        history[0].transfers.contains(t),
    ensures
        forall|j: int|
            0 <= j < history[n].transfers.len() && (#[trigger] history[n].transfers[j]).id@
                == t.id@ ==> same_request(t, history[n].transfers[j]),
    decreases n,
{
    if n == 0 {
        let i = history[0].transfers.index_of(t);
        assert(files_ok(history[0]));
        assert forall|j: int|
            0 <= j < history[0].transfers.len() && (#[trigger] history[0].transfers[j]).id@
                == t.id@ implies same_request(t, history[0].transfers[j]) by {
            if i < j {
                assert(history[0].transfers[i].id@ != history[0].transfers[j].id@);
            }
            if j < i {
                assert(history[0].transfers[j].id@ != history[0].transfers[i].id@);
            }
        }
    } else {
        lemma_request_through(history, t, n - 1);
        assert(files_ok(history[n - 1]));
        let i = choose|i: int|
            0 <= i < history[n - 1].transfers.len() && (
            #[trigger] history[n - 1].transfers[i]).id@ == t.id@;
        assert(requests_kept(history[n - 1].transfers, history[n].transfers));
        assert forall|j: int|
            0 <= j < history[n].transfers.len() && (#[trigger] history[n].transfers[j]).id@
                == t.id@ implies same_request(t, history[n].transfers[j]) by {
            assert(same_request(history[n - 1].transfers[i], history[n].transfers[j]));
        }
    }
}

/// What a client is told of a transfer fits together: an expiry is given exactly while
/// the upload is awaited, nothing has come in before, and everything afterwards.
pub proof fn law_status_fits_together<R: Fn(&str) -> Result<(), String>>(
    files: Files,
    session: Seq<char>,
    id: Seq<char>,
    now_ns: u128,
    remove: R,
    status: FileTransferStatus,
    after: Files,
)
    requires
        files_ok(files),
        looked_up(files, session, id, now_ns, remove, Ok(status), after),
    ensures
        status.transfer_id@ == id,
        status.expires_at is Some <==> status.state == FileTransferState::AwaitingUpload,
        status.state == FileTransferState::AwaitingUpload ==> status.bytes_received == 0,
        status.state == FileTransferState::Queued || status.state
            == FileTransferState::Materializing || status.state == FileTransferState::Delivered
            ==> status.bytes_received == status.size,
{
    lemma_purged(files, now_ns);
    let i = choose|i: int| #[trigger]
        found(after, session, id, i) && describes(status, after.transfers[i]);
    assert(transfer_ok(after.transfers[i]));
}

/// Where a transfer of the store is found once what has expired is gone.
proof fn lemma_still_found(files: Files, i: int, now_ns: u128) -> (j: int)
    requires
        files_ok(files),
        0 <= i < files.transfers.len(),
        !expired(files.transfers[i], now_ns),
    ensures
        found(
            purged(files, now_ns),
            files.transfers[i].session@,
            files.transfers[i].id@,
            j,
        ),
        purged(files, now_ns).transfers[j] == files.transfers[i],
        unreachable(files, files.transfers[i].session@, files.transfers[i].id@) is None,
        forall|k: int| #[trigger]
            is_transfer(
                purged(files, now_ns).transfers,
                k,
                files.transfers[i].session@,
                files.transfers[i].id@,
            ) ==> k == j,
{
    let t = files.transfers[i];
    let mid = purged(files, now_ns);
    lemma_purged(files, now_ns);
    assert(files.transfers.contains(t));
    assert(mid.transfers.contains(t));
    let j = mid.transfers.index_of(t);
    assert(transfer_ok(t));
    assert(is_transfer(mid.transfers, j, t.session@, t.id@));
    assert forall|k: int| #[trigger]
        is_transfer(mid.transfers, k, t.session@, t.id@) implies k == j by {
        lemma_one_place(mid, t.session@, t.id@, j, k);
    }
    j
}

/// A transfer is described as it stands as long as it has not expired. A request for
/// it fails only where the file of an expired one cannot be removed.
pub proof fn law_unexpired_transfer_is_described<R: Fn(&str) -> Result<(), String>>(
    files: Files,
    i: int,
    now_ns: u128,
    remove: R,
    r: Result<FileTransferStatus, FileTransferError>,
    after: Files,
)
    requires
        files_ok(files),
        0 <= i < files.transfers.len(),
        !expired(files.transfers[i], now_ns),
        looked_up(
            files,
            files.transfers[i].session@,
            files.transfers[i].id@,
            now_ns,
            remove,
            r,
            after,
        ),
    ensures
        match r {
            Ok(status) => describes(status, files.transfers[i]),
            Err(error) => purge_failed(files, now_ns, remove, error, after),
        },
{
    let _ = lemma_still_found(files, i, now_ns);
}

/// An accepted preflight can be looked up until it expires: with what was asked for,
/// no bytes received, awaiting its upload, and with the expiry that was announced.
/// `later` is any state in which the transfer still awaits its upload: right after
/// the preflight, or once more has been done.
pub proof fn law_accepted_preflight_is_looked_up<
    P: Fn(&str) -> Result<(), String>,
    R: Fn(&str) -> Result<(), String>,
>(
    files: Files,
    lease: FileSessionLease,
    request: FilePreflight,
    facts: PreflightFacts,
    purge: P,
    response: FilePreflightResponse,
    after: Files,
    later: Files,
    i: int,
    now_ns: u128,
    remove: R,
    r: Result<FileTransferStatus, FileTransferError>,
    last: Files,
)
    requires
        facts.now_ns + files.limits.expiry_ns <= u128::MAX,
        requested(files, lease, request, facts, purge, Ok(Some(response)), after),
        files_ok(later),
        0 <= i < later.transfers.len(),
        same_request(after.transfers.last(), later.transfers[i]),
        later.transfers[i].state == FileTransferState::AwaitingUpload,
        now_ns < facts.now_ns + files.limits.expiry_ns,
        looked_up(later, lease.spec_session(), response.transfer_id@, now_ns, remove, r, last),
    ensures
        after.transfers.last().state == FileTransferState::AwaitingUpload,
        match r {
            Ok(status) => {
                &&& status.transfer_id@ == response.transfer_id@
                &&& status.name@ == request.name@
                &&& status.mime@ == request.mime@
                &&& status.size == request.size
                &&& status.bytes_received == 0
                &&& status.state == FileTransferState::AwaitingUpload
                &&& status.expires_at == Some(response.expires_at)
            },
            Err(error) => purge_failed(later, now_ns, remove, error, last),
        },
{
    let t = later.transfers[i];
    assert(transfer_ok(t));
    law_unexpired_transfer_is_described(later, i, now_ns, remove, r, last);
}

/// A cancelled transfer is done for good: it is reported as cancelled, and a second
/// cancellation, an upload and a delivery are refused and change nothing. Only where
/// the file of an expired transfer cannot be removed does a request fail before that.
pub proof fn law_cancelled_transfer_is_done_for<
    D: FnOnce(&Delivery) -> Result<(), String>,
    P: Fn(&str) -> Result<(), String>,
    R: Fn(&str) -> Result<(), String>,
>(
    files: Files,
    session: Seq<char>,
    id: Seq<char>,
    now_ns: u128,
    purge: P,
    cancelled_files: Files,
    later_ns: u128,
    deliver: D,
    remove: R,
    reported: Result<FileTransferStatus, FileTransferError>,
    done: Result<(), FileTransferError>,
    upload: Result<FileUpload, FileTransferError>,
    delivery: Result<FileTransferStatus, FileTransferError>,
    after: Files,
)
    requires
        files_ok(files),
        cancelling(files, session, id, now_ns, purge, Ok(()), cancelled_files),
    ensures
        ({
            let next = purged(cancelled_files, later_ns);
            &&& looked_up(cancelled_files, session, id, later_ns, remove, reported, after) ==> (
            match reported {
                Ok(status) => status.state == FileTransferState::Cancelled && after == next,
                Err(error) => purge_failed(cancelled_files, later_ns, remove, error, after),
            })
            &&& cancelling(cancelled_files, session, id, later_ns, remove, done, after) ==> done
                is Err && (purge_failed(cancelled_files, later_ns, remove, done->Err_0, after) || (
            done->Err_0 == FileTransferError::NotCancellable && after == next))
            &&& begun(cancelled_files, session, id, later_ns, remove, upload, after) ==> upload
                is Err && (purge_failed(cancelled_files, later_ns, remove, upload->Err_0, after)
                || (upload->Err_0 == FileTransferError::InvalidState && after == next))
            &&& materialized(
                cancelled_files,
                session,
                id,
                later_ns,
                deliver,
                remove,
                delivery,
                after,
            ) ==> delivery == Err::<FileTransferStatus, _>(FileTransferError::InvalidState)
                && after == cancelled_files
        }),
{
    let mid = purged(files, now_ns);
    lemma_purged(files, now_ns);
    let i = choose|i: int|
        {
            &&& #[trigger] found(mid, session, id, i)
            &&& is_cancellable(mid.transfers[i])
            &&& cancelled_files == settled(mid, i, cancelled(mid.transfers[i], now_ns))
        };
    let t = cancelled(mid.transfers[i], now_ns);
    assert(transfer_ok(mid.transfers[i]));
    lemma_settled(mid, i, t);
    let k = cancelled_files.transfers.index_of(t);
    assert(cancelled_files.transfers.contains(t));
    assert(is_transfer(cancelled_files.transfers, k, session, id));
    let _ = lemma_still_found(cancelled_files, k, later_ns);
}

/// A transfer is delivered once: it is reported complete and without an expiry, and a
/// second delivery is refused and changes nothing.
pub proof fn law_delivery_happens_once<
    D: FnOnce(&Delivery) -> Result<(), String>,
    E: FnOnce(&Delivery) -> Result<(), String>,
    R: Fn(&str) -> Result<(), String>,
>(
    files: Files,
    session: Seq<char>,
    id: Seq<char>,
    now_ns: u128,
    deliver: D,
    again: E,
    remove: R,
    status: FileTransferStatus,
    delivered_files: Files,
    later_ns: u128,
    r: Result<FileTransferStatus, FileTransferError>,
    after: Files,
)
    requires
        files_ok(files),
        materialized(
            files,
            session,
            id,
            now_ns,
            deliver,
            remove,
            Ok(status),
            delivered_files,
        ),
        materialized(delivered_files, session, id, later_ns, again, remove, r, after),
    ensures
        status.transfer_id@ == id,
        status.state == FileTransferState::Delivered,
        status.bytes_received == status.size,
        status.expires_at is None,
        r == Err::<FileTransferStatus, _>(FileTransferError::InvalidState),
        after == delivered_files,
{
    let i = choose|i: int| #[trigger] is_transfer(files.transfers, i, session, id);
    assert(is_transfer(files.transfers, i, session, id));
    let t = delivered(files.transfers[i]);
    assert(transfer_ok(files.transfers[i]));
    lemma_settled(files, i, t);
    let k = delivered_files.transfers.index_of(t);
    assert(is_transfer(delivered_files.transfers, k, session, id));
}

/// A session that has ended is gone: no lease is given on it, and whatever is asked for
/// it under a valid id is refused because the session is not live, and changes nothing.
pub proof fn law_ended_session_refuses_everything<
    D: FnOnce(&Delivery) -> Result<(), String>,
    R: Fn(&str) -> Result<(), String>,
>(
    before: Files,
    session: Seq<char>,
    id: Seq<char>,
    now_ns: u128,
    deliver: D,
    remove: R,
    reported: Result<FileTransferStatus, FileTransferError>,
    done: Result<(), FileTransferError>,
    begun_upload: Result<FileUpload, FileTransferError>,
    taken: Result<FileSessionLease, FileTransferError>,
    after: Files,
)
    requires
        crate::registry::valid_name(session),
        crate::protocol::valid_id(id),
    ensures
        ({
            let files = deactivated(before, session);
            let gone = FileTransferError::SessionNotLive;
            &&& leased(files, session, taken) ==> taken == Err::<FileSessionLease, _>(gone)
            &&& looked_up(files, session, id, now_ns, remove, reported, after) ==> reported
                == Err::<FileTransferStatus, _>(gone) && after == files
            &&& cancelling(files, session, id, now_ns, remove, done, after) ==> done == Err::<
                (),
                _,
            >(gone) && after == files
            &&& begun(files, session, id, now_ns, remove, begun_upload, after) ==> begun_upload
                == Err::<FileUpload, _>(gone) && after == files
            &&& materialized(files, session, id, now_ns, deliver, remove, reported, after)
                ==> reported == Err::<FileTransferStatus, _>(gone) && after == files
            &&& queue_failed(files, session, id, now_ns, remove, done, after) ==> done == Err::<
                (),
                _,
            >(gone) && after == files
        }),
{
    let files = deactivated(before, session);
    assert(unreachable(files, session, id) == Some(FileTransferError::SessionNotLive));
    assert(purged(files, now_ns).live == files.live);
}

/// After the end of its session no new transfer is accepted under any lease of it, and
/// no upload of it can go on, be completed or change anything.
pub proof fn law_ended_session_refuses_new_files<R: Fn(&str) -> Result<(), String>>(
    before: Files,
    lease: FileSessionLease,
    request: FilePreflight,
    facts: PreflightFacts,
    remove: R,
    r: Result<Option<FilePreflightResponse>, FileTransferError>,
    upload: Upload,
    fail: bool,
    now_ns: u128,
    completion: Result<FileTransferStatus, FileTransferError>,
    after: Files,
)
    requires
        bad_request(before, request, facts.mime_ok) is None,
        upload.session == lease.spec_session(),
    ensures
        ({
            let files = deactivated(before, lease.spec_session());
            let gone = FileTransferError::SessionNotLive;
            &&& requested(files, lease, request, facts, remove, r, after) ==> r == Err::<
                Option<FilePreflightResponse>,
                _,
            >(gone) && after == files
            &&& !is_current(files, upload)
            &&& aborted(files, upload, fail, now_ns, after) ==> after == files
            &&& completed(
                files,
                upload.session,
                upload.id,
                upload.epoch,
                upload.written,
                now_ns,
                completion,
                after,
            ) ==> completion == Err::<FileTransferStatus, _>(gone) && after == files
        }),
{
    let files = deactivated(before, lease.spec_session());
    assert forall|i: int| !awaits(files, upload, i) by {
        assert(!is_current(files, upload));
    }
}

/// Ending a session leaves the others alone, and ending one that is not live, or once
/// more, changes nothing.
pub proof fn law_ending_a_session_is_final(files: Files, session: Seq<char>, other: Seq<char>)
    requires
        files_ok(files),
    ensures
        deactivated(deactivated(files, session), session) == deactivated(files, session),
        !files.live.dom().contains(session) ==> deactivated(files, session) == files,
        other != session ==> deactivated(files, session).live.dom().contains(other)
            == files.live.dom().contains(other) && deactivated(files, session).live[other]
            == files.live[other],
        forall|t: Transfer| #[trigger]
            deactivated(files, session).transfers.contains(t) <==> files.transfers.contains(t)
                && t.session@ != session,
{
    let once = deactivated(files, session);
    lemma_not_of(files.transfers, session);
    lemma_not_of(once.transfers, session);
    assert(once.live.remove(session) =~= once.live);
    assert(deactivated(once, session) =~= once);
    if !files.live.dom().contains(session) {
        assert(files.live.remove(session) =~= files.live);
        assert(once =~= files);
    }
}

/// Neither starting nor ending a session changes what was asked for in a transfer that
/// stays.
pub proof fn law_sessions_keep_requests(files: Files, session: Seq<char>)
    requires
        files_ok(files),
    ensures
        requests_kept(files.transfers, activated(files, session).transfers),
        requests_kept(files.transfers, deactivated(files, session).transfers),
{
    let kept = not_of(files.transfers, session);
    lemma_not_of(files.transfers, session);
    lemma_part_derives(files.transfers, kept);
    lemma_derived_is_kept(files, kept);
}

/// A new incarnation of a session knows nothing of the transfers before it: none of
/// them can be looked up or delivered, a lease of an earlier incarnation gets nothing,
/// and other sessions keep theirs. It holds until the numbers run out.
pub proof fn law_new_incarnation_starts_afresh<
    D: FnOnce(&Delivery) -> Result<(), String>,
    R: Fn(&str) -> Result<(), String>,
>(
    before: Files,
    lease: FileSessionLease,
    id: Seq<char>,
    request: FilePreflight,
    facts: PreflightFacts,
    now_ns: u128,
    deliver: D,
    remove: R,
    taken: Result<FileSessionLease, FileTransferError>,
    reported: Result<FileTransferStatus, FileTransferError>,
    delivery: Result<FileTransferStatus, FileTransferError>,
    r: Result<Option<FilePreflightResponse>, FileTransferError>,
    after: Files,
)
    requires
        epochs_in_order(before),
        lease.spec_epoch() <= before.next_epoch,
        crate::registry::valid_name(lease.spec_session()),
        crate::protocol::valid_id(id),
        bad_request(before, request, facts.mime_ok) is None,
    ensures
        ({
            let session = lease.spec_session();
            let files = activated(before, session);
            &&& leased(files, session, taken) ==> taken is Ok
            &&& looked_up(files, session, id, now_ns, remove, reported, after) ==> reported is Err
                && (reported->Err_0 == FileTransferError::NotFound || purge_failed(
                files,
                now_ns,
                remove,
                reported->Err_0,
                after,
            ))
            &&& materialized(files, session, id, now_ns, deliver, remove, delivery, after)
                ==> delivery == Err::<FileTransferStatus, _>(FileTransferError::NotFound) && after
                == files
            &&& requested(files, lease, request, facts, remove, r, after) ==> r == Err::<
                Option<FilePreflightResponse>,
                _,
            >(FileTransferError::SessionNotLive) && after == files
            &&& forall|other: Seq<char>|
                other != session ==> #[trigger] files.live.dom().contains(other)
                    == before.live.dom().contains(other) && files.live[other] == before.live[other]
            &&& forall|t: Transfer| #[trigger]
                files.transfers.contains(t) <==> before.transfers.contains(t) && t.session@
                    != session
        }),
{
    let session = lease.spec_session();
    let files = activated(before, session);
    lemma_not_of(before.transfers, session);
    lemma_unexpired(files.transfers, now_ns);
    let mid = purged(files, now_ns);
    assert forall|i: int| !is_transfer(mid.transfers, i, session, id) by {
        if is_transfer(mid.transfers, i, session, id) {
            assert(mid.transfers.contains(mid.transfers[i]));
            assert(files.transfers.contains(mid.transfers[i]));
        }
    }
    assert(unreachable(files, session, id) is None);
}

/// At most one upload of a transfer is open: while one is, another cannot begin; and
/// letting go of it lets the next one begin, as long as the transfer has not expired.
/// Only where the file of an expired transfer cannot be removed does that fail.
pub proof fn law_one_upload_at_a_time<
    P: Fn(&str) -> Result<(), String>,
    R: Fn(&str) -> Result<(), String>,
>(
    files: Files,
    session: Seq<char>,
    id: Seq<char>,
    now_ns: u128,
    purge: P,
    upload: FileUpload,
    open: Files,
    dropped_ns: u128,
    dropped: Files,
    i: int,
    later_ns: u128,
    remove: R,
    next: Result<FileUpload, FileTransferError>,
    after: Files,
)
    requires
        files_ok(files),
        begun(files, session, id, now_ns, purge, Ok(upload), open),
        is_transfer(open.transfers, i, session, id),
    ensures
        open.transfers[i].uploading,
        begun(open, session, id, later_ns, remove, next, after) ==> next is Err && (purge_failed(
            open,
            later_ns,
            remove,
            next->Err_0,
            after,
        ) || (next->Err_0 == FileTransferError::UploadInProgress && after == purged(
            open,
            later_ns,
        ))),
        aborted(open, upload@, false, dropped_ns, dropped) && begun(
            dropped,
            session,
            id,
            later_ns,
            remove,
            next,
            after,
        ) && later_ns < open.transfers[i].expires_at_ns ==> next is Ok || purge_failed(
            dropped,
            later_ns,
            remove,
            next->Err_0,
            after,
        ),
{
    let mid = purged(files, now_ns);
    lemma_purged(files, now_ns);
    let k = choose|k: int|
        {
            &&& #[trigger] found(mid, session, id, k)
            &&& mid.transfers[k].state == FileTransferState::AwaitingUpload
            &&& open == (Files {
                transfers: mid.transfers.update(
                    k,
                    Transfer { uploading: true, ..mid.transfers[k] },
                ),
                ..mid
            })
            &&& upload@.session == session && upload@.id == id && upload@.epoch
                == mid.live[session]
        };
    let t = Transfer { uploading: true, ..mid.transfers[k] };
    assert(transfer_ok(mid.transfers[k]));
    lemma_updated(mid, k, t);
    assert(is_transfer(open.transfers, k, session, id));
    lemma_one_place(open, session, id, i, k);
    let _ = lemma_still_found(open, i, later_ns);
    assert(awaits(open, upload@, i));
    if aborted(open, upload@, false, dropped_ns, dropped) && later_ns < t.expires_at_ns {
        let free = Transfer { uploading: false, ..t };
        lemma_updated(open, i, free);
        assert(dropped.transfers[i] == free);
        let _ = lemma_still_found(dropped, i, later_ns);
    }
}

/// An open upload stays open until it is let go, completed or cancelled, or its session
/// ends: no other request closes it, be it for the same transfer or for another one.
pub proof fn law_open_upload_stays_open<
    D: FnOnce(&Delivery) -> Result<(), String>,
    R: Fn(&str) -> Result<(), String>,
>(
    files: Files,
    t: Transfer,
    session: Seq<char>,
    id: Seq<char>,
    now_ns: u128,
    deliver: D,
    remove: R,
    reported: Result<FileTransferStatus, FileTransferError>,
    done: Result<(), FileTransferError>,
    upload: Result<FileUpload, FileTransferError>,
    after: Files,
)
    requires
        files_ok(files),
        files.transfers.contains(t),
        t.uploading,
        looked_up(files, session, id, now_ns, remove, reported, after) || begun(
            files,
            session,
            id,
            now_ns,
            remove,
            upload,
            after,
        ) || materialized(files, session, id, now_ns, deliver, remove, reported, after)
            || queue_failed(files, session, id, now_ns, remove, done, after),
    ensures
        after.transfers.contains(t),
{
    law_calls_keep_requests(
        files,
        session,
        id,
        now_ns,
        deliver,
        remove,
        reported,
        done,
        upload,
        after,
    );
    let mid = purged(files, now_ns);
    lemma_purged(files, now_ns);
    let k = files.transfers.index_of(t);
    assert(transfer_ok(t));
    if t.id@ == id {
        if looked_up(files, session, id, now_ns, remove, reported, after) {
            if reported is Err {
                lemma_refused(files, session, id, now_ns, remove, reported->Err_0, after);
            }
        } else if begun(files, session, id, now_ns, remove, upload, after) {
            if upload is Err && refused(files, session, id, now_ns, remove, upload->Err_0, after) {
                lemma_refused(files, session, id, now_ns, remove, upload->Err_0, after);
            } else if upload is Ok {
                let i = choose|i: int|
                    #[trigger] found(mid, session, id, i) && !mid.transfers[i].uploading;
                let j = mid.transfers.index_of(t);
                assert(mid.transfers.contains(t));
                if i < j {
                    assert(mid.transfers[i].id@ != mid.transfers[j].id@);
                }
                if j < i {
                    assert(mid.transfers[j].id@ != mid.transfers[i].id@);
                }
            }
        } else if after != files {
            assert(unreachable(files, session, id) is None);
            let i = choose|i: int| #[trigger] is_transfer(files.transfers, i, session, id);
            assert(is_transfer(files.transfers, i, session, id));
            if i < k {
                assert(files.transfers[i].id@ != files.transfers[k].id@);
            }
            if k < i {
                assert(files.transfers[k].id@ != files.transfers[i].id@);
            }
        }
    }
}

/// Paths are the daemon's own: whatever the session and the id, as long as they
/// are valid, uploads and drop directories lie under the root, and the place of
/// the uploads is no session's drop directory.
pub proof fn law_paths_stay_under_the_root(root: Seq<char>, session: Seq<char>, id: Seq<char>)
    requires
        root.len() > 0,
        root.last() != '/',
        crate::registry::valid_name(session),
        crate::protocol::valid_id(id),
    ensures
        drop_path(root, session) == root + "/"@ + session,
        staging_dir_path(root, session) == root + "/"@ + ".staging"@ + "/"@ + session,
        staged_path(root, session, id) == root + "/"@ + ".staging"@ + "/"@ + session + "/"@ + id
            + ".part"@,
        drop_path(root, session) != crate::paths::joined(root, ".staging"@),
{
    reveal_strlit("/");
    reveal_strlit(".staging");
    reveal_strlit(".part");
    let staging = root + "/"@ + ".staging"@;
    assert(staging.last() == 'g');
    let dir = staging + "/"@ + session;
    assert(dir.last() == session.last());
    assert(crate::registry::is_name_char(session[session.len() - 1]));
    assert(crate::text::is_hex_digit(id[0]));
    assert((id + ".part"@)[0] == id[0]);
    assert(dir + "/"@ + (id + ".part"@) =~= dir + "/"@ + id + ".part"@);
    assert(drop_path(root, session)[root.len() as int + 1] == session[0]);
    assert(crate::paths::joined(root, ".staging"@)[root.len() as int + 1] == '.');
}

/// Whatever a client asks for, every path that is handed out is the store's own: that
/// of a transfer which the store holds, made from the root, the session and the id. A
/// removal gets the staged file, and a delivery the two directories, the id, and a name
/// that is no path.
pub proof fn law_every_path_is_the_stores_own(
    files: Files,
    now_ns: u128,
    session: Seq<char>,
    id: Seq<char>,
    i: int,
    delivery: Delivery,
)
    requires
        files_ok(files),
        files.root.len() > 0,
        files.root.last() != '/',
    ensures
        0 <= i < files.transfers.len() ==> {
            let t = files.transfers[i];
            &&& crate::registry::valid_name(t.session@)
            &&& crate::protocol::valid_id(t.id@)
            &&& path_of(files, t) == files.root + "/"@ + ".staging"@ + "/"@ + t.session@ + "/"@
                + t.id@ + ".part"@
            &&& delivery_of(delivery, files, t) ==> {
                &&& delivery.drop_dir@ == files.root + "/"@ + t.session@
                &&& delivery.staging_dir@ == files.root + "/"@ + ".staging"@ + "/"@ + t.session@
                &&& delivery.id@ == t.id@
                &&& valid_file_name(delivery.name@)
            }
        },
        found(files, session, id, i) || found(purged(files, now_ns), session, id, i)
            ==> staged_path(files.root, session, id) == files.root + "/"@ + ".staging"@ + "/"@
            + session + "/"@ + id + ".part"@,
{
    if 0 <= i < files.transfers.len() {
        let t = files.transfers[i];
        assert(transfer_ok(t));
        law_paths_stay_under_the_root(files.root, t.session@, t.id@);
    }
    if found(files, session, id, i) || found(purged(files, now_ns), session, id, i) {
        law_paths_stay_under_the_root(files.root, session, id);
    }
}

proof fn lemma_no_slash_in_names(session: Seq<char>, id: Seq<char>)
    requires
        crate::registry::valid_name(session),
        crate::protocol::valid_id(id),
    ensures
        !session.contains('/'),
        !id.contains('/'),
{
    if session.contains('/') {
        let i = session.index_of('/');
        assert(crate::registry::is_name_char(session[i]));
    }
    if id.contains('/') {
        let i = id.index_of('/');
        assert(crate::text::is_hex_digit(id[i]));
    }
}

proof fn lemma_url_parts(session: Seq<char>, id: Seq<char>)
    requires
        crate::registry::valid_name(session),
        crate::protocol::valid_id(id),
    ensures
        crate::text::pieces(upload_url_of(session, id), '/') == seq![
            ""@,
            "v1"@,
            "sessions"@,
            session,
            "files"@,
            id,
            "content"@,
        ],
{
    reveal_strlit("");
    reveal_strlit("v1");
    reveal_strlit("sessions");
    reveal_strlit("files");
    reveal_strlit("content");
    reveal_strlit("/v1/sessions/");
    reveal_strlit("/files/");
    reveal_strlit("/content");
    lemma_no_slash_in_names(session, id);
    let parts = seq![""@, "v1"@, "sessions"@, session, "files"@, id, "content"@];
    let s1 = ""@.push('/') + "v1"@;
    let s2 = s1.push('/') + "sessions"@;
    let s3 = s2.push('/') + session;
    let s4 = s3.push('/') + "files"@;
    let s5 = s4.push('/') + id;
    let s6 = s5.push('/') + "content"@;
    crate::text::law_pieces_stand_between_separators(""@, "v1"@, '/');
    crate::text::law_pieces_stand_between_separators("v1"@, "v1"@, '/');
    crate::text::law_pieces_stand_between_separators(s1, "sessions"@, '/');
    crate::text::law_pieces_stand_between_separators("sessions"@, "sessions"@, '/');
    crate::text::law_pieces_stand_between_separators(s2, session, '/');
    crate::text::law_pieces_stand_between_separators(session, session, '/');
    crate::text::law_pieces_stand_between_separators(s3, "files"@, '/');
    crate::text::law_pieces_stand_between_separators("files"@, "files"@, '/');
    crate::text::law_pieces_stand_between_separators(s4, id, '/');
    crate::text::law_pieces_stand_between_separators(id, id, '/');
    crate::text::law_pieces_stand_between_separators(s5, "content"@, '/');
    crate::text::law_pieces_stand_between_separators("content"@, "content"@, '/');
    assert(crate::text::pieces(s6, '/') =~= parts);
    assert(upload_url_of(session, id) =~= s6);
}

/// The upload URL of an accepted preflight leads back to the transfer. Its segments name
/// the session of the lease and the transfer that was announced, in the places in which
/// the upload route reads them; and an upload that begins with what stands there is one
/// of this transfer, of the size that was asked for.
pub proof fn law_upload_url_leads_to_the_transfer<
    P: Fn(&str) -> Result<(), String>,
    R: Fn(&str) -> Result<(), String>,
>(
    files: Files,
    lease: FileSessionLease,
    request: FilePreflight,
    facts: PreflightFacts,
    purge: P,
    response: FilePreflightResponse,
    after: Files,
    now_ns: u128,
    remove: R,
    r: Result<FileUpload, FileTransferError>,
    last: Files,
)
    requires
        files_ok(files),
        files_ok(after),
        facts.now_ns + files.limits.expiry_ns <= u128::MAX,
        requested(files, lease, request, facts, purge, Ok(Some(response)), after),
        now_ns < facts.now_ns + files.limits.expiry_ns,
    ensures
        ({
            let segments = crate::text::pieces(response.upload_url@, '/');
            &&& segments == seq![
                ""@,
                "v1"@,
                "sessions"@,
                lease.spec_session(),
                "files"@,
                response.transfer_id@,
                "content"@,
            ]
            &&& begun(after, segments[3], segments[5], now_ns, remove, r, last) ==> (match r {
                Ok(upload) => upload@.session == lease.spec_session() && upload@.id
                    == response.transfer_id@ && upload@.expected == request.size && upload@.written
                    == 0,
                Err(error) => purge_failed(after, now_ns, remove, error, last),
            })
        }),
{
    let t = after.transfers.last();
    let i = after.transfers.len() - 1;
    assert(transfer_ok(after.transfers[i]));
    assert(after.live.dom().contains(t.session@));
    lemma_url_parts(lease.spec_session(), response.transfer_id@);
    let j = lemma_still_found(after, i, now_ns);
}

/// The transfer that is announced is known by the random bytes it was given: its id is
/// their digits, so two preflights with different bytes never share an id.
pub proof fn law_transfer_ids_are_their_random_bytes<R: Fn(&str) -> Result<(), String>>(
    files: Files,
    lease: FileSessionLease,
    request: FilePreflight,
    facts: PreflightFacts,
    remove: R,
    response: FilePreflightResponse,
    after: Files,
    i: int,
)
    requires
        requested(files, lease, request, facts, remove, Ok(Some(response)), after),
        0 <= i < 16,
    ensures
        response.transfer_id@.len() == 32,
        crate::protocol::valid_id(response.transfer_id@),
        16 * crate::text::hex_value(response.transfer_id@[2 * i]) + crate::text::hex_value(
            response.transfer_id@[2 * i + 1],
        ) == facts.id_bytes@[i],
        facts.now_ns + files.limits.expiry_ns <= u128::MAX && (facts.now_ns
            + files.limits.expiry_ns) / 1_000_000 <= u64::MAX ==> response.expires_at * 1_000_000
            <= facts.now_ns + files.limits.expiry_ns < (response.expires_at + 1) * 1_000_000,
{
    crate::text::law_hex_reads_back(facts.id_bytes@, i);
    crate::text::lemma_hex_text(facts.id_bytes@);
}

/// A preflight is accepted exactly where it fits: everything that was delivered and
/// everything that is promised, this file included, within the bytes and the number of
/// files that a session may have.
pub proof fn law_preflight_is_accepted_where_it_fits<R: Fn(&str) -> Result<(), String>>(
    files: Files,
    lease: FileSessionLease,
    request: FilePreflight,
    facts: PreflightFacts,
    durable: Usage,
    remove: R,
    r: Result<Option<FilePreflightResponse>, FileTransferError>,
    after: Files,
)
    requires
        requested(files, lease, request, facts, remove, r, after),
        facts.durable == Ok::<Usage, String>(durable),
        valid_file_name(request.name@),
        facts.mime_ok,
        1 <= request.size <= files.limits.max_file_bytes,
        files.live.dom().contains(lease.spec_session()),
        files.live[lease.spec_session()] == lease.spec_epoch(),
        !(r is Err && r->Err_0 is Io),
    ensures
        ({
            let session = lease.spec_session();
            let standing = purged(files, facts.now_ns).transfers;
            let fits = durable.bytes + reserved_bytes(standing, session) + request.size
                <= files.limits.max_session_bytes && durable.objects + reserved_objects(
                standing,
                session,
            ) + 1 <= files.limits.max_session_objects;
            &&& r is Ok <==> fits
            &&& !fits ==> r->Err_0 == FileTransferError::SessionBudgetExceeded
        }),
{
}

/// What a session lays claim to is the sum over its transfers that have not ended: each
/// further one adds its size and counts one if it is of the session and awaits its
/// upload, is queued or is being delivered, and nothing otherwise.
pub proof fn law_reservations_add_up(transfers: Seq<Transfer>, t: Transfer, session: Seq<char>)
    ensures
        reserved_bytes(Seq::<Transfer>::empty(), session) == 0,
        reserved_objects(Seq::<Transfer>::empty(), session) == 0,
        ({
            let counts = t.session@ == session && (t.state == FileTransferState::AwaitingUpload
                || t.state == FileTransferState::Queued || t.state
                == FileTransferState::Materializing);
            &&& reserved_bytes(transfers.push(t), session) == reserved_bytes(transfers, session)
                + if counts {
                t.size as nat
            } else {
                0
            }
            &&& reserved_objects(transfers.push(t), session) == reserved_objects(
                transfers,
                session,
            ) + if counts {
                1nat
            } else {
                0
            }
        }),
{
    crate::lists::lemma_total_push(
        transfers,
        t,
        |t: Transfer|
            if reserves(t, session) {
                t.size as nat
            } else {
                0
            },
    );
    crate::lists::lemma_total_push(
        transfers,
        t,
        |t: Transfer|
            if reserves(t, session) {
                1nat
            } else {
                0
            },
    );
}

/// A name that names a file and nothing else: none of the two that stand for directories,
/// no separator and no control character, and nothing longer than a file system takes.
/// Ordinary names are accepted.
pub proof fn law_file_names_are_plain(name: Seq<char>)
    ensures
        valid_file_name(name) ==> !name.contains('/') && !name.contains('\\') && !name.contains(
            '\u{0}',
        ) && !name.contains('\n') && name != seq!['.'] && name != seq!['.', '.'] && name.len()
            > 0,
        valid_file_name(name) ==> vstd::utf8::encode_utf8(name).len() < 256,
        name.len() > 0 && vstd::utf8::encode_utf8(name).len() < 256 && (forall|i: int|
            0 <= i < name.len() ==> ' ' <= #[trigger] name[i] <= '~' && name[i] != '/' && name[i]
                != '\\') && name[0] != '.' ==> valid_file_name(name),
{
    reveal_strlit(".");
    reveal_strlit("..");
    assert("."@ =~= seq!['.']);
    assert(".."@ =~= seq!['.', '.']);
    if valid_file_name(name) {
        assert forall|c: char| name.contains(c) implies c != '/' && c != '\\' && c != '\u{0}' && c
            != '\n' by {
            let i = name.index_of(c);
            assert(name[i] == c);
        }
    }
}

/// Transfers expire when their time has come, and only those that nobody uploads: one
/// that was asked for at a time is there until the expiry after it, and gone from then on.
pub proof fn law_transfer_expires_at_its_time<R: Fn(&str) -> Result<(), String>>(
    files: Files,
    lease: FileSessionLease,
    request: FilePreflight,
    facts: PreflightFacts,
    remove: R,
    response: FilePreflightResponse,
    after: Files,
    now_ns: u128,
)
    requires
        facts.now_ns + files.limits.expiry_ns <= u128::MAX,
        requested(files, lease, request, facts, remove, Ok(Some(response)), after),
    ensures
        ({
            let t = after.transfers.last();
            &&& purged(after, now_ns).transfers.contains(t) <==> now_ns < facts.now_ns
                + files.limits.expiry_ns
            &&& purged(after, now_ns).transfers.len() <= after.transfers.len()
        }),
        forall|t: Transfer|
            after.transfers.contains(t) && (t.uploading || t.state
                != FileTransferState::AwaitingUpload) ==> #[trigger] purged(
                after,
                now_ns,
            ).transfers.contains(t),
{
    lemma_unexpired(after.transfers, now_ns);
    let keep = |t: Transfer| !expired(t, now_ns);
    let places = crate::lists::lemma_retained(after.transfers, keep);
    assert(after.transfers.contains(after.transfers.last()));
}

/// Ended transfers are forgotten oldest first: where one is dropped, every other one of
/// the session that stays, apart from the one to keep, ended no earlier.
pub proof fn law_oldest_ended_transfers_go_first(
    transfers: Seq<Transfer>,
    live: Map<Seq<char>, u64>,
    session: Seq<char>,
    keep: Seq<char>,
    gone: Transfer,
    stays: Transfer,
)
    requires
        transfers_ok(transfers, live),
        transfers.contains(gone),
        !pruned(transfers, session, keep).contains(gone),
        pruned(transfers, session, keep).contains(stays),
        stays.session@ == session,
        stays.terminal_at_ns is Some,
        stays.id@ != keep,
        forall|other: Seq<char>|
            other != session ==> #[trigger] terminal_count(transfers, other)
                <= MAX_TERMINAL_TRANSFERS_PER_SESSION,
    ensures
        gone.session@ == session,
        gone.id@ != keep,
        gone.terminal_at_ns is Some,
        gone.terminal_at_ns->0 <= stays.terminal_at_ns->0,
        terminal_count(transfers, session) > 64,
        terminal_count(pruned(transfers, session, keep), session) == 64,
{
    lemma_pruned(transfers, live, session, keep);
    let count = terminal_count(transfers, session);
    if count <= MAX_TERMINAL_TRANSFERS_PER_SESSION {
        assert(pruned(transfers, session, keep) == transfers);
    }
    let n = (count - MAX_TERMINAL_TRANSFERS_PER_SESSION) as nat;
    lemma_without_oldest(transfers, live, session, keep, n);
    lemma_dropped_is_older(transfers, live, session, keep, n, gone, stays);
}

proof fn lemma_dropped_is_older(
    transfers: Seq<Transfer>,
    live: Map<Seq<char>, u64>,
    session: Seq<char>,
    keep: Seq<char>,
    n: nat,
    gone: Transfer,
    stays: Transfer,
)
    requires
        transfers_ok(transfers, live),
        terminal_count(transfers, session) > n,
        transfers.contains(gone),
        !without_oldest(transfers, session, keep, n).contains(gone),
        without_oldest(transfers, session, keep, n).contains(stays),
        prunable(stays, session, keep),
    ensures
        prunable(gone, session, keep),
        gone.terminal_at_ns->0 <= stays.terminal_at_ns->0,
    decreases n,
{
    if n > 0 {
        lemma_some_prunable(transfers, live, session, keep);
        let k = choose|k: int|
            0 <= k < transfers.len() && prunable(#[trigger] transfers[k], session, keep);
        lemma_oldest_exists(transfers, session, keep, k);
        let i = choose|i: int| is_oldest(transfers, session, keep, i);
        let next = transfers.remove(i);
        lemma_remove_ok(transfers, live, i);
        lemma_count_remove(transfers, i, session);
        lemma_without_oldest(next, live, session, keep, (n - 1) as nat);
        assert(next.contains(stays));
        let b = next.index_of(stays);
        let c = if b < i {
            b
        } else {
            b + 1
        };
        assert(transfers[c] == stays);
        assert(prunable(transfers[c], session, keep));
        let a = transfers.index_of(gone);
        if a != i {
            let m = if a < i {
                a
            } else {
                a - 1
            };
            assert(next[m] == gone);
            assert(next.contains(gone));
            lemma_dropped_is_older(next, live, session, keep, (n - 1) as nat, gone, stays);
        }
    }
}


/// What a client is told of a transfer is what the store has of it, field by field,
/// with the time of expiry in whole milliseconds.
pub proof fn law_status_is_the_transfers_own(status: FileTransferStatus, t: Transfer)
    requires
        describes(status, t),
    ensures
        status.transfer_id@ == t.id@,
        status.name@ == t.name@,
        status.mime@ == t.mime@,
        status.size == t.size,
        status.bytes_received == t.bytes_received,
        status.state == t.state,
        status.expires_at is Some && t.expires_at_ns < 1_000_000 * (u64::MAX as u128)
            ==> status.expires_at->0 * 1_000_000 <= t.expires_at_ns < (status.expires_at->0 + 1)
            * 1_000_000,
{
}

/// An upload that was begun is for the transfer that was asked for: its session and
/// its id, nothing written yet, and as many bytes awaited as were announced. The
/// transfer then has an upload under way, and nothing else about it changes.
pub proof fn law_begun_upload_is_for_its_transfer<R: Fn(&str) -> Result<(), String>>(
    files: Files,
    session: Seq<char>,
    id: Seq<char>,
    now_ns: u128,
    remove: R,
    upload: FileUpload,
    after: Files,
    i: int,
)
    requires
        files_ok(files),
        begun(files, session, id, now_ns, remove, Ok(upload), after),
        is_transfer(files.transfers, i, session, id),
    ensures
        upload@.session == session,
        upload@.id == id,
        upload@.written == 0,
        upload@.expected == files.transfers[i].size,
        upload@.path == staged_path(files.root, session, id),
        is_current(after, upload@),
        files.transfers[i].state == FileTransferState::AwaitingUpload,
        !files.transfers[i].uploading,
        after.transfers.contains(Transfer { uploading: true, ..files.transfers[i] }),
{
    let mid = purged(files, now_ns);
    lemma_purged(files, now_ns);
    let k = choose|k: int|
        {
            &&& #[trigger] found(mid, session, id, k)
            &&& mid.transfers[k].state == FileTransferState::AwaitingUpload
            &&& !mid.transfers[k].uploading
            &&& after == (Files {
                transfers: mid.transfers.update(
                    k,
                    Transfer { uploading: true, ..mid.transfers[k] },
                ),
                ..mid
            })
            &&& upload@ == (Upload {
                session,
                id,
                path: staged_path(mid.root, session, id),
                written: 0,
                expected: mid.transfers[k].size,
                epoch: mid.live[session],
            })
        };
    let t = mid.transfers[k];
    assert(mid.transfers.contains(t));
    let m = files.transfers.index_of(t);
    assert(is_transfer(files.transfers, m, session, id));
    lemma_one_place(files, session, id, i, m);
    assert(after.transfers[k] == (Transfer { uploading: true, ..t }));
}

/// A piece that was written counts with its length, and nothing else about the upload
/// or the store changes. One that would be more than was announced fails the upload;
/// any other is refused only where the session or the transfer is gone, or it cannot
/// be written.
pub proof fn law_upload_grows_by_what_is_written<W: FnOnce(&[u8]) -> Result<(), String>>(
    files: Files,
    upload: Upload,
    chunk: &[u8],
    now_ns: u128,
    write: W,
    r: Result<(), FileTransferError>,
    after: Files,
    next: Upload,
)
    requires
        chunk_written(files, upload, chunk, now_ns, write, r, after, next),
    ensures
        r is Ok ==> {
            &&& next.written == upload.written + chunk@.len()
            &&& next.written <= upload.expected
            &&& call_ensures(write, (chunk,), Ok::<(), String>(()))
            &&& after == files
        },
        r is Err ==> next == upload,
        next.session == upload.session && next.id == upload.id && next.path == upload.path
            && next.expected == upload.expected && next.epoch == upload.epoch,
        is_current(files, upload) && !was_cancelled(files, upload) ==> (upload.written
            + chunk@.len() > upload.expected <==> r == Err::<(), _>(
            FileTransferError::SizeMismatch,
        )),
        !is_current(files, upload) ==> r == Err::<(), _>(FileTransferError::SessionNotLive)
            && after == files,
        is_current(files, upload) && was_cancelled(files, upload) ==> r == Err::<(), _>(
            FileTransferError::Cancelled,
        ) && after == files,
{
}

/// A transfer is queued for its delivery exactly where everything that was announced
/// was written and made durable. It is then complete, and no other transfer changes.
pub proof fn law_only_a_complete_upload_is_queued<S: FnOnce() -> Result<(), String>>(
    files: Files,
    upload: Upload,
    now_ns: u128,
    sync: S,
    r: Result<FileTransferStatus, FileTransferError>,
    after: Files,
    i: int,
    j: int,
)
    requires
        upload_finished(files, upload, now_ns, sync, r, after),
        is_transfer(files.transfers, i, upload.session, upload.id),
    ensures
        r is Ok ==> {
            &&& upload.written == upload.expected
            &&& upload.written == files.transfers[i].size
            &&& call_ensures(sync, (), Ok::<(), String>(()))
            &&& is_current(files, upload)
            &&& after.transfers.len() == files.transfers.len()
            &&& after.transfers[i].state == FileTransferState::Queued
            &&& after.transfers[i].bytes_received == upload.written
            &&& !after.transfers[i].uploading
            &&& after.transfers[i].size == files.transfers[i].size
            &&& after.transfers[i].name == files.transfers[i].name
            &&& r->Ok_0.state == FileTransferState::Queued
            &&& r->Ok_0.transfer_id@ == upload.id
            &&& r->Ok_0.bytes_received == r->Ok_0.size
            &&& 0 <= j < files.transfers.len() && j != i ==> after.transfers[j]
                == files.transfers[j]
        },
        upload.written != upload.expected ==> r is Err,
        is_current(files, upload) && files.transfers[i].state != FileTransferState::Cancelled
            && !was_cancelled(files, upload) && upload.written == upload.expected
            && upload.expected == files.transfers[i].size && r is Err ==> r->Err_0 is Io,
{
}

/// An upload that could not be made durable leaves its transfer to another try; one
/// that was too short fails it for good.
pub proof fn law_unfinished_upload_is_tried_again<S: FnOnce() -> Result<(), String>>(
    files: Files,
    upload: Upload,
    now_ns: u128,
    sync: S,
    r: Result<FileTransferStatus, FileTransferError>,
    after: Files,
    i: int,
)
    requires
        files_ok(files),
        upload_finished(files, upload, now_ns, sync, r, after),
        awaits(files, upload, i),
    ensures
        upload.written != upload.expected ==> after.transfers.contains(
            failed(files.transfers[i], now_ns),
        ),
        failed(files.transfers[i], now_ns).state == FileTransferState::Failed,
        failed(files.transfers[i], now_ns).terminal_at_ns == Some(now_ns),
        upload.written == upload.expected && r is Err && r->Err_0 is Io
            ==> after.transfers.len() == files.transfers.len() && after.transfers[i].state
            == FileTransferState::AwaitingUpload && !after.transfers[i].uploading,
{
    assert(transfer_ok(files.transfers[i]));
    assert(is_transfer(files.transfers, i, upload.session, upload.id));
    if was_cancelled(files, upload) {
        let k = choose|k: int| #[trigger]
            is_transfer(files.transfers, k, upload.session, upload.id) && files.transfers[k].state
                == FileTransferState::Cancelled;
        lemma_one_place(files, upload.session, upload.id, i, k);
    }
    lemma_settled(files, i, failed(files.transfers[i], now_ns));
}

/// A delivery takes the very file that the upload was written to, out of the staging
/// directory, to the name that was announced in the directory that the guest of the
/// session sees, and expects as many bytes as were announced.
pub proof fn law_delivery_is_of_the_upload<
    D: FnOnce(&Delivery) -> Result<(), String>,
    R: Fn(&str) -> Result<(), String>,
>(
    files: Files,
    session: Seq<char>,
    id: Seq<char>,
    now_ns: u128,
    deliver: D,
    remove: R,
    status: FileTransferStatus,
    after: Files,
    i: int,
)
    requires
        files_ok(files),
        materialized(files, session, id, now_ns, deliver, remove, Ok(status), after),
        is_transfer(files.transfers, i, session, id),
    ensures
        files.transfers[i].state == FileTransferState::Queued,
        after.transfers.contains(
            Transfer { state: FileTransferState::Delivered, ..files.transfers[i] },
        ),
        exists|delivery: Delivery|
            {
                &&& #[trigger] call_ensures(deliver, (&delivery,), Ok::<(), String>(()))
                &&& crate::paths::joined(delivery.staging_dir@, delivery.id@ + ".part"@)
                    == staged_path(files.root, session, id)
                &&& delivery.drop_dir@ == crate::paths::joined(files.root, session)
                &&& delivery.id@ == id
                &&& delivery.name@ == files.transfers[i].name@
                &&& delivery.expected == files.transfers[i].size
            },
{
    let t = files.transfers[i];
    assert(transfer_ok(t));
    let delivery = choose|delivery: Delivery| #[trigger]
        delivery_of(delivery, files, t) && call_ensures(
            deliver,
            (&delivery,),
            Ok::<(), String>(()),
        );
    assert(call_ensures(deliver, (&delivery,), Ok::<(), String>(())));
    lemma_settled(files, i, delivered(t));
}

/// A transfer can be cancelled while it awaits its upload or its delivery, and not
/// otherwise. What was staged of it goes, and it is kept as cancelled at that time.
pub proof fn law_waiting_transfers_can_be_cancelled<R: Fn(&str) -> Result<(), String>>(
    files: Files,
    session: Seq<char>,
    id: Seq<char>,
    now_ns: u128,
    remove: R,
    r: Result<(), FileTransferError>,
    after: Files,
    i: int,
)
    requires
        files_ok(files),
        cancelling(files, session, id, now_ns, remove, r, after),
        is_transfer(files.transfers, i, session, id),
        !expired(files.transfers[i], now_ns),
    ensures
        ({
            let t = files.transfers[i];
            let waits = t.state == FileTransferState::AwaitingUpload || t.state
                == FileTransferState::Queued;
            &&& r is Ok ==> waits && removal(remove, staged_path(files.root, session, id), Ok(()))
                && after.transfers.contains(
                (Transfer {
                    state: FileTransferState::Cancelled,
                    uploading: false,
                    terminal_at_ns: Some(now_ns),
                    ..t
                }),
            )
            &&& r == Err::<(), _>(FileTransferError::NotCancellable) ==> !waits
            &&& waits && r is Err ==> r->Err_0 is Io
        }),
{
    let t = files.transfers[i];
    assert(transfer_ok(t));
    let mid = purged(files, now_ns);
    lemma_purged(files, now_ns);
    let k = lemma_still_found(files, i, now_ns);
    if !(r is Err && refused(files, session, id, now_ns, remove, r->Err_0, after)) {
        let m = choose|m: int|
            {
                &&& #[trigger] found(mid, session, id, m)
                &&& if is_cancellable(mid.transfers[m]) {
                    &&& after == settled(mid, m, cancelled(mid.transfers[m], now_ns))
                    &&& removed(remove, staged_path(mid.root, session, id), r)
                } else {
                    &&& r == Err::<(), _>(FileTransferError::NotCancellable)
                    &&& after == mid
                }
            };
        lemma_one_place(mid, session, id, k, m);
        if is_cancellable(t) {
            lemma_settled(mid, m, cancelled(t, now_ns));
        }
    }
}

/// A session starts with nothing of an earlier one: its transfers are gone from the
/// store and its uploads from the disk. What the guest was given goes too, unless the
/// directory is ready or the session outlived a restart. One that ends leaves
/// neither behind.
pub proof fn law_sessions_start_and_end_with_clean_directories(
    files: Files,
    session: Seq<char>,
    r: Result<Vec<DirStep>, FileTransferError>,
    after: Files,
    t: Transfer,
)
    requires
        crate::registry::valid_name(session),
        files_ok(files),
        t.session@ == session,
    ensures
        ({
            let guest = crate::paths::joined(files.root, session);
            let staging = crate::paths::joined(
                crate::paths::joined(files.root, ".staging"@),
                session,
            );
            let done = works(r->Ok_0@);
            &&& started(files, session, r, after) || started_prepared(files, session, r, after)
                || recovered(files, session, r, after) || ended(files, session, r, after) ==> {
                &&& r is Ok
                &&& done.contains(DirWork::RemoveTree(staging))
                &&& !after.transfers.contains(t)
            }
            &&& started(files, session, r, after) ==> done.contains(DirWork::RemoveTree(guest))
                && done.last() == DirWork::CreatePrivate(guest)
            &&& started_prepared(files, session, r, after) || recovered(files, session, r, after)
                ==> !done.contains(DirWork::RemoveTree(guest))
            &&& recovered(files, session, r, after) ==> done.contains(
                DirWork::CreatePrivate(guest),
            )
            &&& ended(files, session, r, after) ==> done.contains(DirWork::RemoveTree(guest))
                && !after.live.dom().contains(session)
            &&& started(files, session, r, after) || started_prepared(files, session, r, after)
                || recovered(files, session, r, after) ==> after.live.dom().contains(session)
        }),
{
    lemma_not_of(files.transfers, session);
    let done = works(r->Ok_0@);
    let guest = drop_path(files.root, session);
    let staging = staging_dir_path(files.root, session);
    assert(guest != staging) by {
        let above = crate::paths::joined(files.root, ".staging"@);
        reveal_strlit(".staging");
        assert(crate::registry::is_name_start(session[0]));
        crate::paths::law_joined_path_lies_below_its_base(files.root, session);
        crate::paths::law_joined_path_lies_below_its_base(files.root, ".staging"@);
        crate::paths::law_joined_path_lies_below_its_base(above, session);
        assert(guest.len() < staging.len());
    }
    if started(files, session, r, after) {
        assert(done[0] == DirWork::RemoveTree(guest));
        assert(done[1] == DirWork::RemoveTree(staging));
    }
    if started_prepared(files, session, r, after) {
        assert(done[0] == DirWork::RemoveTree(staging));
    }
    if recovered(files, session, r, after) {
        assert(done[0] == DirWork::CreatePrivate(guest));
        assert(done[1] == DirWork::RemoveTree(staging));
    }
    if ended(files, session, r, after) {
        assert(done[0] == DirWork::RemoveTree(guest));
        assert(done[1] == DirWork::RemoveTree(staging));
    }
}

/// Delivered files take up their blocks of 512 bytes and count one each. A file counts
/// where it is a regular one with a proper name, in a directory with the name of a
/// transfer; nothing else in the way does.
pub proof fn law_delivered_files_take_up_their_blocks(
    files: Seq<DropFile>,
    file: DropFile,
    entries: Seq<DropEntry>,
    entry: DropEntry,
)
    requires
        file.blocks * 512 <= u64::MAX,
    ensures
        file_bytes(Seq::empty()) == 0 && file_objects(Seq::empty()) == 0,
        durable_bytes(Seq::empty()) == 0 && durable_objects(Seq::empty()) == 0,
        file_bytes(files.push(file)) == file_bytes(files) + if file.is_file && file.name is Some
            && valid_file_name(file.name->0@) {
            file.blocks * 512
        } else {
            0
        },
        file_objects(files.push(file)) == file_objects(files) + if file.is_file
            && file.name is Some && valid_file_name(file.name->0@) {
            1int
        } else {
            0
        },
        durable_bytes(entries.push(entry)) == durable_bytes(entries) + if entry.is_dir
            && entry.name is Some && crate::protocol::valid_id(entry.name->0@) {
            file_bytes(entry.files@) as int
        } else {
            0
        },
        durable_objects(entries.push(entry)) == durable_objects(entries) + if entry.is_dir
            && entry.name is Some && crate::protocol::valid_id(entry.name->0@) {
            file_objects(entry.files@) as int
        } else {
            0
        },
{
    assert(files.push(file).drop_last() =~= files);
    assert(entries.push(entry).drop_last() =~= entries);
}


/// What is said of a failed file operation ends with the reason that the system gave.
pub proof fn law_transfer_reason_is_passed_on(reason: String)
    ensures
        crate::text::text_ends_with(FileTransferError::Io(reason).message_text(), reason@),
{
    let text = FileTransferError::Io(reason).message_text();
    assert(text.skip(text.len() - reason@.len()) =~= reason@);
}

} // verus!
