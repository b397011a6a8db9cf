//! What the routes of the HTTP interface decide: which sessions they serve, what
//! a cached picture is worth, and what status every failure has.

use vstd::prelude::*;

use crate::app_index::AppIndex;
use crate::blobs::{BlobStore, BlobStoreError};
use crate::file_transfers::{
    FileSessionLease, FileTransferError, FileTransferStatus, FileTransferStore,
};
use crate::guard::Refusal;
use crate::http::Status;
use crate::media::{MediaAttachment, MediaHub};
use crate::protocol::{is_blob_id, BlobDescriptor, SessionStatus};
use crate::registry::{validate_session_name, Registry};
use crate::text::{
    contains_char, join3, parse_u64, push_hexadecimal, same_text, split_text, strip_text_prefix,
    trim_text,
};
use crate::thumbnails::ThumbnailStore;

verus! {

broadcast use vstd::string::group_string_axioms;

/// A larger file is no icon, and is not read to find out.
pub const MAX_ICON_BYTES: u64 = 1_048_576;

/// Thumbnails change while a session runs: clients ask every time.
pub const THUMBNAIL_CACHE_CONTROL: &'static str = "no-cache";

/// Icons change when packages do.
pub const ICON_CACHE_CONTROL: &'static str = "max-age=3600";

/// The eight bytes that every PNG file starts with.
pub const PNG_SIGNATURE: [u8; 8] = [0x89, 0x50, 0x4e, 0x47, 0x0d, 0x0a, 0x1a, 0x0a];

/// Whether a session is running.
pub open spec fn is_running(
    sessions: Map<Seq<char>, crate::protocol::Session>,
    session: Seq<char>,
) -> bool {
    &&& crate::registry::valid_name(session)
    &&& sessions.dom().contains(session)
    &&& sessions[session].status == SessionStatus::Running
}

pub fn is_live_session(registry: &Registry, session: &str) -> (r: bool)
    requires
        registry.wf(),
    ensures
        r == is_running(registry@, session@),
{
    if validate_session_name(session).is_err() {
        return false;
    }
    match registry.get(session) {
        Some(record) => record.status == SessionStatus::Running,
        None => false,
    }
}

/// The status that a failure of the blob store has.
pub open spec fn blob_status(error: BlobStoreError) -> Status {
    match error {
        BlobStoreError::UnsupportedMime => Status::UnsupportedMediaType,
        BlobStoreError::BlobTooLarge => Status::PayloadTooLarge,
        BlobStoreError::SessionBudgetExceeded => Status::InsufficientStorage,
        BlobStoreError::InvalidSession => Status::NotFound,
        BlobStoreError::InvalidDescriptor => Status::NotFound,
        BlobStoreError::NotFound => Status::NotFound,
        BlobStoreError::SessionNotLive => Status::NotFound,
        BlobStoreError::Io(_) => Status::InternalServerError,
    }
}

pub fn blob_error_response(error: &BlobStoreError) -> (r: Status)
    ensures
        r == blob_status(*error),
{
    match error {
        BlobStoreError::UnsupportedMime => Status::UnsupportedMediaType,
        BlobStoreError::BlobTooLarge => Status::PayloadTooLarge,
        BlobStoreError::SessionBudgetExceeded => Status::InsufficientStorage,
        BlobStoreError::Io(_) => Status::InternalServerError,
        _ => Status::NotFound,
    }
}

/// The status that a failure of the transfer store has.
pub open spec fn file_error_status(error: FileTransferError) -> Status {
    match error {
        FileTransferError::InvalidSession => Status::NotFound,
        FileTransferError::NotFound => Status::NotFound,
        FileTransferError::SessionNotLive => Status::NotFound,
        FileTransferError::InvalidName => Status::BadRequest,
        FileTransferError::InvalidMime => Status::BadRequest,
        FileTransferError::SizeMismatch => Status::BadRequest,
        FileTransferError::FileTooLarge => Status::PayloadTooLarge,
        FileTransferError::SessionBudgetExceeded => Status::InsufficientStorage,
        FileTransferError::UploadInProgress => Status::Conflict,
        FileTransferError::InvalidState => Status::Conflict,
        FileTransferError::NotCancellable => Status::Conflict,
        FileTransferError::Cancelled => Status::Conflict,
        FileTransferError::Io(_) => Status::InternalServerError,
    }
}

pub fn file_error_response(error: &FileTransferError) -> (r: Status)
    ensures
        r == file_error_status(*error),
{
    match error {
        FileTransferError::InvalidSession => Status::NotFound,
        FileTransferError::NotFound => Status::NotFound,
        FileTransferError::SessionNotLive => Status::NotFound,
        FileTransferError::InvalidName => Status::BadRequest,
        FileTransferError::InvalidMime => Status::BadRequest,
        FileTransferError::SizeMismatch => Status::BadRequest,
        FileTransferError::FileTooLarge => Status::PayloadTooLarge,
        FileTransferError::SessionBudgetExceeded => Status::InsufficientStorage,
        FileTransferError::Io(_) => Status::InternalServerError,
        _ => Status::Conflict,
    }
}

/// What the request for a lease is answered.
pub open spec fn lease_answer(
    files: crate::file_transfers::Files,
    sessions: Map<Seq<char>, crate::protocol::Session>,
    session: Seq<char>,
    r: Result<FileSessionLease, FileTransferError>,
) -> bool {
    if !crate::registry::valid_name(session) {
        r == Err::<FileSessionLease, _>(FileTransferError::InvalidSession)
    } else if !files.live.dom().contains(session) || !is_running(sessions, session) {
        r == Err::<FileSessionLease, _>(FileTransferError::SessionNotLive)
    } else {
        r matches Ok(lease) && lease.spec_session() == session && lease.spec_epoch()
            == files.live[session]
    }
}

/// Takes a lease of the session in the transfer store before it looks at the
/// record. If the session is replaced between this and the request that uses the
/// lease, that request is refused.
pub fn live_file_lease(files: &FileTransferStore, registry: &Registry, session: &str) -> (r: Result<
    FileSessionLease,
    FileTransferError,
>)
    requires
        files.wf(),
        registry.wf(),
    ensures
        lease_answer(files@, registry@, session@, r),
{
    let lease = match files.lease(session) {
        Ok(lease) => lease,
        Err(error) => {
            return Err(error);
        },
    };
    if is_live_session(registry, session) {
        Ok(lease)
    } else {
        Err(FileTransferError::SessionNotLive)
    }
}

/// What the request for a transfer is answered.
pub open spec fn status_answer(
    looked_up: Result<FileTransferStatus, FileTransferError>,
    r: Result<FileTransferStatus, Status>,
) -> bool {
    match looked_up {
        Ok(status) => r == Ok::<FileTransferStatus, Status>(status),
        Err(error) => r == Err::<FileTransferStatus, Status>(file_error_status(error)),
    }
}

/// A transfer of a running session was looked up.
pub open spec fn file_looked_up<R: Fn(&str) -> Result<(), String>>(
    files: crate::file_transfers::Files,
    session: Seq<char>,
    id: Seq<char>,
    now_ns: u128,
    remove: R,
    r: Result<FileTransferStatus, Status>,
    after: crate::file_transfers::Files,
) -> bool {
    exists|looked_up: Result<FileTransferStatus, FileTransferError>|
        {
            &&& #[trigger] crate::file_transfers::looked_up(
                files,
                session,
                id,
                now_ns,
                remove,
                looked_up,
                after,
            )
            &&& status_answer(looked_up, r)
        }
}

/// How far a transfer of a running session has come.
pub fn file_status<R: Fn(&str) -> Result<(), String>>(
    registry: &Registry,
    files: &mut FileTransferStore,
    session: &str,
    transfer_id: &str,
    now_ns: u128,
    remove: R,
) -> (r: Result<FileTransferStatus, Status>)
    requires
        registry.wf(),
        old(files).wf(),
        is_running(registry@, session@) && crate::file_transfers::unreachable(
            old(files)@,
            session@,
            transfer_id@,
        ) is None ==> crate::file_transfers::can_clear(old(files)@, now_ns, remove),
    ensures
        final(files).wf(),
        if is_running(registry@, session@) {
            file_looked_up(
                old(files)@,
                session@,
                transfer_id@,
                now_ns,
                remove,
                r,
                final(files)@,
            )
        } else {
            r == Err::<FileTransferStatus, Status>(Status::NotFound) && final(files)@ == old(
                files,
            )@
        },
{
    if !is_live_session(registry, session) {
        return Err(Status::NotFound);
    }
    let ghost before = files@;
    let looked_up = files.status(session, transfer_id, now_ns, remove);
    let ghost outcome = looked_up;
    assert(crate::file_transfers::looked_up(
        before,
        session@,
        transfer_id@,
        now_ns,
        remove,
        outcome,
        files@,
    ));
    match looked_up {
        Ok(status) => Ok(status),
        Err(error) => Err(file_error_response(&error)),
    }
}

/// What the request to cancel is answered.
pub open spec fn cancel_answer(cancelled: Result<(), FileTransferError>) -> Status {
    match cancelled {
        Ok(_) => Status::NoContent,
        Err(error) => file_error_status(error),
    }
}

/// A transfer of a running session was cancelled.
pub open spec fn file_cancelled<R: Fn(&str) -> Result<(), String>>(
    files: crate::file_transfers::Files,
    session: Seq<char>,
    id: Seq<char>,
    now_ns: u128,
    remove: R,
    r: Status,
    after: crate::file_transfers::Files,
) -> bool {
    exists|cancelled: Result<(), FileTransferError>|
        {
            &&& #[trigger] crate::file_transfers::cancelling(
                files,
                session,
                id,
                now_ns,
                remove,
                cancelled,
                after,
            )
            &&& r == cancel_answer(cancelled)
        }
}

/// Cancels a transfer of a running session.
pub fn cancel_file<R: Fn(&str) -> Result<(), String>>(
    registry: &Registry,
    files: &mut FileTransferStore,
    session: &str,
    transfer_id: &str,
    now_ns: u128,
    remove: R,
) -> (r: Status)
    requires
        registry.wf(),
        old(files).wf(),
        is_running(registry@, session@) && crate::file_transfers::unreachable(
            old(files)@,
            session@,
            transfer_id@,
        ) is None ==> crate::file_transfers::can_clear(old(files)@, now_ns, remove),
        forall|i: int| #[trigger]
            crate::file_transfers::found(
                crate::file_transfers::purged(old(files)@, now_ns),
                session@,
                transfer_id@,
                i,
            ) && is_running(registry@, session@) && crate::file_transfers::is_cancellable(
                crate::file_transfers::purged(old(files)@, now_ns).transfers[i],
            ) && crate::file_transfers::cleared(old(files)@, now_ns, remove)
                ==> crate::paths::takes_path(
                remove,
                crate::file_transfers::staged_path(old(files)@.root, session@, transfer_id@),
            ),
    ensures
        final(files).wf(),
        if is_running(registry@, session@) {
            file_cancelled(
                old(files)@,
                session@,
                transfer_id@,
                now_ns,
                remove,
                r,
                final(files)@,
            )
        } else {
            r == Status::NotFound && final(files)@ == old(files)@
        },
{
    if !is_live_session(registry, session) {
        return Status::NotFound;
    }
    let ghost before = files@;
    let cancelled = files.cancel(session, transfer_id, now_ns, remove);
    let ghost outcome = cancelled;
    assert(crate::file_transfers::cancelling(
        before,
        session@,
        transfer_id@,
        now_ns,
        remove,
        outcome,
        files@,
    ));
    match cancelled {
        Ok(_) => Status::NoContent,
        Err(error) => file_error_response(&error),
    }
}

/// Whether a `Content-Length` header declares that many bytes.
pub open spec fn declares(content_length: Option<Seq<char>>, expected: u64) -> bool {
    content_length is Some && crate::text::unsigned(content_length->0) == Some(expected as nat)
}

/// What is answered before the body of an upload is read.
pub open spec fn upload_answer(
    looked_up: Result<FileTransferStatus, Status>,
    content_length: Option<Seq<char>>,
    r: Result<u64, Status>,
) -> bool {
    match looked_up {
        Err(status) => r == Err::<u64, Status>(status),
        Ok(transfer) => if declares(content_length, transfer.size) {
            r == Ok::<u64, Status>(transfer.size)
        } else {
            r == Err::<u64, Status>(Status::BadRequest)
        },
    }
}

/// The transfer was looked up, and the declared length held against it.
pub open spec fn upload_checked<R: Fn(&str) -> Result<(), String>>(
    files: crate::file_transfers::Files,
    session: Seq<char>,
    id: Seq<char>,
    content_length: Option<Seq<char>>,
    now_ns: u128,
    remove: R,
    r: Result<u64, Status>,
    after: crate::file_transfers::Files,
) -> bool {
    exists|looked_up: Result<FileTransferStatus, Status>|
        {
            &&& #[trigger] file_looked_up(files, session, id, now_ns, remove, looked_up, after)
            &&& upload_answer(looked_up, content_length, r)
        }
}

/// Whether the upload of a transfer may begin: the session runs, the transfer is
/// there, and exactly its bytes are declared. Gives their number.
pub fn check_file_upload<R: Fn(&str) -> Result<(), String>>(
    registry: &Registry,
    files: &mut FileTransferStore,
    session: &str,
    transfer_id: &str,
    content_length: Option<&str>,
    now_ns: u128,
    remove: R,
) -> (r: Result<u64, Status>)
    requires
        registry.wf(),
        old(files).wf(),
        is_running(registry@, session@) && crate::file_transfers::unreachable(
            old(files)@,
            session@,
            transfer_id@,
        ) is None ==> crate::file_transfers::can_clear(old(files)@, now_ns, remove),
    ensures
        final(files).wf(),
        if is_running(registry@, session@) {
            upload_checked(
                old(files)@,
                session@,
                transfer_id@,
                crate::text::text_of(content_length),
                now_ns,
                remove,
                r,
                final(files)@,
            )
        } else {
            r == Err::<u64, Status>(Status::NotFound) && final(files)@ == old(files)@
        },
{
    let ghost before = files@;
    let looked_up = file_status(registry, files, session, transfer_id, now_ns, remove);
    let ghost outcome = looked_up;
    assert(is_running(registry@, session@) ==> file_looked_up(
        before,
        session@,
        transfer_id@,
        now_ns,
        remove,
        outcome,
        files@,
    ));
    let size = match looked_up {
        Ok(transfer) => transfer.size,
        Err(status) => {
            return Err(status);
        },
    };
    let declared = match content_length {
        Some(value) => parse_u64(value),
        None => None,
    };
    match declared {
        Some(length) => if length == size {
            Ok(size)
        } else {
            Err(Status::BadRequest)
        },
        None => Err(Status::BadRequest),
    }
}

/// What is answered before the body of a blob is read.
pub open spec fn blob_upload_answer(
    sessions: Map<Seq<char>, crate::protocol::Session>,
    session: Seq<char>,
    content_type: Option<Seq<char>>,
    r: Result<String, Status>,
) -> bool {
    if !is_running(sessions, session) {
        r == Err::<String, Status>(Status::NotFound)
    } else if content_type is None || content_type->0.contains(';') {
        r == Err::<String, Status>(Status::UnsupportedMediaType)
    } else {
        r is Ok && r->Ok_0@ == content_type->0
    }
}

/// Whether the upload of a blob may begin, and of what type it is. A type with
/// parameters is refused.
pub fn check_blob_upload(registry: &Registry, session: &str, content_type: Option<&str>) -> (r:
    Result<String, Status>)
    requires
        registry.wf(),
    ensures
        blob_upload_answer(registry@, session@, crate::text::text_of(content_type), r),
{
    if !is_live_session(registry, session) {
        return Err(Status::NotFound);
    }
    match content_type {
        None => Err(Status::UnsupportedMediaType),
        Some(mime) => if contains_char(mime, ';') {
            Err(Status::UnsupportedMediaType)
        } else {
            Ok(mime.to_owned())
        },
    }
}

/// What happens to a body while it is read.
#[derive(Clone, Copy, Debug, PartialEq, Eq, Structural)]
pub enum BodyEvent {
    /// More bytes came.
    Chunk,
    /// The body is complete.
    End,
    /// The connection broke.
    Broken,
    /// Nothing came for too long.
    Idle,
    /// The whole body took too long.
    Late,
}

/// What is to be done with a body.
#[derive(Clone, Copy, Debug, PartialEq, Eq, Structural)]
pub enum BodyStep {
    Write,
    Finish,
    /// Give up with that status.
    Stop(Status),
}

pub open spec fn body_step_for(event: BodyEvent) -> BodyStep {
    match event {
        BodyEvent::Chunk => BodyStep::Write,
        BodyEvent::End => BodyStep::Finish,
        BodyEvent::Broken => BodyStep::Stop(Status::BadRequest),
        BodyEvent::Idle => BodyStep::Stop(Status::RequestTimeout),
        BodyEvent::Late => BodyStep::Stop(Status::RequestTimeout),
    }
}

pub fn body_step(event: BodyEvent) -> (r: BodyStep)
    ensures
        r == body_step_for(event),
{
    match event {
        BodyEvent::Chunk => BodyStep::Write,
        BodyEvent::End => BodyStep::Finish,
        BodyEvent::Broken => BodyStep::Stop(Status::BadRequest),
        BodyEvent::Idle => BodyStep::Stop(Status::RequestTimeout),
        BodyEvent::Late => BodyStep::Stop(Status::RequestTimeout),
    }
}

/// The blob that was loaded for a download.
pub open spec fn download_found<L: FnOnce(&str) -> Option<(BlobDescriptor, bool)>>(
    load: L,
    root: Seq<char>,
    session: Seq<char>,
    id: Seq<char>,
    r: Result<BlobDescriptor, Status>,
) -> bool {
    exists|loaded: Option<(BlobDescriptor, bool)>|
        {
            &&& #[trigger] crate::blobs::loaded_from(
                load,
                crate::blobs::meta_path(root, session, id),
                loaded,
            )
            &&& match crate::blobs::stored_descriptor(session, id, loaded) {
                Some(blob) => r matches Ok(descriptor) && descriptor@ == blob,
                None => r == Err::<BlobDescriptor, Status>(Status::NotFound),
            }
        }
}

/// The blob that a running session has under an id.
pub fn find_download<L: FnOnce(&str) -> Option<(BlobDescriptor, bool)>>(
    registry: &Registry,
    blobs: &BlobStore,
    session: &str,
    id: &str,
    load: L,
) -> (r: Result<BlobDescriptor, Status>)
    requires
        registry.wf(),
        is_running(registry@, session@) && crate::protocol::valid_id(id@)
            ==> crate::paths::takes_path(
            load,
            crate::blobs::meta_path(blobs@.root, session@, id@),
        ),
    ensures
        if is_running(registry@, session@) && crate::protocol::valid_id(id@) {
            download_found(load, blobs@.root, session@, id@, r)
        } else {
            r == Err::<BlobDescriptor, Status>(Status::NotFound)
        },
{
    if !is_live_session(registry, session) || !is_blob_id(id) {
        return Err(Status::NotFound);
    }
    match blobs.descriptor(session, id, load) {
        Some(blob) => Ok(blob),
        None => Err(Status::NotFound),
    }
}

/// A request that passed its checks got a slot, or there was none to be had.
pub open spec fn slotted<T, P, K: FnOnce() -> Option<P>>(
    checked: Result<T, Status>,
    take: K,
    r: Result<(T, P), Status>,
) -> bool {
    match checked {
        Err(status) => r == Err::<(T, P), Status>(status),
        Ok(value) => match r {
            Ok((same, slot)) => same == value && call_ensures(take, (), Some(slot)),
            Err(status) => status == Status::TooManyRequests && call_ensures(
                take,
                (),
                None::<P>,
            ),
        },
    }
}

/// Takes one of the few slots for a request that passed its checks. The slots are a
/// budget, not a queue: where none is free the request is turned away.
pub fn with_slot<T, P, K: FnOnce() -> Option<P>>(checked: Result<T, Status>, take: K) -> (r: Result<
    (T, P),
    Status,
>)
    requires
        checked is Ok ==> call_requires(take, ()),
    ensures
        slotted(checked, take, r),
{
    match checked {
        Err(status) => Err(status),
        Ok(value) => match take() {
            Some(slot) => Ok((value, slot)),
            None => Err(Status::TooManyRequests),
        },
    }
}

/// The answer to the request for a blob.
#[derive(Debug)]
pub enum DownloadAnswer<P, F> {
    Refused(Status),
    /// The content of the file, with its type and length; the slot is held meanwhile.
    Content { slot: P, file: F, content_type: String, content_length: u64 },
}

/// `open` can be given this blob.
pub open spec fn can_open<F, O: FnOnce(&BlobDescriptor) -> Result<F, BlobStoreError>>(
    open: O,
    blob: BlobDescriptor,
) -> bool {
    call_requires(open, (&blob,))
}

/// `open` was given this blob and answered `opened`.
pub open spec fn opened_as<F, O: FnOnce(&BlobDescriptor) -> Result<F, BlobStoreError>>(
    open: O,
    blob: BlobDescriptor,
    opened: Result<F, BlobStoreError>,
) -> bool {
    call_ensures(open, (&blob,), opened)
}

/// A blob that was not opened is answered as its error is.
pub open spec fn unopened<F, O: FnOnce(&BlobDescriptor) -> Result<F, BlobStoreError>>(
    open: O,
    blob: BlobDescriptor,
    status: Status,
) -> bool {
    exists|error: BlobStoreError| #[trigger]
        opened_as(open, blob, Err::<F, BlobStoreError>(error)) && status == blob_status(error)
}

/// The answer to a download: what is not there is not found, whatever the slots; then a
/// slot has to be free; then the file has to be there; and then it is sent with the type
/// and the length of its descriptor.
pub open spec fn download_answer<
    P,
    F,
    K: FnOnce() -> Option<P>,
    O: FnOnce(&BlobDescriptor) -> Result<F, BlobStoreError>,
>(
    found: Result<BlobDescriptor, Status>,
    take: K,
    open: O,
    r: DownloadAnswer<P, F>,
) -> bool {
    match found {
        Err(status) => r == DownloadAnswer::<P, F>::Refused(status),
        Ok(blob) => match r {
            DownloadAnswer::Refused(status) => {
                ||| status == Status::TooManyRequests && call_ensures(take, (), None::<P>)
                ||| exists|slot: P| #[trigger]
                    call_ensures(take, (), Some(slot)) && unopened(open, blob, status)
            },
            DownloadAnswer::Content { slot, file, content_type, content_length } => {
                &&& call_ensures(take, (), Some(slot))
                &&& opened_as(open, blob, Ok(file))
                &&& content_type == blob.mime
                &&& content_length == blob.size
            },
        },
    }
}

/// Answers the request for a blob that was looked for. `take` takes a slot for the
/// download, and `open` locates the blob's file and opens it.
pub fn answer_download<
    P,
    F,
    K: FnOnce() -> Option<P>,
    O: FnOnce(&BlobDescriptor) -> Result<F, BlobStoreError>,
>(found: Result<BlobDescriptor, Status>, take: K, open: O) -> (r: DownloadAnswer<P, F>)
    requires
        found is Ok ==> call_requires(take, ()),
        forall|slot: P| #[trigger]
            call_ensures(take, (), Some(slot)) && found is Ok ==> can_open(open, found->Ok_0),
    ensures
        download_answer(found, take, open, r),
{
    let (blob, slot) = match with_slot(found, take) {
        Ok((blob, slot)) => (blob, slot),
        Err(status) => {
            return DownloadAnswer::Refused(status);
        },
    };
    assert(call_ensures(take, (), Some(slot)));
    let opened = open(&blob);
    assert(opened_as(open, blob, opened));
    match opened {
        Err(error) => DownloadAnswer::Refused(blob_error_response(&error)),
        Ok(file) => DownloadAnswer::Content {
            slot,
            file,
            content_type: blob.mime,
            content_length: blob.size,
        },
    }
}

/// The answer to the request to wake a host.
pub open spec fn wake_status(sent: bool) -> Status {
    if sent {
        Status::NoContent
    } else {
        Status::InternalServerError
    }
}

/// What the request to wake a host is answered once the packet was sent or not.
pub fn wake_answer(sent: bool) -> (r: Status)
    ensures
        r == wake_status(sent),
{
    if sent {
        Status::NoContent
    } else {
        Status::InternalServerError
    }
}

/// Whether one candidate of an `If-None-Match` header stands for the tag. Weak
/// tags count like strong ones, and the asterisk stands for anything.
pub open spec fn candidate_matches(candidate: Seq<char>, etag: Seq<char>) -> bool {
    ||| candidate == "*"@
    ||| crate::text::text_starts_with(candidate, "W/"@) && candidate.skip("W/"@.len() as int)
        == etag
    ||| !crate::text::text_starts_with(candidate, "W/"@) && candidate == etag
}

/// Whether one of the candidates in one header does.
pub open spec fn header_matches(value: Seq<char>, etag: Seq<char>) -> bool {
    let listed = crate::text::pieces(value, ',');
    exists|i: int|
        0 <= i < listed.len() && candidate_matches(
            crate::text::trimmed(#[trigger] listed[i]),
            etag,
        )
}

/// Whether one of the headers does.
pub open spec fn revalidates(values: Seq<Seq<char>>, etag: Seq<char>) -> bool {
    exists|i: int| 0 <= i < values.len() && header_matches(#[trigger] values[i], etag)
}

fn header_lists(value: &str, etag: &str) -> (r: bool)
    ensures
        r == header_matches(value@, etag@),
{
    let listed = split_text(value, ',');
    let ghost all = crate::text::texts(listed@);
    let mut i: usize = 0;
    while i < listed.len()
        invariant
            i <= listed@.len(),
            all == crate::text::texts(listed@),
            all == crate::text::pieces(value@, ','),
            forall|j: int|
                0 <= j < i ==> !candidate_matches(
                    crate::text::trimmed(#[trigger] all[j]),
                    etag@,
                ),
        decreases listed@.len() - i,
    {
        let candidate = trim_text(listed[i].as_str());
        let found = same_text(candidate.as_str(), "*") || match strip_text_prefix(
            candidate.as_str(),
            "W/",
        ) {
            Some(strong) => same_text(strong.as_str(), etag),
            None => same_text(candidate.as_str(), etag),
        };
        if found {
            assert(candidate_matches(crate::text::trimmed(all[i as int]), etag@));
            return true;
        }
        assert(!candidate_matches(crate::text::trimmed(all[i as int]), etag@));
        i += 1;
    }
    false
}

/// Whether a client that sent these `If-None-Match` headers has the picture with
/// that tag.
pub fn if_none_match_matches(values: &Vec<String>, etag: &str) -> (r: bool)
    ensures
        r == revalidates(crate::text::texts(values@), etag@),
{
    let ghost all = crate::text::texts(values@);
    let mut i: usize = 0;
    while i < values.len()
        invariant
            i <= values@.len(),
            all == crate::text::texts(values@),
            forall|j: int| 0 <= j < i ==> !header_matches(#[trigger] all[j], etag@),
        decreases values@.len() - i,
    {
        if header_lists(values[i].as_str(), etag) {
            assert(header_matches(all[i as int], etag@));
            return true;
        }
        assert(!header_matches(all[i as int], etag@));
        i += 1;
    }
    false
}

/// The tag of an icon, from when its file was changed and how long it is. Where the
/// time is not known it counts as the beginning of time.
pub fn icon_etag(modified_ms: Option<u128>, len: u64) -> (r: String)
    ensures
        r@ == crate::thumbnails::etag_text(
            (match modified_ms {
                Some(ms) => ms as nat,
                None => 0,
            }),
            len as nat,
        ),
{
    let ms: u128 = match modified_ms {
        Some(ms) => ms,
        None => 0,
    };
    let mut etag = String::new();
    etag.push('"');
    push_hexadecimal(&mut etag, ms);
    etag.push('-');
    push_hexadecimal(&mut etag, len as u128);
    etag.push('"');
    assert(etag@ =~= crate::thumbnails::etag_text(ms as nat, len as nat));
    etag
}

/// Whether bytes start like a PNG file.
pub open spec fn is_png(bytes: Seq<u8>) -> bool {
    bytes.len() >= 8 && forall|i: int| 0 <= i < 8 ==> #[trigger] bytes[i] == PNG_SIGNATURE[i]
}

/// What was read of an icon, if it may be served: it is not too large, however
/// large its file seemed, and it starts like a PNG file.
pub fn check_png(bytes: Vec<u8>) -> (r: Result<Vec<u8>, &'static str>)
    ensures
        if bytes@.len() > MAX_ICON_BYTES {
            r is Err && r->Err_0@ == "larger than the icon limit"@
        } else if !is_png(bytes@) {
            r is Err && r->Err_0@ == "not a PNG"@
        } else {
            r == Ok::<Vec<u8>, &'static str>(bytes)
        },
{
    if bytes.len() as u64 > MAX_ICON_BYTES {
        return Err("larger than the icon limit");
    }
    if bytes.len() < 8 {
        return Err("not a PNG");
    }
    let mut i: usize = 0;
    while i < 8
        invariant
            i <= 8,
            8 <= bytes@.len() <= MAX_ICON_BYTES,
            forall|j: int| 0 <= j < i ==> #[trigger] bytes@[j] == PNG_SIGNATURE[j],
        decreases 8 - i,
    {
        if bytes[i] != PNG_SIGNATURE[i] {
            assert(bytes@[i as int] != PNG_SIGNATURE[i as int]);
            return Err("not a PNG");
        }
        i += 1;
    }
    Ok(bytes)
}

/// The answer to a request for a picture.
#[derive(Debug, PartialEq, Eq)]
pub enum ImageAnswer {
    Missing,
    /// The client has it.
    Unchanged { etag: String, cache_control: &'static str },
    Image {
        content_type: &'static str,
        etag: String,
        cache_control: &'static str,
        body: Vec<u8>,
    },
}

/// What the client learns of a picture.
#[verifier::ext_equal]
pub enum Picture {
    Missing,
    Unchanged { etag: Seq<char>, cache_control: Seq<char> },
    Image {
        content_type: Seq<char>,
        etag: Seq<char>,
        cache_control: Seq<char>,
        body: Seq<u8>,
    },
}

impl View for ImageAnswer {
    type V = Picture;

    open spec fn view(&self) -> Picture {
        match self {
            ImageAnswer::Missing => Picture::Missing,
            ImageAnswer::Unchanged { etag, cache_control } => Picture::Unchanged {
                etag: etag@,
                cache_control: cache_control@,
            },
            ImageAnswer::Image { content_type, etag, cache_control, body } => Picture::Image {
                content_type: content_type@,
                etag: etag@,
                cache_control: cache_control@,
                body: body@,
            },
        }
    }
}

fn clone_bytes(bytes: &Vec<u8>) -> (r: Vec<u8>)
    ensures
        r@ == bytes@,
{
    let mut out: Vec<u8> = Vec::new();
    let mut i: usize = 0;
    while i < bytes.len()
        invariant
            i <= bytes@.len(),
            out@ == bytes@.take(i as int),
        decreases bytes@.len() - i,
    {
        out.push(bytes[i]);
        assert(bytes@.take(i as int + 1) =~= bytes@.take(i as int).push(bytes@[i as int]));
        i += 1;
    }
    assert(bytes@.take(bytes@.len() as int) =~= bytes@);
    out
}

/// The answer to the request for the picture of a session.
pub open spec fn thumbnail_answer(
    sessions: Map<Seq<char>, crate::protocol::Session>,
    thumbnails: crate::thumbnails::Thumbnails,
    session: Seq<char>,
    if_none_match: Seq<Seq<char>>,
) -> Picture {
    if !is_running(sessions, session) || !thumbnails.entries.dom().contains(session) {
        Picture::Missing
    } else {
        let stored = *thumbnails.entries[session];
        if revalidates(if_none_match, stored.etag@) {
            Picture::Unchanged { etag: stored.etag@, cache_control: THUMBNAIL_CACHE_CONTROL@ }
        } else {
            Picture::Image {
                content_type: "image/jpeg"@,
                etag: stored.etag@,
                cache_control: THUMBNAIL_CACHE_CONTROL@,
                body: stored.jpeg@,
            }
        }
    }
}

/// The latest picture of a running session.
pub fn session_thumbnail(
    registry: &Registry,
    thumbnails: &ThumbnailStore,
    session: &str,
    if_none_match: &Vec<String>,
) -> (r: ImageAnswer)
    requires
        registry.wf(),
        thumbnails.wf(),
    ensures
        r@ == thumbnail_answer(
            registry@,
            thumbnails@,
            session@,
            crate::text::texts(if_none_match@),
        ),
{
    if !is_live_session(registry, session) {
        return ImageAnswer::Missing;
    }
    let stored = match thumbnails.get(session) {
        Some(stored) => stored,
        None => {
            return ImageAnswer::Missing;
        },
    };
    let etag = stored.etag.clone();
    if if_none_match_matches(if_none_match, etag.as_str()) {
        return ImageAnswer::Unchanged { etag, cache_control: THUMBNAIL_CACHE_CONTROL };
    }
    ImageAnswer::Image {
        content_type: "image/jpeg",
        etag,
        cache_control: THUMBNAIL_CACHE_CONTROL,
        body: clone_bytes(&stored.jpeg),
    }
}

/// What an open file is found to be.
#[derive(Clone, Copy, Debug, PartialEq, Eq)]
pub struct OpenFile {
    pub is_file: bool,
    pub len: u64,
    /// When it was changed, in milliseconds since 1970, where that is known.
    pub modified_ms: Option<u128>,
}

/// The picture that was read from the file of an icon.
pub open spec fn icon_read<R: FnOnce(&str) -> Option<Vec<u8>>>(
    read: R,
    path: Seq<char>,
    etag: Seq<char>,
    r: Picture,
) -> bool {
    exists|asked: &str, bytes: Option<Vec<u8>>|
        {
            &&& asked@ == path
            &&& #[trigger] call_ensures(read, (asked,), bytes)
            &&& r == (if bytes is Some && bytes->0@.len() <= MAX_ICON_BYTES && is_png(bytes->0@) {
                Picture::Image {
                    content_type: "image/png"@,
                    etag,
                    cache_control: ICON_CACHE_CONTROL@,
                    body: bytes->0@,
                }
            } else {
                Picture::Missing
            })
        }
}

/// The answer once the file of an icon was opened.
pub open spec fn icon_opened<R: FnOnce(&str) -> Option<Vec<u8>>>(
    read: R,
    path: Seq<char>,
    file: Option<OpenFile>,
    if_none_match: Seq<Seq<char>>,
    r: Picture,
) -> bool {
    if file is None || !file->0.is_file || file->0.len > MAX_ICON_BYTES {
        r == Picture::Missing
    } else {
        let etag = file_etag(file->0);
        if revalidates(if_none_match, etag) {
            r == (Picture::Unchanged { etag, cache_control: ICON_CACHE_CONTROL@ })
        } else {
            icon_read(read, path, etag, r)
        }
    }
}

/// The tag of an icon's file.
pub open spec fn file_etag(file: OpenFile) -> Seq<char> {
    crate::thumbnails::etag_text(
        (match file.modified_ms {
            Some(ms) => ms as nat,
            None => 0,
        }),
        file.len as nat,
    )
}

/// The file can be served, and the client does not have it yet.
pub open spec fn has_to_be_read(file: OpenFile, if_none_match: Seq<Seq<char>>) -> bool {
    file.is_file && file.len <= MAX_ICON_BYTES && !revalidates(if_none_match, file_etag(file))
}

/// The answer for an icon: its file was opened and, where it has to be, read.
pub open spec fn icon_answer<
    O: FnOnce(&str) -> Option<OpenFile>,
    R: FnOnce(&str) -> Option<Vec<u8>>,
>(open: O, read: R, path: Seq<char>, if_none_match: Seq<Seq<char>>, r: Picture) -> bool {
    exists|asked: &str, file: Option<OpenFile>|
        {
            &&& asked@ == path
            &&& #[trigger] call_ensures(open, (asked,), file)
            &&& icon_opened(read, path, file, if_none_match, r)
        }
}

/// The icon of an application. Its path was found when the index was loaded and
/// never comes from the request. `open` says what the file is, and `read` reads
/// it, one byte more than may be served at most.
pub fn app_icon<O: FnOnce(&str) -> Option<OpenFile>, R: FnOnce(&str) -> Option<Vec<u8>>>(
    apps: &AppIndex,
    id: &str,
    if_none_match: &Vec<String>,
    open: O,
    read: R,
) -> (r: ImageAnswer)
    requires
        apps.wf(),
        apps@.icons.dom().contains(id@) ==> crate::paths::takes_path(open, apps@.icons[id@]),
        forall|asked: &str, file: OpenFile|
            apps@.icons.dom().contains(id@) && asked@ == apps@.icons[id@]
                && #[trigger] call_ensures(open, (asked,), Some(file)) && has_to_be_read(
                file,
                crate::text::texts(if_none_match@),
            ) ==> crate::paths::takes_path(read, apps@.icons[id@]),
    ensures
        if apps@.icons.dom().contains(id@) {
            icon_answer(
                open,
                read,
                apps@.icons[id@],
                crate::text::texts(if_none_match@),
                r@,
            )
        } else {
            r@ == Picture::Missing
        },
{
    let path = match apps.icon_path(id) {
        Some(path) => path,
        None => {
            return ImageAnswer::Missing;
        },
    };
    let asked = path.as_str();
    let opened = open(asked);
    assert(call_ensures(open, (asked,), opened));
    let file = match opened {
        Some(file) => file,
        None => {
            return ImageAnswer::Missing;
        },
    };
    if !file.is_file || file.len > MAX_ICON_BYTES {
        return ImageAnswer::Missing;
    }
    let etag = icon_etag(file.modified_ms, file.len);
    if if_none_match_matches(if_none_match, etag.as_str()) {
        return ImageAnswer::Unchanged { etag, cache_control: ICON_CACHE_CONTROL };
    }
    let bytes = read(asked);
    assert(call_ensures(read, (asked,), bytes));
    let bytes = match bytes {
        Some(bytes) => bytes,
        None => {
            return ImageAnswer::Missing;
        },
    };
    match check_png(bytes) {
        Ok(body) => ImageAnswer::Image {
            content_type: "image/png",
            etag,
            cache_control: ICON_CACHE_CONTROL,
            body,
        },
        Err(_) => ImageAnswer::Missing,
    }
}

/// Whether a protocol is among those that were asked for.
pub open spec fn offers(protocols: Seq<Seq<char>>, wanted: Seq<char>) -> bool {
    exists|i: int| 0 <= i < protocols.len() && #[trigger] protocols[i] == wanted
}

fn offers_protocol(protocols: &Vec<String>, wanted: &str) -> (r: bool)
    ensures
        r == offers(crate::text::texts(protocols@), wanted@),
{
    let ghost all = crate::text::texts(protocols@);
    let mut i: usize = 0;
    while i < protocols.len()
        invariant
            i <= protocols@.len(),
            all == crate::text::texts(protocols@),
            forall|j: int| 0 <= j < i ==> #[trigger] all[j] != wanted@,
        decreases protocols@.len() - i,
    {
        if same_text(protocols[i].as_str(), wanted) {
            assert(all[i as int] == wanted@);
            return true;
        }
        assert(all[i as int] != wanted@);
        i += 1;
    }
    false
}

/// What a client that does not speak the protocol is told.
pub open spec fn protocol_refusal(wanted: Seq<char>) -> (Status, Seq<char>) {
    (Status::BadRequest, "WebSocket subprotocol "@ + wanted + " is required"@)
}

/// Refuses a client that does not speak the wanted protocol.
pub fn check_protocol(protocols: &Vec<String>, wanted: &str) -> (r: Option<Refusal>)
    ensures
        crate::guard::refusal_of(r) == (if offers(crate::text::texts(protocols@), wanted@) {
            None
        } else {
            Some(protocol_refusal(wanted@))
        }),
{
    if offers_protocol(protocols, wanted) {
        None
    } else {
        Some(
            Refusal {
                status: Status::BadRequest,
                body: join3("WebSocket subprotocol ", wanted, " is required"),
            },
        )
    }
}

/// Whether a session is starting or running.
pub open spec fn is_up(
    sessions: Map<Seq<char>, crate::protocol::Session>,
    session: Seq<char>,
) -> bool {
    sessions.dom().contains(session) && crate::registry::is_live(sessions[session])
}

/// Why a client cannot attach to the media of a session, in the order of the
/// checks.
pub open spec fn media_refusal(
    sessions: Map<Seq<char>, crate::protocol::Session>,
    hub: crate::media::Hub,
    session: Seq<char>,
    protocols: Seq<Seq<char>>,
    wanted: Seq<char>,
) -> Option<(Status, Seq<char>)> {
    if !crate::registry::valid_name(session) {
        Some((Status::BadRequest, "invalid session name"@))
    } else if !is_up(sessions, session) {
        Some((Status::NotFound, "session is not running"@))
    } else if !offers(protocols, wanted) {
        Some(protocol_refusal(wanted))
    } else if !hub.sessions.dom().contains(session) {
        Some((Status::ServiceUnavailable, "session media is not ready"@))
    } else {
        None
    }
}

/// Attaches a client to the media of a session.
pub fn attach_media(
    registry: &Registry,
    hub: &mut MediaHub,
    session: &str,
    protocols: &Vec<String>,
    wanted: &str,
) -> (r: Result<MediaAttachment, Refusal>)
    requires
        registry.wf(),
        old(hub).wf(),
        old(hub)@.next_client_id < u64::MAX,
    ensures
        final(hub).wf(),
        match r {
            Ok(attachment) => {
                &&& media_refusal(
                    registry@,
                    old(hub)@,
                    session@,
                    crate::text::texts(protocols@),
                    wanted@,
                ) is None
                &&& attachment.spec_session() == session@
                &&& attachment.spec_id() == old(hub)@.next_client_id
                &&& crate::media::with_client(old(hub)@, session@, final(hub)@)
            },
            Err(refusal) => {
                &&& media_refusal(
                    registry@,
                    old(hub)@,
                    session@,
                    crate::text::texts(protocols@),
                    wanted@,
                ) == Some((refusal.status, refusal.body@))
                &&& final(hub)@ == (if refusal.status == Status::ServiceUnavailable {
                    crate::media::without_client(old(hub)@)
                } else {
                    old(hub)@
                })
            },
        },
{
    if validate_session_name(session).is_err() {
        return Err(
            Refusal { status: Status::BadRequest, body: "invalid session name".to_owned() },
        );
    }
    let up = match registry.get(session) {
        Some(record) => record.status == SessionStatus::Starting || record.status
            == SessionStatus::Running,
        None => false,
    };
    if !up {
        return Err(
            Refusal { status: Status::NotFound, body: "session is not running".to_owned() },
        );
    }
    if let Some(refusal) = check_protocol(protocols, wanted) {
        return Err(refusal);
    }
    match hub.attach(session) {
        Ok(attachment) => Ok(attachment),
        Err(_) => Err(
            Refusal {
                status: Status::ServiceUnavailable,
                body: "session media is not ready".to_owned(),
            },
        ),
    }
}


/// A client that names the tag has the picture: alone, as a weak tag, after others in
/// one header, or by the asterisk that stands for anything.
pub proof fn law_named_tag_is_recognised(
    values: Seq<Seq<char>>,
    i: int,
    etag: Seq<char>,
    others: Seq<char>,
)
    requires
        0 <= i < values.len(),
        etag.len() > 1,
        etag[0] == '"',
        etag.last() == '"',
        !etag.contains(','),
    ensures
        values[i] == etag ==> revalidates(values, etag),
        values[i] == seq!['W', '/'] + etag ==> revalidates(values, etag),
        values[i] == seq!['*'] ==> revalidates(values, etag),
        values[i] == others.push(',') + (seq![' '] + etag) ==> revalidates(values, etag),
        values[i] == others.push(',') + (seq![' ', 'W', '/'] + etag) ==> revalidates(values, etag),
{
    reveal_strlit("W/");
    reveal_strlit("*");
    reveal_with_fuel(crate::text::trimmed, 3);
    assert("W/"@ =~= seq!['W', '/']);
    assert("*"@ =~= seq!['*']);
    let weak = seq!['W', '/'] + etag;
    let star = seq!['*'];
    assert(weak.take(2) =~= "W/"@);
    assert(weak.skip(2) =~= etag);
    assert(candidate_matches(weak, etag));
    if crate::text::text_starts_with(etag, "W/"@) {
        assert(etag.take(2)[0] == 'W');
    }
    assert(candidate_matches(etag, etag));
    assert(crate::text::trimmed(etag) == etag);
    assert(crate::text::trimmed(weak) == weak);
    assert(crate::text::trimmed(star) == star);
    let value = values[i];
    let spaced = seq![' '] + etag;
    let weakly = seq![' ', 'W', '/'] + etag;
    assert(spaced.drop_first() =~= etag);
    assert(weakly.drop_first() =~= weak);
    assert(crate::text::trimmed(spaced) == etag);
    assert(crate::text::trimmed(weakly) == weak);
    assert(!weak.contains(',')) by {
        if weak.contains(',') {
            let k = weak.index_of(',');
            assert(etag[k - 2] == ',');
        }
    }
    assert(!spaced.contains(',')) by {
        if spaced.contains(',') {
            let k = spaced.index_of(',');
            assert(etag[k - 1] == ',');
        }
    }
    assert(!weakly.contains(',')) by {
        if weakly.contains(',') {
            let k = weakly.index_of(',');
            assert(etag[k - 3] == ',');
        }
    }
    if value == etag || value == weak || value == star {
        crate::text::law_pieces_stand_between_separators(value, value, ',');
        assert(crate::text::pieces(value, ',')[0] == value);
        assert(header_matches(value, etag));
    }
    if value == others.push(',') + spaced || value == others.push(',') + weakly {
        let last = if value == others.push(',') + spaced {
            spaced
        } else {
            weakly
        };
        crate::text::law_pieces_stand_between_separators(others, last, ',');
        crate::text::law_pieces_stand_between_separators(last, last, ',');
        let listed = crate::text::pieces(value, ',');
        let before = crate::text::pieces(others, ',');
        assert(listed =~= before + seq![last]);
        assert(listed[before.len() as int] == last);
        assert(header_matches(value, etag));
    }
}

/// A client that names one other tag, or none, does not have the picture.
pub proof fn law_other_tag_is_not_the_same(candidate: Seq<char>, etag: Seq<char>)
    requires
        !candidate.contains(','),
        candidate.len() > 0,
        !crate::text::is_white(candidate[0]),
        !crate::text::is_white(candidate.last()),
        candidate != etag,
        candidate != seq!['W', '/'] + etag,
        candidate != seq!['*'],
    ensures
        !revalidates(seq![candidate], etag),
        !revalidates(Seq::empty(), etag),
{
    reveal_strlit("W/");
    reveal_strlit("*");
    assert("W/"@ =~= seq!['W', '/']);
    assert("*"@ =~= seq!['*']);
    crate::text::law_pieces_stand_between_separators(candidate, candidate, ',');
    assert(crate::text::trimmed(candidate) == candidate);
    if crate::text::text_starts_with(candidate, "W/"@) {
        assert(candidate =~= candidate.take(2) + candidate.skip(2));
    }
    assert(!candidate_matches(candidate, etag));
    assert(!header_matches(candidate, etag));
}

/// A failure of the blob store is answered with the number that HTTP has for it; what
/// is not there, or not to be seen, is not found.
pub proof fn law_blob_failures_have_their_numbers(error: BlobStoreError)
    ensures
        blob_status(error).number() == 415 <==> error is UnsupportedMime,
        blob_status(error).number() == 413 <==> error is BlobTooLarge,
        blob_status(error).number() == 507 <==> error is SessionBudgetExceeded,
        blob_status(error).number() == 500 <==> error is Io,
        blob_status(error).number() == 404 <==> error is InvalidSession
            || error is InvalidDescriptor || error is NotFound || error is SessionNotLive,
{
}

/// A failure of the transfer store is answered with the number that HTTP has for it.
pub proof fn law_transfer_failures_have_their_numbers(error: FileTransferError)
    ensures
        file_error_status(error).number() == 404 <==> error is InvalidSession || error is NotFound
            || error is SessionNotLive,
        file_error_status(error).number() == 400 <==> error is InvalidName || error is InvalidMime
            || error is SizeMismatch,
        file_error_status(error).number() == 413 <==> error is FileTooLarge,
        file_error_status(error).number() == 507 <==> error is SessionBudgetExceeded,
        file_error_status(error).number() == 409 <==> error is UploadInProgress
            || error is InvalidState || error is NotCancellable || error is Cancelled,
        file_error_status(error).number() == 500 <==> error is Io,
        cancel_answer(Ok(())).number() == 204,
        cancel_answer(Err(error)).number() == file_error_status(error).number(),
{
}

/// An upload begins only where exactly the bytes of its transfer are declared; then
/// their number is what is waited for. Any other declaration is a bad request, and a
/// transfer that is not there is answered as such.
pub proof fn law_upload_declares_its_length(
    looked_up: Result<FileTransferStatus, Status>,
    content_length: Option<Seq<char>>,
    r: Result<u64, Status>,
)
    requires
        upload_answer(looked_up, content_length, r),
    ensures
        r is Ok ==> looked_up is Ok && r->Ok_0 == looked_up->Ok_0.size && content_length is Some,
        r is Ok ==> crate::text::unsigned(content_length->0) == Some(r->Ok_0 as nat),
        looked_up is Ok && content_length == Some(
            crate::text::decimal(looked_up->Ok_0.size as nat),
        ) ==> r is Ok,
        looked_up is Ok && r is Err ==> r->Err_0.number() == 400,
        looked_up is Ok && content_length is None ==> r is Err,
        looked_up is Err ==> r is Err && r->Err_0 == looked_up->Err_0,
{
    if looked_up is Ok {
        crate::text::law_decimal_reads_back(looked_up->Ok_0.size as nat);
    }
}

/// A body is written piece by piece and finished at its end; a broken one is a bad
/// request, and one that takes too long times out.
pub proof fn law_body_is_read_to_its_end(event: BodyEvent)
    ensures
        body_step_for(event) is Write <==> event is Chunk,
        body_step_for(event) is Finish <==> event is End,
        event is Broken ==> body_step_for(event) is Stop && body_step_for(event)->Stop_0.number()
            == 400,
        event is Idle || event is Late ==> body_step_for(event) is Stop && body_step_for(
            event,
        )->Stop_0.number() == 408,
{
}

/// A request that passed its checks is turned away only where no slot is free; one
/// that did not is answered as its check says.
pub proof fn law_slots_are_a_budget<T, P, K: FnOnce() -> Option<P>>(
    checked: Result<T, Status>,
    take: K,
    r: Result<(T, P), Status>,
)
    requires
        slotted(checked, take, r),
    ensures
        checked is Err ==> r is Err && r->Err_0 == checked->Err_0,
        checked is Ok && r is Err ==> r->Err_0.number() == 429 && call_ensures(
            take,
            (),
            None::<P>,
        ),
        r is Ok ==> checked is Ok && (r->Ok_0).0 == checked->Ok_0 && call_ensures(
            take,
            (),
            Some((r->Ok_0).1),
        ),
{
}

/// A download sends the file that was opened for the blob that was found, with the
/// type and the length of that blob, while it holds a slot.
pub proof fn law_download_is_the_blob_that_was_found<
    P,
    F,
    K: FnOnce() -> Option<P>,
    O: FnOnce(&BlobDescriptor) -> Result<F, BlobStoreError>,
>(found: Result<BlobDescriptor, Status>, take: K, open: O, r: DownloadAnswer<P, F>)
    requires
        download_answer(found, take, open, r),
    ensures
        r is Content ==> {
            &&& found is Ok
            &&& r->content_type@ == found->Ok_0.mime@
            &&& r->content_length == found->Ok_0.size
            &&& call_ensures(open, (&found->Ok_0,), Ok::<F, BlobStoreError>(r->file))
            &&& call_ensures(take, (), Some(r->slot))
        },
        found is Err ==> r is Refused && r->Refused_0 == found->Err_0,
        r is Refused && found is Ok && r->Refused_0.number() == 429 ==> call_ensures(
            take,
            (),
            None::<P>,
        ),
{
}

/// Bytes are taken for a PNG file exactly where they begin with its signature.
pub proof fn law_png_begins_with_its_signature(bytes: Seq<u8>)
    ensures
        is_png(bytes) <==> bytes.len() >= 8 && bytes.take(8) == seq![
            137u8,
            80u8,
            78u8,
            71u8,
            13u8,
            10u8,
            26u8,
            10u8,
        ],
{
    let signature = seq![137u8, 80u8, 78u8, 71u8, 13u8, 10u8, 26u8, 10u8];
    assert forall|i: int| 0 <= i < 8 implies signature[i] == #[trigger] PNG_SIGNATURE[i] by {}
    if is_png(bytes) {
        assert forall|i: int| 0 <= i < 8 implies bytes.take(8)[i] == signature[i] by {
            assert(bytes[i] == PNG_SIGNATURE[i]);
        }
        assert(bytes.take(8) =~= signature);
    }
    if bytes.len() >= 8 && bytes.take(8) == signature {
        assert forall|i: int| 0 <= i < 8 implies #[trigger] bytes[i] == PNG_SIGNATURE[i] by {
            assert(bytes.take(8)[i] == signature[i]);
        }
    }
}

/// An icon is served from its own file, as it was read: a PNG file of at most a
/// mebibyte. A client that has it is told so, by the tag of the file; anything that
/// is no regular file, or too large, is missing.
pub proof fn law_icon_is_served_from_its_file<
    O: FnOnce(&str) -> Option<OpenFile>,
    R: FnOnce(&str) -> Option<Vec<u8>>,
>(open: O, read: R, path: Seq<char>, if_none_match: Seq<Seq<char>>, r: Picture)
    requires
        icon_answer(open, read, path, if_none_match, r),
    ensures
        r is Image ==> {
            &&& r->body.len() <= 1_048_576
            &&& r->body.len() >= 8 && r->body[0] == 137 && r->body[1] == 80 && r->body[2] == 78
                && r->body[3] == 71
            &&& r->content_type == "image/png"@
            &&& exists|asked: &str, bytes: Vec<u8>|
                asked@ == path && bytes@ == r->body && #[trigger] call_ensures(
                    read,
                    (asked,),
                    Some(bytes),
                )
        },
        !(r is Missing) ==> is_a_file(open, path),
        r is Unchanged ==> revalidates(if_none_match, r->Unchanged_etag),
        r is Image ==> !revalidates(if_none_match, r->Image_etag),
{
    let (asked, file) = choose|asked: &str, file: Option<OpenFile>|
        {
            &&& asked@ == path
            &&& #[trigger] call_ensures(open, (asked,), file)
            &&& icon_opened(read, path, file, if_none_match, r)
        };
    if !(r is Missing) {
        assert(file == Some(file->0));
        assert(call_ensures(open, (asked,), Some(file->0)));
    }
    if r is Image {
        let etag = file_etag(file->0);
        let (asked, bytes) = choose|asked: &str, bytes: Option<Vec<u8>>|
            {
                &&& asked@ == path
                &&& #[trigger] call_ensures(read, (asked,), bytes)
                &&& r == (if bytes is Some && bytes->0@.len() <= MAX_ICON_BYTES && is_png(
                    bytes->0@,
                ) {
                    Picture::Image {
                        content_type: "image/png"@,
                        etag,
                        cache_control: ICON_CACHE_CONTROL@,
                        body: bytes->0@,
                    }
                } else {
                    Picture::Missing
                })
            };
        assert(bytes == Some(bytes->0));
        law_png_begins_with_its_signature(r->body);
        let first = r->body.take(8);
        assert(first[0] == r->body[0] && first[1] == r->body[1] && first[2] == r->body[2]
            && first[3] == r->body[3]);
    }
}

/// A regular file of at most a mebibyte was opened at the path.
pub open spec fn is_a_file<O: FnOnce(&str) -> Option<OpenFile>>(open: O, path: Seq<char>) -> bool {
    exists|asked: &str, file: OpenFile|
        asked@ == path && #[trigger] call_ensures(open, (asked,), Some(file)) && file.is_file
            && file.len <= 1_048_576
}

/// The tag of an icon changes with the time of its file, and two tags of one time
/// and one length are the same.
pub proof fn law_icon_tag_goes_with_its_file(a: OpenFile, b: OpenFile)
    ensures
        a.modified_ms is Some && b.modified_ms is Some && a.modified_ms->0 != b.modified_ms->0
            ==> file_etag(a) != file_etag(b),
        a.modified_ms == b.modified_ms && a.len == b.len ==> file_etag(a) == file_etag(b),
{
    if a.modified_ms is Some && b.modified_ms is Some && a.modified_ms->0 != b.modified_ms->0 {
        crate::thumbnails::law_etags_differ(
            a.modified_ms->0 as nat,
            a.len as nat,
            b.modified_ms->0 as nat,
            b.len as nat,
        );
    }
}

/// The picture of a running session is served as it was stored, under its own tag; a
/// session that does not run, or has no picture, has none to show.
pub proof fn law_picture_is_served_as_it_was_stored(
    sessions: Map<Seq<char>, crate::protocol::Session>,
    thumbnails: crate::thumbnails::Thumbnails,
    session: Seq<char>,
    if_none_match: Seq<Seq<char>>,
)
    ensures
        ({
            let r = thumbnail_answer(sessions, thumbnails, session, if_none_match);
            let running = crate::registry::valid_name(session) && sessions.dom().contains(session)
                && sessions[session].status == SessionStatus::Running;
            let there = thumbnails.entries.dom().contains(session);
            &&& r is Missing <==> !running || !there
            &&& r is Image ==> r->body == thumbnails.entries[session].jpeg@ && r->Image_etag
                == thumbnails.entries[session].etag@ && r->content_type == "image/jpeg"@
                && !revalidates(if_none_match, r->Image_etag)
            &&& r is Unchanged ==> r->Unchanged_etag == thumbnails.entries[session].etag@
                && revalidates(if_none_match, r->Unchanged_etag)
        }),
{
}

/// A client attaches to the media of a session that is starting or running, where it
/// speaks the protocol and the media are there. Otherwise it is told what is missing,
/// the name before the session, the session before the protocol, the media last.
pub proof fn law_media_need_a_session_and_a_protocol(
    sessions: Map<Seq<char>, crate::protocol::Session>,
    hub: crate::media::Hub,
    session: Seq<char>,
    protocols: Seq<Seq<char>>,
    wanted: Seq<char>,
)
    ensures
        ({
            let named = crate::registry::valid_name(session);
            let up = sessions.dom().contains(session) && (sessions[session].status
                == SessionStatus::Running || sessions[session].status == SessionStatus::Starting);
            let spoken = protocols.contains(wanted);
            let ready = hub.sessions.dom().contains(session);
            let r = media_refusal(sessions, hub, session, protocols, wanted);
            &&& r is None <==> named && up && spoken && ready
            &&& r is Some ==> ((r->0).0.number() == 404 <==> named && !up)
            &&& r is Some ==> ((r->0).0.number() == 503 <==> named && up && spoken && !ready)
            &&& r is Some ==> ((r->0).0.number() == 400 <==> !named || up && !spoken)
        }),
{
    if offers(protocols, wanted) {
        let i = choose|i: int| 0 <= i < protocols.len() && #[trigger] protocols[i] == wanted;
        assert(protocols.contains(wanted));
    }
    if protocols.contains(wanted) {
        let i = protocols.index_of(wanted);
        assert(protocols[i] == wanted);
        assert(offers(protocols, wanted));
    }
}


/// A host that was woken is answered with 204, and one whose packet could not be sent
/// with 500.
pub proof fn law_waking_is_answered(sent: bool)
    ensures
        sent ==> wake_status(sent).number() == 204,
        !sent ==> wake_status(sent).number() == 500,
{
}

/// A blob is uploaded to a session that runs, with the type that it declares and no
/// parameters to it.
pub proof fn law_blob_upload_declares_its_type(
    sessions: Map<Seq<char>, crate::protocol::Session>,
    session: Seq<char>,
    content_type: Option<Seq<char>>,
    r: Result<String, Status>,
)
    requires
        blob_upload_answer(sessions, session, content_type, r),
    ensures
        r is Ok ==> sessions.dom().contains(session) && sessions[session].status
            == SessionStatus::Running && content_type is Some && r->Ok_0@ == content_type->0
            && !content_type->0.contains(';'),
        !sessions.dom().contains(session) ==> r is Err && r->Err_0.number() == 404,
        is_running(sessions, session) && r is Err ==> r->Err_0.number() == 415,
        is_running(sessions, session) && content_type is Some && !content_type->0.contains(';')
            ==> r is Ok,
{
}

/// A lease is given on the present incarnation of a session that runs, and on no other.
pub proof fn law_lease_is_on_the_running_session(
    files: crate::file_transfers::Files,
    sessions: Map<Seq<char>, crate::protocol::Session>,
    session: Seq<char>,
    r: Result<FileSessionLease, FileTransferError>,
)
    requires
        lease_answer(files, sessions, session, r),
    ensures
        r is Ok ==> {
            &&& r->Ok_0.spec_session() == session
            &&& files.live.dom().contains(session) && r->Ok_0.spec_epoch() == files.live[session]
            &&& sessions.dom().contains(session) && sessions[session].status
                == SessionStatus::Running
        },
        crate::registry::valid_name(session) && files.live.dom().contains(session)
            && sessions.dom().contains(session) && sessions[session].status
            == SessionStatus::Running ==> r is Ok,
{
}


/// A client that asks for a transfer of a session is told of that one: the transfer of
/// that id in that session, as the store has it.
pub proof fn law_status_is_of_the_transfer_asked_for<R: Fn(&str) -> Result<(), String>>(
    files: crate::file_transfers::Files,
    session: Seq<char>,
    id: Seq<char>,
    now_ns: u128,
    remove: R,
    r: Result<FileTransferStatus, Status>,
    after: crate::file_transfers::Files,
)
    requires
        file_looked_up(files, session, id, now_ns, remove, r, after),
    ensures
        r is Ok ==> r->Ok_0.transfer_id@ == id,
        r is Ok ==> exists|i: int|
            {
                &&& 0 <= i < after.transfers.len()
                &&& (#[trigger] after.transfers[i]).session@ == session
                &&& after.transfers[i].id@ == id
                &&& r->Ok_0.name@ == after.transfers[i].name@
                &&& r->Ok_0.size == after.transfers[i].size
                &&& r->Ok_0.bytes_received == after.transfers[i].bytes_received
                &&& r->Ok_0.state == after.transfers[i].state
            },
        r is Err ==> r->Err_0.number() >= 400,
{
    if r is Ok {
        let i = choose|i: int| #[trigger]
            crate::file_transfers::found(after, session, id, i) && crate::file_transfers::describes(
                r->Ok_0,
                after.transfers[i],
            );
        assert(after.transfers[i].session@ == session);
    }
}

/// A client that cancels a transfer that is there is told that it is done only where the
/// transfer still waited, and then that very transfer is kept as cancelled.
pub proof fn law_cancelled_is_the_transfer_asked_for<R: Fn(&str) -> Result<(), String>>(
    files: crate::file_transfers::Files,
    session: Seq<char>,
    id: Seq<char>,
    now_ns: u128,
    remove: R,
    r: Status,
    after: crate::file_transfers::Files,
    i: int,
)
    requires
        crate::file_transfers::files_ok(files),
        file_cancelled(files, session, id, now_ns, remove, r, after),
        0 <= i < files.transfers.len(),
        files.transfers[i].session@ == session,
        files.transfers[i].id@ == id,
        !crate::file_transfers::expired(files.transfers[i], now_ns),
    ensures
        r is NoContent || r.number() >= 400,
        r is NoContent ==> {
            let t = files.transfers[i];
            &&& t.state == crate::file_transfers::FileTransferState::AwaitingUpload || t.state
                == crate::file_transfers::FileTransferState::Queued
            &&& after.transfers.contains(
                (crate::file_transfers::Transfer {
                    state: crate::file_transfers::FileTransferState::Cancelled,
                    uploading: false,
                    terminal_at_ns: Some(now_ns),
                    ..t
                }),
            )
        },
{
    let cancelled = choose|cancelled: Result<(), FileTransferError>|
        {
            &&& #[trigger] crate::file_transfers::cancelling(
                files,
                session,
                id,
                now_ns,
                remove,
                cancelled,
                after,
            )
            &&& r == cancel_answer(cancelled)
        };
    crate::file_transfers::law_waiting_transfers_can_be_cancelled(
        files,
        session,
        id,
        now_ns,
        remove,
        cancelled,
        after,
        i,
    );
}


/// An upload is accepted for the transfer of that id in that session, and as many bytes
/// are awaited as that transfer announced.
pub proof fn law_upload_is_for_the_transfer_asked_for<R: Fn(&str) -> Result<(), String>>(
    files: crate::file_transfers::Files,
    session: Seq<char>,
    id: Seq<char>,
    content_length: Option<Seq<char>>,
    now_ns: u128,
    remove: R,
    r: Result<u64, Status>,
    after: crate::file_transfers::Files,
)
    requires
        upload_checked(files, session, id, content_length, now_ns, remove, r, after),
    ensures
        r is Ok ==> exists|i: int|
            {
                &&& 0 <= i < after.transfers.len()
                &&& (#[trigger] after.transfers[i]).session@ == session
                &&& after.transfers[i].id@ == id
                &&& after.transfers[i].size == r->Ok_0
            },
        r is Err ==> r->Err_0.number() >= 400,
{
    let looked_up = choose|looked_up: Result<FileTransferStatus, Status>|
        {
            &&& #[trigger] file_looked_up(files, session, id, now_ns, remove, looked_up, after)
            &&& upload_answer(looked_up, content_length, r)
        };
    law_status_is_of_the_transfer_asked_for(files, session, id, now_ns, remove, looked_up, after);
}

/// A download that is found is of the blob that was asked for, as it was stored for that
/// session; what is not found is told to be missing.
pub proof fn law_download_is_looked_for_in_its_session<
    L: FnOnce(&str) -> Option<(BlobDescriptor, bool)>,
>(load: L, root: Seq<char>, session: Seq<char>, id: Seq<char>, r: Result<BlobDescriptor, Status>)
    requires
        download_found(load, root, session, id, r),
    ensures
        r is Ok ==> r->Ok_0.id@ == id && crate::registry::valid_name(session),
        r is Ok ==> exists|p: &str, stored: BlobDescriptor|
            {
                &&& p@ == crate::paths::joined(
                    crate::paths::joined(root, session),
                    id + ".meta"@,
                )
                &&& stored@ == r->Ok_0@
                &&& #[trigger] call_ensures(load, (p,), Some((stored, true)))
            },
        r is Err ==> r->Err_0 is NotFound,
{
    let loaded = choose|loaded: Option<(BlobDescriptor, bool)>|
        {
            &&& #[trigger] crate::blobs::loaded_from(
                load,
                crate::blobs::meta_path(root, session, id),
                loaded,
            )
            &&& match crate::blobs::stored_descriptor(session, id, loaded) {
                Some(blob) => r matches Ok(descriptor) && descriptor@ == blob,
                None => r == Err::<BlobDescriptor, Status>(Status::NotFound),
            }
        };
    if r is Ok {
        let p = choose|p: &str|
            p@ == crate::blobs::meta_path(root, session, id) && #[trigger] call_ensures(
                load,
                (p,),
                loaded,
            );
        let stored = (loaded->0).0;
        assert(loaded == Some((stored, true)));
        assert(call_ensures(load, (p,), Some((stored, true))));
    }
}

} // verus!
