//! The records that the daemon exchanges with its clients and keeps on disk.

use vstd::prelude::*;

use crate::text::{chars_of, clone_texts};

verus! {

#[derive(Clone, Copy, Debug, PartialEq, Eq, Structural)]
pub enum SessionStatus {
    Starting,
    Running,
    Stopped,
    Failed,
}

/// One application session: the display daemon, the application and its clients.
#[derive(Debug, PartialEq, Eq)]
pub struct Session {
    pub name: String,
    pub app_id: String,
    pub app_pid: u32,
    pub daemon_pid: u32,
    pub wayland_display: String,
    pub socket_path: String,
    pub created_at_ms: u64,
    pub last_attached_at_ms: Option<u64>,
    pub client_count: u32,
    pub status: SessionStatus,
}

impl Clone for Session {
    fn clone(&self) -> (r: Self)
        ensures
            r == *self,
    {
        Session {
            name: self.name.clone(),
            app_id: self.app_id.clone(),
            app_pid: self.app_pid,
            daemon_pid: self.daemon_pid,
            wayland_display: self.wayland_display.clone(),
            socket_path: self.socket_path.clone(),
            created_at_ms: self.created_at_ms,
            last_attached_at_ms: self.last_attached_at_ms,
            client_count: self.client_count,
            status: self.status,
        }
    }
}

/// An application that can be started in a session.
#[derive(Debug, PartialEq, Eq)]
pub struct App {
    pub id: String,
    pub name: String,
    pub icon: Option<String>,
    pub categories: Vec<String>,
    /// The program and its arguments.
    pub argv: Vec<String>,
    pub terminal: bool,
}

/// What an application is.
#[verifier::ext_equal]
pub struct Application {
    pub id: Seq<char>,
    pub name: Seq<char>,
    pub icon: Option<Seq<char>>,
    pub categories: Seq<Seq<char>>,
    pub argv: Seq<Seq<char>>,
    pub terminal: bool,
}

impl View for App {
    type V = Application;

    open spec fn view(&self) -> Application {
        Application {
            id: self.id@,
            name: self.name@,
            icon: match self.icon {
                Some(icon) => Some(icon@),
                None => None,
            },
            categories: crate::text::texts(self.categories@),
            argv: crate::text::texts(self.argv@),
            terminal: self.terminal,
        }
    }
}

impl Clone for App {
    fn clone(&self) -> (r: Self)
        ensures
            r@ == self@,
    {
        App {
            id: self.id.clone(),
            name: self.name.clone(),
            icon: self.icon.clone(),
            categories: clone_texts(&self.categories),
            argv: clone_texts(&self.argv),
            terminal: self.terminal,
        }
    }
}

/// The number of characters of a blob id: lowercase hexadecimal digits.
pub const BLOB_ID_LEN: usize = 32;

/// `BLOB_ID_LEN` lowercase hexadecimal digits.
pub open spec fn valid_id(id: Seq<char>) -> bool {
    &&& id.len() == BLOB_ID_LEN
    &&& forall|i: int| 0 <= i < id.len() ==> crate::text::is_hex_digit(#[trigger] id[i])
}

/// Whether the text can be the id of a blob or of a transfer.
pub fn is_blob_id(id: &str) -> (r: bool)
    ensures
        r == valid_id(id@),
{
    let chars = chars_of(id);
    if chars.len() != BLOB_ID_LEN {
        return false;
    }
    let mut i: usize = 0;
    while i < chars.len()
        invariant
            i <= chars.len(),
            chars@ == id@,
            forall|j: int| 0 <= j < i ==> crate::text::is_hex_digit(#[trigger] id@[j]),
        decreases chars.len() - i,
    {
        let c = chars[i];
        if !(('0' <= c && c <= '9') || ('a' <= c && c <= 'f')) {
            assert(!crate::text::is_hex_digit(id@[i as int]));
            return false;
        }
        i += 1;
    }
    true
}

/// The size that no blob and no transferred file exceeds.
pub const MAX_BLOB_BYTES: u64 = 67_108_864;

/// A stored binary object: its id, its MIME type and its size.
#[derive(Debug, PartialEq, Eq)]
pub struct BlobDescriptor {
    pub id: String,
    pub mime: String,
    pub size: u64,
}

/// What a descriptor says.
#[verifier::ext_equal]
pub struct Blob {
    pub id: Seq<char>,
    pub mime: Seq<char>,
    pub size: u64,
}

impl View for BlobDescriptor {
    type V = Blob;

    open spec fn view(&self) -> Blob {
        Blob { id: self.id@, mime: self.mime@, size: self.size }
    }
}

impl Clone for BlobDescriptor {
    fn clone(&self) -> (r: Self)
        ensures
            r == *self,
    {
        BlobDescriptor { id: self.id.clone(), mime: self.mime.clone(), size: self.size }
    }
}

#[derive(Clone, Copy, Debug, PartialEq, Eq, Structural)]
pub enum MediaKind {
    StreamConfig,
    Video,
    StreamEnd,
}

#[derive(Clone, Copy, Debug, PartialEq, Eq, Structural)]
pub struct MediaFlags {
    pub keyframe: bool,
    pub discontinuity: bool,
}

#[derive(Clone, Copy, Debug, PartialEq, Eq, Structural)]
pub struct MediaHeader {
    pub kind: MediaKind,
    pub flags: MediaFlags,
    pub stream_id: u64,
    pub sequence: u64,
    pub timestamp_us: u64,
    pub width: u32,
    pub height: u32,
}

/// One packet of an encoded stream.
#[derive(Debug, PartialEq, Eq)]
pub struct MediaPacket {
    pub header: MediaHeader,
    pub payload: Vec<u8>,
}


/// An id is made of 32 hexadecimal digits, the letters small.
pub proof fn law_ids_are_hexadecimal(id: Seq<char>)
    ensures
        valid_id(id) <==> id.len() == 32 && forall|i: int|
            0 <= i < id.len() ==> ('0' <= #[trigger] id[i] <= '9' || 'a' <= id[i] <= 'f'),
{
    if valid_id(id) {
        assert forall|i: int| 0 <= i < id.len() implies ('0' <= #[trigger] id[i] <= '9' || 'a'
            <= id[i] <= 'f') by {
            assert(crate::text::is_hex_digit(id[i]));
        }
    }
}

} // verus!
