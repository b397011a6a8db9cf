//! Clipboard synchronisation between the guest applications of a session and
//! the phone: which transfers to ask for, what to pass on, and how a paste is
//! answered. Transport and storage are the caller's; every decision here is a
//! function of the events seen so far.

use vstd::prelude::*;

use crate::protocol::{Blob, BlobDescriptor};
use crate::text::{char_to_lowercase, chars_of, same_text, string_of, text_from_utf8};

verus! {

broadcast use vstd::string::group_string_axioms;

/// Offered to the guest when the phone sets a clipboard text, and searched in
/// this order when the guest offers one. The last ones are X11 atoms, which
/// guests under XWayland offer.
pub const OFFERED_MIME_TYPES: [&'static str; 5] = [
    "text/plain;charset=utf-8",
    "UTF8_STRING",
    "text/plain",
    "STRING",
    "TEXT",
];

/// The image formats that can be transferred, the preferred one first.
pub const OFFERED_IMAGE_MIME_TYPES: [&'static str; 3] = ["image/png", "image/jpeg", "image/webp"];

/// Something the guest side did.
#[derive(Debug, PartialEq, Eq)]
pub enum GuestEvent {
    /// The guest set its selection and offered these MIME types.
    SelectionOffered { mime_types: Vec<String> },
    /// The guest sent the bytes it was asked for.
    TransferFromGuest { bytes: Vec<u8> },
    /// A guest image was stored under this descriptor. `valid` says whether the
    /// descriptor passed the protocol's own validation.
    TransferBlobFromGuest { blob: BlobDescriptor, valid: bool },
    /// A guest image could not be stored. The pending request is over, so a
    /// stale transfer cannot be attributed to it.
    TransferBlobFailed,
    /// A guest application pasted and waits for data.
    PasteRequested { mime: String },
}

/// What to do next: exactly one action per event.
#[derive(Debug, PartialEq, Eq)]
pub enum SyncAction {
    Nothing,
    AskGuestFor { mime: String },
    PushToPhone { text: String },
    PushBlobToPhone { blob: BlobDescriptor },
    OfferToGuest { mime_types: Vec<String> },
    AnswerGuest { bytes: Vec<u8> },
    AnswerGuestBlob { blob: BlobDescriptor },
}

#[derive(Debug)]
enum PhoneClipboard {
    Text(String),
    Blob(BlobDescriptor),
}

/// What kind of transfer the guest was asked for.
#[derive(Clone, Copy, Debug, PartialEq, Eq, Structural)]
pub enum AwaitingGuestTransfer {
    Text,
    Blob,
}

/// A clipboard value.
#[verifier::ext_equal]
pub enum Clip {
    Text(Seq<char>),
    Blob(Blob),
}

/// The events, over mathematical values.
#[verifier::ext_equal]
pub enum GuestSays {
    Offered(Seq<Seq<char>>),
    Text(Seq<u8>),
    Blob { blob: Blob, valid: bool },
    BlobFailed,
    Pasted(Seq<char>),
}

/// The actions, over mathematical values.
#[verifier::ext_equal]
pub enum Action {
    Nothing,
    AskGuestFor(Seq<char>),
    PushToPhone(Seq<char>),
    PushBlobToPhone(Blob),
    OfferToGuest(Seq<Seq<char>>),
    AnswerGuest(Seq<u8>),
    AnswerGuestBlob(Blob),
}

impl View for GuestEvent {
    type V = GuestSays;

    open spec fn view(&self) -> GuestSays {
        match self {
            GuestEvent::SelectionOffered { mime_types } => GuestSays::Offered(
                crate::text::texts(mime_types@),
            ),
            GuestEvent::TransferFromGuest { bytes } => GuestSays::Text(bytes@),
            GuestEvent::TransferBlobFromGuest { blob, valid } => GuestSays::Blob {
                blob: blob@,
                valid: *valid,
            },
            GuestEvent::TransferBlobFailed => GuestSays::BlobFailed,
            GuestEvent::PasteRequested { mime } => GuestSays::Pasted(mime@),
        }
    }
}

impl View for SyncAction {
    type V = Action;

    open spec fn view(&self) -> Action {
        match self {
            SyncAction::Nothing => Action::Nothing,
            SyncAction::AskGuestFor { mime } => Action::AskGuestFor(mime@),
            SyncAction::PushToPhone { text } => Action::PushToPhone(text@),
            SyncAction::PushBlobToPhone { blob } => Action::PushBlobToPhone(blob@),
            SyncAction::OfferToGuest { mime_types } => Action::OfferToGuest(
                crate::text::texts(mime_types@),
            ),
            SyncAction::AnswerGuest { bytes } => Action::AnswerGuest(bytes@),
            SyncAction::AnswerGuestBlob { blob } => Action::AnswerGuestBlob(blob@),
        }
    }
}

/// Space, tab, line feed, form feed and carriage return.
pub open spec fn is_ascii_whitespace(c: char) -> bool {
    c == ' ' || c == '\t' || c == '\n' || c == '\u{c}' || c == '\r'
}

/// A MIME type without ASCII whitespace and in lowercase.
pub open spec fn normal_mime(mime: Seq<char>) -> Seq<char>
    decreases mime.len(),
{
    if mime.len() == 0 {
        Seq::empty()
    } else if is_ascii_whitespace(mime.last()) {
        normal_mime(mime.drop_last())
    } else {
        normal_mime(mime.drop_last()) + crate::text::lowercase(mime.last())
    }
}

/// The first of the offered types whose normal form is `wanted`, as it was
/// spelled in the offer.
pub open spec fn first_match(offered: Seq<Seq<char>>, wanted: Seq<char>) -> Option<Seq<char>>
    decreases offered.len(),
{
    if offered.len() == 0 {
        None
    } else if normal_mime(offered[0]) == wanted {
        Some(offered[0])
    } else {
        first_match(offered.drop_first(), wanted)
    }
}

/// The first match for the first preference that has one.
pub open spec fn best_match(offered: Seq<Seq<char>>, preferred: Seq<Seq<char>>) -> Option<Seq<char>>
    decreases preferred.len(),
{
    if preferred.len() == 0 {
        None
    } else if first_match(offered, preferred[0]) is Some {
        first_match(offered, preferred[0])
    } else {
        best_match(offered, preferred.drop_first())
    }
}

/// The types that a text is offered under.
pub open spec fn text_types() -> Seq<Seq<char>> {
    Seq::new(5, |i: int| OFFERED_MIME_TYPES[i]@)
}

/// The normal forms of the text types, the preferred one first.
pub open spec fn text_preferences() -> Seq<Seq<char>> {
    Seq::new(5, |i: int| normal_mime(OFFERED_MIME_TYPES[i]@))
}

/// The image types, the preferred one first.
pub open spec fn image_preferences() -> Seq<Seq<char>> {
    Seq::new(3, |i: int| OFFERED_IMAGE_MIME_TYPES[i]@)
}

/// The types under which an offer is announced to the guest: an image under every
/// image type, whatever its own, and a text under the types of the offer.
pub open spec fn announced(mime_types: Seq<Seq<char>>) -> Seq<Seq<char>> {
    if mime_types.len() == 1 && image_preferences().contains(mime_types[0]) {
        image_preferences()
    } else {
        mime_types
    }
}

/// The type to ask the guest for: a text type if it offers one, else an image.
pub open spec fn chosen_mime(offered: Seq<Seq<char>>) -> Option<Seq<char>> {
    if best_match(offered, text_preferences()) is Some {
        best_match(offered, text_preferences())
    } else {
        best_match(offered, image_preferences())
    }
}

pub open spec fn is_text(mime: Seq<char>) -> bool {
    text_preferences().contains(normal_mime(mime))
}

pub open spec fn is_image(mime: Seq<char>) -> bool {
    image_preferences().contains(normal_mime(mime))
}

/// The state of the synchronisation.
#[verifier::ext_equal]
pub struct ClipboardState {
    /// The size in bytes that a guest text may have.
    pub limit: nat,
    /// The phone's clipboard as far as it is known here.
    pub clipboard: Option<Clip>,
    /// What the guest was asked for and has not sent yet.
    pub awaiting: Option<AwaitingGuestTransfer>,
    pub pending_mime: Option<Seq<char>>,
    /// Values sent in one direction that may bounce back from it, each
    /// discarded once: sent to the guest, pushed to the phone.
    pub echo_from_guest: Option<Seq<char>>,
    pub echo_from_phone: Option<Seq<char>>,
    pub echo_blob_from_guest: Option<Seq<char>>,
    pub echo_blob_from_phone: Option<Seq<char>>,
    /// Blobs that are no longer the clipboard value and can be deleted.
    pub retired: Seq<Blob>,
}

/// No transfer is expected from the guest.
pub open spec fn disarmed(s: ClipboardState) -> ClipboardState {
    ClipboardState { awaiting: None, pending_mime: None, ..s }
}

/// `next` becomes the clipboard; a blob it displaces is retired, unless it is
/// the same blob.
pub open spec fn holding(s: ClipboardState, next: Clip) -> ClipboardState {
    let displaced = match s.clipboard {
        Some(Clip::Blob(previous)) => match next {
            Clip::Blob(blob) => previous.id != blob.id,
            Clip::Text(_) => true,
        },
        _ => false,
    };
    ClipboardState {
        clipboard: Some(next),
        retired: if displaced {
            s.retired.push(s.clipboard->0->Blob_0)
        } else {
            s.retired
        },
        ..s
    }
}

pub open spec fn after_offer(s: ClipboardState, offered: Seq<Seq<char>>) -> (ClipboardState, Action) {
    match chosen_mime(offered) {
        Some(mime) => (
            ClipboardState {
                awaiting: Some(
                    if is_image(mime) {
                        AwaitingGuestTransfer::Blob
                    } else {
                        AwaitingGuestTransfer::Text
                    },
                ),
                pending_mime: Some(mime),
                ..s
            },
            Action::AskGuestFor(mime),
        ),
        None => (disarmed(s), Action::Nothing),
    }
}

/// A text transfer is worth passing on: within the limit, UTF-8, not empty.
pub open spec fn acceptable_text(s: ClipboardState, bytes: Seq<u8>) -> bool {
    bytes.len() <= s.limit && vstd::utf8::valid_utf8(bytes) && bytes.len() > 0
}

pub open spec fn after_text(s: ClipboardState, bytes: Seq<u8>) -> (ClipboardState, Action) {
    let text = vstd::utf8::decode_utf8(bytes);
    if s.awaiting != Some(AwaitingGuestTransfer::Text) {
        (s, Action::Nothing)
    } else if !acceptable_text(s, bytes) {
        (disarmed(s), Action::Nothing)
    } else if s.echo_from_guest == Some(text) {
        (ClipboardState { echo_from_guest: None, ..disarmed(s) }, Action::Nothing)
    } else {
        (
            holding(ClipboardState { echo_from_phone: Some(text), ..disarmed(s) }, Clip::Text(text)),
            Action::PushToPhone(text),
        )
    }
}

pub open spec fn after_blob(s: ClipboardState, blob: Blob, valid: bool) -> (ClipboardState, Action) {
    if s.awaiting != Some(AwaitingGuestTransfer::Blob) {
        (s, Action::Nothing)
    } else if !valid {
        (disarmed(s), Action::Nothing)
    } else if s.echo_blob_from_guest == Some(blob.id) {
        (ClipboardState { echo_blob_from_guest: None, ..disarmed(s) }, Action::Nothing)
    } else {
        (
            holding(ClipboardState { echo_blob_from_phone: Some(blob.id), ..disarmed(s) }, Clip::Blob(blob)),
            Action::PushBlobToPhone(blob),
        )
    }
}

/// A paste is answered with the clipboard where the type fits, and with nothing
/// at all otherwise.
pub open spec fn paste_answer(s: ClipboardState, mime: Seq<char>) -> Action {
    match s.clipboard {
        Some(Clip::Text(text)) if is_text(mime) => Action::AnswerGuest(
            vstd::utf8::encode_utf8(text),
        ),
        Some(Clip::Blob(blob)) if normal_mime(mime) == normal_mime(blob.mime) =>
            Action::AnswerGuestBlob(blob),
        _ => Action::AnswerGuest(Seq::empty()),
    }
}

/// The state and the action after a guest event.
pub open spec fn after_guest(s: ClipboardState, event: GuestSays) -> (ClipboardState, Action) {
    match event {
        GuestSays::Offered(offered) => after_offer(s, offered),
        GuestSays::Text(bytes) => after_text(s, bytes),
        GuestSays::Blob { blob, valid } => after_blob(s, blob, valid),
        GuestSays::BlobFailed => (disarmed(s), Action::Nothing),
        GuestSays::Pasted(mime) => (s, paste_answer(s, mime)),
    }
}

/// The state and the action after the phone copied a text.
pub open spec fn after_phone_text(s: ClipboardState, text: Seq<char>) -> (ClipboardState, Action) {
    if s.echo_from_phone == Some(text) {
        (ClipboardState { echo_from_phone: None, ..s }, Action::Nothing)
    } else {
        (
            holding(ClipboardState { echo_from_guest: Some(text), ..s }, Clip::Text(text)),
            Action::OfferToGuest(text_types()),
        )
    }
}

/// The state and the action after the phone copied an image.
pub open spec fn after_phone_blob(s: ClipboardState, blob: Blob, valid: bool) -> (ClipboardState, Action) {
    if !valid {
        (s, Action::Nothing)
    } else if s.echo_blob_from_phone == Some(blob.id) {
        (ClipboardState { echo_blob_from_phone: None, ..s }, Action::Nothing)
    } else {
        (
            holding(ClipboardState { echo_blob_from_guest: Some(blob.id), ..s }, Clip::Blob(blob)),
            Action::OfferToGuest(seq![blob.mime]),
        )
    }
}

/// The echoes expected from the phone are forgotten.
pub open spec fn without_phone_echo(s: ClipboardState) -> ClipboardState {
    ClipboardState { echo_from_phone: None, echo_blob_from_phone: None, ..s }
}

/// The type without ASCII whitespace and in lowercase.
fn normalize_mime(mime: &str) -> (r: String)
    ensures
        r@ == normal_mime(mime@),
{
    let chars = chars_of(mime);
    let mut out: Vec<char> = Vec::new();
    let mut i: usize = 0;
    while i < chars.len()
        invariant
            i <= chars.len(),
            chars@ == mime@,
            out@ == normal_mime(chars@.take(i as int)),
        decreases chars.len() - i,
    {
        let c = chars[i];
        assert(chars@.take(i as int + 1).drop_last() =~= chars@.take(i as int));
        if !(c == ' ' || c == '\t' || c == '\n' || c == '\u{c}' || c == '\r') {
            let mut mapped = char_to_lowercase(c);
            out.append(&mut mapped);
        }
        i += 1;
    }
    assert(chars@.take(chars@.len() as int) =~= chars@);
    string_of(&out)
}

/// The first offered type whose normal form is `wanted`, as the guest spelled it.
fn find_mime(offered: &Vec<String>, wanted: &String) -> (r: Option<String>)
    ensures
        r is Some == first_match(crate::text::texts(offered@), wanted@) is Some,
        r matches Some(mime) ==> first_match(crate::text::texts(offered@), wanted@) == Some(mime@),
{
    let ghost all = crate::text::texts(offered@);
    let mut i: usize = 0;
    assert(all.skip(0) =~= all);
    while i < offered.len()
        invariant
            i <= offered.len(),
            all == crate::text::texts(offered@),
            first_match(all, wanted@) == first_match(all.skip(i as int), wanted@),
        decreases offered.len() - i,
    {
        assert(all.skip(i as int)[0] == offered@[i as int]@);
        assert(all.skip(i as int).drop_first() =~= all.skip(i as int + 1));
        if normalize_mime(offered[i].as_str()) == *wanted {
            return Some(offered[i].clone());
        }
        i += 1;
    }
    None
}

/// The most preferred text type that was offered, in the guest's own spelling:
/// asking under a spelling that it never advertised would not match.
fn select_text_mime(offered: &Vec<String>) -> (r: Option<String>)
    ensures
        r is Some == best_match(crate::text::texts(offered@), text_preferences()) is Some,
        r matches Some(mime) ==> best_match(crate::text::texts(offered@), text_preferences())
            == Some(mime@),
{
    let ghost all = crate::text::texts(offered@);
    let ghost wanted = text_preferences();
    let mut i: usize = 0;
    assert(wanted.skip(0) =~= wanted);
    while i < 5
        invariant
            i <= 5,
            all == crate::text::texts(offered@),
            wanted == text_preferences(),
            best_match(all, wanted) == best_match(all, wanted.skip(i as int)),
        decreases 5 - i,
    {
        assert(wanted.skip(i as int)[0] == normal_mime(OFFERED_MIME_TYPES[i as int]@));
        assert(wanted.skip(i as int).drop_first() =~= wanted.skip(i as int + 1));
        let found = find_mime(offered, &normalize_mime(OFFERED_MIME_TYPES[i]));
        if found.is_some() {
            return found;
        }
        i += 1;
    }
    None
}

/// The most preferred image type that was offered, in the guest's own spelling.
fn select_image_mime(offered: &Vec<String>) -> (r: Option<String>)
    ensures
        r is Some == best_match(crate::text::texts(offered@), image_preferences()) is Some,
        r matches Some(mime) ==> best_match(crate::text::texts(offered@), image_preferences())
            == Some(mime@),
{
    let ghost all = crate::text::texts(offered@);
    let ghost wanted = image_preferences();
    let mut i: usize = 0;
    assert(wanted.skip(0) =~= wanted);
    while i < 3
        invariant
            i <= 3,
            all == crate::text::texts(offered@),
            wanted == image_preferences(),
            best_match(all, wanted) == best_match(all, wanted.skip(i as int)),
        decreases 3 - i,
    {
        assert(wanted.skip(i as int)[0] == OFFERED_IMAGE_MIME_TYPES[i as int]@);
        assert(wanted.skip(i as int).drop_first() =~= wanted.skip(i as int + 1));
        let found = find_mime(offered, &OFFERED_IMAGE_MIME_TYPES[i].to_owned());
        if found.is_some() {
            return found;
        }
        i += 1;
    }
    None
}

fn is_text_mime(mime: &str) -> (r: bool)
    ensures
        r == is_text(mime@),
{
    let normal = normalize_mime(mime);
    let mut i: usize = 0;
    while i < 5
        invariant
            i <= 5,
            normal@ == normal_mime(mime@),
            forall|j: int| 0 <= j < i ==> #[trigger] text_preferences()[j] != normal@,
        decreases 5 - i,
    {
        if normalize_mime(OFFERED_MIME_TYPES[i]) == normal {
            assert(text_preferences()[i as int] == normal@);
            return true;
        }
        i += 1;
    }
    false
}

fn is_image_mime(mime: &str) -> (r: bool)
    ensures
        r == is_image(mime@),
{
    let normal = normalize_mime(mime);
    let mut i: usize = 0;
    while i < 3
        invariant
            i <= 3,
            normal@ == normal_mime(mime@),
            forall|j: int| 0 <= j < i ==> #[trigger] image_preferences()[j] != normal@,
        decreases 3 - i,
    {
        if same_text(OFFERED_IMAGE_MIME_TYPES[i], normal.as_str()) {
            assert(image_preferences()[i as int] == normal@);
            return true;
        }
        i += 1;
    }
    false
}

/// The types under which an offer is announced to the guest. A paste under another
/// image type than the offered one is answered with nothing.
pub fn announced_types(mime_types: Vec<String>) -> (r: Vec<String>)
    ensures
        crate::text::texts(r@) == announced(crate::text::texts(mime_types@)),
{
    if mime_types.len() != 1 {
        return mime_types;
    }
    let mut all: Vec<String> = Vec::new();
    let mut is_listed = false;
    let mut i: usize = 0;
    while i < 3
        invariant
            i <= 3,
            mime_types@.len() == 1,
            all@.len() == i,
            forall|j: int| 0 <= j < i ==> (#[trigger] all@[j])@ == image_preferences()[j],
            is_listed == (exists|j: int|
                0 <= j < i && #[trigger] image_preferences()[j] == mime_types@[0]@),
        decreases 3 - i,
    {
        if same_text(OFFERED_IMAGE_MIME_TYPES[i], mime_types[0].as_str()) {
            assert(image_preferences()[i as int] == mime_types@[0]@);
            is_listed = true;
        }
        all.push(OFFERED_IMAGE_MIME_TYPES[i].to_owned());
        i += 1;
    }
    assert(crate::text::texts(mime_types@)[0] == mime_types@[0]@);
    if is_listed {
        assert(crate::text::texts(all@) =~= image_preferences());
        all
    } else {
        mime_types
    }
}

spec fn opt_text(s: Option<String>) -> Option<Seq<char>> {
    match s {
        Some(s) => Some(s@),
        None => None,
    }
}

/// Whether the token is there and is this text.
fn is_token(token: &Option<String>, text: &String) -> (r: bool)
    ensures
        r == (opt_text(*token) == Some(text@)),
{
    match token {
        Some(token) => *token == *text,
        None => false,
    }
}

#[derive(Debug)]
pub struct ClipboardSync {
    max_text_bytes: usize,
    phone_clipboard: Option<PhoneClipboard>,
    awaiting_guest_transfer: Option<AwaitingGuestTransfer>,
    pending_guest_mime: Option<String>,
    echo_from_guest: Option<String>,
    echo_from_phone: Option<String>,
    echo_blob_from_guest: Option<String>,
    echo_blob_from_phone: Option<String>,
    retired_blobs: Vec<BlobDescriptor>,
}

impl View for ClipboardSync {
    type V = ClipboardState;

    closed spec fn view(&self) -> ClipboardState {
        ClipboardState {
            limit: self.max_text_bytes as nat,
            clipboard: match self.phone_clipboard {
                None => None,
                Some(PhoneClipboard::Text(text)) => Some(Clip::Text(text@)),
                Some(PhoneClipboard::Blob(blob)) => Some(Clip::Blob(blob@)),
            },
            awaiting: self.awaiting_guest_transfer,
            pending_mime: opt_text(self.pending_guest_mime),
            echo_from_guest: opt_text(self.echo_from_guest),
            echo_from_phone: opt_text(self.echo_from_phone),
            echo_blob_from_guest: opt_text(self.echo_blob_from_guest),
            echo_blob_from_phone: opt_text(self.echo_blob_from_phone),
            retired: Seq::new(self.retired_blobs@.len(), |i: int| self.retired_blobs@[i]@),
        }
    }
}

/// Nothing copied, nothing asked for, nothing expected back.
pub open spec fn fresh(limit: nat) -> ClipboardState {
    ClipboardState {
        limit,
        clipboard: None,
        awaiting: None,
        pending_mime: None,
        echo_from_guest: None,
        echo_from_phone: None,
        echo_blob_from_guest: None,
        echo_blob_from_phone: None,
        retired: Seq::empty(),
    }
}

impl ClipboardSync {
    /// A synchronisation that has seen nothing. A guest text of more than
    /// `max_text_bytes` bytes is dropped.
    pub fn new(max_text_bytes: usize) -> (r: Self)
        ensures
            r@ == fresh(max_text_bytes as nat),
    {
        ClipboardSync {
            max_text_bytes,
            phone_clipboard: None,
            awaiting_guest_transfer: None,
            pending_guest_mime: None,
            echo_from_guest: None,
            echo_from_phone: None,
            echo_blob_from_guest: None,
            echo_blob_from_phone: None,
            retired_blobs: Vec::new(),
        }
    }

    /// Takes an event of the guest side.
    pub fn on_guest(&mut self, event: GuestEvent) -> (r: SyncAction)
        ensures
            (final(self)@, r@) == after_guest(old(self)@, event@),
    {
        match event {
            GuestEvent::SelectionOffered { mime_types } => {
                let chosen = match select_text_mime(&mime_types) {
                    Some(mime) => Some(mime),
                    None => select_image_mime(&mime_types),
                };
                match chosen {
                    Some(mime) => {
                        self.awaiting_guest_transfer = Some(
                            if is_image_mime(mime.as_str()) {
                                AwaitingGuestTransfer::Blob
                            } else {
                                AwaitingGuestTransfer::Text
                            },
                        );
                        self.pending_guest_mime = Some(mime.clone());
                        SyncAction::AskGuestFor { mime }
                    },
                    None => {
                        // An offer without a supported form supersedes the
                        // previous one just the same: a transfer still in
                        // flight for that one must find nobody waiting.
                        self.awaiting_guest_transfer = None;
                        self.pending_guest_mime = None;
                        SyncAction::Nothing
                    },
                }
            },
            GuestEvent::TransferFromGuest { bytes } => {
                match self.awaiting_guest_transfer {
                    Some(AwaitingGuestTransfer::Text) => {},
                    _ => {
                        return SyncAction::Nothing;
                    },
                }
                self.awaiting_guest_transfer = None;
                self.pending_guest_mime = None;
                let size: usize = bytes.len();
                if size > self.max_text_bytes || size == 0 {
                    return SyncAction::Nothing;
                }
                let text = match text_from_utf8(bytes) {
                    Some(text) => text,
                    None => {
                        return SyncAction::Nothing;
                    },
                };
                if is_token(&self.echo_from_guest, &text) {
                    self.echo_from_guest = None;
                    return SyncAction::Nothing;
                }
                self.echo_from_phone = Some(text.clone());
                self.replace_phone_clipboard(PhoneClipboard::Text(text.clone()));
                SyncAction::PushToPhone { text }
            },
            GuestEvent::TransferBlobFromGuest { blob, valid } => {
                match self.awaiting_guest_transfer {
                    Some(AwaitingGuestTransfer::Blob) => {},
                    _ => {
                        return SyncAction::Nothing;
                    },
                }
                self.awaiting_guest_transfer = None;
                self.pending_guest_mime = None;
                if !valid {
                    return SyncAction::Nothing;
                }
                if is_token(&self.echo_blob_from_guest, &blob.id) {
                    self.echo_blob_from_guest = None;
                    return SyncAction::Nothing;
                }
                self.echo_blob_from_phone = Some(blob.id.clone());
                self.replace_phone_clipboard(PhoneClipboard::Blob(blob.clone()));
                SyncAction::PushBlobToPhone { blob }
            },
            GuestEvent::TransferBlobFailed => {
                self.awaiting_guest_transfer = None;
                self.pending_guest_mime = None;
                SyncAction::Nothing
            },
            // A paste is always answered: the guest application reads a pipe
            // until it is closed, and would wait forever.
            GuestEvent::PasteRequested { mime } => {
                match &self.phone_clipboard {
                    Some(PhoneClipboard::Text(text)) => {
                        if is_text_mime(mime.as_str()) {
                            return SyncAction::AnswerGuest { bytes: text.as_str().as_bytes_vec() };
                        }
                    },
                    Some(PhoneClipboard::Blob(blob)) => {
                        if normalize_mime(mime.as_str()) == normalize_mime(blob.mime.as_str()) {
                            return SyncAction::AnswerGuestBlob { blob: blob.clone() };
                        }
                    },
                    None => {},
                }
                SyncAction::AnswerGuest { bytes: Vec::new() }
            },
        }
    }

    /// For a push that reached nobody: the phone cannot echo what it never got,
    /// so the next copy of the same value is a genuine one.
    pub fn forget_phone_echo(&mut self)
        ensures
            final(self)@ == without_phone_echo(old(self)@),
    {
        self.echo_from_phone = None;
        self.echo_blob_from_phone = None;
    }

    /// The phone copied a text.
    pub fn on_phone_clipboard(&mut self, text: String) -> (r: SyncAction)
        ensures
            (final(self)@, r@) == after_phone_text(old(self)@, text@),
    {
        if is_token(&self.echo_from_phone, &text) {
            self.echo_from_phone = None;
            return SyncAction::Nothing;
        }
        self.echo_from_guest = Some(text.clone());
        self.replace_phone_clipboard(PhoneClipboard::Text(text));
        let mut mime_types: Vec<String> = Vec::new();
        let mut i: usize = 0;
        while i < 5
            invariant
                i <= 5,
                mime_types@.len() == i,
                forall|j: int| 0 <= j < i ==> (#[trigger] mime_types@[j])@ == text_types()[j],
            decreases 5 - i,
        {
            mime_types.push(OFFERED_MIME_TYPES[i].to_owned());
            i += 1;
        }
        assert(crate::text::texts(mime_types@) =~= text_types());
        SyncAction::OfferToGuest { mime_types }
    }

    /// The phone copied an image. `valid` says whether the descriptor passed the
    /// protocol's own validation.
    pub fn on_phone_blob(&mut self, blob: BlobDescriptor, valid: bool) -> (r: SyncAction)
        ensures
            (final(self)@, r@) == after_phone_blob(old(self)@, blob@, valid),
    {
        if !valid {
            return SyncAction::Nothing;
        }
        if is_token(&self.echo_blob_from_phone, &blob.id) {
            self.echo_blob_from_phone = None;
            return SyncAction::Nothing;
        }
        let mut mime_types: Vec<String> = Vec::new();
        mime_types.push(blob.mime.clone());
        self.echo_blob_from_guest = Some(blob.id.clone());
        self.replace_phone_clipboard(PhoneClipboard::Blob(blob));
        assert(crate::text::texts(mime_types@) =~= seq![blob.mime@]);
        SyncAction::OfferToGuest { mime_types }
    }

    /// The type of the image that the guest was asked for, while it is awaited.
    pub fn pending_guest_blob_mime(&self) -> (r: Option<String>)
        ensures
            r is Some == (self@.awaiting == Some(AwaitingGuestTransfer::Blob)
                && self@.pending_mime is Some),
            r matches Some(mime) ==> self@.pending_mime == Some(mime@),
    {
        match self.awaiting_guest_transfer {
            Some(AwaitingGuestTransfer::Blob) => match &self.pending_guest_mime {
                Some(mime) => Some(mime.clone()),
                None => None,
            },
            _ => None,
        }
    }

    /// Hands out the blobs that newer values displaced, each once.
    pub fn take_retired_blobs(&mut self) -> (r: Vec<BlobDescriptor>)
        ensures
            Seq::new(r@.len(), |i: int| r@[i]@) == old(self)@.retired,
            final(self)@ == (ClipboardState { retired: Seq::empty(), ..old(self)@ }),
    {
        let mut taken: Vec<BlobDescriptor> = Vec::new();
        core::mem::swap(&mut taken, &mut self.retired_blobs);
        taken
    }

    fn replace_phone_clipboard(&mut self, next: PhoneClipboard)
        ensures
            final(self)@ == holding(
                old(self)@,
                match next {
                    PhoneClipboard::Text(text) => Clip::Text(text@),
                    PhoneClipboard::Blob(blob) => Clip::Blob(blob@),
                },
            ),
    {
        let previous = self.phone_clipboard.take();
        match previous {
            Some(PhoneClipboard::Blob(previous)) => {
                let displaced: bool = match &next {
                    PhoneClipboard::Blob(blob) => previous.id != blob.id,
                    PhoneClipboard::Text(_) => true,
                };
                if displaced {
                    self.retired_blobs.push(previous);
                }
            },
            _ => {},
        }
        self.phone_clipboard = Some(next);
    }
}

/// A paste is always answered, and answering it changes nothing.
pub proof fn law_every_paste_is_answered(s: ClipboardState, mime: Seq<char>)
    ensures
        after_guest(s, GuestSays::Pasted(mime)).0 == s,
        after_guest(s, GuestSays::Pasted(mime)).1 is AnswerGuest || after_guest(
            s,
            GuestSays::Pasted(mime),
        ).1 is AnswerGuestBlob,
{
}

proof fn lemma_first_match(offered: Seq<Seq<char>>, wanted: Seq<char>)
    ensures
        first_match(offered, wanted) is Some <==> exists|i: int|
            0 <= i < offered.len() && normal_mime(#[trigger] offered[i]) == wanted,
        first_match(offered, wanted) matches Some(mime) ==> offered.contains(mime) && normal_mime(
            mime,
        ) == wanted,
    decreases offered.len(),
{
    if offered.len() > 0 {
        let rest = offered.drop_first();
        lemma_first_match(rest, wanted);
        if normal_mime(offered[0]) == wanted {
            assert(offered.contains(offered[0]));
        } else {
            if exists|i: int| 0 <= i < rest.len() && normal_mime(#[trigger] rest[i]) == wanted {
                let i = choose|i: int|
                    0 <= i < rest.len() && normal_mime(#[trigger] rest[i]) == wanted;
                assert(normal_mime(offered[i + 1]) == wanted);
            }
            if exists|i: int| 0 <= i < offered.len() && normal_mime(#[trigger] offered[i])
                == wanted {
                let i = choose|i: int|
                    0 <= i < offered.len() && normal_mime(#[trigger] offered[i]) == wanted;
                assert(normal_mime(rest[i - 1]) == wanted);
            }
            if first_match(rest, wanted) is Some {
                let k = rest.index_of(first_match(rest, wanted)->0);
                assert(rest.contains(first_match(rest, wanted)->0));
                assert(offered[k + 1] == rest[k]);
            }
        }
    }
}

proof fn lemma_best_match(offered: Seq<Seq<char>>, preferred: Seq<Seq<char>>)
    ensures
        best_match(offered, preferred) is Some <==> exists|i: int|
            0 <= i < offered.len() && preferred.contains(normal_mime(#[trigger] offered[i])),
        best_match(offered, preferred) matches Some(mime) ==> offered.contains(mime)
            && preferred.contains(normal_mime(mime)),
    decreases preferred.len(),
{
    if preferred.len() > 0 {
        let rest = preferred.drop_first();
        lemma_first_match(offered, preferred[0]);
        lemma_best_match(offered, rest);
        if first_match(offered, preferred[0]) is Some {
            let mime = first_match(offered, preferred[0])->0;
            assert(preferred.contains(preferred[0]));
            let k = offered.index_of(mime);
            assert(preferred.contains(normal_mime(offered[k])));
        } else {
            assert forall|x: Seq<char>| rest.contains(x) implies preferred.contains(x) by {
                let k = rest.index_of(x);
                assert(preferred[k + 1] == x);
            }
            assert forall|x: Seq<char>| preferred.contains(x) && x != preferred[0] implies rest.contains(
                x,
            ) by {
                let k = preferred.index_of(x);
                assert(rest[k - 1] == x);
            }
        }
    }
}

/// The guest is asked for a type exactly if it offered a supported one, under a
/// spelling from its own offer; and whenever it offers a text type, it is asked
/// for text, whatever images stand beside it.
pub proof fn law_asks_in_the_guests_own_spelling(s: ClipboardState, offered: Seq<Seq<char>>)
    ensures
        after_guest(s, GuestSays::Offered(offered)).1 matches Action::AskGuestFor(mime)
            ==> offered.contains(mime) && (is_text(mime) || is_image(mime)),
        after_guest(s, GuestSays::Offered(offered)).1 is AskGuestFor <==> exists|i: int|
            0 <= i < offered.len() && (is_text(#[trigger] offered[i]) || is_image(offered[i])),
        (exists|i: int| 0 <= i < offered.len() && is_text(#[trigger] offered[i])) ==> (after_guest(
            s,
            GuestSays::Offered(offered),
        ).1 matches Action::AskGuestFor(mime) && is_text(mime)),
{
    lemma_best_match(offered, text_preferences());
    lemma_best_match(offered, image_preferences());
    if exists|i: int| 0 <= i < offered.len() && is_text(#[trigger] offered[i]) {
        let i = choose|i: int| 0 <= i < offered.len() && is_text(#[trigger] offered[i]);
        assert(text_preferences().contains(normal_mime(offered[i])));
    }
    if exists|i: int| 0 <= i < offered.len() && is_image(#[trigger] offered[i]) {
        let i = choose|i: int| 0 <= i < offered.len() && is_image(#[trigger] offered[i]);
        assert(image_preferences().contains(normal_mime(offered[i])));
    }
    if best_match(offered, text_preferences()) is Some {
        let mime = best_match(offered, text_preferences())->0;
        let k = offered.index_of(mime);
        assert(is_text(offered[k]));
    } else if best_match(offered, image_preferences()) is Some {
        let mime = best_match(offered, image_preferences())->0;
        let k = offered.index_of(mime);
        assert(is_image(offered[k]));
    }
}

/// An offer without a supported form ends the request before it: a transfer
/// that is still in flight for that request is dropped and changes nothing.
pub proof fn law_unsupported_offer_disarms(
    s: ClipboardState,
    offered: Seq<Seq<char>>,
    bytes: Seq<u8>,
    blob: Blob,
    valid: bool,
)
    requires
        forall|i: int|
            0 <= i < offered.len() ==> !is_text(#[trigger] offered[i]) && !is_image(offered[i]),
    ensures
        ({
            let (t, action) = after_guest(s, GuestSays::Offered(offered));
            &&& action == Action::Nothing
            &&& t.clipboard == s.clipboard
            &&& after_guest(t, GuestSays::Text(bytes)) == (t, Action::Nothing)
            &&& after_guest(t, GuestSays::Blob { blob, valid }) == (t, Action::Nothing)
        }),
{
    law_asks_in_the_guests_own_spelling(s, offered);
}

/// A request is answered by one transfer at most: after the transfer that was
/// asked for, whatever became of it, another one without a new offer is dropped.
pub proof fn law_one_transfer_per_request(
    s: ClipboardState,
    first: GuestSays,
    second: GuestSays,
)
    requires
        (first is Text && s.awaiting == Some(AwaitingGuestTransfer::Text)) || (first is Blob
            && s.awaiting == Some(AwaitingGuestTransfer::Blob)),
        second is Text || second is Blob,
    ensures
        after_guest(after_guest(s, first).0, second) == (
            after_guest(s, first).0,
            Action::Nothing,
        ),
{
}

/// A text that the phone set comes back from the guest once: that transfer is
/// dropped, and the next transfer of the same text is pushed to the phone.
pub proof fn law_guest_echo_is_dropped_once(
    s: ClipboardState,
    text: Seq<char>,
    offered: Seq<Seq<char>>,
    again: Seq<Seq<char>>,
)
    requires
        text.len() > 0,
        vstd::utf8::encode_utf8(text).len() <= s.limit,
        s.echo_from_phone != Some(text),
        after_offer(s, offered).0.awaiting == Some(AwaitingGuestTransfer::Text),
        after_offer(s, again).0.awaiting == Some(AwaitingGuestTransfer::Text),
    ensures
        ({
            let bytes = vstd::utf8::encode_utf8(text);
            let copied = after_phone_text(s, text).0;
            let asked = after_guest(copied, GuestSays::Offered(offered)).0;
            let (echoed, first) = after_guest(asked, GuestSays::Text(bytes));
            let asked_again = after_guest(echoed, GuestSays::Offered(again)).0;
            let second = after_guest(asked_again, GuestSays::Text(bytes)).1;
            &&& first == Action::Nothing
            &&& second == Action::PushToPhone(text)
        }),
{
    vstd::utf8::encode_utf8_valid_utf8(text);
    vstd::utf8::encode_utf8_decode_utf8(text);
    lemma_encoding_not_empty(text);
}

proof fn lemma_encoding_not_empty(text: Seq<char>)
    requires
        text.len() > 0,
    ensures
        vstd::utf8::encode_utf8(text).len() > 0,
{
    vstd::utf8::encode_utf8_decode_utf8(text);
    if vstd::utf8::encode_utf8(text).len() == 0 {
        assert(vstd::utf8::decode_utf8(vstd::utf8::encode_utf8(text)).len() == 0);
    }
}

/// A text that was pushed to the phone comes back from it once: that copy is
/// dropped, and the next copy of the same text is offered to the guest.
pub proof fn law_phone_echo_is_dropped_once(s: ClipboardState, bytes: Seq<u8>)
    requires
        after_guest(s, GuestSays::Text(bytes)).1 is PushToPhone,
    ensures
        ({
            let text = vstd::utf8::decode_utf8(bytes);
            let pushed = after_guest(s, GuestSays::Text(bytes)).0;
            let (echoed, first) = after_phone_text(pushed, text);
            &&& after_guest(s, GuestSays::Text(bytes)).1 == Action::PushToPhone(text)
            &&& first == Action::Nothing
            &&& after_phone_text(echoed, text).1 == Action::OfferToGuest(text_types())
        }),
{
}

/// The same for images: the phone's echo of a pushed image is dropped once.
pub proof fn law_phone_blob_echo_is_dropped_once(s: ClipboardState, blob: Blob)
    requires
        after_guest(s, GuestSays::Blob { blob, valid: true }).1 is PushBlobToPhone,
    ensures
        ({
            let pushed = after_guest(s, GuestSays::Blob { blob, valid: true }).0;
            let (echoed, first) = after_phone_blob(pushed, blob, true);
            &&& first == Action::Nothing
            &&& after_phone_blob(echoed, blob, true).1 == Action::OfferToGuest(seq![blob.mime])
        }),
{
}

/// Forgetting the echo of a push that reached nobody lets the next copy of the
/// same value on the phone through.
pub proof fn law_forgotten_push_lets_the_next_copy_through(
    s: ClipboardState,
    bytes: Seq<u8>,
    blob: Blob,
)
    ensures
        after_guest(s, GuestSays::Text(bytes)).1 matches Action::PushToPhone(text)
            ==> after_phone_text(
            without_phone_echo(after_guest(s, GuestSays::Text(bytes)).0),
            text,
        ).1 == Action::OfferToGuest(text_types()),
        after_guest(s, GuestSays::Blob { blob, valid: true }).1 is PushBlobToPhone
            ==> after_phone_blob(
            without_phone_echo(after_guest(s, GuestSays::Blob { blob, valid: true }).0),
            blob,
            true,
        ).1 == Action::OfferToGuest(seq![blob.mime]),
{
}

/// A paste is answered with the phone's latest clipboard: the text that was
/// just pushed to it, byte for byte, or the text that it just copied.
pub proof fn law_paste_gives_the_latest_text(
    s: ClipboardState,
    bytes: Seq<u8>,
    text: Seq<char>,
    mime: Seq<char>,
)
    requires
        is_text(mime),
    ensures
        after_guest(s, GuestSays::Text(bytes)).1 is PushToPhone ==> after_guest(
            after_guest(s, GuestSays::Text(bytes)).0,
            GuestSays::Pasted(mime),
        ).1 == Action::AnswerGuest(bytes),
        after_phone_text(s, text).1 is OfferToGuest ==> after_guest(
            after_phone_text(s, text).0,
            GuestSays::Pasted(mime),
        ).1 == Action::AnswerGuest(vstd::utf8::encode_utf8(text)),
{
    if after_guest(s, GuestSays::Text(bytes)).1 is PushToPhone {
        vstd::utf8::decode_utf8_encode_utf8(bytes);
    }
}

/// An image that the phone copied is what a paste of its type gets, and no other
/// type gets a byte of it.
pub proof fn law_paste_gives_the_latest_image(s: ClipboardState, blob: Blob, mime: Seq<char>)
    requires
        after_phone_blob(s, blob, true).1 is OfferToGuest,
    ensures
        after_guest(after_phone_blob(s, blob, true).0, GuestSays::Pasted(mime)).1 == (
        if normal_mime(mime) == normal_mime(blob.mime) {
            Action::AnswerGuestBlob(blob)
        } else {
            Action::AnswerGuest(Seq::empty())
        }),
{
}

/// A blob is retired exactly when another value takes its place: by a text or by
/// a blob with another id, never by itself.
pub proof fn law_displaced_blob_is_retired(s: ClipboardState, held: Blob, next: Clip)
    requires
        s.clipboard == Some(Clip::Blob(held)),
    ensures
        holding(s, next).retired == (if next matches Clip::Blob(blob) && blob.id == held.id {
            s.retired
        } else {
            s.retired.push(held)
        }),
        holding(s, next).clipboard == Some(next),
{
}

/// Normal forms are made character by character: ASCII white space goes, ASCII capitals
/// become small, and what remains of a type keeps its order.
pub proof fn law_normal_form_is_made_of_its_parts(a: Seq<char>, b: Seq<char>, c: char)
    ensures
        normal_mime(a + b) == normal_mime(a) + normal_mime(b),
        normal_mime(Seq::<char>::empty()) == Seq::<char>::empty(),
        c == ' ' || c == '\t' || c == '\n' || c == '\r' ==> normal_mime(seq![c]).len() == 0,
        '!' <= c <= '~' && !('A' <= c <= 'Z') ==> normal_mime(seq![c]) == seq![c],
        'A' <= c <= 'Z' ==> normal_mime(seq![c]).len() == 1 && normal_mime(seq![c])[0] as nat
            == c as nat + 32,
    decreases b.len(),
{
    assert(seq![c].drop_last() =~= Seq::<char>::empty());
    assert(normal_mime(seq![c].drop_last()) =~= Seq::<char>::empty());
    assert(seq![c].last() == c);
    assert(normal_mime(seq![c]) =~= if is_ascii_whitespace(c) {
        Seq::<char>::empty()
    } else {
        crate::text::lowercase(c)
    });
    if b.len() == 0 {
        assert(a + b =~= a);
        assert(normal_mime(a) + normal_mime(b) =~= normal_mime(a));
    } else {
        law_normal_form_is_made_of_its_parts(a, b.drop_last(), c);
        assert((a + b).drop_last() =~= a + b.drop_last());
        assert(normal_mime(a + b) =~= normal_mime(a) + normal_mime(b));
    }
}

/// The types that a text is known by, and those of images, the preferred ones first.
pub proof fn law_types_in_order_of_preference()
    ensures
        text_types() == seq![
            "text/plain;charset=utf-8"@,
            "UTF8_STRING"@,
            "text/plain"@,
            "STRING"@,
            "TEXT"@,
        ],
        image_preferences() == seq!["image/png"@, "image/jpeg"@, "image/webp"@],
{
    assert(text_types() =~= seq![
        "text/plain;charset=utf-8"@,
        "UTF8_STRING"@,
        "text/plain"@,
        "STRING"@,
        "TEXT"@,
    ]);
    assert(image_preferences() =~= seq!["image/png"@, "image/jpeg"@, "image/webp"@]);
}

/// The guest is asked for the most preferred of the types that it offers: no type before
/// the one that is asked for was offered, texts coming before images; and among several
/// spellings of that type it is asked for the first.
pub proof fn law_preferred_type_is_asked_for(
    s: ClipboardState,
    offered: Seq<Seq<char>>,
    mime: Seq<char>,
    i: int,
    a: int,
    b: int,
)
    requires
        after_guest(s, GuestSays::Offered(offered)).1 == Action::AskGuestFor(mime),
        0 <= i < offered.len(),
    ensures
        0 <= b < a < 5 && normal_mime(mime) == normal_mime(text_types()[a]) && (forall|e: int|
            0 <= e < a ==> normal_mime(#[trigger] text_types()[e]) != normal_mime(mime))
            ==> normal_mime(offered[i]) != normal_mime(text_types()[b]),
        !is_text(mime) ==> !is_text(offered[i]),
        !is_text(mime) && 0 <= b < a < 3 && normal_mime(mime) == image_preferences()[a] && (
        forall|e: int| 0 <= e < a ==> #[trigger] image_preferences()[e] != normal_mime(mime))
            ==> normal_mime(offered[i]) != image_preferences()[b],
        exists|k: int|
            0 <= k < offered.len() && #[trigger] offered[k] == mime && forall|j: int|
                0 <= j < k ==> normal_mime(#[trigger] offered[j]) != normal_mime(mime),
{
    lemma_best_match(offered, text_preferences());
    lemma_best_match(offered, image_preferences());
    law_asks_in_the_guests_own_spelling(s, offered);
    assert(forall|e: int|
        0 <= e < 5 ==> text_preferences()[e] == normal_mime(#[trigger] text_types()[e]));
    if best_match(offered, text_preferences()) is Some {
        lemma_best_is_first(offered, text_preferences(), mime);
        if 0 <= b < a < 5 && normal_mime(mime) == normal_mime(text_types()[a]) && (forall|e: int|
            0 <= e < a ==> normal_mime(#[trigger] text_types()[e]) != normal_mime(mime)) && normal_mime(
            offered[i],
        ) == normal_mime(text_types()[b]) {
            let d = choose|d: int| is_best(offered, text_preferences(), mime, d);
            assert(text_preferences()[d] == normal_mime(text_types()[d]));
            assert(d >= a);
            assert(text_preferences()[b] == normal_mime(text_types()[b]));
            assert(first_match(offered, text_preferences()[b]) is None);
            lemma_no_first_match(offered, text_preferences()[b], i);
        }
    } else {
        lemma_best_is_first(offered, image_preferences(), mime);
        if is_text(offered[i]) {
            assert(text_preferences().contains(normal_mime(offered[i])));
        }
        if is_text(mime) {
            let k = offered.index_of(mime);
            assert(text_preferences().contains(normal_mime(offered[k])));
        }
        if 0 <= b < a < 3 && normal_mime(mime) == image_preferences()[a] && (forall|e: int|
            0 <= e < a ==> #[trigger] image_preferences()[e] != normal_mime(mime)) && normal_mime(
            offered[i],
        ) == image_preferences()[b] {
            let d = choose|d: int| is_best(offered, image_preferences(), mime, d);
            assert(d >= a);
            assert(first_match(offered, image_preferences()[b]) is None);
            lemma_no_first_match(offered, image_preferences()[b], i);
        }
    }
}

/// `mime` is the first match for preference number `d`, and none before has one.
spec fn is_best(
    offered: Seq<Seq<char>>,
    preferred: Seq<Seq<char>>,
    mime: Seq<char>,
    d: int,
) -> bool {
    &&& 0 <= d < preferred.len()
    &&& first_match(offered, preferred[d]) == Some(mime)
    &&& preferred[d] == normal_mime(mime)
    &&& forall|e: int| 0 <= e < d ==> first_match(offered, #[trigger] preferred[e]) is None
}

proof fn lemma_best_is_first(
    offered: Seq<Seq<char>>,
    preferred: Seq<Seq<char>>,
    mime: Seq<char>,
)
    requires
        best_match(offered, preferred) == Some(mime),
    ensures
        exists|d: int| is_best(offered, preferred, mime, d),
        exists|k: int|
            0 <= k < offered.len() && #[trigger] offered[k] == mime && forall|j: int|
                0 <= j < k ==> normal_mime(#[trigger] offered[j]) != normal_mime(mime),
    decreases preferred.len(),
{
    if first_match(offered, preferred[0]) is Some {
        lemma_first_is_first(offered, preferred[0], mime);
        assert(is_best(offered, preferred, mime, 0));
    } else {
        let rest = preferred.drop_first();
        lemma_best_is_first(offered, rest, mime);
        let d = choose|d: int| is_best(offered, rest, mime, d);
        assert forall|e: int| 0 <= e < d + 1 implies first_match(
            offered,
            #[trigger] preferred[e],
        ) is None by {
            if e > 0 {
                assert(rest[e - 1] == preferred[e]);
            }
        }
        assert(is_best(offered, preferred, mime, d + 1));
    }
}

proof fn lemma_first_is_first(offered: Seq<Seq<char>>, wanted: Seq<char>, mime: Seq<char>)
    requires
        first_match(offered, wanted) == Some(mime),
    ensures
        normal_mime(mime) == wanted,
        exists|k: int|
            0 <= k < offered.len() && #[trigger] offered[k] == mime && forall|j: int|
                0 <= j < k ==> normal_mime(#[trigger] offered[j]) != normal_mime(mime),
    decreases offered.len(),
{
    if normal_mime(offered[0]) == wanted {
        assert(offered[0] == mime);
    } else {
        let rest = offered.drop_first();
        lemma_first_is_first(rest, wanted, mime);
        let k = choose|k: int|
            0 <= k < rest.len() && #[trigger] rest[k] == mime && forall|j: int|
                0 <= j < k ==> normal_mime(#[trigger] rest[j]) != normal_mime(mime);
        assert(offered[k + 1] == mime);
        assert forall|j: int| 0 <= j < k + 1 implies normal_mime(#[trigger] offered[j])
            != normal_mime(mime) by {
            if j > 0 {
                assert(rest[j - 1] == offered[j]);
            }
        }
    }
}

proof fn lemma_no_first_match(offered: Seq<Seq<char>>, wanted: Seq<char>, i: int)
    requires
        0 <= i < offered.len(),
        first_match(offered, wanted) is None,
    ensures
        normal_mime(offered[i]) != wanted,
    decreases offered.len(),
{
    if i > 0 {
        assert(offered.drop_first()[i - 1] == offered[i]);
        lemma_no_first_match(offered.drop_first(), wanted, i - 1);
    }
}

/// A text that the guest was asked for reaches the phone exactly if it is one: UTF-8, not
/// empty, no larger than the limit, and not what the phone itself set last. It arrives as
/// it was sent, and the request is over in any case. A text that nobody asked for goes
/// nowhere.
pub proof fn law_guest_text_reaches_the_phone(
    s: ClipboardState,
    offered: Seq<Seq<char>>,
    mime: Seq<char>,
    bytes: Seq<u8>,
)
    requires
        after_guest(s, GuestSays::Offered(offered)).1 == Action::AskGuestFor(mime),
        !is_image(mime),
    ensures
        ({
            let asked = after_guest(s, GuestSays::Offered(offered)).0;
            let (t, action) = after_guest(asked, GuestSays::Text(bytes));
            let text = vstd::utf8::decode_utf8(bytes);
            &&& action is PushToPhone <==> vstd::utf8::valid_utf8(bytes) && 0 < bytes.len()
                <= s.limit && s.echo_from_guest != Some(text)
            &&& action is PushToPhone ==> action == Action::PushToPhone(text)
                && vstd::utf8::encode_utf8(text) == bytes
            &&& action is PushToPhone || action is Nothing
            &&& after_guest(t, GuestSays::Text(bytes)) == (t, Action::Nothing)
            &&& !(action is PushToPhone) ==> t.clipboard == s.clipboard
        }),
{
    if vstd::utf8::valid_utf8(bytes) {
        vstd::utf8::decode_utf8_encode_utf8(bytes);
    }
}

/// An image that the guest was asked for reaches the phone exactly if its descriptor is
/// valid and it is not what the phone itself set last; and then the phone holds it.
pub proof fn law_guest_image_reaches_the_phone(
    s: ClipboardState,
    offered: Seq<Seq<char>>,
    mime: Seq<char>,
    blob: Blob,
    valid: bool,
)
    requires
        after_guest(s, GuestSays::Offered(offered)).1 == Action::AskGuestFor(mime),
        is_image(mime),
    ensures
        ({
            let asked = after_guest(s, GuestSays::Offered(offered)).0;
            let (t, action) = after_guest(asked, GuestSays::Blob { blob, valid });
            &&& asked.pending_mime == Some(mime)
            &&& action is PushBlobToPhone <==> valid && s.echo_blob_from_guest != Some(blob.id)
            &&& action is PushBlobToPhone ==> action == Action::PushBlobToPhone(blob)
                && t.clipboard == Some(Clip::Blob(blob))
            &&& action is PushBlobToPhone || action is Nothing
            &&& after_guest(t, GuestSays::Blob { blob, valid }) == (t, Action::Nothing)
            &&& after_guest(asked, GuestSays::BlobFailed).1 == Action::Nothing
        }),
{
}

/// An image that the phone set comes back from the guest once: that transfer is dropped,
/// and the next one of the same image is pushed to the phone.
pub proof fn law_guest_blob_echo_is_dropped_once(
    s: ClipboardState,
    blob: Blob,
    offered: Seq<Seq<char>>,
)
    requires
        s.echo_blob_from_phone != Some(blob.id),
        after_offer(s, offered).0.awaiting == Some(AwaitingGuestTransfer::Blob),
    ensures
        ({
            let says = GuestSays::Blob { blob, valid: true };
            let copied = after_phone_blob(s, blob, true).0;
            let asked = after_guest(copied, GuestSays::Offered(offered)).0;
            let (echoed, first) = after_guest(asked, says);
            let again = after_guest(echoed, GuestSays::Offered(offered)).0;
            &&& first == Action::Nothing
            &&& after_guest(again, says).1 == Action::PushBlobToPhone(blob)
        }),
{
}

/// A copy on the phone is offered to the guest unless it is the echo of what was just
/// pushed there; what is offered is what the phone holds then, and a transfer that the
/// guest was asked for is still awaited.
pub proof fn law_phone_copy_is_offered(s: ClipboardState, text: Seq<char>, blob: Blob)
    ensures
        ({
            let (t, action) = after_phone_text(s, text);
            &&& action is OfferToGuest <==> s.echo_from_phone != Some(text)
            &&& action is OfferToGuest ==> t.clipboard == Some(Clip::Text(text)) && action
                == Action::OfferToGuest(text_types())
            &&& !(action is OfferToGuest) ==> action is Nothing && t.clipboard == s.clipboard
            &&& t.awaiting == s.awaiting && t.pending_mime == s.pending_mime
        }),
        ({
            let (t, action) = after_phone_blob(s, blob, true);
            &&& action is OfferToGuest <==> s.echo_blob_from_phone != Some(blob.id)
            &&& action is OfferToGuest ==> t.clipboard == Some(Clip::Blob(blob)) && action
                == Action::OfferToGuest(seq![blob.mime])
            &&& !(action is OfferToGuest) ==> action is Nothing && t.clipboard == s.clipboard
            &&& t.awaiting == s.awaiting && t.pending_mime == s.pending_mime
        }),
        after_phone_blob(s, blob, false) == (s, Action::Nothing),
{
}

/// An image is announced to the guest under all image types, and a text under just the
/// types of its offer.
pub proof fn law_offers_are_announced_in_full(mime: Seq<char>)
    ensures
        image_preferences().contains(mime) ==> announced(seq![mime]) == image_preferences(),
        announced(text_types()) == text_types(),
{
}


/// An image that could not be kept ends the request for it: the guest's next transfer
/// is not taken for one, nothing is sent, and what was on the clipboard stays there.
pub proof fn law_failed_image_ends_the_request(s: ClipboardState, bytes: Seq<u8>)
    ensures
        ({
            let (after, action) = after_guest(s, GuestSays::BlobFailed);
            &&& action is Nothing
            &&& after.awaiting is None
            &&& after.pending_mime is None
            &&& after.clipboard == s.clipboard
            &&& after.retired == s.retired
            &&& after_guest(after, GuestSays::Text(bytes)).1 is Nothing
        }),
{
}

} // verus!
