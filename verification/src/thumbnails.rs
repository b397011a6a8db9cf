//! What a session looked like the last time anyone saw it. The store holds one
//! picture per session; the capture decides when a picture goes there. Pictures
//! are scaled and encoded by functions that the caller hands in, and the time is
//! handed in too.

use std::sync::Arc;

use vstd::prelude::*;

use crate::encode::SurfaceKey;
use crate::frame::Frame;
use crate::sorted_map::SortedMap;
use crate::text::push_hexadecimal;

verus! {

broadcast use vstd::string::group_string_axioms;

/// How often a picture is refreshed while frames are flowing, in milliseconds as
/// are the times below.
pub const SNAPSHOT_INTERVAL: u64 = 10_000;

/// The retained picture is replaced at most this often.
pub const KEEP_INTERVAL: u64 = 1_000;

/// A retained picture older than this is replaced by whatever arrives next, even
/// by a smaller window.
pub const KEEP_STALE: u64 = 2_000;

/// No snapshot is taken on a detach while the last one is younger than this.
pub const DETACH_SNAPSHOT_FLOOR: u64 = 1_000;

/// The width that larger pictures are scaled down to.
pub const THUMBNAIL_MAX_WIDTH: u32 = 320;

/// An encoded picture.
#[derive(Debug, PartialEq, Eq)]
pub struct Thumbnail {
    pub jpeg: Vec<u8>,
    pub width: u32,
    pub height: u32,
}

/// A scaled picture of three bytes per pixel.
#[derive(Debug, PartialEq, Eq)]
pub struct RgbImage {
    pub width: u32,
    pub height: u32,
    pub pixels: Vec<u8>,
}

#[derive(Debug, PartialEq, Eq)]
pub struct StoredThumbnail {
    pub jpeg: Vec<u8>,
    /// A strong validator, already quoted.
    pub etag: String,
    pub taken_at_ms: u64,
    pub width: u32,
    pub height: u32,
}

/// The validator of the picture that was the `sequence`-th to be stored and has
/// `len` bytes.
pub open spec fn etag_text(sequence: nat, len: nat) -> Seq<char> {
    seq!['"'] + crate::text::hexadecimal(sequence) + seq!['-'] + crate::text::hexadecimal(len)
        + seq!['"']
}

pub fn etag_for(sequence: u64, len: u64) -> (r: String)
    ensures
        r@ == etag_text(sequence as nat, len as nat),
{
    let mut etag = String::new();
    etag.push('"');
    push_hexadecimal(&mut etag, sequence as u128);
    etag.push('-');
    push_hexadecimal(&mut etag, len as u128);
    etag.push('"');
    assert(etag@ =~= etag_text(sequence as nat, len as nat));
    etag
}

/// Two pictures never share a validator, whatever they look like: the number in
/// front tells them apart.
pub proof fn law_etags_differ(first: nat, first_len: nat, second: nat, second_len: nat)
    requires
        first != second,
    ensures
        etag_text(first, first_len) != etag_text(second, second_len),
{
    let a = crate::text::hexadecimal(first);
    let b = crate::text::hexadecimal(second);
    let x = etag_text(first, first_len);
    let y = etag_text(second, second_len);
    crate::text::lemma_hexadecimal_digits(first);
    crate::text::lemma_hexadecimal_digits(second);
    if x == y {
        assert(x[a.len() as int + 1] == '-');
        assert(y[b.len() as int + 1] == '-');
        if a.len() < b.len() {
            assert(y[a.len() as int + 1] == b[a.len() as int]);
        } else if b.len() < a.len() {
            assert(x[b.len() as int + 1] == a[b.len() as int]);
        } else {
            assert forall|i: int| 0 <= i < a.len() implies a[i] == b[i] by {
                assert(x[i + 1] == a[i]);
                assert(y[i + 1] == b[i]);
            }
            assert(a =~= b);
            crate::text::lemma_hexadecimal_injective(first, second);
        }
    }
}

/// The pictures by session, and the number of the next one.
#[verifier::ext_equal]
pub struct Thumbnails {
    pub entries: Map<Seq<char>, Arc<StoredThumbnail>>,
    pub next: u64,
}

/// One picture per session.
pub struct ThumbnailStore {
    entries: SortedMap<String, Arc<StoredThumbnail>>,
    sequence: u64,
}

impl View for ThumbnailStore {
    type V = Thumbnails;

    closed spec fn view(&self) -> Thumbnails {
        Thumbnails { entries: self.entries@, next: self.sequence }
    }
}

/// The number that follows `n`; after the largest one comes zero.
pub open spec fn next_number(n: u64) -> u64 {
    if n == u64::MAX {
        0
    } else {
        (n + 1) as u64
    }
}

/// The `stored` picture is `thumbnail`, taken then and stored under that number.
pub open spec fn is_stored(
    stored: StoredThumbnail,
    thumbnail: Thumbnail,
    sequence: u64,
    taken_at_ms: u64,
) -> bool {
    &&& stored.jpeg == thumbnail.jpeg
    &&& stored.width == thumbnail.width
    &&& stored.height == thumbnail.height
    &&& stored.taken_at_ms == taken_at_ms
    &&& stored.etag@ == etag_text(sequence as nat, thumbnail.jpeg@.len())
}

/// `after` is `before` with the picture of one session replaced.
pub open spec fn stores(
    before: Thumbnails,
    session: Seq<char>,
    thumbnail: Thumbnail,
    taken_at_ms: u64,
    after: Thumbnails,
) -> bool {
    &&& after.entries.dom().contains(session)
    &&& is_stored(*after.entries[session], thumbnail, before.next, taken_at_ms)
    &&& after.entries == before.entries.insert(session, after.entries[session])
    &&& after.next == next_number(before.next)
}

impl Default for ThumbnailStore {
    fn default() -> (r: Self)
        ensures
            r.wf(),
            r@ == (Thumbnails { entries: Map::empty(), next: 0 }),
    {
        ThumbnailStore { entries: SortedMap::new(), sequence: 0 }
    }
}

impl ThumbnailStore {
    pub closed spec fn wf(&self) -> bool {
        self.entries.wf()
    }

    pub fn put(&mut self, session: &str, thumbnail: Thumbnail, taken_at_ms: u64)
        requires
            old(self).wf(),
        ensures
            final(self).wf(),
            stores(old(self)@, session@, thumbnail, taken_at_ms, final(self)@),
    {
        let sequence = self.sequence;
        self.sequence = sequence.wrapping_add(1);
        let etag = etag_for(sequence, thumbnail.jpeg.len() as u64);
        let stored = Arc::new(
            StoredThumbnail {
                jpeg: thumbnail.jpeg,
                etag,
                taken_at_ms,
                width: thumbnail.width,
                height: thumbnail.height,
            },
        );
        self.entries.insert(session.to_owned(), stored);
    }

    pub fn get(&self, session: &str) -> (r: Option<Arc<StoredThumbnail>>)
        requires
            self.wf(),
        ensures
            r == (if self@.entries.dom().contains(session@) {
                Some(self@.entries[session@])
            } else {
                None
            }),
    {
        match self.entries.get(&session.to_owned()) {
            Some(stored) => Some(stored.clone()),
            None => None,
        }
    }

    pub fn remove(&mut self, session: &str)
        requires
            old(self).wf(),
        ensures
            final(self).wf(),
            final(self)@.entries == old(self)@.entries.remove(session@),
            final(self)@.next == old(self)@.next,
    {
        self.entries.remove(&session.to_owned());
        assert(self@.entries =~= old(self)@.entries.remove(session@));
    }
}

/// The picture that is retained for a snapshot after frames stop arriving: the
/// scaled image, never the frame.
#[derive(Debug, PartialEq, Eq)]
pub struct KeptPicture {
    pub key: SurfaceKey,
    pub image: RgbImage,
    /// The area of the frame that the image was made from, so that windows are
    /// still judged by their own size after they have been scaled.
    pub source_area: u64,
    pub kept_at_ms: u64,
}

pub open spec fn area(frame: Frame) -> nat {
    (frame.width as nat) * (frame.height as nat)
}

fn frame_area(frame: &Frame) -> (r: u64)
    ensures
        r == area(*frame),
{
    let width = frame.width as u64;
    let height = frame.height as u64;
    assert(width * height <= 0xffff_ffff * 0xffff_ffff) by (nonlinear_arith)
        requires
            width <= 0xffff_ffff,
            height <= 0xffff_ffff,
    ;
    width * height
}

/// How long ago `then` was; nothing where it lies ahead.
pub open spec fn age(now_ms: u64, then_ms: u64) -> nat {
    if now_ms >= then_ms {
        (now_ms - then_ms) as nat
    } else {
        0
    }
}

/// Whether a frame of that area takes the place of what is kept.
pub open spec fn takes_over(kept: Option<KeptPicture>, area: nat, now_ms: u64) -> bool {
    match kept {
        None => true,
        Some(kept) => {
            ||| age(now_ms, kept.kept_at_ms) >= KEEP_STALE
            ||| age(now_ms, kept.kept_at_ms) >= KEEP_INTERVAL && area >= kept.source_area
        },
    }
}

/// Whether it is time for the next snapshot; the first one is due at once.
pub open spec fn is_due(last_snapshot: Option<u64>, now_ms: u64) -> bool {
    match last_snapshot {
        None => true,
        Some(last) => age(now_ms, last) >= SNAPSHOT_INTERVAL,
    }
}

/// Whether the last snapshot is so young that a detach takes none.
pub open spec fn is_fresh(last_snapshot: Option<u64>, now_ms: u64) -> bool {
    last_snapshot matches Some(last) && age(now_ms, last) < DETACH_SNAPSHOT_FLOOR
}

/// The session, the picture that is kept and the time of the last snapshot.
#[verifier::ext_equal]
pub struct Capture {
    pub session: Seq<char>,
    pub kept: Option<KeptPicture>,
    pub last_snapshot: Option<u64>,
}

/// Whether and how a frame was retained: where it takes over and could be
/// scaled, its picture is the one that is kept now.
pub open spec fn retaining<D: FnOnce(&Frame, u32) -> Result<RgbImage, String>>(
    downscale: D,
    before: Option<KeptPicture>,
    key: SurfaceKey,
    frame: &Frame,
    now_ms: u64,
    retained: bool,
    after: Option<KeptPicture>,
) -> bool {
    if retained {
        &&& takes_over(before, area(*frame), now_ms)
        &&& after is Some
        &&& call_ensures(downscale, (frame, THUMBNAIL_MAX_WIDTH), Ok(after->0.image))
        &&& after->0.key == key
        &&& after->0.source_area == area(*frame)
        &&& after->0.kept_at_ms == now_ms
    } else {
        &&& after == before
        &&& takes_over(before, area(*frame), now_ms) ==> exists|reason: String| #[trigger]
            call_ensures(downscale, (frame, THUMBNAIL_MAX_WIDTH), Err(reason))
    }
}

/// What comes of a picture that was encoded, or could not be.
pub open spec fn snapshot_put(
    before: Capture,
    store: Thumbnails,
    outcome: Result<Thumbnail, String>,
    now_ms: u64,
    taken_at_ms: u64,
    taken: bool,
    after: Capture,
    store_after: Thumbnails,
) -> bool {
    &&& taken == outcome is Ok
    &&& after.session == before.session
    &&& after.kept == before.kept
    &&& match outcome {
        Ok(thumbnail) => {
            &&& after.last_snapshot == Some(now_ms)
            &&& stores(store, before.session, thumbnail, taken_at_ms, store_after)
        },
        Err(_) => after.last_snapshot == before.last_snapshot && store_after == store,
    }
}

/// The picture for a snapshot: the one that is kept where it was just made from
/// this frame or shows a larger window, and otherwise the frame itself.
pub open spec fn encoding<
    E: FnOnce(&RgbImage) -> Result<Thumbnail, String>,
    T: FnOnce(&Frame) -> Result<Thumbnail, String>,
>(
    encode: E,
    encode_frame: T,
    kept: Option<KeptPicture>,
    retained: bool,
    frame: &Frame,
    outcome: Result<Thumbnail, String>,
) -> bool {
    if kept is Some && (retained || kept->0.source_area > area(*frame)) {
        call_ensures(encode, (&kept->0.image,), outcome)
    } else {
        call_ensures(encode_frame, (frame,), outcome)
    }
}

/// A snapshot was due and was taken from the right picture.
pub open spec fn snapshot_tried<
    E: FnOnce(&RgbImage) -> Result<Thumbnail, String>,
    T: FnOnce(&Frame) -> Result<Thumbnail, String>,
>(
    encode: E,
    encode_frame: T,
    middle: Capture,
    store: Thumbnails,
    retained: bool,
    frame: &Frame,
    now_ms: u64,
    taken_at_ms: u64,
    taken: bool,
    after: Capture,
    store_after: Thumbnails,
) -> bool {
    exists|outcome: Result<Thumbnail, String>|
        {
            &&& #[trigger] encoding(encode, encode_frame, middle.kept, retained, frame, outcome)
            &&& snapshot_put(
                middle,
                store,
                outcome,
                now_ms,
                taken_at_ms,
                taken,
                after,
                store_after,
            )
        }
}

/// What a frame does to the capture and the store.
pub open spec fn observing<
    D: FnOnce(&Frame, u32) -> Result<RgbImage, String>,
    E: FnOnce(&RgbImage) -> Result<Thumbnail, String>,
    T: FnOnce(&Frame) -> Result<Thumbnail, String>,
>(
    downscale: D,
    encode: E,
    encode_frame: T,
    before: Capture,
    store: Thumbnails,
    key: SurfaceKey,
    frame: &Frame,
    now_ms: u64,
    taken_at_ms: u64,
    retained: bool,
    taken: bool,
    after: Capture,
    store_after: Thumbnails,
) -> bool {
    let middle = Capture { kept: after.kept, ..before };
    &&& retaining(downscale, before.kept, key, frame, now_ms, retained, after.kept)
    &&& if is_due(before.last_snapshot, now_ms) {
        snapshot_tried(
            encode,
            encode_frame,
            middle,
            store,
            retained,
            frame,
            now_ms,
            taken_at_ms,
            taken,
            after,
            store_after,
        )
    } else {
        !taken && after == middle && store_after == store
    }
}

/// The same, whether or not the frame was retained; one without area is ignored.
pub open spec fn observed<
    D: FnOnce(&Frame, u32) -> Result<RgbImage, String>,
    E: FnOnce(&RgbImage) -> Result<Thumbnail, String>,
    T: FnOnce(&Frame) -> Result<Thumbnail, String>,
>(
    downscale: D,
    encode: E,
    encode_frame: T,
    before: Capture,
    store: Thumbnails,
    key: SurfaceKey,
    frame: &Frame,
    now_ms: u64,
    taken_at_ms: u64,
    taken: bool,
    after: Capture,
    store_after: Thumbnails,
) -> bool {
    if area(*frame) == 0 {
        !taken && after == before && store_after == store
    } else {
        exists|retained: bool| #[trigger]
            observing(
                downscale,
                encode,
                encode_frame,
                before,
                store,
                key,
                frame,
                now_ms,
                taken_at_ms,
                retained,
                taken,
                after,
                store_after,
            )
    }
}

/// What a snapshot on a detach does.
pub open spec fn kept_snapshot<E: FnOnce(&RgbImage) -> Result<Thumbnail, String>>(
    encode: E,
    before: Capture,
    store: Thumbnails,
    now_ms: u64,
    taken_at_ms: u64,
    taken: bool,
    after: Capture,
    store_after: Thumbnails,
) -> bool {
    if is_fresh(before.last_snapshot, now_ms) || before.kept is None {
        !taken && after == before && store_after == store
    } else {
        exists|outcome: Result<Thumbnail, String>|
            {
                &&& #[trigger] call_ensures(encode, (&before.kept->0.image,), outcome)
                &&& snapshot_put(
                    before,
                    store,
                    outcome,
                    now_ms,
                    taken_at_ms,
                    taken,
                    after,
                    store_after,
                )
            }
    }
}

/// The capture once a surface is gone.
pub open spec fn without_surface(capture: Capture, key: SurfaceKey) -> Capture {
    if capture.kept is Some && capture.kept->0.key == key {
        Capture { kept: None, ..capture }
    } else {
        capture
    }
}

/// The capture once a client is gone.
pub open spec fn without_client(capture: Capture, client_id: u64) -> Capture {
    if capture.kept is Some && capture.kept->0.key.client_id == client_id {
        Capture { kept: None, ..capture }
    } else {
        capture
    }
}

/// Decides when the picture of one session is refreshed. It keeps at most one
/// scaled picture, of the largest window that is still painting.
pub struct ThumbnailCapture {
    session: String,
    kept: Option<KeptPicture>,
    last_snapshot: Option<u64>,
}

impl View for ThumbnailCapture {
    type V = Capture;

    closed spec fn view(&self) -> Capture {
        Capture { session: self.session@, kept: self.kept, last_snapshot: self.last_snapshot }
    }
}

fn age_ms(now_ms: u64, then_ms: u64) -> (r: u64)
    ensures
        r == age(now_ms, then_ms),
{
    if now_ms >= then_ms {
        now_ms - then_ms
    } else {
        0
    }
}

impl ThumbnailCapture {
    pub fn new(session: String) -> (r: Self)
        ensures
            r@ == (Capture { session: session@, kept: None, last_snapshot: None }),
    {
        ThumbnailCapture { session, kept: None, last_snapshot: None }
    }

    /// Records a frame. Says whether a snapshot was taken.
    pub fn observe<
        D: FnOnce(&Frame, u32) -> Result<RgbImage, String>,
        E: FnOnce(&RgbImage) -> Result<Thumbnail, String>,
        T: FnOnce(&Frame) -> Result<Thumbnail, String>,
    >(
        &mut self,
        store: &mut ThumbnailStore,
        key: SurfaceKey,
        frame: &Frame,
        now_ms: u64,
        taken_at_ms: u64,
        downscale: D,
        encode: E,
        encode_frame: T,
    ) -> (r: bool)
        requires
            old(store).wf(),
            call_requires(downscale, (frame, THUMBNAIL_MAX_WIDTH)),
            forall|image: &RgbImage| call_requires(encode, (image,)),
            call_requires(encode_frame, (frame,)),
        ensures
            final(store).wf(),
            observed(
                downscale,
                encode,
                encode_frame,
                old(self)@,
                old(store)@,
                key,
                frame,
                now_ms,
                taken_at_ms,
                r,
                final(self)@,
                final(store)@,
            ),
    {
        let ghost before = self@;
        let ghost stored = store@;
        let area = frame_area(frame);
        if area == 0 {
            return false;
        }
        let retained = self.retain(key, frame, now_ms, downscale);
        let ghost middle = self@;
        if !self.snapshot_due(now_ms) {
            assert(observing(
                downscale,
                encode,
                encode_frame,
                before,
                stored,
                key,
                frame,
                now_ms,
                taken_at_ms,
                retained,
                false,
                self@,
                store@,
            ));
            return false;
        }
        let outcome = match &self.kept {
            Some(kept) => if retained || kept.source_area > area {
                encode(&kept.image)
            } else {
                encode_frame(frame)
            },
            None => encode_frame(frame),
        };
        assert(encoding(encode, encode_frame, middle.kept, retained, frame, outcome));
        let taken = self.put_snapshot(store, outcome, now_ms, taken_at_ms);
        assert(snapshot_tried(
            encode,
            encode_frame,
            middle,
            stored,
            retained,
            frame,
            now_ms,
            taken_at_ms,
            taken,
            self@,
            store@,
        ));
        assert(middle =~= Capture { kept: self@.kept, ..before });
        assert(observing(
            downscale,
            encode,
            encode_frame,
            before,
            stored,
            key,
            frame,
            now_ms,
            taken_at_ms,
            retained,
            taken,
            self@,
            store@,
        ));
        taken
    }

    /// Takes a snapshot of the retained picture outside the schedule, because the
    /// last client just went. Does nothing where nothing is retained or the last
    /// snapshot is too young. Says whether a snapshot was taken.
    pub fn snapshot_kept<E: FnOnce(&RgbImage) -> Result<Thumbnail, String>>(
        &mut self,
        store: &mut ThumbnailStore,
        now_ms: u64,
        taken_at_ms: u64,
        encode: E,
    ) -> (r: bool)
        requires
            old(store).wf(),
            forall|image: &RgbImage| call_requires(encode, (image,)),
        ensures
            final(store).wf(),
            kept_snapshot(
                encode,
                old(self)@,
                old(store)@,
                now_ms,
                taken_at_ms,
                r,
                final(self)@,
                final(store)@,
            ),
    {
        if let Some(last) = self.last_snapshot {
            if age_ms(now_ms, last) < DETACH_SNAPSHOT_FLOOR {
                return false;
            }
        }
        let outcome = match &self.kept {
            None => {
                return false;
            },
            Some(kept) => encode(&kept.image),
        };
        self.put_snapshot(store, outcome, now_ms, taken_at_ms)
    }

    /// Drops the retained picture if it shows that surface.
    pub fn forget_surface(&mut self, key: SurfaceKey)
        ensures
            final(self)@ == without_surface(old(self)@, key),
    {
        let drop = match &self.kept {
            Some(kept) => kept.key == key,
            None => false,
        };
        if drop {
            self.kept = None;
        }
    }

    /// Drops the retained picture if its window belonged to that client.
    pub fn forget_client(&mut self, client_id: u64)
        ensures
            final(self)@ == without_client(old(self)@, client_id),
    {
        let drop = match &self.kept {
            Some(kept) => kept.key.client_id == client_id,
            None => false,
        };
        if drop {
            self.kept = None;
        }
    }

    /// The picture that is retained.
    pub fn kept(&self) -> (r: Option<&KeptPicture>)
        ensures
            match r {
                Some(kept) => self@.kept == Some(*kept),
                None => self@.kept is None,
            },
    {
        match &self.kept {
            Some(kept) => Some(kept),
            None => None,
        }
    }

    /// The bytes of picture that are retained.
    pub fn retained_bytes(&self) -> (r: usize)
        ensures
            r == (match self@.kept {
                Some(kept) => kept.image.pixels@.len(),
                None => 0,
            }),
    {
        match &self.kept {
            Some(kept) => kept.image.pixels.len(),
            None => 0,
        }
    }

    /// Puts a picture of the frame in the retained place where it takes over.
    /// Says whether it did.
    fn retain<D: FnOnce(&Frame, u32) -> Result<RgbImage, String>>(
        &mut self,
        key: SurfaceKey,
        frame: &Frame,
        now_ms: u64,
        downscale: D,
    ) -> (r: bool)
        requires
            call_requires(downscale, (frame, THUMBNAIL_MAX_WIDTH)),
        ensures
            retaining(downscale, old(self)@.kept, key, frame, now_ms, r, final(self)@.kept),
            final(self)@ == (Capture { kept: final(self)@.kept, ..old(self)@ }),
    {
        let area = frame_area(frame);
        let replace = match &self.kept {
            None => true,
            Some(kept) => {
                let age = age_ms(now_ms, kept.kept_at_ms);
                age >= KEEP_STALE || (age >= KEEP_INTERVAL && area >= kept.source_area)
            },
        };
        if !replace {
            return false;
        }
        match downscale(frame, THUMBNAIL_MAX_WIDTH) {
            Ok(image) => {
                self.kept = Some(KeptPicture { key, image, source_area: area, kept_at_ms: now_ms });
                true
            },
            Err(_) => false,
        }
    }

    fn snapshot_due(&self, now_ms: u64) -> (r: bool)
        ensures
            r == is_due(self@.last_snapshot, now_ms),
    {
        match self.last_snapshot {
            None => true,
            Some(last) => age_ms(now_ms, last) >= SNAPSHOT_INTERVAL,
        }
    }

    /// Stores a picture and notes the time. One that could not be encoded is no
    /// snapshot.
    fn put_snapshot(
        &mut self,
        store: &mut ThumbnailStore,
        outcome: Result<Thumbnail, String>,
        now_ms: u64,
        taken_at_ms: u64,
    ) -> (r: bool)
        requires
            old(store).wf(),
        ensures
            final(store).wf(),
            snapshot_put(
                old(self)@,
                old(store)@,
                outcome,
                now_ms,
                taken_at_ms,
                r,
                final(self)@,
                final(store)@,
            ),
    {
        match outcome {
            Ok(thumbnail) => {
                store.put(self.session.as_str(), thumbnail, taken_at_ms);
                self.last_snapshot = Some(now_ms);
                true
            },
            Err(_) => false,
        }
    }
}

/// Snapshots keep their distance: on frames the whole interval, on a detach the
/// shorter floor.
pub proof fn law_snapshots_keep_their_distance<
    D: FnOnce(&Frame, u32) -> Result<RgbImage, String>,
    E: FnOnce(&RgbImage) -> Result<Thumbnail, String>,
    T: FnOnce(&Frame) -> Result<Thumbnail, String>,
>(
    downscale: D,
    encode: E,
    encode_frame: T,
    before: Capture,
    store: Thumbnails,
    key: SurfaceKey,
    frame: &Frame,
    now_ms: u64,
    taken_at_ms: u64,
    taken: bool,
    after: Capture,
    store_after: Thumbnails,
)
    requires
        before.last_snapshot is Some,
    ensures
        observed(
            downscale,
            encode,
            encode_frame,
            before,
            store,
            key,
            frame,
            now_ms,
            taken_at_ms,
            taken,
            after,
            store_after,
        ) && age(now_ms, before.last_snapshot->0) < SNAPSHOT_INTERVAL ==> !taken && store_after
            == store,
        kept_snapshot(
            encode,
            before,
            store,
            now_ms,
            taken_at_ms,
            taken,
            after,
            store_after,
        ) && age(now_ms, before.last_snapshot->0) < DETACH_SNAPSHOT_FLOOR ==> !taken
            && store_after == store,
{
}

/// A smaller window never displaces a larger one that painted within the last
/// two seconds, and no frame displaces one that is younger than a second.
pub proof fn law_larger_window_stays<
    D: FnOnce(&Frame, u32) -> Result<RgbImage, String>,
    E: FnOnce(&RgbImage) -> Result<Thumbnail, String>,
    T: FnOnce(&Frame) -> Result<Thumbnail, String>,
>(
    downscale: D,
    encode: E,
    encode_frame: T,
    before: Capture,
    store: Thumbnails,
    key: SurfaceKey,
    frame: &Frame,
    now_ms: u64,
    taken_at_ms: u64,
    taken: bool,
    after: Capture,
    store_after: Thumbnails,
)
    requires
        before.kept is Some,
        observed(
            downscale,
            encode,
            encode_frame,
            before,
            store,
            key,
            frame,
            now_ms,
            taken_at_ms,
            taken,
            after,
            store_after,
        ),
        ({
            let kept = before.kept->0;
            ||| age(now_ms, kept.kept_at_ms) < KEEP_STALE && area(*frame) < kept.source_area
            ||| age(now_ms, kept.kept_at_ms) < KEEP_INTERVAL
        }),
    ensures
        after.kept == before.kept,
{
}

/// The picture of a window that is gone is not brought back by a detach.
pub proof fn law_gone_window_stays_gone<E: FnOnce(&RgbImage) -> Result<Thumbnail, String>>(
    encode: E,
    before: Capture,
    key: SurfaceKey,
    store: Thumbnails,
    now_ms: u64,
    taken_at_ms: u64,
    taken: bool,
    after: Capture,
    store_after: Thumbnails,
)
    requires
        before.kept is Some,
        before.kept->0.key == key,
        kept_snapshot(
            encode,
            without_surface(before, key),
            store,
            now_ms,
            taken_at_ms,
            taken,
            after,
            store_after,
        ),
    ensures
        !taken,
        store_after == store,
{
}


/// A validator is quoted as HTTP has it: a quote at both ends and none between them.
pub proof fn law_etag_is_quoted(sequence: nat, len: nat)
    ensures
        etag_text(sequence, len).len() > 2,
        etag_text(sequence, len)[0] == '"',
        etag_text(sequence, len).last() == '"',
        forall|i: int|
            0 < i < etag_text(sequence, len).len() - 1 ==> #[trigger] etag_text(sequence, len)[i]
                != '"',
{
    let a = crate::text::hexadecimal(sequence);
    let b = crate::text::hexadecimal(len);
    let text = etag_text(sequence, len);
    crate::text::lemma_hexadecimal_digits(sequence);
    crate::text::lemma_hexadecimal_digits(len);
    assert forall|i: int| 0 < i < text.len() - 1 implies #[trigger] text[i] != '"' by {
        if i <= a.len() {
            assert(text[i] == a[i - 1]);
        } else if i > a.len() + 1 {
            assert(text[i] == b[i - a.len() - 2]);
        }
    }
}

/// A picture that was stored is found as it is: its bytes, its width and its height,
/// and when it was taken. The pictures of other sessions stay, and the next picture
/// gets another number.
pub proof fn law_stored_picture_is_found_as_it_is(
    before: Thumbnails,
    session: Seq<char>,
    thumbnail: Thumbnail,
    taken_at_ms: u64,
    after: Thumbnails,
    other: Seq<char>,
)
    requires
        stores(before, session, thumbnail, taken_at_ms, after),
    ensures
        after.entries.dom().contains(session),
        after.entries[session].jpeg@ == thumbnail.jpeg@,
        after.entries[session].width == thumbnail.width,
        after.entries[session].height == thumbnail.height,
        after.entries[session].taken_at_ms == taken_at_ms,
        other != session ==> after.entries.dom().contains(other)
            == before.entries.dom().contains(other),
        other != session && before.entries.dom().contains(other) ==> after.entries[other]
            == before.entries[other],
        after.next != before.next,
        before.next < u64::MAX ==> after.next == before.next + 1,
{
}

/// A new picture of a session has another validator than the one before it.
pub proof fn law_new_picture_has_a_new_validator(
    first: Thumbnails,
    session: Seq<char>,
    thumbnail: Thumbnail,
    taken_at_ms: u64,
    second: Thumbnails,
    later: Thumbnail,
    later_ms: u64,
    third: Thumbnails,
)
    requires
        stores(first, session, thumbnail, taken_at_ms, second),
        stores(second, session, later, later_ms, third),
    ensures
        second.entries[session].etag@ != third.entries[session].etag@,
        third.entries[session].jpeg@ == later.jpeg@,
{
    law_etags_differ(
        first.next as nat,
        thumbnail.jpeg@.len(),
        second.next as nat,
        later.jpeg@.len(),
    );
}

/// A frame that takes over is kept with its window, its own area and the time that
/// it came, scaled to 320 pixels. Where nothing is kept any frame takes over, as it
/// does after two seconds; after one second a frame does that is not smaller.
pub proof fn law_frame_is_kept_with_its_window<
    D: FnOnce(&Frame, u32) -> Result<RgbImage, String>,
    E: FnOnce(&RgbImage) -> Result<Thumbnail, String>,
    T: FnOnce(&Frame) -> Result<Thumbnail, String>,
>(
    downscale: D,
    encode: E,
    encode_frame: T,
    before: Capture,
    store: Thumbnails,
    key: SurfaceKey,
    frame: &Frame,
    now_ms: u64,
    taken_at_ms: u64,
    taken: bool,
    after: Capture,
    store_after: Thumbnails,
)
    requires
        forall|reason: String| !#[trigger] call_ensures(
            downscale,
            (frame, 320u32),
            Err::<RgbImage, String>(reason),
        ),
        frame.width > 0,
        frame.height > 0,
        ({
            ||| before.kept is None
            ||| now_ms >= before.kept->0.kept_at_ms + 2_000
            ||| now_ms >= before.kept->0.kept_at_ms + 1_000 && frame.width * frame.height
                >= before.kept->0.source_area
        }),
        observed(
            downscale,
            encode,
            encode_frame,
            before,
            store,
            key,
            frame,
            now_ms,
            taken_at_ms,
            taken,
            after,
            store_after,
        ),
    ensures
        after.kept is Some,
        after.kept->0.key == key,
        after.kept->0.source_area == frame.width * frame.height,
        after.kept->0.kept_at_ms == now_ms,
        call_ensures(downscale, (frame, 320u32), Ok::<RgbImage, String>(after.kept->0.image)),
        after.session == before.session,
{
    assert(frame.width * frame.height > 0) by (nonlinear_arith)
        requires
            frame.width > 0,
            frame.height > 0,
    ;
    let retained = choose|retained: bool| #[trigger]
        observing(
            downscale,
            encode,
            encode_frame,
            before,
            store,
            key,
            frame,
            now_ms,
            taken_at_ms,
            retained,
            taken,
            after,
            store_after,
        );
    assert(takes_over(before.kept, area(*frame), now_ms));
}

/// Where pictures can be encoded, a snapshot is taken of the first frame and of the
/// first one ten seconds after the last snapshot. It goes to the session's own
/// place with the time that it was taken at.
pub proof fn law_snapshot_is_taken_when_due<
    D: FnOnce(&Frame, u32) -> Result<RgbImage, String>,
    E: FnOnce(&RgbImage) -> Result<Thumbnail, String>,
    T: FnOnce(&Frame) -> Result<Thumbnail, String>,
>(
    downscale: D,
    encode: E,
    encode_frame: T,
    before: Capture,
    store: Thumbnails,
    key: SurfaceKey,
    frame: &Frame,
    now_ms: u64,
    taken_at_ms: u64,
    taken: bool,
    after: Capture,
    store_after: Thumbnails,
)
    requires
        forall|image: &RgbImage, reason: String| !#[trigger] call_ensures(
            encode,
            (image,),
            Err::<Thumbnail, String>(reason),
        ),
        forall|reason: String| !#[trigger] call_ensures(
            encode_frame,
            (frame,),
            Err::<Thumbnail, String>(reason),
        ),
        frame.width > 0,
        frame.height > 0,
        before.last_snapshot is Some ==> now_ms >= before.last_snapshot->0 + 10_000,
        observed(
            downscale,
            encode,
            encode_frame,
            before,
            store,
            key,
            frame,
            now_ms,
            taken_at_ms,
            taken,
            after,
            store_after,
        ),
    ensures
        taken,
        after.last_snapshot == Some(now_ms),
        store_after.entries.dom().contains(before.session),
        store_after.entries[before.session].taken_at_ms == taken_at_ms,
        shows_a_picture(encode, encode_frame, after.kept, frame, *store_after.entries[before.session]),
{
    assert(frame.width * frame.height > 0) by (nonlinear_arith)
        requires
            frame.width > 0,
            frame.height > 0,
    ;
    let retained = choose|retained: bool| #[trigger]
        observing(
            downscale,
            encode,
            encode_frame,
            before,
            store,
            key,
            frame,
            now_ms,
            taken_at_ms,
            retained,
            taken,
            after,
            store_after,
        );
    let middle = Capture { kept: after.kept, ..before };
    let outcome = choose|outcome: Result<Thumbnail, String>|
        {
            &&& #[trigger] encoding(encode, encode_frame, middle.kept, retained, frame, outcome)
            &&& snapshot_put(
                middle,
                store,
                outcome,
                now_ms,
                taken_at_ms,
                taken,
                after,
                store_after,
            )
        };
    if outcome is Err {
        let reason = outcome->Err_0;
        assert(outcome == Err::<Thumbnail, String>(reason));
    }
    let thumbnail = outcome->Ok_0;
    assert(outcome == Ok::<Thumbnail, String>(thumbnail));
    assert(is_shown(*store_after.entries[before.session], thumbnail));
}

/// A stored picture has the bytes and the size of that one.
pub open spec fn is_shown(stored: StoredThumbnail, thumbnail: Thumbnail) -> bool {
    &&& stored.jpeg@ == thumbnail.jpeg@
    &&& stored.width == thumbnail.width
    &&& stored.height == thumbnail.height
}

/// A stored picture shows the frame, or what is kept; the frame only where no
/// larger window is kept.
pub open spec fn shows_a_picture<
    E: FnOnce(&RgbImage) -> Result<Thumbnail, String>,
    T: FnOnce(&Frame) -> Result<Thumbnail, String>,
>(
    encode: E,
    encode_frame: T,
    kept: Option<KeptPicture>,
    frame: &Frame,
    stored: StoredThumbnail,
) -> bool {
    exists|thumbnail: Thumbnail|
        {
            &&& #[trigger] is_shown(stored, thumbnail)
            &&& if kept is Some && kept->0.source_area > frame.width * frame.height {
                call_ensures(encode, (&kept->0.image,), Ok::<Thumbnail, String>(thumbnail))
            } else {
                ||| call_ensures(encode_frame, (frame,), Ok::<Thumbnail, String>(thumbnail))
                ||| kept is Some && call_ensures(
                    encode,
                    (&kept->0.image,),
                    Ok::<Thumbnail, String>(thumbnail),
                )
            }
        }
}

/// When the last client goes, the picture that is kept is stored, unless a snapshot
/// was taken within the last second. It stays kept.
pub proof fn law_detach_stores_what_is_kept<E: FnOnce(&RgbImage) -> Result<Thumbnail, String>>(
    encode: E,
    before: Capture,
    store: Thumbnails,
    now_ms: u64,
    taken_at_ms: u64,
    taken: bool,
    after: Capture,
    store_after: Thumbnails,
)
    requires
        before.kept is Some,
        before.last_snapshot is Some ==> now_ms >= before.last_snapshot->0 + 1_000,
        forall|reason: String| !#[trigger] call_ensures(
            encode,
            (&before.kept->0.image,),
            Err::<Thumbnail, String>(reason),
        ),
        kept_snapshot(
            encode,
            before,
            store,
            now_ms,
            taken_at_ms,
            taken,
            after,
            store_after,
        ),
    ensures
        taken,
        after.last_snapshot == Some(now_ms),
        after.kept == before.kept,
        store_after.entries.dom().contains(before.session),
        store_after.entries[before.session].taken_at_ms == taken_at_ms,
        exists|thumbnail: Thumbnail| #[trigger]
            is_shown(*store_after.entries[before.session], thumbnail) && call_ensures(
                encode,
                (&before.kept->0.image,),
                Ok::<Thumbnail, String>(thumbnail),
            ),
{
    let outcome = choose|outcome: Result<Thumbnail, String>|
        {
            &&& #[trigger] call_ensures(encode, (&before.kept->0.image,), outcome)
            &&& snapshot_put(
                before,
                store,
                outcome,
                now_ms,
                taken_at_ms,
                taken,
                after,
                store_after,
            )
        };
    if outcome is Err {
        assert(outcome == Err::<Thumbnail, String>(outcome->Err_0));
    }
    let thumbnail = outcome->Ok_0;
    assert(outcome == Ok::<Thumbnail, String>(thumbnail));
    assert(is_shown(*store_after.entries[before.session], thumbnail));
}

/// A picture is dropped exactly where the surface that it shows is gone.
pub proof fn law_picture_goes_with_its_surface(capture: Capture, key: SurfaceKey)
    ensures
        capture.kept is Some && capture.kept->0.key == key ==> without_surface(
            capture,
            key,
        ).kept is None,
        capture.kept is Some && capture.kept->0.key != key ==> without_surface(capture, key)
            == capture,
        without_surface(capture, key).session == capture.session,
        without_surface(capture, key).last_snapshot == capture.last_snapshot,
{
}


/// A picture is dropped with the client that its window belonged to, and with no other.
pub proof fn law_picture_goes_with_its_client(capture: Capture, client_id: u64)
    ensures
        capture.kept is Some && capture.kept->0.key.client_id == client_id ==> without_client(
            capture,
            client_id,
        ).kept is None,
        capture.kept is Some && capture.kept->0.key.client_id != client_id ==> without_client(
            capture,
            client_id,
        ) == capture,
        without_client(capture, client_id).session == capture.session,
        without_client(capture, client_id).last_snapshot == capture.last_snapshot,
{
}

} // verus!
