use std::sync::Arc;

use navetted::encode::SurfaceKey;
use navetted::frame::Frame;
use navetted::thumbnails::{
    etag_for, RgbImage, Thumbnail, ThumbnailCapture, ThumbnailStore, DETACH_SNAPSHOT_FLOOR,
    SNAPSHOT_INTERVAL,
};

const TAKEN_AT: u64 = 1_700_000_000_000;

fn thumbnail(len: usize) -> Thumbnail {
    Thumbnail { jpeg: vec![0xab; len], width: 320, height: 180 }
}

fn frame(width: u32, height: u32) -> Frame {
    Frame { width, height, pixels: vec![0x7f; width as usize * height as usize * 4] }
}

fn key(surface_id: u64) -> SurfaceKey {
    SurfaceKey { client_id: 1, surface_id }
}

fn downscale(frame: &Frame, max_width: u32) -> Result<RgbImage, String> {
    let (width, height) = if frame.width > max_width {
        (max_width, frame.height * max_width / frame.width)
    } else {
        (frame.width, frame.height)
    };
    Ok(RgbImage { width, height, pixels: vec![0; width as usize * height as usize * 3] })
}

fn encode(image: &RgbImage) -> Result<Thumbnail, String> {
    Ok(Thumbnail { jpeg: vec![1; 10], width: image.width, height: image.height })
}

fn encode_frame(frame: &Frame) -> Result<Thumbnail, String> {
    encode(&downscale(frame, 320)?)
}

fn observe(
    capture: &mut ThumbnailCapture,
    store: &mut ThumbnailStore,
    key: SurfaceKey,
    frame: &Frame,
    now_ms: u64,
) -> bool {
    capture.observe(store, key, frame, now_ms, TAKEN_AT, downscale, encode, encode_frame)
}

fn snapshot_kept(capture: &mut ThumbnailCapture, store: &mut ThumbnailStore, now_ms: u64) -> bool {
    capture.snapshot_kept(store, now_ms, TAKEN_AT, encode)
}

fn size(store: &ThumbnailStore) -> (u32, u32) {
    let stored = store.get("s1").unwrap();
    (stored.width, stored.height)
}

const START: u64 = 1_000_000;

#[test]
fn put_get_remove_round_trip() {
    let mut store = ThumbnailStore::default();
    assert!(store.get("work").is_none());

    store.put("work", thumbnail(16), TAKEN_AT);
    let stored = store.get("work").expect("stored after put");
    assert_eq!(stored.jpeg.len(), 16);
    assert_eq!((stored.width, stored.height), (320, 180));
    assert_eq!(stored.taken_at_ms, TAKEN_AT);
    assert!(stored.etag.starts_with('"') && stored.etag.ends_with('"'));
    assert!(store.get("other").is_none(), "keyed by session name");

    store.remove("work");
    assert!(store.get("work").is_none());
}

#[test]
fn a_second_put_replaces_the_thumbnail_and_changes_the_etag() {
    let mut store = ThumbnailStore::default();
    store.put("work", thumbnail(16), TAKEN_AT);
    let first = store.get("work").unwrap();

    store.put("work", thumbnail(24), TAKEN_AT);
    let second = store.get("work").unwrap();

    assert_eq!(second.jpeg.len(), 24);
    assert_ne!(first.etag, second.etag);
    assert_ne!(
        Arc::as_ptr(&first),
        Arc::as_ptr(&second),
        "a put replaces the entry rather than mutating it"
    );
}

#[test]
fn etags_are_unique_across_puts_even_with_identical_bodies() {
    assert_eq!(etag_for(0x1234, 0xff), "\"1234-ff\"");

    let mut store = ThumbnailStore::default();
    store.put("a", thumbnail(16), TAKEN_AT);
    store.put("b", thumbnail(16), TAKEN_AT);
    let first = store.get("a").unwrap().etag.clone();
    let second = store.get("b").unwrap().etag.clone();
    assert_ne!(first, second, "same body, same instant, still distinct tags");

    store.put("a", thumbnail(16), TAKEN_AT);
    assert_ne!(
        store.get("a").unwrap().etag,
        first,
        "a re-put of an identical body still changes the tag"
    );
}

#[test]
fn two_frames_half_a_second_apart_snapshot_once() {
    let mut store = ThumbnailStore::default();
    let mut capture = ThumbnailCapture::new("s1".into());

    assert!(
        observe(&mut capture, &mut store, key(1), &frame(64, 64), START),
        "the first frame snapshots immediately"
    );
    assert!(!observe(&mut capture, &mut store, key(1), &frame(64, 64), START + 500));

    assert!(store.get("s1").is_some());
}

#[test]
fn frames_spanning_the_interval_snapshot_twice() {
    let mut store = ThumbnailStore::default();
    let mut capture = ThumbnailCapture::new("s1".into());
    let f = frame(64, 64);

    assert!(observe(&mut capture, &mut store, key(1), &f, START));
    assert!(!observe(&mut capture, &mut store, key(1), &f, START + 5_000));
    assert!(!observe(&mut capture, &mut store, key(1), &f, START + SNAPSHOT_INTERVAL - 1));
    assert!(observe(&mut capture, &mut store, key(1), &f, START + SNAPSHOT_INTERVAL));
    assert!(!observe(&mut capture, &mut store, key(1), &f, START + SNAPSHOT_INTERVAL + 1_000));
}

#[test]
fn snapshot_kept_uses_the_retained_frame_and_is_a_no_op_without_one() {
    let mut store = ThumbnailStore::default();
    let mut capture = ThumbnailCapture::new("s1".into());

    assert!(!snapshot_kept(&mut capture, &mut store, START), "nothing retained yet");
    assert!(store.get("s1").is_none());

    observe(&mut capture, &mut store, key(1), &frame(128, 64), START);
    store.remove("s1");
    assert!(snapshot_kept(&mut capture, &mut store, START + 1_000));
    assert_eq!(size(&store), (128, 64));
}

#[test]
fn the_largest_toplevel_wins_when_two_keys_alternate() {
    let mut store = ThumbnailStore::default();
    let mut capture = ThumbnailCapture::new("s1".into());
    let big = frame(256, 128);
    let small = frame(64, 32);

    observe(&mut capture, &mut store, key(1), &big, START);
    for step in 1..=5 {
        observe(&mut capture, &mut store, key(2), &small, START + 300 * step);
    }
    store.remove("s1");
    assert!(snapshot_kept(&mut capture, &mut store, START + 2_000));
    assert_eq!(size(&store), (256, 128), "a smaller window must not displace a fresh larger one");

    observe(&mut capture, &mut store, key(2), &small, START + 3_000);
    store.remove("s1");
    assert!(snapshot_kept(&mut capture, &mut store, START + 3_000));
    assert_eq!(size(&store), (64, 32));

    observe(&mut capture, &mut store, key(1), &big, START + 4_000);
    store.remove("s1");
    assert!(snapshot_kept(&mut capture, &mut store, START + 4_000));
    assert_eq!(size(&store), (256, 128));
}

#[test]
fn a_periodic_snapshot_prefers_the_kept_larger_frame_over_a_small_incoming_one() {
    let mut store = ThumbnailStore::default();
    let mut capture = ThumbnailCapture::new("s1".into());

    observe(&mut capture, &mut store, key(1), &frame(256, 128), START);
    assert!(!observe(&mut capture, &mut store, key(1), &frame(256, 128), START + 9_500));
    assert!(observe(&mut capture, &mut store, key(2), &frame(64, 32), START + 10_000));
    assert_eq!(size(&store), (256, 128));
}

#[test]
fn retention_is_rate_limited_to_the_keep_interval() {
    let mut store = ThumbnailStore::default();
    let mut capture = ThumbnailCapture::new("s1".into());

    observe(&mut capture, &mut store, key(1), &frame(64, 64), START);
    observe(&mut capture, &mut store, key(1), &frame(64, 64), START + 500);
    assert_eq!(capture.kept().unwrap().kept_at_ms, START);

    observe(&mut capture, &mut store, key(1), &frame(64, 64), START + 1_000);
    assert_eq!(capture.kept().unwrap().kept_at_ms, START + 1_000);
}

#[test]
fn forgetting_a_surface_or_client_drops_the_kept_frame() {
    let mut store = ThumbnailStore::default();
    let mut capture = ThumbnailCapture::new("s1".into());

    observe(&mut capture, &mut store, key(1), &frame(64, 64), START);
    capture.forget_surface(key(2));
    assert!(capture.kept().is_some(), "another surface's destroy is ignored");
    capture.forget_surface(key(1));
    assert!(capture.kept().is_none());
    assert!(!snapshot_kept(&mut capture, &mut store, START));

    observe(&mut capture, &mut store, key(1), &frame(64, 64), START + 20_000);
    capture.forget_client(2);
    assert!(capture.kept().is_some());
    capture.forget_client(1);
    assert!(capture.kept().is_none());
}

#[test]
fn a_degenerate_frame_is_ignored() {
    let mut store = ThumbnailStore::default();
    let mut capture = ThumbnailCapture::new("s1".into());

    assert!(!observe(&mut capture, &mut store, key(1), &frame(0, 0), START));
    assert!(capture.kept().is_none());
    assert!(store.get("s1").is_none());
}

#[test]
fn the_retained_picture_is_bounded_by_the_thumbnail_size_not_the_frame() {
    let mut store = ThumbnailStore::default();
    let mut capture = ThumbnailCapture::new("s1".into());
    observe(&mut capture, &mut store, key(1), &frame(1920, 1080), START);

    let retained = capture.retained_bytes();
    assert!(retained > 0);
    assert!(
        retained <= 320 * 180 * 3,
        "retained {retained} bytes for a 1080p frame; the kept picture must be the \
         downscaled RGB image (<= 320x180x3), not the BGRA frame"
    );
}

#[test]
fn a_detach_snapshot_is_skipped_within_a_second_of_the_last_one() {
    let mut store = ThumbnailStore::default();
    let mut capture = ThumbnailCapture::new("s1".into());

    assert!(observe(&mut capture, &mut store, key(1), &frame(64, 64), START));
    store.remove("s1");
    assert!(
        !snapshot_kept(&mut capture, &mut store, START + 500),
        "half a second after a snapshot, a detach must not take another"
    );
    assert!(store.get("s1").is_none());
    assert!(snapshot_kept(&mut capture, &mut store, START + DETACH_SNAPSHOT_FLOOR));
    assert!(store.get("s1").is_some());
    store.remove("s1");
    assert!(
        !snapshot_kept(&mut capture, &mut store, START + DETACH_SNAPSHOT_FLOOR + 1),
        "the floor applies to a detach snapshot too, not only to periodic ones"
    );
}

#[test]
fn a_picture_that_cannot_be_encoded_is_no_snapshot() {
    let mut store = ThumbnailStore::default();
    let mut capture = ThumbnailCapture::new("s1".into());
    let f = frame(64, 64);

    assert!(!capture.observe(
        &mut store,
        key(1),
        &f,
        START,
        TAKEN_AT,
        downscale,
        |_| Err("no encoder".to_string()),
        encode_frame,
    ));
    assert!(store.get("s1").is_none());
    assert!(observe(&mut capture, &mut store, key(1), &f, START + 1), "still due");
}

#[test]
fn a_frame_that_cannot_be_scaled_is_encoded_directly() {
    let mut store = ThumbnailStore::default();
    let mut capture = ThumbnailCapture::new("s1".into());

    assert!(capture.observe(
        &mut store,
        key(1),
        &frame(64, 48),
        START,
        TAKEN_AT,
        |_, _| Err("no scaler".to_string()),
        encode,
        encode_frame,
    ));
    assert!(capture.kept().is_none());
    assert_eq!(size(&store), (64, 48));
}
