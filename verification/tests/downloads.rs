use navetted::downloads::{
    DownloadLease, DownloadStep, ReadOutcome, BLOB_DOWNLOAD_IDLE_TIMEOUT,
    BLOB_DOWNLOAD_TOTAL_TIMEOUT,
};

#[test]
fn a_stalled_reader_loses_its_slot() {
    let mut lease = DownloadLease::new(1_000);
    assert!(lease.holds_slot());
    assert_eq!(lease.next_wake(), Some(1_000 + BLOB_DOWNLOAD_IDLE_TIMEOUT));
    assert!(!lease.watch(1_000 + BLOB_DOWNLOAD_IDLE_TIMEOUT - 1));
    assert!(lease.holds_slot());
    assert!(lease.watch(1_000 + BLOB_DOWNLOAD_IDLE_TIMEOUT));
    assert!(lease.is_expired());
    assert!(!lease.holds_slot());
    assert_eq!(lease.next_wake(), None);
}

#[test]
fn progress_keeps_the_slot_until_the_total_is_used_up() {
    let mut lease = DownloadLease::new(0);
    let mut now = 0;
    while now + 5_000 < BLOB_DOWNLOAD_TOTAL_TIMEOUT {
        now += 5_000;
        assert_eq!(lease.on_read(ReadOutcome::Bytes(10), now), DownloadStep::Send);
        assert!(!lease.watch(now));
    }
    assert_eq!(lease.next_wake(), Some(BLOB_DOWNLOAD_TOTAL_TIMEOUT));
    assert!(lease.watch(BLOB_DOWNLOAD_TOTAL_TIMEOUT));
    assert!(lease.is_expired());
}

#[test]
fn the_end_frees_the_slot() {
    let mut lease = DownloadLease::new(0);
    assert_eq!(lease.on_read(ReadOutcome::Bytes(0), 1), DownloadStep::Complete);
    assert!(!lease.holds_slot());
    assert!(!lease.is_expired());
    assert!(lease.watch(100_000), "it is over");
    assert!(!lease.is_expired(), "but not expired");

    let mut broken = DownloadLease::new(0);
    assert_eq!(broken.on_read(ReadOutcome::Failed, 1), DownloadStep::Broken);
    assert!(!broken.holds_slot());
}
