//! The slot that a download holds while it makes progress. A reader that stalls
//! loses it, even when nobody asks for more of the body.

use vstd::prelude::*;

verus! {

/// A download that made no progress for so long is over, in milliseconds.
pub const BLOB_DOWNLOAD_IDLE_TIMEOUT: u64 = 10_000;

/// A download that took so long in all is over, in milliseconds.
pub const BLOB_DOWNLOAD_TOTAL_TIMEOUT: u64 = 60_000;

/// A download.
#[derive(Clone, Copy, Debug, PartialEq, Eq, Structural)]
pub struct DownloadLease {
    holds_slot: bool,
    last_progress_ms: u64,
    deadline_ms: u64,
    expired: bool,
    finished: bool,
}

/// The state of a download.
#[verifier::ext_equal]
pub struct Download {
    pub holds_slot: bool,
    pub last_progress_ms: u64,
    pub deadline_ms: u64,
    pub expired: bool,
    pub finished: bool,
}

/// How reading the next part went.
#[derive(Clone, Copy, Debug, PartialEq, Eq, Structural)]
pub enum ReadOutcome {
    Bytes(usize),
    Failed,
}

/// What follows from that.
#[derive(Clone, Copy, Debug, PartialEq, Eq, Structural)]
pub enum DownloadStep {
    /// Send what was read, and go on.
    Send,
    /// Everything was sent.
    Complete,
    /// Break off.
    Broken,
}

pub open spec fn later(ms: u64, by: u64) -> u64 {
    if ms + by > u64::MAX {
        u64::MAX
    } else {
        (ms + by) as u64
    }
}

/// The download once it is over: the slot is free again.
pub open spec fn ended(download: Download) -> Download {
    Download { holds_slot: false, finished: true, ..download }
}

/// Whether a download is over at that time.
pub open spec fn is_overdue(download: Download, now_ms: u64) -> bool {
    ||| now_ms >= download.deadline_ms
    ||| now_ms >= download.last_progress_ms && now_ms - download.last_progress_ms
        >= BLOB_DOWNLOAD_IDLE_TIMEOUT
}

/// The download after its timer went off.
pub open spec fn timed(download: Download, now_ms: u64) -> Download {
    if !download.finished && is_overdue(download, now_ms) {
        Download { expired: true, ..ended(download) }
    } else {
        download
    }
}

/// When to look at a download next; never again once it is over.
pub open spec fn next_look(download: Download) -> Option<u64> {
    let idle = later(download.last_progress_ms, BLOB_DOWNLOAD_IDLE_TIMEOUT);
    if download.finished {
        None
    } else if idle < download.deadline_ms {
        Some(idle)
    } else {
        Some(download.deadline_ms)
    }
}

/// A download that begins now.
pub open spec fn begun(now_ms: u64) -> Download {
    Download {
        holds_slot: true,
        last_progress_ms: now_ms,
        deadline_ms: later(now_ms, BLOB_DOWNLOAD_TOTAL_TIMEOUT),
        expired: false,
        finished: false,
    }
}

/// The step that follows a read, and the download then.
pub open spec fn has_read(
    download: Download,
    outcome: ReadOutcome,
    now_ms: u64,
    step: DownloadStep,
    after: Download,
) -> bool {
    match outcome {
        ReadOutcome::Failed => step == DownloadStep::Broken && after == ended(download),
        ReadOutcome::Bytes(n) => if n == 0 {
            step == DownloadStep::Complete && after == ended(download)
        } else {
            step == DownloadStep::Send && after == (Download {
                last_progress_ms: now_ms,
                ..download
            })
        },
    }
}

impl View for DownloadLease {
    type V = Download;

    closed spec fn view(&self) -> Download {
        Download {
            holds_slot: self.holds_slot,
            last_progress_ms: self.last_progress_ms,
            deadline_ms: self.deadline_ms,
            expired: self.expired,
            finished: self.finished,
        }
    }
}

impl DownloadLease {
    /// A download that begins now and holds a slot.
    pub fn new(now_ms: u64) -> (r: Self)
        ensures
            r@ == begun(now_ms),
    {
        DownloadLease {
            holds_slot: true,
            last_progress_ms: now_ms,
            deadline_ms: now_ms.saturating_add(BLOB_DOWNLOAD_TOTAL_TIMEOUT),
            expired: false,
            finished: false,
        }
    }

    /// It made progress.
    pub fn touch(&mut self, now_ms: u64)
        ensures
            final(self)@ == (Download { last_progress_ms: now_ms, ..old(self)@ }),
    {
        self.last_progress_ms = now_ms;
    }

    /// It is over, and the slot is free.
    pub fn finish(&mut self)
        ensures
            final(self)@ == ended(old(self)@),
    {
        self.finished = true;
        self.holds_slot = false;
    }

    pub fn holds_slot(&self) -> (r: bool)
        ensures
            r == self@.holds_slot,
    {
        self.holds_slot
    }

    /// Whether it was broken off for want of progress.
    pub fn is_expired(&self) -> (r: bool)
        ensures
            r == self@.expired,
    {
        self.expired
    }

    /// When to call `watch` next.
    pub fn next_wake(&self) -> (r: Option<u64>)
        ensures
            r == next_look(self@),
    {
        if self.finished {
            return None;
        }
        let idle: u64 = self.last_progress_ms.saturating_add(BLOB_DOWNLOAD_IDLE_TIMEOUT);
        if idle < self.deadline_ms {
            Some(idle)
        } else {
            Some(self.deadline_ms)
        }
    }

    /// Looks whether it is overdue. Says whether it is over.
    pub fn watch(&mut self, now_ms: u64) -> (r: bool)
        ensures
            final(self)@ == timed(old(self)@, now_ms),
            r == final(self)@.finished,
    {
        if !self.finished {
            let idle = now_ms >= self.last_progress_ms && now_ms - self.last_progress_ms
                >= BLOB_DOWNLOAD_IDLE_TIMEOUT;
            if now_ms >= self.deadline_ms || idle {
                self.expired = true;
                self.finish();
            }
        }
        self.finished
    }

    /// Takes how reading the next part went and says what follows.
    pub fn on_read(&mut self, outcome: ReadOutcome, now_ms: u64) -> (r: DownloadStep)
        ensures
            has_read(old(self)@, outcome, now_ms, r, final(self)@),
    {
        match outcome {
            ReadOutcome::Failed => {
                self.finish();
                DownloadStep::Broken
            },
            ReadOutcome::Bytes(n) => if n == 0 {
                self.finish();
                DownloadStep::Complete
            } else {
                self.touch(now_ms);
                DownloadStep::Send
            },
        }
    }
}

/// A reader that stalls loses its slot: at the time that was named for the next
/// look the download is over, unless it made progress in between.
pub proof fn law_stalled_reader_loses_its_slot(download: Download, now_ms: u64)
    requires
        !download.finished,
        next_look(download) is Some,
        now_ms >= next_look(download)->0,
        download.last_progress_ms + BLOB_DOWNLOAD_IDLE_TIMEOUT <= u64::MAX,
    ensures
        timed(download, now_ms).finished,
        timed(download, now_ms).expired,
        !timed(download, now_ms).holds_slot,
{
}

/// A download is not broken off before its time.
pub proof fn law_progress_keeps_the_slot(download: Download, now_ms: u64)
    requires
        !download.finished,
        now_ms < next_look(download)->0,
    ensures
        timed(download, now_ms) == download,
{
}


/// A download is over once it made no progress for ten seconds or its time is up,
/// and not before. It then holds no slot, and it stays over.
pub proof fn law_download_is_over_in_time(download: Download, now_ms: u64, later_ms: u64)
    ensures
        timed(download, now_ms).finished == (download.finished || now_ms >= download.deadline_ms
            || now_ms >= download.last_progress_ms + 10_000),
        !download.finished && timed(download, now_ms).finished ==> timed(download, now_ms).expired
            && !timed(download, now_ms).holds_slot,
        !timed(download, now_ms).finished ==> timed(download, now_ms).holds_slot
            == download.holds_slot && timed(download, now_ms).expired == download.expired,
        timed(download, now_ms).finished ==> timed(timed(download, now_ms), later_ms) == timed(
            download,
            now_ms,
        ),
        timed(download, now_ms).finished ==> next_look(timed(download, now_ms)) is None,
        timed(download, now_ms).last_progress_ms == download.last_progress_ms,
        timed(download, now_ms).deadline_ms == download.deadline_ms,
{
}

/// The slot of a download that is over is free, and what it had done stays.
pub proof fn law_ended_download_frees_its_slot(download: Download)
    ensures
        !ended(download).holds_slot,
        ended(download).finished,
        ended(download).expired == download.expired,
        next_look(ended(download)) is None,
{
}


/// A download has a minute in all from its beginning, and holds a slot meanwhile.
pub proof fn law_download_has_a_minute(now_ms: u64, later_ms: u64)
    requires
        now_ms + 60_000 <= u64::MAX,
    ensures
        begun(now_ms).holds_slot && !begun(now_ms).finished && !begun(now_ms).expired,
        begun(now_ms).deadline_ms == now_ms + 60_000,
        now_ms <= later_ms < now_ms + 10_000 ==> !timed(begun(now_ms), later_ms).finished,
        later_ms >= now_ms + 10_000 ==> timed(begun(now_ms), later_ms).finished,
{
}

/// What was read is sent, and is progress. The end of the file completes the download,
/// and a failure breaks it off; either frees the slot.
pub proof fn law_reading_goes_on_to_the_end(
    download: Download,
    outcome: ReadOutcome,
    now_ms: u64,
    step: DownloadStep,
    after: Download,
)
    requires
        has_read(download, outcome, now_ms, step, after),
    ensures
        step is Send <==> outcome is Bytes && outcome->Bytes_0 > 0,
        step is Complete <==> outcome == ReadOutcome::Bytes(0),
        step is Broken <==> outcome is Failed,
        step is Send ==> after.last_progress_ms == now_ms && after.holds_slot == download.holds_slot
            && after.finished == download.finished && after.deadline_ms == download.deadline_ms,
        !(step is Send) ==> after.finished && !after.holds_slot,
        after.expired == download.expired,
{
}

} // verus!
