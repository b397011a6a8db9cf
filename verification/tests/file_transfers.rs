use std::cell::RefCell;
use std::collections::{BTreeMap, BTreeSet};

use navetted::file_transfers::{
    counts_as_transfer_dir, durable_usage, is_deliverable, Delivery, DirStep, DropEntry, DropFile,
    FileLimits, FilePreflight, FilePreflightResponse, FileTransferError, FileTransferState,
    FileTransferStatus, FileTransferStore, FileUpload, PreflightFacts, Usage,
    MAX_TERMINAL_TRANSFERS_PER_SESSION,
};

const MS: u128 = 1_000_000;

/// The store with the files it works on and the time.
struct Fixture {
    store: FileTransferStore,
    files: RefCell<BTreeMap<String, Vec<u8>>>,
    dirs: RefCell<BTreeSet<String>>,
    now_ns: u128,
    next_id: u8,
}

impl Fixture {
    fn with(max_file: u64, max_session: u64, objects: u64, expiry_ns: u128) -> Self {
        let limits = FileLimits {
            max_file_bytes: max_file,
            max_session_bytes: max_session,
            max_session_objects: objects,
            expiry_ns,
        };
        Fixture {
            store: FileTransferStore::with_limits("/drops".into(), limits),
            files: RefCell::new(BTreeMap::new()),
            dirs: RefCell::new(BTreeSet::new()),
            now_ns: 1_000 * MS,
            next_id: 0,
        }
    }

    fn new() -> Self {
        let mut fixture = Fixture::with(8, 12, 2, MS);
        fixture.activate();
        fixture
    }

    fn perform(&self, steps: Vec<DirStep>) {
        for step in steps {
            match step {
                DirStep::RemoveTree(path) => {
                    let prefix = format!("{path}/");
                    self.files.borrow_mut().retain(|file, _| !file.starts_with(&prefix));
                    self.dirs.borrow_mut().remove(&path);
                }
                DirStep::CreatePrivate(path) => {
                    self.dirs.borrow_mut().insert(path);
                }
            }
        }
    }

    fn activate(&mut self) {
        let steps = self.store.activate("work").unwrap();
        self.perform(steps);
    }

    fn deactivate(&mut self) {
        let steps = self.store.deactivate("work").unwrap();
        self.perform(steps);
    }

    fn usage(&self) -> Usage {
        let prefix = format!("{}/", self.store.drop_dir("work"));
        let mut dirs: BTreeMap<String, Vec<DropFile>> = BTreeMap::new();
        for (path, bytes) in self.files.borrow().iter() {
            if let Some(rest) = path.strip_prefix(&prefix) {
                let id = rest.split('/').next().unwrap().to_string();
                dirs.entry(id).or_default().push(DropFile {
                    name: Some("f".into()),
                    is_file: true,
                    blocks: (bytes.len() as u64 + 4095) / 4096 * 8,
                });
            }
        }
        let entries = dirs
            .into_iter()
            .map(|(name, files)| DropEntry { name: Some(name), is_dir: true, files })
            .collect();
        durable_usage(&entries)
    }

    fn facts(&mut self) -> PreflightFacts {
        self.next_id += 1;
        PreflightFacts {
            mime_ok: true,
            durable: Ok(self.usage()),
            now_ns: self.now_ns,
            id_bytes: [self.next_id; 16],
        }
    }

    fn preflight(&mut self, request: FilePreflight) -> Result<FilePreflightResponse, FileTransferError> {
        let facts = self.facts();
        let files = &self.files;
        self.store
            .preflight("work", request, facts, |path| {
                files.borrow_mut().remove(path);
                Ok(())
            })
            .map(|response| response.unwrap())
    }

    fn begin_upload(&mut self, id: &str) -> Result<FileUpload, FileTransferError> {
        let files = &self.files;
        let upload = self.store.begin_upload("work", id, self.now_ns, |path| {
            files.borrow_mut().remove(path);
            Ok(())
        })?;
        files.borrow_mut().insert(upload.path().clone(), Vec::new());
        Ok(upload)
    }

    fn write(&mut self, upload: &mut FileUpload, chunk: &[u8]) -> Result<(), FileTransferError> {
        let path = upload.path().clone();
        let files = &self.files;
        upload.write_chunk(&mut self.store, chunk, self.now_ns, |bytes| {
            files.borrow_mut().entry(path).or_default().extend_from_slice(bytes);
            Ok(())
        })
    }

    fn finish(&mut self, upload: FileUpload) -> Result<FileTransferStatus, FileTransferError> {
        upload.finish(&mut self.store, self.now_ns, || Ok(()))
    }

    fn status(&mut self, id: &str) -> Result<FileTransferStatus, FileTransferError> {
        let files = &self.files;
        self.store.status("work", id, self.now_ns, |path| {
            files.borrow_mut().remove(path);
            Ok(())
        })
    }

    fn cancel(&mut self, id: &str) -> Result<(), FileTransferError> {
        let files = &self.files;
        self.store.cancel("work", id, self.now_ns, |path| {
            files.borrow_mut().remove(path);
            Ok(())
        })
    }

    fn materialize(&mut self, id: &str) -> Result<FileTransferStatus, FileTransferError> {
        let files = &self.files;
        let deliver = |delivery: &Delivery| {
            let staged = format!("{}/{}.part", delivery.staging_dir, delivery.id);
            let mut files = files.borrow_mut();
            let bytes = files.remove(&staged).ok_or("nothing staged")?;
            files.insert(
                format!("{}/{}/{}", delivery.drop_dir, delivery.id, delivery.name),
                bytes,
            );
            Ok(())
        };
        self.store.materialize("work", id, self.now_ns, deliver, |path| {
            files.borrow_mut().remove(path);
            Ok(())
        })
    }

    fn queued(&mut self, name: &str, bytes: &[u8]) -> String {
        let preflight = self.preflight(request(name, bytes.len() as u64)).unwrap();
        let mut upload = self.begin_upload(&preflight.transfer_id).unwrap();
        self.write(&mut upload, bytes).unwrap();
        assert_eq!(self.finish(upload).unwrap().state, FileTransferState::Queued);
        preflight.transfer_id
    }
}

fn request(name: &str, size: u64) -> FilePreflight {
    FilePreflight { name: name.into(), mime: "application/pdf".into(), size }
}

#[test]
fn reserves_exact_preflight_bytes_and_materializes_only_under_daemon_paths() {
    let mut fixture = Fixture::new();
    let preflight = fixture.preflight(request("report.pdf", 4)).unwrap();
    assert!(preflight.upload_url.ends_with("/content"));
    let mut upload = fixture.begin_upload(&preflight.transfer_id).unwrap();
    fixture.write(&mut upload, b"data").unwrap();
    assert_eq!(fixture.finish(upload).unwrap().state, FileTransferState::Queued);
    let delivered = fixture.materialize(&preflight.transfer_id).unwrap();
    assert_eq!(delivered.state, FileTransferState::Delivered);
    let path = format!(
        "{}/{}/report.pdf",
        fixture.store.drop_dir("work"),
        preflight.transfer_id
    );
    assert_eq!(fixture.files.borrow()[&path], b"data");
}

#[test]
fn rejects_paths_size_mismatches_and_over_budget_reservations() {
    let mut fixture = Fixture::new();
    assert!(matches!(
        fixture.preflight(request("../escape", 1)),
        Err(FileTransferError::InvalidName)
    ));
    let first = fixture.preflight(request("one", 8)).unwrap();
    assert!(matches!(
        fixture.preflight(request("two", 5)),
        Err(FileTransferError::SessionBudgetExceeded)
    ));
    let mut upload = fixture.begin_upload(&first.transfer_id).unwrap();
    fixture.write(&mut upload, b"short").unwrap();
    assert!(matches!(fixture.finish(upload), Err(FileTransferError::SizeMismatch)));
    assert_eq!(
        fixture.status(&first.transfer_id).unwrap().state,
        FileTransferState::Failed
    );
}

#[test]
fn cancellation_and_expiry_release_a_reservation() {
    let mut fixture = Fixture::new();
    let first = fixture.preflight(request("one", 8)).unwrap();
    fixture.cancel(&first.transfer_id).unwrap();
    assert_eq!(
        fixture.status(&first.transfer_id).unwrap().state,
        FileTransferState::Cancelled
    );
    fixture.preflight(request("two", 8)).unwrap();
    fixture.now_ns += 2 * MS;
    let third = fixture.preflight(request("three", 8)).unwrap();
    assert!(fixture.status(&third.transfer_id).is_ok());
}

#[test]
fn terminal_transfer_metadata_is_bounded_per_session() {
    let mut fixture = Fixture::new();
    let mut ids = Vec::new();
    for number in 0..MAX_TERMINAL_TRANSFERS_PER_SESSION + 8 {
        let preflight = fixture.preflight(request(&format!("cancelled-{number}"), 1)).unwrap();
        fixture.cancel(&preflight.transfer_id).unwrap();
        fixture.now_ns += 1;
        ids.push(preflight.transfer_id);
    }
    let known = ids.iter().filter(|id| fixture.status(id).is_ok()).count();
    assert_eq!(known, MAX_TERMINAL_TRANSFERS_PER_SESSION);
}

#[test]
fn recovery_preserves_delivered_files_for_a_live_session() {
    let mut fixture = Fixture::new();
    let id = fixture.queued("report.pdf", b"data");
    fixture.materialize(&id).unwrap();
    let path = format!("{}/{id}/report.pdf", fixture.store.drop_dir("work"));
    let staged = format!("{}/crashed.part", fixture.store.staging_dir("work"));
    fixture.files.borrow_mut().insert(staged.clone(), b"partial".to_vec());

    let steps = fixture.store.recover("work").unwrap();
    fixture.perform(steps);
    assert_eq!(fixture.files.borrow()[&path], b"data");
    assert!(
        !fixture.files.borrow().contains_key(&staged),
        "recovery must not retain an unresumable partial upload"
    );
}

#[test]
fn prepared_activation_keeps_the_supervisor_initialized_drop_directory() {
    let mut fixture = Fixture::with(8, 12, 2, 60_000 * MS);
    let kept = format!("{}/guest-created", fixture.store.drop_dir("work"));
    fixture.files.borrow_mut().insert(kept.clone(), b"keep".to_vec());

    let steps = fixture.store.activate_prepared("work").unwrap();
    fixture.perform(steps);

    assert_eq!(fixture.files.borrow()[&kept], b"keep");
    assert!(fixture.preflight(request("report.pdf", 1)).is_ok());
}

#[test]
fn recovery_accounts_for_durable_deliveries_before_accepting_new_preflights() {
    let mut initial = Fixture::with(8, 64 * 1024, 1, 60_000 * MS);
    initial.activate();
    let id = initial.queued("first.pdf", b"x");
    initial.materialize(&id).unwrap();

    let mut recovered = Fixture::with(8, 64 * 1024, 1, 60_000 * MS);
    recovered.files = initial.files;
    let steps = recovered.store.recover("work").unwrap();
    recovered.perform(steps);
    assert!(matches!(
        recovered.preflight(request("second.pdf", 1)),
        Err(FileTransferError::SessionBudgetExceeded)
    ));
}

#[test]
fn old_session_lease_cannot_upload_query_or_deliver_after_name_reuse() {
    let mut fixture = Fixture::new();

    let uploading = fixture.preflight(request("uploading.pdf", 4)).unwrap();
    let mut upload = fixture.begin_upload(&uploading.transfer_id).unwrap();
    fixture.write(&mut upload, b"data").unwrap();

    fixture.deactivate();
    fixture.activate();
    assert!(matches!(fixture.finish(upload), Err(FileTransferError::SessionNotLive)));
    assert!(matches!(
        fixture.status(&uploading.transfer_id),
        Err(FileTransferError::NotFound)
    ));

    let queued = fixture.queued("queued.pdf", b"data");
    fixture.deactivate();
    fixture.activate();
    assert!(matches!(fixture.materialize(&queued), Err(FileTransferError::NotFound)));
    let prefix = format!("{}/{queued}/", fixture.store.drop_dir("work"));
    assert!(
        !fixture.files.borrow().keys().any(|path| path.starts_with(&prefix)),
        "the old incarnation must not materialize into the reused drop directory"
    );
}

#[test]
fn queued_transfer_from_previous_incarnation_cannot_materialize_after_supervisor_reset() {
    let mut fixture = Fixture::with(8, 64 * 1024, 4, 60_000 * MS);
    fixture.activate();
    let queued = fixture.queued("queued.pdf", b"data");
    let staged = fixture.store.staging_path("work", &queued);
    assert!(
        fixture.files.borrow().contains_key(&staged),
        "the queued transfer must be staged on disk"
    );

    fixture.deactivate();
    let drop_dir = fixture.store.drop_dir("work");
    assert!(!fixture.dirs.borrow().contains(&drop_dir));
    fixture.perform(vec![
        DirStep::RemoveTree(drop_dir.clone()),
        DirStep::CreatePrivate(drop_dir.clone()),
    ]);
    let steps = fixture.store.activate_prepared("work").unwrap();
    fixture.perform(steps);

    assert!(matches!(fixture.materialize(&queued), Err(FileTransferError::NotFound)));
    assert!(matches!(fixture.status(&queued), Err(FileTransferError::NotFound)));
    assert!(fixture.dirs.borrow().contains(&drop_dir));
    let inside = format!("{drop_dir}/");
    assert_eq!(
        fixture.files.borrow().keys().filter(|path| path.starts_with(&inside)).count(),
        0
    );
    assert!(!fixture.files.borrow().contains_key(&staged));
    fixture
        .preflight(request("fresh.pdf", 4))
        .expect("the new incarnation starts with a clean quota");
}

#[test]
fn failed_queued_materialization_releases_its_reservation() {
    let mut fixture = Fixture::new();
    let id = fixture.queued("first.pdf", b"contents");

    let files = &fixture.files;
    fixture
        .store
        .fail_queued_materialization("work", &id, fixture.now_ns, |path| {
            files.borrow_mut().remove(path);
            Ok(())
        })
        .unwrap();
    assert_eq!(fixture.status(&id).unwrap().state, FileTransferState::Failed);
    let staged = fixture.store.staging_path("work", &id);
    assert!(!fixture.files.borrow().contains_key(&staged));
    assert!(
        fixture.preflight(request("second.pdf", 8)).is_ok(),
        "a failed worker launch must not keep its queued quota reservation"
    );
}

#[test]
fn a_failed_delivery_fails_the_transfer() {
    let mut fixture = Fixture::new();
    let id = fixture.queued("report.pdf", b"data");
    let now_ns = fixture.now_ns;
    let error = fixture
        .store
        .materialize("work", &id, now_ns, |_| Err("not a directory".into()), |_| Ok(()))
        .unwrap_err();
    assert!(matches!(error, FileTransferError::Io(reason) if reason == "not a directory"));
    assert_eq!(fixture.status(&id).unwrap().state, FileTransferState::Failed);
}

#[test]
fn cancelling_wins_over_an_upload_under_way() {
    let mut fixture = Fixture::new();
    let preflight = fixture.preflight(request("one", 8)).unwrap();
    let mut upload = fixture.begin_upload(&preflight.transfer_id).unwrap();
    fixture.write(&mut upload, b"1234").unwrap();
    assert!(matches!(
        fixture.begin_upload(&preflight.transfer_id),
        Err(FileTransferError::UploadInProgress)
    ));
    fixture.cancel(&preflight.transfer_id).unwrap();
    assert!(matches!(
        fixture.write(&mut upload, b"5678"),
        Err(FileTransferError::Cancelled)
    ));
    assert_eq!(
        fixture.status(&preflight.transfer_id).unwrap().state,
        FileTransferState::Cancelled
    );
    assert!(matches!(
        fixture.cancel(&preflight.transfer_id),
        Err(FileTransferError::NotCancellable)
    ));
}

#[test]
fn what_is_asked_for_is_checked() {
    let mut fixture = Fixture::new();
    assert!(matches!(
        fixture.preflight(request("big", 9)),
        Err(FileTransferError::FileTooLarge)
    ));
    let mut facts = fixture.facts();
    facts.mime_ok = false;
    assert!(matches!(
        fixture.store.preflight("work", request("x", 1), facts, |_| Ok(())),
        Err(FileTransferError::InvalidMime)
    ));
    let facts = fixture.facts();
    assert!(matches!(
        fixture.store.preflight("idle", request("x", 1), facts, |_| Ok(())),
        Err(FileTransferError::SessionNotLive)
    ));
    let facts = fixture.facts();
    assert!(matches!(
        fixture.store.preflight("No Name", request("x", 1), facts, |_| Ok(())),
        Err(FileTransferError::InvalidSession)
    ));
    for name in ["", ".", "..", "a/b", "a\\b", "a\u{7}b"] {
        assert!(
            matches!(
                fixture.preflight(request(name, 1)),
                Err(FileTransferError::InvalidName)
            ),
            "{name:?}"
        );
    }
}

#[test]
fn only_directories_of_transfers_count() {
    let id = "0123456789abcdef0123456789abcdef".to_string();
    assert!(counts_as_transfer_dir(&Some(id.clone()), true));
    assert!(!counts_as_transfer_dir(&Some(id), false));
    assert!(!counts_as_transfer_dir(&Some("guest-created".into()), true));
    assert!(!counts_as_transfer_dir(&None, true));
}

#[test]
fn only_a_regular_file_of_the_right_size_is_delivered() {
    assert!(is_deliverable(0o100644, 4, 4));
    assert!(!is_deliverable(0o120777, 4, 4));
    assert!(!is_deliverable(0o100644, 5, 4));
    assert!(!is_deliverable(0o100644, -1, 4));
}

#[test]
fn an_accepted_preflight_is_looked_up_until_it_expires() {
    let mut fixture = Fixture::new();
    let preflight = fixture.preflight(request("report.pdf", 5)).unwrap();
    let id = preflight.transfer_id.clone();
    let other = fixture.preflight(request("other.pdf", 3)).unwrap().transfer_id;
    fixture.cancel(&other).unwrap();
    fixture.now_ns += MS - 1;
    assert_eq!(
        fixture.status(&id).unwrap(),
        FileTransferStatus {
            transfer_id: id.clone(),
            name: "report.pdf".into(),
            mime: "application/pdf".into(),
            size: 5,
            bytes_received: 0,
            state: FileTransferState::AwaitingUpload,
            expires_at: Some(preflight.expires_at),
        }
    );
    fixture.now_ns += 1;
    assert_eq!(fixture.status(&id), Err(FileTransferError::NotFound));
}

#[test]
fn name_type_and_size_stay_what_was_asked_for() {
    let mut fixture = Fixture::new();
    let id = fixture.queued("report.pdf", b"bytes");
    for _ in 0..2 {
        let status = fixture.status(&id).unwrap();
        assert_eq!(status.name, "report.pdf");
        assert_eq!(status.mime, "application/pdf");
        assert_eq!((status.size, status.bytes_received, status.expires_at), (5, 5, None));
        let _ = fixture.materialize(&id);
    }
    assert_eq!(fixture.status(&id).unwrap().state, FileTransferState::Delivered);
}

#[test]
fn a_cancelled_transfer_is_done_for() {
    let mut fixture = Fixture::new();
    let id = fixture.queued("report.pdf", b"bytes");
    fixture.cancel(&id).unwrap();
    assert_eq!(fixture.cancel(&id), Err(FileTransferError::NotCancellable));
    assert_eq!(fixture.begin_upload(&id).unwrap_err(), FileTransferError::InvalidState);
    assert_eq!(fixture.materialize(&id), Err(FileTransferError::InvalidState));
    assert_eq!(fixture.status(&id).unwrap().state, FileTransferState::Cancelled);
}

#[test]
fn an_ended_session_refuses_everything() {
    let mut fixture = Fixture::new();
    let id = fixture.queued("report.pdf", b"bytes");
    for _ in 0..2 {
        fixture.deactivate();
        let gone = FileTransferError::SessionNotLive;
        assert_eq!(fixture.store.lease("work").unwrap_err(), gone);
        assert_eq!(fixture.status(&id).unwrap_err(), gone);
        assert_eq!(fixture.cancel(&id).unwrap_err(), gone);
        assert_eq!(fixture.begin_upload(&id).unwrap_err(), gone);
        assert_eq!(fixture.materialize(&id).unwrap_err(), gone);
        assert_eq!(fixture.preflight(request("report.pdf", 5)).unwrap_err(), gone);
    }
    assert!(fixture.files.borrow().is_empty());
}

#[test]
fn one_upload_at_a_time() {
    let mut fixture = Fixture::new();
    let id = fixture.preflight(request("report.pdf", 5)).unwrap().transfer_id;
    let upload = fixture.begin_upload(&id).unwrap();
    assert_eq!(fixture.begin_upload(&id).unwrap_err(), FileTransferError::UploadInProgress);
    fixture.status(&id).unwrap();
    assert_eq!(fixture.begin_upload(&id).unwrap_err(), FileTransferError::UploadInProgress);
    let now_ns = fixture.now_ns;
    upload.abandon(&mut fixture.store, now_ns);
    assert!(fixture.begin_upload(&id).is_ok());
}

#[test]
fn a_refused_request_does_nothing() {
    let mut fixture = Fixture::new();
    let id = fixture.queued("report.pdf", b"bytes");
    fixture.materialize(&id).unwrap();
    let now_ns = fixture.now_ns;
    let store = &mut fixture.store;
    let no_delivery = |_: &Delivery| -> Result<(), String> { panic!("delivered") };
    let no_removal = |_: &str| -> Result<(), String> { panic!("removed") };
    let unknown = "f".repeat(32);
    assert_eq!(
        store.materialize("work", &id, now_ns, no_delivery, no_removal),
        Err(FileTransferError::InvalidState)
    );
    assert_eq!(
        store.materialize("work", &unknown, now_ns, no_delivery, no_removal),
        Err(FileTransferError::NotFound)
    );
    assert_eq!(
        store.materialize("gone", &id, now_ns, no_delivery, no_removal),
        Err(FileTransferError::SessionNotLive)
    );
    assert_eq!(
        store.materialize("../up", &id, now_ns, no_delivery, no_removal),
        Err(FileTransferError::InvalidSession)
    );
    assert!(store.status("work", &id, now_ns, no_removal).is_ok());
    assert_eq!(
        store.cancel("work", &id, now_ns, no_removal),
        Err(FileTransferError::NotCancellable)
    );
    assert_eq!(
        store.begin_upload("work", &id, now_ns, no_removal).unwrap_err(),
        FileTransferError::InvalidState
    );
    assert_eq!(
        store.fail_queued_materialization("work", &id, now_ns, no_removal),
        Err(FileTransferError::InvalidState)
    );
}

#[test]
fn nothing_is_written_to_a_cancelled_upload() {
    let mut fixture = Fixture::new();
    let id = fixture.preflight(request("report.pdf", 5)).unwrap().transfer_id;
    let mut upload = fixture.begin_upload(&id).unwrap();
    fixture.cancel(&id).unwrap();
    let now_ns = fixture.now_ns;
    assert_eq!(
        upload.write_chunk(&mut fixture.store, b"bytes", now_ns, |_| panic!("written")),
        Err(FileTransferError::Cancelled)
    );
    assert_eq!(
        upload.finish(&mut fixture.store, now_ns, || panic!("made durable")),
        Err(FileTransferError::Cancelled)
    );
}
