use std::cell::RefCell;
use std::collections::BTreeMap;

use navetted::blobs::{
    ignore_not_found, not_found, stable_usage, BlobFile, BlobLimits, BlobStore, BlobStoreError,
    BlobWriter, FileFacts, IoFailure, Publication,
};
use navetted::file_transfers::Usage;
use navetted::protocol::BlobDescriptor;

/// The files, and the descriptors among them.
#[derive(Default)]
struct Disk {
    files: RefCell<BTreeMap<String, Vec<u8>>>,
    descriptors: RefCell<BTreeMap<String, BlobDescriptor>>,
    next_id: RefCell<u8>,
}

impl Disk {
    fn usage(&self, dir: &str) -> Usage {
        let prefix = format!("{dir}/");
        let files = self
            .files
            .borrow()
            .iter()
            .filter(|(path, _)| path.starts_with(&prefix))
            .map(|(path, bytes)| BlobFile {
                name: path[prefix.len()..].to_string(),
                is_file: true,
                blocks: (bytes.len() as u64 + 4095) / 4096 * 8,
            })
            .collect();
        stable_usage(&files)
    }

    fn begin(&self, store: &mut BlobStore, session: &str, mime: &str) -> Result<BlobWriter, BlobStoreError> {
        *self.next_id.borrow_mut() += 1;
        store.begin_write(
            session,
            mime,
            [*self.next_id.borrow(); 16],
            |dir| Ok(self.usage(dir)),
            |part| {
                self.files.borrow_mut().insert(part.to_string(), Vec::new());
                Ok(())
            },
        )
    }

    fn write(&self, store: &mut BlobStore, writer: &mut BlobWriter, chunk: &[u8]) -> Result<(), BlobStoreError> {
        let part = writer.part_path().clone();
        let stored = Ok(self.usage("/blobs/desktop"));
        writer.write_chunk(store, chunk, stored, |bytes| {
            self.files.borrow_mut().get_mut(&part).unwrap().extend_from_slice(bytes);
            Ok(())
        })
    }

    fn publish(&self, publication: &Publication) -> Result<(), String> {
        let mut files = self.files.borrow_mut();
        let bytes = files.remove(&publication.part_path).ok_or("no such file")?;
        files.insert(publication.final_path.clone(), bytes);
        files.insert(publication.metadata_path.clone(), vec![b'{']);
        self.descriptors
            .borrow_mut()
            .insert(publication.metadata_path.clone(), publication.descriptor.clone());
        Ok(())
    }

    fn finish(&self, store: &mut BlobStore, writer: BlobWriter) -> Result<BlobDescriptor, BlobStoreError> {
        writer.finish(store, || Ok(()), |_| true, |publication| self.publish(publication))
    }

    fn stat(&self, path: &str) -> Result<FileFacts, IoFailure> {
        match self.files.borrow().get(path) {
            Some(bytes) => Ok(FileFacts { is_file: true, len: bytes.len() as u64 }),
            None => Err(IoFailure::NotFound),
        }
    }

    fn read(&self, store: &BlobStore, blob: &BlobDescriptor) -> Result<Vec<u8>, BlobStoreError> {
        store.read(
            "desktop",
            blob,
            true,
            |path| self.stat(path),
            |path| self.files.borrow().get(path).cloned().ok_or(IoFailure::NotFound),
        )
    }

    fn load(&self, path: &str) -> Option<(BlobDescriptor, bool)> {
        self.descriptors.borrow().get(path).map(|blob| (blob.clone(), true))
    }

    fn delete(&self, path: &str) -> Result<(), IoFailure> {
        self.descriptors.borrow_mut().remove(path);
        match self.files.borrow_mut().remove(path) {
            Some(_) => Ok(()),
            None => Err(IoFailure::NotFound),
        }
    }

    fn clear(&self, dir: &str) -> Result<(), IoFailure> {
        let prefix = format!("{dir}/");
        self.files.borrow_mut().retain(|path, _| !path.starts_with(&prefix));
        Ok(())
    }
}

fn store(disk: &Disk) -> BlobStore {
    let mut store = BlobStore::new("/blobs".into());
    store.activate("desktop", |dir| disk.clear(dir)).unwrap();
    store
}

fn limited(disk: &Disk, bytes: u64, session: u64, objects: u64) -> BlobStore {
    let limits = BlobLimits {
        max_blob_bytes: bytes,
        max_session_bytes: session,
        max_session_objects: objects,
    };
    let mut store = BlobStore::with_limits("/blobs".into(), limits);
    store.activate("desktop", |dir| disk.clear(dir)).unwrap();
    store
}

#[test]
fn stores_atomically_and_reads_by_opaque_descriptor() {
    let disk = Disk::default();
    let mut store = store(&disk);
    let mut writer = disk.begin(&mut store, "desktop", "image/png").unwrap();
    disk.write(&mut store, &mut writer, b"hello").unwrap();
    let blob = disk.finish(&mut store, writer).unwrap();
    assert_eq!(disk.read(&store, &blob).unwrap(), b"hello");
    assert_eq!(blob.mime, "image/png");
    assert_eq!(blob.size, 5);
    assert_eq!(blob.id, "01".repeat(16));
    assert!(!disk.files.borrow().contains_key(&format!("/blobs/desktop/{}.part", blob.id)));
}

#[test]
fn dropping_a_cancelled_upload_removes_the_partial_file_and_budget_reservation() {
    let disk = Disk::default();
    let mut store = limited(&disk, 16, 16, 1);
    let mut writer = disk.begin(&mut store, "desktop", "image/png").unwrap();
    disk.write(&mut store, &mut writer, b"partial").unwrap();
    assert!(matches!(
        disk.begin(&mut store, "desktop", "image/png"),
        Err(BlobStoreError::SessionBudgetExceeded)
    ));
    let part = writer.part_path().clone();
    writer.discard(&mut store);
    disk.delete(&part).unwrap();
    let mut writer = disk.begin(&mut store, "desktop", "image/png").unwrap();
    disk.write(&mut store, &mut writer, b"replacement").unwrap();
    let blob = disk.finish(&mut store, writer).unwrap();
    assert_eq!(disk.read(&store, &blob).unwrap(), b"replacement");
}

#[test]
fn rejects_invalid_inputs_and_never_treats_paths_as_ids() {
    let disk = Disk::default();
    let mut store = store(&disk);
    assert!(matches!(
        disk.begin(&mut store, "../desktop", "image/png"),
        Err(BlobStoreError::InvalidSession)
    ));
    assert!(matches!(
        disk.begin(&mut store, "desktop", "image/svg+xml"),
        Err(BlobStoreError::UnsupportedMime)
    ));
    let bad = BlobDescriptor { id: "../not-a-blob".into(), mime: "image/png".into(), size: 1 };
    let read = store.read(
        "desktop",
        &bad,
        false,
        |path| disk.stat(path),
        |_| panic!("nothing is read"),
    );
    assert!(matches!(read, Err(BlobStoreError::InvalidDescriptor)));
}

#[test]
fn enforces_per_blob_and_per_session_budgets_without_publishing_partial_data() {
    let disk = Disk::default();
    let mut store = limited(&disk, 4, 6, 16);

    let mut too_big = disk.begin(&mut store, "desktop", "image/png").unwrap();
    assert!(matches!(
        disk.write(&mut store, &mut too_big, b"12345"),
        Err(BlobStoreError::BlobTooLarge)
    ));

    let mut first = disk.begin(&mut store, "desktop", "image/png").unwrap();
    disk.write(&mut store, &mut first, b"1234").unwrap();
    disk.finish(&mut store, first).unwrap();

    let mut over_session = disk.begin(&mut store, "desktop", "image/png").unwrap();
    assert!(matches!(
        disk.write(&mut store, &mut over_session, b"123"),
        Err(BlobStoreError::SessionBudgetExceeded)
    ));
}

#[test]
fn limits_tiny_blob_objects_and_reclaims_a_superseded_descriptor() {
    let disk = Disk::default();
    let mut store = limited(&disk, 4, 64 * 1024, 1);

    let mut first_writer = disk.begin(&mut store, "desktop", "image/png").unwrap();
    disk.write(&mut store, &mut first_writer, b"a").unwrap();
    let first = disk.finish(&mut store, first_writer).unwrap();

    assert!(matches!(
        disk.begin(&mut store, "desktop", "image/png"),
        Err(BlobStoreError::SessionBudgetExceeded)
    ));
    store
        .remove(
            "desktop",
            &first,
            true,
            |path| disk.load(path),
            |path| disk.delete(path),
            |path| disk.delete(path),
        )
        .unwrap();
    assert!(
        !disk.files.borrow().contains_key(&format!("/blobs/desktop/{}.meta", first.id)),
        "reclamation removes paired descriptor metadata too"
    );

    let mut replacement = disk.begin(&mut store, "desktop", "image/png").unwrap();
    disk.write(&mut store, &mut replacement, b"b").unwrap();
    let blob = disk.finish(&mut store, replacement).unwrap();
    assert_eq!(disk.read(&store, &blob).unwrap(), b"b");
}

#[test]
fn revoked_writer_cannot_publish_into_a_recreated_session_namespace() {
    let disk = Disk::default();
    disk.files.borrow_mut().insert("/blobs/desktop/stale-blob".into(), b"orphaned".to_vec());
    let mut store = store(&disk);
    assert!(
        disk.files.borrow().is_empty(),
        "a session start must clear an orphaned namespace before leasing it"
    );
    let mut writer = disk.begin(&mut store, "desktop", "image/png").unwrap();
    disk.write(&mut store, &mut writer, b"old").unwrap();

    store.deactivate("desktop", |dir| disk.clear(dir)).unwrap();
    store.activate("desktop", |dir| disk.clear(dir)).unwrap();

    assert!(matches!(
        disk.finish(&mut store, writer),
        Err(BlobStoreError::SessionNotLive)
    ));
    assert!(
        disk.files.borrow().is_empty(),
        "a writer leased before kill must not recreate the replacement namespace"
    );
}

#[test]
fn old_epoch_reservations_do_not_exhaust_or_release_a_recreated_sessions_budget() {
    let disk = Disk::default();
    let mut store = limited(&disk, 4, 4, 16);
    let mut old = disk.begin(&mut store, "desktop", "image/png").unwrap();
    disk.write(&mut store, &mut old, b"old!").unwrap();

    store.deactivate("desktop", |dir| disk.clear(dir)).unwrap();
    store.activate("desktop", |dir| disk.clear(dir)).unwrap();
    let mut current = disk.begin(&mut store, "desktop", "image/png").unwrap();
    disk.write(&mut store, &mut current, b"new!").unwrap();

    old.discard(&mut store);
    let mut another_current = disk.begin(&mut store, "desktop", "image/png").unwrap();
    assert!(
        matches!(
            disk.write(&mut store, &mut another_current, b"more"),
            Err(BlobStoreError::SessionBudgetExceeded)
        ),
        "dropping an old writer must not release the recreated session's reservation"
    );
    another_current.discard(&mut store);
    current.discard(&mut store);
}

#[test]
fn revoked_writer_rejects_later_chunks_cleans_its_partial_and_cannot_finish() {
    let disk = Disk::default();
    let mut store = store(&disk);
    let mut writer = disk.begin(&mut store, "desktop", "image/png").unwrap();
    disk.write(&mut store, &mut writer, b"old").unwrap();
    assert!(disk.files.borrow().contains_key(writer.part_path()));

    store.deactivate("desktop", |dir| disk.clear(dir)).unwrap();
    assert!(
        !disk.files.borrow().contains_key(writer.part_path()),
        "revocation must clean the stale partial immediately"
    );

    assert!(matches!(
        disk.write(&mut store, &mut writer, b"new"),
        Err(BlobStoreError::SessionNotLive)
    ));
    assert!(matches!(
        disk.finish(&mut store, writer),
        Err(BlobStoreError::SessionNotLive)
    ));
}

#[test]
fn a_descriptor_is_found_by_its_id() {
    let disk = Disk::default();
    let mut store = store(&disk);
    let mut writer = disk.begin(&mut store, "desktop", "image/webp").unwrap();
    disk.write(&mut store, &mut writer, b"x").unwrap();
    let blob = disk.finish(&mut store, writer).unwrap();
    assert_eq!(store.descriptor("desktop", &blob.id, |path| disk.load(path)), Some(blob.clone()));
    assert_eq!(store.descriptor("desktop", &"ff".repeat(16), |path| disk.load(path)), None);
    assert_eq!(store.descriptor("desktop", "../x", |_| panic!("nothing is loaded")), None);
    assert_eq!(
        store.descriptor("desktop", &blob.id, |_| Some((blob.clone(), false))),
        None,
        "an invalid descriptor is none"
    );
}

#[test]
fn a_failed_write_is_reported() {
    let disk = Disk::default();
    let mut store = store(&disk);
    let mut writer = disk.begin(&mut store, "desktop", "image/png").unwrap();
    let stored = Ok(Usage { bytes: 0, objects: 0 });
    let error = writer.write_chunk(&mut store, b"x", stored, |_| Err("full".into())).unwrap_err();
    assert_eq!(error, BlobStoreError::Io("full".into()));
}

#[test]
fn a_missing_file_is_a_missing_blob() {
    assert_eq!(not_found(IoFailure::NotFound), BlobStoreError::NotFound);
    assert_eq!(not_found(IoFailure::Other("x".into())), BlobStoreError::Io("x".into()));
    assert_eq!(ignore_not_found(IoFailure::NotFound), Ok(()));
    assert_eq!(ignore_not_found(IoFailure::Other("x".into())), Err("x".into()));
}

#[test]
fn only_complete_files_count() {
    let file = |name: &str, is_file: bool| BlobFile { name: name.into(), is_file, blocks: 8 };
    let usage = stable_usage(&vec![
        file("a", true),
        file("a.meta", true),
        file("b.part", true),
        file("c", false),
    ]);
    assert_eq!(usage, Usage { bytes: 2 * 4096, objects: 1 });
}

#[test]
fn letting_go_of_a_writer_gives_back_exactly_what_it_held() {
    let disk = Disk::default();
    let mut store = limited(&disk, 16, 16, 2);
    let mut first = disk.begin(&mut store, "desktop", "image/png").unwrap();
    disk.write(&mut store, &mut first, b"12345678").unwrap();
    for _ in 0..3 {
        let mut second = disk.begin(&mut store, "desktop", "image/png").unwrap();
        disk.write(&mut store, &mut second, b"").unwrap();
        disk.write(&mut store, &mut second, b"87654321").unwrap();
        assert!(matches!(
            disk.write(&mut store, &mut second, b"9"),
            Err(BlobStoreError::SessionBudgetExceeded)
        ));
        second.discard(&mut store);
    }
    let blob = disk.finish(&mut store, first).unwrap();
    assert_eq!((blob.mime.as_str(), blob.size), ("image/png", 8));
}

#[test]
fn a_refused_request_touches_no_file() {
    let disk = Disk::default();
    let mut store = store(&disk);
    assert!(matches!(
        store.activate("../up", |_| panic!("removed")),
        Err(BlobStoreError::InvalidSession)
    ));
    let mut writer = disk.begin(&mut store, "desktop", "image/png").unwrap();
    disk.write(&mut store, &mut writer, b"bytes").unwrap();
    let empty = disk.begin(&mut store, "desktop", "image/png").unwrap();
    assert!(empty.finish(&mut store, || panic!("synced"), |_| true, |_| panic!("published")).is_err());
    store.deactivate("desktop", |dir| disk.clear(dir)).unwrap();
    assert!(matches!(
        writer.finish(&mut store, || Ok(()), |_| true, |_| panic!("published")),
        Err(BlobStoreError::SessionNotLive)
    ));
}
