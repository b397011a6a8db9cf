use navetted::app_index::{AppIndex, EntryFile};
use navetted::blobs::{BlobStore, BlobStoreError};
use navetted::file_transfers::{
    FilePreflight, FileTransferError, FileTransferState, FileTransferStore, PreflightFacts, Usage,
};
use navetted::http::Status;
use navetted::media::MediaHub;
use navetted::protocol::{BlobDescriptor, Session, SessionStatus};
use navetted::registry::{Registry, RegistryFile};
use navetted::routes::{
    answer_download, app_icon, attach_media, blob_error_response, body_step, cancel_file, check_blob_upload,
    check_file_upload, check_png, check_protocol, file_error_response, file_status, find_download,
    icon_etag, if_none_match_matches, is_live_session, live_file_lease, session_thumbnail,
    wake_answer, with_slot, BodyEvent, BodyStep, DownloadAnswer, ImageAnswer, OpenFile, MAX_ICON_BYTES,
};
use navetted::thumbnails::{Thumbnail, ThumbnailStore};

fn saved(_: &RegistryFile) -> Result<(), String> {
    Ok(())
}

fn registry() -> Registry {
    let mut registry = Registry::open("registry.json".into(), None).unwrap();
    for (name, status) in [("work", SessionStatus::Running), ("stopped", SessionStatus::Stopped)] {
        registry
            .insert(
                Session {
                    name: name.into(),
                    app_id: "firefox".into(),
                    app_pid: 10,
                    daemon_pid: 11,
                    wayland_display: format!("navette-{name}"),
                    socket_path: format!("/tmp/{name}.sock"),
                    created_at_ms: 1,
                    last_attached_at_ms: None,
                    client_count: 0,
                    status,
                },
                saved,
            )
            .unwrap();
    }
    registry
}

fn texts(values: &[&str]) -> Vec<String> {
    values.iter().map(|v| v.to_string()).collect()
}

#[test]
fn only_running_sessions_are_served() {
    let registry = registry();
    assert!(is_live_session(&registry, "work"));
    assert!(!is_live_session(&registry, "stopped"));
    assert!(!is_live_session(&registry, "nope"));
    assert!(!is_live_session(&registry, "../work"));
}

#[test]
fn if_none_match_accepts_lists_weak_tags_and_the_wildcard() {
    assert!(!if_none_match_matches(&texts(&[]), "\"a\""));

    let headers = texts(&["\"x\", W/\"a\""]);
    assert!(if_none_match_matches(&headers, "\"a\""));
    assert!(if_none_match_matches(&headers, "\"x\""));
    assert!(!if_none_match_matches(&headers, "\"b\""));
    assert!(!if_none_match_matches(&headers, "a"), "quotes are part of the tag");

    assert!(if_none_match_matches(&texts(&["*"]), "\"anything\""));
    assert!(if_none_match_matches(&texts(&["\"p\"", "\t\"q\" "]), "\"q\""));
}

fn facts(id: u8) -> PreflightFacts {
    PreflightFacts {
        mime_ok: true,
        durable: Ok(Usage { bytes: 0, objects: 0 }),
        now_ns: 5,
        id_bytes: [id; 16],
    }
}

fn preflight(name: &str, size: u64) -> FilePreflight {
    FilePreflight { name: name.into(), mime: "application/pdf".into(), size }
}

#[test]
fn handler_liveness_lease_rejects_a_preflight_after_kill_and_name_reuse() {
    let registry = registry();
    let mut files = FileTransferStore::new("/drops".into());
    files.activate("work").unwrap();

    let lease = live_file_lease(&files, &registry, "work").unwrap();
    files.deactivate("work").unwrap();
    files.activate("work").unwrap();

    assert!(matches!(
        files.preflight_with_lease(&lease, preflight("stale.pdf", 4), facts(1), |_| Ok(())),
        Err(FileTransferError::SessionNotLive)
    ));
    assert!(matches!(
        live_file_lease(&files, &registry, "stopped"),
        Err(FileTransferError::SessionNotLive)
    ));
    files.activate("stopped").unwrap();
    assert!(matches!(
        live_file_lease(&files, &registry, "stopped"),
        Err(FileTransferError::SessionNotLive)
    ));
    assert!(matches!(
        live_file_lease(&files, &registry, "../x"),
        Err(FileTransferError::InvalidSession)
    ));
}

#[test]
fn an_upload_declares_exactly_its_bytes() {
    let registry = registry();
    let mut files = FileTransferStore::new("/drops".into());
    files.activate("work").unwrap();
    let id = files
        .preflight("work", preflight("a.pdf", 4), facts(1), |_| Ok(()))
        .unwrap()
        .unwrap()
        .transfer_id;
    let mut check = |session: &str, id: &str, length: Option<&str>| {
        check_file_upload(&registry, &mut files, session, id, length, 5, |_| Ok(()))
    };
    assert_eq!(check("work", &id, Some("4")), Ok(4));
    assert_eq!(check("work", &id, Some("5")), Err(Status::BadRequest));
    assert_eq!(check("work", &id, Some("4.0")), Err(Status::BadRequest));
    assert_eq!(check("work", &id, Some("")), Err(Status::BadRequest));
    assert_eq!(check("work", &id, None), Err(Status::BadRequest));
    assert_eq!(check("work", "unknown", Some("4")), Err(Status::NotFound));
    assert_eq!(check("stopped", &id, Some("4")), Err(Status::NotFound));
}

#[test]
fn transfers_are_looked_up_and_cancelled() {
    let registry = registry();
    let mut files = FileTransferStore::new("/drops".into());
    files.activate("work").unwrap();
    let id = files
        .preflight("work", preflight("a.pdf", 4), facts(1), |_| Ok(()))
        .unwrap()
        .unwrap()
        .transfer_id;
    let status = file_status(&registry, &mut files, "work", &id, 5, |_| Ok(())).unwrap();
    assert_eq!(status.state, FileTransferState::AwaitingUpload);
    assert_eq!(
        file_status(&registry, &mut files, "nope", &id, 5, |_| Ok(())),
        Err(Status::NotFound)
    );
    assert_eq!(
        cancel_file(&registry, &mut files, "work", &id, 5, |_| Ok(())),
        Status::NoContent
    );
    assert_eq!(
        cancel_file(&registry, &mut files, "work", &id, 5, |_| Ok(())),
        Status::Conflict
    );
    assert_eq!(
        cancel_file(&registry, &mut files, "stopped", &id, 5, |_| Ok(())),
        Status::NotFound
    );
}

#[test]
fn an_image_has_a_plain_type() {
    let registry = registry();
    assert_eq!(
        check_blob_upload(&registry, "work", Some("image/png")),
        Ok("image/png".to_string())
    );
    assert_eq!(
        check_blob_upload(&registry, "work", Some("image/png; q=1")),
        Err(Status::UnsupportedMediaType)
    );
    assert_eq!(check_blob_upload(&registry, "work", None), Err(Status::UnsupportedMediaType));
    assert_eq!(
        check_blob_upload(&registry, "stopped", Some("image/png")),
        Err(Status::NotFound)
    );
}

#[test]
fn a_body_is_written_until_it_ends() {
    assert_eq!(body_step(BodyEvent::Chunk), BodyStep::Write);
    assert_eq!(body_step(BodyEvent::End), BodyStep::Finish);
    assert_eq!(body_step(BodyEvent::Broken), BodyStep::Stop(Status::BadRequest));
    assert_eq!(body_step(BodyEvent::Idle), BodyStep::Stop(Status::RequestTimeout));
    assert_eq!(body_step(BodyEvent::Late), BodyStep::Stop(Status::RequestTimeout));
}

#[test]
fn a_download_is_found_by_its_id() {
    let registry = registry();
    let blobs = BlobStore::new("/blobs".into());
    let id = "ab".repeat(16);
    let blob = BlobDescriptor { id: id.clone(), mime: "image/png".into(), size: 3 };
    let load = |path: &str| {
        assert!(path.starts_with("/blobs/work/"));
        Some((blob.clone(), true))
    };
    assert_eq!(find_download(&registry, &blobs, "work", &id, load), Ok(blob.clone()));
    assert_eq!(
        find_download(&registry, &blobs, "work", "../x", |_| panic!("loaded")),
        Err(Status::NotFound)
    );
    assert_eq!(
        find_download(&registry, &blobs, "stopped", &id, |_| panic!("loaded")),
        Err(Status::NotFound)
    );
    assert_eq!(find_download(&registry, &blobs, "work", &id, |_| None), Err(Status::NotFound));
}

#[test]
fn failures_have_statuses() {
    for (error, status) in [
        (BlobStoreError::UnsupportedMime, 415),
        (BlobStoreError::BlobTooLarge, 413),
        (BlobStoreError::SessionBudgetExceeded, 507),
        (BlobStoreError::InvalidSession, 404),
        (BlobStoreError::InvalidDescriptor, 404),
        (BlobStoreError::NotFound, 404),
        (BlobStoreError::SessionNotLive, 404),
        (BlobStoreError::Io("x".into()), 500),
    ] {
        assert_eq!(blob_error_response(&error).code(), status);
    }
    for (error, status) in [
        (FileTransferError::InvalidSession, 404),
        (FileTransferError::NotFound, 404),
        (FileTransferError::SessionNotLive, 404),
        (FileTransferError::InvalidName, 400),
        (FileTransferError::InvalidMime, 400),
        (FileTransferError::SizeMismatch, 400),
        (FileTransferError::FileTooLarge, 413),
        (FileTransferError::SessionBudgetExceeded, 507),
        (FileTransferError::UploadInProgress, 409),
        (FileTransferError::InvalidState, 409),
        (FileTransferError::NotCancellable, 409),
        (FileTransferError::Cancelled, 409),
        (FileTransferError::Io("x".into()), 500),
    ] {
        assert_eq!(file_error_response(&error).code(), status);
    }
}

#[test]
fn the_latest_snapshot_is_revalidated_by_its_tag() {
    let registry = registry();
    let mut thumbnails = ThumbnailStore::default();
    let none: Vec<String> = Vec::new();
    assert_eq!(
        session_thumbnail(&registry, &thumbnails, "work", &none),
        ImageAnswer::Missing,
        "nothing was painted yet"
    );
    thumbnails.put("work", Thumbnail { jpeg: vec![1; 16], width: 320, height: 180 }, 0);
    thumbnails.put("stopped", Thumbnail { jpeg: vec![2; 16], width: 320, height: 180 }, 0);
    let etag = match session_thumbnail(&registry, &thumbnails, "work", &none) {
        ImageAnswer::Image { content_type, etag, cache_control, body } => {
            assert_eq!(content_type, "image/jpeg");
            assert_eq!(cache_control, "no-cache");
            assert_eq!(body, vec![1; 16]);
            etag
        }
        _ => panic!("no picture"),
    };
    assert_eq!(etag, "\"0-10\"");
    assert_eq!(
        session_thumbnail(&registry, &thumbnails, "work", &texts(&[&etag])),
        ImageAnswer::Unchanged { etag: etag.clone(), cache_control: "no-cache" }
    );
    thumbnails.put("work", Thumbnail { jpeg: vec![3; 24], width: 320, height: 180 }, 0);
    assert!(matches!(
        session_thumbnail(&registry, &thumbnails, "work", &texts(&[&etag])),
        ImageAnswer::Image { body, .. } if body.len() == 24
    ));
    assert_eq!(
        session_thumbnail(&registry, &thumbnails, "stopped", &none),
        ImageAnswer::Missing
    );
}

fn icon_index() -> AppIndex {
    let text = "[Desktop Entry]\nType=Application\nName=Foo\nExec=/bin/echo\nIcon=fooapp\n";
    AppIndex::load_from_paths(
        &vec![EntryFile { path: "/a/foo.desktop".into(), text: text.into() }],
        &vec![],
        &vec![],
        "/bin",
        &texts(&["/share"]),
        &|_: &str| true,
        &|path: &str| path == "/share/pixmaps/fooapp.png",
    )
}

fn png() -> Vec<u8> {
    b"\x89PNG\r\n\x1a\nfake".to_vec()
}

fn open(len: u64) -> Option<OpenFile> {
    Some(OpenFile { is_file: true, len, modified_ms: Some(0xabc) })
}

#[test]
fn the_icon_is_served_and_revalidated() {
    let apps = icon_index();
    let none: Vec<String> = Vec::new();
    let answer = app_icon(
        &apps,
        "foo",
        &none,
        |path| {
            assert_eq!(path, "/share/pixmaps/fooapp.png");
            open(12)
        },
        |_| Some(png()),
    );
    assert_eq!(
        answer,
        ImageAnswer::Image {
            content_type: "image/png",
            etag: "\"abc-c\"".into(),
            cache_control: "max-age=3600",
            body: png(),
        }
    );
    let again = app_icon(&apps, "foo", &texts(&["\"abc-c\""]), |_| open(12), |_| panic!("read"));
    assert_eq!(
        again,
        ImageAnswer::Unchanged { etag: "\"abc-c\"".into(), cache_control: "max-age=3600" }
    );
    let unknown = app_icon(&apps, "bar", &none, |_| panic!("opened"), |_| panic!("read"));
    assert_eq!(unknown, ImageAnswer::Missing);
}

#[test]
fn what_is_no_icon_is_not_served() {
    let apps = icon_index();
    let none: Vec<String> = Vec::new();
    let missing = ImageAnswer::Missing;
    assert_eq!(app_icon(&apps, "foo", &none, |_| None, |_| panic!("read")), missing);
    assert_eq!(
        app_icon(&apps, "foo", &none, |_| open(MAX_ICON_BYTES + 1), |_| panic!("read")),
        missing
    );
    let directory = Some(OpenFile { is_file: false, len: 0, modified_ms: None });
    assert_eq!(app_icon(&apps, "foo", &none, |_| directory, |_| panic!("read")), missing);
    assert_eq!(app_icon(&apps, "foo", &none, |_| open(5), |_| Some(b"<svg/>".to_vec())), missing);
    assert_eq!(app_icon(&apps, "foo", &none, |_| open(5), |_| None), missing);
    assert_eq!(check_png(b"\x89PNG".to_vec()), Err("not a PNG"));
    assert_eq!(
        check_png(vec![0; MAX_ICON_BYTES as usize + 1]),
        Err("larger than the icon limit")
    );
    assert_eq!(check_png(png()), Ok(png()));
}

#[test]
fn the_tag_of_an_icon_is_its_time_and_length() {
    assert_eq!(icon_etag(Some(0x1234), 0xff), "\"1234-ff\"");
    assert_eq!(icon_etag(None, 16), "\"0-10\"");
    assert_eq!(icon_etag(Some(1 << 64), 0), "\"10000000000000000-0\"");
}

#[test]
fn a_socket_needs_the_right_protocol() {
    assert!(check_protocol(&texts(&["x", "navette.v1"]), "navette.v1").is_none());
    let refusal = check_protocol(&texts(&["navette.v2"]), "navette.v1").unwrap();
    assert_eq!(refusal.status, Status::BadRequest);
    assert_eq!(refusal.body, "WebSocket subprotocol navette.v1 is required");
}

#[test]
fn a_client_attaches_to_a_session_that_is_up() {
    let registry = registry();
    let mut hub = MediaHub::default();
    let wanted = "media.v1";
    let protocols = texts(&[wanted]);
    let mut attach = |session: &str, protocols: &Vec<String>, ready: bool| {
        if ready {
            hub.register_session("work".into());
        }
        attach_media(&registry, &mut hub, session, protocols, wanted)
            .map(|attachment| attachment.id())
            .map_err(|refusal| (refusal.status.code(), refusal.body))
    };
    assert_eq!(attach("../x", &protocols, false), Err((400, "invalid session name".into())));
    assert_eq!(attach("stopped", &protocols, false), Err((404, "session is not running".into())));
    assert_eq!(
        attach("work", &texts(&[]), false),
        Err((400, "WebSocket subprotocol media.v1 is required".into()))
    );
    assert_eq!(
        attach("work", &protocols, false),
        Err((503, "session media is not ready".into()))
    );
    assert!(attach("work", &protocols, true).is_ok());
}

/// A transfer of four bytes in a session that runs.
fn transfer(registry: &Registry) -> (FileTransferStore, String) {
    let mut files = FileTransferStore::new("/drops".into());
    files.activate("work").unwrap();
    let lease = live_file_lease(&files, registry, "work").unwrap();
    let response = files
        .preflight_with_lease(&lease, preflight("report.pdf", 4), facts(1), |_| Ok(()))
        .unwrap()
        .unwrap();
    (files, response.transfer_id)
}

#[test]
fn delete_wins_over_an_in_flight_put() {
    let registry = registry();
    let (mut files, id) = transfer(&registry);
    let mut upload = files.begin_upload("work", &id, 5, |_| Ok(())).unwrap();
    upload.write_chunk(&mut files, b"da", 5, |_| Ok(())).unwrap();

    assert_eq!(
        cancel_file(&registry, &mut files, "work", &id, 5, |_| Ok(())).code(),
        204,
        "DELETE must be authoritative while the PUT body is still streaming"
    );

    assert!(matches!(
        upload.write_chunk(&mut files, b"ta", 5, |_| Ok(())),
        Err(FileTransferError::Cancelled)
    ));
    assert_eq!(
        check_file_upload(&registry, &mut files, "work", &id, Some("4"), 5, |_| Ok(())),
        Ok(4)
    );
    let retry = match files.begin_upload("work", &id, 5, |_| Ok(())) {
        Err(error) => file_error_response(&error).code(),
        Ok(_) => panic!("the upload began"),
    };
    assert_eq!(retry, 409, "a cancelled transfer cannot be re-uploaded");
    let status = file_status(&registry, &mut files, "work", &id, 5, |_| Ok(())).unwrap();
    assert_eq!(status.state, FileTransferState::Cancelled);
}

#[test]
fn put_streaming_after_delete_gets_conflict() {
    let registry = registry();
    let (mut files, id) = transfer(&registry);
    assert_eq!(
        check_file_upload(&registry, &mut files, "work", &id, Some("4"), 5, |_| Ok(())),
        Ok(4)
    );
    let mut upload = files.begin_upload("work", &id, 5, |_| Ok(())).unwrap();
    assert_eq!(body_step(BodyEvent::Chunk), BodyStep::Write);
    upload.write_chunk(&mut files, b"da", 5, |_| Ok(())).unwrap();
    assert_eq!(
        cancel_file(&registry, &mut files, "work", &id, 5, |_| Ok(())),
        Status::NoContent,
        "DELETE must succeed while the PUT body is mid-stream"
    );
    let error = upload.write_chunk(&mut files, b"ta", 5, |_| Ok(())).unwrap_err();
    assert_eq!(
        file_error_response(&error),
        Status::Conflict,
        "the streaming PUT must end with 409 once cancelled"
    );
    upload.abandon(&mut files, 5);
    let status = file_status(&registry, &mut files, "work", &id, 5, |_| Ok(())).unwrap();
    assert_eq!(status.state, FileTransferState::Cancelled);
}

fn blob(size: u64) -> BlobDescriptor {
    BlobDescriptor { id: "a".repeat(32), mime: "image/png".into(), size }
}

#[test]
fn a_download_is_found_then_gets_a_slot_then_is_opened() {
    let refused = |answer: DownloadAnswer<u8, &'static str>| match answer {
        DownloadAnswer::Refused(status) => status,
        DownloadAnswer::Content { .. } => panic!("the blob was served"),
    };
    assert_eq!(
        refused(answer_download(
            Err(Status::NotFound),
            || panic!("took a slot"),
            |_| panic!("opened a file"),
        )),
        Status::NotFound
    );
    assert_eq!(
        refused(answer_download(Ok(blob(5)), || None, |_| panic!("opened a file"))),
        Status::TooManyRequests
    );
    assert_eq!(
        refused(answer_download(Ok(blob(5)), || Some(1), |_| Err(BlobStoreError::NotFound))),
        Status::NotFound
    );
    assert_eq!(
        refused(answer_download(
            Ok(blob(5)),
            || Some(1),
            |_| Err(BlobStoreError::Io("denied".into())),
        )),
        Status::InternalServerError
    );
    match answer_download(Ok(blob(5)), || Some(1), |blob| Ok((blob.id.len(), "file"))) {
        DownloadAnswer::Content { slot, file, content_type, content_length } => {
            assert_eq!((slot, file), (1, (32, "file")));
            assert_eq!((content_type.as_str(), content_length), ("image/png", 5));
        }
        DownloadAnswer::Refused(status) => panic!("refused with {status:?}"),
    }
}

#[test]
fn slots_are_a_budget() {
    assert_eq!(with_slot(Ok(7), || Some("slot")), Ok((7, "slot")));
    assert_eq!(with_slot(Ok(7), || None::<u8>), Err(Status::TooManyRequests));
    assert_eq!(
        with_slot::<u8, u8, _>(Err(Status::BadRequest), || panic!("took a slot")),
        Err(Status::BadRequest)
    );
    assert_eq!(wake_answer(true), Status::NoContent);
    assert_eq!(wake_answer(false), Status::InternalServerError);
}
