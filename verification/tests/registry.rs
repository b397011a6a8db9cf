use std::cell::RefCell;

use navetted::protocol::{Session, SessionStatus};
use navetted::registry::{
    default_registry_path, default_session_name, validate_session_name, Registry, RegistryError,
    RegistryFile, REGISTRY_VERSION,
};

fn session(name: &str) -> Session {
    Session {
        name: name.into(),
        app_id: "firefox".into(),
        app_pid: 10,
        daemon_pid: 11,
        wayland_display: format!("navette-{name}"),
        socket_path: format!("/run/navette/{name}/wprs.sock"),
        created_at_ms: 100,
        last_attached_at_ms: None,
        client_count: 0,
        status: SessionStatus::Running,
    }
}

fn copy(file: &RegistryFile) -> RegistryFile {
    RegistryFile { version: file.version, sessions: file.sessions.clone() }
}

/// What stands for the file on disk.
struct Disk(RefCell<Option<RegistryFile>>);

impl Disk {
    fn new() -> Self {
        Disk(RefCell::new(None))
    }

    fn write(&self, file: &RegistryFile) -> Result<(), String> {
        *self.0.borrow_mut() = Some(copy(file));
        Ok(())
    }

    fn read(&self) -> Option<RegistryFile> {
        self.0.borrow().as_ref().map(copy)
    }

    fn open(&self) -> Registry {
        Registry::open("registry.json".into(), self.read()).unwrap()
    }
}

#[test]
fn persists_and_reopens_registry() {
    let disk = Disk::new();
    let path = "/state/nested/registry.json";
    let mut registry = Registry::open(path.into(), disk.read()).unwrap();
    registry.insert(session("work"), |file| disk.write(file)).unwrap();

    let reopened = Registry::open(path.into(), disk.read()).unwrap();
    assert_eq!(reopened.get("work"), Some(&session("work")));
    assert_eq!(reopened.path(), path);
}

#[test]
fn duplicate_insert_is_rejected_without_changing_disk() {
    let disk = Disk::new();
    let mut registry = disk.open();
    registry.insert(session("work"), |file| disk.write(file)).unwrap();
    let before = disk.read().unwrap().sessions;

    let error = registry.insert(session("work"), |file| disk.write(file)).unwrap_err();
    assert!(matches!(error, RegistryError::AlreadyExists(_)));
    assert_eq!(error.message(), "session already exists: work");
    assert_eq!(disk.read().unwrap().sessions, before);
}

#[test]
fn failed_persist_rolls_back_in_memory_insert() {
    let mut registry = Registry::open("blocker/registry.json".into(), None).unwrap();

    let error = registry.insert(session("work"), |_| Err("not a directory".into())).unwrap_err();
    assert!(matches!(error, RegistryError::Persist { .. }));
    assert_eq!(
        error.message(),
        "failed to persist registry blocker/registry.json: not a directory"
    );
    assert!(registry.list().is_empty());
}

#[test]
fn invalid_names_are_rejected() {
    for invalid in [
        "",
        "Upper",
        "-leading",
        "has space",
        "dot.name",
        &"a".repeat(65),
    ] {
        assert!(validate_session_name(invalid).is_err(), "{invalid}");
    }
    for valid in ["a", "work-browser", "work_2", "2fa"] {
        assert!(validate_session_name(valid).is_ok(), "{valid}");
    }
}

#[test]
fn a_name_may_have_sixty_four_characters() {
    assert!(validate_session_name(&"a".repeat(64)).is_ok());
    let error = validate_session_name("_x").unwrap_err();
    assert_eq!(error.message(), "invalid session name: _x");
}

#[test]
fn derives_safe_default_names() {
    assert_eq!(default_session_name("Firefox.desktop"), "firefox-desktop");
    assert_eq!(
        default_session_name("org.gnome.Builder"),
        "org-gnome-builder"
    );
    assert_eq!(default_session_name("---"), "session");
}

#[test]
fn every_default_name_is_valid() {
    for id in ["", "\u{0130}stanbul", "\u{212a}elvin", "...", "A__B--C", "\u{00e9}cole"] {
        let name = default_session_name(id);
        assert!(validate_session_name(&name).is_ok(), "{id} gives {name}");
    }
    assert_eq!(default_session_name("\u{212a}elvin"), "kelvin");
    let long = default_session_name(&"Ab.".repeat(40));
    assert_eq!(long.len(), 64);
}

#[test]
fn attach_and_detach_counts_are_saturating() {
    let disk = Disk::new();
    let mut registry = disk.open();
    registry.insert(session("work"), |file| disk.write(file)).unwrap();

    let attached = registry.mark_attached("work", 200, |file| disk.write(file)).unwrap();
    assert_eq!(attached.client_count, 1);
    let detached = registry.mark_detached("work", |file| disk.write(file)).unwrap();
    assert_eq!(detached.client_count, 0);
    assert_eq!(detached.last_attached_at_ms, Some(200));
    let again = registry.mark_detached("work", |file| disk.write(file)).unwrap();
    assert_eq!(again.client_count, 0);
}

#[test]
fn an_unsaved_attach_is_not_counted() {
    let disk = Disk::new();
    let mut registry = disk.open();
    registry.insert(session("work"), |file| disk.write(file)).unwrap();

    assert!(registry.mark_attached("work", 200, |_| Err("full".into())).is_err());
    assert_eq!(registry.get("work"), Some(&session("work")));
    assert!(matches!(
        registry.mark_attached("other", 200, |file| disk.write(file)),
        Err(RegistryError::NotFound(name)) if name == "other"
    ));
}

#[test]
fn reconcile_marks_dead_sessions_stopped() {
    let disk = Disk::new();
    let mut registry = disk.open();
    registry.insert(session("work"), |file| disk.write(file)).unwrap();

    assert!(registry.reconcile(|pid| pid == 10, |file| disk.write(file)).unwrap());
    assert_eq!(registry.get("work").unwrap().status, SessionStatus::Stopped);
    assert!(!disk.open().reconcile(|_| false, |file| disk.write(file)).unwrap());
}

#[test]
fn a_failed_save_undoes_a_reconciliation() {
    let disk = Disk::new();
    let mut registry = disk.open();
    registry.insert(session("work"), |file| disk.write(file)).unwrap();

    assert!(registry.reconcile(|_| false, |_| Err("full".into())).is_err());
    assert_eq!(registry.get("work"), Some(&session("work")));
}

#[test]
fn reopening_refuses_a_persisted_session_name_that_escapes_runtime_storage() {
    let stored = RegistryFile {
        version: REGISTRY_VERSION,
        sessions: vec![session("../outside")],
    };

    assert!(matches!(
        Registry::open("registry.json".into(), Some(stored)),
        Err(RegistryError::InvalidName(name)) if name == "../outside"
    ));
}

#[test]
fn a_file_of_another_version_is_refused() {
    let stored = RegistryFile { version: REGISTRY_VERSION + 1, sessions: vec![] };
    let error = match Registry::open("registry.json".into(), Some(stored)) {
        Err(error) => error,
        Ok(_) => panic!("opened"),
    };
    assert!(matches!(error, RegistryError::UnsupportedVersion(2)));
    assert_eq!(error.message(), "unsupported registry version 2");
}

#[test]
fn remove_and_replace_require_existing_session() {
    let disk = Disk::new();
    let mut registry = disk.open();
    assert!(matches!(
        registry.remove("missing", |file| disk.write(file)),
        Err(RegistryError::NotFound(_))
    ));
    assert!(matches!(
        registry.replace(session("missing"), |file| disk.write(file)),
        Err(RegistryError::NotFound(_))
    ));

    registry.insert(session("work"), |file| disk.write(file)).unwrap();
    let mut updated = session("work");
    updated.status = SessionStatus::Failed;
    registry.replace(updated.clone(), |file| disk.write(file)).unwrap();
    assert_eq!(registry.get("work"), Some(&updated));
    assert_eq!(registry.remove("work", |file| disk.write(file)).unwrap(), updated);
    assert!(registry.is_empty());
}

#[test]
fn the_list_is_in_the_order_of_the_names() {
    let disk = Disk::new();
    let mut registry = disk.open();
    for name in ["zulu", "alpha", "mike"] {
        registry.insert(session(name), |file| disk.write(file)).unwrap();
    }
    let names: Vec<String> = registry.list().into_iter().map(|s| s.name).collect();
    assert_eq!(names, ["alpha", "mike", "zulu"]);
    assert_eq!(registry.snapshot().sessions, registry.list());
}

#[test]
fn read_and_decode_failures_name_the_file() {
    let read = RegistryError::Read { path: "p".into(), source: "denied".into() };
    assert_eq!(read.message(), "failed to read registry p: denied");
    let decode = RegistryError::Decode { path: "p".into(), source: "bad".into() };
    assert_eq!(decode.message(), "failed to decode registry p: bad");
    assert_eq!(RegistryError::NotFound("x".into()).message(), "session not found: x");
}

#[test]
fn the_registry_lies_in_the_state_directory() {
    assert_eq!(
        default_registry_path(Some("/state"), Some("/home/u"), "/tmp", 7),
        "/state/navette/registry.json"
    );
    assert_eq!(
        default_registry_path(None, Some("/home/u"), "/tmp", 7),
        "/home/u/.local/state/navette/registry.json"
    );
    assert_eq!(
        default_registry_path(None, None, "/tmp", 731),
        "/tmp/navette-731/navette/registry.json"
    );
}

#[test]
fn a_default_name_is_its_own_default_name() {
    assert_eq!(default_session_name("__A__B--C_"), "a-b-c");
    assert_eq!(default_session_name("a-b-c"), "a-b-c");
    assert_eq!(default_session_name("session"), "session");
    assert_eq!(default_session_name("_._"), "session");
    let cut = default_session_name(&format!("{}.b", "a".repeat(63)));
    assert_eq!(cut, "a".repeat(63));
}

#[test]
fn a_refused_change_is_not_saved() {
    let disk = Disk::new();
    let mut registry = disk.open();
    registry.insert(session("work"), |file| disk.write(file)).unwrap();
    let untouched = |_: &RegistryFile| -> Result<(), String> { panic!("saved") };
    assert!(registry.insert(session("work"), untouched).is_err());
    assert!(registry.insert(session("No"), untouched).is_err());
    assert!(registry.replace(session("other"), untouched).is_err());
    assert!(registry.remove("other", untouched).is_err());
    assert!(registry.mark_attached("other", 1, untouched).is_err());
    assert!(registry.mark_detached("other", untouched).is_err());
    assert_eq!(registry.reconcile(|_| true, untouched).unwrap(), false);
    assert_eq!(registry.list().len(), 1);
}
