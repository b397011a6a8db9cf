use std::collections::BTreeSet;

use navetted::app_index::{
    command_exists, entry_app, entry_is_visible, AppIndex, EntryFacts, EntryFile,
};
use navetted::protocol::App;

fn entry(name: &str, extra: &str) -> String {
    format!("[Desktop Entry]\nType=Application\nName={name}\nExec=/bin/echo %U --flag\n{extra}\n")
}

fn file(path: &str, text: &str) -> EntryFile {
    EntryFile { path: path.to_string(), text: text.to_string() }
}

fn load_with(files: &[EntryFile], locales: &[&str], data_dirs: &[&str], icons: &[&str]) -> AppIndex {
    let files: Vec<EntryFile> = files.iter().map(|f| file(&f.path, &f.text)).collect();
    let locales = locales.iter().map(|l| l.to_string()).collect();
    let data_dirs = data_dirs.iter().map(|d| d.to_string()).collect();
    let icons: BTreeSet<String> = icons.iter().map(|i| i.to_string()).collect();
    AppIndex::load_from_paths(
        &files,
        &locales,
        &vec!["kde".to_string()],
        "/bin",
        &data_dirs,
        &|path: &str| path == "/bin/echo",
        &|path: &str| icons.contains(path),
    )
}

fn load(files: &[EntryFile]) -> AppIndex {
    load_with(files, &[], &[], &[])
}

#[test]
fn loads_visible_application_and_strips_uri_field_code() {
    let index = load(&[file(
        "/t/browser.desktop",
        &entry("Browser", "Icon=browser\nCategories=Network;WebBrowser;\nTerminal=true"),
    )]);
    let app = index.get("browser").unwrap();
    assert_eq!(app.name, "Browser");
    assert_eq!(app.argv, ["/bin/echo", "--flag"]);
    assert_eq!(app.icon.as_deref(), Some("browser"));
    assert_eq!(app.categories, ["Network", "WebBrowser"]);
    assert!(app.terminal);
}

#[test]
fn filters_hidden_no_display_wrong_type_and_invalid_entries() {
    let index = load(&[
        file("/t/hidden.desktop", &entry("Hidden", "Hidden=true")),
        file("/t/nodisplay.desktop", &entry("No display", "NoDisplay=true")),
        file(
            "/t/link.desktop",
            "[Desktop Entry]\nType=Link\nName=Link\nURL=https://example.com\n",
        ),
        file("/t/missing-name.desktop", "[Desktop Entry]\nType=Application\nExec=/bin/echo\n"),
        file(
            "/t/missing-exec.desktop",
            "[Desktop Entry]\nType=Application\nName=Missing exec\n",
        ),
    ]);
    assert!(index.is_empty());
}

#[test]
fn higher_priority_duplicate_wins() {
    let index = load(&[
        file("/high/same.desktop", &entry("High", "")),
        file("/low/same.desktop", &entry("Low", "")),
    ]);
    assert_eq!(index.get("same").unwrap().name, "High");
    assert_eq!(index.len(), 1);
}

#[test]
fn a_refused_duplicate_leaves_room_for_the_next() {
    let index = load(&[
        file("/high/same.desktop", &entry("High", "Hidden=true")),
        file("/low/same.desktop", &entry("Low", "")),
    ]);
    assert_eq!(index.get("same").unwrap().name, "Low");
}

#[test]
fn honors_desktop_visibility_rules() {
    let index = load(&[
        file("/t/kde.desktop", &entry("KDE", "OnlyShowIn=KDE;")),
        file("/t/gnome.desktop", &entry("GNOME", "OnlyShowIn=GNOME;")),
        file("/t/denied.desktop", &entry("Denied", "NotShowIn=KDE;")),
    ]);
    assert!(index.get("kde").is_some());
    assert!(index.get("gnome").is_none());
    assert!(index.get("denied").is_none());
}

#[test]
fn filters_missing_try_exec() {
    let index = load(&[
        file(
            "/t/missing.desktop",
            &entry("Missing", "TryExec=definitely-not-installed-navette-test"),
        ),
        file("/t/present.desktop", &entry("Present", "TryExec=echo")),
    ]);
    assert!(index.get("missing").is_none());
    assert!(index.get("present").is_some());
}

#[test]
fn list_is_sorted_by_display_name() {
    let index = load(&[
        file("/t/z.desktop", &entry("alpha", "")),
        file("/t/a.desktop", &entry("Zulu", "")),
    ]);
    let names: Vec<String> = index.list().into_iter().map(|app| app.name).collect();
    assert_eq!(names, ["alpha", "Zulu"]);
}

#[test]
fn the_same_name_is_sorted_by_id() {
    let index = load(&[
        file("/t/b.desktop", &entry("NAME", "")),
        file("/t/c.desktop", &entry("\u{00c4}name", "")),
        file("/t/a.desktop", &entry("name", "")),
    ]);
    let ids: Vec<String> = index.list().into_iter().map(|app| app.id).collect();
    assert_eq!(ids, ["a", "b", "c"]);
}

#[test]
fn names_are_translated() {
    let text = "[Desktop Entry]\nType=Application\nName=Files\nName[de]=Dateien\nExec=/bin/echo\n";
    let files = [file("/usr/share/applications/sub/files.desktop", text)];
    assert_eq!(
        load_with(&files, &["de_AT"], &[], &[]).get("sub-files").unwrap().name,
        "Dateien"
    );
    assert_eq!(load_with(&files, &["fr"], &[], &[]).get("sub-files").unwrap().name, "Files");
    assert_eq!(load(&files).get("sub-files").unwrap().name, "Files");
}

#[test]
fn what_is_no_entry_is_passed_over() {
    let index = load(&[
        file("/t/noise.desktop", "no entry at all"),
        file("/t/wrong.txt", &entry("Wrong", "")),
        file("/t/env.desktop", "[Desktop Entry]\nType=Application\nName=E\nExec=A=1 echo\n"),
        file("/t/quote.desktop", "[Desktop Entry]\nType=Application\nName=Q\nExec=\"echo\n"),
    ]);
    assert!(index.is_empty());
}

#[test]
fn the_icon_is_found_when_the_index_is_loaded() {
    let icon = "/share/icons/hicolor/64x64/apps/fooapp.png";
    let index = load_with(
        &[
            file("/t/foo.desktop", &entry("Foo", "Icon=fooapp")),
            file("/t/bare.desktop", &entry("Bare", "")),
            file("/t/lost.desktop", &entry("Lost", "Icon=lost")),
        ],
        &[],
        &["/share"],
        &[icon],
    );
    assert_eq!(index.icon_path("foo").unwrap(), icon);
    assert!(index.icon_path("bare").is_none());
    assert!(index.icon_path("lost").is_none());
    assert!(index.icon_path("unknown").is_none());
    assert!(index.get("bare").is_some() && index.get("lost").is_some());
}

fn app(id: &str, name: &str) -> App {
    App {
        id: id.to_string(),
        name: name.to_string(),
        icon: None,
        categories: vec![],
        argv: vec![id.to_string()],
        terminal: false,
    }
}

#[test]
fn of_two_given_applications_with_one_id_the_later_counts() {
    let index = AppIndex::from_apps(vec![app("x", "first"), app("y", "other"), app("x", "second")]);
    assert_eq!(index.len(), 2);
    assert_eq!(index.get("x").unwrap().name, "second");
    assert!(index.icon_path("x").is_none());
}

fn facts() -> EntryFacts {
    EntryFacts {
        id: "x".into(),
        kind: Some("Application".into()),
        hidden: false,
        no_display: false,
        only_show_in: None,
        not_show_in: None,
        name: Some("X".into()),
        argv: Some(vec!["x".into()]),
        try_exec: None,
        icon: Some("".into()),
        categories: Some(vec!["A".into(), "".into()]),
        terminal: false,
    }
}

#[test]
fn empty_values_are_left_out_of_an_application() {
    let none: Vec<String> = Vec::new();
    let offered = entry_app(&facts(), &none, "", &|_: &str| false).unwrap();
    assert_eq!(offered.icon, None);
    assert_eq!(offered.categories, ["A"]);

    let mut nameless = facts();
    nameless.name = Some("".into());
    assert!(entry_app(&nameless, &none, "", &|_: &str| true).is_none());
    let mut idle = facts();
    idle.argv = None;
    assert!(entry_app(&idle, &none, "", &|_: &str| true).is_none());
}

#[test]
fn desktops_are_compared_without_case() {
    let mut only = facts();
    only.only_show_in = Some(vec!["GNOME".into(), "KDE".into(), "".into()]);
    assert!(entry_is_visible(&only, &vec!["kde".into()]));
    assert!(!entry_is_visible(&only, &vec!["xfce".into()]));
    assert!(!entry_is_visible(&only, &vec![]));
    let mut not = facts();
    not.not_show_in = Some(vec!["kDe".into()]);
    assert!(!entry_is_visible(&not, &vec!["KDE".into()]));
    assert!(entry_is_visible(&not, &vec![]));
}

#[test]
fn a_command_with_a_path_is_not_searched_for() {
    let exists = |path: &str| path == "/opt/tool" || path == "tool" || path == "./tool";
    assert!(command_exists("/opt/tool", "", &exists));
    assert!(command_exists("./tool", "/bin", &exists));
    assert!(!command_exists("tool", "/bin:/usr/bin", &exists));
    assert!(command_exists("tool", "/bin:/opt", &exists));
    assert!(command_exists("tool", "/bin:", &exists), "an empty directory is the current one");
}
