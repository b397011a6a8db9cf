use std::collections::BTreeSet;

use navetted::icons::{default_data_dirs, icon_candidates, resolve_icon};

/// The files that exist.
struct Tree(BTreeSet<String>);

impl Tree {
    fn new() -> Self {
        Tree(BTreeSet::new())
    }

    fn write(&mut self, path: &str) {
        self.0.insert(path.to_string());
    }

    fn resolve(&self, name: &str, dirs: &[&str]) -> Option<String> {
        let dirs = dirs.iter().map(|dir| dir.to_string()).collect();
        resolve_icon(name, &dirs, &|path: &str| self.0.contains(path))
    }
}

#[test]
fn an_absolute_png_path_that_exists_is_returned_as_is() {
    let mut tree = Tree::new();
    tree.write("/t/custom/app.png");

    assert_eq!(tree.resolve("/t/custom/app.png", &[]), Some("/t/custom/app.png".into()));
    assert_eq!(tree.resolve("/t/missing.png", &[]), None);
    tree.write("/t/custom/app.svg");
    assert_eq!(tree.resolve("/t/custom/app.svg", &[]), None);
}

#[test]
fn hicolor_sizes_are_preferred_in_order() {
    let mut tree = Tree::new();
    let at = |size: &str| format!("/t/icons/hicolor/{size}/apps/fooapp.png");

    for size in ["32x32", "256x256", "48x48", "64x64", "96x96", "128x128"] {
        tree.write(&at(size));
        assert_eq!(tree.resolve("fooapp", &["/t"]), Some(at(size)));
    }
}

#[test]
fn an_earlier_data_dir_wins_over_a_later_one_at_any_size() {
    let mut tree = Tree::new();
    tree.write("/home/icons/hicolor/32x32/apps/fooapp.png");
    tree.write("/system/icons/hicolor/128x128/apps/fooapp.png");

    assert_eq!(
        tree.resolve("fooapp", &["/home", "/system"]),
        Some("/home/icons/hicolor/32x32/apps/fooapp.png".into())
    );
}

#[test]
fn pixmaps_is_the_fallback_after_hicolor() {
    let mut tree = Tree::new();
    tree.write("/t/pixmaps/fooapp.png");
    assert_eq!(tree.resolve("fooapp", &["/t"]), Some("/t/pixmaps/fooapp.png".into()));

    tree.write("/t/icons/hicolor/32x32/apps/fooapp.png");
    assert_eq!(
        tree.resolve("fooapp", &["/t"]),
        Some("/t/icons/hicolor/32x32/apps/fooapp.png".into())
    );
}

#[test]
fn a_trailing_image_extension_on_the_name_is_stripped() {
    let mut tree = Tree::new();
    let icon = "/t/icons/hicolor/64x64/apps/fooapp.png";
    tree.write(icon);

    assert_eq!(tree.resolve("fooapp.png", &["/t"]), Some(icon.into()));
    assert_eq!(tree.resolve("fooapp.svg", &["/t"]), Some(icon.into()));
}

#[test]
fn svg_only_and_unknown_icons_resolve_to_none() {
    let mut tree = Tree::new();
    tree.write("/t/icons/hicolor/scalable/apps/vector.svg");
    tree.write("/t/icons/hicolor/64x64/apps/vector.svg");

    assert_eq!(tree.resolve("vector", &["/t"]), None);
    assert_eq!(tree.resolve("nothing-here", &["/t"]), None);
    assert_eq!(tree.resolve("", &["/t"]), None);
}

#[test]
fn a_relative_path_is_never_joined_into_the_lookup() {
    let mut tree = Tree::new();
    tree.write("/t/pixmaps/fooapp.png");

    assert_eq!(tree.resolve("../pixmaps/fooapp", &["/t"]), None);
    assert_eq!(tree.resolve("sub/fooapp", &["/t"]), None);
    assert!(icon_candidates("sub/fooapp", &vec!["/t".to_string()]).is_empty());
}

#[test]
fn only_a_name_in_front_makes_an_extension() {
    let none: Vec<String> = Vec::new();
    assert_eq!(icon_candidates("/a/x.png", &none), ["/a/x.png"]);
    assert_eq!(icon_candidates("/a/x.png/", &none), ["/a/x.png/"]);
    assert!(icon_candidates("/a/.png", &none).is_empty());
    assert!(icon_candidates("/a/x.png/b", &none).is_empty());
}

#[test]
fn data_dirs_come_from_the_environment() {
    assert_eq!(
        default_data_dirs(Some("/data"), Some("/home/u"), Some("/a::/b")),
        ["/data", "/a", "/b", "/var/lib/flatpak/exports/share"]
    );
    assert_eq!(
        default_data_dirs(Some(""), Some("/home/u"), None),
        [
            "/home/u/.local/share",
            "/usr/local/share",
            "/usr/share",
            "/var/lib/flatpak/exports/share"
        ]
    );
    assert_eq!(
        default_data_dirs(None, None, Some("")),
        ["/usr/local/share", "/usr/share", "/var/lib/flatpak/exports/share"]
    );
}

#[test]
fn the_flatpak_exports_are_listed_once() {
    assert_eq!(
        default_data_dirs(None, None, Some("/var/lib/flatpak//exports/share/:/usr/share")),
        ["/var/lib/flatpak//exports/share/", "/usr/share"]
    );
}
