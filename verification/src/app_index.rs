//! The applications that can be started: read from desktop entries, filtered by
//! what the desktop shows and what is installed.

use freedesktop_desktop_entry::DesktopEntry;
use vstd::prelude::*;

use crate::desktop_entry::{decode_entry, entry_name};
use crate::icons::resolve_icon;
use crate::paths::{first_file, join_path, path_components};
use crate::protocol::App;
use crate::sorted_map::SortedMap;
use crate::text::{chars_of, clone_texts, same_text, split_text, str_to_lowercase};

verus! {

broadcast use vstd::string::group_string_axioms;

/// A desktop file: where it lies and what it holds.
#[derive(Debug, PartialEq, Eq)]
pub struct EntryFile {
    pub path: String,
    pub text: String,
}

/// What a desktop entry says of itself.
#[derive(Debug, PartialEq, Eq)]
pub struct EntryFacts {
    pub id: String,
    pub kind: Option<String>,
    pub hidden: bool,
    pub no_display: bool,
    pub only_show_in: Option<Vec<String>>,
    pub not_show_in: Option<Vec<String>>,
    pub name: Option<String>,
    /// The program and its arguments, where the command line is good.
    pub argv: Option<Vec<String>>,
    pub try_exec: Option<String>,
    pub icon: Option<String>,
    pub categories: Option<Vec<String>>,
    pub terminal: bool,
}

pub open spec fn opt_text(s: Option<String>) -> Option<Seq<char>> {
    match s {
        Some(s) => Some(s@),
        None => None,
    }
}

pub open spec fn opt_texts(list: Option<Vec<String>>) -> Option<Seq<Seq<char>>> {
    match list {
        Some(list) => Some(crate::text::texts(list@)),
        None => None,
    }
}

/// Whether one of the names, without regard to case, is one of the others.
pub open spec fn any_common(names: Seq<Seq<char>>, others: Seq<Seq<char>>) -> bool {
    exists|i: int, j: int|
        0 <= i < names.len() && 0 <= j < others.len() && crate::text::lowered(#[trigger] names[i])
            == crate::text::lowered(#[trigger] others[j])
}

/// Whether an entry is to be shown on these desktops: it is an application, is
/// not hidden, and is neither kept for others nor kept from these.
pub open spec fn is_visible(facts: EntryFacts, desktops: Seq<Seq<char>>) -> bool {
    &&& opt_text(facts.kind) == Some("Application"@)
    &&& !facts.hidden
    &&& !facts.no_display
    &&& opt_texts(facts.only_show_in) is Some ==> any_common(
        opt_texts(facts.only_show_in)->0,
        desktops,
    )
    &&& opt_texts(facts.not_show_in) is Some ==> !any_common(
        opt_texts(facts.not_show_in)->0,
        desktops,
    )
}

/// The files that a command may be: the one that it names where it is a path, and
/// otherwise the one of that name in each of the directories.
pub open spec fn executables(command: Seq<char>, executable_path: Seq<char>) -> Seq<Seq<char>> {
    if crate::paths::components(command).len() > 1 {
        seq![command]
    } else {
        let dirs = crate::text::pieces(executable_path, ':');
        Seq::new(dirs.len(), |i: int| crate::paths::joined(dirs[i], command))
    }
}

/// Whether a command was found installed.
pub open spec fn installed<F: Fn(&str) -> bool>(
    is_executable: F,
    command: Seq<char>,
    executable_path: Seq<char>,
    r: bool,
) -> bool {
    exists|found: Option<String>|
        r == found is Some && #[trigger] crate::paths::resolves(
            is_executable,
            executables(command, executable_path),
            found,
        )
}

/// The application that an entry describes.
pub open spec fn described(facts: EntryFacts) -> crate::protocol::Application {
    crate::protocol::Application {
        id: facts.id@,
        name: facts.name->0@,
        icon: if facts.icon is Some && facts.icon->0@.len() > 0 {
            Some(facts.icon->0@)
        } else {
            None
        },
        categories: match facts.categories {
            Some(list) => crate::lists::retained(
                crate::text::texts(list@),
                |category: Seq<char>| category.len() > 0,
            ),
            None => Seq::empty(),
        },
        argv: crate::text::texts(facts.argv->0@),
        terminal: facts.terminal,
    }
}

/// Whether an entry has what an application needs, apart from what is installed.
pub open spec fn is_complete(facts: EntryFacts, desktops: Seq<Seq<char>>) -> bool {
    &&& is_visible(facts, desktops)
    &&& facts.name is Some
    &&& facts.name->0@.len() > 0
    &&& facts.argv is Some
    &&& facts.argv->0@.len() > 0
}

/// What becomes of an entry: an application where it is visible and complete, and
/// the program that it names for a test is installed.
pub open spec fn accepted<F: Fn(&str) -> bool>(
    is_executable: F,
    facts: EntryFacts,
    desktops: Seq<Seq<char>>,
    executable_path: Seq<char>,
    r: Option<App>,
) -> bool {
    if !is_complete(facts, desktops) {
        r is None
    } else {
        &&& r is Some ==> r->0@ == described(facts)
        &&& match facts.try_exec {
            None => r is Some,
            Some(command) => installed(is_executable, command@, executable_path, r is Some),
        }
    }
}

fn lowered_list(list: &Vec<String>) -> (r: Vec<String>)
    ensures
        r@.len() == list@.len(),
        forall|i: int|
            0 <= i < r@.len() ==> (#[trigger] r@[i])@ == crate::text::lowered(list@[i]@),
{
    let mut out: Vec<String> = Vec::new();
    let mut i: usize = 0;
    while i < list.len()
        invariant
            i <= list@.len(),
            out@.len() == i,
            forall|j: int|
                0 <= j < i ==> (#[trigger] out@[j])@ == crate::text::lowered(list@[j]@),
        decreases list@.len() - i,
    {
        let lower = str_to_lowercase(list[i].as_str());
        out.push(lower);
        i += 1;
    }
    out
}

/// Whether one of the names is among the lowercase ones.
fn any_listed(names: &Vec<String>, lowercase: &Vec<String>) -> (r: bool)
    ensures
        r == exists|i: int, j: int|
            0 <= i < names@.len() && 0 <= j < lowercase@.len() && crate::text::lowered(
                (#[trigger] names@[i])@,
            ) == (#[trigger] lowercase@[j])@,
{
    let mut i: usize = 0;
    while i < names.len()
        invariant
            i <= names@.len(),
            forall|a: int, b: int|
                0 <= a < i && 0 <= b < lowercase@.len() ==> crate::text::lowered(
                    (#[trigger] names@[a])@,
                ) != (#[trigger] lowercase@[b])@,
        decreases names@.len() - i,
    {
        let name = str_to_lowercase(names[i].as_str());
        let mut j: usize = 0;
        while j < lowercase.len()
            invariant
                i < names@.len(),
                j <= lowercase@.len(),
                name@ == crate::text::lowered(names@[i as int]@),
                forall|b: int| 0 <= b < j ==> name@ != (#[trigger] lowercase@[b])@,
            decreases lowercase@.len() - j,
        {
            if same_text(name.as_str(), lowercase[j].as_str()) {
                assert(crate::text::lowered(names@[i as int]@) == lowercase@[j as int]@);
                return true;
            }
            j += 1;
        }
        i += 1;
    }
    false
}

/// Whether an entry is to be shown on these desktops.
pub fn entry_is_visible(facts: &EntryFacts, desktops: &Vec<String>) -> (r: bool)
    ensures
        r == is_visible(*facts, crate::text::texts(desktops@)),
{
    let is_application = match &facts.kind {
        Some(kind) => same_text(kind.as_str(), "Application"),
        None => false,
    };
    if !is_application || facts.hidden || facts.no_display {
        return false;
    }
    let current = lowered_list(desktops);
    let ghost shown = crate::text::texts(desktops@);
    assert forall|names: Vec<String>|
        (exists|i: int, j: int|
            0 <= i < names@.len() && 0 <= j < current@.len() && crate::text::lowered(
                (#[trigger] names@[i])@,
            ) == (#[trigger] current@[j])@) == any_common(
            #[trigger] crate::text::texts(names@),
            shown,
        ) by {
        let all = crate::text::texts(names@);
        if any_common(all, shown) {
            let (i, j) = choose|i: int, j: int|
                0 <= i < all.len() && 0 <= j < shown.len() && crate::text::lowered(
                    #[trigger] all[i],
                ) == crate::text::lowered(#[trigger] shown[j]);
            assert(crate::text::lowered(names@[i]@) == current@[j]@);
        }
        if exists|i: int, j: int|
            0 <= i < names@.len() && 0 <= j < current@.len() && crate::text::lowered(
                (#[trigger] names@[i])@,
            ) == (#[trigger] current@[j])@ {
            let (i, j) = choose|i: int, j: int|
                0 <= i < names@.len() && 0 <= j < current@.len() && crate::text::lowered(
                    (#[trigger] names@[i])@,
                ) == (#[trigger] current@[j])@;
            assert(crate::text::lowered(all[i]) == crate::text::lowered(shown[j]));
        }
    }
    if let Some(allowed) = &facts.only_show_in {
        if !any_listed(allowed, &current) {
            return false;
        }
    }
    match &facts.not_show_in {
        Some(denied) => !any_listed(denied, &current),
        None => true,
    }
}

/// Whether a command is installed.
pub fn command_exists<F: Fn(&str) -> bool>(
    candidate: &str,
    executable_path: &str,
    is_executable: &F,
) -> (r: bool)
    requires
        forall|path: &str| call_requires(*is_executable, (path,)),
    ensures
        installed(*is_executable, candidate@, executable_path@, r),
{
    let mut files: Vec<String> = Vec::new();
    let parts = path_components(candidate);
    assert(crate::text::texts(parts@).len() == parts@.len());
    if parts.len() > 1 {
        files.push(candidate.to_owned());
    } else {
        let dirs = split_text(executable_path, ':');
        let ghost all = crate::text::texts(dirs@);
        let mut i: usize = 0;
        while i < dirs.len()
            invariant
                i <= dirs@.len(),
                all == crate::text::texts(dirs@),
                files@.len() == i,
                forall|j: int|
                    0 <= j < i ==> (#[trigger] files@[j])@ == crate::paths::joined(
                        all[j],
                        candidate@,
                    ),
            decreases dirs@.len() - i,
        {
            files.push(join_path(dirs[i].as_str(), candidate));
            i += 1;
        }
    }
    assert(crate::text::texts(files@) =~= executables(candidate@, executable_path@));
    let found = first_file(&files, is_executable);
    found.is_some()
}

fn filled_only(list: &Vec<String>) -> (r: Vec<String>)
    ensures
        crate::text::texts(r@) == crate::lists::retained(
            crate::text::texts(list@),
            |category: Seq<char>| category.len() > 0,
        ),
{
    let ghost all = crate::text::texts(list@);
    let ghost keep = |category: Seq<char>| category.len() > 0;
    let mut out: Vec<String> = Vec::new();
    let mut i: usize = 0;
    assert(crate::text::texts(out@) =~= crate::lists::retained(all.take(0), keep));
    while i < list.len()
        invariant
            i <= list@.len(),
            all == crate::text::texts(list@),
            keep == (|category: Seq<char>| category.len() > 0),
            crate::text::texts(out@) == crate::lists::retained(all.take(i as int), keep),
        decreases list@.len() - i,
    {
        let ghost held = out@;
        let item = &list[i];
        assert(all.take(i as int + 1).drop_last() =~= all.take(i as int));
        assert(all.take(i as int + 1).last() == item@);
        let filled = chars_of(item.as_str()).len() > 0;
        assert(keep(item@) == filled);
        if filled {
            out.push(item.clone());
            assert(crate::text::texts(out@) =~= crate::text::texts(held).push(item@));
        }
        i += 1;
    }
    assert(all.take(list@.len() as int) =~= all);
    out
}

/// The application that an entry stands for, if it is to be offered.
pub fn entry_app<F: Fn(&str) -> bool>(
    facts: &EntryFacts,
    desktops: &Vec<String>,
    executable_path: &str,
    is_executable: &F,
) -> (r: Option<App>)
    requires
        forall|path: &str| call_requires(*is_executable, (path,)),
    ensures
        accepted(*is_executable, *facts, crate::text::texts(desktops@), executable_path@, r),
{
    if !entry_is_visible(facts, desktops) {
        return None;
    }
    let name = match &facts.name {
        Some(name) => name.clone(),
        None => {
            return None;
        },
    };
    let named = chars_of(name.as_str()).len() > 0;
    if !named {
        return None;
    }
    let argv = match &facts.argv {
        Some(argv) => clone_texts(argv),
        None => {
            return None;
        },
    };
    if argv.len() == 0 {
        return None;
    }
    if let Some(command) = &facts.try_exec {
        if !command_exists(command.as_str(), executable_path, is_executable) {
            return None;
        }
    }
    let icon = match &facts.icon {
        Some(icon) => if chars_of(icon.as_str()).len() > 0 {
            Some(icon.clone())
        } else {
            None
        },
        None => None,
    };
    let categories = match &facts.categories {
        Some(list) => filled_only(list),
        None => Vec::new(),
    };
    let app = App { id: facts.id.clone(), name, icon, categories, argv, terminal: facts.terminal };
    assert(app@ =~= described(*facts));
    Some(app)
}

/// `facts` are what an entry says of itself in these locales.
pub open spec fn facts_of(
    entry: DesktopEntry,
    locales: Seq<Seq<char>>,
    facts: EntryFacts,
) -> bool {
    let keys = crate::desktop_entry::entry_keys(entry);
    &&& facts.id@ == crate::desktop_entry::entry_id(entry)
    &&& opt_text(facts.kind) == crate::desktop_entry::value_of(keys, "Type"@)
    &&& facts.hidden == crate::desktop_entry::is_set(keys, "Hidden"@)
    &&& facts.no_display == crate::desktop_entry::is_set(keys, "NoDisplay"@)
    &&& facts.terminal == crate::desktop_entry::is_set(keys, "Terminal"@)
    &&& opt_texts(facts.only_show_in) == split_value(keys, "OnlyShowIn"@)
    &&& opt_texts(facts.not_show_in) == split_value(keys, "NotShowIn"@)
    &&& opt_texts(facts.categories) == split_value(keys, "Categories"@)
    &&& opt_text(facts.icon) == crate::desktop_entry::value_of(keys, "Icon"@)
    &&& opt_text(facts.try_exec) == crate::desktop_entry::value_of(keys, "TryExec"@)
    &&& opt_text(facts.name) == crate::desktop_entry::localized_name(entry, locales)
    &&& facts.argv is Some ==> facts.argv->0@.len() > 0 && !facts.argv->0@[0]@.contains('=')
    &&& opt_texts(facts.argv) == crate::desktop_entry::exec_args(
        crate::desktop_entry::value_of(keys, "Exec"@),
        crate::desktop_entry::value_of(keys, "Icon"@),
        crate::desktop_entry::value_of(keys, "Name"@),
        crate::desktop_entry::entry_path(entry),
    )
}

/// The value of a key as a list.
pub open spec fn split_value(
    keys: Map<Seq<char>, Seq<char>>,
    key: Seq<char>,
) -> Option<Seq<Seq<char>>> {
    if keys.dom().contains(key) {
        Some(crate::text::pieces(keys[key], ';'))
    } else {
        None
    }
}

fn owned(s: Option<&str>) -> (r: Option<String>)
    ensures
        opt_text(r) == crate::text::text_of(s),
{
    match s {
        Some(s) => Some(s.to_owned()),
        None => None,
    }
}

fn owned_list(list: Option<Vec<&str>>) -> (r: Option<Vec<String>>)
    ensures
        opt_texts(r) == (match list {
            Some(list) => Some(crate::desktop_entry::slices(list@)),
            None => None,
        }),
{
    match list {
        None => None,
        Some(list) => {
            let mut out: Vec<String> = Vec::new();
            let mut i: usize = 0;
            while i < list.len()
                invariant
                    i <= list@.len(),
                    out@.len() == i,
                    forall|j: int| 0 <= j < i ==> (#[trigger] out@[j])@ == list@[j]@,
                decreases list@.len() - i,
            {
                out.push(list[i].to_owned());
                i += 1;
            }
            assert(crate::text::texts(out@) =~= crate::desktop_entry::slices(list@));
            Some(out)
        },
    }
}

/// Reads what an entry says of itself.
fn read_facts(entry: &DesktopEntry, locales: &Vec<String>) -> (r: EntryFacts)
    ensures
        facts_of(*entry, crate::text::texts(locales@), r),
{
    let argv = match entry.parse_exec() {
        Ok(argv) => Some(argv),
        Err(_) => None,
    };
    EntryFacts {
        id: entry.id().to_owned(),
        kind: owned(entry.type_()),
        hidden: entry.hidden(),
        no_display: entry.no_display(),
        only_show_in: owned_list(entry.only_show_in()),
        not_show_in: owned_list(entry.not_show_in()),
        name: entry_name(entry, locales),
        argv,
        try_exec: owned(entry.try_exec()),
        icon: owned(entry.icon()),
        categories: owned_list(entry.categories()),
        terminal: entry.terminal(),
    }
}

/// The applications by id, and the files of those icons that were found.
#[verifier::ext_equal]
pub struct Apps {
    pub apps: Map<Seq<char>, crate::protocol::Application>,
    pub icons: Map<Seq<char>, Seq<char>>,
}

/// The file of an application's icon, if it has one.
pub open spec fn icon_found<G: Fn(&str) -> bool>(
    is_file: G,
    data_dirs: Seq<Seq<char>>,
    icon: Option<Seq<char>>,
    r: Option<String>,
) -> bool {
    match icon {
        None => r is None,
        Some(icon) => crate::paths::resolves(is_file, crate::icons::candidates(icon, data_dirs), r),
    }
}

/// `after` is `before` with one more application.
pub open spec fn with_app<G: Fn(&str) -> bool>(
    is_file: G,
    data_dirs: Seq<Seq<char>>,
    before: Apps,
    app: crate::protocol::Application,
    after: Apps,
) -> bool {
    exists|icon: Option<String>|
        {
            &&& #[trigger] icon_found(is_file, data_dirs, app.icon, icon)
            &&& after.apps == before.apps.insert(app.id, app)
            &&& after.icons == (match icon {
                Some(path) => before.icons.insert(app.id, path@),
                None => before.icons,
            })
        }
}

/// What an entry with those facts adds.
pub open spec fn takes_in<F: Fn(&str) -> bool, G: Fn(&str) -> bool>(
    is_executable: F,
    is_file: G,
    facts: EntryFacts,
    desktops: Seq<Seq<char>>,
    executable_path: Seq<char>,
    data_dirs: Seq<Seq<char>>,
    before: Apps,
    after: Apps,
) -> bool {
    exists|app: Option<App>|
        {
            &&& #[trigger] accepted(is_executable, facts, desktops, executable_path, app)
            &&& match app {
                Some(app) => with_app(is_file, data_dirs, before, app@, after),
                None => after == before,
            }
        }
}

/// What a decoded entry adds: nothing where its id is already there.
pub open spec fn takes_entry<F: Fn(&str) -> bool, G: Fn(&str) -> bool>(
    is_executable: F,
    is_file: G,
    entry: DesktopEntry,
    locales: Seq<Seq<char>>,
    desktops: Seq<Seq<char>>,
    executable_path: Seq<char>,
    data_dirs: Seq<Seq<char>>,
    before: Apps,
    after: Apps,
) -> bool {
    if before.apps.dom().contains(crate::desktop_entry::entry_id(entry)) {
        after == before
    } else {
        exists|facts: EntryFacts|
            {
                &&& #[trigger] facts_of(entry, locales, facts)
                &&& takes_in(
                    is_executable,
                    is_file,
                    facts,
                    desktops,
                    executable_path,
                    data_dirs,
                    before,
                    after,
                )
            }
    }
}

/// What a file adds: nothing where it cannot be decoded.
pub open spec fn takes_file<F: Fn(&str) -> bool, G: Fn(&str) -> bool>(
    is_executable: F,
    is_file: G,
    file: EntryFile,
    locales: Seq<Seq<char>>,
    desktops: Seq<Seq<char>>,
    executable_path: Seq<char>,
    data_dirs: Seq<Seq<char>>,
    before: Apps,
    after: Apps,
) -> bool {
    match crate::desktop_entry::decoded(file.path@, file.text@, locales) {
        None => after == before,
        Some(entry) => takes_entry(
            is_executable,
            is_file,
            entry,
            locales,
            desktops,
            executable_path,
            data_dirs,
            before,
            after,
        ),
    }
}

/// The applications after each of the files: the index starts empty, and every
/// file adds what it adds.
pub open spec fn load_steps<F: Fn(&str) -> bool, G: Fn(&str) -> bool>(
    is_executable: F,
    is_file: G,
    files: Seq<EntryFile>,
    locales: Seq<Seq<char>>,
    desktops: Seq<Seq<char>>,
    executable_path: Seq<char>,
    data_dirs: Seq<Seq<char>>,
    steps: Seq<Apps>,
) -> bool {
    &&& steps.len() == files.len() + 1
    &&& steps[0] == (Apps { apps: Map::empty(), icons: Map::empty() })
    &&& forall|i: int|
        0 <= i < files.len() ==> #[trigger] takes_file(
            is_executable,
            is_file,
            files[i],
            locales,
            desktops,
            executable_path,
            data_dirs,
            steps[i],
            steps[i + 1],
        )
}

/// The applications of a list by id; of two with one id the later counts.
pub open spec fn by_id(list: Seq<App>) -> Map<Seq<char>, crate::protocol::Application>
    decreases list.len(),
{
    if list.len() == 0 {
        Map::empty()
    } else {
        by_id(list.drop_last()).insert(list.last().id@, list.last()@)
    }
}

/// The order of the list: by name without regard to case, and by id among the
/// same names.
pub open spec fn comes_before(
    a: crate::protocol::Application,
    b: crate::protocol::Application,
) -> bool {
    let first = crate::text::lowered(a.name);
    let second = crate::text::lowered(b.name);
    crate::text::text_before(first, second) || (first == second && crate::text::text_before(
        a.id,
        b.id,
    ))
}

/// What an application is sorted by.
pub open spec fn app_key(app: crate::protocol::Application) -> (Seq<char>, Seq<char>) {
    (crate::text::lowered(app.name), app.id)
}

/// `list` holds the applications of `map`, each once, in their order.
pub open spec fn lists_apps(
    map: Map<Seq<char>, crate::protocol::Application>,
    list: Seq<App>,
) -> bool {
    &&& list.len() == map.dom().len()
    &&& forall|i: int, j: int|
        0 <= i < j < list.len() ==> comes_before((#[trigger] list[i])@, (#[trigger] list[j])@)
    &&& forall|i: int|
        0 <= i < list.len() ==> map.dom().contains((#[trigger] list[i])@.id)
            && map[list[i]@.id] == list[i]@
    &&& forall|k: Seq<char>| #[trigger]
        map.dom().contains(k) ==> exists|i: int| 0 <= i < list.len() && (#[trigger] list[i])@.id == k
}

/// The applications that can be started.
pub struct AppIndex {
    apps: SortedMap<String, App>,
    icons: SortedMap<String, String>,
}

impl View for AppIndex {
    type V = Apps;

    closed spec fn view(&self) -> Apps {
        Apps {
            apps: self.apps@.map_values(|app: App| app@),
            icons: self.icons@.map_values(|path: String| path@),
        }
    }
}

impl AppIndex {
    /// Every application stands under its own id.
    pub closed spec fn wf(&self) -> bool {
        &&& self.apps.wf()
        &&& self.icons.wf()
        &&& forall|k: Seq<char>| #[trigger]
            self.apps@.dom().contains(k) ==> self.apps@[k].id@ == k
    }

    fn empty() -> (r: Self)
        ensures
            r.wf(),
            r@ == (Apps { apps: Map::empty(), icons: Map::empty() }),
    {
        let r = AppIndex { apps: SortedMap::new(), icons: SortedMap::new() };
        assert(r@.apps =~= Map::empty());
        assert(r@.icons =~= Map::empty());
        r
    }

    fn put(&mut self, app: App)
        requires
            old(self).wf(),
        ensures
            final(self).wf(),
            final(self)@.apps == old(self)@.apps.insert(app.id@, app@),
            final(self)@.icons == old(self)@.icons,
    {
        let id = app.id.clone();
        self.apps.insert(id, app);
        assert(self@.apps =~= old(self)@.apps.insert(app.id@, app@));
    }

    /// The index of a list of applications, none of them with a file for its icon.
    pub fn from_apps(apps: Vec<App>) -> (r: Self)
        ensures
            r.wf(),
            r@.apps == by_id(apps@),
            r@.icons == Map::<Seq<char>, Seq<char>>::empty(),
    {
        let mut index = AppIndex::empty();
        let ghost all = apps@;
        let mut apps = apps;
        let mut i: usize = 0;
        let n = apps.len();
        while i < n
            invariant
                i <= n,
                n == all.len(),
                apps@ == all,
                index.wf(),
                index@.apps == by_id(all.take(i as int)),
                index@.icons == Map::<Seq<char>, Seq<char>>::empty(),
            decreases n - i,
        {
            index.put(apps[i].clone());
            assert(all.take(i as int + 1).drop_last() =~= all.take(i as int));
            i += 1;
        }
        assert(all.take(n as int) =~= all);
        index
    }

    /// The index of the applications that a list of desktop files describes; of
    /// several with one id the first one that is to be offered counts.
    pub fn load_from_paths<F: Fn(&str) -> bool, G: Fn(&str) -> bool>(
        files: &Vec<EntryFile>,
        locales: &Vec<String>,
        desktops: &Vec<String>,
        executable_path: &str,
        data_dirs: &Vec<String>,
        is_executable: &F,
        is_file: &G,
    ) -> (r: Self)
        requires
            forall|path: &str| call_requires(*is_executable, (path,)),
            forall|path: &str| call_requires(*is_file, (path,)),
        ensures
            r.wf(),
            exists|steps: Seq<Apps>| #[trigger]
                load_steps(
                    *is_executable,
                    *is_file,
                    files@,
                    crate::text::texts(locales@),
                    crate::text::texts(desktops@),
                    executable_path@,
                    crate::text::texts(data_dirs@),
                    steps,
                ) && r@ == steps.last(),
    {
        let mut index = AppIndex::empty();
        let ghost mut steps: Seq<Apps> = seq![index@];
        let mut i: usize = 0;
        while i < files.len()
            invariant
                i <= files@.len(),
                index.wf(),
                steps.len() == i + 1,
                steps.last() == index@,
                forall|path: &str| call_requires(*is_executable, (path,)),
                forall|path: &str| call_requires(*is_file, (path,)),
                load_steps(
                    *is_executable,
                    *is_file,
                    files@.take(i as int),
                    crate::text::texts(locales@),
                    crate::text::texts(desktops@),
                    executable_path@,
                    crate::text::texts(data_dirs@),
                    steps,
                ),
            decreases files@.len() - i,
        {
            let ghost before = index@;
            index.take_file(
                &files[i],
                locales,
                desktops,
                executable_path,
                data_dirs,
                is_executable,
                is_file,
            );
            proof {
                let next = steps.push(index@);
                assert forall|j: int| 0 <= j < i + 1 implies #[trigger] takes_file(
                    *is_executable,
                    *is_file,
                    files@.take(i as int + 1)[j],
                    crate::text::texts(locales@),
                    crate::text::texts(desktops@),
                    executable_path@,
                    crate::text::texts(data_dirs@),
                    next[j],
                    next[j + 1],
                ) by {
                    if j < i {
                        assert(takes_file(
                            *is_executable,
                            *is_file,
                            files@.take(i as int)[j],
                            crate::text::texts(locales@),
                            crate::text::texts(desktops@),
                            executable_path@,
                            crate::text::texts(data_dirs@),
                            steps[j],
                            steps[j + 1],
                        ));
                    }
                }
                steps = next;
            }
            i += 1;
        }
        assert(files@.take(files@.len() as int) =~= files@);
        index
    }

    fn take_file<F: Fn(&str) -> bool, G: Fn(&str) -> bool>(
        &mut self,
        file: &EntryFile,
        locales: &Vec<String>,
        desktops: &Vec<String>,
        executable_path: &str,
        data_dirs: &Vec<String>,
        is_executable: &F,
        is_file: &G,
    )
        requires
            old(self).wf(),
            forall|path: &str| call_requires(*is_executable, (path,)),
            forall|path: &str| call_requires(*is_file, (path,)),
        ensures
            final(self).wf(),
            takes_file(
                *is_executable,
                *is_file,
                *file,
                crate::text::texts(locales@),
                crate::text::texts(desktops@),
                executable_path@,
                crate::text::texts(data_dirs@),
                old(self)@,
                final(self)@,
            ),
    {
        let entry = match decode_entry(file.path.as_str(), file.text.as_str(), locales) {
            Some(entry) => entry,
            None => {
                return ;
            },
        };
        if self.apps.contains_key(&entry.id().to_owned()) {
            return ;
        }
        let facts = read_facts(&entry, locales);
        let ghost before = self@;
        let app = entry_app(&facts, desktops, executable_path, is_executable);
        let ghost offered = app;
        match app {
            None => {},
            Some(app) => {
                let ghost shown = app@;
                let icon = match &app.icon {
                    Some(icon) => resolve_icon(icon.as_str(), data_dirs, is_file),
                    None => None,
                };
                assert(icon_found(*is_file, crate::text::texts(data_dirs@), shown.icon, icon));
                let id = app.id.clone();
                self.put(app);
                let ghost middle = self@;
                if let Some(path) = icon {
                    self.icons.insert(id, path);
                    assert(self@.icons =~= middle.icons.insert(id@, path@));
                }
                assert(with_app(
                    *is_file,
                    crate::text::texts(data_dirs@),
                    before,
                    shown,
                    self@,
                ));
            },
        }
        assert(takes_in(
            *is_executable,
            *is_file,
            facts,
            crate::text::texts(desktops@),
            executable_path@,
            crate::text::texts(data_dirs@),
            before,
            self@,
        ));
    }

    pub fn get(&self, id: &str) -> (r: Option<&App>)
        requires
            self.wf(),
        ensures
            match r {
                Some(app) => self@.apps.dom().contains(id@) && app@ == self@.apps[id@],
                None => !self@.apps.dom().contains(id@),
            },
    {
        self.apps.get(&id.to_owned())
    }

    /// The file of an application's icon.
    pub fn icon_path(&self, id: &str) -> (r: Option<&String>)
        requires
            self.wf(),
        ensures
            match r {
                Some(path) => self@.icons.dom().contains(id@) && path@ == self@.icons[id@],
                None => !self@.icons.dom().contains(id@),
            },
    {
        self.icons.get(&id.to_owned())
    }

    /// The applications in the order of their names.
    pub fn list(&self) -> (r: Vec<App>)
        requires
            self.wf(),
        ensures
            lists_apps(self@.apps, r@),
    {
        let mut sorted: SortedMap<(String, String), App> = SortedMap::new();
        let ghost rows = self.apps.rows();
        proof {
            self.apps.lemma_rows();
            assert forall|j: int| 0 <= j < rows.len() implies (#[trigger] rows[j]).1.id@
                == rows[j].0@ by {
                assert(self.apps@.dom().contains(rows[j].0@));
            }
        }
        let mut i: usize = 0;
        while i < self.apps.len()
            invariant
                i <= rows.len(),
                rows == self.apps.rows(),
                crate::sorted_map::sorted_rows(rows),
                forall|j: int| 0 <= j < rows.len() ==> (#[trigger] rows[j]).1.id@ == rows[j].0@,
                sorted.wf(),
                sorted@.dom().finite(),
                sorted@.dom().len() == i,
                forall|k: (Seq<char>, Seq<char>)| #[trigger]
                    sorted@.dom().contains(k) ==> app_key(sorted@[k]@) == k && exists|j: int|
                        0 <= j < i && sorted@[k]@ == (#[trigger] rows[j]).1@,
                forall|j: int|
                    0 <= j < i ==> sorted@.dom().contains(app_key((#[trigger] rows[j]).1@)),
            decreases rows.len() - i,
        {
            let app = self.apps.value_at(i).clone();
            let ghost before = sorted@;
            let key = (str_to_lowercase(app.name.as_str()), app.id.clone());
            let ghost k = app_key(app@);
            proof {
                if before.dom().contains(k) {
                    let j = choose|j: int| 0 <= j < i && before[k]@ == (#[trigger] rows[j]).1@;
                    assert(crate::sorted_map::row_has(rows, j, rows[i as int].0@));
                    crate::sorted_map::lemma_row(rows, i as int);
                }
                assert(!before.dom().contains(k));
            }
            sorted.insert(key, app);
            assert(sorted@ == before.insert(k, app));
            assert(sorted@[k]@ == rows[i as int].1@);
            i += 1;
        }
        let ghost ordered = sorted.rows();
        proof {
            sorted.lemma_rows();
        }
        let mut out: Vec<App> = Vec::new();
        let mut j: usize = 0;
        while j < sorted.len()
            invariant
                j <= ordered.len(),
                ordered == sorted.rows(),
                out@.len() == j,
                forall|x: int| 0 <= x < j ==> (#[trigger] out@[x])@ == ordered[x].1@,
            decreases ordered.len() - j,
        {
            out.push(sorted.value_at(j).clone());
            j += 1;
        }
        proof {
            assert(self@.apps.dom() =~= self.apps@.dom());
            assert forall|x: int| 0 <= x < ordered.len() implies ((#[trigger] ordered[x]).0.0@,
                ordered[x].0.1@) == app_key(out@[x]@) by {
                assert(sorted@.dom().contains((ordered[x].0.0@, ordered[x].0.1@)));
            }
            assert forall|x: int, y: int| 0 <= x < y < out@.len() implies comes_before(
                (#[trigger] out@[x])@,
                (#[trigger] out@[y])@,
            ) by {
                let _ = (ordered[x], ordered[y]);
            }
            assert forall|x: int| 0 <= x < out@.len() implies self@.apps.dom().contains(
                (#[trigger] out@[x])@.id,
            ) && self@.apps[out@[x]@.id] == out@[x]@ by {
                let k = (ordered[x].0.0@, ordered[x].0.1@);
                assert(sorted@.dom().contains(k));
                let r = choose|r: int| 0 <= r < rows.len() && sorted@[k]@ == (#[trigger] rows[r]).1@;
                assert(self.apps@.dom().contains(rows[r].0@));
            }
            assert forall|k: Seq<char>| #[trigger] self@.apps.dom().contains(k) implies exists|x: int|
                0 <= x < out@.len() && (#[trigger] out@[x])@.id == k by {
                assert(self.apps@.dom().contains(k));
                let r = choose|r: int| crate::sorted_map::row_has(rows, r, k);
                assert(crate::sorted_map::row_has(rows, r, k));
                let key = app_key(rows[r].1@);
                assert(sorted@.dom().contains(key));
                let x = choose|x: int| crate::sorted_map::row_has(ordered, x, key);
                assert(crate::sorted_map::row_has(ordered, x, key));
                assert(out@[x]@.id == k);
            }
        }
        out
    }

    pub fn len(&self) -> (r: usize)
        requires
            self.wf(),
        ensures
            r == self@.apps.dom().len(),
    {
        proof {
            self.apps.lemma_rows();
            assert(self@.apps.dom() =~= self.apps@.dom());
        }
        self.apps.len()
    }

    pub fn is_empty(&self) -> (r: bool)
        requires
            self.wf(),
        ensures
            r == (self@.apps == Map::<Seq<char>, crate::protocol::Application>::empty()),
    {
        proof {
            self.apps.lemma_rows();
            assert(self@.apps.dom() =~= self.apps@.dom());
            if self.apps.rows().len() == 0 {
                assert(self@.apps =~= Map::empty());
            }
        }
        self.apps.len() == 0
    }
}

/// An application stays what it is in the index: the first file that describes it
/// wins over all later ones with the same id.
pub proof fn law_first_entry_wins<F: Fn(&str) -> bool, G: Fn(&str) -> bool>(
    is_executable: F,
    is_file: G,
    files: Seq<EntryFile>,
    locales: Seq<Seq<char>>,
    desktops: Seq<Seq<char>>,
    executable_path: Seq<char>,
    data_dirs: Seq<Seq<char>>,
    steps: Seq<Apps>,
    i: int,
    j: int,
    id: Seq<char>,
)
    requires
        load_steps(
            is_executable,
            is_file,
            files,
            locales,
            desktops,
            executable_path,
            data_dirs,
            steps,
        ),
        0 <= i <= j < steps.len(),
        steps[i].apps.dom().contains(id),
    ensures
        steps[j].apps.dom().contains(id),
        steps[j].apps[id] == steps[i].apps[id],
    decreases j - i,
{
    if i < j {
        law_first_entry_wins(
            is_executable,
            is_file,
            files,
            locales,
            desktops,
            executable_path,
            data_dirs,
            steps,
            i,
            j - 1,
            id,
        );
        assert(takes_file(
            is_executable,
            is_file,
            files[j - 1],
            locales,
            desktops,
            executable_path,
            data_dirs,
            steps[j - 1],
            steps[j - 1 + 1],
        ));
    }
}

/// Only what is visible, has a name and has a command line gets into the index,
/// under the id of its own file.
pub proof fn law_only_complete_entries_are_offered<F: Fn(&str) -> bool, G: Fn(&str) -> bool>(
    is_executable: F,
    is_file: G,
    file: EntryFile,
    locales: Seq<Seq<char>>,
    desktops: Seq<Seq<char>>,
    executable_path: Seq<char>,
    data_dirs: Seq<Seq<char>>,
    before: Apps,
    after: Apps,
)
    requires
        takes_file(
            is_executable,
            is_file,
            file,
            locales,
            desktops,
            executable_path,
            data_dirs,
            before,
            after,
        ),
        after != before,
    ensures
        ({
            let entry = crate::desktop_entry::decoded(file.path@, file.text@, locales);
            &&& entry is Some
            &&& !before.apps.dom().contains(crate::desktop_entry::entry_id(entry->0))
            &&& exists|facts: EntryFacts| #[trigger]
                facts_of(entry->0, locales, facts) && is_complete(facts, desktops)
                    && after.apps == before.apps.insert(facts.id@, described(facts))
        }),
{
}


/// An entry is shown on the desktops that it is meant for. One that is hidden, is
/// no application, is kept from a desktop, or is kept for others is not shown.
pub proof fn law_entry_is_shown_where_it_belongs(
    facts: EntryFacts,
    desktops: Seq<Seq<char>>,
    i: int,
    j: int,
)
    ensures
        is_visible(facts, desktops) ==> facts.kind is Some && facts.kind->0@ == "Application"@
            && !facts.hidden && !facts.no_display,
        facts.not_show_in is Some && 0 <= i < facts.not_show_in->0@.len() && 0 <= j
            < desktops.len() && facts.not_show_in->0@[i]@ == desktops[j] ==> !is_visible(
            facts,
            desktops,
        ),
        facts.only_show_in is Some && facts.only_show_in->0@.len() == 0 ==> !is_visible(
            facts,
            desktops,
        ),
        facts.only_show_in is Some && desktops.len() == 0 ==> !is_visible(facts, desktops),
        facts.kind is Some && facts.kind->0@ == "Application"@ && !facts.hidden && !facts.no_display
            && facts.not_show_in is None && facts.only_show_in is None ==> is_visible(
            facts,
            desktops,
        ),
        facts.kind is Some && facts.kind->0@ == "Application"@ && !facts.hidden && !facts.no_display
            && facts.not_show_in is None && facts.only_show_in is Some && 0 <= i
            < facts.only_show_in->0@.len() && 0 <= j < desktops.len()
            && facts.only_show_in->0@[i]@ == desktops[j] ==> is_visible(facts, desktops),
{
    if facts.not_show_in is Some && 0 <= i < facts.not_show_in->0@.len() && 0 <= j < desktops.len()
        && facts.not_show_in->0@[i]@ == desktops[j] {
        let names = crate::text::texts(facts.not_show_in->0@);
        assert(crate::text::lowered(names[i]) == crate::text::lowered(desktops[j]));
        assert(any_common(names, desktops));
    }
    if facts.only_show_in is Some && 0 <= i < facts.only_show_in->0@.len() && 0 <= j
        < desktops.len() && facts.only_show_in->0@[i]@ == desktops[j] {
        let names = crate::text::texts(facts.only_show_in->0@);
        assert(crate::text::lowered(names[i]) == crate::text::lowered(desktops[j]));
        assert(any_common(names, desktops));
    }
}

/// The case of a desktop's name does not matter, and nothing else about it does
/// not: two ASCII names are the same desktop exactly where they differ in nothing
/// but the case of letters.
pub proof fn law_desktops_are_told_apart_by_their_letters(a: Seq<char>, b: Seq<char>)
    requires
        crate::text::is_ascii_text(a),
        crate::text::is_ascii_text(b),
    ensures
        any_common(seq![a], seq![b]) <==> a.len() == b.len() && forall|i: int|
            0 <= i < a.len() ==> (#[trigger] a[i] == b[i] || ('A' <= a[i] <= 'Z' && b[i] as u32
                == a[i] as u32 + 32) || ('A' <= b[i] <= 'Z' && a[i] as u32 == b[i] as u32 + 32)),
{
    let x = crate::text::lowered(a);
    let y = crate::text::lowered(b);
    if any_common(seq![a], seq![b]) {
        assert(x == y);
        assert forall|i: int| 0 <= i < a.len() implies (#[trigger] a[i] == b[i] || ('A' <= a[i]
            <= 'Z' && b[i] as u32 == a[i] as u32 + 32) || ('A' <= b[i] <= 'Z' && a[i] as u32
            == b[i] as u32 + 32)) by {
            assert(x[i] == y[i]);
        }
    }
    if a.len() == b.len() && forall|i: int|
        0 <= i < a.len() ==> (#[trigger] a[i] == b[i] || ('A' <= a[i] <= 'Z' && b[i] as u32
            == a[i] as u32 + 32) || ('A' <= b[i] <= 'Z' && a[i] as u32 == b[i] as u32 + 32)) {
        assert forall|i: int| 0 <= i < x.len() implies x[i] == y[i] by {
            assert(a[i] == b[i] || ('A' <= a[i] <= 'Z' && b[i] as u32 == a[i] as u32 + 32) || ('A'
                <= b[i] <= 'Z' && a[i] as u32 == b[i] as u32 + 32));
        }
        assert(x =~= y);
        assert(seq![a][0] == a && seq![b][0] == b);
        assert(crate::text::lowered(seq![a][0]) == crate::text::lowered(seq![b][0]));
    }
}

/// An application is what its entry says: its id and its name, the program and
/// every argument in their places, and the categories that are not empty in their
/// order.
pub proof fn law_application_is_what_its_entry_says<F: Fn(&str) -> bool>(
    is_executable: F,
    facts: EntryFacts,
    desktops: Seq<Seq<char>>,
    executable_path: Seq<char>,
    app: App,
) -> (places: Seq<int>)
    requires
        accepted(is_executable, facts, desktops, executable_path, Some(app)),
    ensures
        app.id@ == facts.id@,
        facts.name is Some && app.name@ == facts.name->0@ && app.name@.len() > 0,
        facts.argv is Some && app.argv@.len() == facts.argv->0@.len() && app.argv@.len() > 0,
        forall|i: int| 0 <= i < app.argv@.len() ==> (#[trigger] app.argv@[i])@ == facts.argv->0@[i]@,
        app.terminal == facts.terminal,
        app.icon is Some ==> facts.icon is Some && app.icon->0@ == facts.icon->0@
            && app.icon->0@.len() > 0,
        app.icon is None ==> facts.icon is None || facts.icon->0@.len() == 0,
        facts.categories is None ==> app.categories@.len() == 0,
        facts.categories is Some ==> crate::lists::comes_from(
            crate::text::texts(app.categories@),
            crate::text::texts(facts.categories->0@),
            places,
        ),
        forall|i: int| 0 <= i < app.categories@.len() ==> (#[trigger] app.categories@[i])@.len() > 0,
        facts.categories is Some ==> forall|i: int|
            0 <= i < facts.categories->0@.len() && (#[trigger] facts.categories->0@[i])@.len() > 0
                ==> crate::text::texts(app.categories@).contains(facts.categories->0@[i]@),
{
    let shown = app@;
    assert(shown == described(facts));
    assert(crate::text::texts(app.argv@) == crate::text::texts(facts.argv->0@));
    assert(crate::text::texts(app.argv@).len() == app.argv@.len());
    assert(crate::text::texts(facts.argv->0@).len() == facts.argv->0@.len());
    assert forall|i: int| 0 <= i < app.argv@.len() implies (#[trigger] app.argv@[i])@
        == facts.argv->0@[i]@ by {
        assert(crate::text::texts(app.argv@)[i] == crate::text::texts(facts.argv->0@)[i]);
    }
    let held = crate::text::texts(app.categories@);
    assert(held.len() == app.categories@.len());
    if facts.categories is Some {
        let keep = |category: Seq<char>| category.len() > 0;
        let all = crate::text::texts(facts.categories->0@);
        let places = crate::lists::lemma_retained(all, keep);
        assert(held == crate::lists::retained(all, keep));
        assert forall|i: int| 0 <= i < app.categories@.len() implies (
        #[trigger] app.categories@[i])@.len() > 0 by {
            assert(keep(held[i]));
        }
        assert forall|i: int|
            0 <= i < facts.categories->0@.len() && (#[trigger] facts.categories->0@[i])@.len()
                > 0 implies held.contains(facts.categories->0@[i]@) by {
            assert(keep(all[i]));
        }
        places
    } else {
        Seq::empty()
    }
}

/// A program without a separator in its name is looked for in every directory of
/// the search path and nowhere else; one with an absolute path is looked for there
/// alone.
pub proof fn law_program_is_looked_for_on_the_path<F: Fn(&str) -> bool>(
    is_executable: F,
    there: spec_fn(Seq<char>) -> bool,
    command: Seq<char>,
    executable_path: Seq<char>,
    r: bool,
    i: int,
)
    requires
        forall|asked: &str, answer: bool| #[trigger]
            call_ensures(is_executable, (asked,), answer) ==> answer == there(asked@),
        installed(is_executable, command, executable_path, r),
        command.len() > 0,
    ensures
        !command.contains('/') && 0 <= i < crate::text::pieces(executable_path, ':').len() && there(
            crate::paths::joined(crate::text::pieces(executable_path, ':')[i], command),
        ) ==> r,
        !command.contains('/') && r ==> is_on_path(there, command, executable_path),
        command[0] == '/' && command.len() > 1 && !command.skip(1).contains('/') && command.skip(1)
            != seq!['.'] ==> r == there(command),
{
    let found = choose|found: Option<String>|
        r == found is Some && #[trigger] crate::paths::resolves(
            is_executable,
            executables(command, executable_path),
            found,
        );
    let files = executables(command, executable_path);
    let dirs = crate::text::pieces(executable_path, ':');
    crate::paths::law_components_are_the_names_of_a_path(Seq::empty(), seq!['x']);
    if !command.contains('/') {
        crate::paths::law_components_are_the_names_of_a_path(seq!['/'], command);
        assert(crate::paths::components(command).len() == 1);
        assert(files.len() == dirs.len());
        if 0 <= i < dirs.len() && there(crate::paths::joined(dirs[i], command)) {
            assert(files[i] == crate::paths::joined(dirs[i], command));
            crate::paths::law_first_file_is_found(is_executable, there, files, found, i);
        }
        if r {
            let k = choose|k: int| #[trigger]
                crate::paths::is_first(is_executable, files, k) && files[k] == found->0@;
            assert(there(files[k]));
            assert(files[k] == crate::paths::joined(dirs[k], command));
            assert(is_on_path(there, command, executable_path));
        }
    }
    if command[0] == '/' && command.len() > 1 && !command.skip(1).contains('/') && command.skip(1)
        != seq!['.'] {
        let name = command.skip(1);
        reveal_strlit("/");
        let keep = |part: Seq<char>| crate::paths::counts(part);
        let none = Seq::<char>::empty();
        crate::text::law_pieces_stand_between_separators(none, name, '/');
        crate::text::law_pieces_stand_between_separators(name, name, '/');
        assert(none.push('/') + name =~= command);
        assert(crate::text::pieces(command, '/') =~= seq![none].push(name));
        crate::lists::lemma_retained_push(seq![none], name, keep);
        reveal_strlit(".");
        assert("."@ =~= seq!['.']);
        assert(keep(name));
        assert(crate::paths::components(command).len() > 1);
        assert(files =~= seq![command]);
        if there(command) {
            crate::paths::law_first_file_is_found(is_executable, there, files, found, 0);
        }
        if r {
            let k = choose|k: int| #[trigger]
                crate::paths::is_first(is_executable, files, k) && files[k] == found->0@;
            assert(there(files[k]));
        }
    }
}

/// Whether a program lies in one of the directories of a search path.
pub open spec fn is_on_path(
    there: spec_fn(Seq<char>) -> bool,
    command: Seq<char>,
    executable_path: Seq<char>,
) -> bool {
    exists|i: int|
        0 <= i < crate::text::pieces(executable_path, ':').len() && there(
            crate::paths::joined(#[trigger] crate::text::pieces(executable_path, ':')[i], command),
        )
}

/// What a desktop file adds is what its keys say. One that is hidden or not to be
/// displayed adds nothing, and what it adds has the id of the entry and the values
/// of `Terminal` and `Icon`.
pub proof fn law_file_adds_what_its_keys_say<F: Fn(&str) -> bool, G: Fn(&str) -> bool>(
    is_executable: F,
    is_file: G,
    file: EntryFile,
    locales: Seq<Seq<char>>,
    desktops: Seq<Seq<char>>,
    executable_path: Seq<char>,
    data_dirs: Seq<Seq<char>>,
    before: Apps,
    after: Apps,
    key: Seq<char>,
)
    requires
        takes_file(
            is_executable,
            is_file,
            file,
            locales,
            desktops,
            executable_path,
            data_dirs,
            before,
            after,
        ),
        crate::desktop_entry::decoded(file.path@, file.text@, locales) is Some,
    ensures
        ({
            let entry = crate::desktop_entry::decoded(file.path@, file.text@, locales)->0;
            let id = crate::desktop_entry::entry_id(entry);
            let keys = crate::desktop_entry::entry_keys(entry);
            let app = after.apps[id];
            &&& key == "Hidden"@ || key == "NoDisplay"@ ==> keys.dom().contains(key) && keys[key]
                == "true"@ ==> after == before
            &&& !keys.dom().contains("Type"@) || keys["Type"@] != "Application"@ ==> after == before
            &&& !keys.dom().contains("Name"@) ==> after == before
            &&& key != id ==> after.apps.dom().contains(key) == before.apps.dom().contains(key)
                && (before.apps.dom().contains(key) ==> after.apps[key] == before.apps[key])
            &&& key != id ==> after.icons.dom().contains(key) == before.icons.dom().contains(key)
                && (before.icons.dom().contains(key) ==> after.icons[key] == before.icons[key])
            &&& after != before ==> after.apps.dom().contains(id) && app.id == id
            &&& after != before ==> (app.terminal <==> keys.dom().contains("Terminal"@)
                && keys["Terminal"@] == "true"@)
            &&& after != before && app.icon is Some ==> keys.dom().contains("Icon"@) && app.icon->0
                == keys["Icon"@]
            &&& after != before && app.icon is None ==> !keys.dom().contains("Icon"@)
                || keys["Icon"@].len() == 0
            &&& after != before && crate::desktop_entry::entry_translations(entry).dom()
                =~= Set::empty() ==> app.name == keys["Name"@]
        }),
{
    let entry = crate::desktop_entry::decoded(file.path@, file.text@, locales)->0;
    let none = crate::desktop_entry::entry_translations(entry);
    if none.dom() =~= Set::empty() {
        lemma_nothing_is_translated(none, "Name"@, locales);
    }
}

proof fn lemma_nothing_is_translated(
    translations: Map<(Seq<char>, Seq<char>), Seq<char>>,
    key: Seq<char>,
    locales: Seq<Seq<char>>,
)
    requires
        translations.dom() == Set::<(Seq<char>, Seq<char>)>::empty(),
    ensures
        crate::desktop_entry::translated(translations, key, locales) is None,
    decreases locales.len(),
{
    if locales.len() > 0 {
        lemma_nothing_is_translated(translations, key, locales.drop_first());
    }
}

/// The icon of a new application is the first file among its places; an
/// application without one has no file.
pub proof fn law_icon_file_is_the_first_found<G: Fn(&str) -> bool>(
    is_file: G,
    there: spec_fn(Seq<char>) -> bool,
    data_dirs: Seq<Seq<char>>,
    before: Apps,
    app: crate::protocol::Application,
    after: Apps,
    i: int,
)
    requires
        forall|asked: &str, answer: bool| #[trigger]
            call_ensures(is_file, (asked,), answer) ==> answer == there(asked@),
        with_app(is_file, data_dirs, before, app, after),
        !before.icons.dom().contains(app.id),
    ensures
        after.apps.dom().contains(app.id) && after.apps[app.id] == app,
        app.icon is None ==> after.icons == before.icons,
        after.icons.dom().contains(app.id) ==> app.icon is Some && there(after.icons[app.id])
            && crate::icons::candidates(app.icon->0, data_dirs).contains(after.icons[app.id]),
        app.icon is Some && 0 <= i < crate::icons::candidates(app.icon->0, data_dirs).len()
            && there(crate::icons::candidates(app.icon->0, data_dirs)[i])
            ==> after.icons.dom().contains(app.id) && crate::icons::candidates(
            app.icon->0,
            data_dirs,
        ).take(i + 1).contains(after.icons[app.id]),
{
    let icon = choose|icon: Option<String>|
        {
            &&& #[trigger] icon_found(is_file, data_dirs, app.icon, icon)
            &&& after.apps == before.apps.insert(app.id, app)
            &&& after.icons == (match icon {
                Some(path) => before.icons.insert(app.id, path@),
                None => before.icons,
            })
        };
    if app.icon is Some {
        let files = crate::icons::candidates(app.icon->0, data_dirs);
        if 0 <= i < files.len() && there(files[i]) {
            crate::paths::law_first_file_is_found(is_file, there, files, icon, i);
        }
        if icon is Some {
            let k = choose|k: int| #[trigger]
                crate::paths::is_first(is_file, files, k) && files[k] == icon->0@;
            assert(there(files[k]));
        }
    }
}

/// The list of applications goes by name without regard to case, and by id among
/// the same names. Every application is in it once.
pub proof fn law_list_goes_by_name(
    map: Map<Seq<char>, crate::protocol::Application>,
    list: Seq<App>,
    i: int,
    j: int,
)
    requires
        lists_apps(map, list),
        0 <= i < j < list.len(),
    ensures
        list[i].id@ != list[j].id@,
        !crate::text::text_before(
            crate::text::lowered(list[j].name@),
            crate::text::lowered(list[i].name@),
        ),
        crate::text::lowered(list[i].name@) == crate::text::lowered(list[j].name@)
            ==> crate::text::text_before(list[i].id@, list[j].id@),
        map.dom().contains(list[i].id@) && map[list[i].id@] == list[i]@,
{
    let a = crate::text::lowered(list[i].name@);
    let b = crate::text::lowered(list[j].name@);
    assert(comes_before(list[i]@, list[j]@));
    if crate::text::text_before(a, b) && crate::text::text_before(b, a) {
        crate::text::lemma_text_before_transitive(a, b, a);
        crate::text::lemma_text_before_irreflexive(a);
    }
    crate::text::lemma_text_before_irreflexive(a);
    crate::text::lemma_text_before_irreflexive(list[i].id@);
    assert(map[list[i]@.id] == list[i]@);
    assert(map[list[j]@.id] == list[j]@);
}

/// Of several applications of a list with one id the last one counts, and nothing
/// else is in the index.
pub proof fn law_last_of_an_id_counts(list: Seq<App>, i: int, id: Seq<char>)
    ensures
        0 <= i < list.len() && list[i].id@ == id && (forall|j: int|
            i < j < list.len() ==> (#[trigger] list[j]).id@ != id) ==> by_id(list).dom().contains(id)
            && by_id(list)[id] == list[i]@,
        (forall|j: int| 0 <= j < list.len() ==> (#[trigger] list[j]).id@ != id) ==> !by_id(
            list,
        ).dom().contains(id),
    decreases list.len(),
{
    if list.len() > 0 {
        let front = list.drop_last();
        law_last_of_an_id_counts(front, i, id);
        assert(list[list.len() - 1] == list.last());
        assert forall|j: int| 0 <= j < front.len() implies front[j] == #[trigger] list[j] by {}
    }
}


/// The keys of a desktop file decide whether and as what it is offered: it is not
/// offered on a desktop that `NotShowIn` lists, nor where `OnlyShowIn` lists none of the
/// desktops, nor where the program in `TryExec` is not there. The command line is that
/// of `Exec`, and every category is one of `Categories`.
pub proof fn law_keys_decide_what_is_offered<F: Fn(&str) -> bool, G: Fn(&str) -> bool>(
    is_executable: F,
    is_file: G,
    file: EntryFile,
    locales: Seq<Seq<char>>,
    desktops: Seq<Seq<char>>,
    executable_path: Seq<char>,
    data_dirs: Seq<Seq<char>>,
    before: Apps,
    after: Apps,
    i: int,
    j: int,
)
    requires
        takes_file(
            is_executable,
            is_file,
            file,
            locales,
            desktops,
            executable_path,
            data_dirs,
            before,
            after,
        ),
        crate::desktop_entry::decoded(file.path@, file.text@, locales) is Some,
        after != before,
    ensures
        ({
            let entry = crate::desktop_entry::decoded(file.path@, file.text@, locales)->0;
            let keys = crate::desktop_entry::entry_keys(entry);
            let app = after.apps[crate::desktop_entry::entry_id(entry)];
            &&& keys.dom().contains("NotShowIn"@) && 0 <= i < crate::text::pieces(
                keys["NotShowIn"@],
                ';',
            ).len() && 0 <= j < desktops.len() ==> crate::text::pieces(
                keys["NotShowIn"@],
                ';',
            )[i] != desktops[j]
            &&& keys.dom().contains("OnlyShowIn"@) ==> any_common(
                crate::text::pieces(keys["OnlyShowIn"@], ';'),
                desktops,
            )
            &&& keys.dom().contains("TryExec"@) ==> installed(
                is_executable,
                keys["TryExec"@],
                executable_path,
                true,
            )
            &&& Some(app.argv) == crate::desktop_entry::exec_args(
                crate::desktop_entry::value_of(keys, "Exec"@),
                crate::desktop_entry::value_of(keys, "Icon"@),
                crate::desktop_entry::value_of(keys, "Name"@),
                crate::desktop_entry::entry_path(entry),
            )
            &&& 0 <= i < app.categories.len() ==> keys.dom().contains("Categories"@)
                && crate::text::pieces(keys["Categories"@], ';').contains(app.categories[i])
            &&& !keys.dom().contains("Categories"@) ==> app.categories.len() == 0
        }),
{
    let entry = crate::desktop_entry::decoded(file.path@, file.text@, locales)->0;
    let keys = crate::desktop_entry::entry_keys(entry);
    let id = crate::desktop_entry::entry_id(entry);
    let facts = choose|facts: EntryFacts|
        {
            &&& #[trigger] facts_of(entry, locales, facts)
            &&& takes_in(
                is_executable,
                is_file,
                facts,
                desktops,
                executable_path,
                data_dirs,
                before,
                after,
            )
        };
    let app = choose|app: Option<App>|
        {
            &&& #[trigger] accepted(is_executable, facts, desktops, executable_path, app)
            &&& match app {
                Some(app) => with_app(is_file, data_dirs, before, app@, after),
                None => after == before,
            }
        };
    assert(app is Some);
    assert(after.apps[id] == described(facts));
    law_entry_is_shown_where_it_belongs(facts, desktops, i, j);
    if keys.dom().contains("NotShowIn"@) {
        let listed = crate::text::texts(facts.not_show_in->0@);
        assert(listed == crate::text::pieces(keys["NotShowIn"@], ';'));
        assert(listed.len() == facts.not_show_in->0@.len());
    }
    if facts.categories is Some {
        let keep = |category: Seq<char>| category.len() > 0;
        let listed = crate::text::texts(facts.categories->0@);
        let places = crate::lists::lemma_retained(listed, keep);
        let held = crate::lists::retained(listed, keep);
        assert(after.apps[id].categories == held);
        if 0 <= i < held.len() {
            assert(held[i] == listed[places[i]]);
        }
    }
}

} // verus!
