//! Where the icon of an application is found: raster images only, under the
//! `hicolor` theme and the pixmaps of the data directories.

use vstd::prelude::*;

use crate::paths::{first_file, is_absolute, join_path, path_components, same_path};
use crate::text::{chars_of, contains_char, ends_with_text, join2, split_text, strip_text_suffix};

verus! {

broadcast use vstd::string::group_string_axioms;

/// The sizes that are looked for, in this order. The first two scale down cleanly
/// to a tile; the largest is rarer and costlier to ship, so it comes after the
/// small but sharp ones.
pub const HICOLOR_SIZES: [&'static str; 6] = [
    "128x128",
    "96x96",
    "64x64",
    "48x48",
    "256x256",
    "32x32",
];

pub const FLATPAK_EXPORTS: &'static str = "/var/lib/flatpak/exports/share";

pub const DEFAULT_XDG_DATA_DIRS: &'static str = "/usr/local/share:/usr/share";

/// The name of a file, with an image extension taken off. Some applications have
/// one though an icon is a name.
pub open spec fn stem_of(name: Seq<char>) -> Seq<char> {
    if crate::text::text_ends_with(name, ".png"@) {
        name.take(name.len() - ".png"@.len())
    } else if crate::text::text_ends_with(name, ".svg"@) {
        name.take(name.len() - ".svg"@.len())
    } else {
        name
    }
}

/// Whether the last component of a path is a file name that ends in `.png` and
/// has something in front of it.
pub open spec fn is_png_path(path: Seq<char>) -> bool {
    let parts = crate::paths::components(path);
    parts.len() > 0 && crate::text::text_ends_with(parts.last(), ".png"@) && parts.last()
        != ".png"@
}

/// The file in the directory of a size of the theme.
pub open spec fn themed(dir: Seq<char>, size: Seq<char>, file: Seq<char>) -> Seq<char> {
    crate::paths::joined(
        crate::paths::joined(
            crate::paths::joined(crate::paths::joined(dir, "icons/hicolor"@), size),
            "apps"@,
        ),
        file,
    )
}

/// The places for a file in one data directory: the sizes of the theme in their
/// order, then the pixmaps.
pub open spec fn places_in(dir: Seq<char>, file: Seq<char>) -> Seq<Seq<char>> {
    Seq::new(6, |i: int| themed(dir, HICOLOR_SIZES[i]@, file)).push(
        crate::paths::joined(crate::paths::joined(dir, "pixmaps"@), file),
    )
}

/// The places for a file in all of the data directories, one after the other.
pub open spec fn places(dirs: Seq<Seq<char>>, file: Seq<char>) -> Seq<Seq<char>>
    decreases dirs.len(),
{
    if dirs.len() == 0 {
        Seq::empty()
    } else {
        places(dirs.drop_last(), file) + places_in(dirs.last(), file)
    }
}

/// The files that may hold an icon, the preferred ones first. An absolute path
/// stands for itself where it names a PNG file. A relative path is no name and
/// has no candidates.
pub open spec fn candidates(name: Seq<char>, dirs: Seq<Seq<char>>) -> Seq<Seq<char>> {
    if crate::paths::is_absolute_path(name) {
        if is_png_path(name) {
            seq![name]
        } else {
            Seq::empty()
        }
    } else if stem_of(name).len() == 0 || stem_of(name).contains('/') {
        Seq::empty()
    } else {
        places(dirs, stem_of(name) + ".png"@)
    }
}

fn strip_image_extension(name: &str) -> (r: String)
    ensures
        r@ == stem_of(name@),
{
    match strip_text_suffix(name, ".png") {
        Some(stem) => stem,
        None => match strip_text_suffix(name, ".svg") {
            Some(stem) => stem,
            None => name.to_owned(),
        },
    }
}

fn names_png(path: &str) -> (r: bool)
    ensures
        r == is_png_path(path@),
{
    let parts = path_components(path);
    assert(crate::text::texts(parts@).len() == parts@.len());
    if parts.len() == 0 {
        return false;
    }
    let last = parts[parts.len() - 1].as_str();
    assert(last@ == crate::text::texts(parts@).last());
    proof {
        reveal_strlit(".png");
    }
    if !ends_with_text(last, ".png") {
        return false;
    }
    let longer = chars_of(last).len() > 4;
    if !longer {
        assert(last@.skip(0) =~= last@);
    }
    longer
}

fn push_places(out: &mut Vec<String>, dir: &str, file: &str)
    ensures
        crate::text::texts(final(out)@) == crate::text::texts(old(out)@) + places_in(dir@, file@),
{
    let ghost start = crate::text::texts(old(out)@);
    let theme = join_path(dir, "icons/hicolor");
    let mut i: usize = 0;
    while i < 6
        invariant
            i <= 6,
            theme@ == crate::paths::joined(dir@, "icons/hicolor"@),
            crate::text::texts(out@) =~= start + places_in(dir@, file@).take(i as int),
        decreases 6 - i,
    {
        let ghost held = out@;
        let sized = join_path(theme.as_str(), HICOLOR_SIZES[i]);
        let apps = join_path(sized.as_str(), "apps");
        let path = join_path(apps.as_str(), file);
        out.push(path);
        assert(crate::text::texts(out@) =~= crate::text::texts(held).push(path@));
        assert(path@ == places_in(dir@, file@)[i as int]);
        i += 1;
    }
    let ghost held = out@;
    let pixmaps = join_path(dir, "pixmaps");
    let path = join_path(pixmaps.as_str(), file);
    out.push(path);
    assert(crate::text::texts(out@) =~= crate::text::texts(held).push(path@));
    assert(places_in(dir@, file@) =~= places_in(dir@, file@).take(6).push(path@));
}

/// The files that may hold an icon, the preferred ones first.
pub fn icon_candidates(name: &str, data_dirs: &Vec<String>) -> (r: Vec<String>)
    ensures
        crate::text::texts(r@) == candidates(name@, crate::text::texts(data_dirs@)),
{
    let mut out: Vec<String> = Vec::new();
    if is_absolute(name) {
        if names_png(name) {
            out.push(name.to_owned());
        }
        assert(crate::text::texts(out@) =~= candidates(name@, crate::text::texts(data_dirs@)));
        return out;
    }
    let stem = strip_image_extension(name);
    let empty = chars_of(stem.as_str()).len() == 0;
    if empty || contains_char(stem.as_str(), '/') {
        assert(crate::text::texts(out@) =~= Seq::<Seq<char>>::empty());
        return out;
    }
    let file = join2(stem.as_str(), ".png");
    let ghost dirs = crate::text::texts(data_dirs@);
    let mut i: usize = 0;
    assert(crate::text::texts(out@) =~= places(dirs.take(0), file@));
    while i < data_dirs.len()
        invariant
            i <= data_dirs@.len(),
            dirs == crate::text::texts(data_dirs@),
            crate::text::texts(out@) == places(dirs.take(i as int), file@),
        decreases data_dirs@.len() - i,
    {
        push_places(&mut out, data_dirs[i].as_str(), file.as_str());
        assert(dirs.take(i as int + 1).drop_last() =~= dirs.take(i as int));
        i += 1;
    }
    assert(dirs.take(data_dirs@.len() as int) =~= dirs);
    out
}

/// Finds a PNG file for the icon of an application.
pub fn resolve_icon<F: Fn(&str) -> bool>(
    name: &str,
    data_dirs: &Vec<String>,
    is_file: &F,
) -> (r: Option<String>)
    requires
        forall|path: &str| call_requires(*is_file, (path,)),
    ensures
        crate::paths::resolves(*is_file, candidates(name@, crate::text::texts(data_dirs@)), r),
{
    let candidates = icon_candidates(name, data_dirs);
    first_file(&candidates, is_file)
}

/// The user's own directory and the listed ones.
pub open spec fn named_dirs(
    data_home: Option<Seq<char>>,
    home: Option<Seq<char>>,
    dirs: Option<Seq<char>>,
) -> Seq<Seq<char>> {
    let first = if data_home is Some && data_home->0.len() > 0 {
        seq![data_home->0]
    } else {
        match home {
            Some(home) => seq![crate::paths::joined(home, ".local/share"@)],
            None => Seq::empty(),
        }
    };
    let listed = if dirs is Some && dirs->0.len() > 0 {
        dirs->0
    } else {
        DEFAULT_XDG_DATA_DIRS@
    };
    first + crate::lists::retained(
        crate::text::pieces(listed, ':'),
        |dir: Seq<char>| dir.len() > 0,
    )
}

/// The directories that icons are looked up in.
pub open spec fn data_dirs(
    data_home: Option<Seq<char>>,
    home: Option<Seq<char>>,
    dirs: Option<Seq<char>>,
) -> Seq<Seq<char>> {
    let named = named_dirs(data_home, home, dirs);
    if lists_path(named, FLATPAK_EXPORTS@) {
        named
    } else {
        named.push(FLATPAK_EXPORTS@)
    }
}

/// Whether one of the directories is the same as `path`.
pub open spec fn lists_path(dirs: Seq<Seq<char>>, path: Seq<char>) -> bool {
    exists|i: int|
        0 <= i < dirs.len() && crate::paths::components(#[trigger] dirs[i])
            == crate::paths::components(path)
}

/// The directories that icons are looked up in, the most specific first, from the
/// values of `XDG_DATA_HOME`, `HOME` and `XDG_DATA_DIRS`: the user's own, then the
/// listed ones, then those that flatpak exports unless they were listed.
pub fn default_data_dirs(
    xdg_data_home: Option<&str>,
    home: Option<&str>,
    xdg_data_dirs: Option<&str>,
) -> (r: Vec<String>)
    ensures
        crate::text::texts(r@) == data_dirs(
            crate::text::text_of(xdg_data_home),
            crate::text::text_of(home),
            crate::text::text_of(xdg_data_dirs),
        ),
{
    let mut dirs: Vec<String> = Vec::new();
    let data_home = match xdg_data_home {
        Some(dir) => chars_of(dir).len() > 0,
        None => false,
    };
    if data_home {
        if let Some(dir) = xdg_data_home {
            dirs.push(dir.to_owned());
        }
    } else if let Some(home) = home {
        dirs.push(join_path(home, ".local/share"));
    }
    let ghost first = crate::text::texts(dirs@);
    assert(first =~= (if data_home {
        seq![crate::text::text_of(xdg_data_home)->0]
    } else {
        match home {
            Some(home) => seq![crate::paths::joined(home@, ".local/share"@)],
            None => Seq::empty(),
        }
    }));
    let listed = match xdg_data_dirs {
        Some(listed) => if chars_of(listed).len() > 0 {
            listed
        } else {
            DEFAULT_XDG_DATA_DIRS
        },
        None => DEFAULT_XDG_DATA_DIRS,
    };
    let parts = split_text(listed, ':');
    let ghost all = crate::text::texts(parts@);
    let ghost keep = |dir: Seq<char>| dir.len() > 0;
    let mut i: usize = 0;
    assert(crate::text::texts(dirs@) =~= first + crate::lists::retained(all.take(0), keep));
    while i < parts.len()
        invariant
            i <= parts@.len(),
            all == crate::text::texts(parts@),
            keep == (|dir: Seq<char>| dir.len() > 0),
            crate::text::texts(dirs@) == first + crate::lists::retained(all.take(i as int), keep),
        decreases parts@.len() - i,
    {
        let ghost held = dirs@;
        let part = &parts[i];
        assert(all.take(i as int + 1).drop_last() =~= all.take(i as int));
        assert(all.take(i as int + 1).last() == part@);
        let filled = chars_of(part.as_str()).len() > 0;
        assert(keep(part@) == filled);
        if filled {
            dirs.push(part.clone());
            assert(crate::text::texts(dirs@) =~= crate::text::texts(held).push(part@));
            assert(crate::text::texts(dirs@) =~= first + crate::lists::retained(
                all.take(i as int + 1),
                keep,
            ));
        }
        i += 1;
    }
    assert(all.take(parts@.len() as int) =~= all);
    let ghost found = crate::text::texts(dirs@);
    assert(found == named_dirs(crate::text::text_of(xdg_data_home), crate::text::text_of(home), crate::text::text_of(xdg_data_dirs)));
    let mut j: usize = 0;
    while j < dirs.len()
        invariant
            j <= dirs@.len(),
            found == named_dirs(crate::text::text_of(xdg_data_home), crate::text::text_of(home), crate::text::text_of(xdg_data_dirs)),
            found == crate::text::texts(dirs@),
            forall|k: int|
                0 <= k < j ==> crate::paths::components(#[trigger] found[k])
                    != crate::paths::components(FLATPAK_EXPORTS@),
        decreases dirs@.len() - j,
    {
        if same_path(dirs[j].as_str(), FLATPAK_EXPORTS) {
            assert(crate::paths::components(found[j as int]) == crate::paths::components(
                FLATPAK_EXPORTS@,
            ));
            assert(lists_path(found, FLATPAK_EXPORTS@));
            return dirs;
        }
        j += 1;
    }
    dirs.push(FLATPAK_EXPORTS.to_owned());
    assert(crate::text::texts(dirs@) =~= found.push(FLATPAK_EXPORTS@));
    dirs
}

proof fn lemma_places_of_earlier_dirs(dirs: Seq<Seq<char>>, file: Seq<char>, d: int, k: int)
    requires
        0 <= d < dirs.len(),
        0 <= k < 7,
    ensures
        places(dirs, file).len() == 7 * dirs.len(),
        places(dirs, file)[7 * d + k] == places_in(dirs[d], file)[k],
    decreases dirs.len(),
{
    let before = dirs.drop_last();
    lemma_places_len(before, file);
    if d < before.len() {
        lemma_places_of_earlier_dirs(before, file, d, k);
    }
}

proof fn lemma_places_len(dirs: Seq<Seq<char>>, file: Seq<char>)
    ensures
        places(dirs, file).len() == 7 * dirs.len(),
    decreases dirs.len(),
{
    if dirs.len() > 0 {
        lemma_places_len(dirs.drop_last(), file);
    }
}

/// An earlier data directory wins over a later one, at any size: all of its
/// places come before all of the later one's.
pub proof fn law_earlier_dir_comes_first(
    name: Seq<char>,
    dirs: Seq<Seq<char>>,
    earlier: int,
    later: int,
    i: int,
    j: int,
)
    requires
        !crate::paths::is_absolute_path(name),
        stem_of(name).len() > 0,
        !stem_of(name).contains('/'),
        0 <= earlier < later < dirs.len(),
        0 <= i < 7,
        0 <= j < 7,
    ensures
        ({
            let file = stem_of(name) + ".png"@;
            &&& 7 * earlier + i < 7 * later + j < candidates(name, dirs).len()
            &&& candidates(name, dirs)[7 * earlier + i] == places_in(dirs[earlier], file)[i]
            &&& candidates(name, dirs)[7 * later + j] == places_in(dirs[later], file)[j]
        }),
{
    let file = stem_of(name) + ".png"@;
    lemma_places_of_earlier_dirs(dirs, file, earlier, i);
    lemma_places_of_earlier_dirs(dirs, file, later, j);
}

/// A relative path is never joined into the lookup: a name with a separator in it
/// that is not absolute has no icon, whatever files there are.
pub proof fn law_relative_paths_are_refused(name: Seq<char>, dirs: Seq<Seq<char>>)
    requires
        !crate::paths::is_absolute_path(name),
        name.contains('/'),
    ensures
        candidates(name, dirs).len() == 0,
{
    reveal_strlit(".png");
    reveal_strlit(".svg");
    let stem = stem_of(name);
    let i = choose|i: int| 0 <= i < name.len() && name[i] == '/';
    if i < stem.len() {
        assert(stem[i] == '/');
    } else {
        assert(name.skip(name.len() - 4)[i - (name.len() - 4)] == '/');
    }
}


/// The sizes of the theme in the order of preference.
pub open spec fn preferred_sizes() -> Seq<Seq<char>> {
    seq!["128x128"@, "96x96"@, "64x64"@, "48x48"@, "256x256"@, "32x32"@]
}

/// The name of an icon may have an image extension; it is looked up without it.
pub proof fn law_extension_is_taken_off(name: Seq<char>)
    ensures
        stem_of(name + ".png"@) == name,
        stem_of(name + ".svg"@) == name,
        !name.contains('.') ==> stem_of(name) == name,
{
    reveal_strlit(".png");
    reveal_strlit(".svg");
    let png = name + ".png"@;
    let svg = name + ".svg"@;
    assert(png.skip(png.len() - 4) =~= ".png"@);
    assert(png.take(png.len() - 4) =~= name);
    assert(svg.skip(svg.len() - 4) =~= ".svg"@);
    assert(svg.skip(svg.len() - 4)[1] == 's');
    assert(svg.take(svg.len() - 4) =~= name);
    if !name.contains('.') && name.len() >= 4 {
        assert(name.contains(name[name.len() - 4]));
        assert(name.skip(name.len() - 4)[0] == name[name.len() - 4]);
    }
}

/// An icon is looked for in every data directory: as a PNG file at each of the
/// sizes in their order, and at last among the pixmaps.
pub proof fn law_icon_places_go_by_size(
    name: Seq<char>,
    dirs: Seq<Seq<char>>,
    d: int,
    k: int,
)
    requires
        !name.contains('.'),
        !name.contains('/'),
        name.len() > 0,
        0 <= d < dirs.len(),
        dirs[d].len() > 0,
        dirs[d].last() != '/',
        0 <= k < 7,
    ensures
        candidates(name, dirs).len() == 7 * dirs.len(),
        k < 6 ==> candidates(name, dirs)[7 * d + k] == dirs[d] + "/icons/hicolor/"@
            + preferred_sizes()[k] + "/apps/"@ + name + ".png"@,
        k == 6 ==> candidates(name, dirs)[7 * d + k] == dirs[d] + "/pixmaps/"@ + name + ".png"@,
{
    let dir = dirs[d];
    let file = name + ".png"@;
    law_extension_is_taken_off(name);
    reveal_strlit(".png");
    assert(name.contains(name[0]));
    assert(!crate::paths::is_absolute_path(name));
    lemma_places_of_earlier_dirs(dirs, file, d, k);
    reveal_strlit("icons/hicolor");
    reveal_strlit("/icons/hicolor/");
    reveal_strlit("apps");
    reveal_strlit("/apps/");
    reveal_strlit("pixmaps");
    reveal_strlit("/pixmaps/");
    reveal_strlit("128x128");
    reveal_strlit("96x96");
    reveal_strlit("64x64");
    reveal_strlit("48x48");
    reveal_strlit("256x256");
    reveal_strlit("32x32");
    assert(file[0] == name[0]);
    if k < 6 {
        let size = HICOLOR_SIZES[k]@;
        assert(size == preferred_sizes()[k]);
        let theme = crate::paths::joined(dir, "icons/hicolor"@);
        crate::paths::law_joined_path_lies_below_its_base(dir, "icons/hicolor"@);
        let sized = crate::paths::joined(theme, size);
        crate::paths::law_joined_path_lies_below_its_base(theme, size);
        let apps = crate::paths::joined(sized, "apps"@);
        crate::paths::law_joined_path_lies_below_its_base(sized, "apps"@);
        crate::paths::law_joined_path_lies_below_its_base(apps, file);
        assert(theme.last() == 'r');
        assert(sized.last() == size.last());
        assert(apps.last() == 's');
        assert(crate::paths::joined(apps, file) =~= dir + "/icons/hicolor/"@ + size + "/apps/"@
            + name + ".png"@);
    } else {
        let pixmaps = crate::paths::joined(dir, "pixmaps"@);
        crate::paths::law_joined_path_lies_below_its_base(dir, "pixmaps"@);
        assert(pixmaps.last() == 's');
        crate::paths::law_joined_path_lies_below_its_base(pixmaps, file);
        assert(crate::paths::joined(pixmaps, file) =~= dir + "/pixmaps/"@ + name + ".png"@);
    }
}

/// An absolute path stands for itself where it names a PNG file, and for nothing
/// otherwise.
pub proof fn law_absolute_icon_stands_for_itself(
    dir: Seq<char>,
    file: Seq<char>,
    dirs: Seq<Seq<char>>,
)
    requires
        dir.len() > 0,
        dir[0] == '/',
        file.len() > 0,
        !file.contains('/'),
        file != seq!['.'],
    ensures
        file.len() > 4 && file.skip(file.len() - 4) == seq!['.', 'p', 'n', 'g'] ==> candidates(
            dir.push('/') + file,
            dirs,
        ) == seq![dir.push('/') + file],
        !(file.len() > 4 && file.skip(file.len() - 4) == seq!['.', 'p', 'n', 'g']) ==> candidates(
            dir.push('/') + file,
            dirs,
        ).len() == 0,
{
    reveal_strlit(".png");
    let name = dir.push('/') + file;
    assert(name[0] == '/');
    crate::paths::law_components_are_the_names_of_a_path(dir, file);
    assert(crate::paths::components(name).last() == file);
    assert(".png"@ =~= seq!['.', 'p', 'n', 'g']);
    if file.len() == 4 {
        assert(file.skip(0) =~= file);
    }
}

/// The directories that `XDG_DATA_DIRS` lists; where it says nothing, the usual two.
pub open spec fn listed_dirs(dirs: Option<Seq<char>>) -> Seq<Seq<char>> {
    if dirs is Some && dirs->0.len() > 0 {
        crate::text::pieces(dirs->0, ':')
    } else {
        seq!["/usr/local/share"@, "/usr/share"@]
    }
}

proof fn lemma_listed_dirs(dirs: Option<Seq<char>>)
    ensures
        !(dirs is Some && dirs->0.len() > 0) ==> crate::text::pieces(DEFAULT_XDG_DATA_DIRS@, ':')
            == listed_dirs(dirs),
{
    let a = "/usr/local/share"@;
    let b = "/usr/share"@;
    reveal_strlit("/usr/local/share:/usr/share");
    reveal_strlit("/usr/local/share");
    reveal_strlit("/usr/share");
    assert(DEFAULT_XDG_DATA_DIRS@ =~= a.push(':') + b);
    crate::text::law_pieces_stand_between_separators(a, b, ':');
    crate::text::law_pieces_stand_between_separators(b, b, ':');
    assert(crate::text::pieces(DEFAULT_XDG_DATA_DIRS@, ':') =~= seq![a, b]);
}

/// The user's own directory comes first, named outright or below their home.
pub proof fn law_own_data_dir_comes_first(
    data_home: Option<Seq<char>>,
    home: Option<Seq<char>>,
    dirs: Option<Seq<char>>,
)
    ensures
        data_home is Some && data_home->0.len() > 0 ==> data_dirs(data_home, home, dirs).len() > 0
            && data_dirs(data_home, home, dirs)[0] == data_home->0,
        !(data_home is Some && data_home->0.len() > 0) && home is Some ==> data_dirs(
            data_home,
            home,
            dirs,
        ).len() > 0 && data_dirs(data_home, home, dirs)[0] == crate::paths::joined(
            home->0,
            ".local/share"@,
        ),
{
}

/// The listed directories that are not empty follow in their order, and what
/// flatpak exports is always among the directories.
pub proof fn law_listed_data_dirs_follow(
    data_home: Option<Seq<char>>,
    home: Option<Seq<char>>,
    dirs: Option<Seq<char>>,
    own: int,
    place: int,
)
    requires
        own == (if (data_home is Some && data_home->0.len() > 0) || home is Some {
            1int
        } else {
            0int
        }),
    ensures
        (forall|i: int| 0 <= i < listed_dirs(dirs).len() ==> (#[trigger] listed_dirs(dirs)[i]).len() > 0)
            ==> data_dirs(data_home, home, dirs).len() >= own + listed_dirs(dirs).len()
            && data_dirs(data_home, home, dirs).subrange(own, own + listed_dirs(dirs).len())
            == listed_dirs(dirs),
        0 <= place < listed_dirs(dirs).len() && listed_dirs(dirs)[place].len() > 0 ==> data_dirs(
            data_home,
            home,
            dirs,
        ).contains(listed_dirs(dirs)[place]),
        lists_path(data_dirs(data_home, home, dirs), "/var/lib/flatpak/exports/share"@),
{
    let named = named_dirs(data_home, home, dirs);
    let all = data_dirs(data_home, home, dirs);
    let keep = |dir: Seq<char>| dir.len() > 0;
    let listed = listed_dirs(dirs);
    lemma_listed_dirs(dirs);
    let kept = crate::lists::retained(listed, keep);
    let places = crate::lists::lemma_retained(listed, keep);
    assert(named.len() == own + kept.len());
    assert forall|i: int| 0 <= i < kept.len() implies #[trigger] kept[i] == named[own + i] by {}
    if forall|i: int| 0 <= i < listed.len() ==> (#[trigger] listed[i]).len() > 0 {
        assert forall|i: int| 0 <= i < listed.len() implies keep(#[trigger] listed[i]) by {}
        crate::lists::lemma_retained_all(listed, keep);
        assert(all.subrange(own, own + listed.len()) =~= listed);
    }
    if 0 <= place < listed.len() && listed[place].len() > 0 {
        assert(keep(listed[place]));
        assert(kept.contains(listed[place]));
        let k = kept.index_of(listed[place]);
        assert(kept[k] == listed[place]);
        assert(all[own + k] == listed[place]);
    }
    if !lists_path(named, FLATPAK_EXPORTS@) {
        assert(crate::paths::components(all[named.len() as int]) == crate::paths::components(
            FLATPAK_EXPORTS@,
        ));
    }
}

} // verus!
