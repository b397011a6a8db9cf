//! What is read of a desktop entry. The file is decoded by the
//! `freedesktop_desktop_entry` crate; what it says of itself is taken over into
//! plain values here.

use freedesktop_desktop_entry::{DesktopEntry, ExecError};
use vstd::prelude::*;

verus! {

broadcast use vstd::string::group_string_axioms;

/// The crate's decoded file.
#[verifier::external_type_specification]
#[verifier::external_body]
pub struct ExDesktopEntry(freedesktop_desktop_entry::DesktopEntry);

/// The crate's reason why a command line is no good.
#[verifier::external_type_specification]
#[verifier::external_body]
pub struct ExExecError(freedesktop_desktop_entry::ExecError);

/// What `DesktopEntry::from_str` makes of a file at `path` with that text, where
/// only those locales are kept; nothing where it reports an error.
pub uninterp spec fn decoded(
    path: Seq<char>,
    text: Seq<char>,
    locales: Seq<Seq<char>>,
) -> Option<DesktopEntry>;

/// The id that an entry has from its path.
pub uninterp spec fn entry_id(entry: DesktopEntry) -> Seq<char>;

/// The path that an entry was read from.
pub uninterp spec fn entry_path(entry: DesktopEntry) -> Seq<char>;

/// The keys of the main group of an entry and their values.
pub uninterp spec fn entry_keys(entry: DesktopEntry) -> Map<Seq<char>, Seq<char>>;

/// The values of the main group by key and locale.
pub uninterp spec fn entry_translations(entry: DesktopEntry) -> Map<
    (Seq<char>, Seq<char>),
    Seq<char>,
>;

/// The arguments that `DesktopEntry::parse_exec` makes of the values of `Exec`,
/// `Icon` and `Name` and the path of an entry; nothing where it reports an error.
pub uninterp spec fn exec_args(
    exec: Option<Seq<char>>,
    icon: Option<Seq<char>>,
    name: Option<Seq<char>>,
    path: Seq<char>,
) -> Option<Seq<Seq<char>>>;

/// The value of a key.
pub open spec fn value_of(keys: Map<Seq<char>, Seq<char>>, key: Seq<char>) -> Option<Seq<char>> {
    if keys.dom().contains(key) {
        Some(keys[key])
    } else {
        None
    }
}

/// Whether a key is set to true.
pub open spec fn is_set(keys: Map<Seq<char>, Seq<char>>, key: Seq<char>) -> bool {
    value_of(keys, key) == Some("true"@)
}

pub open spec fn slices(list: Seq<&str>) -> Seq<Seq<char>> {
    Seq::new(list.len(), |i: int| list[i]@)
}

/// `list` is the value of a key, split at the semicolons.
pub open spec fn is_list(
    keys: Map<Seq<char>, Seq<char>>,
    key: Seq<char>,
    list: Option<Vec<&str>>,
) -> bool {
    match list {
        Some(list) => keys.dom().contains(key) && slices(list@) == crate::text::pieces(
            keys[key],
            ';',
        ),
        None => !keys.dom().contains(key),
    }
}

/// What comes before the first underscore of a locale.
pub open spec fn language(locale: Seq<char>) -> Option<Seq<char>> {
    if locale.contains('_') {
        Some(locale.take(locale.index_of_first('_')->0))
    } else {
        None
    }
}

/// The value of a key for the first of the locales that there is one for, as it
/// stands or by its language alone.
pub open spec fn translated(
    translations: Map<(Seq<char>, Seq<char>), Seq<char>>,
    key: Seq<char>,
    locales: Seq<Seq<char>>,
) -> Option<Seq<char>>
    decreases locales.len(),
{
    if locales.len() == 0 {
        None
    } else {
        let locale = locales[0];
        if translations.dom().contains((key, locale)) {
            Some(translations[(key, locale)])
        } else if language(locale) is Some && translations.dom().contains(
            (key, language(locale)->0),
        ) {
            Some(translations[(key, language(locale)->0)])
        } else {
            translated(translations, key, locales.drop_first())
        }
    }
}

/// `DesktopEntry::from_str` decodes the text of a desktop file. What comes out
/// depends on the path, the text and the locales alone, and the entry remembers
/// the path.
#[verifier::external_body]
pub(crate) fn decode_entry(path: &str, text: &str, locales: &Vec<String>) -> (r: Option<DesktopEntry>)
    ensures
        r == decoded(path@, text@, crate::text::texts(locales@)),
        r is Some ==> entry_path(r->0) == path@,
{
    DesktopEntry::from_str(path, text, Some(locales.as_slice())).ok()
}

/// `DesktopEntry::id` gives the id of an entry.
pub assume_specification[ DesktopEntry::id ](entry: &DesktopEntry) -> (r: &str)
    ensures
        r@ == entry_id(*entry),
;

/// `DesktopEntry::type_` gives the value of `Type`.
pub assume_specification[ DesktopEntry::type_ ](entry: &DesktopEntry) -> (r: Option<&str>)
    ensures
        crate::text::text_of(r) == value_of(entry_keys(*entry), "Type"@),
;

/// `DesktopEntry::hidden` says whether `Hidden` is set.
pub assume_specification[ DesktopEntry::hidden ](entry: &DesktopEntry) -> (r: bool)
    ensures
        r == is_set(entry_keys(*entry), "Hidden"@),
;

/// `DesktopEntry::no_display` says whether `NoDisplay` is set.
pub assume_specification[ DesktopEntry::no_display ](entry: &DesktopEntry) -> (r: bool)
    ensures
        r == is_set(entry_keys(*entry), "NoDisplay"@),
;

/// `DesktopEntry::terminal` says whether `Terminal` is set.
pub assume_specification[ DesktopEntry::terminal ](entry: &DesktopEntry) -> (r: bool)
    ensures
        r == is_set(entry_keys(*entry), "Terminal"@),
;

/// `DesktopEntry::only_show_in` gives the list in `OnlyShowIn`.
pub assume_specification[ DesktopEntry::only_show_in ](entry: &DesktopEntry) -> (r: Option<Vec<&str>>)
    ensures
        is_list(entry_keys(*entry), "OnlyShowIn"@, r),
;

/// `DesktopEntry::not_show_in` gives the list in `NotShowIn`.
pub assume_specification[ DesktopEntry::not_show_in ](entry: &DesktopEntry) -> (r: Option<Vec<&str>>)
    ensures
        is_list(entry_keys(*entry), "NotShowIn"@, r),
;

/// `DesktopEntry::categories` gives the list in `Categories`.
pub assume_specification[ DesktopEntry::categories ](entry: &DesktopEntry) -> (r: Option<Vec<&str>>)
    ensures
        is_list(entry_keys(*entry), "Categories"@, r),
;

/// `DesktopEntry::icon` gives the value of `Icon`.
pub assume_specification[ DesktopEntry::icon ](entry: &DesktopEntry) -> (r: Option<&str>)
    ensures
        crate::text::text_of(r) == value_of(entry_keys(*entry), "Icon"@),
;

/// `DesktopEntry::try_exec` gives the value of `TryExec`.
pub assume_specification[ DesktopEntry::try_exec ](entry: &DesktopEntry) -> (r: Option<&str>)
    ensures
        crate::text::text_of(r) == value_of(entry_keys(*entry), "TryExec"@),
;

/// The value of `Name` in the first of the locales that has one, and otherwise the
/// plain value.
pub open spec fn localized_name(entry: DesktopEntry, locales: Seq<Seq<char>>) -> Option<Seq<char>> {
    let keys = entry_keys(entry);
    let found = translated(entry_translations(entry), "Name"@, locales);
    if keys.dom().contains("Name"@) && found is Some {
        found
    } else {
        value_of(keys, "Name"@)
    }
}

/// `DesktopEntry::name` gives the value of `Name` in the first of the locales that
/// has one, and otherwise the plain value.
#[verifier::external_body]
pub(crate) fn entry_name(entry: &DesktopEntry, locales: &Vec<String>) -> (r: Option<String>)
    ensures
        r is Some == entry_keys(*entry).dom().contains("Name"@),
        r is Some ==> r->0@ == (match translated(
            entry_translations(*entry),
            "Name"@,
            crate::text::texts(locales@),
        ) {
            Some(name) => name,
            None => entry_keys(*entry)["Name"@],
        }),
{
    entry.name(locales.as_slice()).map(|name| name.into_owned())
}

/// The arguments of a command line as texts.
pub open spec fn args_of(args: Result<Vec<String>, ExecError>) -> Option<Seq<Seq<char>>> {
    match args {
        Ok(args) => Some(crate::text::texts(args@)),
        Err(_) => None,
    }
}

/// `DesktopEntry::parse_exec` splits the value of `Exec` into arguments and leaves
/// out the codes that stand for files. There is at least one argument, and the
/// first has no equals sign. The arguments depend on the values of the keys and on
/// the path alone.
pub assume_specification[ DesktopEntry::parse_exec ](entry: &DesktopEntry) -> (r: Result<
    Vec<String>,
    ExecError,
>)
    ensures
        r is Ok ==> entry_keys(*entry).dom().contains("Exec"@) && r->Ok_0@.len() > 0
            && !r->Ok_0@[0]@.contains('='),
        args_of(r) == exec_args(
            value_of(entry_keys(*entry), "Exec"@),
            value_of(entry_keys(*entry), "Icon"@),
            value_of(entry_keys(*entry), "Name"@),
            entry_path(*entry),
        ),
;

} // verus!
