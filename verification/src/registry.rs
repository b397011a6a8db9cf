//! The registry of sessions: their names, and what is kept of each across
//! restarts.

use vstd::prelude::*;

use crate::paths::join_path;
use crate::protocol::{Session, SessionStatus};
use crate::sorted_map::SortedMap;
use crate::text::{char_to_lowercase, chars_of, join2, join4, push_decimal, string_of};

verus! {

broadcast use vstd::string::group_string_axioms;

pub const REGISTRY_VERSION: u16 = 1;

#[derive(Debug)]
pub enum RegistryError {
    InvalidName(String),
    AlreadyExists(String),
    NotFound(String),
    Read { path: String, source: String },
    Decode { path: String, source: String },
    UnsupportedVersion(u16),
    Persist { path: String, source: String },
}

/// `[a-z0-9]`
pub open spec fn is_name_start(c: char) -> bool {
    'a' <= c <= 'z' || '0' <= c <= '9'
}

/// `[a-z0-9_-]`
pub open spec fn is_name_char(c: char) -> bool {
    is_name_start(c) || c == '-' || c == '_'
}

/// A session name: 1 to 64 characters of `[a-z0-9_-]`, the first of `[a-z0-9]`.
pub open spec fn valid_name(name: Seq<char>) -> bool {
    &&& 1 <= name.len() <= 64
    &&& is_name_start(name[0])
    &&& forall|i: int| 0 <= i < name.len() ==> is_name_char(#[trigger] name[i])
}

/// Accepts exactly the names that can stand in a path and in a display name.
pub fn validate_session_name(name: &str) -> (r: Result<(), RegistryError>)
    ensures
        match r {
            Ok(()) => valid_name(name@),
            Err(RegistryError::InvalidName(n)) => !valid_name(name@) && n@ == name@,
            Err(_) => false,
        },
{
    let chars = chars_of(name);
    let mut valid: bool = 1 <= chars.len() && chars.len() <= 64;
    if valid {
        let first = chars[0];
        valid = ('a' <= first && first <= 'z') || ('0' <= first && first <= '9');
        let mut i: usize = 0;
        while valid && i < chars.len()
            invariant
                i <= chars.len(),
                chars@ == name@,
                valid ==> forall|j: int| 0 <= j < i ==> is_name_char(#[trigger] chars@[j]),
                1 <= chars@.len() <= 64,
                !valid ==> !valid_name(name@),
                valid ==> is_name_start(name@[0]),
            decreases chars.len() - i,
        {
            let c = chars[i];
            valid = ('a' <= c && c <= 'z') || ('0' <= c && c <= '9') || c == '-' || c == '_';
            assert(is_name_char(chars@[i as int]) == valid);
            i += 1;
        }
    }
    if valid {
        Ok(())
    } else {
        Err(RegistryError::InvalidName(name.to_owned()))
    }
}

/// The lowercase mappings of the characters of `s`, one after the other.
pub open spec fn lowercased(s: Seq<char>) -> Seq<char>
    decreases s.len(),
{
    if s.len() == 0 {
        Seq::empty()
    } else {
        lowercased(s.drop_last()) + crate::text::lowercase(s.last())
    }
}

/// One more character of a name under construction: letters and digits stay, a
/// run of anything else becomes one `-` (none at the front), and the name stops
/// growing at 64 characters.
pub open spec fn slug_step(name: Seq<char>, c: char) -> Seq<char> {
    if name.len() >= 64 {
        name
    } else if is_name_start(c) {
        name.push(c)
    } else if name.len() > 0 && name.last() != '-' {
        name.push('-')
    } else {
        name
    }
}

pub open spec fn slug(s: Seq<char>) -> Seq<char>
    decreases s.len(),
{
    if s.len() == 0 {
        Seq::empty()
    } else {
        slug_step(slug(s.drop_last()), s.last())
    }
}

/// `s` without the `-` at its end.
pub open spec fn without_trailing_dashes(s: Seq<char>) -> Seq<char>
    decreases s.len(),
{
    if s.len() > 0 && s.last() == '-' {
        without_trailing_dashes(s.drop_last())
    } else {
        s
    }
}

/// The name that a session of this application gets when none is asked for.
pub open spec fn default_name(app_id: Seq<char>) -> Seq<char> {
    let name = without_trailing_dashes(slug(lowercased(app_id)));
    if name.len() == 0 {
        "session"@
    } else {
        name
    }
}

proof fn lemma_slug_shape(s: Seq<char>)
    ensures
        slug(s).len() <= 64,
        slug(s).len() > 0 ==> is_name_start(slug(s)[0]),
        forall|i: int| 0 <= i < slug(s).len() ==> is_name_char(#[trigger] slug(s)[i]),
    decreases s.len(),
{
    if s.len() > 0 {
        lemma_slug_shape(s.drop_last());
    }
}

proof fn lemma_trim(s: Seq<char>)
    ensures
        without_trailing_dashes(s).len() <= s.len(),
        without_trailing_dashes(s) == s.take(without_trailing_dashes(s).len() as int),
    decreases s.len(),
{
    if s.len() > 0 && s.last() == '-' {
        lemma_trim(s.drop_last());
        let n = without_trailing_dashes(s).len() as int;
        assert(s.drop_last().take(n) =~= s.take(n));
    } else {
        assert(s.take(s.len() as int) =~= s);
    }
}

/// Whatever the application is called, the name derived from it is a valid
/// session name.
pub proof fn law_default_name_is_valid(app_id: Seq<char>)
    ensures
        valid_name(default_name(app_id)),
{
    let s = slug(lowercased(app_id));
    lemma_slug_shape(lowercased(app_id));
    lemma_trim(s);
    reveal_strlit("session");
    let name = without_trailing_dashes(s);
    assert forall|i: int| 0 <= i < name.len() implies is_name_char(#[trigger] name[i]) by {
        assert(name[i] == s[i]);
    }
}

/// Letters, digits and single dashes.
pub open spec fn has_single_dashes(name: Seq<char>) -> bool {
    &&& forall|i: int|
        0 <= i < name.len() ==> is_name_start(#[trigger] name[i]) || name[i] == '-'
    &&& forall|i: int, j: int|
        0 <= i < name.len() && j == i + 1 && j < name.len() ==> !((#[trigger] name[i]) == '-' && (
        #[trigger] name[j]) == '-')
}

/// Letters, digits and single dashes between them: the shape of a derived name.
pub open spec fn is_plain(name: Seq<char>) -> bool {
    has_single_dashes(name) && (name.len() > 0 ==> name[0] != '-' && name.last() != '-')
}

proof fn lemma_slug_dashes(s: Seq<char>)
    ensures
        has_single_dashes(slug(s)),
        (forall|i: int| 0 <= i < s.len() ==> !is_name_start(#[trigger] s[i])) ==> slug(s).len()
            == 0,
    decreases s.len(),
{
    if s.len() > 0 {
        let front = s.drop_last();
        lemma_slug_dashes(front);
        assert(has_single_dashes(slug_step(slug(front), s.last())));
        if forall|i: int| 0 <= i < s.len() ==> !is_name_start(#[trigger] s[i]) {
            assert forall|i: int| 0 <= i < front.len() implies !is_name_start(
                #[trigger] front[i],
            ) by {
                assert(front[i] == s[i]);
            }
            assert(!is_name_start(s[s.len() - 1]));
        }
    }
}

proof fn lemma_trim_ends(s: Seq<char>)
    ensures
        without_trailing_dashes(s).len() > 0 ==> without_trailing_dashes(s).last() != '-',
    decreases s.len(),
{
    if s.len() > 0 && s.last() == '-' {
        lemma_trim_ends(s.drop_last());
    }
}

/// What has the shape of a derived name is not changed by deriving.
proof fn lemma_plain_stays(name: Seq<char>, n: int)
    requires
        is_plain(name),
        name.len() <= 64,
        0 <= n <= name.len(),
    ensures
        lowercased(name.take(n)) == name.take(n),
        slug(name.take(n)) == name.take(n),
    decreases n,
{
    if n > 0 {
        lemma_plain_stays(name, n - 1);
        let front = name.take(n);
        assert(front.drop_last() =~= name.take(n - 1));
        assert(front.last() == name[n - 1]);
        assert(crate::text::lowercase(front.last()) =~= seq![front.last()]);
        assert(lowercased(front) =~= front);
        if n > 1 {
            assert(name.take(n - 1).last() == name[n - 2]);
        }
        assert(name.take(n - 1).push(name[n - 1]) =~= front);
    } else {
        assert(name.take(0) =~= Seq::<char>::empty());
    }
}

/// A derived name consists of letters, digits and single dashes between them, so
/// it holds no underscore, no two dashes in a row and none at either end; it is its
/// own derived name; and where nothing of the id can be used, it is `session`.
pub proof fn law_default_name_is_plain(app_id: Seq<char>)
    ensures
        ({
            let name = default_name(app_id);
            &&& is_plain(name)
            &&& !name.contains('_')
            &&& default_name(name) == name
            &&& (forall|i: int|
                0 <= i < lowercased(app_id).len() ==> !is_name_start(
                    #[trigger] lowercased(app_id)[i],
                )) ==> name == "session"@
        }),
{
    let s = slug(lowercased(app_id));
    let name = default_name(app_id);
    law_default_name_is_valid(app_id);
    lemma_slug_dashes(lowercased(app_id));
    lemma_trim(s);
    lemma_trim_ends(s);
    reveal_strlit("session");
    let trimmed = without_trailing_dashes(s);
    if trimmed.len() > 0 {
        assert forall|i: int| 0 <= i < name.len() implies #[trigger] name[i] == s[i] by {}
    }
    assert(is_plain(name));
    lemma_plain_stays(name, name.len() as int);
    assert(name.take(name.len() as int) =~= name);
}

/// The session name derived from an application id.
pub fn default_session_name(app_id: &str) -> (r: String)
    ensures
        r@ == default_name(app_id@),
        valid_name(r@),
{
    proof {
        law_default_name_is_valid(app_id@);
    }
    let chars = chars_of(app_id);
    let mut result: Vec<char> = Vec::new();
    let mut i: usize = 0;
    while i < chars.len()
        invariant
            i <= chars.len(),
            chars@ == app_id@,
            result@ == slug(lowercased(chars@.take(i as int))),
        decreases chars.len() - i,
    {
        let mapped = char_to_lowercase(chars[i]);
        let ghost before = lowercased(chars@.take(i as int));
        let mut j: usize = 0;
        assert(before + mapped@.take(0) =~= before);
        while j < mapped.len()
            invariant
                j <= mapped.len(),
                result@ == slug(before + mapped@.take(j as int)),
            decreases mapped.len() - j,
        {
            let c = mapped[j];
            assert((before + mapped@.take(j as int + 1)).drop_last() =~= before + mapped@.take(
                j as int,
            ));
            // Lowercasing leaves no ASCII capital behind: small letters and
            // digits are all the ASCII alphanumerics that can occur here.
            if result.len() < 64 {
                if ('a' <= c && c <= 'z') || ('0' <= c && c <= '9') {
                    result.push(c);
                } else if result.len() > 0 && result[result.len() - 1] != '-' {
                    result.push('-');
                }
            }
            j += 1;
        }
        proof {
            assert(mapped@.take(mapped@.len() as int) =~= mapped@);
            assert(chars@.take(i as int + 1).drop_last() =~= chars@.take(i as int));
        }
        i += 1;
    }
    assert(chars@.take(chars@.len() as int) =~= chars@);
    let ghost full = result@;
    while result.len() > 0 && result[result.len() - 1] == '-'
        invariant
            without_trailing_dashes(result@) == without_trailing_dashes(full),
        decreases result.len(),
    {
        let ghost held = result@;
        let _ = result.pop();
        assert(result@ =~= held.drop_last());
    }
    if result.len() == 0 {
        "session".to_owned()
    } else {
        string_of(&result)
    }
}

impl RegistryError {
    /// The message that goes with the error.
    pub open spec fn message_text(&self) -> Seq<char> {
        match self {
            RegistryError::InvalidName(name) => "invalid session name: "@ + name@,
            RegistryError::AlreadyExists(name) => "session already exists: "@ + name@,
            RegistryError::NotFound(name) => "session not found: "@ + name@,
            RegistryError::Read { path, source } => "failed to read registry "@ + path@ + ": "@
                + source@,
            RegistryError::Decode { path, source } => "failed to decode registry "@ + path@ + ": "@
                + source@,
            RegistryError::UnsupportedVersion(version) => "unsupported registry version "@
                + crate::text::decimal(*version as nat),
            RegistryError::Persist { path, source } => "failed to persist registry "@ + path@
                + ": "@ + source@,
        }
    }

    pub fn message(&self) -> (r: String)
        ensures
            r@ == self.message_text(),
    {
        match self {
            RegistryError::InvalidName(name) => join2("invalid session name: ", name.as_str()),
            RegistryError::AlreadyExists(name) => join2("session already exists: ", name.as_str()),
            RegistryError::NotFound(name) => join2("session not found: ", name.as_str()),
            RegistryError::Read { path, source } => join4(
                "failed to read registry ",
                path.as_str(),
                ": ",
                source.as_str(),
            ),
            RegistryError::Decode { path, source } => join4(
                "failed to decode registry ",
                path.as_str(),
                ": ",
                source.as_str(),
            ),
            RegistryError::UnsupportedVersion(version) => {
                let mut text = "unsupported registry version ".to_owned();
                push_decimal(&mut text, *version as u64);
                text
            },
            RegistryError::Persist { path, source } => join4(
                "failed to persist registry ",
                path.as_str(),
                ": ",
                source.as_str(),
            ),
        }
    }
}

/// What the registry file holds.
#[derive(Debug, PartialEq, Eq)]
pub struct RegistryFile {
    pub version: u16,
    pub sessions: Vec<Session>,
}

/// `list` holds the sessions of `map`, each once, in the order of their names.
pub open spec fn lists(map: Map<Seq<char>, Session>, list: Seq<Session>) -> bool {
    &&& list.len() == map.dom().len()
    &&& forall|i: int, j: int|
        0 <= i < j < list.len() ==> crate::text::text_before(
            (#[trigger] list[i]).name@,
            (#[trigger] list[j]).name@,
        )
    &&& forall|i: int|
        0 <= i < list.len() ==> map.dom().contains((#[trigger] list[i]).name@)
            && map[list[i].name@] == list[i]
    &&& forall|k: Seq<char>| #[trigger]
        map.dom().contains(k) ==> exists|i: int| 0 <= i < list.len() && (#[trigger] list[i]).name@ == k
}

/// `file` is what the registry file holds when the sessions are `map`.
pub open spec fn snapshot_of(file: RegistryFile, map: Map<Seq<char>, Session>) -> bool {
    file.version == REGISTRY_VERSION && lists(map, file.sessions@)
}

/// `save` was handed a snapshot of `map` and answered `outcome`.
pub open spec fn saved<S: FnOnce(&RegistryFile) -> Result<(), String>>(
    save: S,
    map: Map<Seq<char>, Session>,
    outcome: Result<(), String>,
) -> bool {
    exists|file: RegistryFile| #[trigger]
        snapshot_of(file, map) && call_ensures(save, (&file,), outcome)
}

/// `save` can be handed a snapshot of `map`.
pub open spec fn can_save<S: FnOnce(&RegistryFile) -> Result<(), String>>(
    save: S,
    map: Map<Seq<char>, Session>,
) -> bool {
    forall|file: &RegistryFile|
        snapshot_of(*file, map) ==> #[trigger] call_requires(save, (file,))
}

/// The sessions of a list by name; of two with one name the later counts.
pub open spec fn by_name(list: Seq<Session>) -> Map<Seq<char>, Session>
    decreases list.len(),
{
    if list.len() == 0 {
        Map::empty()
    } else {
        by_name(list.drop_last()).insert(list.last().name@, list.last())
    }
}

/// A session with one client more, attached at `now_ms`.
pub open spec fn attached(session: Session, now_ms: u64) -> Session {
    Session {
        last_attached_at_ms: Some(now_ms),
        client_count: if session.client_count == u32::MAX {
            u32::MAX
        } else {
            (session.client_count + 1) as u32
        },
        ..session
    }
}

/// A session with one client less.
pub open spec fn detached(session: Session) -> Session {
    Session {
        client_count: if session.client_count == 0 {
            0
        } else {
            (session.client_count - 1) as u32
        },
        ..session
    }
}

/// A session whose processes are gone.
pub open spec fn stopped(session: Session) -> Session {
    Session { client_count: 0, status: SessionStatus::Stopped, ..session }
}

pub open spec fn is_live(session: Session) -> bool {
    session.status == SessionStatus::Starting || session.status == SessionStatus::Running
}

/// `after` is what reconciling `before` may leave, given what `is_alive` answers:
/// a live session with a dead process is stopped, everything else stays.
pub open spec fn reconciled<F: Fn(u32) -> bool>(
    is_alive: F,
    before: Session,
    after: Session,
) -> bool {
    if is_live(before) {
        ||| {
            &&& after == stopped(before)
            &&& call_ensures(is_alive, (before.app_pid,), false) || call_ensures(
                is_alive,
                (before.daemon_pid,),
                false,
            )
        }
        ||| {
            &&& after == before
            &&& call_ensures(is_alive, (before.app_pid,), true)
            &&& call_ensures(is_alive, (before.daemon_pid,), true)
        }
    } else {
        after == before
    }
}

/// Adding a session ends with `r`.
pub open spec fn inserted<S: FnOnce(&RegistryFile) -> Result<(), String>>(
    save: S,
    before: Map<Seq<char>, Session>,
    file_path: Seq<char>,
    session: Session,
    r: Result<(), RegistryError>,
    after: Map<Seq<char>, Session>,
) -> bool {
    let name = session.name@;
    let next = before.insert(name, session);
    match r {
        Ok(()) => {
            &&& valid_name(name)
            &&& !before.dom().contains(name)
            &&& after == next
            &&& saved(save, next, Ok(()))
        },
        Err(error) => {
            &&& after == before
            &&& match error {
                RegistryError::InvalidName(n) => n@ == name && !valid_name(name),
                RegistryError::AlreadyExists(n) => n@ == name && valid_name(name)
                    && before.dom().contains(name),
                RegistryError::Persist { path, source } => valid_name(name)
                    && !before.dom().contains(name) && path@
                    == file_path && saved(save, next, Err(source)),
                _ => false,
            }
        },
    }
}

/// Giving a session another record ends with `r`.
pub open spec fn replaced<S: FnOnce(&RegistryFile) -> Result<(), String>>(
    save: S,
    before: Map<Seq<char>, Session>,
    file_path: Seq<char>,
    session: Session,
    r: Result<(), RegistryError>,
    after: Map<Seq<char>, Session>,
) -> bool {
    let name = session.name@;
    let next = before.insert(name, session);
    match r {
        Ok(()) => {
            &&& before.dom().contains(name)
            &&& after == next
            &&& saved(save, next, Ok(()))
        },
        Err(error) => {
            &&& after == before
            &&& match error {
                RegistryError::InvalidName(n) => n@ == name && !valid_name(name),
                RegistryError::NotFound(n) => n@ == name && valid_name(name)
                    && !before.dom().contains(name),
                RegistryError::Persist { path, source } => before.dom().contains(
                    name,
                ) && path@ == file_path && saved(save, next, Err(source)),
                _ => false,
            }
        },
    }
}

/// Writing `session` in the place of the one of that name ends with `r`.
pub open spec fn marked<S: FnOnce(&RegistryFile) -> Result<(), String>>(
    save: S,
    before: Map<Seq<char>, Session>,
    file_path: Seq<char>,
    name: Seq<char>,
    session: Session,
    r: Result<Session, RegistryError>,
    after: Map<Seq<char>, Session>,
) -> bool {
    let next = before.insert(name, session);
    match r {
        Ok(result) => {
            &&& before.dom().contains(name)
            &&& result == session
            &&& after == next
            &&& saved(save, next, Ok(()))
        },
        Err(error) => {
            &&& after == before
            &&& match error {
                RegistryError::NotFound(n) => n@ == name && !before.dom().contains(name),
                RegistryError::Persist { path, source } => before.dom().contains(name) && path@
                    == file_path && saved(save, next, Err(source)),
                _ => false,
            }
        },
    }
}

/// Taking a session out ends with `r`.
pub open spec fn taken_out<S: FnOnce(&RegistryFile) -> Result<(), String>>(
    save: S,
    before: Map<Seq<char>, Session>,
    file_path: Seq<char>,
    name: Seq<char>,
    r: Result<Session, RegistryError>,
    after: Map<Seq<char>, Session>,
) -> bool {
    let next = before.remove(name);
    match r {
        Ok(session) => {
            &&& before.dom().contains(name)
            &&& session == before[name]
            &&& after == next
            &&& saved(save, next, Ok(()))
        },
        Err(error) => {
            &&& after == before
            &&& match error {
                RegistryError::NotFound(n) => n@ == name
                    && !before.dom().contains(name),
                RegistryError::Persist { path, source } => before.dom().contains(
                    name,
                ) && path@ == file_path && saved(save, next, Err(source)),
                _ => false,
            }
        },
    }
}

/// The sessions by name, and where they are kept on disk.
pub struct Registry {
    path: String,
    sessions: SortedMap<String, Session>,
}

impl View for Registry {
    type V = Map<Seq<char>, Session>;

    closed spec fn view(&self) -> Map<Seq<char>, Session> {
        self.sessions@
    }
}

/// Opening the registry at `path` ends with `r`.
pub open spec fn is_opened(
    path: Seq<char>,
    stored: Option<RegistryFile>,
    r: Result<Registry, RegistryError>,
) -> bool {
    match r {
        Ok(registry) => {
            &&& registry.wf()
            &&& registry.spec_path() == path
            &&& match stored {
                None => registry@ == Map::<Seq<char>, Session>::empty(),
                Some(file) => {
                    &&& file.version == REGISTRY_VERSION
                    &&& forall|i: int|
                        0 <= i < file.sessions@.len() ==> valid_name(
                            (#[trigger] file.sessions@[i]).name@,
                        )
                    &&& registry@ == by_name(file.sessions@)
                },
            }
        },
        Err(RegistryError::UnsupportedVersion(version)) => stored is Some && version
            == stored->0.version && version != REGISTRY_VERSION,
        Err(RegistryError::InvalidName(name)) => {
            &&& stored is Some
            &&& stored->0.version == REGISTRY_VERSION
            &&& exists|i: int|
                {
                    &&& 0 <= i < stored->0.sessions@.len()
                    &&& (#[trigger] stored->0.sessions@[i]).name@ == name@
                    &&& !valid_name(name@)
                    &&& forall|j: int|
                        0 <= j < i ==> valid_name((#[trigger] stored->0.sessions@[j]).name@)
                }
        },
        Err(_) => false,
    }
}

impl Registry {
    /// Every session stands under its own name, and the name is valid.
    pub closed spec fn wf(&self) -> bool {
        &&& self.sessions.wf()
        &&& forall|k: Seq<char>| #[trigger]
            self@.dom().contains(k) ==> self@[k].name@ == k && valid_name(k)
    }

    pub closed spec fn spec_path(&self) -> Seq<char> {
        self.path@
    }

    /// What is known of the keys and the size of a registry.
    pub proof fn lemma_wf(&self)
        requires
            self.wf(),
        ensures
            self@.dom().finite(),
            forall|k: Seq<char>| #[trigger]
                self@.dom().contains(k) ==> self@[k].name@ == k && valid_name(k),
    {
        self.sessions.lemma_rows();
    }

    /// The registry at `path`: empty where there is no file, and otherwise what
    /// the file holds. A file of another version is refused, and so is one with
    /// a session whose name is not valid (the first such name is reported).
    pub fn open(path: String, stored: Option<RegistryFile>) -> (r: Result<Self, RegistryError>)
        ensures
            is_opened(path@, stored, r),
    {
        let mut sessions: SortedMap<String, Session> = SortedMap::new();
        let file = match stored {
            None => {
                return Ok(Registry { path, sessions });
            },
            Some(file) => file,
        };
        if file.version != REGISTRY_VERSION {
            return Err(RegistryError::UnsupportedVersion(file.version));
        }
        let list = file.sessions;
        let mut i: usize = 0;
        while i < list.len()
            invariant
                i <= list.len(),
                sessions.wf(),
                sessions@ == by_name(list@.take(i as int)),
                forall|j: int| 0 <= j < i ==> valid_name((#[trigger] list@[j]).name@),
                forall|k: Seq<char>| #[trigger]
                    sessions@.dom().contains(k) ==> sessions@[k].name@ == k && valid_name(k),
                stored is Some,
                stored->0.version == REGISTRY_VERSION,
                stored->0.sessions == list,
            decreases list.len() - i,
        {
            match validate_session_name(list[i].name.as_str()) {
                Err(error) => {
                    assert(list@[i as int].name@ == error->InvalidName_0@);
                    return Err(error);
                },
                Ok(()) => {},
            }
            let session = list[i].clone();
            let _ = sessions.insert(session.name.clone(), session);
            assert(list@.take(i as int + 1).drop_last() =~= list@.take(i as int));
            i += 1;
        }
        assert(list@.take(list@.len() as int) =~= list@);
        Ok(Registry { path, sessions })
    }

    pub fn path(&self) -> (r: &String)
        ensures
            r@ == self.spec_path(),
    {
        &self.path
    }

    /// The sessions in the order of their names.
    pub fn list(&self) -> (r: Vec<Session>)
        requires
            self.wf(),
        ensures
            lists(self@, r@),
    {
        proof {
            self.sessions.lemma_rows();
        }
        let mut out: Vec<Session> = Vec::new();
        let mut i: usize = 0;
        while i < self.sessions.len()
            invariant
                i <= self.sessions.rows().len(),
                out@.len() == i,
                forall|j: int| 0 <= j < i ==> #[trigger] out@[j] == self.sessions.rows()[j].1,
            decreases self.sessions.rows().len() - i,
        {
            out.push(self.sessions.value_at(i).clone());
            i += 1;
        }
        proof {
            let rows = self.sessions.rows();
            assert forall|j: int| 0 <= j < rows.len() implies (#[trigger] out@[j]).name@
                == rows[j].0@ by {
                assert(self@.dom().contains(rows[j].0@));
            }
            assert forall|k: Seq<char>| #[trigger] self@.dom().contains(k) implies exists|j: int|
                0 <= j < out@.len() && (#[trigger] out@[j]).name@ == k by {
                let j = choose|j: int| crate::sorted_map::row_has(rows, j, k);
                assert(crate::sorted_map::row_has(rows, j, k));
                assert(out@[j].name@ == k);
            }
            assert forall|a: int, b: int| 0 <= a < b < out@.len() implies crate::text::text_before(
                (#[trigger] out@[a]).name@,
                (#[trigger] out@[b]).name@,
            ) by {
                let _ = (rows[a], rows[b]);
            }
        }
        out
    }

    /// What the registry file is to hold.
    pub fn snapshot(&self) -> (r: RegistryFile)
        requires
            self.wf(),
        ensures
            snapshot_of(r, self@),
    {
        RegistryFile { version: REGISTRY_VERSION, sessions: self.list() }
    }

    pub fn get(&self, name: &str) -> (r: Option<&Session>)
        requires
            self.wf(),
        ensures
            match r {
                Some(session) => self@.dom().contains(name@) && *session == self@[name@],
                None => !self@.dom().contains(name@),
            },
    {
        self.sessions.get(&name.to_owned())
    }

    pub fn is_empty(&self) -> (r: bool)
        requires
            self.wf(),
        ensures
            r == (self@ == Map::<Seq<char>, Session>::empty()),
    {
        proof {
            self.sessions.lemma_rows();
            if self.sessions.rows().len() == 0 {
                assert(self@ =~= Map::<Seq<char>, Session>::empty());
            }
        }
        self.sessions.len() == 0
    }

    /// Hands `save` the registry as it stands.
    pub fn save<S: FnOnce(&RegistryFile) -> Result<(), String>>(&self, save: S) -> (r: Result<
        (),
        RegistryError,
    >)
        requires
            self.wf(),
            can_save(save, self@),
        ensures
            match r {
                Ok(()) => saved(save, self@, Ok(())),
                Err(RegistryError::Persist { path, source }) => path@ == self.spec_path() && saved(
                    save,
                    self@,
                    Err(source),
                ),
                Err(_) => false,
            },
    {
        let file = self.snapshot();
        let outcome = save(&file);
        assert(snapshot_of(file, self@) && call_ensures(save, (&file,), outcome));
        match outcome {
            Ok(done) => {
                assert(done == ());
                Ok(())
            },
            Err(source) => Err(RegistryError::Persist { path: self.path.clone(), source }),
        }
    }

    /// Adds a session. The name has to be valid and free; where the registry
    /// cannot be saved nothing is added.
    pub fn insert<S: FnOnce(&RegistryFile) -> Result<(), String>>(
        &mut self,
        session: Session,
        save: S,
    ) -> (r: Result<(), RegistryError>)
        requires
            old(self).wf(),
            valid_name(session.name@) && !old(self)@.dom().contains(session.name@) ==> can_save(
                save,
                old(self)@.insert(session.name@, session),
            ),
        ensures
            final(self).wf(),
            final(self).spec_path() == old(self).spec_path(),
            inserted(
                save,
                old(self)@,
                old(self).spec_path(),
                session,
                r,
                final(self)@,
            ),
    {
        match validate_session_name(session.name.as_str()) {
            Err(error) => {
                return Err(error);
            },
            Ok(()) => {},
        }
        if self.sessions.contains_key(&session.name) {
            return Err(RegistryError::AlreadyExists(session.name));
        }
        let name = session.name.clone();
        let _ = self.sessions.insert(name.clone(), session);
        match self.save(save) {
            Ok(()) => Ok(()),
            Err(error) => {
                let _ = self.sessions.remove(&name);
                assert(self@ =~= old(self)@);
                Err(error)
            },
        }
    }

    /// Gives an existing session another record. Where the registry cannot be
    /// saved the old record stays.
    pub fn replace<S: FnOnce(&RegistryFile) -> Result<(), String>>(
        &mut self,
        session: Session,
        save: S,
    ) -> (r: Result<(), RegistryError>)
        requires
            old(self).wf(),
            old(self)@.dom().contains(session.name@) ==> can_save(
                save,
                old(self)@.insert(session.name@, session),
            ),
        ensures
            final(self).wf(),
            final(self).spec_path() == old(self).spec_path(),
            replaced(
                save,
                old(self)@,
                old(self).spec_path(),
                session,
                r,
                final(self)@,
            ),
    {
        match validate_session_name(session.name.as_str()) {
            Err(error) => {
                return Err(error);
            },
            Ok(()) => {},
        }
        if !self.sessions.contains_key(&session.name) {
            return Err(RegistryError::NotFound(session.name));
        }
        self.store(session, save)
    }

    /// Puts a record in the place of the one with its name, saves, and puts the
    /// old record back where that fails.
    fn store<S: FnOnce(&RegistryFile) -> Result<(), String>>(
        &mut self,
        session: Session,
        save: S,
    ) -> (r: Result<(), RegistryError>)
        requires
            old(self).wf(),
            old(self)@.dom().contains(session.name@),
            can_save(save, old(self)@.insert(session.name@, session)),
        ensures
            final(self).wf(),
            final(self).spec_path() == old(self).spec_path(),
            ({
                let next = old(self)@.insert(session.name@, session);
                match r {
                    Ok(()) => final(self)@ == next && saved(save, next, Ok(())),
                    Err(RegistryError::Persist { path, source }) => final(self)@ == old(self)@
                        && path@ == old(self).spec_path() && saved(save, next, Err(source)),
                    Err(_) => false,
                }
            }),
    {
        let name = session.name.clone();
        let previous = self.sessions.insert(name.clone(), session);
        match self.save(save) {
            Ok(()) => Ok(()),
            Err(error) => {
                match previous {
                    Some(previous) => {
                        let _ = self.sessions.insert(name, previous);
                    },
                    None => {},
                }
                assert(self@ =~= old(self)@);
                Err(error)
            },
        }
    }

    /// Takes a session out. Where the registry cannot be saved it stays.
    pub fn remove<S: FnOnce(&RegistryFile) -> Result<(), String>>(
        &mut self,
        name: &str,
        save: S,
    ) -> (r: Result<Session, RegistryError>)
        requires
            old(self).wf(),
            old(self)@.dom().contains(name@) ==> can_save(save, old(self)@.remove(name@)),
        ensures
            final(self).wf(),
            final(self).spec_path() == old(self).spec_path(),
            taken_out(
                save,
                old(self)@,
                old(self).spec_path(),
                name@,
                r,
                final(self)@,
            ),
    {
        let key = name.to_owned();
        let session = match self.sessions.remove(&key) {
            None => {
                assert(self@ =~= old(self)@);
                return Err(RegistryError::NotFound(key));
            },
            Some(session) => session,
        };
        match self.save(save) {
            Ok(()) => Ok(session),
            Err(error) => {
                let _ = self.sessions.insert(key, session);
                assert(self@ =~= old(self)@);
                Err(error)
            },
        }
    }

    /// Counts one client more. Where the registry cannot be saved the session
    /// stays as it was.
    pub fn mark_attached<S: FnOnce(&RegistryFile) -> Result<(), String>>(
        &mut self,
        name: &str,
        now_ms: u64,
        save: S,
    ) -> (r: Result<Session, RegistryError>)
        requires
            old(self).wf(),
            old(self)@.dom().contains(name@) ==> can_save(
                save,
                old(self)@.insert(name@, attached(old(self)@[name@], now_ms)),
            ),
        ensures
            final(self).wf(),
            final(self).spec_path() == old(self).spec_path(),
            marked(
                save,
                old(self)@,
                old(self).spec_path(),
                name@,
                attached(old(self)@[name@], now_ms),
                r,
                final(self)@,
            ),
    {
        let mut session = match self.get(name) {
            None => {
                return Err(RegistryError::NotFound(name.to_owned()));
            },
            Some(session) => session.clone(),
        };
        session.last_attached_at_ms = Some(now_ms);
        session.client_count = session.client_count.saturating_add(1);
        let result = session.clone();
        match self.store(session, save) {
            Ok(()) => Ok(result),
            Err(error) => Err(error),
        }
    }

    /// Counts one client less. Where the registry cannot be saved the session
    /// stays as it was.
    pub fn mark_detached<S: FnOnce(&RegistryFile) -> Result<(), String>>(
        &mut self,
        name: &str,
        save: S,
    ) -> (r: Result<Session, RegistryError>)
        requires
            old(self).wf(),
            old(self)@.dom().contains(name@) ==> can_save(
                save,
                old(self)@.insert(name@, detached(old(self)@[name@])),
            ),
        ensures
            final(self).wf(),
            final(self).spec_path() == old(self).spec_path(),
            marked(
                save,
                old(self)@,
                old(self).spec_path(),
                name@,
                detached(old(self)@[name@]),
                r,
                final(self)@,
            ),
    {
        let mut session = match self.get(name) {
            None => {
                return Err(RegistryError::NotFound(name.to_owned()));
            },
            Some(session) => session.clone(),
        };
        session.client_count = session.client_count.saturating_sub(1);
        let result = session.clone();
        match self.store(session, save) {
            Ok(()) => Ok(result),
            Err(error) => Err(error),
        }
    }

    /// Marks the live sessions with a dead process as stopped. The registry is
    /// saved only if that changed something, and stays as it was where saving
    /// fails.
    pub fn reconcile<F: Fn(u32) -> bool, S: FnOnce(&RegistryFile) -> Result<(), String>>(
        &mut self,
        is_alive: F,
        save: S,
    ) -> (r: Result<bool, RegistryError>)
        requires
            old(self).wf(),
            forall|pid: u32| call_requires(is_alive, (pid,)),
            forall|next: Map<Seq<char>, Session>| #[trigger]
                all_reconciled(is_alive, old(self)@, next) && next != old(self)@ ==> can_save(
                    save,
                    next,
                ),
        ensures
            final(self).wf(),
            final(self).spec_path() == old(self).spec_path(),
            match r {
                Ok(changed) => {
                    &&& all_reconciled(is_alive, old(self)@, final(self)@)
                    &&& changed == (final(self)@ != old(self)@)
                    &&& changed ==> saved(save, final(self)@, Ok(()))
                },
                Err(RegistryError::Persist { path, source }) => {
                    &&& final(self)@ == old(self)@
                    &&& path@ == old(self).spec_path()
                    &&& exists|next: Map<Seq<char>, Session>|
                        {
                            &&& #[trigger] all_reconciled(is_alive, old(self)@, next)
                            &&& next != old(self)@
                            &&& saved(save, next, Err(source))
                        }
                },
                Err(_) => false,
            },
    {
        let previous = self.list_rows();
        let ghost rows = self.sessions.rows();
        let mut changed: bool = false;
        let mut i: usize = 0;
        proof {
            self.sessions.lemma_rows();
        }
        while i < self.sessions.len()
            invariant
                i <= self.sessions.rows().len(),
                self.sessions.wf(),
                self.path == old(self).path,
                crate::sorted_map::sorted_rows(rows),
                rows == old(self).sessions.rows(),
                old(self).wf(),
                self.sessions.rows().len() == rows.len(),
                forall|pid: u32| call_requires(is_alive, (pid,)),
                forall|j: int|
                    0 <= j < rows.len() ==> (#[trigger] self.sessions.rows()[j]).0 == rows[j].0,
                forall|j: int|
                    0 <= j < i ==> reconciled(
                        is_alive,
                        rows[j].1,
                        (#[trigger] self.sessions.rows()[j]).1,
                    ),
                forall|j: int|
                    i <= j < rows.len() ==> #[trigger] self.sessions.rows()[j] == rows[j],
                changed == exists|j: int|
                    0 <= j < i && (#[trigger] self.sessions.rows()[j]).1 != rows[j].1,
            decreases self.sessions.rows().len() - i,
        {
            let ghost before = self.sessions.rows();
            let session = self.sessions.value_at(i).clone();
            let live: bool = session.status == SessionStatus::Starting || session.status
                == SessionStatus::Running;
            if live && (!is_alive(session.app_pid) || !is_alive(session.daemon_pid)) {
                let mut session = session;
                session.status = SessionStatus::Stopped;
                session.client_count = 0;
                let _ = self.sessions.set_at(i, session);
                changed = true;
                assert(self.sessions.rows()[i as int].1 != rows[i as int].1);
            }
            proof {
                assert(reconciled(is_alive, rows[i as int].1, self.sessions.rows()[i as int].1));
                assert forall|j: int| 0 <= j < i implies #[trigger] self.sessions.rows()[j]
                    == before[j] by {}
                if exists|j: int| 0 <= j < i && (#[trigger] before[j]).1 != rows[j].1 {
                    let j = choose|j: int| 0 <= j < i && (#[trigger] before[j]).1 != rows[j].1;
                    assert(self.sessions.rows()[j].1 != rows[j].1);
                }
            }
            i += 1;
        }
        let ghost next = self.sessions.rows();
        proof {
            lemma_reconciled_rows(is_alive, rows, next, changed);
            self.sessions.lemma_rows();
            old(self).sessions.lemma_rows();
            assert forall|k: Seq<char>| #[trigger] self@.dom().contains(k) implies self@[k].name@
                == k && valid_name(k) by {
                assert(old(self)@.dom().contains(k));
                assert(reconciled(is_alive, old(self)@[k], self@[k]));
            }
        }
        if changed {
            match self.save(save) {
                Ok(()) => {},
                Err(error) => {
                    self.restore_rows(previous);
                    assert(self.sessions.rows() =~= rows);
                    proof {
                        self.sessions.lemma_rows();
                    }
                    assert(all_reconciled(
                        is_alive,
                        old(self)@,
                        crate::sorted_map::rows_map(next),
                    ));
                    return Err(error);
                },
            }
        }
        Ok(changed)
    }

    /// The sessions row by row.
    fn list_rows(&self) -> (r: Vec<Session>)
        ensures
            r@.len() == self.sessions.rows().len(),
            forall|j: int|
                0 <= j < r@.len() ==> #[trigger] r@[j] == self.sessions.rows()[j].1,
    {
        let mut out: Vec<Session> = Vec::new();
        let mut i: usize = 0;
        while i < self.sessions.len()
            invariant
                i <= self.sessions.rows().len(),
                out@.len() == i,
                forall|j: int| 0 <= j < i ==> #[trigger] out@[j] == self.sessions.rows()[j].1,
            decreases self.sessions.rows().len() - i,
        {
            out.push(self.sessions.value_at(i).clone());
            i += 1;
        }
        out
    }

    /// Puts the sessions back row by row.
    fn restore_rows(&mut self, previous: Vec<Session>)
        requires
            old(self).sessions.wf(),
            previous@.len() == old(self).sessions.rows().len(),
        ensures
            final(self).sessions.wf(),
            final(self).path == old(self).path,
            final(self).sessions.rows().len() == previous@.len(),
            forall|j: int|
                0 <= j < previous@.len() ==> #[trigger] final(self).sessions.rows()[j] == (
                    old(self).sessions.rows()[j].0,
                    previous@[j],
                ),
    {
        let mut i: usize = 0;
        while i < previous.len()
            invariant
                i <= previous@.len(),
                self.sessions.wf(),
                self.path == old(self).path,
                self.sessions.rows().len() == previous@.len(),
                self.sessions.rows().len() == old(self).sessions.rows().len(),
                forall|j: int|
                    0 <= j < i ==> #[trigger] self.sessions.rows()[j] == (
                        old(self).sessions.rows()[j].0,
                        previous@[j],
                    ),
                forall|j: int|
                    i <= j < previous@.len() ==> (#[trigger] self.sessions.rows()[j]).0
                        == old(self).sessions.rows()[j].0,
            decreases previous@.len() - i,
        {
            let _ = self.sessions.set_at(i, previous[i].clone());
            i += 1;
        }
    }
}

/// Every session of `before` is reconciled in `after`, and no other is there.
pub open spec fn all_reconciled<F: Fn(u32) -> bool>(
    is_alive: F,
    before: Map<Seq<char>, Session>,
    after: Map<Seq<char>, Session>,
) -> bool {
    &&& after.dom() == before.dom()
    &&& forall|k: Seq<char>| #[trigger]
        before.dom().contains(k) ==> reconciled(is_alive, before[k], after[k])
}

proof fn lemma_reconciled_rows<F: Fn(u32) -> bool>(
    is_alive: F,
    before: Seq<(String, Session)>,
    after: Seq<(String, Session)>,
    changed: bool,
)
    requires
        crate::sorted_map::sorted_rows(before),
        before.len() == after.len(),
        forall|j: int| 0 <= j < before.len() ==> (#[trigger] after[j]).0 == before[j].0,
        forall|j: int|
            0 <= j < before.len() ==> reconciled(is_alive, before[j].1, (#[trigger] after[j]).1),
        changed == exists|j: int|
            0 <= j < before.len() && (#[trigger] after[j]).1 != before[j].1,
    ensures
        crate::sorted_map::sorted_rows(after),
        all_reconciled(
            is_alive,
            crate::sorted_map::rows_map(before),
            crate::sorted_map::rows_map(after),
        ),
        changed == (crate::sorted_map::rows_map(before) != crate::sorted_map::rows_map(after)),
{
    let a = crate::sorted_map::rows_map(before);
    let b = crate::sorted_map::rows_map(after);
    assert(crate::sorted_map::sorted_rows(after)) by {
        assert forall|i: int, j: int| 0 <= i < j < after.len() implies crate::text::text_before(
            (#[trigger] after[i]).0@,
            (#[trigger] after[j]).0@,
        ) by {
            assert(after[i].0 == before[i].0 && after[j].0 == before[j].0);
        }
    }
    assert forall|k: Seq<char>| a.dom().contains(k) == b.dom().contains(k) by {
        if a.dom().contains(k) {
            let i = choose|i: int| crate::sorted_map::row_has(before, i, k);
            assert(crate::sorted_map::row_has(after, i, k));
        }
        if b.dom().contains(k) {
            let i = choose|i: int| crate::sorted_map::row_has(after, i, k);
            assert(crate::sorted_map::row_has(before, i, k));
        }
    }
    assert(a.dom() =~= b.dom());
    assert forall|k: Seq<char>| #[trigger] a.dom().contains(k) implies reconciled(
        is_alive,
        a[k],
        b[k],
    ) && (!changed ==> a[k] == b[k]) by {
        let i = choose|i: int| crate::sorted_map::row_has(before, i, k);
        assert(crate::sorted_map::row_has(before, i, k));
        assert(after[i].0 == before[i].0);
        crate::sorted_map::lemma_row(before, i);
        crate::sorted_map::lemma_row(after, i);
    }
    if changed {
        let j = choose|j: int| 0 <= j < before.len() && (#[trigger] after[j]).1 != before[j].1;
        crate::sorted_map::lemma_row(before, j);
        crate::sorted_map::lemma_row(after, j);
        assert(a[before[j].0@] != b[before[j].0@]);
    } else {
        assert(a =~= b);
    }
}

proof fn lemma_by_name(list: Seq<Session>)
    requires
        forall|i: int, j: int|
            0 <= i < j < list.len() ==> (#[trigger] list[i]).name@ != (#[trigger] list[j]).name@,
    ensures
        forall|i: int|
            0 <= i < list.len() ==> by_name(list).dom().contains((#[trigger] list[i]).name@)
                && by_name(list)[list[i].name@] == list[i],
        forall|k: Seq<char>| #[trigger]
            by_name(list).dom().contains(k) ==> exists|i: int|
                0 <= i < list.len() && (#[trigger] list[i]).name@ == k,
    decreases list.len(),
{
    if list.len() > 0 {
        let front = list.drop_last();
        assert forall|i: int, j: int| 0 <= i < j < front.len() implies (#[trigger] front[i]).name@
            != (#[trigger] front[j]).name@ by {
            assert(front[i] == list[i] && front[j] == list[j]);
        }
        lemma_by_name(front);
        let last = list.len() - 1;
        assert forall|i: int| 0 <= i < list.len() implies by_name(list).dom().contains(
            (#[trigger] list[i]).name@,
        ) && by_name(list)[list[i].name@] == list[i] by {
            if i < last {
                assert(front[i] == list[i]);
                assert(list[i].name@ != list[last].name@);
            }
        }
        assert forall|k: Seq<char>| #[trigger] by_name(list).dom().contains(k) implies exists|
            i: int,
        |
            0 <= i < list.len() && (#[trigger] list[i]).name@ == k by {
            if k == list[last].name@ {
                assert(list[last].name@ == k);
            } else {
                assert(by_name(front).dom().contains(k));
                let i = choose|i: int| 0 <= i < front.len() && (#[trigger] front[i]).name@ == k;
                assert(list[i].name@ == k);
            }
        }
    }
}

/// Reading a registry file gives back the sessions that were written to it, and
/// never an error: opening what `snapshot` returned restores the registry.
pub proof fn law_reopening_restores(registry: Registry, file: RegistryFile)
    requires
        registry.wf(),
        snapshot_of(file, registry@),
    ensures
        file.version == REGISTRY_VERSION,
        forall|i: int|
            0 <= i < file.sessions@.len() ==> valid_name((#[trigger] file.sessions@[i]).name@),
        by_name(file.sessions@) == registry@,
{
    let list = file.sessions@;
    registry.lemma_wf();
    assert forall|i: int, j: int| 0 <= i < j < list.len() implies (#[trigger] list[i]).name@ != (
    #[trigger] list[j]).name@ by {
        crate::text::lemma_text_before_irreflexive(list[i].name@);
    }
    lemma_by_name(list);
    assert forall|k: Seq<char>| by_name(list).dom().contains(k) == registry@.dom().contains(k) by {
        if registry@.dom().contains(k) {
            let i = choose|i: int| 0 <= i < list.len() && (#[trigger] list[i]).name@ == k;
            assert(by_name(list).dom().contains(list[i].name@));
        }
    }
    assert(by_name(list) =~= registry@);
}

/// Attaching and detaching cancel out in the client count, short of the largest
/// count; the time of the attach stays. Counts never leave their range: at zero
/// a detach changes nothing, and at the largest count an attach adds nothing.
pub proof fn law_attach_detach_counts(session: Session, now_ms: u64)
    ensures
        session.client_count < u32::MAX ==> detached(attached(session, now_ms)).client_count
            == session.client_count,
        detached(attached(session, now_ms)).last_attached_at_ms == Some(now_ms),
        session.client_count == u32::MAX ==> attached(session, now_ms).client_count == u32::MAX,
        session.client_count == 0 ==> detached(session) == session,
{
}

/// A stopped session is settled: whatever is alive, reconciling it again
/// leaves it alone.
pub proof fn law_reconcile_settles<F: Fn(u32) -> bool, G: Fn(u32) -> bool>(
    first: F,
    second: G,
    before: Session,
    after: Session,
    again: Session,
)
    requires
        reconciled(first, before, after),
        after != before,
        reconciled(second, after, again),
    ensures
        again == after,
        after.status == SessionStatus::Stopped,
        after.client_count == 0,
{
}

/// Where the registry file lies: in the state directory, in the one under the home
/// directory, or in a temporary one of this process.
pub open spec fn registry_path(
    state_home: Option<Seq<char>>,
    home: Option<Seq<char>>,
    temp_dir: Seq<char>,
    process_id: u32,
) -> Seq<char> {
    let base = match (state_home, home) {
        (Some(dir), _) => dir,
        (None, Some(home)) => crate::paths::joined(home, ".local/state"@),
        (None, None) => crate::paths::joined(
            temp_dir,
            "navette-"@ + crate::text::decimal(process_id as nat),
        ),
    };
    crate::paths::joined(base, "navette/registry.json"@)
}

/// Where the registry file lies, from the values of `XDG_STATE_HOME` and `HOME`,
/// the directory for temporary files and the id of this process.
pub fn default_registry_path(
    state_home: Option<&str>,
    home: Option<&str>,
    temp_dir: &str,
    process_id: u32,
) -> (r: String)
    ensures
        r@ == registry_path(
            crate::text::text_of(state_home),
            crate::text::text_of(home),
            temp_dir@,
            process_id,
        ),
{
    let base = match state_home {
        Some(dir) => dir.to_owned(),
        None => match home {
            Some(home) => join_path(home, ".local/state"),
            None => {
                let mut name = "navette-".to_owned();
                push_decimal(&mut name, process_id as u64);
                join_path(temp_dir, name.as_str())
            },
        },
    };
    join_path(base.as_str(), "navette/registry.json")
}

/// Reconciling goes by the processes of each session. A session that was starting or
/// running is stopped, with no clients left, if its application can only be found dead,
/// and just so if its daemon can; it stays as it was if both can only be found alive.
/// Whatever else happens, a session is left alone or stopped, and one that was neither
/// starting nor running is left alone.
pub proof fn law_dead_process_stops_its_session<F: Fn(u32) -> bool>(
    is_alive: F,
    before: Map<Seq<char>, Session>,
    after: Map<Seq<char>, Session>,
    name: Seq<char>,
)
    requires
        all_reconciled(is_alive, before, after),
        before.dom().contains(name),
    ensures
        after.dom().contains(name),
        ({
            let was = before[name];
            let is = after[name];
            let ran = was.status == SessionStatus::Starting || was.status == SessionStatus::Running;
            &&& ran && !call_ensures(is_alive, (was.app_pid,), true) ==> is.status
                == SessionStatus::Stopped
            &&& ran && !call_ensures(is_alive, (was.daemon_pid,), true) ==> is.status
                == SessionStatus::Stopped
            &&& ran && !call_ensures(is_alive, (was.app_pid,), false) && !call_ensures(
                is_alive,
                (was.daemon_pid,),
                false,
            ) ==> is == was
            &&& !ran ==> is == was
            &&& is != was ==> is.status == SessionStatus::Stopped && is.client_count == 0
            &&& is.name == was.name && is.app_id == was.app_id && is.app_pid == was.app_pid
            &&& is.daemon_pid == was.daemon_pid && is.wayland_display == was.wayland_display
            &&& is.socket_path == was.socket_path && is.created_at_ms == was.created_at_ms
            &&& is.last_attached_at_ms == was.last_attached_at_ms
        }),
{
}

/// An attach is one client more at that time, a detach one less, and neither touches
/// anything else of the session.
pub proof fn law_attach_and_detach_count_one_client(session: Session, now_ms: u64)
    ensures
        ({
            let more = attached(session, now_ms);
            let fewer = detached(session);
            &&& session.client_count < u32::MAX ==> more.client_count == session.client_count + 1
            &&& session.client_count > 0 ==> fewer.client_count == session.client_count - 1
            &&& more.client_count >= session.client_count >= fewer.client_count
            &&& more.last_attached_at_ms == Some(now_ms)
            &&& fewer.last_attached_at_ms == session.last_attached_at_ms
            &&& more.name == session.name && fewer.name == session.name
            &&& more.app_id == session.app_id && fewer.app_id == session.app_id
            &&& more.app_pid == session.app_pid && fewer.app_pid == session.app_pid
            &&& more.daemon_pid == session.daemon_pid && fewer.daemon_pid == session.daemon_pid
            &&& more.wayland_display == session.wayland_display && fewer.wayland_display
                == session.wayland_display
            &&& more.socket_path == session.socket_path && fewer.socket_path
                == session.socket_path
            &&& more.created_at_ms == session.created_at_ms && fewer.created_at_ms
                == session.created_at_ms
            &&& more.status == session.status && fewer.status == session.status
        }),
{
}

/// The list holds every session once and no other: looking a listed session up by its
/// name gives it back, and two places never hold the same name.
pub proof fn law_list_holds_each_session_once(
    map: Map<Seq<char>, Session>,
    list: Seq<Session>,
    name: Seq<char>,
)
    requires
        lists(map, list),
    ensures
        map.dom().contains(name) <==> exists|i: int|
            0 <= i < list.len() && (#[trigger] list[i]).name@ == name && list[i] == map[name],
        forall|i: int, j: int|
            0 <= i < list.len() && 0 <= j < list.len() && (#[trigger] list[i]).name@ == (
            #[trigger] list[j]).name@ ==> i == j,
        forall|i: int, j: int, k: int|
            0 <= i < j < list.len() && (forall|m: int|
                0 <= m < k ==> (#[trigger] list[i].name@[m]) == list[j].name@[m]) && 0 <= k
                < list[i].name@.len() && k < list[j].name@.len() && (
            #[trigger] list[i].name@[k]) != (#[trigger] list[j].name@[k]) ==> list[i].name@[k]
                < list[j].name@[k],
{
    if map.dom().contains(name) {
        let i = choose|i: int| 0 <= i < list.len() && (#[trigger] list[i]).name@ == name;
        assert(list[i] == map[name]);
    }
    assert forall|i: int, j: int|
        0 <= i < list.len() && 0 <= j < list.len() && (#[trigger] list[i]).name@ == (
        #[trigger] list[j]).name@ implies i == j by {
        crate::text::lemma_text_before_irreflexive(list[i].name@);
        if i < j {
            assert(crate::text::text_before(list[i].name@, list[j].name@));
        }
        if j < i {
            assert(crate::text::text_before(list[j].name@, list[i].name@));
        }
    }
    assert forall|i: int, j: int, k: int|
        0 <= i < j < list.len() && (forall|m: int|
            0 <= m < k ==> (#[trigger] list[i].name@[m]) == list[j].name@[m]) && 0 <= k
            < list[i].name@.len() && k < list[j].name@.len() && (#[trigger] list[i].name@[k]) != (
        #[trigger] list[j].name@[k]) implies list[i].name@[k] < list[j].name@[k] by {
        assert(crate::text::text_before(list[i].name@, list[j].name@));
        crate::text::law_order_goes_by_the_first_difference(list[i].name@, list[j].name@, k);
    }
}

/// Only the letters and digits of an id make its name, in their order: what the name
/// keeps of them is how they begin.
pub proof fn law_default_name_keeps_the_letters(app_id: Seq<char>)
    requires
        exists|i: int| 0 <= i < lowercased(app_id).len() && is_name_start(
            #[trigger] lowercased(app_id)[i],
        ),
    ensures
        ({
            let letters = |c: char| 'a' <= c <= 'z' || '0' <= c <= '9';
            let kept = crate::lists::retained(default_name(app_id), letters);
            let all = crate::lists::retained(lowercased(app_id), letters);
            &&& kept.len() <= all.len()
            &&& kept == all.take(kept.len() as int)
            &&& default_name(app_id).len() < 63 ==> kept == all
        }),
{
    let letters = |c: char| 'a' <= c <= 'z' || '0' <= c <= '9';
    let s = lowercased(app_id);
    lemma_slug_letters(s);
    lemma_trim_letters(slug(s));
    lemma_trim_short(slug(s));
    lemma_slug_dashes(s);
    lemma_slug_shape(s);
    let i = choose|i: int| 0 <= i < s.len() && is_name_start(#[trigger] s[i]);
    lemma_slug_nonempty(s, i);
}

proof fn lemma_slug_nonempty(s: Seq<char>, i: int)
    requires
        0 <= i < s.len(),
        is_name_start(s[i]),
    ensures
        slug(s).len() > 0,
        without_trailing_dashes(slug(s)).len() > 0,
    decreases s.len(),
{
    lemma_slug_shape(s);
    if i < s.len() - 1 {
        assert(s.drop_last()[i] == s[i]);
        lemma_slug_nonempty(s.drop_last(), i);
    } else {
        lemma_slug_shape(s.drop_last());
    }
    lemma_trim(slug(s));
    lemma_trim_keeps_first(slug(s));
}

proof fn lemma_trim_keeps_first(s: Seq<char>)
    requires
        s.len() > 0,
        s[0] != '-',
    ensures
        without_trailing_dashes(s).len() > 0,
    decreases s.len(),
{
    if s.last() == '-' {
        assert(s.len() > 1);
        assert(s.drop_last()[0] == s[0]);
        lemma_trim_keeps_first(s.drop_last());
    }
}

proof fn lemma_slug_letters(s: Seq<char>)
    ensures
        ({
            let letters = |c: char| 'a' <= c <= 'z' || '0' <= c <= '9';
            let kept = crate::lists::retained(slug(s), letters);
            let all = crate::lists::retained(s, letters);
            &&& kept.len() <= all.len()
            &&& kept == all.take(kept.len() as int)
            &&& slug(s).len() < 64 ==> kept == all
        }),
    decreases s.len(),
{
    let letters = |c: char| 'a' <= c <= 'z' || '0' <= c <= '9';
    if s.len() > 0 {
        let front = s.drop_last();
        lemma_slug_letters(front);
        let before = slug(front);
        let c = s.last();
        crate::lists::lemma_retained_push(before, c, letters);
        crate::lists::lemma_retained_push(before, '-', letters);
        crate::lists::lemma_retained_push(front, c, letters);
        assert(front.push(c) =~= s);
        let kept = crate::lists::retained(slug(s), letters);
        let all = crate::lists::retained(s, letters);
        let held = crate::lists::retained(before, letters);
        let most = crate::lists::retained(front, letters);
        assert(held == most.take(held.len() as int));
        if before.len() < 64 {
            assert(kept =~= all);
            assert(all.take(all.len() as int) =~= all);
        } else {
            assert(kept == held);
            assert(all.take(held.len() as int) =~= most.take(held.len() as int));
        }
    } else {
        assert(slug(s) =~= s);
        assert(crate::lists::retained(s, letters).take(0) =~= crate::lists::retained(s, letters));
    }
}

proof fn lemma_trim_letters(s: Seq<char>)
    ensures
        ({
            let letters = |c: char| 'a' <= c <= 'z' || '0' <= c <= '9';
            crate::lists::retained(without_trailing_dashes(s), letters) == crate::lists::retained(
                s,
                letters,
            )
        }),
    decreases s.len(),
{
    if s.len() > 0 && s.last() == '-' {
        lemma_trim_letters(s.drop_last());
    }
}

/// At most one dash is cut off a name with single dashes.
proof fn lemma_trim_short(s: Seq<char>)
    ensures
        has_single_dashes(s) ==> without_trailing_dashes(s).len() + 1 >= s.len(),
{
    if has_single_dashes(s) && s.len() > 0 && s.last() == '-' {
        let front = s.drop_last();
        if front.len() > 0 {
            assert(s[s.len() - 2] == front.last());
            assert(!(s[s.len() - 2] == '-' && s[s.len() - 1] == '-'));
        }
        assert(without_trailing_dashes(front) == front);
    }
}

/// The state directory comes before the home directory, and that before the temporary
/// one; the file lies in a directory of its own there.
pub proof fn law_registry_lies_in_the_first_directory_given(
    state: Seq<char>,
    home: Seq<char>,
    other: Option<Seq<char>>,
    temp_dir: Seq<char>,
    process_id: u32,
)
    requires
        state.len() > 0 && state.last() != '/',
        home.len() > 0 && home.last() != '/',
        temp_dir.len() > 0 && temp_dir.last() != '/',
    ensures
        registry_path(Some(state), other, temp_dir, process_id) == state
            + "/navette/registry.json"@,
        registry_path(None, Some(home), temp_dir, process_id) == home
            + "/.local/state/navette/registry.json"@,
        registry_path(None, None, temp_dir, process_id) == temp_dir + "/navette-"@
            + crate::text::decimal(process_id as nat) + "/navette/registry.json"@,
{
    reveal_strlit("/");
    reveal_strlit("navette/registry.json");
    reveal_strlit("/navette/registry.json");
    reveal_strlit(".local/state");
    reveal_strlit("/.local/state/navette/registry.json");
    reveal_strlit("navette-");
    reveal_strlit("/navette-");
    let number = crate::text::decimal(process_id as nat);
    crate::text::law_decimal_reads_back(process_id as nat);
    let own = "navette-"@ + number;
    assert(own.last() == number.last());
    assert(crate::text::is_digit(number[number.len() - 1]));
    assert(own[0] == 'n');
    assert(registry_path(Some(state), other, temp_dir, process_id) =~= state
        + "/navette/registry.json"@);
    assert(registry_path(None, Some(home), temp_dir, process_id) =~= home
        + "/.local/state/navette/registry.json"@);
    assert((temp_dir + "/"@ + own).last() == own.last());
    assert(registry_path(None, None, temp_dir, process_id) =~= temp_dir + "/navette-"@ + number
        + "/navette/registry.json"@);
}


/// A session name is made of small ASCII letters, digits, dashes and underscores, 64 of
/// them at most, and begins with a letter or a digit. So no name has a separator or a
/// dot in it, and none looks like an option.
pub proof fn law_session_names_are_plain(name: Seq<char>)
    ensures
        valid_name(name) <==> {
            &&& 1 <= name.len() <= 64
            &&& forall|i: int|
                0 <= i < name.len() ==> ('a' <= #[trigger] name[i] <= 'z' || '0' <= name[i] <= '9'
                    || i > 0 && (name[i] == '-' || name[i] == '_'))
        },
        valid_name(name) ==> !name.contains('/') && !name.contains('.') && !name.contains(' '),
{
    if valid_name(name) {
        assert forall|i: int| 0 <= i < name.len() implies ('a' <= #[trigger] name[i] <= 'z' || '0'
            <= name[i] <= '9' || i > 0 && (name[i] == '-' || name[i] == '_')) by {
            assert(is_name_char(name[i]));
        }
    }
    if 1 <= name.len() <= 64 && forall|i: int|
        0 <= i < name.len() ==> ('a' <= #[trigger] name[i] <= 'z' || '0' <= name[i] <= '9' || i > 0
            && (name[i] == '-' || name[i] == '_')) {
        assert('a' <= name[0] <= 'z' || '0' <= name[0] <= '9');
        assert forall|i: int| 0 <= i < name.len() implies is_name_char(#[trigger] name[i]) by {}
    }
}

/// A session that was added is found under its name, and was not there before; one
/// that was replaced was. Every other session stays, and where it fails, everything
/// does. A name that is taken is not given out again.
pub proof fn law_added_session_is_found<S: FnOnce(&RegistryFile) -> Result<(), String>>(
    save: S,
    before: Map<Seq<char>, Session>,
    file_path: Seq<char>,
    session: Session,
    r: Result<(), RegistryError>,
    after: Map<Seq<char>, Session>,
    other: Seq<char>,
)
    ensures
        inserted(save, before, file_path, session, r, after) ==> {
            &&& r is Ok ==> !before.dom().contains(session.name@) && after.dom().contains(
                session.name@,
            ) && after[session.name@] == session
            &&& valid_name(session.name@) && before.dom().contains(session.name@) ==> r is Err
                && r->Err_0 is AlreadyExists
            &&& valid_name(session.name@) && !before.dom().contains(session.name@) && r is Err
                ==> r->Err_0 is Persist
            &&& !valid_name(session.name@) ==> r is Err && r->Err_0 is InvalidName
        },
        replaced(save, before, file_path, session, r, after) ==> {
            &&& r is Ok ==> before.dom().contains(session.name@) && after.dom().contains(
                session.name@,
            ) && after[session.name@] == session
            &&& before.dom().contains(session.name@) && valid_name(session.name@) && r is Err
                ==> r->Err_0 is Persist
        },
        inserted(save, before, file_path, session, r, after) || replaced(
            save,
            before,
            file_path,
            session,
            r,
            after,
        ) ==> {
            &&& r is Err ==> after == before
            &&& r is Ok ==> saved(save, after, Ok::<(), String>(()))
            &&& other != session.name@ ==> after.dom().contains(other) == before.dom().contains(
                other,
            )
            &&& other != session.name@ && before.dom().contains(other) ==> after[other]
                == before[other]
        },
{
}

/// A session that was taken out is handed out as it was and is gone; every other stays.
/// One that is not there cannot be taken out, and where the registry cannot be saved
/// nothing is.
pub proof fn law_removed_session_is_gone<S: FnOnce(&RegistryFile) -> Result<(), String>>(
    save: S,
    before: Map<Seq<char>, Session>,
    file_path: Seq<char>,
    name: Seq<char>,
    r: Result<Session, RegistryError>,
    after: Map<Seq<char>, Session>,
    other: Seq<char>,
)
    requires
        taken_out(save, before, file_path, name, r, after),
    ensures
        r is Ok ==> before.dom().contains(name) && r->Ok_0 == before[name] && !after.dom().contains(
            name,
        ) && saved(save, after, Ok::<(), String>(())),
        r is Err ==> after == before,
        !before.dom().contains(name) ==> r is Err && r->Err_0 is NotFound,
        before.dom().contains(name) && r is Err ==> r->Err_0 is Persist,
        other != name ==> after.dom().contains(other) == before.dom().contains(other),
        other != name && before.dom().contains(other) ==> after[other] == before[other],
{
}

/// Adding a session and taking it out again leaves the registry as it was.
pub proof fn law_removing_undoes_adding<
    S: FnOnce(&RegistryFile) -> Result<(), String>,
    U: FnOnce(&RegistryFile) -> Result<(), String>,
>(
    save: S,
    again: U,
    before: Map<Seq<char>, Session>,
    file_path: Seq<char>,
    session: Session,
    between: Map<Seq<char>, Session>,
    r: Session,
    after: Map<Seq<char>, Session>,
)
    requires
        inserted(save, before, file_path, session, Ok(()), between),
        taken_out(again, between, file_path, session.name@, Ok(r), after),
    ensures
        r == session,
        after == before,
{
    assert(after =~= before);
}

/// A registry that was opened holds the sessions of its file, each under its own name,
/// the last of one name. A file of version 1 with proper names is never refused, and
/// any other always is.
pub proof fn law_opened_registry_holds_its_file(
    path: Seq<char>,
    stored: Option<RegistryFile>,
    r: Result<Registry, RegistryError>,
    i: int,
    name: Seq<char>,
)
    requires
        is_opened(path, stored, r),
    ensures
        stored is None ==> r is Ok && !r->Ok_0@.dom().contains(name),
        stored is Some && stored->0.version != 1 ==> r is Err && r->Err_0 is UnsupportedVersion,
        stored is Some && stored->0.version == 1 && (forall|j: int|
            0 <= j < stored->0.sessions@.len() ==> valid_name(
                (#[trigger] stored->0.sessions@[j]).name@,
            )) ==> r is Ok,
        stored is Some && 0 <= i < stored->0.sessions@.len() && !valid_name(
            stored->0.sessions@[i].name@,
        ) ==> r is Err,
        r is Ok && stored is Some && 0 <= i < stored->0.sessions@.len()
            && stored->0.sessions@[i].name@ == name && (forall|j: int|
            i < j < stored->0.sessions@.len() ==> (#[trigger] stored->0.sessions@[j]).name@ != name)
            ==> r->Ok_0@.dom().contains(name) && r->Ok_0@[name] == stored->0.sessions@[i],
        r is Ok && stored is Some && (forall|j: int|
            0 <= j < stored->0.sessions@.len() ==> (#[trigger] stored->0.sessions@[j]).name@ != name)
            ==> !r->Ok_0@.dom().contains(name),
{
    if stored is Some {
        lemma_last_of_a_name(stored->0.sessions@, i, name);
    }
}

proof fn lemma_last_of_a_name(list: Seq<Session>, i: int, name: Seq<char>)
    ensures
        0 <= i < list.len() && list[i].name@ == name && (forall|j: int|
            i < j < list.len() ==> (#[trigger] list[j]).name@ != name) ==> by_name(
            list,
        ).dom().contains(name) && by_name(list)[name] == list[i],
        (forall|j: int| 0 <= j < list.len() ==> (#[trigger] list[j]).name@ != name) ==> !by_name(
            list,
        ).dom().contains(name),
    decreases list.len(),
{
    if list.len() > 0 {
        let front = list.drop_last();
        lemma_last_of_a_name(front, i, name);
        assert(list[list.len() - 1] == list.last());
        assert forall|j: int| 0 <= j < front.len() implies front[j] == #[trigger] list[j] by {}
    }
}

/// A message names what it is about: the session, or the file and then the reason.
pub proof fn law_registry_messages_name_their_subject(name: String, path: String, source: String)
    ensures
        RegistryError::InvalidName(name).message_text() == "invalid session name: "@ + name@,
        RegistryError::AlreadyExists(name).message_text() == "session already exists: "@ + name@,
        RegistryError::NotFound(name).message_text() == "session not found: "@ + name@,
        (RegistryError::Read { path, source }).message_text() == "failed to read registry "@ + path@
            + ": "@ + source@,
        (RegistryError::Decode { path, source }).message_text() == "failed to decode registry "@
            + path@ + ": "@ + source@,
        (RegistryError::Persist { path, source }).message_text() == "failed to persist registry "@
            + path@ + ": "@ + source@,
{
}


/// A client that attaches is counted at the session it asked for and no other: what is
/// handed back is what the registry then holds, one client more and attached now. Where
/// it fails nothing has changed, and a session that is not there is what fails.
pub proof fn law_attach_is_recorded<S: FnOnce(&RegistryFile) -> Result<(), String>>(
    save: S,
    before: Map<Seq<char>, Session>,
    path: Seq<char>,
    name: Seq<char>,
    now_ms: u64,
    r: Result<Session, RegistryError>,
    after: Map<Seq<char>, Session>,
    other: Seq<char>,
)
    requires
        marked(save, before, path, name, attached(before[name], now_ms), r, after),
        other != name,
    ensures
        after.dom() == before.dom(),
        after[other] == before[other],
        r is Ok ==> {
            &&& before.dom().contains(name)
            &&& after[name] == r->Ok_0
            &&& r->Ok_0.last_attached_at_ms == Some(now_ms)
            &&& before[name].client_count < u32::MAX ==> r->Ok_0.client_count
                == before[name].client_count + 1
            &&& r->Ok_0.name == before[name].name
            &&& r->Ok_0.app_pid == before[name].app_pid
        },
        r is Err ==> after == before,
        !before.dom().contains(name) ==> r is Err && r->Err_0 is NotFound,
        before.dom().contains(name) && r is Err ==> r->Err_0 is Persist,
{
    assert(after.dom() =~= before.dom());
}

/// A client that detaches is counted off at its session and no other, and the time of
/// the last attach stays. Where it fails nothing has changed.
pub proof fn law_detach_is_recorded<S: FnOnce(&RegistryFile) -> Result<(), String>>(
    save: S,
    before: Map<Seq<char>, Session>,
    path: Seq<char>,
    name: Seq<char>,
    r: Result<Session, RegistryError>,
    after: Map<Seq<char>, Session>,
    other: Seq<char>,
)
    requires
        marked(save, before, path, name, detached(before[name]), r, after),
        other != name,
    ensures
        after.dom() == before.dom(),
        after[other] == before[other],
        r is Ok ==> {
            &&& before.dom().contains(name)
            &&& after[name] == r->Ok_0
            &&& r->Ok_0.last_attached_at_ms == before[name].last_attached_at_ms
            &&& before[name].client_count > 0 ==> r->Ok_0.client_count
                == before[name].client_count - 1
            &&& before[name].client_count == 0 ==> r->Ok_0.client_count == 0
            &&& r->Ok_0.name == before[name].name
            &&& r->Ok_0.app_pid == before[name].app_pid
        },
        r is Err ==> after == before,
        !before.dom().contains(name) ==> r is Err && r->Err_0 is NotFound,
        before.dom().contains(name) && r is Err ==> r->Err_0 is Persist,
{
    assert(after.dom() =~= before.dom());
}

} // verus!
