//! File paths as text, with the rules of a Unix file system.

use vstd::prelude::*;

use crate::text::{chars_of, join2, join3, same_text, split_text};

verus! {

broadcast use vstd::string::group_string_axioms;

pub open spec fn is_absolute_path(path: Seq<char>) -> bool {
    path.len() > 0 && path[0] == '/'
}

/// `part` inside `base`: an absolute part stands for itself, and otherwise a
/// separator goes between the two unless `base` is empty or ends with one.
pub open spec fn joined(base: Seq<char>, part: Seq<char>) -> Seq<char> {
    if is_absolute_path(part) {
        part
    } else if base.len() == 0 || base.last() == '/' {
        base + part
    } else {
        base + "/"@ + part
    }
}

/// `act` can be given `path`.
pub open spec fn takes_path<T, F: FnOnce(&str) -> T>(act: F, path: Seq<char>) -> bool {
    forall|p: &str| p@ == path ==> #[trigger] call_requires(act, (p,))
}

pub fn is_absolute(path: &str) -> (r: bool)
    ensures
        r == is_absolute_path(path@),
{
    let chars = chars_of(path);
    chars.len() > 0 && chars[0] == '/'
}

pub fn join_path(base: &str, part: &str) -> (r: String)
    ensures
        r@ == joined(base@, part@),
{
    if is_absolute(part) {
        return part.to_owned();
    }
    let chars = chars_of(base);
    if chars.len() == 0 || chars[chars.len() - 1] == '/' {
        join2(base, part)
    } else {
        join3(base, "/", part)
    }
}

/// A part of a path that counts: not empty, and no reference to the directory
/// itself.
pub open spec fn counts(part: Seq<char>) -> bool {
    part.len() > 0 && part != "."@
}

/// What a path consists of: the root, or a leading reference to the current
/// directory, and then every part that counts. Repeated and trailing separators
/// make no difference.
pub open spec fn components(path: Seq<char>) -> Seq<Seq<char>> {
    let parts = crate::text::pieces(path, '/');
    let first = if is_absolute_path(path) {
        seq!["/"@]
    } else if parts[0] == "."@ {
        seq!["."@]
    } else {
        Seq::empty()
    };
    first + crate::lists::retained(parts, |part: Seq<char>| counts(part))
}

proof fn lemma_pieces_nonempty(s: Seq<char>, separator: char)
    ensures
        crate::text::pieces(s, separator).len() > 0,
    decreases s.len(),
{
    if s.len() > 0 {
        lemma_pieces_nonempty(s.drop_last(), separator);
    }
}

pub fn path_components(path: &str) -> (r: Vec<String>)
    ensures
        crate::text::texts(r@) == components(path@),
{
    let parts = split_text(path, '/');
    proof {
        lemma_pieces_nonempty(path@, '/');
    }
    let ghost all = crate::text::texts(parts@);
    let ghost keep = |part: Seq<char>| counts(part);
    let mut out: Vec<String> = Vec::new();
    if is_absolute(path) {
        out.push("/".to_owned());
    } else if same_text(parts[0].as_str(), ".") {
        out.push(".".to_owned());
    }
    let ghost first = crate::text::texts(out@);
    assert(first =~= (if is_absolute_path(path@) {
        seq!["/"@]
    } else if all[0] == "."@ {
        seq!["."@]
    } else {
        Seq::empty()
    }));
    let mut i: usize = 0;
    assert(first + crate::lists::retained(all.take(0), keep) =~= first);
    while i < parts.len()
        invariant
            i <= parts@.len(),
            all == crate::text::texts(parts@),
            keep == (|part: Seq<char>| counts(part)),
            crate::text::texts(out@) == first + crate::lists::retained(all.take(i as int), keep),
        decreases parts@.len() - i,
    {
        let ghost held = out@;
        let part = &parts[i];
        assert(all.take(i as int + 1).drop_last() =~= all.take(i as int));
        assert(all.take(i as int + 1).last() == part@);
        let empty = chars_of(part.as_str()).len() == 0;
        if !empty && !same_text(part.as_str(), ".") {
            assert(keep(part@));
            out.push(part.clone());
            assert(crate::text::texts(out@) =~= crate::text::texts(held).push(part@));
            assert(crate::text::texts(out@) =~= first + crate::lists::retained(
                all.take(i as int + 1),
                keep,
            ));
        } else {
            assert(!keep(part@));
        }
        i += 1;
    }
    assert(all.take(parts@.len() as int) =~= all);
    out
}

/// Whether two paths consist of the same components.
pub fn same_path(a: &str, b: &str) -> (r: bool)
    ensures
        r == (components(a@) == components(b@)),
{
    let x = path_components(a);
    let y = path_components(b);
    assert(crate::text::texts(x@).len() == x@.len());
    assert(crate::text::texts(y@).len() == y@.len());
    if x.len() != y.len() {
        return false;
    }
    let mut i: usize = 0;
    while i < x.len()
        invariant
            i <= x@.len(),
            x@.len() == y@.len(),
            crate::text::texts(x@) == components(a@),
            crate::text::texts(y@) == components(b@),
            forall|j: int| 0 <= j < i ==> (#[trigger] x@[j])@ == y@[j]@,
        decreases x@.len() - i,
    {
        if !same_text(x[i].as_str(), y[i].as_str()) {
            assert(crate::text::texts(x@)[i as int] != crate::text::texts(y@)[i as int]);
            return false;
        }
        i += 1;
    }
    assert(crate::text::texts(x@) =~= crate::text::texts(y@));
    true
}

/// `is_file` was asked about a path and gave that answer.
pub open spec fn answered<F: Fn(&str) -> bool>(is_file: F, path: Seq<char>, answer: bool) -> bool {
    exists|asked: &str| asked@ == path && #[trigger] call_ensures(is_file, (asked,), answer)
}

/// The `i`-th candidate is a file and none before it is.
pub open spec fn is_first<F: Fn(&str) -> bool>(
    is_file: F,
    candidates: Seq<Seq<char>>,
    i: int,
) -> bool {
    &&& 0 <= i < candidates.len()
    &&& answered(is_file, candidates[i], true)
    &&& forall|j: int| 0 <= j < i ==> answered(is_file, #[trigger] candidates[j], false)
}

/// The first of the candidates that is a file.
pub open spec fn resolves<F: Fn(&str) -> bool>(
    is_file: F,
    candidates: Seq<Seq<char>>,
    r: Option<String>,
) -> bool {
    match r {
        Some(path) => exists|i: int| #[trigger]
            is_first(is_file, candidates, i) && candidates[i] == path@,
        None => forall|j: int|
            0 <= j < candidates.len() ==> answered(is_file, #[trigger] candidates[j], false),
    }
}

/// The first of the paths that is a file.
pub fn first_file<F: Fn(&str) -> bool>(paths: &Vec<String>, is_file: &F) -> (r: Option<String>)
    requires
        forall|path: &str| call_requires(*is_file, (path,)),
    ensures
        resolves(*is_file, crate::text::texts(paths@), r),
{
    let ghost all = crate::text::texts(paths@);
    let mut i: usize = 0;
    while i < paths.len()
        invariant
            i <= paths@.len(),
            all == crate::text::texts(paths@),
            forall|path: &str| call_requires(*is_file, (path,)),
            forall|j: int| 0 <= j < i ==> answered(*is_file, #[trigger] all[j], false),
        decreases paths@.len() - i,
    {
        let path = paths[i].as_str();
        let answer = (*is_file)(path);
        assert(call_ensures(*is_file, (path,), answer));
        assert(answered(*is_file, all[i as int], answer));
        if answer {
            assert(is_first(*is_file, all, i as int));
            return Some(path.to_owned());
        }
        i += 1;
    }
    None
}


/// A relative path goes below the directory that it is joined to, with one
/// separator between them; an absolute one stands for itself.
pub proof fn law_joined_path_lies_below_its_base(base: Seq<char>, part: Seq<char>)
    ensures
        part.len() > 0 && part[0] == '/' ==> joined(base, part) == part,
        !(part.len() > 0 && part[0] == '/') && base.len() > 0 && base[base.len() - 1] != '/'
            ==> joined(base, part) == base.push('/') + part,
        !(part.len() > 0 && part[0] == '/') && base.len() > 0 && base[base.len() - 1] == '/'
            ==> joined(base, part) == base + part,
        !(part.len() > 0 && part[0] == '/') && base.len() == 0 ==> joined(base, part) == part,
{
    reveal_strlit("/");
    assert(base + "/"@ =~= base.push('/'));
    assert(Seq::<char>::empty() + part =~= part);
    if base.len() == 0 {
        assert(base + part =~= part);
    }
}

/// The components of a path are the names between its separators, the root among
/// them. A separator too many counts for nothing, nor does a dot after the first
/// name.
pub proof fn law_components_are_the_names_of_a_path(base: Seq<char>, part: Seq<char>)
    requires
        !part.contains('/'),
    ensures
        base.len() > 0 && (part.len() == 0 || part == seq!['.']) ==> components(
            base.push('/') + part,
        ) == components(base),
        base.len() > 0 && part.len() > 0 && part != seq!['.'] ==> components(base.push('/') + part)
            == components(base).push(part),
        part.len() > 0 ==> components(part) == seq![part],
        components(seq!['/']) == seq![seq!['/']],
        components(Seq::empty()) == Seq::<Seq<char>>::empty(),
{
    reveal_strlit("/");
    reveal_strlit(".");
    let keep = |part: Seq<char>| counts(part);
    let dot = "."@;
    assert(dot =~= seq!['.']);
    assert("/"@ =~= seq!['/']);
    let whole = base.push('/') + part;
    crate::text::law_pieces_stand_between_separators(base, part, '/');
    crate::text::law_pieces_stand_between_separators(part, part, '/');
    let before = crate::text::pieces(base, '/');
    let all = crate::text::pieces(whole, '/');
    assert(all =~= before.push(part));
    crate::lists::lemma_retained_push(before, part, keep);
    assert(keep(part) == (part.len() > 0 && part != dot));
    if base.len() > 0 {
        assert(whole[0] == base[0]);
        assert(all[0] == before[0]);
        assert(components(whole) =~= if keep(part) {
            components(base).push(part)
        } else {
            components(base)
        });
    }
    assert(crate::text::pieces(part, '/') =~= seq![part]);
    crate::lists::lemma_retained_push(Seq::empty(), part, keep);
    assert(Seq::<Seq<char>>::empty().push(part) =~= seq![part]);
    if part.len() > 0 {
        assert(part.contains(part[0]));
        assert(components(part) =~= seq![part]);
    }
    let none = Seq::<char>::empty();
    crate::text::law_pieces_stand_between_separators(none, none, '/');
    assert(none.push('/') + none =~= seq!['/']);
    assert(crate::text::pieces(seq!['/'], '/') =~= seq![none].push(none));
    crate::lists::lemma_retained_push(seq![none], none, keep);
    crate::lists::lemma_retained_push(Seq::empty(), none, keep);
    assert(Seq::<Seq<char>>::empty().push(none) =~= seq![none]);
    assert(components(seq!['/']) =~= seq![seq!['/']]);
    assert(crate::text::pieces(none, '/') =~= seq![none]);
    assert(components(none) =~= Seq::<Seq<char>>::empty());
}

/// Where a place is a file exactly if `there` says so, the first file in the list
/// is found: no file stands before it, and none is missed.
pub proof fn law_first_file_is_found<F: Fn(&str) -> bool>(
    is_file: F,
    there: spec_fn(Seq<char>) -> bool,
    candidates: Seq<Seq<char>>,
    r: Option<String>,
    i: int,
)
    requires
        forall|asked: &str, answer: bool| #[trigger]
            call_ensures(is_file, (asked,), answer) ==> answer == there(asked@),
        resolves(is_file, candidates, r),
        0 <= i < candidates.len(),
        there(candidates[i]),
    ensures
        r is Some,
        there(r->0@),
        candidates.take(i + 1).contains(r->0@),
{
    if r is None {
        assert(answered(is_file, candidates[i], false));
    }
    let k = choose|k: int| #[trigger]
        is_first(is_file, candidates, k) && candidates[k] == r->0@;
    if k > i {
        assert(answered(is_file, candidates[i], false));
    }
    assert(candidates.take(i + 1)[k] == r->0@);
}

} // verus!
