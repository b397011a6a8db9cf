//! Characters and strings: the few operations of std that the other modules
//! need on top of what vstd specifies, and the order that strings are kept in.

use vstd::prelude::*;
use vstd::string::StringExecFns;

verus! {

broadcast use vstd::string::group_string_axioms;

/// `String::push` appends one character and leaves the rest alone.
pub assume_specification[ String::push ](s: &mut String, c: char)
    ensures
        final(s)@ == old(s)@.push(c),
;

/// The lowercase mapping that `char::to_lowercase` yields for a character
/// outside ASCII.
pub uninterp spec fn lowercase_mapping(c: char) -> Seq<char>;

/// `c` with an ASCII capital letter replaced by its small one.
pub open spec fn ascii_lowercase(c: char) -> char {
    if 'A' <= c <= 'Z' {
        (c as u8 + 32) as char
    } else {
        c
    }
}

/// What lowercasing one character yields.
pub open spec fn lowercase(c: char) -> Seq<char> {
    if c <= '\u{7f}' {
        seq![ascii_lowercase(c)]
    } else {
        lowercase_mapping(c)
    }
}

/// `char::to_lowercase`, collected. On ASCII it maps the capital letters to the
/// small ones and everything else to itself; elsewhere the mapping is Unicode's
/// and is only named.
#[verifier::external_body]
pub(crate) fn char_to_lowercase(c: char) -> (r: Vec<char>)
    ensures
        r@ == (if c <= '\u{7f}' {
            seq![ascii_lowercase(c)]
        } else {
            lowercase_mapping(c)
        }),
{
    c.to_lowercase().collect()
}

/// The lowercase equivalent that `str::to_lowercase` returns for a text that is
/// not all ASCII.
pub uninterp spec fn lowercase_text(s: Seq<char>) -> Seq<char>;

pub open spec fn is_ascii_text(s: Seq<char>) -> bool {
    forall|i: int| 0 <= i < s.len() ==> #[trigger] s[i] <= '\u{7f}'
}

/// What lowercasing a text yields.
pub open spec fn lowered(s: Seq<char>) -> Seq<char> {
    if is_ascii_text(s) {
        Seq::new(s.len(), |i: int| ascii_lowercase(s[i]))
    } else {
        lowercase_text(s)
    }
}

/// `str::to_lowercase`. On ASCII it maps the capital letters to the small ones
/// and everything else to itself; elsewhere the mapping is Unicode's, depends on
/// the text alone and is only named.
#[verifier::external_body]
pub(crate) fn str_to_lowercase(s: &str) -> (r: String)
    ensures
        r@ == (if is_ascii_text(s@) {
            Seq::new(s@.len(), |i: int| ascii_lowercase(s@[i]))
        } else {
            lowercase_text(s@)
        }),
{
    s.to_lowercase()
}

/// `String::from_utf8`: the text that the bytes encode, or nothing where they
/// are not UTF-8.
#[verifier::external_body]
pub(crate) fn text_from_utf8(bytes: Vec<u8>) -> (r: Option<String>)
    ensures
        match r {
            Some(text) => vstd::utf8::valid_utf8(bytes@) && text@ == vstd::utf8::decode_utf8(
                bytes@,
            ),
            None => !vstd::utf8::valid_utf8(bytes@),
        },
{
    String::from_utf8(bytes).ok()
}

/// The characters of `s`, in order.
pub fn chars_of(s: &str) -> (r: Vec<char>)
    ensures
        r@ == s@,
{
    let mut out: Vec<char> = Vec::new();
    for c in it: s.chars()
        invariant
            it.seq() == s@,
            out@ == s@.take(it.index()),
    {
        out.push(c);
        assert(s@.take(it.index() + 1) =~= s@.take(it.index()).push(c));
    }
    assert(s@.take(s@.len() as int) =~= s@);
    out
}

/// The string made of `chars`.
pub fn string_of(chars: &Vec<char>) -> (r: String)
    ensures
        r@ == chars@,
{
    let mut out = String::new();
    let mut i: usize = 0;
    while i < chars.len()
        invariant
            i <= chars.len(),
            out@ == chars@.take(i as int),
        decreases chars.len() - i,
    {
        out.push(chars[i]);
        assert(chars@.take(i as int + 1) =~= chars@.take(i as int).push(chars@[i as int]));
        i += 1;
    }
    assert(chars@.take(chars@.len() as int) =~= chars@);
    out
}

/// Whether the two texts are the same.
pub fn same_text(a: &str, b: &str) -> (r: bool)
    ensures
        r == (a@ == b@),
{
    let x = a.as_bytes();
    let y = b.as_bytes();
    proof {
        vstd::utf8::encode_utf8_decode_utf8(a@);
        vstd::utf8::encode_utf8_decode_utf8(b@);
    }
    if x.len() != y.len() {
        return false;
    }
    let mut i: usize = 0;
    while i < x.len()
        invariant
            i <= x.len(),
            x@ == vstd::utf8::encode_utf8(a@),
            y@ == vstd::utf8::encode_utf8(b@),
            x@.len() == y@.len(),
            x@.take(i as int) == y@.take(i as int),
        decreases x.len() - i,
    {
        if x[i] != y[i] {
            assert(x@[i as int] != y@[i as int]);
            return false;
        }
        assert(x@.take(i as int + 1) =~= x@.take(i as int).push(x@[i as int]));
        assert(y@.take(i as int + 1) =~= y@.take(i as int).push(y@[i as int]));
        i += 1;
    }
    assert(x@.take(x@.len() as int) =~= x@);
    assert(y@.take(y@.len() as int) =~= y@);
    true
}

/// Lexicographic order by code point, which is also the order of the UTF-8
/// bytes: `a` comes strictly before `b`.
pub open spec fn text_before(a: Seq<char>, b: Seq<char>) -> bool
    decreases a.len(),
{
    if b.len() == 0 {
        false
    } else if a.len() == 0 {
        true
    } else if a[0] != b[0] {
        a[0] < b[0]
    } else {
        text_before(a.drop_first(), b.drop_first())
    }
}

pub proof fn lemma_text_before_irreflexive(a: Seq<char>)
    ensures
        !text_before(a, a),
    decreases a.len(),
{
    if a.len() > 0 {
        lemma_text_before_irreflexive(a.drop_first());
    }
}

pub proof fn lemma_text_before_total(a: Seq<char>, b: Seq<char>)
    ensures
        a == b || text_before(a, b) || text_before(b, a),
    decreases a.len(),
{
    if a.len() == 0 || b.len() == 0 {
        if a.len() == b.len() {
            assert(a =~= b);
        }
    } else if a[0] == b[0] {
        lemma_text_before_total(a.drop_first(), b.drop_first());
        if a.drop_first() == b.drop_first() {
            assert(a =~= seq![a[0]] + a.drop_first());
            assert(b =~= seq![b[0]] + b.drop_first());
        }
    }
}

pub proof fn lemma_text_before_transitive(a: Seq<char>, b: Seq<char>, c: Seq<char>)
    requires
        text_before(a, b),
        text_before(b, c),
    ensures
        text_before(a, c),
    decreases a.len(),
{
    if a.len() > 0 && a[0] == b[0] && b[0] == c[0] {
        lemma_text_before_transitive(a.drop_first(), b.drop_first(), c.drop_first());
    }
}

/// Whether `a` comes strictly before `b`.
pub fn is_text_before(a: &str, b: &str) -> (r: bool)
    ensures
        r == text_before(a@, b@),
{
    let x = chars_of(a);
    let y = chars_of(b);
    let mut i: usize = 0;
    assert(x@.skip(0) =~= x@);
    assert(y@.skip(0) =~= y@);
    while i < x.len() && i < y.len()
        invariant
            i <= x.len(),
            i <= y.len(),
            x@ == a@,
            y@ == b@,
            text_before(a@, b@) == text_before(x@.skip(i as int), y@.skip(i as int)),
        decreases x.len() - i,
    {
        assert(x@.skip(i as int).drop_first() =~= x@.skip(i as int + 1));
        assert(y@.skip(i as int).drop_first() =~= y@.skip(i as int + 1));
        if x[i] != y[i] {
            return x[i] < y[i];
        }
        i += 1;
    }
    i < y.len()
}

/// The digit for a value below 10.
pub open spec fn decimal_digit(d: nat) -> char {
    (48 + d) as char
}

/// The lowercase hexadecimal digit for a value below 16.
pub open spec fn hex_digit(d: nat) -> char {
    if d < 10 {
        (48 + d) as char
    } else {
        (87 + d) as char
    }
}

/// `n` in decimal, without leading zeros.
pub open spec fn decimal(n: nat) -> Seq<char>
    decreases n,
{
    if n < 10 {
        seq![decimal_digit(n)]
    } else {
        decimal(n / 10).push(decimal_digit(n % 10))
    }
}

/// `n` in lowercase hexadecimal, without leading zeros.
pub open spec fn hexadecimal(n: nat) -> Seq<char>
    decreases n,
{
    if n < 16 {
        seq![hex_digit(n)]
    } else {
        hexadecimal(n / 16).push(hex_digit(n % 16))
    }
}

/// Appends `n` in decimal.
pub fn push_decimal(out: &mut String, n: u64)
    ensures
        final(out)@ == old(out)@ + decimal(n as nat),
    decreases n,
{
    if n >= 10 {
        push_decimal(out, n / 10);
    }
    out.push((48u8 + (n % 10) as u8) as char);
    assert(out@ =~= old(out)@ + decimal(n as nat));
}

/// Appends `n` in lowercase hexadecimal.
pub fn push_hexadecimal(out: &mut String, n: u128)
    ensures
        final(out)@ == old(out)@ + hexadecimal(n as nat),
    decreases n,
{
    if n >= 16 {
        push_hexadecimal(out, n / 16);
    }
    let d: u8 = (n % 16) as u8;
    if d < 10 {
        out.push((48u8 + d) as char);
    } else {
        out.push((87u8 + d) as char);
    }
    assert(out@ =~= old(out)@ + hexadecimal(n as nat));
}

/// `a` followed by `b`.
pub fn join2(a: &str, b: &str) -> (r: String)
    ensures
        r@ == a@ + b@,
{
    let mut out = a.to_owned();
    out.append(b);
    out
}

/// `a`, `b` and `c`, one after the other.
pub fn join3(a: &str, b: &str, c: &str) -> (r: String)
    ensures
        r@ == a@ + b@ + c@,
{
    let mut out = a.to_owned();
    out.append(b);
    out.append(c);
    out
}

/// `a`, `b`, `c` and `d`, one after the other.
pub fn join4(a: &str, b: &str, c: &str, d: &str) -> (r: String)
    ensures
        r@ == a@ + b@ + c@ + d@,
{
    let mut out = a.to_owned();
    out.append(b);
    out.append(c);
    out.append(d);
    out
}

/// The texts of a list of strings.
pub open spec fn texts(list: Seq<String>) -> Seq<Seq<char>> {
    Seq::new(list.len(), |i: int| list[i]@)
}

/// The text, if there is one.
pub open spec fn text_of(s: Option<&str>) -> Option<Seq<char>> {
    match s {
        Some(s) => Some(s@),
        None => None,
    }
}

/// Two lowercase hexadecimal digits for each byte.
pub open spec fn hex_text(bytes: Seq<u8>) -> Seq<char>
    decreases bytes.len(),
{
    if bytes.len() == 0 {
        Seq::empty()
    } else {
        hex_text(bytes.drop_last()).push(hex_digit((bytes.last() / 16) as nat)).push(
            hex_digit((bytes.last() % 16) as nat),
        )
    }
}

fn hex_char(d: u8) -> (r: char)
    requires
        d < 16,
    ensures
        r == hex_digit(d as nat),
{
    if d < 10 {
        (48u8 + d) as char
    } else {
        (87u8 + d) as char
    }
}

/// The bytes in lowercase hexadecimal.
pub fn hex_of(bytes: &[u8]) -> (r: String)
    ensures
        r@ == hex_text(bytes@),
{
    let mut out = String::new();
    let mut i: usize = 0;
    while i < bytes.len()
        invariant
            i <= bytes@.len(),
            out@ == hex_text(bytes@.take(i as int)),
        decreases bytes@.len() - i,
    {
        assert(bytes@.take(i as int + 1).drop_last() =~= bytes@.take(i as int));
        out.push(hex_char(bytes[i] / 16));
        out.push(hex_char(bytes[i] % 16));
        i += 1;
    }
    assert(bytes@.take(bytes@.len() as int) =~= bytes@);
    out
}

/// `[0-9a-f]`
pub open spec fn is_hex_digit(c: char) -> bool {
    '0' <= c <= '9' || 'a' <= c <= 'f'
}

pub proof fn lemma_hex_text(bytes: Seq<u8>)
    ensures
        hex_text(bytes).len() == 2 * bytes.len(),
        forall|i: int| 0 <= i < hex_text(bytes).len() ==> is_hex_digit(#[trigger] hex_text(bytes)[i]),
    decreases bytes.len(),
{
    if bytes.len() > 0 {
        lemma_hex_text(bytes.drop_last());
    }
}

pub open spec fn text_ends_with(s: Seq<char>, suffix: Seq<char>) -> bool {
    suffix.len() <= s.len() && s.skip(s.len() - suffix.len()) == suffix
}

pub open spec fn text_starts_with(s: Seq<char>, prefix: Seq<char>) -> bool {
    prefix.len() <= s.len() && s.take(prefix.len() as int) == prefix
}

/// Whether `s` ends with `suffix`.
pub fn ends_with_text(s: &str, suffix: &str) -> (r: bool)
    ensures
        r == text_ends_with(s@, suffix@),
{
    let a = chars_of(s);
    let b = chars_of(suffix);
    if b.len() > a.len() {
        return false;
    }
    let start: usize = a.len() - b.len();
    let mut i: usize = 0;
    while i < b.len()
        invariant
            i <= b.len(),
            a@ == s@,
            b@ == suffix@,
            start + b@.len() == a@.len(),
            a@.len() <= usize::MAX,
            forall|j: int| 0 <= j < i ==> a@[start + j] == #[trigger] b@[j],
        decreases b.len() - i,
    {
        if a[start + i] != b[i] {
            assert(s@.skip(start as int)[i as int] != suffix@[i as int]);
            return false;
        }
        i += 1;
    }
    assert(s@.skip(start as int) =~= suffix@);
    true
}

/// What follows `prefix` in `s`, if `s` starts with it.
pub fn strip_text_prefix(s: &str, prefix: &str) -> (r: Option<String>)
    ensures
        match r {
            Some(rest) => text_starts_with(s@, prefix@) && rest@ == s@.skip(
                prefix@.len() as int,
            ),
            None => !text_starts_with(s@, prefix@),
        },
{
    let a = chars_of(s);
    let b = chars_of(prefix);
    if b.len() > a.len() {
        return None;
    }
    let mut i: usize = 0;
    while i < b.len()
        invariant
            i <= b.len(),
            a@ == s@,
            b@ == prefix@,
            b@.len() <= a@.len(),
            forall|j: int| 0 <= j < i ==> a@[j] == #[trigger] b@[j],
        decreases b.len() - i,
    {
        if a[i] != b[i] {
            assert(s@.take(prefix@.len() as int)[i as int] != prefix@[i as int]);
            return None;
        }
        i += 1;
    }
    assert(s@.take(prefix@.len() as int) =~= prefix@);
    let mut rest = String::new();
    while i < a.len()
        invariant
            b@.len() <= i <= a@.len(),
            a@ == s@,
            b@ == prefix@,
            rest@ == s@.subrange(b@.len() as int, i as int),
        decreases a.len() - i,
    {
        rest.push(a[i]);
        assert(s@.subrange(b@.len() as int, i as int + 1) =~= s@.subrange(
            b@.len() as int,
            i as int,
        ).push(s@[i as int]));
        i += 1;
    }
    assert(s@.subrange(b@.len() as int, a@.len() as int) =~= s@.skip(prefix@.len() as int));
    Some(rest)
}

proof fn lemma_hex_digit(d: nat)
    requires
        d < 16,
    ensures
        is_hex_digit(hex_digit(d)),
        hex_digit(d) as nat == (if d < 10 { 48 + d } else { 87 + d }),
{
}

/// A number in hexadecimal has a digit, and nothing but digits.
pub proof fn lemma_hexadecimal_digits(n: nat)
    ensures
        hexadecimal(n).len() > 0,
        forall|i: int| 0 <= i < hexadecimal(n).len() ==> is_hex_digit(#[trigger] hexadecimal(n)[i]),
    decreases n,
{
    lemma_hex_digit(n % 16);
    if n >= 16 {
        lemma_hexadecimal_digits(n / 16);
    }
}

/// A number is known by its digits.
pub proof fn lemma_hexadecimal_injective(a: nat, b: nat)
    requires
        hexadecimal(a) == hexadecimal(b),
    ensures
        a == b,
    decreases a,
{
    lemma_hex_digit(a % 16);
    lemma_hex_digit(b % 16);
    assert(hexadecimal(a).last() == hex_digit(a % 16));
    assert(hexadecimal(b).last() == hex_digit(b % 16));
    assert(a % 16 == b % 16);
    if a >= 16 && b >= 16 {
        assert(hexadecimal(a).drop_last() =~= hexadecimal(a / 16));
        assert(hexadecimal(b).drop_last() =~= hexadecimal(b / 16));
        lemma_hexadecimal_injective(a / 16, b / 16);
    } else if a >= 16 {
        lemma_hexadecimal_digits(a / 16);
    } else if b >= 16 {
        lemma_hexadecimal_digits(b / 16);
    }
}

/// What stands between the separators; there is one piece more than there are
/// separators, and pieces may be empty.
pub open spec fn pieces(s: Seq<char>, separator: char) -> Seq<Seq<char>>
    decreases s.len(),
{
    if s.len() == 0 {
        seq![Seq::empty()]
    } else {
        let before = pieces(s.drop_last(), separator);
        if s.last() == separator {
            before.push(Seq::empty())
        } else {
            before.drop_last().push(before.last().push(s.last()))
        }
    }
}

/// Splits a text at every separator.
pub fn split_text(s: &str, separator: char) -> (r: Vec<String>)
    ensures
        texts(r@) == pieces(s@, separator),
{
    let chars = chars_of(s);
    let mut done: Vec<String> = Vec::new();
    let mut piece = String::new();
    let mut i: usize = 0;
    assert(texts(done@).push(piece@) =~= pieces(chars@.take(0), separator));
    while i < chars.len()
        invariant
            i <= chars@.len(),
            texts(done@).push(piece@) == pieces(chars@.take(i as int), separator),
        decreases chars@.len() - i,
    {
        let c = chars[i];
        let ghost held = done@;
        let ghost before = piece@;
        assert(chars@.take(i as int + 1).drop_last() =~= chars@.take(i as int));
        assert(texts(held).push(before).drop_last() =~= texts(held));
        if c == separator {
            done.push(piece);
            piece = String::new();
            assert(texts(done@) =~= texts(held).push(before));
        } else {
            piece.push(c);
        }
        i += 1;
    }
    assert(chars@.take(chars@.len() as int) =~= s@);
    let ghost held = done@;
    done.push(piece);
    assert(texts(done@) =~= texts(held).push(piece@));
    done
}

/// The text that ends before `suffix`, if it ends with it.
pub fn strip_text_suffix(s: &str, suffix: &str) -> (r: Option<String>)
    ensures
        match r {
            Some(rest) => text_ends_with(s@, suffix@) && rest@ == s@.take(
                s@.len() - suffix@.len(),
            ),
            None => !text_ends_with(s@, suffix@),
        },
{
    if !ends_with_text(s, suffix) {
        return None;
    }
    let chars = chars_of(s);
    let end: usize = chars.len() - chars_of(suffix).len();
    let mut rest = String::new();
    let mut i: usize = 0;
    while i < end
        invariant
            i <= end <= chars@.len(),
            rest@ == chars@.take(i as int),
        decreases end - i,
    {
        rest.push(chars[i]);
        assert(chars@.take(i as int + 1) =~= chars@.take(i as int).push(chars@[i as int]));
        i += 1;
    }
    Some(rest)
}

/// Whether `c` occurs in `s`.
pub fn contains_char(s: &str, c: char) -> (r: bool)
    ensures
        r == s@.contains(c),
{
    let chars = chars_of(s);
    let mut i: usize = 0;
    while i < chars.len()
        invariant
            i <= chars@.len(),
            chars@ == s@,
            forall|j: int| 0 <= j < i ==> chars@[j] != c,
        decreases chars@.len() - i,
    {
        if chars[i] == c {
            return true;
        }
        i += 1;
    }
    false
}

/// A copy of a list of texts.
pub fn clone_texts(list: &Vec<String>) -> (r: Vec<String>)
    ensures
        r@.len() == list@.len(),
        texts(r@) == texts(list@),
{
    let mut out: Vec<String> = Vec::new();
    let mut i: usize = 0;
    while i < list.len()
        invariant
            i <= list@.len(),
            out@.len() == i,
            forall|j: int| 0 <= j < i ==> (#[trigger] out@[j])@ == list@[j]@,
        decreases list@.len() - i,
    {
        out.push(list[i].clone());
        i += 1;
    }
    assert(texts(out@) =~= texts(list@));
    out
}

pub open spec fn is_digit(c: char) -> bool {
    '0' <= c <= '9'
}

pub open spec fn all_digits(s: Seq<char>) -> bool {
    forall|i: int| 0 <= i < s.len() ==> is_digit(#[trigger] s[i])
}

/// The number that decimal digits denote.
pub open spec fn digits_value(s: Seq<char>) -> nat
    decreases s.len(),
{
    if s.len() == 0 {
        0
    } else {
        (10 * digits_value(s.drop_last()) + (s.last() as nat - 48)) as nat
    }
}

/// The number that a text denotes: decimal digits, perhaps after a plus sign.
pub open spec fn unsigned(s: Seq<char>) -> Option<nat> {
    let digits = if s.len() > 0 && s[0] == '+' {
        s.skip(1)
    } else {
        s
    };
    if digits.len() > 0 && all_digits(digits) {
        Some(digits_value(digits))
    } else {
        None
    }
}

proof fn lemma_digits_grow(s: Seq<char>, i: int)
    requires
        all_digits(s),
        0 <= i <= s.len(),
    ensures
        digits_value(s.take(i)) <= digits_value(s),
    decreases s.len() - i,
{
    if i < s.len() {
        lemma_digits_grow(s, i + 1);
        assert(s.take(i + 1).drop_last() =~= s.take(i));
        assert(is_digit(s[i]));
    } else {
        assert(s.take(i) =~= s);
    }
}

/// The number that decimal digits denote, if they do and it fits.
fn parse_digits(digits: &Vec<char>) -> (r: Option<u64>)
    ensures
        r == (if digits@.len() > 0 && all_digits(digits@) && digits_value(digits@) <= u64::MAX {
            Some(digits_value(digits@) as u64)
        } else {
            None
        }),
{
    if digits.len() == 0 {
        return None;
    }
    let mut value: u64 = 0;
    let mut i: usize = 0;
    while i < digits.len()
        invariant
            i <= digits@.len(),
            value == digits_value(digits@.take(i as int)),
            forall|j: int| 0 <= j < i ==> is_digit(#[trigger] digits@[j]),
        decreases digits@.len() - i,
    {
        let c = digits[i];
        if c < '0' || c > '9' {
            assert(!is_digit(digits@[i as int]));
            return None;
        }
        let d: u64 = (c as u32 - 48) as u64;
        assert(digits@.take(i as int + 1).drop_last() =~= digits@.take(i as int));
        let next = match value.checked_mul(10) {
            Some(tens) => tens.checked_add(d),
            None => None,
        };
        match next {
            Some(next) => {
                value = next;
            },
            None => {
                proof {
                    if all_digits(digits@) {
                        lemma_digits_grow(digits@, i as int + 1);
                    }
                }
                return None;
            },
        }
        i += 1;
    }
    assert(digits@.take(digits@.len() as int) =~= digits@);
    Some(value)
}

/// The number that a text denotes, if it denotes one that fits.
pub fn parse_u64(s: &str) -> (r: Option<u64>)
    ensures
        r == (match unsigned(s@) {
            Some(n) => if n <= u64::MAX {
                Some(n as u64)
            } else {
                None
            },
            None => None,
        }),
{
    let chars = chars_of(s);
    if chars.len() > 0 && chars[0] == '+' {
        let mut digits: Vec<char> = Vec::new();
        let mut i: usize = 1;
        while i < chars.len()
            invariant
                1 <= i <= chars@.len(),
                digits@ == chars@.subrange(1, i as int),
            decreases chars@.len() - i,
        {
            digits.push(chars[i]);
            assert(chars@.subrange(1, i as int + 1) =~= chars@.subrange(1, i as int).push(
                chars@[i as int],
            ));
            i += 1;
        }
        assert(digits@ =~= s@.skip(1));
        parse_digits(&digits)
    } else {
        parse_digits(&chars)
    }
}

/// The characters that Unicode calls white space.
pub open spec fn is_white(c: char) -> bool {
    ||| '\t' <= c <= '\r'
    ||| c == ' '
    ||| c == '\u{85}'
    ||| c == '\u{a0}'
    ||| c == '\u{1680}'
    ||| '\u{2000}' <= c <= '\u{200a}'
    ||| c == '\u{2028}'
    ||| c == '\u{2029}'
    ||| c == '\u{202f}'
    ||| c == '\u{205f}'
    ||| c == '\u{3000}'
}

/// A text without the white space at its ends.
pub open spec fn trimmed(s: Seq<char>) -> Seq<char>
    decreases s.len(),
{
    if s.len() > 0 && is_white(s[0]) {
        trimmed(s.drop_first())
    } else if s.len() > 0 && is_white(s.last()) {
        trimmed(s.drop_last())
    } else {
        s
    }
}

fn is_white_char(c: char) -> (r: bool)
    ensures
        r == is_white(c),
{
    ('\t' <= c && c <= '\r') || c == ' ' || c == '\u{85}' || c == '\u{a0}' || c == '\u{1680}' || (
    '\u{2000}' <= c && c <= '\u{200a}') || c == '\u{2028}' || c == '\u{2029}' || c == '\u{202f}' || c
        == '\u{205f}' || c == '\u{3000}'
}

/// Takes the white space off both ends.
pub fn trim_text(s: &str) -> (r: String)
    ensures
        r@ == trimmed(s@),
{
    let chars = chars_of(s);
    let mut start: usize = 0;
    assert(chars@.subrange(0, chars@.len() as int) =~= s@);
    while start < chars.len() && is_white_char(chars[start])
        invariant
            start <= chars@.len(),
            trimmed(s@) == trimmed(chars@.subrange(start as int, chars@.len() as int)),
        decreases chars@.len() - start,
    {
        assert(chars@.subrange(start as int, chars@.len() as int).drop_first() =~= chars@.subrange(
            start as int + 1,
            chars@.len() as int,
        ));
        start += 1;
    }
    let mut end: usize = chars.len();
    while end > start && is_white_char(chars[end - 1])
        invariant
            start <= end <= chars@.len(),
            start < end ==> !is_white(chars@[start as int]),
            trimmed(s@) == trimmed(chars@.subrange(start as int, end as int)),
        decreases end,
    {
        assert(chars@.subrange(start as int, end as int).drop_last() =~= chars@.subrange(
            start as int,
            end - 1,
        ));
        end -= 1;
    }
    let ghost kept = chars@.subrange(start as int, end as int);
    assert(trimmed(kept) == kept);
    let mut out = String::new();
    let mut i: usize = start;
    while i < end
        invariant
            start <= i <= end <= chars@.len(),
            out@ == chars@.subrange(start as int, i as int),
        decreases end - i,
    {
        out.push(chars[i]);
        assert(chars@.subrange(start as int, i as int + 1) =~= chars@.subrange(
            start as int,
            i as int,
        ).push(chars@[i as int]));
        i += 1;
    }
    out
}

/// A number is read back from its digits: they are decimal ones, there is at least one,
/// and only zero itself begins with a zero.
pub proof fn law_decimal_reads_back(n: nat)
    ensures
        unsigned(decimal(n)) == Some(n),
        decimal(n).len() > 0,
        forall|i: int| 0 <= i < decimal(n).len() ==> '0' <= #[trigger] decimal(n)[i] <= '9',
        decimal(n)[0] == '0' ==> n == 0,
        digits_value(decimal(n)) == n,
    decreases n,
{
    if n < 10 {
        assert(decimal(n).drop_last() =~= Seq::<char>::empty());
        assert(digits_value(decimal(n).drop_last()) == 0);
        assert(decimal(n).last() as nat == 48 + n);
    } else {
        law_decimal_reads_back(n / 10);
        assert(decimal(n).drop_last() =~= decimal(n / 10));
        assert(decimal(n).last() as nat == 48 + n % 10);
        assert(decimal(n)[0] == decimal(n / 10)[0]);
    }
    assert(all_digits(decimal(n)));
}

/// What reading digits means: each further one counts one and the ones before it ten
/// times as much.
pub proof fn law_digits_are_read_in_tens(s: Seq<char>, c: char)
    requires
        '0' <= c <= '9',
    ensures
        digits_value(s.push(c)) == 10 * digits_value(s) + (c as nat - '0' as nat),
        digits_value(Seq::<char>::empty()) == 0,
        unsigned(s) is Some ==> unsigned(s.push(c)) == Some(
            (10 * unsigned(s)->0 + (c as nat - '0' as nat)) as nat,
        ),
        unsigned(seq![c]) == Some((c as nat - '0' as nat) as nat),
        unsigned(Seq::<char>::empty()) is None,
        forall|bad: Seq<char>, i: int|
            0 <= i < bad.len() && !('0' <= #[trigger] bad[i] <= '9') && !(i == 0 && bad[0] == '+')
                ==> unsigned(bad) is None,
{
    assert(s.push(c).drop_last() =~= s);
    assert(seq![c].drop_last() =~= Seq::<char>::empty());
    assert(digits_value(seq![c].drop_last()) == 0);
    assert(digits_value(seq![c]) == (c as nat - 48) as nat);
    if unsigned(s) is Some {
        let plus = s[0] == '+';
        let digits = if plus {
            s.skip(1)
        } else {
            s
        };
        let more = s.push(c);
        if plus {
            assert(more.skip(1) =~= digits.push(c));
        }
        assert(digits.push(c).drop_last() =~= digits);
        assert forall|i: int| 0 <= i < digits.push(c).len() implies is_digit(
            #[trigger] digits.push(c)[i],
        ) by {
            if i < digits.len() {
                assert(digits.push(c)[i] == digits[i]);
            }
        }
    }
    assert forall|bad: Seq<char>, i: int|
        0 <= i < bad.len() && !('0' <= #[trigger] bad[i] <= '9') && !(i == 0 && bad[0]
            == '+') implies unsigned(bad) is None by {
        if bad[0] == '+' {
            assert(bad.skip(1)[i - 1] == bad[i]);
        }
    }
}

/// Texts are ordered by the first character in which they differ, and a text comes
/// before whatever begins with it.
pub proof fn law_order_goes_by_the_first_difference(a: Seq<char>, b: Seq<char>, k: int)
    requires
        0 <= k <= a.len(),
        k <= b.len(),
        forall|m: int| 0 <= m < k ==> (#[trigger] a[m]) == b[m],
    ensures
        k < a.len() && k < b.len() && a[k] != b[k] ==> (text_before(a, b) <==> a[k] < b[k]),
        k == a.len() && k < b.len() ==> text_before(a, b),
        k == b.len() ==> !text_before(a, b),
    decreases k,
{
    if k > 0 {
        let x = a.drop_first();
        let y = b.drop_first();
        assert(a[0] == b[0]);
        assert forall|m: int| 0 <= m < k - 1 implies (#[trigger] x[m]) == y[m] by {
            assert(a[m + 1] == b[m + 1]);
        }
        law_order_goes_by_the_first_difference(x, y, k - 1);
        if k < a.len() && k < b.len() {
            assert(x[k - 1] == a[k] && y[k - 1] == b[k]);
        }
    }
}

/// Splitting is undone by joining: the pieces on both sides of a separator are those of
/// the two sides, and a text without a separator is its only piece.
pub proof fn law_pieces_stand_between_separators(a: Seq<char>, b: Seq<char>, separator: char)
    ensures
        pieces(a.push(separator) + b, separator) == pieces(a, separator) + pieces(b, separator),
        !a.contains(separator) ==> pieces(a, separator) == seq![a],
        pieces(a, separator).len() > 0,
        forall|i: int|
            0 <= i < pieces(a, separator).len() ==> !(#[trigger] pieces(a, separator)[i]).contains(
                separator,
            ),
    decreases a.len() + b.len(),
{
    lemma_pieces(a, separator);
    let whole = a.push(separator) + b;
    if b.len() == 0 {
        assert(whole =~= a.push(separator));
        assert(whole.drop_last() =~= a);
        assert(pieces(b, separator) =~= seq![Seq::<char>::empty()]);
        assert(pieces(whole, separator) =~= pieces(a, separator) + pieces(b, separator));
    } else {
        let front = b.drop_last();
        law_pieces_stand_between_separators(a, front, separator);
        lemma_pieces(front, separator);
        assert(whole.drop_last() =~= a.push(separator) + front);
        assert(whole.last() == b.last());
        let left = pieces(a, separator);
        let right = pieces(front, separator);
        assert((left + right).last() == right.last());
        assert((left + right).drop_last() =~= left + right.drop_last());
        assert(pieces(whole, separator) =~= left + pieces(b, separator));
    }
}

proof fn lemma_pieces(s: Seq<char>, separator: char)
    ensures
        pieces(s, separator).len() > 0,
        !s.contains(separator) ==> pieces(s, separator) == seq![s],
        forall|i: int|
            0 <= i < pieces(s, separator).len() ==> !(#[trigger] pieces(s, separator)[i]).contains(
                separator,
            ),
    decreases s.len(),
{
    if s.len() > 0 {
        let front = s.drop_last();
        let before = pieces(front, separator);
        let all = pieces(s, separator);
        lemma_pieces(front, separator);
        assert forall|i: int| 0 <= i < all.len() implies !(#[trigger] all[i]).contains(
            separator,
        ) by {
            if s.last() != separator && i == all.len() - 1 {
                let piece = before[before.len() - 1];
                assert(!piece.contains(separator));
                assert(all[i] == piece.push(s.last()));
                if all[i].contains(separator) {
                    let m = all[i].index_of(separator);
                    assert(piece[m] == separator);
                    assert(piece.contains(separator));
                }
            } else if i < before.len() {
                assert(all[i] == before[i]);
            }
        }
        if !s.contains(separator) {
            assert(s[s.len() - 1] != separator);
            if front.contains(separator) {
                let m = front.index_of(separator);
                assert(s[m] == separator);
            }
            assert(before == seq![front]);
            assert(front.push(s.last()) =~= s);
            assert(all =~= seq![s]);
        }
    } else {
        assert(s =~= Seq::<char>::empty());
        assert(pieces(s, separator) =~= seq![s]);
    }
}

/// Trimming takes white space off the ends and nothing else: what is left stands in the
/// text, what was taken off is white, and what is left neither begins nor ends so.
pub proof fn law_trimming_takes_white_space_off(s: Seq<char>) -> (r: (int, int))
    ensures
        0 <= r.0 <= r.1 <= s.len(),
        trimmed(s) == s.subrange(r.0, r.1),
        forall|i: int| 0 <= i < r.0 ==> is_white(#[trigger] s[i]),
        forall|i: int| r.1 <= i < s.len() ==> is_white(#[trigger] s[i]),
        trimmed(s).len() > 0 ==> !is_white(trimmed(s)[0]) && !is_white(trimmed(s).last()),
        is_white(' ') && is_white('\t') && is_white('\n') && is_white('\r'),
        forall|c: char| '!' <= c <= '~' ==> !#[trigger] is_white(c),
    decreases s.len(),
{
    if s.len() > 0 && is_white(s[0]) {
        let rest = s.drop_first();
        let (a, b) = law_trimming_takes_white_space_off(rest);
        assert(rest.subrange(a, b) =~= s.subrange(a + 1, b + 1));
        assert forall|i: int| 0 <= i < a + 1 implies is_white(#[trigger] s[i]) by {
            if i > 0 {
                assert(rest[i - 1] == s[i]);
            }
        }
        assert forall|i: int| b + 1 <= i < s.len() implies is_white(#[trigger] s[i]) by {
            assert(rest[i - 1] == s[i]);
        }
        (a + 1, b + 1)
    } else if s.len() > 0 && is_white(s.last()) {
        let rest = s.drop_last();
        let (a, b) = law_trimming_takes_white_space_off(rest);
        assert(rest.subrange(a, b) =~= s.subrange(a, b));
        assert forall|i: int| 0 <= i < a implies is_white(#[trigger] s[i]) by {
            assert(rest[i] == s[i]);
        }
        assert forall|i: int| b <= i < s.len() implies is_white(#[trigger] s[i]) by {
            if i < rest.len() {
                assert(rest[i] == s[i]);
            }
        }
        (a, b)
    } else {
        assert(s.subrange(0, s.len() as int) =~= s);
        (0, s.len() as int)
    }
}

/// The value of a hexadecimal digit.
pub open spec fn hex_value(c: char) -> nat {
    if '0' <= c <= '9' {
        (c as nat - '0' as nat) as nat
    } else {
        (c as nat - 'a' as nat + 10) as nat
    }
}

/// Bytes are read back from their digits: two for each byte, the larger half first.
pub proof fn law_hex_reads_back(bytes: Seq<u8>, i: int)
    requires
        0 <= i < bytes.len(),
    ensures
        hex_text(bytes).len() == 2 * bytes.len(),
        16 * hex_value(hex_text(bytes)[2 * i]) + hex_value(hex_text(bytes)[2 * i + 1]) == bytes[i],
    decreases bytes.len(),
{
    lemma_hex_text(bytes);
    let front = bytes.drop_last();
    lemma_hex_text(front);
    if i < front.len() {
        law_hex_reads_back(front, i);
        assert(hex_text(bytes)[2 * i] == hex_text(front)[2 * i]);
        assert(hex_text(bytes)[2 * i + 1] == hex_text(front)[2 * i + 1]);
    } else {
        lemma_hex_digit((bytes.last() / 16) as nat);
        lemma_hex_digit((bytes.last() % 16) as nat);
    }
}

/// A number is read back from its hexadecimal digits: each further one counts one and
/// the ones before it sixteen times as much.
pub proof fn law_hexadecimal_counts_in_sixteens(n: nat)
    ensures
        n < 16 ==> hexadecimal(n).len() == 1,
        n >= 16 ==> hexadecimal(n).drop_last() == hexadecimal(n / 16),
        hex_value(hexadecimal(n).last()) == n % 16,
{
    lemma_hex_digit(n % 16);
    if n >= 16 {
        assert(hexadecimal(n).drop_last() =~= hexadecimal(n / 16));
    }
}


/// The pieces of a text, put together again with the separator between them.
pub open spec fn put_together(parts: Seq<Seq<char>>, separator: char) -> Seq<char>
    decreases parts.len(),
{
    if parts.len() == 0 {
        Seq::empty()
    } else if parts.len() == 1 {
        parts[0]
    } else {
        put_together(parts.drop_last(), separator).push(separator) + parts.last()
    }
}

/// The pieces of a text, with the separator between them, are the text: nothing is
/// lost and nothing changes its place.
pub proof fn law_pieces_make_up_the_text(s: Seq<char>, separator: char)
    ensures
        put_together(pieces(s, separator), separator) == s,
    decreases s.len(),
{
    reveal_with_fuel(put_together, 2);
    if s.len() > 0 {
        let front = s.drop_last();
        let before = pieces(front, separator);
        let all = pieces(s, separator);
        law_pieces_make_up_the_text(front, separator);
        lemma_pieces(front, separator);
        assert(s =~= front.push(s.last()));
        if s.last() == separator {
            assert(all.drop_last() =~= before);
            assert(all.len() > 1);
            assert(put_together(all, separator) =~= s);
        } else {
            assert(all.drop_last() =~= before.drop_last());
            assert(all.last() == before.last().push(s.last()));
            assert(put_together(all, separator) =~= s);
        }
    }
}

/// A number without a zero in front is written in decimal as it was read.
pub proof fn law_number_is_written_as_it_was_read(s: Seq<char>)
    requires
        s.len() > 0,
        forall|i: int| 0 <= i < s.len() ==> '0' <= #[trigger] s[i] <= '9',
        s.len() > 1 ==> s[0] != '0',
    ensures
        decimal(digits_value(s)) == s,
        s[0] != '0' ==> digits_value(s) > 0,
    decreases s.len(),
{
    let front = s.drop_last();
    assert('0' <= s[s.len() - 1] <= '9');
    if s.len() == 1 {
        assert(digits_value(front) == 0);
        assert(digits_value(s) == s[0] as nat - 48);
        assert(decimal_digit(digits_value(s)) == s[0]);
        assert(decimal(digits_value(s)) =~= s);
    } else {
        assert forall|i: int| 0 <= i < front.len() implies '0' <= #[trigger] front[i] <= '9' by {
            assert('0' <= s[i] <= '9');
        }
        law_number_is_written_as_it_was_read(front);
        let n = digits_value(s);
        let d = (s.last() as nat - 48) as nat;
        assert(n == 10 * digits_value(front) + d);
        assert(n / 10 == digits_value(front));
        assert(n % 10 == d);
        assert(decimal_digit(d) == s.last());
        assert(decimal(n) == decimal(n / 10).push(decimal_digit(n % 10)));
        assert(s =~= front.push(s.last()));
    }
}


/// The capital ASCII letters have their small ones, and every other ASCII character is
/// its own, alone and in a text.
pub proof fn law_capitals_become_small(c: char, s: Seq<char>, i: int)
    requires
        c <= '\u{7f}',
        0 <= i < s.len(),
        forall|k: int| 0 <= k < s.len() ==> #[trigger] s[k] <= '\u{7f}',
    ensures
        'A' <= c <= 'Z' ==> lowercase(c).len() == 1 && 'a' <= lowercase(c)[0] <= 'z'
            && lowercase(c)[0] as int - 'a' as int == c as int - 'A' as int,
        !('A' <= c <= 'Z') ==> lowercase(c) == seq![c],
        lowered(s).len() == s.len(),
        'A' <= s[i] <= 'Z' ==> 'a' <= lowered(s)[i] <= 'z' && lowered(s)[i] as int - 'a' as int
            == s[i] as int - 'A' as int,
        !('A' <= s[i] <= 'Z') ==> lowered(s)[i] == s[i],
{
    assert(is_ascii_text(s));
}

/// White space is what Unicode calls so, by its code points.
pub proof fn law_white_space_is_unicodes(c: char)
    ensures
        is_white(c) <==> {
            let n = c as int;
            ||| 9 <= n <= 13
            ||| n == 32
            ||| n == 0x85
            ||| n == 0xa0
            ||| n == 0x1680
            ||| 0x2000 <= n <= 0x200a
            ||| n == 0x2028
            ||| n == 0x2029
            ||| n == 0x202f
            ||| n == 0x205f
            ||| n == 0x3000
        },
{
}

} // verus!
