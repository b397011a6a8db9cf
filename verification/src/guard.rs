//! Who may talk to the daemon: no browser, and nobody without the token.

use vstd::prelude::*;

use crate::http::Status;
use crate::text::strip_text_prefix;

verus! {

broadcast use vstd::string::group_string_axioms;

/// A request that is turned away: the status and what goes with it.
#[derive(Debug, PartialEq, Eq)]
pub struct Refusal {
    pub status: Status,
    pub body: String,
}

pub open spec fn browser_refusal() -> (Status, Seq<char>) {
    (Status::Forbidden, "requests from browsers are not accepted"@)
}

/// A bare refusal: to say why would tell whether a token was recognised.
pub open spec fn token_refusal() -> (Status, Seq<char>) {
    (Status::Unauthorized, ""@)
}

pub open spec fn refusal_of(r: Option<Refusal>) -> Option<(Status, Seq<char>)> {
    match r {
        Some(refusal) => Some((refusal.status, refusal.body@)),
        None => None,
    }
}

/// The token that an `Authorization` header presents.
pub open spec fn presented(authorization: Option<Seq<char>>) -> Option<Seq<char>> {
    if authorization is Some && crate::text::text_starts_with(authorization->0, "Bearer "@) {
        Some(authorization->0.skip("Bearer "@.len() as int))
    } else {
        None
    }
}

/// Turns away every request that a browser sent. There is no client in a browser,
/// and a browser leaves it to the server to refuse a WebSocket, so a page could
/// otherwise attach to a session. That there is an `Origin` header counts, not
/// what it says.
pub fn reject_browser_origin(has_origin: bool) -> (r: Option<Refusal>)
    ensures
        refusal_of(r) == (if has_origin {
            Some(browser_refusal())
        } else {
            None
        }),
{
    if has_origin {
        Some(
            Refusal {
                status: Status::Forbidden,
                body: "requests from browsers are not accepted".to_owned(),
            },
        )
    } else {
        None
    }
}

/// What a presented token leads to, given what `matches` says of it.
pub open spec fn authenticates<F: FnOnce(&str) -> bool>(
    matches: F,
    authorization: Option<Seq<char>>,
    r: Option<(Status, Seq<char>)>,
) -> bool {
    match presented(authorization) {
        Some(token) => exists|asked: &str, answer: bool|
            {
                &&& asked@ == token
                &&& #[trigger] call_ensures(matches, (asked,), answer)
                &&& r == (if answer {
                    None
                } else {
                    Some(token_refusal())
                })
            },
        None => r == Some(token_refusal()),
    }
}

/// Asks for the token on every request, from this machine too.
pub fn authenticate<F: FnOnce(&str) -> bool>(authorization: Option<&str>, matches: F) -> (r: Option<
    Refusal,
>)
    requires
        forall|token: &str| call_requires(matches, (token,)),
    ensures
        authenticates(matches, crate::text::text_of(authorization), refusal_of(r)),
{
    let token = match authorization {
        Some(value) => strip_text_prefix(value, "Bearer "),
        None => None,
    };
    if let Some(token) = token {
        let asked = token.as_str();
        let answer = matches(asked);
        assert(call_ensures(matches, (asked,), answer));
        if answer {
            return None;
        }
    }
    Some(Refusal { status: Status::Unauthorized, body: "".to_owned() })
}

/// What becomes of a request: the origin is looked at before the token.
pub open spec fn admits<F: FnOnce(&str) -> bool>(
    matches: F,
    has_origin: bool,
    authorization: Option<Seq<char>>,
    r: Option<(Status, Seq<char>)>,
) -> bool {
    if has_origin {
        r == Some(browser_refusal())
    } else {
        authenticates(matches, authorization, r)
    }
}

/// Lets a request through, or says how it is turned away.
pub fn let_in<F: FnOnce(&str) -> bool>(
    has_origin: bool,
    authorization: Option<&str>,
    matches: F,
) -> (r: Option<Refusal>)
    requires
        forall|token: &str| call_requires(matches, (token,)),
    ensures
        admits(matches, has_origin, crate::text::text_of(authorization), refusal_of(r)),
{
    let refusal = reject_browser_origin(has_origin);
    if refusal.is_some() {
        return refusal;
    }
    authenticate(authorization, matches)
}

/// A browser is turned away as a browser, whatever token it presents.
pub proof fn law_origin_comes_before_the_token<F: FnOnce(&str) -> bool>(
    matches: F,
    authorization: Option<Seq<char>>,
    r: Option<(Status, Seq<char>)>,
)
    requires
        admits(matches, true, authorization, r),
    ensures
        r == Some(browser_refusal()),
{
}

/// Nobody gets in without a token that the daemon knows.
pub proof fn law_no_token_no_entry<F: FnOnce(&str) -> bool>(
    matches: F,
    has_origin: bool,
    authorization: Option<Seq<char>>,
    r: Option<(Status, Seq<char>)>,
)
    requires
        admits(matches, has_origin, authorization, r),
        r is None,
    ensures
        !has_origin,
        presented(authorization) is Some,
        exists|asked: &str|
            asked@ == presented(authorization)->0 && #[trigger] call_ensures(
                matches,
                (asked,),
                true,
            ),
{
}


/// What stands before the token in an `Authorization` header.
pub open spec fn bearer() -> Seq<char> {
    seq!['B', 'e', 'a', 'r', 'e', 'r', ' ']
}

/// The daemon is asked about the very token that follows the word `Bearer` and one
/// blank, and its answer decides. Any other header is turned away with 401 and
/// nothing said.
pub proof fn law_token_after_bearer_decides<F: FnOnce(&str) -> bool>(
    matches: F,
    header: Seq<char>,
    token: Seq<char>,
    r: Option<(Status, Seq<char>)>,
)
    requires
        admits(matches, false, Some(header), r),
    ensures
        header == bearer() + token && r is None ==> exists|asked: &str|
            asked@ == token && #[trigger] call_ensures(matches, (asked,), true),
        header == bearer() + token && r is Some ==> exists|asked: &str|
            asked@ == token && #[trigger] call_ensures(matches, (asked,), false),
        header.len() < 7 ==> r is Some,
        header.len() >= 7 && header.take(7) != bearer() ==> r is Some,
        r is Some ==> (r->0).0.number() == 401 && (r->0).1.len() == 0,
{
    reveal_strlit("Bearer ");
    reveal_strlit("");
    assert("Bearer "@ =~= bearer());
    if header == bearer() + token {
        assert(header.take(7) =~= bearer());
        assert(header.skip(7) =~= token);
    }
}

/// A browser is turned away with 403, and a request without a header with 401.
pub proof fn law_refusals_have_their_numbers<F: FnOnce(&str) -> bool>(
    matches: F,
    authorization: Option<Seq<char>>,
    r: Option<(Status, Seq<char>)>,
    s: Option<(Status, Seq<char>)>,
)
    requires
        admits(matches, true, authorization, r),
        admits(matches, false, None, s),
    ensures
        r is Some && (r->0).0.number() == 403,
        s is Some && (s->0).0.number() == 401,
{
}

} // verus!
