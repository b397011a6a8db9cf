use navetted::guard::{authenticate, let_in, reject_browser_origin};
use navetted::http::Status;

const TOKEN: &str = "0123abcd";

fn request(has_origin: bool, authorization: Option<&str>) -> Option<u16> {
    let refusal = let_in(has_origin, authorization, |token| token == TOKEN);
    refusal.map(|refusal| refusal.status.code())
}

#[test]
fn rejects_any_request_carrying_an_origin_header() {
    let refusal = reject_browser_origin(true).unwrap();
    assert_eq!(refusal.status, Status::Forbidden);
    assert_eq!(refusal.body, "requests from browsers are not accepted");
    assert_eq!(request(true, None), Some(403));
}

#[test]
fn allows_a_request_with_no_origin_header() {
    assert!(reject_browser_origin(false).is_none());
    assert_eq!(request(false, Some("Bearer 0123abcd")), None);
}

#[test]
fn rejects_an_empty_origin_header() {
    // That the header is there counts, not what it says.
    assert_eq!(request(true, Some("Bearer 0123abcd")), Some(403));
}

#[test]
fn rejects_a_request_with_no_authorization_header() {
    let refusal = authenticate(None, |_| true).unwrap();
    assert_eq!(refusal.status, Status::Unauthorized);
    assert_eq!(refusal.body, "");
    assert_eq!(request(false, None), Some(401));
}

#[test]
fn rejects_a_wrong_token() {
    assert_eq!(request(false, Some("Bearer 0123abce")), Some(401));
    assert_eq!(request(false, Some("0123abcd")), Some(401));
    assert_eq!(request(false, Some("bearer 0123abcd")), Some(401));
    assert_eq!(request(false, Some("Bearer  0123abcd")), Some(401));
}

#[test]
fn accepts_the_configured_token() {
    assert_eq!(request(false, Some("Bearer 0123abcd")), None);
}

#[test]
fn origin_is_refused_before_the_token_is_checked() {
    let refusal = let_in(true, Some("Bearer 0123abcd"), |_| panic!("the token is not looked at"));
    assert_eq!(refusal.unwrap().status, Status::Forbidden);
}
