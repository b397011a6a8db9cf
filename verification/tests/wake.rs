use navetted::wake::{
    default_broadcast, parse_ipv4, parse_wake_broadcast, parse_wake_request, BroadcastError,
    Ipv4Address, MacAddress, WakeError, WakeRequest, WakeTarget,
};

fn ip(a: u8, b: u8, c: u8, d: u8) -> Ipv4Address {
    Ipv4Address { a, b, c, d }
}

const MAC: MacAddress = MacAddress { a: 0xaa, b: 0xbb, c: 0xcc, d: 0xdd, e: 0xee, f: 0xff };

fn parse_mac(text: &str) -> Option<MacAddress> {
    if text.to_lowercase().replace(['-', ':'], "") == "aabbccddeeff" {
        Some(MAC)
    } else {
        None
    }
}

fn is_lan(address: Ipv4Address) -> bool {
    address == default_broadcast()
        || address.a == 10
        || (address.a == 172 && address.b >= 16 && address.b < 32)
        || (address.a == 192 && address.b == 168)
        || (address.a == 100 && address.b >= 64 && address.b < 128)
}

fn request(mac: &str, broadcast: Option<&str>, port: Option<u16>) -> Option<WakeRequest> {
    Some(WakeRequest { mac: mac.into(), broadcast: broadcast.map(|b| b.into()), port })
}

fn parse(request: Option<WakeRequest>, default: Ipv4Address) -> Result<WakeTarget, WakeError> {
    parse_wake_request(request, default, parse_mac, is_lan)
}

#[test]
fn wake_requests_default_the_broadcast_address_and_port() {
    let target = parse(request("AA-BB-CC-DD-EE-FF", None, None), default_broadcast()).unwrap();
    assert_eq!(target, WakeTarget { mac: MAC, broadcast: ip(255, 255, 255, 255), port: 9 });
    let configured = parse(request("aabbccddeeff", None, None), ip(192, 168, 1, 255)).unwrap();
    assert_eq!(configured.broadcast, ip(192, 168, 1, 255));
    let explicit =
        parse(request("aabbccddeeff", Some("10.0.0.255"), Some(7)), default_broadcast()).unwrap();
    assert_eq!(explicit.broadcast, ip(10, 0, 0, 255));
    assert_eq!(explicit.port, 7);
}

#[test]
fn wake_requests_may_only_name_lan_broadcast_targets() {
    let rule = "only private ranges and 100.64.0.0/10";
    for accepted in ["192.168.1.255", "10.0.0.255", "172.16.4.255", "100.100.1.255"] {
        assert!(
            parse(request("aabbccddeeff", Some(accepted), None), default_broadcast()).is_ok(),
            "{accepted} must be accepted"
        );
    }
    for rejected in ["8.8.8.8", "203.0.113.255", "0.0.0.0", "100.63.255.255"] {
        let error =
            parse(request("aabbccddeeff", Some(rejected), None), default_broadcast()).unwrap_err();
        let reason = error.reason(rule);
        assert!(
            reason.contains("100.64.0.0/10"),
            "{rejected} must be rejected naming the rule, got {reason:?}"
        );
    }
}

#[test]
fn every_malformed_wake_request_is_refused() {
    let default = default_broadcast();
    let good = "aa:bb:cc:dd:ee:ff";
    assert_eq!(parse(None, default), Err(WakeError::Body));
    assert_eq!(parse(request("nope", None, None), default), Err(WakeError::Mac));
    assert_eq!(parse(request(good, None, Some(0)), default), Err(WakeError::Port));
    assert_eq!(parse(request(good, Some("192.168.1"), None), default), Err(WakeError::Broadcast));
    assert_eq!(parse(request(good, Some("ff02::1"), None), default), Err(WakeError::Broadcast));
    assert_eq!(WakeError::Body.reason(""), "body is not a valid wake request");
    assert_eq!(WakeError::Mac.reason(""), "invalid MAC address");
    assert_eq!(WakeError::Broadcast.reason(""), "broadcast must be an IPv4 literal");
    assert_eq!(WakeError::Port.reason(""), "port must be 1-65535");
}

#[test]
fn literals_are_four_plain_numbers() {
    assert_eq!(parse_ipv4("192.168.1.255"), Some(ip(192, 168, 1, 255)));
    assert_eq!(parse_ipv4("0.0.0.0"), Some(ip(0, 0, 0, 0)));
    for literal in [
        "", "1.2.3", "1.2.3.4.5", "256.0.0.1", "01.2.3.4", "1..2.3", "+1.2.3.4", " 1.2.3.4",
        "1.2.3.4 ", "1.2.3.1000", "a.b.c.d",
    ] {
        assert_eq!(parse_ipv4(literal), None, "{literal:?}");
    }
}

#[test]
fn wake_broadcast_defaults_to_the_limited_broadcast() {
    assert_eq!(default_broadcast(), ip(255, 255, 255, 255));
}

#[test]
fn wake_broadcast_accepts_a_subnet_directed_lan_address() {
    assert_eq!(parse_wake_broadcast("192.168.1.255", is_lan), Ok(ip(192, 168, 1, 255)));
}

#[test]
fn wake_broadcast_refuses_a_public_address_at_startup_naming_the_rule() {
    for (rejected, error) in [
        ("8.8.8.8", BroadcastError::NotLan(ip(8, 8, 8, 8))),
        ("not-an-address", BroadcastError::NotIpv4),
        ("ff02::1", BroadcastError::NotIpv4),
        ("100.63.255.255", BroadcastError::NotLan(ip(100, 63, 255, 255))),
    ] {
        assert_eq!(parse_wake_broadcast(rejected, is_lan), Err(error));
    }
}
