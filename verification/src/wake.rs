//! Requests to wake a machine on the network of the daemon.

use vstd::prelude::*;

use crate::text::{chars_of, parse_u64, split_text};

verus! {

broadcast use vstd::string::group_string_axioms;

/// The port that a wake request goes to unless it names one.
pub const DEFAULT_PORT: u16 = 9;

/// An IPv4 address.
#[derive(Clone, Copy, Debug, PartialEq, Eq, Structural)]
pub struct Ipv4Address {
    pub a: u8,
    pub b: u8,
    pub c: u8,
    pub d: u8,
}

/// The limited broadcast, where wake requests go unless something else is named.
pub fn default_broadcast() -> (r: Ipv4Address)
    ensures
        r == (Ipv4Address { a: 255, b: 255, c: 255, d: 255 }),
{
    Ipv4Address { a: 255, b: 255, c: 255, d: 255 }
}

/// The address of a network card.
#[derive(Clone, Copy, Debug, PartialEq, Eq, Structural)]
pub struct MacAddress {
    pub a: u8,
    pub b: u8,
    pub c: u8,
    pub d: u8,
    pub e: u8,
    pub f: u8,
}

/// One number of an address: up to three digits, no zero in front, and not above
/// 255.
pub open spec fn is_octet(piece: Seq<char>) -> bool {
    &&& 0 < piece.len() <= 3
    &&& crate::text::all_digits(piece)
    &&& piece.len() > 1 ==> piece[0] != '0'
    &&& crate::text::digits_value(piece) <= 255
}

/// The address that a text denotes: four numbers with dots between them.
pub open spec fn ipv4(text: Seq<char>) -> Option<Ipv4Address> {
    let parts = crate::text::pieces(text, '.');
    if parts.len() == 4 && is_octet(parts[0]) && is_octet(parts[1]) && is_octet(parts[2])
        && is_octet(parts[3]) {
        Some(
            Ipv4Address {
                a: crate::text::digits_value(parts[0]) as u8,
                b: crate::text::digits_value(parts[1]) as u8,
                c: crate::text::digits_value(parts[2]) as u8,
                d: crate::text::digits_value(parts[3]) as u8,
            },
        )
    } else {
        None
    }
}

fn parse_octet(piece: &str) -> (r: Option<u8>)
    ensures
        r == (if is_octet(piece@) {
            Some(crate::text::digits_value(piece@) as u8)
        } else {
            None
        }),
{
    let chars = chars_of(piece);
    if chars.len() == 0 || chars.len() > 3 || (chars.len() > 1 && chars[0] == '0') {
        return None;
    }
    if chars[0] == '+' {
        assert(!crate::text::is_digit(piece@[0]));
        return None;
    }
    match parse_u64(piece) {
        Some(n) => if n <= 255 {
            Some(n as u8)
        } else {
            None
        },
        None => {
            proof {
                if crate::text::all_digits(piece@) {
                    lemma_short_number_fits(piece@);
                }
            }
            None
        },
    }
}

proof fn lemma_short_number_fits(s: Seq<char>)
    requires
        crate::text::all_digits(s),
        s.len() <= 3,
    ensures
        crate::text::digits_value(s) <= 999,
{
    reveal_with_fuel(crate::text::digits_value, 4);
    if s.len() > 0 {
        assert(crate::text::is_digit(s[s.len() - 1]));
        if s.len() > 1 {
            assert(crate::text::is_digit(s[s.len() - 2]));
            if s.len() > 2 {
                assert(crate::text::is_digit(s[s.len() - 3]));
            }
        }
    }
}

/// Reads an IPv4 literal.
pub fn parse_ipv4(text: &str) -> (r: Option<Ipv4Address>)
    ensures
        r == ipv4(text@),
{
    let parts = split_text(text, '.');
    let ghost all = crate::text::texts(parts@);
    assert(all.len() == parts@.len());
    if parts.len() != 4 {
        return None;
    }
    assert(all[0] == parts@[0]@ && all[1] == parts@[1]@ && all[2] == parts@[2]@ && all[3]
        == parts@[3]@);
    let a = parse_octet(parts[0].as_str());
    let b = parse_octet(parts[1].as_str());
    let c = parse_octet(parts[2].as_str());
    let d = parse_octet(parts[3].as_str());
    match (a, b, c, d) {
        (Some(a), Some(b), Some(c), Some(d)) => Some(Ipv4Address { a, b, c, d }),
        _ => None,
    }
}

/// What a client asks for. The address is an IPv4 literal and the port is not
/// zero; both have a default.
#[derive(Debug, PartialEq, Eq)]
pub struct WakeRequest {
    pub mac: String,
    pub broadcast: Option<String>,
    pub port: Option<u16>,
}

/// A request that was found good.
#[derive(Clone, Copy, Debug, PartialEq, Eq, Structural)]
pub struct WakeTarget {
    pub mac: MacAddress,
    pub broadcast: Ipv4Address,
    pub port: u16,
}

/// Why a wake request is refused. Every one of these is the client's fault.
#[derive(Clone, Copy, Debug, PartialEq, Eq, Structural)]
pub enum WakeError {
    Body,
    Mac,
    Broadcast,
    /// The address is not one that may be sent to.
    NotLan,
    Port,
}

impl WakeError {
    /// The reason that the client is told; `lan_rule` says which addresses may be
    /// sent to.
    pub open spec fn reason_text(self, lan_rule: Seq<char>) -> Seq<char> {
        match self {
            WakeError::Body => "body is not a valid wake request"@,
            WakeError::Mac => "invalid MAC address"@,
            WakeError::Broadcast => "broadcast must be an IPv4 literal"@,
            WakeError::NotLan => lan_rule,
            WakeError::Port => "port must be 1-65535"@,
        }
    }

    pub fn reason(self, lan_rule: &str) -> (r: String)
        ensures
            r@ == self.reason_text(lan_rule@),
    {
        match self {
            WakeError::Body => "body is not a valid wake request".to_owned(),
            WakeError::Mac => "invalid MAC address".to_owned(),
            WakeError::Broadcast => "broadcast must be an IPv4 literal".to_owned(),
            WakeError::NotLan => lan_rule.to_owned(),
            WakeError::Port => "port must be 1-65535".to_owned(),
        }
    }
}

/// The port of a request.
pub open spec fn port_of(request: WakeRequest) -> u16 {
    match request.port {
        Some(port) => port,
        None => DEFAULT_PORT,
    }
}

/// The address of a request, if it is one.
pub open spec fn broadcast_of(request: WakeRequest, default_broadcast: Ipv4Address) -> Option<
    Ipv4Address,
> {
    match request.broadcast {
        Some(literal) => ipv4(literal@),
        None => Some(default_broadcast),
    }
}

/// What becomes of a request once its MAC address was read.
pub open spec fn aimed<G: Fn(Ipv4Address) -> bool>(
    is_lan: G,
    request: WakeRequest,
    default_broadcast: Ipv4Address,
    mac: MacAddress,
    r: Result<WakeTarget, WakeError>,
) -> bool {
    match broadcast_of(request, default_broadcast) {
        None => r == Err::<WakeTarget, WakeError>(WakeError::Broadcast),
        Some(broadcast) => {
            ||| call_ensures(is_lan, (broadcast,), false) && r == Err::<WakeTarget, WakeError>(
                WakeError::NotLan,
            )
            ||| call_ensures(is_lan, (broadcast,), true) && r == (if port_of(request) == 0 {
                Err(WakeError::Port)
            } else {
                Ok(WakeTarget { mac, broadcast, port: port_of(request) })
            })
        },
    }
}

/// What becomes of a request: the first thing that is wrong with it is reported.
pub open spec fn checked<F: Fn(&str) -> Option<MacAddress>, G: Fn(Ipv4Address) -> bool>(
    parse_mac: F,
    is_lan: G,
    request: Option<WakeRequest>,
    default_broadcast: Ipv4Address,
    r: Result<WakeTarget, WakeError>,
) -> bool {
    match request {
        None => r == Err::<WakeTarget, WakeError>(WakeError::Body),
        Some(request) => mac_read(parse_mac, is_lan, request, default_broadcast, r),
    }
}

/// The MAC address was read, and the rest follows from it.
pub open spec fn mac_read<F: Fn(&str) -> Option<MacAddress>, G: Fn(Ipv4Address) -> bool>(
    parse_mac: F,
    is_lan: G,
    request: WakeRequest,
    default_broadcast: Ipv4Address,
    r: Result<WakeTarget, WakeError>,
) -> bool {
    exists|asked: &str, mac: Option<MacAddress>|
        {
            &&& asked@ == request.mac@
            &&& #[trigger] call_ensures(parse_mac, (asked,), mac)
            &&& match mac {
                None => r == Err::<WakeTarget, WakeError>(WakeError::Mac),
                Some(mac) => aimed(is_lan, request, default_broadcast, mac, r),
            }
        }
}

/// Checks a wake request; `request` is nothing where the body was not one.
pub fn parse_wake_request<F: Fn(&str) -> Option<MacAddress>, G: Fn(Ipv4Address) -> bool>(
    request: Option<WakeRequest>,
    default_broadcast: Ipv4Address,
    parse_mac: F,
    is_lan: G,
) -> (r: Result<WakeTarget, WakeError>)
    requires
        forall|text: &str| call_requires(parse_mac, (text,)),
        forall|address: Ipv4Address| call_requires(is_lan, (address,)),
    ensures
        checked(parse_mac, is_lan, request, default_broadcast, r),
{
    let request = match request {
        Some(request) => request,
        None => {
            return Err(WakeError::Body);
        },
    };
    let asked = request.mac.as_str();
    let mac = parse_mac(asked);
    assert(call_ensures(parse_mac, (asked,), mac));
    let mac = match mac {
        Some(mac) => mac,
        None => {
            return Err(WakeError::Mac);
        },
    };
    let broadcast = match &request.broadcast {
        Some(literal) => match parse_ipv4(literal.as_str()) {
            Some(address) => address,
            None => {
                return Err(WakeError::Broadcast);
            },
        },
        None => default_broadcast,
    };
    if !is_lan(broadcast) {
        return Err(WakeError::NotLan);
    }
    let port = match request.port {
        Some(port) => port,
        None => DEFAULT_PORT,
    };
    if port == 0 {
        return Err(WakeError::Port);
    }
    Ok(WakeTarget { mac, broadcast, port })
}

/// Why the address of a command line cannot be used.
#[derive(Clone, Copy, Debug, PartialEq, Eq, Structural)]
pub enum BroadcastError {
    NotIpv4,
    NotLan(Ipv4Address),
}

/// What becomes of the address of a command line.
pub open spec fn broadcast_checked<G: FnOnce(Ipv4Address) -> bool>(
    is_lan: G,
    literal: Seq<char>,
    r: Result<Ipv4Address, BroadcastError>,
) -> bool {
    match ipv4(literal) {
        None => r == Err::<Ipv4Address, BroadcastError>(BroadcastError::NotIpv4),
        Some(address) => {
            ||| call_ensures(is_lan, (address,), true) && r == Ok::<Ipv4Address, BroadcastError>(
                address,
            )
            ||| call_ensures(is_lan, (address,), false) && r == Err::<Ipv4Address, BroadcastError>(
                BroadcastError::NotLan(address),
            )
        },
    }
}

/// Checks the address of a command line by the rule that requests are checked by,
/// so that a wrong one fails at once.
pub fn parse_wake_broadcast<G: FnOnce(Ipv4Address) -> bool>(literal: &str, is_lan: G) -> (r: Result<
    Ipv4Address,
    BroadcastError,
>)
    requires
        forall|address: Ipv4Address| call_requires(is_lan, (address,)),
    ensures
        broadcast_checked(is_lan, literal@, r),
{
    match parse_ipv4(literal) {
        None => Err(BroadcastError::NotIpv4),
        Some(address) => if is_lan(address) {
            Ok(address)
        } else {
            Err(BroadcastError::NotLan(address))
        },
    }
}

/// A packet is sent only to an address that may be sent to, and never to port
/// zero.
pub proof fn law_packets_stay_on_the_lan<
    F: Fn(&str) -> Option<MacAddress>,
    G: Fn(Ipv4Address) -> bool,
>(
    parse_mac: F,
    is_lan: G,
    request: Option<WakeRequest>,
    default_broadcast: Ipv4Address,
    r: Result<WakeTarget, WakeError>,
)
    requires
        checked(parse_mac, is_lan, request, default_broadcast, r),
        r is Ok,
    ensures
        call_ensures(is_lan, (r->Ok_0.broadcast,), true),
        r->Ok_0.port != 0,
{
}


/// An address as it is written: its four numbers with dots between them.
pub open spec fn written(address: Ipv4Address) -> Seq<char> {
    crate::text::decimal(address.a as nat).push('.') + crate::text::decimal(address.b as nat).push(
        '.',
    ) + crate::text::decimal(address.c as nat).push('.') + crate::text::decimal(address.d as nat)
}

proof fn lemma_number_is_an_octet(n: u8)
    ensures
        is_octet(crate::text::decimal(n as nat)),
        crate::text::digits_value(crate::text::decimal(n as nat)) == n,
        !crate::text::decimal(n as nat).contains('.'),
{
    let text = crate::text::decimal(n as nat);
    crate::text::law_decimal_reads_back(n as nat);
    reveal_with_fuel(crate::text::decimal, 4);
    assert forall|i: int| 0 <= i < text.len() implies crate::text::is_digit(#[trigger] text[i]) by {
        assert('0' <= text[i] <= '9');
    }
    if text.contains('.') {
        let i = text.index_of('.');
        assert('0' <= text[i] <= '9');
    }
}

/// A text is read as an address exactly where it is that address as it is written:
/// the numbers come in their order, and a zero in front, a missing number or one
/// above 255 make it no address.
pub proof fn law_address_is_read_as_it_is_written(text: Seq<char>, address: Ipv4Address)
    ensures
        ipv4(text) == Some(address) <==> text == written(address),
{
    let a = crate::text::decimal(address.a as nat);
    let b = crate::text::decimal(address.b as nat);
    let c = crate::text::decimal(address.c as nat);
    let d = crate::text::decimal(address.d as nat);
    if text == written(address) {
        lemma_number_is_an_octet(address.a);
        lemma_number_is_an_octet(address.b);
        lemma_number_is_an_octet(address.c);
        lemma_number_is_an_octet(address.d);
        let cd = c.push('.') + d;
        let bcd = b.push('.') + cd;
        assert(text =~= a.push('.') + bcd);
        crate::text::law_pieces_stand_between_separators(a, bcd, '.');
        crate::text::law_pieces_stand_between_separators(b, cd, '.');
        crate::text::law_pieces_stand_between_separators(c, d, '.');
        crate::text::law_pieces_stand_between_separators(d, d, '.');
        assert(crate::text::pieces(text, '.') =~= seq![a, b, c, d]);
    }
    if ipv4(text) == Some(address) {
        let parts = crate::text::pieces(text, '.');
        crate::text::law_pieces_make_up_the_text(text, '.');
        assert forall|k: int| 0 <= k < 4 implies crate::text::decimal(
            crate::text::digits_value(#[trigger] parts[k]),
        ) == parts[k] by {
            let part = parts[k];
            assert(is_octet(part));
            assert forall|i: int| 0 <= i < part.len() implies '0' <= #[trigger] part[i] <= '9' by {
                assert(crate::text::is_digit(part[i]));
            }
            crate::text::law_number_is_written_as_it_was_read(part);
        }
        assert(a == parts[0] && b == parts[1] && c == parts[2] && d == parts[3]);
        reveal_with_fuel(crate::text::put_together, 5);
        assert(parts.drop_last().drop_last().drop_last()[0] == parts[0]);
        assert(text =~= written(address));
    }
}

/// A good request goes to the address that it names, or else to the one that the
/// daemon was started with, on the port that it names, or else on port 9, for the
/// card that was read from it.
pub proof fn law_request_is_sent_where_it_says<
    F: Fn(&str) -> Option<MacAddress>,
    G: Fn(Ipv4Address) -> bool,
>(
    parse_mac: F,
    is_lan: G,
    request: WakeRequest,
    default_broadcast: Ipv4Address,
    r: Result<WakeTarget, WakeError>,
)
    requires
        checked(parse_mac, is_lan, Some(request), default_broadcast, r),
        r is Ok,
    ensures
        request.broadcast is Some ==> request.broadcast->0@ == written(r->Ok_0.broadcast),
        request.broadcast is None ==> r->Ok_0.broadcast == default_broadcast,
        request.port is Some ==> r->Ok_0.port == request.port->0,
        request.port is None ==> r->Ok_0.port == 9,
        exists|asked: &str|
            asked@ == request.mac@ && #[trigger] call_ensures(
                parse_mac,
                (asked,),
                Some(r->Ok_0.mac),
            ),
{
    if request.broadcast is Some {
        law_address_is_read_as_it_is_written(request.broadcast->0@, r->Ok_0.broadcast);
    }
    let (asked, mac) = choose|asked: &str, mac: Option<MacAddress>|
        asked@ == request.mac@ && #[trigger] call_ensures(parse_mac, (asked,), mac) && match mac {
            None => r == Err::<WakeTarget, WakeError>(WakeError::Mac),
            Some(mac) => aimed(is_lan, request, default_broadcast, mac, r),
        };
    assert(mac == Some(r->Ok_0.mac));
}

/// A request is refused only for what is wrong with it: the error names a card that
/// could not be read, an address that is none, one that may not be sent to, or port
/// zero.
pub proof fn law_request_is_refused_for_what_is_wrong<
    F: Fn(&str) -> Option<MacAddress>,
    G: Fn(Ipv4Address) -> bool,
>(
    parse_mac: F,
    is_lan: G,
    request: WakeRequest,
    default_broadcast: Ipv4Address,
    address: Ipv4Address,
    r: Result<WakeTarget, WakeError>,
)
    requires
        checked(parse_mac, is_lan, Some(request), default_broadcast, r),
        r is Err,
    ensures
        r->Err_0 != WakeError::Body,
        r->Err_0 == WakeError::Mac ==> exists|asked: &str|
            asked@ == request.mac@ && #[trigger] call_ensures(
                parse_mac,
                (asked,),
                None::<MacAddress>,
            ),
        r->Err_0 == WakeError::Broadcast ==> request.broadcast is Some
            && request.broadcast->0@ != written(address),
        r->Err_0 == WakeError::NotLan && request.broadcast is None ==> call_ensures(
            is_lan,
            (default_broadcast,),
            false,
        ),
        r->Err_0 == WakeError::NotLan && request.broadcast is Some && request.broadcast->0@
            == written(address) ==> call_ensures(is_lan, (address,), false),
        r->Err_0 == WakeError::Port ==> request.port == Some(0u16),
{
    if request.broadcast is Some {
        law_address_is_read_as_it_is_written(request.broadcast->0@, address);
    }
}

/// The address of a command line is taken as it is written, and only where it may
/// be sent to.
pub proof fn law_broadcast_is_taken_as_written<G: FnOnce(Ipv4Address) -> bool>(
    is_lan: G,
    literal: Seq<char>,
    address: Ipv4Address,
    r: Result<Ipv4Address, BroadcastError>,
)
    requires
        broadcast_checked(is_lan, literal, r),
    ensures
        r == Ok::<Ipv4Address, BroadcastError>(address) ==> literal == written(address)
            && call_ensures(is_lan, (address,), true),
        r == Err::<Ipv4Address, BroadcastError>(BroadcastError::NotLan(address)) ==> literal
            == written(address) && call_ensures(is_lan, (address,), false),
        r == Err::<Ipv4Address, BroadcastError>(BroadcastError::NotIpv4) ==> literal != written(
            address,
        ),
{
    law_address_is_read_as_it_is_written(literal, address);
}

} // verus!
