//! The hub's SOCKS5 frontend: parsing and validating the client's greeting,
//! username/password authentication, and CONNECT request, and building the
//! protocol's replies. Only username/password authentication (method 0x02)
//! and the CONNECT command are accepted.
use vstd::prelude::*;
use crate::text::{dec_of, all_ascii, ascii_chars, ascii_string_from_bytes, lemma_dec_of_ascii,
    lemma_all_ascii_concat};
use crate::ip::{ipv4_text, ipv6_text, ipv4_to_text, ipv6_to_text, hex_of, lemma_hex_of_digits,
    is_hex_digit};
use crate::protocol::{Payload, PayloadView};
use vstd::utf8::encode_utf8;

verus! {

/// Why a client's bytes were refused.
#[derive(Clone, Copy, Debug, PartialEq, Eq, Structural)]
pub enum Socks5Error {
    /// The version byte was not 0x05.
    BadVersion,
    /// The sub-negotiation version byte was not 0x01.
    BadAuthVersion,
    /// No offered method was username/password (0x02).
    NoAcceptableMethod,
    /// The command was not CONNECT (0x01).
    UnsupportedCommand,
    /// The address type was not IPv4, domain, or IPv6.
    UnsupportedAddrType,
    /// A username, password or domain was not UTF-8 text.
    BadString,
}

/// Whether the greeting offers username/password authentication.
pub fn greeting_accepts(ver: u8, methods: &[u8]) -> (r: bool)
    ensures
        r == (ver == 5 && methods@.contains(2u8)),
{
    if ver != 5 {
        return false;
    }
    let n = methods.len();
    let mut i: usize = 0;
    while i < n
        invariant
            ver == 5,
            n == methods@.len(),
            0 <= i <= n,
            forall|m: int| 0 <= m < i ==> methods@[m] != 2u8,
        decreases n - i,
    {
        if methods[i] == 2 {
            proof {
                assert(methods@[i as int] == 2u8);
            }
            return true;
        }
        i += 1;
    }
    proof {
        if methods@.contains(2u8) {
            let w = choose|w: int| 0 <= w < methods@.len() && methods@[w] == 2u8;
            assert(false);
        }
    }
    false
}

/// The method-selection reply: accept username/password, or refuse all.
pub fn method_reply(accept: bool) -> (r: Vec<u8>)
    ensures
        accept ==> r@ == seq![0x05u8, 0x02u8],
        !accept ==> r@ == seq![0x05u8, 0xffu8],
{
    let mut v: Vec<u8> = Vec::new();
    v.push(0x05);
    if accept {
        v.push(0x02);
    } else {
        v.push(0xff);
    }
    proof {
        if accept {
            assert(v@ =~= seq![0x05u8, 0x02u8]);
        } else {
            assert(v@ =~= seq![0x05u8, 0xffu8]);
        }
    }
    v
}

pub fn auth_version_ok(v: u8) -> (r: bool)
    ensures
        r == (v == 1),
{
    v == 1
}

/// The sub-negotiation success reply.
pub fn auth_reply_ok() -> (r: Vec<u8>)
    ensures
        r@ == seq![0x01u8, 0x00u8],
{
    let mut v: Vec<u8> = Vec::new();
    v.push(0x01);
    v.push(0x00);
    proof {
        assert(v@ =~= seq![0x01u8, 0x00u8]);
    }
    v
}

/// The CONNECT success reply: bound address 0.0.0.0:0.
pub fn connect_success_reply() -> (r: Vec<u8>)
    ensures
        r@ == seq![0x05u8, 0x00u8, 0x00u8, 0x01u8, 0u8, 0u8, 0u8, 0u8, 0u8, 0u8],
{
    let mut v: Vec<u8> = Vec::new();
    v.push(0x05);
    v.push(0x00);
    v.push(0x00);
    v.push(0x01);
    let mut i: usize = 0;
    while i < 6
        invariant
            0 <= i <= 6,
            v@ =~= seq![0x05u8, 0x00u8, 0x00u8, 0x01u8] + Seq::new(i as nat, |k: int| 0u8),
        decreases 6 - i,
    {
        v.push(0);
        proof {
            assert(v@ =~= seq![0x05u8, 0x00u8, 0x00u8, 0x01u8] + Seq::new(
                (i + 1) as nat,
                |k: int| 0u8,
            ));
        }
        i += 1;
    }
    proof {
        assert(v@ =~= seq![0x05u8, 0x00u8, 0x00u8, 0x01u8, 0u8, 0u8, 0u8, 0u8, 0u8, 0u8]);
    }
    v
}

/// The general-failure reply, sent on every refused or failed request.
pub fn general_failure_reply() -> (r: Vec<u8>)
    ensures
        r@ == seq![0x05u8, 0x01u8, 0x00u8, 0x01u8, 0u8, 0u8, 0u8, 0u8, 0u8, 0u8],
{
    let mut v: Vec<u8> = Vec::new();
    v.push(0x05);
    v.push(0x01);
    v.push(0x00);
    v.push(0x01);
    let mut i: usize = 0;
    while i < 6
        invariant
            0 <= i <= 6,
            v@ =~= seq![0x05u8, 0x01u8, 0x00u8, 0x01u8] + Seq::new(i as nat, |k: int| 0u8),
        decreases 6 - i,
    {
        v.push(0);
        proof {
            assert(v@ =~= seq![0x05u8, 0x01u8, 0x00u8, 0x01u8] + Seq::new(
                (i + 1) as nat,
                |k: int| 0u8,
            ));
        }
        i += 1;
    }
    proof {
        assert(v@ =~= seq![0x05u8, 0x01u8, 0x00u8, 0x01u8, 0u8, 0u8, 0u8, 0u8, 0u8, 0u8]);
    }
    v
}

/// Checks the four fixed bytes of a CONNECT request and yields the address
/// type: version first, then the command, then the address type.
pub fn parse_connect_header(b: &[u8]) -> (r: Result<u8, Socks5Error>)
    requires
        b@.len() == 4,
    ensures
        b@[0] != 5 ==> r == Result::<u8, Socks5Error>::Err(Socks5Error::BadVersion),
        b@[0] == 5 && b@[1] != 1 ==> r == Result::<u8, Socks5Error>::Err(
            Socks5Error::UnsupportedCommand,
        ),
        b@[0] == 5 && b@[1] == 1 && !(b@[3] == 1 || b@[3] == 3 || b@[3] == 4) ==> r
            == Result::<u8, Socks5Error>::Err(Socks5Error::UnsupportedAddrType),
        b@[0] == 5 && b@[1] == 1 && (b@[3] == 1 || b@[3] == 3 || b@[3] == 4) ==> r
            == Result::<u8, Socks5Error>::Ok(b@[3]),
{
    if b[0] != 5 {
        Err(Socks5Error::BadVersion)
    } else if b[1] != 1 {
        Err(Socks5Error::UnsupportedCommand)
    } else if b[3] == 1 || b[3] == 3 || b[3] == 4 {
        Ok(b[3])
    } else {
        Err(Socks5Error::UnsupportedAddrType)
    }
}

proof fn lemma_ipv4_text_ascii(q: (u8, u8, u8, u8))
    ensures
        all_ascii(ipv4_text(q)),
{
    lemma_dec_of_ascii(q.0 as nat);
    lemma_dec_of_ascii(q.1 as nat);
    lemma_dec_of_ascii(q.2 as nat);
    lemma_dec_of_ascii(q.3 as nat);
    assert(all_ascii(seq![crate::ip::dot()]));
    lemma_all_ascii_concat(dec_of(q.0 as nat), seq![crate::ip::dot()]);
    lemma_all_ascii_concat(dec_of(q.0 as nat) + seq![crate::ip::dot()], dec_of(q.1 as nat));
    lemma_all_ascii_concat(
        dec_of(q.0 as nat) + seq![crate::ip::dot()] + dec_of(q.1 as nat),
        seq![crate::ip::dot()],
    );
    lemma_all_ascii_concat(
        dec_of(q.0 as nat) + seq![crate::ip::dot()] + dec_of(q.1 as nat) + seq![crate::ip::dot()],
        dec_of(q.2 as nat),
    );
    lemma_all_ascii_concat(
        dec_of(q.0 as nat) + seq![crate::ip::dot()] + dec_of(q.1 as nat) + seq![crate::ip::dot()]
            + dec_of(q.2 as nat),
        seq![crate::ip::dot()],
    );
    lemma_all_ascii_concat(
        dec_of(q.0 as nat) + seq![crate::ip::dot()] + dec_of(q.1 as nat) + seq![crate::ip::dot()]
            + dec_of(q.2 as nat) + seq![crate::ip::dot()],
        dec_of(q.3 as nat),
    );
}

proof fn lemma_hex_of_ascii(n: nat)
    ensures
        all_ascii(hex_of(n)),
{
    lemma_hex_of_digits(n);
    assert forall|k: int| 0 <= k < hex_of(n).len() implies #[trigger] hex_of(n)[k] < 0x80 by {
        assert(is_hex_digit(hex_of(n)[k]));
    }
}

proof fn lemma_ipv6_text_ascii(g: Seq<u16>)
    ensures
        all_ascii(ipv6_text(g)),
    decreases g.len(),
{
    if g.len() == 0 {
        assert(all_ascii(ipv6_text(g)));
    } else if g.len() == 1 {
        lemma_hex_of_ascii(g[0] as nat);
    } else {
        lemma_ipv6_text_ascii(g.drop_last());
        lemma_hex_of_ascii(g.last() as nat);
        lemma_all_ascii_concat(ipv6_text(g.drop_last()), seq![crate::ip::colon()]);
        lemma_all_ascii_concat(
            ipv6_text(g.drop_last()) + seq![crate::ip::colon()],
            hex_of(g.last() as nat),
        );
    }
}

/// The target text of an IPv4 CONNECT request: its dotted-quad form.
pub fn target_from_v4(b: &[u8]) -> (r: String)
    requires
        b@.len() == 4,
    ensures
        encode_utf8(r@) == ipv4_text((b@[0], b@[1], b@[2], b@[3])),
        r@ == ascii_chars(ipv4_text((b@[0], b@[1], b@[2], b@[3]))),
{
    let v = ipv4_to_text(b[0], b[1], b[2], b[3]);
    proof {
        lemma_ipv4_text_ascii((b@[0], b@[1], b@[2], b@[3]));
    }
    ascii_string_from_bytes(v)
}

/// The eight 16-bit groups held in sixteen address bytes, big-endian.
pub open spec fn groups16(bs: Seq<u8>) -> Seq<u16> {
    Seq::new(8, |i: int| ((bs[2 * i] as u16) * 256 + bs[2 * i + 1] as u16) as u16)
}

/// The target text of an IPv6 CONNECT request: eight colon-separated hex
/// groups.
pub fn target_from_v6(b: &[u8]) -> (r: String)
    requires
        b@.len() == 16,
    ensures
        encode_utf8(r@) == ipv6_text(groups16(b@)),
        r@ == ascii_chars(ipv6_text(groups16(b@))),
{
    let mut g: Vec<u16> = Vec::new();
    let mut i: usize = 0;
    while i < 8
        invariant
            0 <= i <= 8,
            b@.len() == 16,
            g@.len() == i,
            forall|k: int| 0 <= k < i ==> g@[k] == groups16(b@)[k],
        decreases 8 - i,
    {
        let hi = b[2 * i];
        let lo = b[2 * i + 1];
        g.push((hi as u16) * 256 + lo as u16);
        i += 1;
    }
    proof {
        assert(g@ =~= groups16(b@));
        lemma_ipv6_text_ascii(groups16(b@));
    }
    let v = ipv6_to_text(&g);
    ascii_string_from_bytes(v)
}

/// The target text of a domain CONNECT request: the domain bytes as UTF-8.
pub fn target_from_domain(b: Vec<u8>) -> (r: Result<String, Socks5Error>)
    ensures
        r matches Ok(s) ==> vstd::utf8::valid_utf8(b@) && s@ == vstd::utf8::decode_utf8(b@),
        r is Err ==> !vstd::utf8::valid_utf8(b@) && r == Result::<String, Socks5Error>::Err(
            Socks5Error::BadString,
        ),
{
    match crate::text::try_string_from_bytes(b) {
        Some(s) => Ok(s),
        None => Err(Socks5Error::BadString),
    }
}

/// A port carried big-endian in two bytes.
pub fn port_from_be(hi: u8, lo: u8) -> (r: u16)
    ensures
        r == hi as u16 * 256 + lo as u16,
{
    (hi as u16) * 256 + (lo as u16)
}

/// Why a validated client was refused.
#[derive(Clone, Copy, Debug, PartialEq, Eq, Structural)]
pub enum AuthError {
    /// The bearer token is unknown or expired.
    InvalidToken,
    /// The owning user has fewer than ten points.
    InsufficientPoints,
}

/// The access decision over what the token store returned: the token must
/// exist and not be expired, and the owning user must hold at least ten
/// points.
pub fn validate_access(
    token_found: bool,
    expires_at: i64,
    now: i64,
    points_found: bool,
    points: i32,
) -> (r: Result<(), AuthError>)
    ensures
        r is Ok <==> token_found && expires_at > now && points_found && points >= 10,
        (!token_found || expires_at <= now) ==> r == Result::<(), AuthError>::Err(
            AuthError::InvalidToken,
        ),
        token_found && expires_at > now && (!points_found || points < 10) ==> r == Result::<
            (),
            AuthError,
        >::Err(AuthError::InsufficientPoints),
{
    if !token_found || expires_at <= now {
        Err(AuthError::InvalidToken)
    } else if !points_found || points < 10 {
        Err(AuthError::InsufficientPoints)
    } else {
        Ok(())
    }
}

/// The points balance after a relay ends: a successfully completed relay
/// consumes ten points; a relay that ended in error consumes none.
pub fn settle_relay_points(points: i32, relay_ok: bool) -> (r: i32)
    requires
        points >= 10,
    ensures
        relay_ok ==> r == points - 10,
        !relay_ok ==> r == points,
{
    if relay_ok {
        points - 10
    } else {
        points
    }
}

/// The connect request the hub sends to the selected agent; the agent's
/// identity travels in the connection itself, so the field stays empty.
pub fn make_connect_request(
    request_id: &String,
    target_addr: String,
    target_port: u16,
    address_type: u8,
) -> (r: Payload)
    ensures
        r@ == (PayloadView::ConnectRequest {
            request_id: request_id@,
            target_addr: target_addr@,
            target_port,
            agent_id: Option::None,
            address_type,
        }),
{
    Payload::ConnectRequest {
        request_id: request_id.clone(),
        target_addr,
        target_port,
        agent_id: None,
        address_type,
    }
}

/// The client-disconnect notice for one request.
pub fn make_client_disconnect(request_id: &String) -> (r: Payload)
    ensures
        r@ == (PayloadView::ClientDisconnect { request_id: request_id@ }),
{
    Payload::ClientDisconnect { request_id: request_id.clone() }
}

} // verus!
