//! The SSRF guard: decides whether a textual destination address is safe to
//! connect to. Private, loopback, link-local, broadcast, documentation and
//! unspecified IPv4 ranges are blocked, as are IPv6 loopback, unspecified and
//! unique-local addresses. Text that does not parse as an IP address is
//! blocked as a fail-safe.
use vstd::prelude::*;
use crate::ip::{spec_parse_ipv4, spec_parse_ipv6, parse_ipv4, parse_ipv6};
use vstd::utf8::encode_utf8;

verus! {

/// IPv4 addresses the guard refuses.
pub open spec fn ipv4_blocked(q: (u8, u8, u8, u8)) -> bool {
    // RFC 1918 private ranges
    q.0 == 10 || (q.0 == 172 && 16 <= q.1 && q.1 <= 31) || (q.0 == 192 && q.1 == 168)
    // loopback 127.0.0.0/8
    || q.0 == 127
    // link-local 169.254.0.0/16
    || (q.0 == 169 && q.1 == 254)
    // broadcast
    || (q.0 == 255 && q.1 == 255 && q.2 == 255 && q.3 == 255)
    // documentation: 192.0.2.0/24, 198.51.100.0/24, 203.0.113.0/24
    || (q.0 == 192 && q.1 == 0 && q.2 == 2) || (q.0 == 198 && q.1 == 51 && q.2 == 100) || (q.0
        == 203 && q.1 == 0 && q.2 == 113)
    // unspecified
    || (q.0 == 0 && q.1 == 0 && q.2 == 0 && q.3 == 0)
}

/// IPv6 addresses the guard refuses: loopback, unspecified, and unique local
/// (`fc00::/7`).
pub open spec fn ipv6_blocked(g: Seq<u16>) -> bool
    recommends
        g.len() == 8,
{
    // loopback ::1
    (g[0] == 0 && g[1] == 0 && g[2] == 0 && g[3] == 0 && g[4] == 0 && g[5] == 0 && g[6] == 0 && g[7]
        == 1)
    // unspecified ::
    || (g[0] == 0 && g[1] == 0 && g[2] == 0 && g[3] == 0 && g[4] == 0 && g[5] == 0 && g[6] == 0
        && g[7] == 0)
    // unique local fc00::/7
    || (g[0] & 0xfe00) == 0xfc00
}

/// Whether the guard blocks the byte string `s`: a blocked IPv4 or IPv6
/// address, or text that is no IP address at all.
pub open spec fn blocked_text(s: Seq<u8>) -> bool {
    match spec_parse_ipv4(s) {
        Some(q) => ipv4_blocked(q),
        None => match spec_parse_ipv6(s) {
            Some(g) => ipv6_blocked(g),
            None => true,
        },
    }
}

/// Whether the guard blocks the string `s` (over its UTF-8 bytes).
pub open spec fn blocked_str(s: Seq<char>) -> bool {
    blocked_text(encode_utf8(s))
}

fn ipv4_blocked_exec(a: u8, b: u8, c: u8, d: u8) -> (r: bool)
    ensures
        r == ipv4_blocked((a, b, c, d)),
{
    a == 10 || (a == 172 && 16 <= b && b <= 31) || (a == 192 && b == 168) || a == 127 || (a == 169
        && b == 254) || (a == 255 && b == 255 && c == 255 && d == 255) || (a == 192 && b == 0 && c
        == 2) || (a == 198 && b == 51 && c == 100) || (a == 203 && b == 0 && c == 113) || (a == 0
        && b == 0 && c == 0 && d == 0)
}

fn ipv6_blocked_exec(g: &Vec<u16>) -> (r: bool)
    requires
        g@.len() == 8,
    ensures
        r == ipv6_blocked(g@),
{
    let all_zero_head = g[0] == 0 && g[1] == 0 && g[2] == 0 && g[3] == 0 && g[4] == 0 && g[5] == 0
        && g[6] == 0;
    (all_zero_head && g[7] == 1) || (all_zero_head && g[7] == 0) || (g[0] & 0xfe00) == 0xfc00
}

/// Decides whether `ip_str` is a private, reserved or unparseable address,
/// which the tunnel executor must refuse to connect to.
pub fn is_private_ip(ip_str: &str) -> (r: bool)
    ensures
        r == blocked_str(ip_str@),
{
    let bytes = ip_str.as_bytes();
    match parse_ipv4(bytes) {
        Some((a, b, c, d)) => ipv4_blocked_exec(a, b, c, d),
        None => match parse_ipv6(bytes) {
            Some(g) => ipv6_blocked_exec(&g),
            None => true,
        },
    }
}

/// The guard blocks every address in the refused IPv4 ranges, however it is
/// written.
pub proof fn lemma_guard_blocks_bad_ipv4(s: Seq<u8>, q: (u8, u8, u8, u8))
    requires
        spec_parse_ipv4(s) == Some(q),
        ipv4_blocked(q),
    ensures
        blocked_text(s),
{
}

/// The guard blocks every IPv6 loopback, unspecified or unique-local address,
/// however it is written.
pub proof fn lemma_guard_blocks_bad_ipv6(s: Seq<u8>, g: Seq<u16>)
    requires
        spec_parse_ipv4(s) is None,
        spec_parse_ipv6(s) == Some(g),
        ipv6_blocked(g),
    ensures
        blocked_text(s),
{
}

/// The guard blocks any text that is not an IP address.
pub proof fn lemma_guard_blocks_unparseable(s: Seq<u8>)
    requires
        spec_parse_ipv4(s) is None,
        spec_parse_ipv6(s) is None,
    ensures
        blocked_text(s),
{
}

} // verus!
