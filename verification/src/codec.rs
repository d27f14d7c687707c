//! The wire form of the control protocol: each message is one JSON object
//! with a `type` discriminant, written and read by this module.
//!
//! The encoder emits a canonical byte form: fields in a fixed order, strings
//! escaped with `\"`, `\\` and `\u00XX` for control bytes, numbers in plain
//! decimal, absent options as `null`. The decoder accepts exactly that form;
//! `lemma_decode_encode_*` prove that decoding an encoded message gives the
//! message back.
use vstd::prelude::*;
use crate::text::{dec_of, is_digit, scan_dec, lemma_scan_dec_of, u64_to_dec, parse_dec};
use crate::ip::{is_hex_digit, hex_val, hex_digit};
use crate::protocol::{Payload, PayloadView};
use vstd::utf8::{encode_utf8, decode_utf8, valid_utf8, encode_utf8_valid_utf8,
    encode_utf8_decode_utf8};

verus! {

// ---------------------------------------------------------------------------
// Fixed byte strings of the wire form
// ---------------------------------------------------------------------------

/// `{"type":"`
pub const OBJ_PREFIX: [u8; 9] = [0x7b, 0x22, 0x74, 0x79, 0x70, 0x65, 0x22, 0x3a, 0x22];

/// `init-request`
pub const TAG_INIT_REQUEST: [u8; 12] = [0x69, 0x6e, 0x69, 0x74, 0x2d, 0x72, 0x65, 0x71, 0x75,
    0x65, 0x73, 0x74];

/// `init-response`
pub const TAG_INIT_RESPONSE: [u8; 13] = [0x69, 0x6e, 0x69, 0x74, 0x2d, 0x72, 0x65, 0x73, 0x70,
    0x6f, 0x6e, 0x73, 0x65];

/// `init-error`
pub const TAG_INIT_ERROR: [u8; 10] = [0x69, 0x6e, 0x69, 0x74, 0x2d, 0x65, 0x72, 0x72, 0x6f, 0x72];

/// `connect-request`
pub const TAG_CONNECT_REQUEST: [u8; 15] = [0x63, 0x6f, 0x6e, 0x6e, 0x65, 0x63, 0x74, 0x2d, 0x72,
    0x65, 0x71, 0x75, 0x65, 0x73, 0x74];

/// `connect-response`
pub const TAG_CONNECT_RESPONSE: [u8; 16] = [0x63, 0x6f, 0x6e, 0x6e, 0x65, 0x63, 0x74, 0x2d, 0x72,
    0x65, 0x73, 0x70, 0x6f, 0x6e, 0x73, 0x65];

/// `data-chunk-request`
pub const TAG_DATA_REQUEST_CHUNK: [u8; 18] = [0x64, 0x61, 0x74, 0x61, 0x2d, 0x63, 0x68, 0x75,
    0x6e, 0x6b, 0x2d, 0x72, 0x65, 0x71, 0x75, 0x65, 0x73, 0x74];

/// `data-chunk-response`
pub const TAG_DATA_RESPONSE_CHUNK: [u8; 19] = [0x64, 0x61, 0x74, 0x61, 0x2d, 0x63, 0x68, 0x75,
    0x6e, 0x6b, 0x2d, 0x72, 0x65, 0x73, 0x70, 0x6f, 0x6e, 0x73, 0x65];

/// `data-response-transfer-complete`
pub const TAG_DATA_RESPONSE_COMPLETE: [u8; 31] = [0x64, 0x61, 0x74, 0x61, 0x2d, 0x72, 0x65, 0x73,
    0x70, 0x6f, 0x6e, 0x73, 0x65, 0x2d, 0x74, 0x72, 0x61, 0x6e, 0x73, 0x66, 0x65, 0x72, 0x2d,
    0x63, 0x6f, 0x6d, 0x70, 0x6c, 0x65, 0x74, 0x65];

/// `data-request-transfer-complete`
pub const TAG_DATA_REQUEST_COMPLETE: [u8; 30] = [0x64, 0x61, 0x74, 0x61, 0x2d, 0x72, 0x65, 0x71,
    0x75, 0x65, 0x73, 0x74, 0x2d, 0x74, 0x72, 0x61, 0x6e, 0x73, 0x66, 0x65, 0x72, 0x2d, 0x63,
    0x6f, 0x6d, 0x70, 0x6c, 0x65, 0x74, 0x65];

/// `client-disconnect`
pub const TAG_CLIENT_DISCONNECT: [u8; 17] = [0x63, 0x6c, 0x69, 0x65, 0x6e, 0x74, 0x2d, 0x64,
    0x69, 0x73, 0x63, 0x6f, 0x6e, 0x6e, 0x65, 0x63, 0x74];

/// `command-request`
pub const TAG_COMMAND_REQUEST: [u8; 15] = [0x63, 0x6f, 0x6d, 0x6d, 0x61, 0x6e, 0x64, 0x2d, 0x72,
    0x65, 0x71, 0x75, 0x65, 0x73, 0x74];

/// `command-response-chunk`
pub const TAG_COMMAND_RESPONSE_CHUNK: [u8; 22] = [0x63, 0x6f, 0x6d, 0x6d, 0x61, 0x6e, 0x64, 0x2d,
    0x72, 0x65, 0x73, 0x70, 0x6f, 0x6e, 0x73, 0x65, 0x2d, 0x63, 0x68, 0x75, 0x6e, 0x6b];

/// `command-response-transfer-complete`
pub const TAG_COMMAND_RESPONSE_COMPLETE: [u8; 34] = [0x63, 0x6f, 0x6d, 0x6d, 0x61, 0x6e, 0x64,
    0x2d, 0x72, 0x65, 0x73, 0x70, 0x6f, 0x6e, 0x73, 0x65, 0x2d, 0x74, 0x72, 0x61, 0x6e, 0x73,
    0x66, 0x65, 0x72, 0x2d, 0x63, 0x6f, 0x6d, 0x70, 0x6c, 0x65, 0x74, 0x65];

/// `,"agent_id":`
pub const K_AGENT_ID: [u8; 12] = [0x2c, 0x22, 0x61, 0x67, 0x65, 0x6e, 0x74, 0x5f, 0x69, 0x64,
    0x22, 0x3a];

/// `,"ip":`
pub const K_IP: [u8; 6] = [0x2c, 0x22, 0x69, 0x70, 0x22, 0x3a];

/// `,"remote_host":`
pub const K_REMOTE_HOST: [u8; 15] = [0x2c, 0x22, 0x72, 0x65, 0x6d, 0x6f, 0x74, 0x65, 0x5f, 0x68,
    0x6f, 0x73, 0x74, 0x22, 0x3a];

/// `,"country_code":`
pub const K_COUNTRY_CODE: [u8; 16] = [0x2c, 0x22, 0x63, 0x6f, 0x75, 0x6e, 0x74, 0x72, 0x79, 0x5f,
    0x63, 0x6f, 0x64, 0x65, 0x22, 0x3a];

/// `,"city":`
pub const K_CITY: [u8; 8] = [0x2c, 0x22, 0x63, 0x69, 0x74, 0x79, 0x22, 0x3a];

/// `,"region":`
pub const K_REGION: [u8; 10] = [0x2c, 0x22, 0x72, 0x65, 0x67, 0x69, 0x6f, 0x6e, 0x22, 0x3a];

/// `,"asn":`
pub const K_ASN: [u8; 7] = [0x2c, 0x22, 0x61, 0x73, 0x6e, 0x22, 0x3a];

/// `,"asn_org":`
pub const K_ASN_ORG: [u8; 11] = [0x2c, 0x22, 0x61, 0x73, 0x6e, 0x5f, 0x6f, 0x72, 0x67, 0x22,
    0x3a];

/// `,"os_type":`
pub const K_OS_TYPE: [u8; 11] = [0x2c, 0x22, 0x6f, 0x73, 0x5f, 0x74, 0x79, 0x70, 0x65, 0x22,
    0x3a];

/// `,"os_version":`
pub const K_OS_VERSION: [u8; 14] = [0x2c, 0x22, 0x6f, 0x73, 0x5f, 0x76, 0x65, 0x72, 0x73, 0x69,
    0x6f, 0x6e, 0x22, 0x3a];

/// `,"hostname":`
pub const K_HOSTNAME: [u8; 12] = [0x2c, 0x22, 0x68, 0x6f, 0x73, 0x74, 0x6e, 0x61, 0x6d, 0x65,
    0x22, 0x3a];

/// `,"kernel_version":`
pub const K_KERNEL_VERSION: [u8; 18] = [0x2c, 0x22, 0x6b, 0x65, 0x72, 0x6e, 0x65, 0x6c, 0x5f,
    0x76, 0x65, 0x72, 0x73, 0x69, 0x6f, 0x6e, 0x22, 0x3a];

/// `,"username":`
pub const K_USERNAME: [u8; 12] = [0x2c, 0x22, 0x75, 0x73, 0x65, 0x72, 0x6e, 0x61, 0x6d, 0x65,
    0x22, 0x3a];

/// `,"success":`
pub const K_SUCCESS: [u8; 11] = [0x2c, 0x22, 0x73, 0x75, 0x63, 0x63, 0x65, 0x73, 0x73, 0x22,
    0x3a];

/// `,"message":`
pub const K_MESSAGE: [u8; 11] = [0x2c, 0x22, 0x6d, 0x65, 0x73, 0x73, 0x61, 0x67, 0x65, 0x22,
    0x3a];

/// `,"error_message":`
pub const K_ERROR_MESSAGE: [u8; 17] = [0x2c, 0x22, 0x65, 0x72, 0x72, 0x6f, 0x72, 0x5f, 0x6d,
    0x65, 0x73, 0x73, 0x61, 0x67, 0x65, 0x22, 0x3a];

/// `,"request_id":`
pub const K_REQUEST_ID: [u8; 14] = [0x2c, 0x22, 0x72, 0x65, 0x71, 0x75, 0x65, 0x73, 0x74, 0x5f,
    0x69, 0x64, 0x22, 0x3a];

/// `,"target_addr":`
pub const K_TARGET_ADDR: [u8; 15] = [0x2c, 0x22, 0x74, 0x61, 0x72, 0x67, 0x65, 0x74, 0x5f, 0x61,
    0x64, 0x64, 0x72, 0x22, 0x3a];

/// `,"target_port":`
pub const K_TARGET_PORT: [u8; 15] = [0x2c, 0x22, 0x74, 0x61, 0x72, 0x67, 0x65, 0x74, 0x5f, 0x70,
    0x6f, 0x72, 0x74, 0x22, 0x3a];

/// `,"address_type":`
pub const K_ADDRESS_TYPE: [u8; 16] = [0x2c, 0x22, 0x61, 0x64, 0x64, 0x72, 0x65, 0x73, 0x73, 0x5f,
    0x74, 0x79, 0x70, 0x65, 0x22, 0x3a];

/// `,"chunk_id":`
pub const K_CHUNK_ID: [u8; 12] = [0x2c, 0x22, 0x63, 0x68, 0x75, 0x6e, 0x6b, 0x5f, 0x69, 0x64,
    0x22, 0x3a];

/// `,"data":`
pub const K_DATA: [u8; 8] = [0x2c, 0x22, 0x64, 0x61, 0x74, 0x61, 0x22, 0x3a];

/// `,"command":`
pub const K_COMMAND: [u8; 11] = [0x2c, 0x22, 0x63, 0x6f, 0x6d, 0x6d, 0x61, 0x6e, 0x64, 0x22,
    0x3a];

/// `,"stream_type":`
pub const K_STREAM_TYPE: [u8; 15] = [0x2c, 0x22, 0x73, 0x74, 0x72, 0x65, 0x61, 0x6d, 0x5f, 0x74,
    0x79, 0x70, 0x65, 0x22, 0x3a];

/// `,"exit_code":`
pub const K_EXIT_CODE: [u8; 13] = [0x2c, 0x22, 0x65, 0x78, 0x69, 0x74, 0x5f, 0x63, 0x6f, 0x64,
    0x65, 0x22, 0x3a];

/// `true`
pub const LIT_TRUE: [u8; 4] = [0x74, 0x72, 0x75, 0x65];

/// `false`
pub const LIT_FALSE: [u8; 5] = [0x66, 0x61, 0x6c, 0x73, 0x65];

/// `null`
pub const LIT_NULL: [u8; 4] = [0x6e, 0x75, 0x6c, 0x6c];

pub open spec fn quote() -> u8 {
    0x22
}

pub open spec fn bslash() -> u8 {
    0x5c
}

pub open spec fn rbrace() -> u8 {
    0x7d
}

// ---------------------------------------------------------------------------
// String escaping
// ---------------------------------------------------------------------------

/// A byte the escaper passes through unchanged.
pub open spec fn plain_byte(b: u8) -> bool {
    b != quote() && b != bslash() && b >= 0x20
}

/// The escaped form of one byte.
pub open spec fn esc1(b: u8) -> Seq<u8> {
    if b == quote() {
        seq![bslash(), quote()]
    } else if b == bslash() {
        seq![bslash(), bslash()]
    } else if b < 0x20 {
        seq![bslash(), 0x75, 0x30, 0x30, hex_digit((b / 16) as nat), hex_digit((b % 16) as nat)]
    } else {
        seq![b]
    }
}

/// The escaped form of a byte string.
pub open spec fn esc(bs: Seq<u8>) -> Seq<u8>
    decreases bs.len(),
{
    if bs.len() == 0 {
        Seq::empty()
    } else {
        esc1(bs[0]) + esc(bs.drop_first())
    }
}

pub proof fn lemma_esc_append(a: Seq<u8>, b: Seq<u8>)
    ensures
        esc(a + b) == esc(a) + esc(b),
    decreases a.len(),
{
    if a.len() == 0 {
        assert(a + b =~= b);
        assert(esc(a) + esc(b) =~= esc(b));
    } else {
        assert((a + b).drop_first() =~= a.drop_first() + b);
        assert((a + b)[0] == a[0]);
        lemma_esc_append(a.drop_first(), b);
        assert(esc1(a[0]) + (esc(a.drop_first()) + esc(b)) =~= (esc1(a[0]) + esc(a.drop_first()))
            + esc(b));
    }
}

/// The JSON string form of a character sequence: quoted, escaped UTF-8.
pub open spec fn jstr(cs: Seq<char>) -> Seq<u8> {
    seq![quote()] + esc(encode_utf8(cs)) + seq![quote()]
}

/// Appends the bytes of `s` to `out`.
pub fn put_bytes(out: &mut Vec<u8>, s: &[u8])
    ensures
        final(out)@ == old(out)@ + s@,
{
    let mut k: usize = 0;
    while k < s.len()
        invariant
            0 <= k <= s@.len(),
            out@ =~= old(out)@ + s@.subrange(0, k as int),
        decreases s@.len() - k,
    {
        out.push(s[k]);
        proof {
            assert(out@ =~= old(out)@ + s@.subrange(0, k as int + 1));
        }
        k += 1;
    }
    proof {
        assert(out@ =~= old(out)@ + s@);
    }
}

/// Appends the escaped form of `bs` to `out`.
pub fn escape_into(out: &mut Vec<u8>, bs: &[u8])
    ensures
        final(out)@ == old(out)@ + esc(bs@),
{
    let mut k: usize = 0;
    proof {
        assert(esc(bs@.subrange(0, 0)) =~= Seq::<u8>::empty());
        assert(out@ =~= old(out)@ + esc(bs@.subrange(0, 0)));
    }
    while k < s_len(bs)
        invariant
            0 <= k <= bs@.len(),
            out@ =~= old(out)@ + esc(bs@.subrange(0, k as int)),
        decreases bs@.len() - k,
    {
        let b = bs[k];
        if b == 0x22 {
            out.push(0x5c);
            out.push(0x22);
        } else if b == 0x5c {
            out.push(0x5c);
            out.push(0x5c);
        } else if b < 0x20 {
            out.push(0x5c);
            out.push(0x75);
            out.push(0x30);
            out.push(0x30);
            let hi = b / 16;
            let lo = b % 16;
            out.push(if hi < 10 { (0x30 + hi) as u8 } else { (0x61 + hi - 10) as u8 });
            out.push(if lo < 10 { (0x30 + lo) as u8 } else { (0x61 + lo - 10) as u8 });
        } else {
            out.push(b);
        }
        proof {
            let pre = bs@.subrange(0, k as int);
            let pre1 = bs@.subrange(0, k as int + 1);
            assert(pre1 =~= pre + seq![bs@[k as int]]);
            lemma_esc_append(pre, seq![bs@[k as int]]);
            assert(seq![bs@[k as int]].drop_first() =~= Seq::<u8>::empty());
            assert(esc(Seq::<u8>::empty()) =~= Seq::<u8>::empty());
            assert(esc(seq![bs@[k as int]]) =~= esc1(bs@[k as int]));
            assert(out@ =~= old(out)@ + esc(pre1));
        }
        k += 1;
    }
    proof {
        assert(bs@.subrange(0, bs@.len() as int) =~= bs@);
    }
}

fn s_len(s: &[u8]) -> (r: usize)
    ensures
        r == s@.len(),
{
    s.len()
}

/// Appends the JSON string form of `s` to `out`.
pub fn put_jstr(out: &mut Vec<u8>, s: &str)
    ensures
        final(out)@ == old(out)@ + jstr(s@),
{
    out.push(0x22);
    escape_into(out, s.as_bytes());
    out.push(0x22);
    proof {
        assert(out@ =~= old(out)@ + jstr(s@));
    }
}

// ---------------------------------------------------------------------------
// Scanning primitives
// ---------------------------------------------------------------------------

/// Expects the literal `lit` at position `i`.
pub open spec fn scan_lit(s: Seq<u8>, i: int, lit: Seq<u8>) -> Option<int> {
    if 0 <= i && i + lit.len() <= s.len() && s.subrange(i, i + lit.len() as int) == lit {
        Some(i + lit.len() as int)
    } else {
        None
    }
}

/// Expects the literal at position `i`, as `scan_lit` does.
pub fn expect_lit(s: &[u8], i: usize, lit: &[u8]) -> (r: Option<usize>)
    requires
        i <= s@.len(),
    ensures
        r is Some <==> scan_lit(s@, i as int, lit@) is Some,
        r matches Some(j) ==> scan_lit(s@, i as int, lit@) == Some(j as int) && j <= s@.len(),
{
    if lit.len() > s.len() - i {
        return None;
    }
    let n: usize = s.len();
    let mut k: usize = 0;
    while k < lit.len()
        invariant
            n == s@.len(),
            i + lit@.len() <= n,
            0 <= k <= lit@.len(),
            forall|m: int| 0 <= m < k ==> s@[i + m] == lit@[m],
        decreases lit@.len() - k,
    {
        if s[i + k] != lit[k] {
            proof {
                let sub = s@.subrange(i as int, i + lit@.len() as int);
                assert(sub[k as int] == s@[i + k]);
                assert(sub != lit@);
            }
            return None;
        }
        k += 1;
    }
    proof {
        assert(s@.subrange(i as int, i + lit@.len() as int) =~= lit@);
    }
    Some(i + lit.len())
}

/// Scans the body of a JSON string from `i` (just after the opening quote)
/// up to and over the closing quote, unescaping as it goes.
pub open spec fn scan_jstr_loop(s: Seq<u8>, i: int, acc: Seq<u8>) -> Option<(Seq<u8>, int)>
    decreases s.len() - i when 0 <= i <= s.len()
{
    if i == s.len() {
        None
    } else if s[i] == quote() {
        Some((acc, i + 1))
    } else if s[i] == bslash() {
        if i + 1 >= s.len() {
            None
        } else if s[i + 1] == quote() {
            scan_jstr_loop(s, i + 2, acc.push(quote()))
        } else if s[i + 1] == bslash() {
            scan_jstr_loop(s, i + 2, acc.push(bslash()))
        } else if s[i + 1] == 0x75 {
            if i + 5 < s.len() && s[i + 2] == 0x30 && s[i + 3] == 0x30 && is_hex_digit(s[i + 4])
                && is_hex_digit(s[i + 5]) && hex_val(s[i + 4]) * 16 + hex_val(s[i + 5]) < 0x20 {
                scan_jstr_loop(s, i + 6, acc.push((hex_val(s[i + 4]) * 16 + hex_val(s[i + 5])) as u8))
            } else {
                None
            }
        } else {
            None
        }
    } else {
        scan_jstr_loop(s, i + 1, acc.push(s[i]))
    }
}

/// Scans a whole JSON string (both quotes) at position `i`; yields the
/// unescaped bytes.
pub open spec fn scan_jstr(s: Seq<u8>, i: int) -> Option<(Seq<u8>, int)> {
    if 0 <= i < s.len() && s[i] == quote() {
        scan_jstr_loop(s, i + 1, Seq::empty())
    } else {
        None
    }
}

fn parse_jstr_loop(s: &[u8], i: usize, acc: Vec<u8>) -> (r: Option<(Vec<u8>, usize)>)
    requires
        i <= s@.len(),
    ensures
        r is Some <==> scan_jstr_loop(s@, i as int, acc@) is Some,
        r matches Some((v, j)) ==> scan_jstr_loop(s@, i as int, acc@) == Some((v@, j as int))
            && j <= s@.len(),
    decreases s@.len() - i,
{
    if i == s.len() {
        return None;
    }
    let b = s[i];
    if b == 0x22 {
        return Some((acc, i + 1));
    }
    if b == 0x5c {
        if s.len() - i <= 1 {
            return None;
        }
        let e = s[i + 1];
        if e == 0x22 {
            let mut acc2 = acc;
            acc2.push(0x22);
            parse_jstr_loop(s, i + 2, acc2)
        } else if e == 0x5c {
            let mut acc2 = acc;
            acc2.push(0x5c);
            parse_jstr_loop(s, i + 2, acc2)
        } else if e == 0x75 {
            if s.len() - i > 5 {
                let h1 = s[i + 4];
                let h2 = s[i + 5];
                if s[i + 2] == 0x30 && s[i + 3] == 0x30 && hex_digit_byte(h1) && hex_digit_byte(h2)
                {
                    let v = hex_val_byte(h1) * 16 + hex_val_byte(h2);
                    if v < 0x20 {
                        let mut acc2 = acc;
                        acc2.push(v);
                        parse_jstr_loop(s, i + 6, acc2)
                    } else {
                        None
                    }
                } else {
                    None
                }
            } else {
                None
            }
        } else {
            None
        }
    } else {
        let mut acc2 = acc;
        acc2.push(b);
        parse_jstr_loop(s, i + 1, acc2)
    }
}

fn hex_digit_byte(b: u8) -> (r: bool)
    ensures
        r == is_hex_digit(b),
{
    (0x30 <= b && b <= 0x39) || (0x61 <= b && b <= 0x66) || (0x41 <= b && b <= 0x46)
}

fn hex_val_byte(b: u8) -> (r: u8)
    requires
        is_hex_digit(b),
    ensures
        r as nat == hex_val(b),
        r < 16,
{
    if 0x30 <= b && b <= 0x39 {
        b - 0x30
    } else if 0x61 <= b && b <= 0x66 {
        b - 0x61 + 10
    } else {
        b - 0x41 + 10
    }
}

/// Scans a whole JSON string as `scan_jstr` does.
pub fn parse_jstr(s: &[u8], i: usize) -> (r: Option<(Vec<u8>, usize)>)
    requires
        i <= s@.len(),
    ensures
        r is Some <==> scan_jstr(s@, i as int) is Some,
        r matches Some((v, j)) ==> scan_jstr(s@, i as int) == Some((v@, j as int)) && j <= s@.len(),
{
    if i == s.len() || s[i] != 0x22 {
        return None;
    }
    parse_jstr_loop(s, i + 1, Vec::new())
}

// ---------------------------------------------------------------------------
// The string round trip
// ---------------------------------------------------------------------------

/// Pointwise view of a subrange equality: each byte of `t` stands in `s` at
/// offset `i`.
pub proof fn lemma_subrange_index(s: Seq<u8>, i: int, t: Seq<u8>)
    requires
        0 <= i,
        i + t.len() <= s.len(),
        s.subrange(i, i + t.len() as int) == t,
    ensures
        forall|m: int| 0 <= m < t.len() ==> s[i + m] == #[trigger] t[m],
{
    assert forall|m: int| 0 <= m < t.len() implies s[i + m] == #[trigger] t[m] by {
        assert(t[m] == s.subrange(i, i + t.len() as int)[m]);
    }
}

proof fn lemma_hex_val_digit(d: nat)
    requires
        d < 16,
    ensures
        is_hex_digit(hex_digit(d)),
        hex_val(hex_digit(d)) == d,
{
}

/// Scanning over the escaped form of `raw`, up to a closing quote, recovers
/// `raw`.
pub proof fn lemma_scan_esc(s: Seq<u8>, i: int, raw: Seq<u8>, acc: Seq<u8>)
    requires
        0 <= i,
        i + esc(raw).len() < s.len(),
        s.subrange(i, i + esc(raw).len() as int) == esc(raw),
        s[i + esc(raw).len()] == quote(),
    ensures
        scan_jstr_loop(s, i, acc) == Some((acc + raw, i + esc(raw).len() + 1)),
    decreases raw.len(),
{
    if raw.len() == 0 {
        assert(acc + raw =~= acc);
        assert(s[i] == quote());
    } else {
        let b = raw[0];
        let rest = raw.drop_first();
        assert(esc(raw) == esc1(b) + esc(rest));
        let e1 = esc1(b).len() as int;
        let etot = esc(raw).len() as int;
        lemma_subrange_index(s, i, esc(raw));
        assert(forall|m: int| 0 <= m < e1 ==> s[i + m] == #[trigger] esc1(b)[m]) by {
            assert(forall|m: int| 0 <= m < e1 ==> esc(raw)[m] == #[trigger] esc1(b)[m]);
        }
        assert(s.subrange(i + e1, i + e1 + esc(rest).len() as int) =~= esc(rest)) by {
            assert(forall|m: int| 0 <= m < esc(rest).len() ==> s[i + e1 + m] == #[trigger] esc(
                rest,
            )[m]) by {
                assert(forall|m: int| 0 <= m < esc(rest).len() ==> esc(raw)[e1 + m]
                    == #[trigger] esc(rest)[m]);
            }
        }
        if b == quote() {
            assert(esc1(b)[0] == bslash() && esc1(b)[1] == quote());
            assert(s[i] == bslash() && s[i + 1] == quote());
            lemma_scan_esc(s, i + 2, rest, acc.push(b));
            assert(acc.push(b) + rest =~= acc + raw);
        } else if b == bslash() {
            assert(esc1(b)[0] == bslash() && esc1(b)[1] == bslash());
            assert(s[i] == bslash() && s[i + 1] == bslash());
            lemma_scan_esc(s, i + 2, rest, acc.push(b));
            assert(acc.push(b) + rest =~= acc + raw);
        } else if b < 0x20 {
            assert(esc1(b)[0] == bslash() && esc1(b)[1] == 0x75 && esc1(b)[2] == 0x30 && esc1(
                b,
            )[3] == 0x30 && esc1(b)[4] == hex_digit((b / 16) as nat) && esc1(b)[5] == hex_digit(
                (b % 16) as nat,
            ));
            assert(s[i] == bslash() && s[i + 1] == 0x75 && s[i + 2] == 0x30 && s[i + 3] == 0x30);
            assert(s[i + 4] == hex_digit((b / 16) as nat) && s[i + 5] == hex_digit(
                (b % 16) as nat,
            ));
            lemma_hex_val_digit((b / 16) as nat);
            lemma_hex_val_digit((b % 16) as nat);
            assert(hex_val(s[i + 4]) * 16 + hex_val(s[i + 5]) == b);
            lemma_scan_esc(s, i + 6, rest, acc.push(b));
            assert(acc.push(b) + rest =~= acc + raw);
        } else {
            assert(esc1(b)[0] == b);
            assert(s[i] == b);
            lemma_scan_esc(s, i + 1, rest, acc.push(b));
            assert(acc.push(b) + rest =~= acc + raw);
        }
    }
}

/// Scanning the JSON string form of `cs` recovers its UTF-8 bytes.
pub proof fn lemma_scan_jstr_of(s: Seq<u8>, i: int, cs: Seq<char>)
    requires
        0 <= i,
        i + jstr(cs).len() <= s.len(),
        s.subrange(i, i + jstr(cs).len() as int) == jstr(cs),
    ensures
        scan_jstr(s, i) == Some((encode_utf8(cs), i + jstr(cs).len() as int)),
{
    let eb = esc(encode_utf8(cs));
    let jl = jstr(cs).len() as int;
    lemma_subrange_index(s, i, jstr(cs));
    assert(jstr(cs)[0] == quote());
    assert(s[i] == quote());
    assert(forall|m: int| 0 <= m < eb.len() ==> s[i + 1 + m] == #[trigger] eb[m]) by {
        assert(forall|m: int| 0 <= m < eb.len() ==> jstr(cs)[1 + m] == #[trigger] eb[m]);
    }
    assert(s.subrange(i + 1, i + 1 + eb.len() as int) =~= eb);
    assert(jstr(cs)[1 + eb.len() as int] == quote());
    assert(s[i + 1 + eb.len() as int] == quote());
    lemma_scan_esc(s, i + 1, encode_utf8(cs), Seq::empty());
    assert(Seq::empty() + encode_utf8(cs) =~= encode_utf8(cs));
}


// ---------------------------------------------------------------------------
// Field values
// ---------------------------------------------------------------------------

/// Scans a JSON string value and decodes its bytes as UTF-8.
pub open spec fn scan_string_value(s: Seq<u8>, i: int) -> Option<(Seq<char>, int)> {
    match scan_jstr(s, i) {
        Some((raw, j)) => if valid_utf8(raw) {
            Some((decode_utf8(raw), j))
        } else {
            None
        },
        None => None,
    }
}

/// Scans a JSON string value as `scan_string_value` does.
pub fn parse_string_value(s: &[u8], i: usize) -> (r: Option<(String, usize)>)
    requires
        i <= s@.len(),
    ensures
        r is Some <==> scan_string_value(s@, i as int) is Some,
        r matches Some((v, j)) ==> scan_string_value(s@, i as int) == Some((v@, j as int))
            && j <= s@.len(),
{
    match parse_jstr(s, i) {
        Some((raw, j)) => match crate::text::try_string_from_bytes(raw) {
            Some(st) => Some((st, j)),
            None => None,
        },
        None => None,
    }
}

/// Scanning the JSON string form of `cs` yields `cs` itself.
pub proof fn lemma_scan_string_value_of(s: Seq<u8>, i: int, cs: Seq<char>)
    requires
        0 <= i,
        i + jstr(cs).len() <= s.len(),
        s.subrange(i, i + jstr(cs).len() as int) == jstr(cs),
    ensures
        scan_string_value(s, i) == Some((cs, i + jstr(cs).len() as int)),
{
    lemma_scan_jstr_of(s, i, cs);
    encode_utf8_valid_utf8(cs);
    encode_utf8_decode_utf8(cs);
}

/// The JSON form of a boolean.
pub open spec fn bool_text(b: bool) -> Seq<u8> {
    if b {
        LIT_TRUE@
    } else {
        LIT_FALSE@
    }
}

pub open spec fn scan_bool(s: Seq<u8>, i: int) -> Option<(bool, int)> {
    if 0 <= i < s.len() && s[i] == 0x74 {
        match scan_lit(s, i, LIT_TRUE@) {
            Some(j) => Some((true, j)),
            None => None,
        }
    } else {
        match scan_lit(s, i, LIT_FALSE@) {
            Some(j) => Some((false, j)),
            None => None,
        }
    }
}

pub fn parse_bool(s: &[u8], i: usize) -> (r: Option<(bool, usize)>)
    requires
        i <= s@.len(),
    ensures
        r is Some <==> scan_bool(s@, i as int) is Some,
        r matches Some((v, j)) ==> scan_bool(s@, i as int) == Some((v, j as int)) && j <= s@.len(),
{
    if i < s.len() && s[i] == 0x74 {
        match expect_lit(s, i, LIT_TRUE.as_slice()) {
            Some(j) => Some((true, j)),
            None => None,
        }
    } else {
        match expect_lit(s, i, LIT_FALSE.as_slice()) {
            Some(j) => Some((false, j)),
            None => None,
        }
    }
}

pub proof fn lemma_scan_bool_of(s: Seq<u8>, i: int, b: bool)
    requires
        0 <= i,
        i + bool_text(b).len() <= s.len(),
        s.subrange(i, i + bool_text(b).len() as int) == bool_text(b),
    ensures
        scan_bool(s, i) == Some((b, i + bool_text(b).len() as int)),
{
    lemma_subrange_index(s, i, bool_text(b));
    if b {
        assert(bool_text(b)[0] == 0x74);
        assert(s[i] == 0x74);
    } else {
        assert(bool_text(b)[0] == 0x66);
        assert(s[i] == 0x66);
    }
}

/// The JSON form of an optional string: the string, or `null`.
pub open spec fn opt_str_text(o: Option<Seq<char>>) -> Seq<u8> {
    match o {
        Some(cs) => jstr(cs),
        None => LIT_NULL@,
    }
}

pub open spec fn scan_opt_string(s: Seq<u8>, i: int) -> Option<(Option<Seq<char>>, int)> {
    if 0 <= i < s.len() && s[i] == quote() {
        match scan_string_value(s, i) {
            Some((cs, j)) => Some((Some(cs), j)),
            None => None,
        }
    } else {
        match scan_lit(s, i, LIT_NULL@) {
            Some(j) => Some((None, j)),
            None => None,
        }
    }
}

pub fn parse_opt_string(s: &[u8], i: usize) -> (r: Option<(Option<String>, usize)>)
    requires
        i <= s@.len(),
    ensures
        r is Some <==> scan_opt_string(s@, i as int) is Some,
        r matches Some((v, j)) ==> scan_opt_string(s@, i as int) == Some(
            (crate::protocol::opt_str_view(v), j as int),
        ) && j <= s@.len(),
{
    if i < s.len() && s[i] == 0x22 {
        match parse_string_value(s, i) {
            Some((v, j)) => Some((Some(v), j)),
            None => None,
        }
    } else {
        match expect_lit(s, i, LIT_NULL.as_slice()) {
            Some(j) => Some((None, j)),
            None => None,
        }
    }
}

pub proof fn lemma_scan_opt_string_of(s: Seq<u8>, i: int, o: Option<Seq<char>>)
    requires
        0 <= i,
        i + opt_str_text(o).len() <= s.len(),
        s.subrange(i, i + opt_str_text(o).len() as int) == opt_str_text(o),
    ensures
        scan_opt_string(s, i) == Some((o, i + opt_str_text(o).len() as int)),
{
    lemma_subrange_index(s, i, opt_str_text(o));
    match o {
        Some(cs) => {
            assert(opt_str_text(o)[0] == quote());
            assert(s[i] == quote());
            lemma_scan_string_value_of(s, i, cs);
        },
        None => {
            assert(opt_str_text(o)[0] == 0x6e);
            assert(s[i] == 0x6e);
        },
    }
}

/// The JSON form of a signed 32-bit number.
pub open spec fn i32_text(n: int) -> Seq<u8> {
    if n < 0 {
        seq![0x2du8] + dec_of((-n) as nat)
    } else {
        dec_of(n as nat)
    }
}

pub open spec fn scan_i32(s: Seq<u8>, i: int) -> Option<(int, int)> {
    if 0 <= i < s.len() && s[i] == 0x2d {
        match scan_dec(s, i + 1, 0x8000_0000) {
            Some((v, j)) => Some((-(v as int), j)),
            None => None,
        }
    } else {
        match scan_dec(s, i, 0x7fff_ffff) {
            Some((v, j)) => Some((v as int, j)),
            None => None,
        }
    }
}

pub fn parse_i32(s: &[u8], i: usize) -> (r: Option<(i32, usize)>)
    requires
        i <= s@.len(),
    ensures
        r is Some <==> scan_i32(s@, i as int) is Some,
        r matches Some((v, j)) ==> scan_i32(s@, i as int) == Some((v as int, j as int))
            && j <= s@.len(),
{
    if i < s.len() && s[i] == 0x2d {
        match parse_dec(s, i + 1, 0x8000_0000) {
            Some((v, j)) => {
                let w: i64 = -(v as i64);
                Some((w as i32, j))
            },
            None => None,
        }
    } else {
        match parse_dec(s, i, 0x7fff_ffff) {
            Some((v, j)) => Some((v as i32, j)),
            None => None,
        }
    }
}

pub proof fn lemma_scan_i32_of(s: Seq<u8>, i: int, n: int)
    requires
        0 <= i,
        -0x8000_0000 <= n <= 0x7fff_ffff,
        i + i32_text(n).len() <= s.len(),
        s.subrange(i, i + i32_text(n).len() as int) == i32_text(n),
        i + i32_text(n).len() == s.len() || !is_digit(s[i + i32_text(n).len()]),
    ensures
        scan_i32(s, i) == Some((n, i + i32_text(n).len() as int)),
{
    lemma_subrange_index(s, i, i32_text(n));
    if n < 0 {
        assert(i32_text(n)[0] == 0x2d);
        assert(s[i] == 0x2d);
        let m = (-n) as nat;
        assert(s.subrange(i + 1, i + 1 + dec_of(m).len() as int) =~= dec_of(m)) by {
            assert(forall|k: int| 0 <= k < dec_of(m).len() ==> s[i + 1 + k] == #[trigger] dec_of(
                m,
            )[k]) by {
                assert(forall|k: int| 0 <= k < dec_of(m).len() ==> i32_text(n)[1 + k]
                    == #[trigger] dec_of(m)[k]);
            }
        }
        lemma_scan_dec_of(s, i + 1, m, 0x8000_0000);
    } else {
        crate::text::lemma_dec_of_digits(n as nat);
        assert(is_digit(i32_text(n)[0]));
        assert(is_digit(s[i]));
        assert(s[i] != 0x2d);
        assert(s.subrange(i, i + dec_of(n as nat).len() as int) =~= dec_of(n as nat));
        lemma_scan_dec_of(s, i, n as nat, 0x7fff_ffff);
    }
}

/// The JSON form of an optional exit code: the number, or `null`.
pub open spec fn opt_i32_text(o: Option<i32>) -> Seq<u8> {
    match o {
        Some(n) => i32_text(n as int),
        None => LIT_NULL@,
    }
}

pub open spec fn scan_opt_i32(s: Seq<u8>, i: int) -> Option<(Option<i32>, int)> {
    if 0 <= i < s.len() && (s[i] == 0x2d || is_digit(s[i])) {
        match scan_i32(s, i) {
            Some((v, j)) => Some((Some(v as i32), j)),
            None => None,
        }
    } else {
        match scan_lit(s, i, LIT_NULL@) {
            Some(j) => Some((None, j)),
            None => None,
        }
    }
}

pub fn parse_opt_i32(s: &[u8], i: usize) -> (r: Option<(Option<i32>, usize)>)
    requires
        i <= s@.len(),
    ensures
        r is Some <==> scan_opt_i32(s@, i as int) is Some,
        r matches Some((v, j)) ==> scan_opt_i32(s@, i as int) == Some((v, j as int))
            && j <= s@.len(),
{
    if i < s.len() && (s[i] == 0x2d || (0x30 <= s[i] && s[i] <= 0x39)) {
        match parse_i32(s, i) {
            Some((v, j)) => Some((Some(v), j)),
            None => None,
        }
    } else {
        match expect_lit(s, i, LIT_NULL.as_slice()) {
            Some(j) => Some((None, j)),
            None => None,
        }
    }
}

pub proof fn lemma_scan_opt_i32_of(s: Seq<u8>, i: int, o: Option<i32>)
    requires
        0 <= i,
        i + opt_i32_text(o).len() <= s.len(),
        s.subrange(i, i + opt_i32_text(o).len() as int) == opt_i32_text(o),
        i + opt_i32_text(o).len() == s.len() || !is_digit(s[i + opt_i32_text(o).len()]),
    ensures
        scan_opt_i32(s, i) == Some((o, i + opt_i32_text(o).len() as int)),
{
    lemma_subrange_index(s, i, opt_i32_text(o));
    match o {
        Some(n) => {
            if n < 0 {
                assert(opt_i32_text(o)[0] == 0x2d);
                assert(s[i] == 0x2d);
            } else {
                crate::text::lemma_dec_of_digits(n as nat);
                assert(is_digit(opt_i32_text(o)[0]));
                assert(is_digit(s[i]));
            }
            lemma_scan_i32_of(s, i, n as int);
        },
        None => {
            assert(opt_i32_text(o)[0] == 0x6e);
            assert(s[i] == 0x6e);
        },
    }
}

// ---------------------------------------------------------------------------
// Field writers
// ---------------------------------------------------------------------------

/// Appends the decimal form of `n` to `out`.
pub fn put_u64(out: &mut Vec<u8>, n: u64)
    ensures
        final(out)@ == old(out)@ + dec_of(n as nat),
{
    let mut d = u64_to_dec(n);
    out.append(&mut d);
}

/// Appends the JSON form of a boolean to `out`.
pub fn put_bool(out: &mut Vec<u8>, b: bool)
    ensures
        final(out)@ == old(out)@ + bool_text(b),
{
    if b {
        put_bytes(out, LIT_TRUE.as_slice());
    } else {
        put_bytes(out, LIT_FALSE.as_slice());
    }
}

/// Appends the JSON form of an optional string to `out`.
pub fn put_opt_str(out: &mut Vec<u8>, o: &Option<String>)
    ensures
        final(out)@ == old(out)@ + opt_str_text(crate::protocol::opt_str_view(*o)),
{
    match o {
        Some(s) => put_jstr(out, s.as_str()),
        None => put_bytes(out, LIT_NULL.as_slice()),
    }
}

/// Appends the JSON form of a signed number to `out`.
pub fn put_i32(out: &mut Vec<u8>, n: i32)
    ensures
        final(out)@ == old(out)@ + i32_text(n as int),
{
    if n < 0 {
        out.push(0x2d);
        let m: i64 = -(n as i64);
        let mut d = u64_to_dec(m as u64);
        out.append(&mut d);
        proof {
            assert(final(out)@ =~= old(out)@ + i32_text(n as int));
        }
    } else {
        let mut d = u64_to_dec(n as u64);
        out.append(&mut d);
    }
}

/// Appends the JSON form of an optional exit code to `out`.
pub fn put_opt_i32(out: &mut Vec<u8>, o: &Option<i32>)
    ensures
        final(out)@ == old(out)@ + opt_i32_text(*o),
{
    match o {
        Some(n) => put_i32(out, *n),
        None => put_bytes(out, LIT_NULL.as_slice()),
    }
}

// ---------------------------------------------------------------------------
// Whole messages
// ---------------------------------------------------------------------------

/// The canonical wire bytes of a message.
pub open spec fn json_of(p: PayloadView) -> Seq<u8> {
    match p {
        PayloadView::InitRequest { agent_id, ip, remote_host, country_code, city, region, asn, asn_org, os_type, os_version, hostname, kernel_version, username } => OBJ_PREFIX@ + TAG_INIT_REQUEST@ + seq![quote()] + K_AGENT_ID@ + jstr(agent_id) + K_IP@ + jstr(ip) + K_REMOTE_HOST@ + jstr(remote_host) + K_COUNTRY_CODE@ + jstr(country_code) + K_CITY@ + jstr(city) + K_REGION@ + jstr(region) + K_ASN@ + jstr(asn) + K_ASN_ORG@ + jstr(asn_org) + K_OS_TYPE@ + jstr(os_type) + K_OS_VERSION@ + jstr(os_version) + K_HOSTNAME@ + jstr(hostname) + K_KERNEL_VERSION@ + jstr(kernel_version) + K_USERNAME@ + jstr(username) + seq![rbrace()],
        PayloadView::InitResponse { success, message } => OBJ_PREFIX@ + TAG_INIT_RESPONSE@ + seq![quote()] + K_SUCCESS@ + bool_text(success) + K_MESSAGE@ + opt_str_text(message) + seq![rbrace()],
        PayloadView::InitError { error_message } => OBJ_PREFIX@ + TAG_INIT_ERROR@ + seq![quote()] + K_ERROR_MESSAGE@ + jstr(error_message) + seq![rbrace()],
        PayloadView::ConnectRequest { request_id, target_addr, target_port, agent_id, address_type } => OBJ_PREFIX@ + TAG_CONNECT_REQUEST@ + seq![quote()] + K_REQUEST_ID@ + jstr(request_id) + K_TARGET_ADDR@ + jstr(target_addr) + K_TARGET_PORT@ + dec_of(target_port as nat) + K_AGENT_ID@ + opt_str_text(agent_id) + K_ADDRESS_TYPE@ + dec_of(address_type as nat) + seq![rbrace()],
        PayloadView::ConnectResponse { request_id, success } => OBJ_PREFIX@ + TAG_CONNECT_RESPONSE@ + seq![quote()] + K_REQUEST_ID@ + jstr(request_id) + K_SUCCESS@ + bool_text(success) + seq![rbrace()],
        PayloadView::DataRequestChunk { request_id, chunk_id, data } => OBJ_PREFIX@ + TAG_DATA_REQUEST_CHUNK@ + seq![quote()] + K_REQUEST_ID@ + jstr(request_id) + K_CHUNK_ID@ + dec_of(chunk_id as nat) + K_DATA@ + jstr(data) + seq![rbrace()],
        PayloadView::DataResponseChunk { request_id, chunk_id, data } => OBJ_PREFIX@ + TAG_DATA_RESPONSE_CHUNK@ + seq![quote()] + K_REQUEST_ID@ + jstr(request_id) + K_CHUNK_ID@ + dec_of(chunk_id as nat) + K_DATA@ + jstr(data) + seq![rbrace()],
        PayloadView::DataResponseTransferComplete { request_id, success, error_message } => OBJ_PREFIX@ + TAG_DATA_RESPONSE_COMPLETE@ + seq![quote()] + K_REQUEST_ID@ + jstr(request_id) + K_SUCCESS@ + bool_text(success) + K_ERROR_MESSAGE@ + opt_str_text(error_message) + seq![rbrace()],
        PayloadView::DataRequestTransferComplete { request_id, success, error_message } => OBJ_PREFIX@ + TAG_DATA_REQUEST_COMPLETE@ + seq![quote()] + K_REQUEST_ID@ + jstr(request_id) + K_SUCCESS@ + bool_text(success) + K_ERROR_MESSAGE@ + opt_str_text(error_message) + seq![rbrace()],
        PayloadView::ClientDisconnect { request_id } => OBJ_PREFIX@ + TAG_CLIENT_DISCONNECT@ + seq![quote()] + K_REQUEST_ID@ + jstr(request_id) + seq![rbrace()],
        PayloadView::CommandRequest { request_id, command } => OBJ_PREFIX@ + TAG_COMMAND_REQUEST@ + seq![quote()] + K_REQUEST_ID@ + jstr(request_id) + K_COMMAND@ + jstr(command) + seq![rbrace()],
        PayloadView::CommandResponseChunk { request_id, chunk_id, stream_type, data } => OBJ_PREFIX@ + TAG_COMMAND_RESPONSE_CHUNK@ + seq![quote()] + K_REQUEST_ID@ + jstr(request_id) + K_CHUNK_ID@ + dec_of(chunk_id as nat) + K_STREAM_TYPE@ + dec_of(stream_type as nat) + K_DATA@ + jstr(data) + seq![rbrace()],
        PayloadView::CommandResponseTransferComplete { request_id, success, exit_code, error_message } => OBJ_PREFIX@ + TAG_COMMAND_RESPONSE_COMPLETE@ + seq![quote()] + K_REQUEST_ID@ + jstr(request_id) + K_SUCCESS@ + bool_text(success) + K_EXIT_CODE@ + opt_i32_text(exit_code) + K_ERROR_MESSAGE@ + opt_str_text(error_message) + seq![rbrace()],
    }
}

/// Encodes a message into its canonical wire bytes.
#[verifier::rlimit(100)]
pub fn encode_payload(p: &Payload) -> (r: Vec<u8>)
    ensures
        r@ == json_of(p@),
{
    let mut out: Vec<u8> = Vec::new();
    put_bytes(&mut out, OBJ_PREFIX.as_slice());
    match p {
        Payload::InitRequest { agent_id, ip, remote_host, country_code, city, region, asn, asn_org, os_type, os_version, hostname, kernel_version, username } => {
            put_bytes(&mut out, TAG_INIT_REQUEST.as_slice());
            out.push(0x22);
            put_bytes(&mut out, K_AGENT_ID.as_slice());
            put_jstr(&mut out, agent_id.as_str());
            put_bytes(&mut out, K_IP.as_slice());
            put_jstr(&mut out, ip.as_str());
            put_bytes(&mut out, K_REMOTE_HOST.as_slice());
            put_jstr(&mut out, remote_host.as_str());
            put_bytes(&mut out, K_COUNTRY_CODE.as_slice());
            put_jstr(&mut out, country_code.as_str());
            put_bytes(&mut out, K_CITY.as_slice());
            put_jstr(&mut out, city.as_str());
            put_bytes(&mut out, K_REGION.as_slice());
            put_jstr(&mut out, region.as_str());
            put_bytes(&mut out, K_ASN.as_slice());
            put_jstr(&mut out, asn.as_str());
            put_bytes(&mut out, K_ASN_ORG.as_slice());
            put_jstr(&mut out, asn_org.as_str());
            put_bytes(&mut out, K_OS_TYPE.as_slice());
            put_jstr(&mut out, os_type.as_str());
            put_bytes(&mut out, K_OS_VERSION.as_slice());
            put_jstr(&mut out, os_version.as_str());
            put_bytes(&mut out, K_HOSTNAME.as_slice());
            put_jstr(&mut out, hostname.as_str());
            put_bytes(&mut out, K_KERNEL_VERSION.as_slice());
            put_jstr(&mut out, kernel_version.as_str());
            put_bytes(&mut out, K_USERNAME.as_slice());
            put_jstr(&mut out, username.as_str());
            out.push(0x7d);
            proof {
                assert(out@ =~= json_of(p@));
            }
            out
        },
        Payload::InitResponse { success, message } => {
            put_bytes(&mut out, TAG_INIT_RESPONSE.as_slice());
            out.push(0x22);
            put_bytes(&mut out, K_SUCCESS.as_slice());
            put_bool(&mut out, *success);
            put_bytes(&mut out, K_MESSAGE.as_slice());
            put_opt_str(&mut out, message);
            out.push(0x7d);
            proof {
                assert(out@ =~= json_of(p@));
            }
            out
        },
        Payload::InitError { error_message } => {
            put_bytes(&mut out, TAG_INIT_ERROR.as_slice());
            out.push(0x22);
            put_bytes(&mut out, K_ERROR_MESSAGE.as_slice());
            put_jstr(&mut out, error_message.as_str());
            out.push(0x7d);
            proof {
                assert(out@ =~= json_of(p@));
            }
            out
        },
        Payload::ConnectRequest { request_id, target_addr, target_port, agent_id, address_type } => {
            put_bytes(&mut out, TAG_CONNECT_REQUEST.as_slice());
            out.push(0x22);
            put_bytes(&mut out, K_REQUEST_ID.as_slice());
            put_jstr(&mut out, request_id.as_str());
            put_bytes(&mut out, K_TARGET_ADDR.as_slice());
            put_jstr(&mut out, target_addr.as_str());
            put_bytes(&mut out, K_TARGET_PORT.as_slice());
            put_u64(&mut out, *target_port as u64);
            put_bytes(&mut out, K_AGENT_ID.as_slice());
            put_opt_str(&mut out, agent_id);
            put_bytes(&mut out, K_ADDRESS_TYPE.as_slice());
            put_u64(&mut out, *address_type as u64);
            out.push(0x7d);
            proof {
                assert(out@ =~= json_of(p@));
            }
            out
        },
        Payload::ConnectResponse { request_id, success } => {
            put_bytes(&mut out, TAG_CONNECT_RESPONSE.as_slice());
            out.push(0x22);
            put_bytes(&mut out, K_REQUEST_ID.as_slice());
            put_jstr(&mut out, request_id.as_str());
            put_bytes(&mut out, K_SUCCESS.as_slice());
            put_bool(&mut out, *success);
            out.push(0x7d);
            proof {
                assert(out@ =~= json_of(p@));
            }
            out
        },
        Payload::DataRequestChunk { request_id, chunk_id, data } => {
            put_bytes(&mut out, TAG_DATA_REQUEST_CHUNK.as_slice());
            out.push(0x22);
            put_bytes(&mut out, K_REQUEST_ID.as_slice());
            put_jstr(&mut out, request_id.as_str());
            put_bytes(&mut out, K_CHUNK_ID.as_slice());
            put_u64(&mut out, *chunk_id as u64);
            put_bytes(&mut out, K_DATA.as_slice());
            put_jstr(&mut out, data.as_str());
            out.push(0x7d);
            proof {
                assert(out@ =~= json_of(p@));
            }
            out
        },
        Payload::DataResponseChunk { request_id, chunk_id, data } => {
            put_bytes(&mut out, TAG_DATA_RESPONSE_CHUNK.as_slice());
            out.push(0x22);
            put_bytes(&mut out, K_REQUEST_ID.as_slice());
            put_jstr(&mut out, request_id.as_str());
            put_bytes(&mut out, K_CHUNK_ID.as_slice());
            put_u64(&mut out, *chunk_id as u64);
            put_bytes(&mut out, K_DATA.as_slice());
            put_jstr(&mut out, data.as_str());
            out.push(0x7d);
            proof {
                assert(out@ =~= json_of(p@));
            }
            out
        },
        Payload::DataResponseTransferComplete { request_id, success, error_message } => {
            put_bytes(&mut out, TAG_DATA_RESPONSE_COMPLETE.as_slice());
            out.push(0x22);
            put_bytes(&mut out, K_REQUEST_ID.as_slice());
            put_jstr(&mut out, request_id.as_str());
            put_bytes(&mut out, K_SUCCESS.as_slice());
            put_bool(&mut out, *success);
            put_bytes(&mut out, K_ERROR_MESSAGE.as_slice());
            put_opt_str(&mut out, error_message);
            out.push(0x7d);
            proof {
                assert(out@ =~= json_of(p@));
            }
            out
        },
        Payload::DataRequestTransferComplete { request_id, success, error_message } => {
            put_bytes(&mut out, TAG_DATA_REQUEST_COMPLETE.as_slice());
            out.push(0x22);
            put_bytes(&mut out, K_REQUEST_ID.as_slice());
            put_jstr(&mut out, request_id.as_str());
            put_bytes(&mut out, K_SUCCESS.as_slice());
            put_bool(&mut out, *success);
            put_bytes(&mut out, K_ERROR_MESSAGE.as_slice());
            put_opt_str(&mut out, error_message);
            out.push(0x7d);
            proof {
                assert(out@ =~= json_of(p@));
            }
            out
        },
        Payload::ClientDisconnect { request_id } => {
            put_bytes(&mut out, TAG_CLIENT_DISCONNECT.as_slice());
            out.push(0x22);
            put_bytes(&mut out, K_REQUEST_ID.as_slice());
            put_jstr(&mut out, request_id.as_str());
            out.push(0x7d);
            proof {
                assert(out@ =~= json_of(p@));
            }
            out
        },
        Payload::CommandRequest { request_id, command } => {
            put_bytes(&mut out, TAG_COMMAND_REQUEST.as_slice());
            out.push(0x22);
            put_bytes(&mut out, K_REQUEST_ID.as_slice());
            put_jstr(&mut out, request_id.as_str());
            put_bytes(&mut out, K_COMMAND.as_slice());
            put_jstr(&mut out, command.as_str());
            out.push(0x7d);
            proof {
                assert(out@ =~= json_of(p@));
            }
            out
        },
        Payload::CommandResponseChunk { request_id, chunk_id, stream_type, data } => {
            put_bytes(&mut out, TAG_COMMAND_RESPONSE_CHUNK.as_slice());
            out.push(0x22);
            put_bytes(&mut out, K_REQUEST_ID.as_slice());
            put_jstr(&mut out, request_id.as_str());
            put_bytes(&mut out, K_CHUNK_ID.as_slice());
            put_u64(&mut out, *chunk_id as u64);
            put_bytes(&mut out, K_STREAM_TYPE.as_slice());
            put_u64(&mut out, *stream_type as u64);
            put_bytes(&mut out, K_DATA.as_slice());
            put_jstr(&mut out, data.as_str());
            out.push(0x7d);
            proof {
                assert(out@ =~= json_of(p@));
            }
            out
        },
        Payload::CommandResponseTransferComplete { request_id, success, exit_code, error_message } => {
            put_bytes(&mut out, TAG_COMMAND_RESPONSE_COMPLETE.as_slice());
            out.push(0x22);
            put_bytes(&mut out, K_REQUEST_ID.as_slice());
            put_jstr(&mut out, request_id.as_str());
            put_bytes(&mut out, K_SUCCESS.as_slice());
            put_bool(&mut out, *success);
            put_bytes(&mut out, K_EXIT_CODE.as_slice());
            put_opt_i32(&mut out, exit_code);
            put_bytes(&mut out, K_ERROR_MESSAGE.as_slice());
            put_opt_str(&mut out, error_message);
            out.push(0x7d);
            proof {
                assert(out@ =~= json_of(p@));
            }
            out
        },
    }
}

pub open spec fn dec_init_request(s: Seq<u8>, i: int) -> Option<PayloadView> {
    match scan_lit(s, i, K_AGENT_ID@) {
    None => None,
    Some(i1b) => match scan_string_value(s, i1b) {
        None => None,
        Some((agent_id, i2)) => match scan_lit(s, i2, K_IP@) {
    None => None,
    Some(i2b) => match scan_string_value(s, i2b) {
        None => None,
        Some((ip, i3)) => match scan_lit(s, i3, K_REMOTE_HOST@) {
    None => None,
    Some(i3b) => match scan_string_value(s, i3b) {
        None => None,
        Some((remote_host, i4)) => match scan_lit(s, i4, K_COUNTRY_CODE@) {
    None => None,
    Some(i4b) => match scan_string_value(s, i4b) {
        None => None,
        Some((country_code, i5)) => match scan_lit(s, i5, K_CITY@) {
    None => None,
    Some(i5b) => match scan_string_value(s, i5b) {
        None => None,
        Some((city, i6)) => match scan_lit(s, i6, K_REGION@) {
    None => None,
    Some(i6b) => match scan_string_value(s, i6b) {
        None => None,
        Some((region, i7)) => match scan_lit(s, i7, K_ASN@) {
    None => None,
    Some(i7b) => match scan_string_value(s, i7b) {
        None => None,
        Some((asn, i8)) => match scan_lit(s, i8, K_ASN_ORG@) {
    None => None,
    Some(i8b) => match scan_string_value(s, i8b) {
        None => None,
        Some((asn_org, i9)) => match scan_lit(s, i9, K_OS_TYPE@) {
    None => None,
    Some(i9b) => match scan_string_value(s, i9b) {
        None => None,
        Some((os_type, i10)) => match scan_lit(s, i10, K_OS_VERSION@) {
    None => None,
    Some(i10b) => match scan_string_value(s, i10b) {
        None => None,
        Some((os_version, i11)) => match scan_lit(s, i11, K_HOSTNAME@) {
    None => None,
    Some(i11b) => match scan_string_value(s, i11b) {
        None => None,
        Some((hostname, i12)) => match scan_lit(s, i12, K_KERNEL_VERSION@) {
    None => None,
    Some(i12b) => match scan_string_value(s, i12b) {
        None => None,
        Some((kernel_version, i13)) => match scan_lit(s, i13, K_USERNAME@) {
    None => None,
    Some(i13b) => match scan_string_value(s, i13b) {
        None => None,
        Some((username, e)) => if e + 1 == s.len() && s[e] == rbrace() {
        Some(PayloadView::InitRequest { agent_id: agent_id, ip: ip, remote_host: remote_host, country_code: country_code, city: city, region: region, asn: asn, asn_org: asn_org, os_type: os_type, os_version: os_version, hostname: hostname, kernel_version: kernel_version, username: username })
    } else {
        None
    },
    },
},
    },
},
    },
},
    },
},
    },
},
    },
},
    },
},
    },
},
    },
},
    },
},
    },
},
    },
},
    },
}
}

pub open spec fn dec_init_response(s: Seq<u8>, i: int) -> Option<PayloadView> {
    match scan_lit(s, i, K_SUCCESS@) {
    None => None,
    Some(i1b) => match scan_bool(s, i1b) {
        None => None,
        Some((success, i2)) => match scan_lit(s, i2, K_MESSAGE@) {
    None => None,
    Some(i2b) => match scan_opt_string(s, i2b) {
        None => None,
        Some((message, e)) => if e + 1 == s.len() && s[e] == rbrace() {
        Some(PayloadView::InitResponse { success: success, message: message })
    } else {
        None
    },
    },
},
    },
}
}

pub open spec fn dec_init_error(s: Seq<u8>, i: int) -> Option<PayloadView> {
    match scan_lit(s, i, K_ERROR_MESSAGE@) {
    None => None,
    Some(i1b) => match scan_string_value(s, i1b) {
        None => None,
        Some((error_message, e)) => if e + 1 == s.len() && s[e] == rbrace() {
        Some(PayloadView::InitError { error_message: error_message })
    } else {
        None
    },
    },
}
}

pub open spec fn dec_connect_request(s: Seq<u8>, i: int) -> Option<PayloadView> {
    match scan_lit(s, i, K_REQUEST_ID@) {
    None => None,
    Some(i1b) => match scan_string_value(s, i1b) {
        None => None,
        Some((request_id, i2)) => match scan_lit(s, i2, K_TARGET_ADDR@) {
    None => None,
    Some(i2b) => match scan_string_value(s, i2b) {
        None => None,
        Some((target_addr, i3)) => match scan_lit(s, i3, K_TARGET_PORT@) {
    None => None,
    Some(i3b) => match scan_dec(s, i3b, 0xffff) {
        None => None,
        Some((target_port, i4)) => match scan_lit(s, i4, K_AGENT_ID@) {
    None => None,
    Some(i4b) => match scan_opt_string(s, i4b) {
        None => None,
        Some((agent_id, i5)) => match scan_lit(s, i5, K_ADDRESS_TYPE@) {
    None => None,
    Some(i5b) => match scan_dec(s, i5b, 0xff) {
        None => None,
        Some((address_type, e)) => if e + 1 == s.len() && s[e] == rbrace() {
        Some(PayloadView::ConnectRequest { request_id: request_id, target_addr: target_addr, target_port: target_port as u16, agent_id: agent_id, address_type: address_type as u8 })
    } else {
        None
    },
    },
},
    },
},
    },
},
    },
},
    },
}
}

pub open spec fn dec_connect_response(s: Seq<u8>, i: int) -> Option<PayloadView> {
    match scan_lit(s, i, K_REQUEST_ID@) {
    None => None,
    Some(i1b) => match scan_string_value(s, i1b) {
        None => None,
        Some((request_id, i2)) => match scan_lit(s, i2, K_SUCCESS@) {
    None => None,
    Some(i2b) => match scan_bool(s, i2b) {
        None => None,
        Some((success, e)) => if e + 1 == s.len() && s[e] == rbrace() {
        Some(PayloadView::ConnectResponse { request_id: request_id, success: success })
    } else {
        None
    },
    },
},
    },
}
}

pub open spec fn dec_data_request_chunk(s: Seq<u8>, i: int) -> Option<PayloadView> {
    match scan_lit(s, i, K_REQUEST_ID@) {
    None => None,
    Some(i1b) => match scan_string_value(s, i1b) {
        None => None,
        Some((request_id, i2)) => match scan_lit(s, i2, K_CHUNK_ID@) {
    None => None,
    Some(i2b) => match scan_dec(s, i2b, 0xffff_ffff) {
        None => None,
        Some((chunk_id, i3)) => match scan_lit(s, i3, K_DATA@) {
    None => None,
    Some(i3b) => match scan_string_value(s, i3b) {
        None => None,
        Some((data, e)) => if e + 1 == s.len() && s[e] == rbrace() {
        Some(PayloadView::DataRequestChunk { request_id: request_id, chunk_id: chunk_id as u32, data: data })
    } else {
        None
    },
    },
},
    },
},
    },
}
}

pub open spec fn dec_data_response_chunk(s: Seq<u8>, i: int) -> Option<PayloadView> {
    match scan_lit(s, i, K_REQUEST_ID@) {
    None => None,
    Some(i1b) => match scan_string_value(s, i1b) {
        None => None,
        Some((request_id, i2)) => match scan_lit(s, i2, K_CHUNK_ID@) {
    None => None,
    Some(i2b) => match scan_dec(s, i2b, 0xffff_ffff) {
        None => None,
        Some((chunk_id, i3)) => match scan_lit(s, i3, K_DATA@) {
    None => None,
    Some(i3b) => match scan_string_value(s, i3b) {
        None => None,
        Some((data, e)) => if e + 1 == s.len() && s[e] == rbrace() {
        Some(PayloadView::DataResponseChunk { request_id: request_id, chunk_id: chunk_id as u32, data: data })
    } else {
        None
    },
    },
},
    },
},
    },
}
}

pub open spec fn dec_data_response_transfer_complete(s: Seq<u8>, i: int) -> Option<PayloadView> {
    match scan_lit(s, i, K_REQUEST_ID@) {
    None => None,
    Some(i1b) => match scan_string_value(s, i1b) {
        None => None,
        Some((request_id, i2)) => match scan_lit(s, i2, K_SUCCESS@) {
    None => None,
    Some(i2b) => match scan_bool(s, i2b) {
        None => None,
        Some((success, i3)) => match scan_lit(s, i3, K_ERROR_MESSAGE@) {
    None => None,
    Some(i3b) => match scan_opt_string(s, i3b) {
        None => None,
        Some((error_message, e)) => if e + 1 == s.len() && s[e] == rbrace() {
        Some(PayloadView::DataResponseTransferComplete { request_id: request_id, success: success, error_message: error_message })
    } else {
        None
    },
    },
},
    },
},
    },
}
}

pub open spec fn dec_data_request_transfer_complete(s: Seq<u8>, i: int) -> Option<PayloadView> {
    match scan_lit(s, i, K_REQUEST_ID@) {
    None => None,
    Some(i1b) => match scan_string_value(s, i1b) {
        None => None,
        Some((request_id, i2)) => match scan_lit(s, i2, K_SUCCESS@) {
    None => None,
    Some(i2b) => match scan_bool(s, i2b) {
        None => None,
        Some((success, i3)) => match scan_lit(s, i3, K_ERROR_MESSAGE@) {
    None => None,
    Some(i3b) => match scan_opt_string(s, i3b) {
        None => None,
        Some((error_message, e)) => if e + 1 == s.len() && s[e] == rbrace() {
        Some(PayloadView::DataRequestTransferComplete { request_id: request_id, success: success, error_message: error_message })
    } else {
        None
    },
    },
},
    },
},
    },
}
}

pub open spec fn dec_client_disconnect(s: Seq<u8>, i: int) -> Option<PayloadView> {
    match scan_lit(s, i, K_REQUEST_ID@) {
    None => None,
    Some(i1b) => match scan_string_value(s, i1b) {
        None => None,
        Some((request_id, e)) => if e + 1 == s.len() && s[e] == rbrace() {
        Some(PayloadView::ClientDisconnect { request_id: request_id })
    } else {
        None
    },
    },
}
}

pub open spec fn dec_command_request(s: Seq<u8>, i: int) -> Option<PayloadView> {
    match scan_lit(s, i, K_REQUEST_ID@) {
    None => None,
    Some(i1b) => match scan_string_value(s, i1b) {
        None => None,
        Some((request_id, i2)) => match scan_lit(s, i2, K_COMMAND@) {
    None => None,
    Some(i2b) => match scan_string_value(s, i2b) {
        None => None,
        Some((command, e)) => if e + 1 == s.len() && s[e] == rbrace() {
        Some(PayloadView::CommandRequest { request_id: request_id, command: command })
    } else {
        None
    },
    },
},
    },
}
}

pub open spec fn dec_command_response_chunk(s: Seq<u8>, i: int) -> Option<PayloadView> {
    match scan_lit(s, i, K_REQUEST_ID@) {
    None => None,
    Some(i1b) => match scan_string_value(s, i1b) {
        None => None,
        Some((request_id, i2)) => match scan_lit(s, i2, K_CHUNK_ID@) {
    None => None,
    Some(i2b) => match scan_dec(s, i2b, 0xffff_ffff) {
        None => None,
        Some((chunk_id, i3)) => match scan_lit(s, i3, K_STREAM_TYPE@) {
    None => None,
    Some(i3b) => match scan_dec(s, i3b, 0xff) {
        None => None,
        Some((stream_type, i4)) => match scan_lit(s, i4, K_DATA@) {
    None => None,
    Some(i4b) => match scan_string_value(s, i4b) {
        None => None,
        Some((data, e)) => if e + 1 == s.len() && s[e] == rbrace() {
        Some(PayloadView::CommandResponseChunk { request_id: request_id, chunk_id: chunk_id as u32, stream_type: stream_type as u8, data: data })
    } else {
        None
    },
    },
},
    },
},
    },
},
    },
}
}

pub open spec fn dec_command_response_transfer_complete(s: Seq<u8>, i: int) -> Option<PayloadView> {
    match scan_lit(s, i, K_REQUEST_ID@) {
    None => None,
    Some(i1b) => match scan_string_value(s, i1b) {
        None => None,
        Some((request_id, i2)) => match scan_lit(s, i2, K_SUCCESS@) {
    None => None,
    Some(i2b) => match scan_bool(s, i2b) {
        None => None,
        Some((success, i3)) => match scan_lit(s, i3, K_EXIT_CODE@) {
    None => None,
    Some(i3b) => match scan_opt_i32(s, i3b) {
        None => None,
        Some((exit_code, i4)) => match scan_lit(s, i4, K_ERROR_MESSAGE@) {
    None => None,
    Some(i4b) => match scan_opt_string(s, i4b) {
        None => None,
        Some((error_message, e)) => if e + 1 == s.len() && s[e] == rbrace() {
        Some(PayloadView::CommandResponseTransferComplete { request_id: request_id, success: success, exit_code: exit_code, error_message: error_message })
    } else {
        None
    },
    },
},
    },
},
    },
},
    },
}
}

/// Decodes the canonical wire bytes of a message. The decoder is strict: it
/// accepts exactly the encoder's form — the `type` field first, the fields
/// in their fixed order, no whitespace — and any deviation yields `None`.
pub open spec fn spec_decode(s: Seq<u8>) -> Option<PayloadView> {
    match scan_lit(s, 0, OBJ_PREFIX@) {
        None => None,
        Some(i0) => match scan_jstr_loop(s, i0, Seq::empty()) {
            None => None,
            Some((tag, i1)) =>
            if tag == TAG_INIT_REQUEST@ {
                dec_init_request(s, i1)
            } else if tag == TAG_INIT_RESPONSE@ {
                dec_init_response(s, i1)
            } else if tag == TAG_INIT_ERROR@ {
                dec_init_error(s, i1)
            } else if tag == TAG_CONNECT_REQUEST@ {
                dec_connect_request(s, i1)
            } else if tag == TAG_CONNECT_RESPONSE@ {
                dec_connect_response(s, i1)
            } else if tag == TAG_DATA_REQUEST_CHUNK@ {
                dec_data_request_chunk(s, i1)
            } else if tag == TAG_DATA_RESPONSE_CHUNK@ {
                dec_data_response_chunk(s, i1)
            } else if tag == TAG_DATA_RESPONSE_COMPLETE@ {
                dec_data_response_transfer_complete(s, i1)
            } else if tag == TAG_DATA_REQUEST_COMPLETE@ {
                dec_data_request_transfer_complete(s, i1)
            } else if tag == TAG_CLIENT_DISCONNECT@ {
                dec_client_disconnect(s, i1)
            } else if tag == TAG_COMMAND_REQUEST@ {
                dec_command_request(s, i1)
            } else if tag == TAG_COMMAND_RESPONSE_CHUNK@ {
                dec_command_response_chunk(s, i1)
            } else if tag == TAG_COMMAND_RESPONSE_COMPLETE@ {
                dec_command_response_transfer_complete(s, i1)
            } else {
                None
            }
        },
    }
}

/// Byte-for-byte equality of two slices.
pub fn slice_eq(a: &[u8], b: &[u8]) -> (r: bool)
    ensures
        r == (a@ == b@),
{
    if a.len() != b.len() {
        proof {
            assert(a@.len() != b@.len());
        }
        return false;
    }
    let n: usize = a.len();
    let mut k: usize = 0;
    while k < n
        invariant
            n == a@.len() && n == b@.len(),
            0 <= k <= n,
            forall|m: int| 0 <= m < k ==> a@[m] == b@[m],
        decreases n - k,
    {
        if a[k] != b[k] {
            return false;
        }
        k += 1;
    }
    proof {
        assert(a@ =~= b@);
    }
    true
}

fn parse_init_request(s: &[u8], i: usize) -> (r: Option<Payload>)
    requires
        i <= s@.len(),
    ensures
        r is Some <==> dec_init_request(s@, i as int) is Some,
        r matches Some(p) ==> dec_init_request(s@, i as int) == Some(p@),
{
    let i1b = match expect_lit(s, i, K_AGENT_ID.as_slice()) {
        Some(j) => j,
        None => { return None; },
    };
    let (agent_id, i2) = match parse_string_value(s, i1b) {
        Some(x) => x,
        None => { return None; },
    };
    let i2b = match expect_lit(s, i2, K_IP.as_slice()) {
        Some(j) => j,
        None => { return None; },
    };
    let (ip, i3) = match parse_string_value(s, i2b) {
        Some(x) => x,
        None => { return None; },
    };
    let i3b = match expect_lit(s, i3, K_REMOTE_HOST.as_slice()) {
        Some(j) => j,
        None => { return None; },
    };
    let (remote_host, i4) = match parse_string_value(s, i3b) {
        Some(x) => x,
        None => { return None; },
    };
    let i4b = match expect_lit(s, i4, K_COUNTRY_CODE.as_slice()) {
        Some(j) => j,
        None => { return None; },
    };
    let (country_code, i5) = match parse_string_value(s, i4b) {
        Some(x) => x,
        None => { return None; },
    };
    let i5b = match expect_lit(s, i5, K_CITY.as_slice()) {
        Some(j) => j,
        None => { return None; },
    };
    let (city, i6) = match parse_string_value(s, i5b) {
        Some(x) => x,
        None => { return None; },
    };
    let i6b = match expect_lit(s, i6, K_REGION.as_slice()) {
        Some(j) => j,
        None => { return None; },
    };
    let (region, i7) = match parse_string_value(s, i6b) {
        Some(x) => x,
        None => { return None; },
    };
    let i7b = match expect_lit(s, i7, K_ASN.as_slice()) {
        Some(j) => j,
        None => { return None; },
    };
    let (asn, i8) = match parse_string_value(s, i7b) {
        Some(x) => x,
        None => { return None; },
    };
    let i8b = match expect_lit(s, i8, K_ASN_ORG.as_slice()) {
        Some(j) => j,
        None => { return None; },
    };
    let (asn_org, i9) = match parse_string_value(s, i8b) {
        Some(x) => x,
        None => { return None; },
    };
    let i9b = match expect_lit(s, i9, K_OS_TYPE.as_slice()) {
        Some(j) => j,
        None => { return None; },
    };
    let (os_type, i10) = match parse_string_value(s, i9b) {
        Some(x) => x,
        None => { return None; },
    };
    let i10b = match expect_lit(s, i10, K_OS_VERSION.as_slice()) {
        Some(j) => j,
        None => { return None; },
    };
    let (os_version, i11) = match parse_string_value(s, i10b) {
        Some(x) => x,
        None => { return None; },
    };
    let i11b = match expect_lit(s, i11, K_HOSTNAME.as_slice()) {
        Some(j) => j,
        None => { return None; },
    };
    let (hostname, i12) = match parse_string_value(s, i11b) {
        Some(x) => x,
        None => { return None; },
    };
    let i12b = match expect_lit(s, i12, K_KERNEL_VERSION.as_slice()) {
        Some(j) => j,
        None => { return None; },
    };
    let (kernel_version, i13) = match parse_string_value(s, i12b) {
        Some(x) => x,
        None => { return None; },
    };
    let i13b = match expect_lit(s, i13, K_USERNAME.as_slice()) {
        Some(j) => j,
        None => { return None; },
    };
    let (username, e) = match parse_string_value(s, i13b) {
        Some(x) => x,
        None => { return None; },
    };
    if e < s.len() && s.len() - e == 1 && s[e] == 0x7d {
        Some(Payload::InitRequest { agent_id: agent_id, ip: ip, remote_host: remote_host, country_code: country_code, city: city, region: region, asn: asn, asn_org: asn_org, os_type: os_type, os_version: os_version, hostname: hostname, kernel_version: kernel_version, username: username })
    } else {
        None
    }
}

fn parse_init_response(s: &[u8], i: usize) -> (r: Option<Payload>)
    requires
        i <= s@.len(),
    ensures
        r is Some <==> dec_init_response(s@, i as int) is Some,
        r matches Some(p) ==> dec_init_response(s@, i as int) == Some(p@),
{
    let i1b = match expect_lit(s, i, K_SUCCESS.as_slice()) {
        Some(j) => j,
        None => { return None; },
    };
    let (success, i2) = match parse_bool(s, i1b) {
        Some(x) => x,
        None => { return None; },
    };
    let i2b = match expect_lit(s, i2, K_MESSAGE.as_slice()) {
        Some(j) => j,
        None => { return None; },
    };
    let (message, e) = match parse_opt_string(s, i2b) {
        Some(x) => x,
        None => { return None; },
    };
    if e < s.len() && s.len() - e == 1 && s[e] == 0x7d {
        Some(Payload::InitResponse { success: success, message: message })
    } else {
        None
    }
}

fn parse_init_error(s: &[u8], i: usize) -> (r: Option<Payload>)
    requires
        i <= s@.len(),
    ensures
        r is Some <==> dec_init_error(s@, i as int) is Some,
        r matches Some(p) ==> dec_init_error(s@, i as int) == Some(p@),
{
    let i1b = match expect_lit(s, i, K_ERROR_MESSAGE.as_slice()) {
        Some(j) => j,
        None => { return None; },
    };
    let (error_message, e) = match parse_string_value(s, i1b) {
        Some(x) => x,
        None => { return None; },
    };
    if e < s.len() && s.len() - e == 1 && s[e] == 0x7d {
        Some(Payload::InitError { error_message: error_message })
    } else {
        None
    }
}

fn parse_connect_request(s: &[u8], i: usize) -> (r: Option<Payload>)
    requires
        i <= s@.len(),
    ensures
        r is Some <==> dec_connect_request(s@, i as int) is Some,
        r matches Some(p) ==> dec_connect_request(s@, i as int) == Some(p@),
{
    let i1b = match expect_lit(s, i, K_REQUEST_ID.as_slice()) {
        Some(j) => j,
        None => { return None; },
    };
    let (request_id, i2) = match parse_string_value(s, i1b) {
        Some(x) => x,
        None => { return None; },
    };
    let i2b = match expect_lit(s, i2, K_TARGET_ADDR.as_slice()) {
        Some(j) => j,
        None => { return None; },
    };
    let (target_addr, i3) = match parse_string_value(s, i2b) {
        Some(x) => x,
        None => { return None; },
    };
    let i3b = match expect_lit(s, i3, K_TARGET_PORT.as_slice()) {
        Some(j) => j,
        None => { return None; },
    };
    let (target_port, i4) = match parse_dec(s, i3b, 0xffff) {
        Some(x) => x,
        None => { return None; },
    };
    let i4b = match expect_lit(s, i4, K_AGENT_ID.as_slice()) {
        Some(j) => j,
        None => { return None; },
    };
    let (agent_id, i5) = match parse_opt_string(s, i4b) {
        Some(x) => x,
        None => { return None; },
    };
    let i5b = match expect_lit(s, i5, K_ADDRESS_TYPE.as_slice()) {
        Some(j) => j,
        None => { return None; },
    };
    let (address_type, e) = match parse_dec(s, i5b, 0xff) {
        Some(x) => x,
        None => { return None; },
    };
    if e < s.len() && s.len() - e == 1 && s[e] == 0x7d {
        Some(Payload::ConnectRequest { request_id: request_id, target_addr: target_addr, target_port: target_port as u16, agent_id: agent_id, address_type: address_type as u8 })
    } else {
        None
    }
}

fn parse_connect_response(s: &[u8], i: usize) -> (r: Option<Payload>)
    requires
        i <= s@.len(),
    ensures
        r is Some <==> dec_connect_response(s@, i as int) is Some,
        r matches Some(p) ==> dec_connect_response(s@, i as int) == Some(p@),
{
    let i1b = match expect_lit(s, i, K_REQUEST_ID.as_slice()) {
        Some(j) => j,
        None => { return None; },
    };
    let (request_id, i2) = match parse_string_value(s, i1b) {
        Some(x) => x,
        None => { return None; },
    };
    let i2b = match expect_lit(s, i2, K_SUCCESS.as_slice()) {
        Some(j) => j,
        None => { return None; },
    };
    let (success, e) = match parse_bool(s, i2b) {
        Some(x) => x,
        None => { return None; },
    };
    if e < s.len() && s.len() - e == 1 && s[e] == 0x7d {
        Some(Payload::ConnectResponse { request_id: request_id, success: success })
    } else {
        None
    }
}

fn parse_data_request_chunk(s: &[u8], i: usize) -> (r: Option<Payload>)
    requires
        i <= s@.len(),
    ensures
        r is Some <==> dec_data_request_chunk(s@, i as int) is Some,
        r matches Some(p) ==> dec_data_request_chunk(s@, i as int) == Some(p@),
{
    let i1b = match expect_lit(s, i, K_REQUEST_ID.as_slice()) {
        Some(j) => j,
        None => { return None; },
    };
    let (request_id, i2) = match parse_string_value(s, i1b) {
        Some(x) => x,
        None => { return None; },
    };
    let i2b = match expect_lit(s, i2, K_CHUNK_ID.as_slice()) {
        Some(j) => j,
        None => { return None; },
    };
    let (chunk_id, i3) = match parse_dec(s, i2b, 0xffff_ffff) {
        Some(x) => x,
        None => { return None; },
    };
    let i3b = match expect_lit(s, i3, K_DATA.as_slice()) {
        Some(j) => j,
        None => { return None; },
    };
    let (data, e) = match parse_string_value(s, i3b) {
        Some(x) => x,
        None => { return None; },
    };
    if e < s.len() && s.len() - e == 1 && s[e] == 0x7d {
        Some(Payload::DataRequestChunk { request_id: request_id, chunk_id: chunk_id as u32, data: data })
    } else {
        None
    }
}

fn parse_data_response_chunk(s: &[u8], i: usize) -> (r: Option<Payload>)
    requires
        i <= s@.len(),
    ensures
        r is Some <==> dec_data_response_chunk(s@, i as int) is Some,
        r matches Some(p) ==> dec_data_response_chunk(s@, i as int) == Some(p@),
{
    let i1b = match expect_lit(s, i, K_REQUEST_ID.as_slice()) {
        Some(j) => j,
        None => { return None; },
    };
    let (request_id, i2) = match parse_string_value(s, i1b) {
        Some(x) => x,
        None => { return None; },
    };
    let i2b = match expect_lit(s, i2, K_CHUNK_ID.as_slice()) {
        Some(j) => j,
        None => { return None; },
    };
    let (chunk_id, i3) = match parse_dec(s, i2b, 0xffff_ffff) {
        Some(x) => x,
        None => { return None; },
    };
    let i3b = match expect_lit(s, i3, K_DATA.as_slice()) {
        Some(j) => j,
        None => { return None; },
    };
    let (data, e) = match parse_string_value(s, i3b) {
        Some(x) => x,
        None => { return None; },
    };
    if e < s.len() && s.len() - e == 1 && s[e] == 0x7d {
        Some(Payload::DataResponseChunk { request_id: request_id, chunk_id: chunk_id as u32, data: data })
    } else {
        None
    }
}

fn parse_data_response_transfer_complete(s: &[u8], i: usize) -> (r: Option<Payload>)
    requires
        i <= s@.len(),
    ensures
        r is Some <==> dec_data_response_transfer_complete(s@, i as int) is Some,
        r matches Some(p) ==> dec_data_response_transfer_complete(s@, i as int) == Some(p@),
{
    let i1b = match expect_lit(s, i, K_REQUEST_ID.as_slice()) {
        Some(j) => j,
        None => { return None; },
    };
    let (request_id, i2) = match parse_string_value(s, i1b) {
        Some(x) => x,
        None => { return None; },
    };
    let i2b = match expect_lit(s, i2, K_SUCCESS.as_slice()) {
        Some(j) => j,
        None => { return None; },
    };
    let (success, i3) = match parse_bool(s, i2b) {
        Some(x) => x,
        None => { return None; },
    };
    let i3b = match expect_lit(s, i3, K_ERROR_MESSAGE.as_slice()) {
        Some(j) => j,
        None => { return None; },
    };
    let (error_message, e) = match parse_opt_string(s, i3b) {
        Some(x) => x,
        None => { return None; },
    };
    if e < s.len() && s.len() - e == 1 && s[e] == 0x7d {
        Some(Payload::DataResponseTransferComplete { request_id: request_id, success: success, error_message: error_message })
    } else {
        None
    }
}

fn parse_data_request_transfer_complete(s: &[u8], i: usize) -> (r: Option<Payload>)
    requires
        i <= s@.len(),
    ensures
        r is Some <==> dec_data_request_transfer_complete(s@, i as int) is Some,
        r matches Some(p) ==> dec_data_request_transfer_complete(s@, i as int) == Some(p@),
{
    let i1b = match expect_lit(s, i, K_REQUEST_ID.as_slice()) {
        Some(j) => j,
        None => { return None; },
    };
    let (request_id, i2) = match parse_string_value(s, i1b) {
        Some(x) => x,
        None => { return None; },
    };
    let i2b = match expect_lit(s, i2, K_SUCCESS.as_slice()) {
        Some(j) => j,
        None => { return None; },
    };
    let (success, i3) = match parse_bool(s, i2b) {
        Some(x) => x,
        None => { return None; },
    };
    let i3b = match expect_lit(s, i3, K_ERROR_MESSAGE.as_slice()) {
        Some(j) => j,
        None => { return None; },
    };
    let (error_message, e) = match parse_opt_string(s, i3b) {
        Some(x) => x,
        None => { return None; },
    };
    if e < s.len() && s.len() - e == 1 && s[e] == 0x7d {
        Some(Payload::DataRequestTransferComplete { request_id: request_id, success: success, error_message: error_message })
    } else {
        None
    }
}

fn parse_client_disconnect(s: &[u8], i: usize) -> (r: Option<Payload>)
    requires
        i <= s@.len(),
    ensures
        r is Some <==> dec_client_disconnect(s@, i as int) is Some,
        r matches Some(p) ==> dec_client_disconnect(s@, i as int) == Some(p@),
{
    let i1b = match expect_lit(s, i, K_REQUEST_ID.as_slice()) {
        Some(j) => j,
        None => { return None; },
    };
    let (request_id, e) = match parse_string_value(s, i1b) {
        Some(x) => x,
        None => { return None; },
    };
    if e < s.len() && s.len() - e == 1 && s[e] == 0x7d {
        Some(Payload::ClientDisconnect { request_id: request_id })
    } else {
        None
    }
}

fn parse_command_request(s: &[u8], i: usize) -> (r: Option<Payload>)
    requires
        i <= s@.len(),
    ensures
        r is Some <==> dec_command_request(s@, i as int) is Some,
        r matches Some(p) ==> dec_command_request(s@, i as int) == Some(p@),
{
    let i1b = match expect_lit(s, i, K_REQUEST_ID.as_slice()) {
        Some(j) => j,
        None => { return None; },
    };
    let (request_id, i2) = match parse_string_value(s, i1b) {
        Some(x) => x,
        None => { return None; },
    };
    let i2b = match expect_lit(s, i2, K_COMMAND.as_slice()) {
        Some(j) => j,
        None => { return None; },
    };
    let (command, e) = match parse_string_value(s, i2b) {
        Some(x) => x,
        None => { return None; },
    };
    if e < s.len() && s.len() - e == 1 && s[e] == 0x7d {
        Some(Payload::CommandRequest { request_id: request_id, command: command })
    } else {
        None
    }
}

fn parse_command_response_chunk(s: &[u8], i: usize) -> (r: Option<Payload>)
    requires
        i <= s@.len(),
    ensures
        r is Some <==> dec_command_response_chunk(s@, i as int) is Some,
        r matches Some(p) ==> dec_command_response_chunk(s@, i as int) == Some(p@),
{
    let i1b = match expect_lit(s, i, K_REQUEST_ID.as_slice()) {
        Some(j) => j,
        None => { return None; },
    };
    let (request_id, i2) = match parse_string_value(s, i1b) {
        Some(x) => x,
        None => { return None; },
    };
    let i2b = match expect_lit(s, i2, K_CHUNK_ID.as_slice()) {
        Some(j) => j,
        None => { return None; },
    };
    let (chunk_id, i3) = match parse_dec(s, i2b, 0xffff_ffff) {
        Some(x) => x,
        None => { return None; },
    };
    let i3b = match expect_lit(s, i3, K_STREAM_TYPE.as_slice()) {
        Some(j) => j,
        None => { return None; },
    };
    let (stream_type, i4) = match parse_dec(s, i3b, 0xff) {
        Some(x) => x,
        None => { return None; },
    };
    let i4b = match expect_lit(s, i4, K_DATA.as_slice()) {
        Some(j) => j,
        None => { return None; },
    };
    let (data, e) = match parse_string_value(s, i4b) {
        Some(x) => x,
        None => { return None; },
    };
    if e < s.len() && s.len() - e == 1 && s[e] == 0x7d {
        Some(Payload::CommandResponseChunk { request_id: request_id, chunk_id: chunk_id as u32, stream_type: stream_type as u8, data: data })
    } else {
        None
    }
}

fn parse_command_response_transfer_complete(s: &[u8], i: usize) -> (r: Option<Payload>)
    requires
        i <= s@.len(),
    ensures
        r is Some <==> dec_command_response_transfer_complete(s@, i as int) is Some,
        r matches Some(p) ==> dec_command_response_transfer_complete(s@, i as int) == Some(p@),
{
    let i1b = match expect_lit(s, i, K_REQUEST_ID.as_slice()) {
        Some(j) => j,
        None => { return None; },
    };
    let (request_id, i2) = match parse_string_value(s, i1b) {
        Some(x) => x,
        None => { return None; },
    };
    let i2b = match expect_lit(s, i2, K_SUCCESS.as_slice()) {
        Some(j) => j,
        None => { return None; },
    };
    let (success, i3) = match parse_bool(s, i2b) {
        Some(x) => x,
        None => { return None; },
    };
    let i3b = match expect_lit(s, i3, K_EXIT_CODE.as_slice()) {
        Some(j) => j,
        None => { return None; },
    };
    let (exit_code, i4) = match parse_opt_i32(s, i3b) {
        Some(x) => x,
        None => { return None; },
    };
    let i4b = match expect_lit(s, i4, K_ERROR_MESSAGE.as_slice()) {
        Some(j) => j,
        None => { return None; },
    };
    let (error_message, e) = match parse_opt_string(s, i4b) {
        Some(x) => x,
        None => { return None; },
    };
    if e < s.len() && s.len() - e == 1 && s[e] == 0x7d {
        Some(Payload::CommandResponseTransferComplete { request_id: request_id, success: success, exit_code: exit_code, error_message: error_message })
    } else {
        None
    }
}

/// Decodes wire bytes as `spec_decode` does: canonical form only, which
/// both endpoints of this fabric emit.
pub fn decode_payload(s: &[u8]) -> (r: Option<Payload>)
    ensures
        r is Some <==> spec_decode(s@) is Some,
        r matches Some(p) ==> spec_decode(s@) == Some(p@),
{
    let i0 = match expect_lit(s, 0, OBJ_PREFIX.as_slice()) {
        Some(j) => j,
        None => { return None; },
    };
    let (tag, i1) = match parse_jstr_loop(s, i0, Vec::new()) {
        Some(x) => x,
        None => { return None; },
    };
    if slice_eq(tag.as_slice(), TAG_INIT_REQUEST.as_slice()) {
        parse_init_request(s, i1)
    } else if slice_eq(tag.as_slice(), TAG_INIT_RESPONSE.as_slice()) {
        parse_init_response(s, i1)
    } else if slice_eq(tag.as_slice(), TAG_INIT_ERROR.as_slice()) {
        parse_init_error(s, i1)
    } else if slice_eq(tag.as_slice(), TAG_CONNECT_REQUEST.as_slice()) {
        parse_connect_request(s, i1)
    } else if slice_eq(tag.as_slice(), TAG_CONNECT_RESPONSE.as_slice()) {
        parse_connect_response(s, i1)
    } else if slice_eq(tag.as_slice(), TAG_DATA_REQUEST_CHUNK.as_slice()) {
        parse_data_request_chunk(s, i1)
    } else if slice_eq(tag.as_slice(), TAG_DATA_RESPONSE_CHUNK.as_slice()) {
        parse_data_response_chunk(s, i1)
    } else if slice_eq(tag.as_slice(), TAG_DATA_RESPONSE_COMPLETE.as_slice()) {
        parse_data_response_transfer_complete(s, i1)
    } else if slice_eq(tag.as_slice(), TAG_DATA_REQUEST_COMPLETE.as_slice()) {
        parse_data_request_transfer_complete(s, i1)
    } else if slice_eq(tag.as_slice(), TAG_CLIENT_DISCONNECT.as_slice()) {
        parse_client_disconnect(s, i1)
    } else if slice_eq(tag.as_slice(), TAG_COMMAND_REQUEST.as_slice()) {
        parse_command_request(s, i1)
    } else if slice_eq(tag.as_slice(), TAG_COMMAND_RESPONSE_CHUNK.as_slice()) {
        parse_command_response_chunk(s, i1)
    } else if slice_eq(tag.as_slice(), TAG_COMMAND_RESPONSE_COMPLETE.as_slice()) {
        parse_command_response_transfer_complete(s, i1)
    } else {
        None
    }
}

proof fn lemma_esc_plain(bs: Seq<u8>)
    requires
        forall|k: int| 0 <= k < bs.len() ==> plain_byte(#[trigger] bs[k]),
    ensures
        esc(bs) == bs,
    decreases bs.len(),
{
    if bs.len() == 0 {
        assert(esc(bs) =~= bs);
    } else {
        lemma_esc_plain(bs.drop_first());
        assert(esc1(bs[0]) =~= seq![bs[0]]);
        assert(esc(bs) =~= bs);
    }
}

#[verifier::rlimit(100)]
#[verifier::spinoff_prover]
proof fn lemma_fields_connect_request(p: PayloadView)
    requires
        p is ConnectRequest,
    ensures
        dec_connect_request(json_of(p), 10 + TAG_CONNECT_REQUEST@.len() as int) == Some(p),
{
    let s = json_of(p);
    match p {
        PayloadView::ConnectRequest { request_id, target_addr, target_port, agent_id, address_type } => {
            let t = TAG_CONNECT_REQUEST@;
            let v1 = jstr(request_id);
            let v2 = jstr(target_addr);
            let v3 = dec_of(target_port as nat);
            let v4 = opt_str_text(agent_id);
            let v5 = dec_of(address_type as nat);
            let f1: int = 10 + t.len() as int;
            let g1: int = f1 + K_REQUEST_ID@.len();
            let f2: int = g1 + v1.len();
            let g2: int = f2 + K_TARGET_ADDR@.len();
            let f3: int = g2 + v2.len();
            let g3: int = f3 + K_TARGET_PORT@.len();
            let f4: int = g3 + v3.len();
            let g4: int = f4 + K_AGENT_ID@.len();
            let f5: int = g4 + v4.len();
            let g5: int = f5 + K_ADDRESS_TYPE@.len();
            let e: int = g5 + v5.len();
            assert(s.subrange(f1, g1) =~= K_REQUEST_ID@);
            assert(scan_lit(s, f1, K_REQUEST_ID@) == Some(g1));
            assert(s.subrange(g1, g1 + v1.len() as int) =~= v1);
            lemma_scan_string_value_of(s, g1, request_id);
            assert(scan_string_value(s, g1) == Some((request_id, f2)));
            assert(s.subrange(f2, g2) =~= K_TARGET_ADDR@);
            assert(scan_lit(s, f2, K_TARGET_ADDR@) == Some(g2));
            assert(s.subrange(g2, g2 + v2.len() as int) =~= v2);
            lemma_scan_string_value_of(s, g2, target_addr);
            assert(scan_string_value(s, g2) == Some((target_addr, f3)));
            assert(s.subrange(f3, g3) =~= K_TARGET_PORT@);
            assert(scan_lit(s, f3, K_TARGET_PORT@) == Some(g3));
            assert(s.subrange(g3, g3 + v3.len() as int) =~= v3);
            assert(!is_digit(s[g3 + v3.len() as int])) by {
                assert(s[g3 + v3.len() as int] == s.subrange(f4, g4)[0]);
            }
            lemma_scan_dec_of(s, g3, target_port as nat, 0xffff);
            assert(scan_dec(s, g3, 0xffff) == Some((target_port as nat, f4)));
            assert(s.subrange(f4, g4) =~= K_AGENT_ID@);
            assert(scan_lit(s, f4, K_AGENT_ID@) == Some(g4));
            assert(s.subrange(g4, g4 + v4.len() as int) =~= v4);
            lemma_scan_opt_string_of(s, g4, agent_id);
            assert(scan_opt_string(s, g4) == Some((agent_id, f5)));
            assert(s.subrange(f5, g5) =~= K_ADDRESS_TYPE@);
            assert(scan_lit(s, f5, K_ADDRESS_TYPE@) == Some(g5));
            assert(s.subrange(g5, g5 + v5.len() as int) =~= v5);
            assert(!is_digit(s[g5 + v5.len() as int])) by {
                assert(s[g5 + v5.len() as int] == rbrace());
            }
            lemma_scan_dec_of(s, g5, address_type as nat, 0xff);
            assert(scan_dec(s, g5, 0xff) == Some((address_type as nat, e)));
            assert(s[e] == rbrace());
            assert(e + 1 == s.len());
            assert(dec_connect_request(s, f1) == Some(p));
        },
        _ => {},
    }
}

/// Decoding an encoded `ConnectRequest` message gives the message back.
#[verifier::rlimit(100)]
#[verifier::spinoff_prover]
pub proof fn lemma_decode_encode_connect_request(p: PayloadView)
    requires
        p is ConnectRequest,
    ensures
        spec_decode(json_of(p)) == Some(p),
{
    let s = json_of(p);
    let t = TAG_CONNECT_REQUEST@;
    match p {
        PayloadView::ConnectRequest { request_id, target_addr, target_port, agent_id, address_type } => {
            assert(s.subrange(0, 9) =~= OBJ_PREFIX@);
            assert(scan_lit(s, 0, OBJ_PREFIX@) == Some(9int));
            let p1: int = 9 + t.len() as int;
            assert(s.subrange(9, p1) =~= t);
            assert(s[p1] == quote());
            assert(forall|k: int| 0 <= k < t.len() ==> plain_byte(#[trigger] t[k]));
            lemma_esc_plain(t);
            lemma_scan_esc(s, 9, t, Seq::empty());
            assert(Seq::empty() + t =~= t);
            assert(scan_jstr_loop(s, 9, Seq::empty()) == Some((t, p1 + 1)));
            assert(t != TAG_INIT_REQUEST@) by {
                if t.len() == TAG_INIT_REQUEST@.len() {
                    assert(t[2] != TAG_INIT_REQUEST@[2] || t.len() != TAG_INIT_REQUEST@.len());
                }
            }
            assert(t != TAG_INIT_RESPONSE@) by {
                if t.len() == TAG_INIT_RESPONSE@.len() {
                    assert(t[2] != TAG_INIT_RESPONSE@[2] || t.len() != TAG_INIT_RESPONSE@.len());
                }
            }
            assert(t != TAG_INIT_ERROR@) by {
                if t.len() == TAG_INIT_ERROR@.len() {
                    assert(t[2] != TAG_INIT_ERROR@[2] || t.len() != TAG_INIT_ERROR@.len());
                }
            }
            lemma_fields_connect_request(p);
            assert(spec_decode(s) == Some(p));
        },
        _ => {},
    }
}

#[verifier::rlimit(100)]
#[verifier::spinoff_prover]
proof fn lemma_fields_connect_response(p: PayloadView)
    requires
        p is ConnectResponse,
    ensures
        dec_connect_response(json_of(p), 10 + TAG_CONNECT_RESPONSE@.len() as int) == Some(p),
{
    let s = json_of(p);
    match p {
        PayloadView::ConnectResponse { request_id, success } => {
            let t = TAG_CONNECT_RESPONSE@;
            let v1 = jstr(request_id);
            let v2 = bool_text(success);
            let f1: int = 10 + t.len() as int;
            let g1: int = f1 + K_REQUEST_ID@.len();
            let f2: int = g1 + v1.len();
            let g2: int = f2 + K_SUCCESS@.len();
            let e: int = g2 + v2.len();
            assert(s.subrange(f1, g1) =~= K_REQUEST_ID@);
            assert(scan_lit(s, f1, K_REQUEST_ID@) == Some(g1));
            assert(s.subrange(g1, g1 + v1.len() as int) =~= v1);
            lemma_scan_string_value_of(s, g1, request_id);
            assert(scan_string_value(s, g1) == Some((request_id, f2)));
            assert(s.subrange(f2, g2) =~= K_SUCCESS@);
            assert(scan_lit(s, f2, K_SUCCESS@) == Some(g2));
            assert(s.subrange(g2, g2 + v2.len() as int) =~= v2);
            lemma_scan_bool_of(s, g2, success);
            assert(scan_bool(s, g2) == Some((success, e)));
            assert(s[e] == rbrace());
            assert(e + 1 == s.len());
            assert(dec_connect_response(s, f1) == Some(p));
        },
        _ => {},
    }
}

/// Decoding an encoded `ConnectResponse` message gives the message back.
#[verifier::rlimit(100)]
#[verifier::spinoff_prover]
pub proof fn lemma_decode_encode_connect_response(p: PayloadView)
    requires
        p is ConnectResponse,
    ensures
        spec_decode(json_of(p)) == Some(p),
{
    let s = json_of(p);
    let t = TAG_CONNECT_RESPONSE@;
    match p {
        PayloadView::ConnectResponse { request_id, success } => {
            assert(s.subrange(0, 9) =~= OBJ_PREFIX@);
            assert(scan_lit(s, 0, OBJ_PREFIX@) == Some(9int));
            let p1: int = 9 + t.len() as int;
            assert(s.subrange(9, p1) =~= t);
            assert(s[p1] == quote());
            assert(forall|k: int| 0 <= k < t.len() ==> plain_byte(#[trigger] t[k]));
            lemma_esc_plain(t);
            lemma_scan_esc(s, 9, t, Seq::empty());
            assert(Seq::empty() + t =~= t);
            assert(scan_jstr_loop(s, 9, Seq::empty()) == Some((t, p1 + 1)));
            assert(t != TAG_INIT_REQUEST@) by {
                if t.len() == TAG_INIT_REQUEST@.len() {
                    assert(t[2] != TAG_INIT_REQUEST@[2] || t.len() != TAG_INIT_REQUEST@.len());
                }
            }
            assert(t != TAG_INIT_RESPONSE@) by {
                if t.len() == TAG_INIT_RESPONSE@.len() {
                    assert(t[2] != TAG_INIT_RESPONSE@[2] || t.len() != TAG_INIT_RESPONSE@.len());
                }
            }
            assert(t != TAG_INIT_ERROR@) by {
                if t.len() == TAG_INIT_ERROR@.len() {
                    assert(t[2] != TAG_INIT_ERROR@[2] || t.len() != TAG_INIT_ERROR@.len());
                }
            }
            assert(t != TAG_CONNECT_REQUEST@) by {
                if t.len() == TAG_CONNECT_REQUEST@.len() {
                    assert(t[2] != TAG_CONNECT_REQUEST@[2] || t.len() != TAG_CONNECT_REQUEST@.len());
                }
            }
            lemma_fields_connect_response(p);
            assert(spec_decode(s) == Some(p));
        },
        _ => {},
    }
}

#[verifier::rlimit(100)]
#[verifier::spinoff_prover]
proof fn lemma_fields_data_request_chunk(p: PayloadView)
    requires
        p is DataRequestChunk,
    ensures
        dec_data_request_chunk(json_of(p), 10 + TAG_DATA_REQUEST_CHUNK@.len() as int) == Some(p),
{
    let s = json_of(p);
    match p {
        PayloadView::DataRequestChunk { request_id, chunk_id, data } => {
            let t = TAG_DATA_REQUEST_CHUNK@;
            let v1 = jstr(request_id);
            let v2 = dec_of(chunk_id as nat);
            let v3 = jstr(data);
            let f1: int = 10 + t.len() as int;
            let g1: int = f1 + K_REQUEST_ID@.len();
            let f2: int = g1 + v1.len();
            let g2: int = f2 + K_CHUNK_ID@.len();
            let f3: int = g2 + v2.len();
            let g3: int = f3 + K_DATA@.len();
            let e: int = g3 + v3.len();
            assert(s.subrange(f1, g1) =~= K_REQUEST_ID@);
            assert(scan_lit(s, f1, K_REQUEST_ID@) == Some(g1));
            assert(s.subrange(g1, g1 + v1.len() as int) =~= v1);
            lemma_scan_string_value_of(s, g1, request_id);
            assert(scan_string_value(s, g1) == Some((request_id, f2)));
            assert(s.subrange(f2, g2) =~= K_CHUNK_ID@);
            assert(scan_lit(s, f2, K_CHUNK_ID@) == Some(g2));
            assert(s.subrange(g2, g2 + v2.len() as int) =~= v2);
            assert(!is_digit(s[g2 + v2.len() as int])) by {
                assert(s[g2 + v2.len() as int] == s.subrange(f3, g3)[0]);
            }
            lemma_scan_dec_of(s, g2, chunk_id as nat, 0xffff_ffff);
            assert(scan_dec(s, g2, 0xffff_ffff) == Some((chunk_id as nat, f3)));
            assert(s.subrange(f3, g3) =~= K_DATA@);
            assert(scan_lit(s, f3, K_DATA@) == Some(g3));
            assert(s.subrange(g3, g3 + v3.len() as int) =~= v3);
            lemma_scan_string_value_of(s, g3, data);
            assert(scan_string_value(s, g3) == Some((data, e)));
            assert(s[e] == rbrace());
            assert(e + 1 == s.len());
            assert(dec_data_request_chunk(s, f1) == Some(p));
        },
        _ => {},
    }
}

/// Decoding an encoded `DataRequestChunk` message gives the message back.
#[verifier::rlimit(100)]
#[verifier::spinoff_prover]
pub proof fn lemma_decode_encode_data_request_chunk(p: PayloadView)
    requires
        p is DataRequestChunk,
    ensures
        spec_decode(json_of(p)) == Some(p),
{
    let s = json_of(p);
    let t = TAG_DATA_REQUEST_CHUNK@;
    match p {
        PayloadView::DataRequestChunk { request_id, chunk_id, data } => {
            assert(s.subrange(0, 9) =~= OBJ_PREFIX@);
            assert(scan_lit(s, 0, OBJ_PREFIX@) == Some(9int));
            let p1: int = 9 + t.len() as int;
            assert(s.subrange(9, p1) =~= t);
            assert(s[p1] == quote());
            assert(forall|k: int| 0 <= k < t.len() ==> plain_byte(#[trigger] t[k]));
            lemma_esc_plain(t);
            lemma_scan_esc(s, 9, t, Seq::empty());
            assert(Seq::empty() + t =~= t);
            assert(scan_jstr_loop(s, 9, Seq::empty()) == Some((t, p1 + 1)));
            assert(t != TAG_INIT_REQUEST@) by {
                if t.len() == TAG_INIT_REQUEST@.len() {
                    assert(t[2] != TAG_INIT_REQUEST@[2] || t.len() != TAG_INIT_REQUEST@.len());
                }
            }
            assert(t != TAG_INIT_RESPONSE@) by {
                if t.len() == TAG_INIT_RESPONSE@.len() {
                    assert(t[2] != TAG_INIT_RESPONSE@[2] || t.len() != TAG_INIT_RESPONSE@.len());
                }
            }
            assert(t != TAG_INIT_ERROR@) by {
                if t.len() == TAG_INIT_ERROR@.len() {
                    assert(t[2] != TAG_INIT_ERROR@[2] || t.len() != TAG_INIT_ERROR@.len());
                }
            }
            assert(t != TAG_CONNECT_REQUEST@) by {
                if t.len() == TAG_CONNECT_REQUEST@.len() {
                    assert(t[2] != TAG_CONNECT_REQUEST@[2] || t.len() != TAG_CONNECT_REQUEST@.len());
                }
            }
            assert(t != TAG_CONNECT_RESPONSE@) by {
                if t.len() == TAG_CONNECT_RESPONSE@.len() {
                    assert(t[2] != TAG_CONNECT_RESPONSE@[2] || t.len() != TAG_CONNECT_RESPONSE@.len());
                }
            }
            lemma_fields_data_request_chunk(p);
            assert(spec_decode(s) == Some(p));
        },
        _ => {},
    }
}

#[verifier::rlimit(100)]
#[verifier::spinoff_prover]
proof fn lemma_fields_data_response_chunk(p: PayloadView)
    requires
        p is DataResponseChunk,
    ensures
        dec_data_response_chunk(json_of(p), 10 + TAG_DATA_RESPONSE_CHUNK@.len() as int) == Some(p),
{
    let s = json_of(p);
    match p {
        PayloadView::DataResponseChunk { request_id, chunk_id, data } => {
            let t = TAG_DATA_RESPONSE_CHUNK@;
            let v1 = jstr(request_id);
            let v2 = dec_of(chunk_id as nat);
            let v3 = jstr(data);
            let f1: int = 10 + t.len() as int;
            let g1: int = f1 + K_REQUEST_ID@.len();
            let f2: int = g1 + v1.len();
            let g2: int = f2 + K_CHUNK_ID@.len();
            let f3: int = g2 + v2.len();
            let g3: int = f3 + K_DATA@.len();
            let e: int = g3 + v3.len();
            assert(s.subrange(f1, g1) =~= K_REQUEST_ID@);
            assert(scan_lit(s, f1, K_REQUEST_ID@) == Some(g1));
            assert(s.subrange(g1, g1 + v1.len() as int) =~= v1);
            lemma_scan_string_value_of(s, g1, request_id);
            assert(scan_string_value(s, g1) == Some((request_id, f2)));
            assert(s.subrange(f2, g2) =~= K_CHUNK_ID@);
            assert(scan_lit(s, f2, K_CHUNK_ID@) == Some(g2));
            assert(s.subrange(g2, g2 + v2.len() as int) =~= v2);
            assert(!is_digit(s[g2 + v2.len() as int])) by {
                assert(s[g2 + v2.len() as int] == s.subrange(f3, g3)[0]);
            }
            lemma_scan_dec_of(s, g2, chunk_id as nat, 0xffff_ffff);
            assert(scan_dec(s, g2, 0xffff_ffff) == Some((chunk_id as nat, f3)));
            assert(s.subrange(f3, g3) =~= K_DATA@);
            assert(scan_lit(s, f3, K_DATA@) == Some(g3));
            assert(s.subrange(g3, g3 + v3.len() as int) =~= v3);
            lemma_scan_string_value_of(s, g3, data);
            assert(scan_string_value(s, g3) == Some((data, e)));
            assert(s[e] == rbrace());
            assert(e + 1 == s.len());
            assert(dec_data_response_chunk(s, f1) == Some(p));
        },
        _ => {},
    }
}

/// Decoding an encoded `DataResponseChunk` message gives the message back.
#[verifier::rlimit(100)]
#[verifier::spinoff_prover]
pub proof fn lemma_decode_encode_data_response_chunk(p: PayloadView)
    requires
        p is DataResponseChunk,
    ensures
        spec_decode(json_of(p)) == Some(p),
{
    let s = json_of(p);
    let t = TAG_DATA_RESPONSE_CHUNK@;
    match p {
        PayloadView::DataResponseChunk { request_id, chunk_id, data } => {
            assert(s.subrange(0, 9) =~= OBJ_PREFIX@);
            assert(scan_lit(s, 0, OBJ_PREFIX@) == Some(9int));
            let p1: int = 9 + t.len() as int;
            assert(s.subrange(9, p1) =~= t);
            assert(s[p1] == quote());
            assert(forall|k: int| 0 <= k < t.len() ==> plain_byte(#[trigger] t[k]));
            lemma_esc_plain(t);
            lemma_scan_esc(s, 9, t, Seq::empty());
            assert(Seq::empty() + t =~= t);
            assert(scan_jstr_loop(s, 9, Seq::empty()) == Some((t, p1 + 1)));
            assert(t != TAG_INIT_REQUEST@) by {
                if t.len() == TAG_INIT_REQUEST@.len() {
                    assert(t[2] != TAG_INIT_REQUEST@[2] || t.len() != TAG_INIT_REQUEST@.len());
                }
            }
            assert(t != TAG_INIT_RESPONSE@) by {
                if t.len() == TAG_INIT_RESPONSE@.len() {
                    assert(t[2] != TAG_INIT_RESPONSE@[2] || t.len() != TAG_INIT_RESPONSE@.len());
                }
            }
            assert(t != TAG_INIT_ERROR@) by {
                if t.len() == TAG_INIT_ERROR@.len() {
                    assert(t[2] != TAG_INIT_ERROR@[2] || t.len() != TAG_INIT_ERROR@.len());
                }
            }
            assert(t != TAG_CONNECT_REQUEST@) by {
                if t.len() == TAG_CONNECT_REQUEST@.len() {
                    assert(t[2] != TAG_CONNECT_REQUEST@[2] || t.len() != TAG_CONNECT_REQUEST@.len());
                }
            }
            assert(t != TAG_CONNECT_RESPONSE@) by {
                if t.len() == TAG_CONNECT_RESPONSE@.len() {
                    assert(t[2] != TAG_CONNECT_RESPONSE@[2] || t.len() != TAG_CONNECT_RESPONSE@.len());
                }
            }
            assert(t != TAG_DATA_REQUEST_CHUNK@) by {
                if t.len() == TAG_DATA_REQUEST_CHUNK@.len() {
                    assert(t[2] != TAG_DATA_REQUEST_CHUNK@[2] || t.len() != TAG_DATA_REQUEST_CHUNK@.len());
                }
            }
            lemma_fields_data_response_chunk(p);
            assert(spec_decode(s) == Some(p));
        },
        _ => {},
    }
}

#[verifier::rlimit(100)]
#[verifier::spinoff_prover]
proof fn lemma_fields_init_response(p: PayloadView)
    requires
        p is InitResponse,
    ensures
        dec_init_response(json_of(p), 10 + TAG_INIT_RESPONSE@.len() as int) == Some(p),
{
    let s = json_of(p);
    match p {
        PayloadView::InitResponse { success, message } => {
            let t = TAG_INIT_RESPONSE@;
            let v1 = bool_text(success);
            let v2 = opt_str_text(message);
            let f1: int = 10 + t.len() as int;
            let g1: int = f1 + K_SUCCESS@.len();
            let f2: int = g1 + v1.len();
            let g2: int = f2 + K_MESSAGE@.len();
            let e: int = g2 + v2.len();
            assert(s.subrange(f1, g1) =~= K_SUCCESS@);
            assert(scan_lit(s, f1, K_SUCCESS@) == Some(g1));
            assert(s.subrange(g1, g1 + v1.len() as int) =~= v1);
            lemma_scan_bool_of(s, g1, success);
            assert(scan_bool(s, g1) == Some((success, f2)));
            assert(s.subrange(f2, g2) =~= K_MESSAGE@);
            assert(scan_lit(s, f2, K_MESSAGE@) == Some(g2));
            assert(s.subrange(g2, g2 + v2.len() as int) =~= v2);
            lemma_scan_opt_string_of(s, g2, message);
            assert(scan_opt_string(s, g2) == Some((message, e)));
            assert(s[e] == rbrace());
            assert(e + 1 == s.len());
            assert(dec_init_response(s, f1) == Some(p));
        },
        _ => {},
    }
}

/// Decoding an encoded `InitResponse` message gives the message back.
#[verifier::rlimit(100)]
#[verifier::spinoff_prover]
pub proof fn lemma_decode_encode_init_response(p: PayloadView)
    requires
        p is InitResponse,
    ensures
        spec_decode(json_of(p)) == Some(p),
{
    let s = json_of(p);
    let t = TAG_INIT_RESPONSE@;
    match p {
        PayloadView::InitResponse { success, message } => {
            assert(s.subrange(0, 9) =~= OBJ_PREFIX@);
            assert(scan_lit(s, 0, OBJ_PREFIX@) == Some(9int));
            let p1: int = 9 + t.len() as int;
            assert(s.subrange(9, p1) =~= t);
            assert(s[p1] == quote());
            assert(forall|k: int| 0 <= k < t.len() ==> plain_byte(#[trigger] t[k]));
            lemma_esc_plain(t);
            lemma_scan_esc(s, 9, t, Seq::empty());
            assert(Seq::empty() + t =~= t);
            assert(scan_jstr_loop(s, 9, Seq::empty()) == Some((t, p1 + 1)));
            assert(t != TAG_INIT_REQUEST@) by {
                if t.len() == TAG_INIT_REQUEST@.len() {
                    assert(t[2] != TAG_INIT_REQUEST@[2] || t.len() != TAG_INIT_REQUEST@.len());
                }
            }
            lemma_fields_init_response(p);
            assert(spec_decode(s) == Some(p));
        },
        _ => {},
    }
}

#[verifier::rlimit(100)]
#[verifier::spinoff_prover]
proof fn lemma_fields_init_error(p: PayloadView)
    requires
        p is InitError,
    ensures
        dec_init_error(json_of(p), 10 + TAG_INIT_ERROR@.len() as int) == Some(p),
{
    let s = json_of(p);
    match p {
        PayloadView::InitError { error_message } => {
            let t = TAG_INIT_ERROR@;
            let v1 = jstr(error_message);
            let f1: int = 10 + t.len() as int;
            let g1: int = f1 + K_ERROR_MESSAGE@.len();
            let e: int = g1 + v1.len();
            assert(s.subrange(f1, g1) =~= K_ERROR_MESSAGE@);
            assert(scan_lit(s, f1, K_ERROR_MESSAGE@) == Some(g1));
            assert(s.subrange(g1, g1 + v1.len() as int) =~= v1);
            lemma_scan_string_value_of(s, g1, error_message);
            assert(scan_string_value(s, g1) == Some((error_message, e)));
            assert(s[e] == rbrace());
            assert(e + 1 == s.len());
            assert(dec_init_error(s, f1) == Some(p));
        },
        _ => {},
    }
}

/// Decoding an encoded `InitError` message gives the message back.
#[verifier::rlimit(100)]
#[verifier::spinoff_prover]
pub proof fn lemma_decode_encode_init_error(p: PayloadView)
    requires
        p is InitError,
    ensures
        spec_decode(json_of(p)) == Some(p),
{
    let s = json_of(p);
    let t = TAG_INIT_ERROR@;
    match p {
        PayloadView::InitError { error_message } => {
            assert(s.subrange(0, 9) =~= OBJ_PREFIX@);
            assert(scan_lit(s, 0, OBJ_PREFIX@) == Some(9int));
            let p1: int = 9 + t.len() as int;
            assert(s.subrange(9, p1) =~= t);
            assert(s[p1] == quote());
            assert(forall|k: int| 0 <= k < t.len() ==> plain_byte(#[trigger] t[k]));
            lemma_esc_plain(t);
            lemma_scan_esc(s, 9, t, Seq::empty());
            assert(Seq::empty() + t =~= t);
            assert(scan_jstr_loop(s, 9, Seq::empty()) == Some((t, p1 + 1)));
            assert(t != TAG_INIT_REQUEST@) by {
                if t.len() == TAG_INIT_REQUEST@.len() {
                    assert(t[2] != TAG_INIT_REQUEST@[2] || t.len() != TAG_INIT_REQUEST@.len());
                }
            }
            assert(t != TAG_INIT_RESPONSE@) by {
                if t.len() == TAG_INIT_RESPONSE@.len() {
                    assert(t[2] != TAG_INIT_RESPONSE@[2] || t.len() != TAG_INIT_RESPONSE@.len());
                }
            }
            lemma_fields_init_error(p);
            assert(spec_decode(s) == Some(p));
        },
        _ => {},
    }
}

#[verifier::rlimit(100)]
#[verifier::spinoff_prover]
proof fn lemma_fields_data_response_transfer_complete(p: PayloadView)
    requires
        p is DataResponseTransferComplete,
    ensures
        dec_data_response_transfer_complete(json_of(p), 10 + TAG_DATA_RESPONSE_COMPLETE@.len() as int) == Some(p),
{
    let s = json_of(p);
    match p {
        PayloadView::DataResponseTransferComplete { request_id, success, error_message } => {
            let t = TAG_DATA_RESPONSE_COMPLETE@;
            let v1 = jstr(request_id);
            let v2 = bool_text(success);
            let v3 = opt_str_text(error_message);
            let f1: int = 10 + t.len() as int;
            let g1: int = f1 + K_REQUEST_ID@.len();
            let f2: int = g1 + v1.len();
            let g2: int = f2 + K_SUCCESS@.len();
            let f3: int = g2 + v2.len();
            let g3: int = f3 + K_ERROR_MESSAGE@.len();
            let e: int = g3 + v3.len();
            assert(s.subrange(f1, g1) =~= K_REQUEST_ID@);
            assert(scan_lit(s, f1, K_REQUEST_ID@) == Some(g1));
            assert(s.subrange(g1, g1 + v1.len() as int) =~= v1);
            lemma_scan_string_value_of(s, g1, request_id);
            assert(scan_string_value(s, g1) == Some((request_id, f2)));
            assert(s.subrange(f2, g2) =~= K_SUCCESS@);
            assert(scan_lit(s, f2, K_SUCCESS@) == Some(g2));
            assert(s.subrange(g2, g2 + v2.len() as int) =~= v2);
            lemma_scan_bool_of(s, g2, success);
            assert(scan_bool(s, g2) == Some((success, f3)));
            assert(s.subrange(f3, g3) =~= K_ERROR_MESSAGE@);
            assert(scan_lit(s, f3, K_ERROR_MESSAGE@) == Some(g3));
            assert(s.subrange(g3, g3 + v3.len() as int) =~= v3);
            lemma_scan_opt_string_of(s, g3, error_message);
            assert(scan_opt_string(s, g3) == Some((error_message, e)));
            assert(s[e] == rbrace());
            assert(e + 1 == s.len());
            assert(dec_data_response_transfer_complete(s, f1) == Some(p));
        },
        _ => {},
    }
}

/// Decoding an encoded `DataResponseTransferComplete` message gives the message back.
#[verifier::rlimit(100)]
#[verifier::spinoff_prover]
pub proof fn lemma_decode_encode_data_response_transfer_complete(p: PayloadView)
    requires
        p is DataResponseTransferComplete,
    ensures
        spec_decode(json_of(p)) == Some(p),
{
    let s = json_of(p);
    let t = TAG_DATA_RESPONSE_COMPLETE@;
    match p {
        PayloadView::DataResponseTransferComplete { request_id, success, error_message } => {
            assert(s.subrange(0, 9) =~= OBJ_PREFIX@);
            assert(scan_lit(s, 0, OBJ_PREFIX@) == Some(9int));
            let p1: int = 9 + t.len() as int;
            assert(s.subrange(9, p1) =~= t);
            assert(s[p1] == quote());
            assert(forall|k: int| 0 <= k < t.len() ==> plain_byte(#[trigger] t[k]));
            lemma_esc_plain(t);
            lemma_scan_esc(s, 9, t, Seq::empty());
            assert(Seq::empty() + t =~= t);
            assert(scan_jstr_loop(s, 9, Seq::empty()) == Some((t, p1 + 1)));
            assert(t != TAG_INIT_REQUEST@) by {
                if t.len() == TAG_INIT_REQUEST@.len() {
                    assert(t[2] != TAG_INIT_REQUEST@[2] || t.len() != TAG_INIT_REQUEST@.len());
                }
            }
            assert(t != TAG_INIT_RESPONSE@) by {
                if t.len() == TAG_INIT_RESPONSE@.len() {
                    assert(t[2] != TAG_INIT_RESPONSE@[2] || t.len() != TAG_INIT_RESPONSE@.len());
                }
            }
            assert(t != TAG_INIT_ERROR@) by {
                if t.len() == TAG_INIT_ERROR@.len() {
                    assert(t[2] != TAG_INIT_ERROR@[2] || t.len() != TAG_INIT_ERROR@.len());
                }
            }
            assert(t != TAG_CONNECT_REQUEST@) by {
                if t.len() == TAG_CONNECT_REQUEST@.len() {
                    assert(t[2] != TAG_CONNECT_REQUEST@[2] || t.len() != TAG_CONNECT_REQUEST@.len());
                }
            }
            assert(t != TAG_CONNECT_RESPONSE@) by {
                if t.len() == TAG_CONNECT_RESPONSE@.len() {
                    assert(t[2] != TAG_CONNECT_RESPONSE@[2] || t.len() != TAG_CONNECT_RESPONSE@.len());
                }
            }
            assert(t != TAG_DATA_REQUEST_CHUNK@) by {
                if t.len() == TAG_DATA_REQUEST_CHUNK@.len() {
                    assert(t[2] != TAG_DATA_REQUEST_CHUNK@[2] || t.len() != TAG_DATA_REQUEST_CHUNK@.len());
                }
            }
            assert(t != TAG_DATA_RESPONSE_CHUNK@) by {
                if t.len() == TAG_DATA_RESPONSE_CHUNK@.len() {
                    assert(t[2] != TAG_DATA_RESPONSE_CHUNK@[2] || t.len() != TAG_DATA_RESPONSE_CHUNK@.len());
                }
            }
            lemma_fields_data_response_transfer_complete(p);
            assert(spec_decode(s) == Some(p));
        },
        _ => {},
    }
}

#[verifier::rlimit(100)]
#[verifier::spinoff_prover]
proof fn lemma_fields_data_request_transfer_complete(p: PayloadView)
    requires
        p is DataRequestTransferComplete,
    ensures
        dec_data_request_transfer_complete(json_of(p), 10 + TAG_DATA_REQUEST_COMPLETE@.len() as int) == Some(p),
{
    let s = json_of(p);
    match p {
        PayloadView::DataRequestTransferComplete { request_id, success, error_message } => {
            let t = TAG_DATA_REQUEST_COMPLETE@;
            let v1 = jstr(request_id);
            let v2 = bool_text(success);
            let v3 = opt_str_text(error_message);
            let f1: int = 10 + t.len() as int;
            let g1: int = f1 + K_REQUEST_ID@.len();
            let f2: int = g1 + v1.len();
            let g2: int = f2 + K_SUCCESS@.len();
            let f3: int = g2 + v2.len();
            let g3: int = f3 + K_ERROR_MESSAGE@.len();
            let e: int = g3 + v3.len();
            assert(s.subrange(f1, g1) =~= K_REQUEST_ID@);
            assert(scan_lit(s, f1, K_REQUEST_ID@) == Some(g1));
            assert(s.subrange(g1, g1 + v1.len() as int) =~= v1);
            lemma_scan_string_value_of(s, g1, request_id);
            assert(scan_string_value(s, g1) == Some((request_id, f2)));
            assert(s.subrange(f2, g2) =~= K_SUCCESS@);
            assert(scan_lit(s, f2, K_SUCCESS@) == Some(g2));
            assert(s.subrange(g2, g2 + v2.len() as int) =~= v2);
            lemma_scan_bool_of(s, g2, success);
            assert(scan_bool(s, g2) == Some((success, f3)));
            assert(s.subrange(f3, g3) =~= K_ERROR_MESSAGE@);
            assert(scan_lit(s, f3, K_ERROR_MESSAGE@) == Some(g3));
            assert(s.subrange(g3, g3 + v3.len() as int) =~= v3);
            lemma_scan_opt_string_of(s, g3, error_message);
            assert(scan_opt_string(s, g3) == Some((error_message, e)));
            assert(s[e] == rbrace());
            assert(e + 1 == s.len());
            assert(dec_data_request_transfer_complete(s, f1) == Some(p));
        },
        _ => {},
    }
}

/// Decoding an encoded `DataRequestTransferComplete` message gives the message back.
#[verifier::rlimit(100)]
#[verifier::spinoff_prover]
pub proof fn lemma_decode_encode_data_request_transfer_complete(p: PayloadView)
    requires
        p is DataRequestTransferComplete,
    ensures
        spec_decode(json_of(p)) == Some(p),
{
    let s = json_of(p);
    let t = TAG_DATA_REQUEST_COMPLETE@;
    match p {
        PayloadView::DataRequestTransferComplete { request_id, success, error_message } => {
            assert(s.subrange(0, 9) =~= OBJ_PREFIX@);
            assert(scan_lit(s, 0, OBJ_PREFIX@) == Some(9int));
            let p1: int = 9 + t.len() as int;
            assert(s.subrange(9, p1) =~= t);
            assert(s[p1] == quote());
            assert(forall|k: int| 0 <= k < t.len() ==> plain_byte(#[trigger] t[k]));
            lemma_esc_plain(t);
            lemma_scan_esc(s, 9, t, Seq::empty());
            assert(Seq::empty() + t =~= t);
            assert(scan_jstr_loop(s, 9, Seq::empty()) == Some((t, p1 + 1)));
            assert(t != TAG_INIT_REQUEST@) by {
                if t.len() == TAG_INIT_REQUEST@.len() {
                    assert(t[2] != TAG_INIT_REQUEST@[2] || t.len() != TAG_INIT_REQUEST@.len());
                }
            }
            assert(t != TAG_INIT_RESPONSE@) by {
                if t.len() == TAG_INIT_RESPONSE@.len() {
                    assert(t[2] != TAG_INIT_RESPONSE@[2] || t.len() != TAG_INIT_RESPONSE@.len());
                }
            }
            assert(t != TAG_INIT_ERROR@) by {
                if t.len() == TAG_INIT_ERROR@.len() {
                    assert(t[2] != TAG_INIT_ERROR@[2] || t.len() != TAG_INIT_ERROR@.len());
                }
            }
            assert(t != TAG_CONNECT_REQUEST@) by {
                if t.len() == TAG_CONNECT_REQUEST@.len() {
                    assert(t[2] != TAG_CONNECT_REQUEST@[2] || t.len() != TAG_CONNECT_REQUEST@.len());
                }
            }
            assert(t != TAG_CONNECT_RESPONSE@) by {
                if t.len() == TAG_CONNECT_RESPONSE@.len() {
                    assert(t[2] != TAG_CONNECT_RESPONSE@[2] || t.len() != TAG_CONNECT_RESPONSE@.len());
                }
            }
            assert(t != TAG_DATA_REQUEST_CHUNK@) by {
                if t.len() == TAG_DATA_REQUEST_CHUNK@.len() {
                    assert(t[2] != TAG_DATA_REQUEST_CHUNK@[2] || t.len() != TAG_DATA_REQUEST_CHUNK@.len());
                }
            }
            assert(t != TAG_DATA_RESPONSE_CHUNK@) by {
                if t.len() == TAG_DATA_RESPONSE_CHUNK@.len() {
                    assert(t[2] != TAG_DATA_RESPONSE_CHUNK@[2] || t.len() != TAG_DATA_RESPONSE_CHUNK@.len());
                }
            }
            assert(t != TAG_DATA_RESPONSE_COMPLETE@) by {
                if t.len() == TAG_DATA_RESPONSE_COMPLETE@.len() {
                    assert(t[2] != TAG_DATA_RESPONSE_COMPLETE@[2] || t.len() != TAG_DATA_RESPONSE_COMPLETE@.len());
                }
            }
            lemma_fields_data_request_transfer_complete(p);
            assert(spec_decode(s) == Some(p));
        },
        _ => {},
    }
}

#[verifier::rlimit(100)]
#[verifier::spinoff_prover]
proof fn lemma_fields_client_disconnect(p: PayloadView)
    requires
        p is ClientDisconnect,
    ensures
        dec_client_disconnect(json_of(p), 10 + TAG_CLIENT_DISCONNECT@.len() as int) == Some(p),
{
    let s = json_of(p);
    match p {
        PayloadView::ClientDisconnect { request_id } => {
            let t = TAG_CLIENT_DISCONNECT@;
            let v1 = jstr(request_id);
            let f1: int = 10 + t.len() as int;
            let g1: int = f1 + K_REQUEST_ID@.len();
            let e: int = g1 + v1.len();
            assert(s.subrange(f1, g1) =~= K_REQUEST_ID@);
            assert(scan_lit(s, f1, K_REQUEST_ID@) == Some(g1));
            assert(s.subrange(g1, g1 + v1.len() as int) =~= v1);
            lemma_scan_string_value_of(s, g1, request_id);
            assert(scan_string_value(s, g1) == Some((request_id, e)));
            assert(s[e] == rbrace());
            assert(e + 1 == s.len());
            assert(dec_client_disconnect(s, f1) == Some(p));
        },
        _ => {},
    }
}

/// Decoding an encoded `ClientDisconnect` message gives the message back.
#[verifier::rlimit(100)]
#[verifier::spinoff_prover]
pub proof fn lemma_decode_encode_client_disconnect(p: PayloadView)
    requires
        p is ClientDisconnect,
    ensures
        spec_decode(json_of(p)) == Some(p),
{
    let s = json_of(p);
    let t = TAG_CLIENT_DISCONNECT@;
    match p {
        PayloadView::ClientDisconnect { request_id } => {
            assert(s.subrange(0, 9) =~= OBJ_PREFIX@);
            assert(scan_lit(s, 0, OBJ_PREFIX@) == Some(9int));
            let p1: int = 9 + t.len() as int;
            assert(s.subrange(9, p1) =~= t);
            assert(s[p1] == quote());
            assert(forall|k: int| 0 <= k < t.len() ==> plain_byte(#[trigger] t[k]));
            lemma_esc_plain(t);
            lemma_scan_esc(s, 9, t, Seq::empty());
            assert(Seq::empty() + t =~= t);
            assert(scan_jstr_loop(s, 9, Seq::empty()) == Some((t, p1 + 1)));
            assert(t != TAG_INIT_REQUEST@) by {
                if t.len() == TAG_INIT_REQUEST@.len() {
                    assert(t[2] != TAG_INIT_REQUEST@[2] || t.len() != TAG_INIT_REQUEST@.len());
                }
            }
            assert(t != TAG_INIT_RESPONSE@) by {
                if t.len() == TAG_INIT_RESPONSE@.len() {
                    assert(t[2] != TAG_INIT_RESPONSE@[2] || t.len() != TAG_INIT_RESPONSE@.len());
                }
            }
            assert(t != TAG_INIT_ERROR@) by {
                if t.len() == TAG_INIT_ERROR@.len() {
                    assert(t[2] != TAG_INIT_ERROR@[2] || t.len() != TAG_INIT_ERROR@.len());
                }
            }
            assert(t != TAG_CONNECT_REQUEST@) by {
                if t.len() == TAG_CONNECT_REQUEST@.len() {
                    assert(t[2] != TAG_CONNECT_REQUEST@[2] || t.len() != TAG_CONNECT_REQUEST@.len());
                }
            }
            assert(t != TAG_CONNECT_RESPONSE@) by {
                if t.len() == TAG_CONNECT_RESPONSE@.len() {
                    assert(t[2] != TAG_CONNECT_RESPONSE@[2] || t.len() != TAG_CONNECT_RESPONSE@.len());
                }
            }
            assert(t != TAG_DATA_REQUEST_CHUNK@) by {
                if t.len() == TAG_DATA_REQUEST_CHUNK@.len() {
                    assert(t[2] != TAG_DATA_REQUEST_CHUNK@[2] || t.len() != TAG_DATA_REQUEST_CHUNK@.len());
                }
            }
            assert(t != TAG_DATA_RESPONSE_CHUNK@) by {
                if t.len() == TAG_DATA_RESPONSE_CHUNK@.len() {
                    assert(t[2] != TAG_DATA_RESPONSE_CHUNK@[2] || t.len() != TAG_DATA_RESPONSE_CHUNK@.len());
                }
            }
            assert(t != TAG_DATA_RESPONSE_COMPLETE@) by {
                if t.len() == TAG_DATA_RESPONSE_COMPLETE@.len() {
                    assert(t[2] != TAG_DATA_RESPONSE_COMPLETE@[2] || t.len() != TAG_DATA_RESPONSE_COMPLETE@.len());
                }
            }
            assert(t != TAG_DATA_REQUEST_COMPLETE@) by {
                if t.len() == TAG_DATA_REQUEST_COMPLETE@.len() {
                    assert(t[2] != TAG_DATA_REQUEST_COMPLETE@[2] || t.len() != TAG_DATA_REQUEST_COMPLETE@.len());
                }
            }
            lemma_fields_client_disconnect(p);
            assert(spec_decode(s) == Some(p));
        },
        _ => {},
    }
}

#[verifier::rlimit(100)]
#[verifier::spinoff_prover]
proof fn lemma_fields_command_request(p: PayloadView)
    requires
        p is CommandRequest,
    ensures
        dec_command_request(json_of(p), 10 + TAG_COMMAND_REQUEST@.len() as int) == Some(p),
{
    let s = json_of(p);
    match p {
        PayloadView::CommandRequest { request_id, command } => {
            let t = TAG_COMMAND_REQUEST@;
            let v1 = jstr(request_id);
            let v2 = jstr(command);
            let f1: int = 10 + t.len() as int;
            let g1: int = f1 + K_REQUEST_ID@.len();
            let f2: int = g1 + v1.len();
            let g2: int = f2 + K_COMMAND@.len();
            let e: int = g2 + v2.len();
            assert(s.subrange(f1, g1) =~= K_REQUEST_ID@);
            assert(scan_lit(s, f1, K_REQUEST_ID@) == Some(g1));
            assert(s.subrange(g1, g1 + v1.len() as int) =~= v1);
            lemma_scan_string_value_of(s, g1, request_id);
            assert(scan_string_value(s, g1) == Some((request_id, f2)));
            assert(s.subrange(f2, g2) =~= K_COMMAND@);
            assert(scan_lit(s, f2, K_COMMAND@) == Some(g2));
            assert(s.subrange(g2, g2 + v2.len() as int) =~= v2);
            lemma_scan_string_value_of(s, g2, command);
            assert(scan_string_value(s, g2) == Some((command, e)));
            assert(s[e] == rbrace());
            assert(e + 1 == s.len());
            assert(dec_command_request(s, f1) == Some(p));
        },
        _ => {},
    }
}

/// Decoding an encoded `CommandRequest` message gives the message back.
#[verifier::rlimit(100)]
#[verifier::spinoff_prover]
pub proof fn lemma_decode_encode_command_request(p: PayloadView)
    requires
        p is CommandRequest,
    ensures
        spec_decode(json_of(p)) == Some(p),
{
    let s = json_of(p);
    let t = TAG_COMMAND_REQUEST@;
    match p {
        PayloadView::CommandRequest { request_id, command } => {
            assert(s.subrange(0, 9) =~= OBJ_PREFIX@);
            assert(scan_lit(s, 0, OBJ_PREFIX@) == Some(9int));
            let p1: int = 9 + t.len() as int;
            assert(s.subrange(9, p1) =~= t);
            assert(s[p1] == quote());
            assert(forall|k: int| 0 <= k < t.len() ==> plain_byte(#[trigger] t[k]));
            lemma_esc_plain(t);
            lemma_scan_esc(s, 9, t, Seq::empty());
            assert(Seq::empty() + t =~= t);
            assert(scan_jstr_loop(s, 9, Seq::empty()) == Some((t, p1 + 1)));
            assert(t != TAG_INIT_REQUEST@) by {
                if t.len() == TAG_INIT_REQUEST@.len() {
                    assert(t[2] != TAG_INIT_REQUEST@[2] || t.len() != TAG_INIT_REQUEST@.len());
                }
            }
            assert(t != TAG_INIT_RESPONSE@) by {
                if t.len() == TAG_INIT_RESPONSE@.len() {
                    assert(t[2] != TAG_INIT_RESPONSE@[2] || t.len() != TAG_INIT_RESPONSE@.len());
                }
            }
            assert(t != TAG_INIT_ERROR@) by {
                if t.len() == TAG_INIT_ERROR@.len() {
                    assert(t[2] != TAG_INIT_ERROR@[2] || t.len() != TAG_INIT_ERROR@.len());
                }
            }
            assert(t != TAG_CONNECT_REQUEST@) by {
                if t.len() == TAG_CONNECT_REQUEST@.len() {
                    assert(t[2] != TAG_CONNECT_REQUEST@[2] || t.len() != TAG_CONNECT_REQUEST@.len());
                }
            }
            assert(t != TAG_CONNECT_RESPONSE@) by {
                if t.len() == TAG_CONNECT_RESPONSE@.len() {
                    assert(t[2] != TAG_CONNECT_RESPONSE@[2] || t.len() != TAG_CONNECT_RESPONSE@.len());
                }
            }
            assert(t != TAG_DATA_REQUEST_CHUNK@) by {
                if t.len() == TAG_DATA_REQUEST_CHUNK@.len() {
                    assert(t[2] != TAG_DATA_REQUEST_CHUNK@[2] || t.len() != TAG_DATA_REQUEST_CHUNK@.len());
                }
            }
            assert(t != TAG_DATA_RESPONSE_CHUNK@) by {
                if t.len() == TAG_DATA_RESPONSE_CHUNK@.len() {
                    assert(t[2] != TAG_DATA_RESPONSE_CHUNK@[2] || t.len() != TAG_DATA_RESPONSE_CHUNK@.len());
                }
            }
            assert(t != TAG_DATA_RESPONSE_COMPLETE@) by {
                if t.len() == TAG_DATA_RESPONSE_COMPLETE@.len() {
                    assert(t[2] != TAG_DATA_RESPONSE_COMPLETE@[2] || t.len() != TAG_DATA_RESPONSE_COMPLETE@.len());
                }
            }
            assert(t != TAG_DATA_REQUEST_COMPLETE@) by {
                if t.len() == TAG_DATA_REQUEST_COMPLETE@.len() {
                    assert(t[2] != TAG_DATA_REQUEST_COMPLETE@[2] || t.len() != TAG_DATA_REQUEST_COMPLETE@.len());
                }
            }
            assert(t != TAG_CLIENT_DISCONNECT@) by {
                if t.len() == TAG_CLIENT_DISCONNECT@.len() {
                    assert(t[2] != TAG_CLIENT_DISCONNECT@[2] || t.len() != TAG_CLIENT_DISCONNECT@.len());
                }
            }
            lemma_fields_command_request(p);
            assert(spec_decode(s) == Some(p));
        },
        _ => {},
    }
}

#[verifier::rlimit(100)]
#[verifier::spinoff_prover]
proof fn lemma_fields_command_response_chunk(p: PayloadView)
    requires
        p is CommandResponseChunk,
    ensures
        dec_command_response_chunk(json_of(p), 10 + TAG_COMMAND_RESPONSE_CHUNK@.len() as int) == Some(p),
{
    let s = json_of(p);
    match p {
        PayloadView::CommandResponseChunk { request_id, chunk_id, stream_type, data } => {
            let t = TAG_COMMAND_RESPONSE_CHUNK@;
            let v1 = jstr(request_id);
            let v2 = dec_of(chunk_id as nat);
            let v3 = dec_of(stream_type as nat);
            let v4 = jstr(data);
            let f1: int = 10 + t.len() as int;
            let g1: int = f1 + K_REQUEST_ID@.len();
            let f2: int = g1 + v1.len();
            let g2: int = f2 + K_CHUNK_ID@.len();
            let f3: int = g2 + v2.len();
            let g3: int = f3 + K_STREAM_TYPE@.len();
            let f4: int = g3 + v3.len();
            let g4: int = f4 + K_DATA@.len();
            let e: int = g4 + v4.len();
            assert(s.subrange(f1, g1) =~= K_REQUEST_ID@);
            assert(scan_lit(s, f1, K_REQUEST_ID@) == Some(g1));
            assert(s.subrange(g1, g1 + v1.len() as int) =~= v1);
            lemma_scan_string_value_of(s, g1, request_id);
            assert(scan_string_value(s, g1) == Some((request_id, f2)));
            assert(s.subrange(f2, g2) =~= K_CHUNK_ID@);
            assert(scan_lit(s, f2, K_CHUNK_ID@) == Some(g2));
            assert(s.subrange(g2, g2 + v2.len() as int) =~= v2);
            assert(!is_digit(s[g2 + v2.len() as int])) by {
                assert(s[g2 + v2.len() as int] == s.subrange(f3, g3)[0]);
            }
            lemma_scan_dec_of(s, g2, chunk_id as nat, 0xffff_ffff);
            assert(scan_dec(s, g2, 0xffff_ffff) == Some((chunk_id as nat, f3)));
            assert(s.subrange(f3, g3) =~= K_STREAM_TYPE@);
            assert(scan_lit(s, f3, K_STREAM_TYPE@) == Some(g3));
            assert(s.subrange(g3, g3 + v3.len() as int) =~= v3);
            assert(!is_digit(s[g3 + v3.len() as int])) by {
                assert(s[g3 + v3.len() as int] == s.subrange(f4, g4)[0]);
            }
            lemma_scan_dec_of(s, g3, stream_type as nat, 0xff);
            assert(scan_dec(s, g3, 0xff) == Some((stream_type as nat, f4)));
            assert(s.subrange(f4, g4) =~= K_DATA@);
            assert(scan_lit(s, f4, K_DATA@) == Some(g4));
            assert(s.subrange(g4, g4 + v4.len() as int) =~= v4);
            lemma_scan_string_value_of(s, g4, data);
            assert(scan_string_value(s, g4) == Some((data, e)));
            assert(s[e] == rbrace());
            assert(e + 1 == s.len());
            assert(dec_command_response_chunk(s, f1) == Some(p));
        },
        _ => {},
    }
}

/// Decoding an encoded `CommandResponseChunk` message gives the message back.
#[verifier::rlimit(100)]
#[verifier::spinoff_prover]
pub proof fn lemma_decode_encode_command_response_chunk(p: PayloadView)
    requires
        p is CommandResponseChunk,
    ensures
        spec_decode(json_of(p)) == Some(p),
{
    let s = json_of(p);
    let t = TAG_COMMAND_RESPONSE_CHUNK@;
    match p {
        PayloadView::CommandResponseChunk { request_id, chunk_id, stream_type, data } => {
            assert(s.subrange(0, 9) =~= OBJ_PREFIX@);
            assert(scan_lit(s, 0, OBJ_PREFIX@) == Some(9int));
            let p1: int = 9 + t.len() as int;
            assert(s.subrange(9, p1) =~= t);
            assert(s[p1] == quote());
            assert(forall|k: int| 0 <= k < t.len() ==> plain_byte(#[trigger] t[k]));
            lemma_esc_plain(t);
            lemma_scan_esc(s, 9, t, Seq::empty());
            assert(Seq::empty() + t =~= t);
            assert(scan_jstr_loop(s, 9, Seq::empty()) == Some((t, p1 + 1)));
            assert(t != TAG_INIT_REQUEST@) by {
                if t.len() == TAG_INIT_REQUEST@.len() {
                    assert(t[2] != TAG_INIT_REQUEST@[2] || t.len() != TAG_INIT_REQUEST@.len());
                }
            }
            assert(t != TAG_INIT_RESPONSE@) by {
                if t.len() == TAG_INIT_RESPONSE@.len() {
                    assert(t[2] != TAG_INIT_RESPONSE@[2] || t.len() != TAG_INIT_RESPONSE@.len());
                }
            }
            assert(t != TAG_INIT_ERROR@) by {
                if t.len() == TAG_INIT_ERROR@.len() {
                    assert(t[2] != TAG_INIT_ERROR@[2] || t.len() != TAG_INIT_ERROR@.len());
                }
            }
            assert(t != TAG_CONNECT_REQUEST@) by {
                if t.len() == TAG_CONNECT_REQUEST@.len() {
                    assert(t[2] != TAG_CONNECT_REQUEST@[2] || t.len() != TAG_CONNECT_REQUEST@.len());
                }
            }
            assert(t != TAG_CONNECT_RESPONSE@) by {
                if t.len() == TAG_CONNECT_RESPONSE@.len() {
                    assert(t[2] != TAG_CONNECT_RESPONSE@[2] || t.len() != TAG_CONNECT_RESPONSE@.len());
                }
            }
            assert(t != TAG_DATA_REQUEST_CHUNK@) by {
                if t.len() == TAG_DATA_REQUEST_CHUNK@.len() {
                    assert(t[2] != TAG_DATA_REQUEST_CHUNK@[2] || t.len() != TAG_DATA_REQUEST_CHUNK@.len());
                }
            }
            assert(t != TAG_DATA_RESPONSE_CHUNK@) by {
                if t.len() == TAG_DATA_RESPONSE_CHUNK@.len() {
                    assert(t[2] != TAG_DATA_RESPONSE_CHUNK@[2] || t.len() != TAG_DATA_RESPONSE_CHUNK@.len());
                }
            }
            assert(t != TAG_DATA_RESPONSE_COMPLETE@) by {
                if t.len() == TAG_DATA_RESPONSE_COMPLETE@.len() {
                    assert(t[2] != TAG_DATA_RESPONSE_COMPLETE@[2] || t.len() != TAG_DATA_RESPONSE_COMPLETE@.len());
                }
            }
            assert(t != TAG_DATA_REQUEST_COMPLETE@) by {
                if t.len() == TAG_DATA_REQUEST_COMPLETE@.len() {
                    assert(t[2] != TAG_DATA_REQUEST_COMPLETE@[2] || t.len() != TAG_DATA_REQUEST_COMPLETE@.len());
                }
            }
            assert(t != TAG_CLIENT_DISCONNECT@) by {
                if t.len() == TAG_CLIENT_DISCONNECT@.len() {
                    assert(t[2] != TAG_CLIENT_DISCONNECT@[2] || t.len() != TAG_CLIENT_DISCONNECT@.len());
                }
            }
            assert(t != TAG_COMMAND_REQUEST@) by {
                if t.len() == TAG_COMMAND_REQUEST@.len() {
                    assert(t[2] != TAG_COMMAND_REQUEST@[2] || t.len() != TAG_COMMAND_REQUEST@.len());
                }
            }
            lemma_fields_command_response_chunk(p);
            assert(spec_decode(s) == Some(p));
        },
        _ => {},
    }
}

#[verifier::rlimit(100)]
#[verifier::spinoff_prover]
proof fn lemma_fields_command_response_transfer_complete(p: PayloadView)
    requires
        p is CommandResponseTransferComplete,
    ensures
        dec_command_response_transfer_complete(json_of(p), 10 + TAG_COMMAND_RESPONSE_COMPLETE@.len() as int) == Some(p),
{
    let s = json_of(p);
    match p {
        PayloadView::CommandResponseTransferComplete { request_id, success, exit_code, error_message } => {
            let t = TAG_COMMAND_RESPONSE_COMPLETE@;
            let v1 = jstr(request_id);
            let v2 = bool_text(success);
            let v3 = opt_i32_text(exit_code);
            let v4 = opt_str_text(error_message);
            let f1: int = 10 + t.len() as int;
            let g1: int = f1 + K_REQUEST_ID@.len();
            let f2: int = g1 + v1.len();
            let g2: int = f2 + K_SUCCESS@.len();
            let f3: int = g2 + v2.len();
            let g3: int = f3 + K_EXIT_CODE@.len();
            let f4: int = g3 + v3.len();
            let g4: int = f4 + K_ERROR_MESSAGE@.len();
            let e: int = g4 + v4.len();
            assert(s.subrange(f1, g1) =~= K_REQUEST_ID@);
            assert(scan_lit(s, f1, K_REQUEST_ID@) == Some(g1));
            assert(s.subrange(g1, g1 + v1.len() as int) =~= v1);
            lemma_scan_string_value_of(s, g1, request_id);
            assert(scan_string_value(s, g1) == Some((request_id, f2)));
            assert(s.subrange(f2, g2) =~= K_SUCCESS@);
            assert(scan_lit(s, f2, K_SUCCESS@) == Some(g2));
            assert(s.subrange(g2, g2 + v2.len() as int) =~= v2);
            lemma_scan_bool_of(s, g2, success);
            assert(scan_bool(s, g2) == Some((success, f3)));
            assert(s.subrange(f3, g3) =~= K_EXIT_CODE@);
            assert(scan_lit(s, f3, K_EXIT_CODE@) == Some(g3));
            assert(s.subrange(g3, g3 + v3.len() as int) =~= v3);
            assert(!is_digit(s[g3 + v3.len() as int])) by {
                assert(s[g3 + v3.len() as int] == s.subrange(f4, g4)[0]);
            }
            lemma_scan_opt_i32_of(s, g3, exit_code);
            assert(scan_opt_i32(s, g3) == Some((exit_code, f4)));
            assert(s.subrange(f4, g4) =~= K_ERROR_MESSAGE@);
            assert(scan_lit(s, f4, K_ERROR_MESSAGE@) == Some(g4));
            assert(s.subrange(g4, g4 + v4.len() as int) =~= v4);
            lemma_scan_opt_string_of(s, g4, error_message);
            assert(scan_opt_string(s, g4) == Some((error_message, e)));
            assert(s[e] == rbrace());
            assert(e + 1 == s.len());
            assert(dec_command_response_transfer_complete(s, f1) == Some(p));
        },
        _ => {},
    }
}

/// Decoding an encoded `CommandResponseTransferComplete` message gives the message back.
#[verifier::rlimit(100)]
#[verifier::spinoff_prover]
pub proof fn lemma_decode_encode_command_response_transfer_complete(p: PayloadView)
    requires
        p is CommandResponseTransferComplete,
    ensures
        spec_decode(json_of(p)) == Some(p),
{
    let s = json_of(p);
    let t = TAG_COMMAND_RESPONSE_COMPLETE@;
    match p {
        PayloadView::CommandResponseTransferComplete { request_id, success, exit_code, error_message } => {
            assert(s.subrange(0, 9) =~= OBJ_PREFIX@);
            assert(scan_lit(s, 0, OBJ_PREFIX@) == Some(9int));
            let p1: int = 9 + t.len() as int;
            assert(s.subrange(9, p1) =~= t);
            assert(s[p1] == quote());
            assert(forall|k: int| 0 <= k < t.len() ==> plain_byte(#[trigger] t[k]));
            lemma_esc_plain(t);
            lemma_scan_esc(s, 9, t, Seq::empty());
            assert(Seq::empty() + t =~= t);
            assert(scan_jstr_loop(s, 9, Seq::empty()) == Some((t, p1 + 1)));
            assert(t != TAG_INIT_REQUEST@) by {
                if t.len() == TAG_INIT_REQUEST@.len() {
                    assert(t[2] != TAG_INIT_REQUEST@[2] || t.len() != TAG_INIT_REQUEST@.len());
                }
            }
            assert(t != TAG_INIT_RESPONSE@) by {
                if t.len() == TAG_INIT_RESPONSE@.len() {
                    assert(t[2] != TAG_INIT_RESPONSE@[2] || t.len() != TAG_INIT_RESPONSE@.len());
                }
            }
            assert(t != TAG_INIT_ERROR@) by {
                if t.len() == TAG_INIT_ERROR@.len() {
                    assert(t[2] != TAG_INIT_ERROR@[2] || t.len() != TAG_INIT_ERROR@.len());
                }
            }
            assert(t != TAG_CONNECT_REQUEST@) by {
                if t.len() == TAG_CONNECT_REQUEST@.len() {
                    assert(t[2] != TAG_CONNECT_REQUEST@[2] || t.len() != TAG_CONNECT_REQUEST@.len());
                }
            }
            assert(t != TAG_CONNECT_RESPONSE@) by {
                if t.len() == TAG_CONNECT_RESPONSE@.len() {
                    assert(t[2] != TAG_CONNECT_RESPONSE@[2] || t.len() != TAG_CONNECT_RESPONSE@.len());
                }
            }
            assert(t != TAG_DATA_REQUEST_CHUNK@) by {
                if t.len() == TAG_DATA_REQUEST_CHUNK@.len() {
                    assert(t[2] != TAG_DATA_REQUEST_CHUNK@[2] || t.len() != TAG_DATA_REQUEST_CHUNK@.len());
                }
            }
            assert(t != TAG_DATA_RESPONSE_CHUNK@) by {
                if t.len() == TAG_DATA_RESPONSE_CHUNK@.len() {
                    assert(t[2] != TAG_DATA_RESPONSE_CHUNK@[2] || t.len() != TAG_DATA_RESPONSE_CHUNK@.len());
                }
            }
            assert(t != TAG_DATA_RESPONSE_COMPLETE@) by {
                if t.len() == TAG_DATA_RESPONSE_COMPLETE@.len() {
                    assert(t[2] != TAG_DATA_RESPONSE_COMPLETE@[2] || t.len() != TAG_DATA_RESPONSE_COMPLETE@.len());
                }
            }
            assert(t != TAG_DATA_REQUEST_COMPLETE@) by {
                if t.len() == TAG_DATA_REQUEST_COMPLETE@.len() {
                    assert(t[2] != TAG_DATA_REQUEST_COMPLETE@[2] || t.len() != TAG_DATA_REQUEST_COMPLETE@.len());
                }
            }
            assert(t != TAG_CLIENT_DISCONNECT@) by {
                if t.len() == TAG_CLIENT_DISCONNECT@.len() {
                    assert(t[2] != TAG_CLIENT_DISCONNECT@[2] || t.len() != TAG_CLIENT_DISCONNECT@.len());
                }
            }
            assert(t != TAG_COMMAND_REQUEST@) by {
                if t.len() == TAG_COMMAND_REQUEST@.len() {
                    assert(t[2] != TAG_COMMAND_REQUEST@[2] || t.len() != TAG_COMMAND_REQUEST@.len());
                }
            }
            assert(t != TAG_COMMAND_RESPONSE_CHUNK@) by {
                if t.len() == TAG_COMMAND_RESPONSE_CHUNK@.len() {
                    assert(t[2] != TAG_COMMAND_RESPONSE_CHUNK@[2] || t.len() != TAG_COMMAND_RESPONSE_CHUNK@.len());
                }
            }
            lemma_fields_command_response_transfer_complete(p);
            assert(spec_decode(s) == Some(p));
        },
        _ => {},
    }
}

} // verus!
