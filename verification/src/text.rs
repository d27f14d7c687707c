//! Decimal digit formatting and scanning over byte strings.
//!
//! These are the shared building blocks for the wire codec (numeric JSON
//! fields), the SOCKS5 address formatting, and the SSE exit-code lines.
use vstd::prelude::*;
use vstd::utf8::{valid_utf8, decode_utf8, encode_utf8};

verus! {

pub open spec fn is_digit(b: u8) -> bool {
    0x30 <= b && b <= 0x39
}

/// The decimal representation of `n`, most significant digit first.
pub open spec fn dec_of(n: nat) -> Seq<u8>
    decreases n,
{
    if n < 10 {
        seq![(0x30 + n) as u8]
    } else {
        dec_of(n / 10).push((0x30 + n % 10) as u8)
    }
}

pub proof fn lemma_dec_of_digits(n: nat)
    ensures
        dec_of(n).len() >= 1,
        forall|k: int| 0 <= k < dec_of(n).len() ==> is_digit(#[trigger] dec_of(n)[k]),
    decreases n,
{
    if n >= 10 {
        lemma_dec_of_digits(n / 10);
    }
}

/// Formats `n` in decimal.
pub fn u64_to_dec(n: u64) -> (r: Vec<u8>)
    ensures
        r@ == dec_of(n as nat),
    decreases n,
{
    if n < 10 {
        let mut v: Vec<u8> = Vec::new();
        v.push((0x30 + n) as u8);
        v
    } else {
        let mut v = u64_to_dec(n / 10);
        v.push((0x30 + n % 10) as u8);
        v
    }
}

/// Value accumulated by reading the digit bytes `ds` after having read `acc`.
pub open spec fn digits_val(ds: Seq<u8>, acc: nat) -> nat
    decreases ds.len(),
{
    if ds.len() == 0 {
        acc
    } else {
        digits_val(ds.drop_first(), acc * 10 + (ds[0] - 0x30) as nat)
    }
}

/// Scans digits from position `i` until a non-digit or the end, accumulating
/// onto `acc`; fails as soon as the value would exceed `max`.
pub open spec fn scan_dec_loop(s: Seq<u8>, i: int, acc: nat, max: nat) -> Option<(nat, int)>
    decreases s.len() - i when 0 <= i <= s.len()
{
    if i == s.len() {
        Some((acc, i))
    } else if is_digit(s[i]) {
        let d = (s[i] - 0x30) as nat;
        if acc * 10 + d > max {
            None
        } else {
            scan_dec_loop(s, i + 1, acc * 10 + d, max)
        }
    } else {
        Some((acc, i))
    }
}

/// Scans a decimal number starting exactly at `i`: at least one digit,
/// value at most `max`.
pub open spec fn scan_dec(s: Seq<u8>, i: int, max: nat) -> Option<(nat, int)> {
    if 0 <= i < s.len() && is_digit(s[i]) {
        scan_dec_loop(s, i, 0, max)
    } else {
        None
    }
}

proof fn lemma_digits_val_lower(ds: Seq<u8>, acc: nat)
    ensures
        digits_val(ds, acc) >= acc,
    decreases ds.len(),
{
    if ds.len() > 0 {
        lemma_digits_val_lower(ds.drop_first(), acc * 10 + (ds[0] - 0x30) as nat);
    }
}

proof fn lemma_digits_val_push(ds: Seq<u8>, d: u8, acc: nat)
    ensures
        digits_val(ds.push(d), acc) == digits_val(ds, acc) * 10 + (d - 0x30) as nat,
    decreases ds.len(),
{
    if ds.len() == 0 {
        assert(ds.push(d).len() == 1 && ds.push(d)[0] == d);
        assert(ds.push(d).drop_first() =~= Seq::<u8>::empty());
        assert(digits_val(Seq::<u8>::empty(), acc * 10 + (d - 0x30) as nat)
            == acc * 10 + (d - 0x30) as nat);
        assert(digits_val(ds.push(d), acc) == acc * 10 + (d - 0x30) as nat);
    } else {
        assert(ds.push(d)[0] == ds[0]);
        assert(ds.push(d).drop_first() =~= ds.drop_first().push(d));
        lemma_digits_val_push(ds.drop_first(), d, acc * 10 + (ds[0] - 0x30) as nat);
    }
}

pub proof fn lemma_dec_of_val(n: nat)
    ensures
        digits_val(dec_of(n), 0) == n,
    decreases n,
{
    lemma_dec_of_val_acc(n, 0);
}

proof fn lemma_dec_of_val_acc(n: nat, acc: nat)
    ensures
        digits_val(dec_of(n), acc) == acc * vstd::arithmetic::power::pow(10, dec_of(n).len() as nat) + n,
    decreases n,
{
    vstd::arithmetic::power::lemma_pow1(10);
    if n < 10 {
        let ds = dec_of(n);
        assert(ds.len() == 1 && ds[0] == (0x30 + n) as u8);
        assert(ds.drop_first() =~= Seq::<u8>::empty());
        assert(digits_val(Seq::<u8>::empty(), acc * 10 + n) == acc * 10 + n);
        assert(digits_val(ds, acc) == acc * 10 + n);
    } else {
        let pre = dec_of(n / 10);
        let d = (0x30 + n % 10) as u8;
        lemma_digits_val_push(pre, d, acc);
        lemma_dec_of_val_acc(n / 10, acc);
        let p = vstd::arithmetic::power::pow(10, pre.len() as nat);
        vstd::arithmetic::power::lemma_pow_adds(10, pre.len() as nat, 1);
        assert(vstd::arithmetic::power::pow(10, (pre.len() + 1) as nat) == p * 10);
        assert(digits_val(dec_of(n), acc) == (acc * p + n / 10) * 10 + n % 10);
        assert((acc * p + n / 10) * 10 == acc * p * 10 + (n / 10) * 10) by (nonlinear_arith);
        assert((n / 10) * 10 + n % 10 == n) by (nonlinear_arith);
        assert(acc * p * 10 == acc * (p * 10)) by (nonlinear_arith);
    }
}

/// Scanning the decimal form of `n` (followed by a non-digit or the end)
/// yields exactly `n`.
pub proof fn lemma_scan_dec_of(s: Seq<u8>, i: int, n: nat, max: nat)
    requires
        0 <= i,
        i + dec_of(n).len() <= s.len(),
        s.subrange(i, i + dec_of(n).len() as int) =~= dec_of(n),
        i + dec_of(n).len() == s.len() || !is_digit(s[i + dec_of(n).len()]),
        n <= max,
    ensures
        scan_dec(s, i, max) == Some((n, i + dec_of(n).len() as int)),
{
    lemma_dec_of_digits(n);
    lemma_dec_of_val(n);
    assert(is_digit(s[i]));
    lemma_scan_dec_loop(s, i, dec_of(n), 0, max);
}

proof fn lemma_scan_dec_loop(s: Seq<u8>, i: int, ds: Seq<u8>, acc: nat, max: nat)
    requires
        0 <= i,
        i + ds.len() <= s.len(),
        s.subrange(i, i + ds.len() as int) =~= ds,
        forall|k: int| 0 <= k < ds.len() ==> is_digit(#[trigger] ds[k]),
        i + ds.len() == s.len() || !is_digit(s[i + ds.len()]),
        digits_val(ds, acc) <= max,
    ensures
        scan_dec_loop(s, i, acc, max) == Some((digits_val(ds, acc), i + ds.len() as int)),
    decreases ds.len(),
{
    if ds.len() == 0 {
    } else {
        assert(s[i] == ds[0]);
        let d = (s[i] - 0x30) as nat;
        lemma_digits_val_lower(ds.drop_first(), acc * 10 + d);
        assert(acc * 10 + d <= max);
        assert(s.subrange(i + 1, i + ds.len() as int) =~= ds.drop_first());
        lemma_scan_dec_loop(s, i + 1, ds.drop_first(), acc * 10 + d, max);
    }
}

/// Scans a decimal number as `scan_dec` does.
pub fn parse_dec(s: &[u8], i: usize, max: u64) -> (r: Option<(u64, usize)>)
    requires
        i <= s@.len(),
    ensures
        r is Some <==> scan_dec(s@, i as int, max as nat) is Some,
        r matches Some((v, j)) ==> scan_dec(s@, i as int, max as nat) == Some((v as nat, j as int))
            && i < j <= s@.len() && v <= max,
{
    if i == s.len() || !(0x30 <= s[i] && s[i] <= 0x39) {
        return None;
    }
    let r = parse_dec_loop(s, i, 0, max);
    proof {
        let d = (s@[i as int] - 0x30) as nat;
        if d <= max {
            lemma_scan_dec_loop_lower(s@, i as int + 1, d, max as nat);
        }
    }
    r
}

proof fn lemma_scan_dec_loop_lower(s: Seq<u8>, i: int, acc: nat, max: nat)
    requires
        0 <= i <= s.len(),
    ensures
        scan_dec_loop(s, i, acc, max) matches Some((v, j)) ==> i <= j <= s.len() && v >= acc,
    decreases s.len() - i,
{
    if i < s.len() && is_digit(s[i]) {
        let d = (s[i] - 0x30) as nat;
        if acc * 10 + d <= max {
            lemma_scan_dec_loop_lower(s, i + 1, acc * 10 + d, max);
        }
    }
}

fn parse_dec_loop(s: &[u8], i: usize, acc: u64, max: u64) -> (r: Option<(u64, usize)>)
    requires
        i <= s@.len(),
        acc <= max,
    ensures
        r is Some <==> scan_dec_loop(s@, i as int, acc as nat, max as nat) is Some,
        r matches Some((v, j)) ==> scan_dec_loop(s@, i as int, acc as nat, max as nat)
            == Some((v as nat, j as int)) && i <= j <= s@.len() && v <= max,
    decreases s@.len() - i,
{
    if i == s.len() {
        return Some((acc, i));
    }
    let b = s[i];
    if !(0x30 <= b && b <= 0x39) {
        return Some((acc, i));
    }
    let d = (b - 0x30) as u64;
    if d > max || acc > (max - d) / 10 {
        proof {
            assert(acc * 10 + d > max) by (nonlinear_arith)
                requires
                    d <= max && acc > (max - d) / 10 || d > max,
                    acc >= 0,
            ;
        }
        return None;
    }
    proof {
        assert(acc * 10 + d <= max) by (nonlinear_arith)
            requires
                d <= max,
                acc <= (max - d) / 10,
                acc >= 0,
        ;
    }
    parse_dec_loop(s, i + 1, acc * 10 + d, max)
}


/// Relies on `String::from_utf8`: it succeeds exactly on valid UTF-8 and
/// returns the string of the decoded characters.
#[verifier::external_body]
pub(crate) fn try_string_from_bytes(v: Vec<u8>) -> (r: Option<String>)
    ensures
        r is Some <==> valid_utf8(v@),
        r matches Some(s) ==> s@ == decode_utf8(v@),
{
    match String::from_utf8(v) {
        Ok(s) => Some(s),
        Err(_) => None,
    }
}

/// Builds the string of a byte sequence already known to be valid UTF-8.
pub(crate) fn string_from_valid_bytes(v: Vec<u8>) -> (r: String)
    requires
        valid_utf8(v@),
    ensures
        r@ == decode_utf8(v@),
{
    match try_string_from_bytes(v) {
        Some(s) => s,
        None => vstd::pervasive::unreached(),
    }
}


/// Every byte is ASCII.
pub open spec fn all_ascii(bs: Seq<u8>) -> bool {
    forall|k: int| 0 <= k < bs.len() ==> #[trigger] bs[k] < 0x80
}

pub proof fn lemma_all_ascii_concat(a: Seq<u8>, b: Seq<u8>)
    requires
        all_ascii(a),
        all_ascii(b),
    ensures
        all_ascii(a + b),
{
    assert forall|k: int| 0 <= k < (a + b).len() implies #[trigger] (a + b)[k] < 0x80 by {
        if k < a.len() {
            assert((a + b)[k] == a[k]);
        } else {
            assert((a + b)[k] == b[k - a.len()]);
        }
    }
}

pub proof fn lemma_dec_of_ascii(n: nat)
    ensures
        all_ascii(dec_of(n)),
{
    lemma_dec_of_digits(n);
}

/// The characters of an ASCII byte string, one per byte.
pub open spec fn ascii_chars(bs: Seq<u8>) -> Seq<char> {
    Seq::new(bs.len(), |i: int| bs[i] as char)
}

/// Builds the string of an ASCII byte string; its characters are the bytes.
pub fn ascii_string_from_bytes(v: Vec<u8>) -> (r: String)
    requires
        all_ascii(v@),
    ensures
        r@ == ascii_chars(v@),
        encode_utf8(r@) == v@,
{
    let ghost v0 = v@;
    proof {
        let cs = ascii_chars(v0);
        assert(vstd::utf8::is_ascii_chars(cs)) by {
            assert forall|i: int| 0 <= i < cs.len() implies '\0' <= #[trigger] cs[i]
                <= '\u{7f}' by {
                assert(v0[i] < 0x80);
            }
        }
        vstd::utf8::is_ascii_chars_encode_utf8(cs);
        assert(encode_utf8(cs) =~= v0);
        vstd::utf8::encode_utf8_valid_utf8(cs);
        vstd::utf8::encode_utf8_decode_utf8(cs);
    }
    string_from_valid_bytes(v)
}

} // verus!
