//! Textual IPv4 and IPv6 addresses: parsing and formatting.
//!
//! IPv4 addresses are modelled as four octets, IPv6 addresses as eight
//! 16-bit groups. The parsers accept the usual dotted-quad and
//! colon-separated-hex forms (with one optional `::` compression); the
//! formatters emit a canonical form that the parsers provably accept.
use vstd::prelude::*;
use crate::text::{dec_of, is_digit, scan_dec, lemma_scan_dec_of, lemma_dec_of_digits, u64_to_dec, parse_dec};

verus! {

pub open spec fn dot() -> u8 {
    0x2e
}

pub open spec fn colon() -> u8 {
    0x3a
}

// ---------------------------------------------------------------------------
// Hexadecimal groups
// ---------------------------------------------------------------------------

pub open spec fn is_hex_digit(b: u8) -> bool {
    is_digit(b) || (0x61 <= b && b <= 0x66) || (0x41 <= b && b <= 0x46)
}

pub open spec fn hex_val(b: u8) -> nat {
    if is_digit(b) {
        (b - 0x30) as nat
    } else if 0x61 <= b && b <= 0x66 {
        (b - 0x61 + 10) as nat
    } else {
        (b - 0x41 + 10) as nat
    }
}

/// Lowercase hex digit for a value below 16.
pub open spec fn hex_digit(d: nat) -> u8 {
    if d < 10 {
        (0x30 + d) as u8
    } else {
        (0x61 + d - 10) as u8
    }
}

/// Minimal lowercase hexadecimal representation of `n`.
pub open spec fn hex_of(n: nat) -> Seq<u8>
    decreases n,
{
    if n < 16 {
        seq![hex_digit(n)]
    } else {
        hex_of(n / 16).push(hex_digit(n % 16))
    }
}

pub proof fn lemma_hex_of_digits(n: nat)
    ensures
        hex_of(n).len() >= 1,
        forall|k: int| 0 <= k < hex_of(n).len() ==> is_hex_digit(#[trigger] hex_of(n)[k]),
    decreases n,
{
    if n >= 16 {
        lemma_hex_of_digits(n / 16);
    }
}

pub proof fn lemma_hex_of_len(n: nat, k: nat)
    requires
        n < vstd::arithmetic::power::pow(16, k),
        k >= 1,
    ensures
        hex_of(n).len() <= k,
    decreases n,
{
    vstd::arithmetic::power::lemma_pow1(16);
    if n >= 16 {
        assert(vstd::arithmetic::power::pow(16, k) == 16 * vstd::arithmetic::power::pow(
            16,
            (k - 1) as nat,
        )) by {
            vstd::arithmetic::power::lemma_pow_adds(16, 1, (k - 1) as nat);
        }
        assert(n / 16 < vstd::arithmetic::power::pow(16, (k - 1) as nat)) by (nonlinear_arith)
            requires
                n < 16 * vstd::arithmetic::power::pow(16, (k - 1) as nat),
                n >= 16,
        ;
        lemma_hex_of_len(n / 16, (k - 1) as nat);
    }
}

/// Value accumulated by reading the hex digit bytes `ds` after `acc`.
pub open spec fn hexs_val(ds: Seq<u8>, acc: nat) -> nat
    decreases ds.len(),
{
    if ds.len() == 0 {
        acc
    } else {
        hexs_val(ds.drop_first(), acc * 16 + hex_val(ds[0]))
    }
}

proof fn lemma_pow16_4()
    ensures
        vstd::arithmetic::power::pow(16, 0) == 1,
        vstd::arithmetic::power::pow(16, 1) == 16,
        vstd::arithmetic::power::pow(16, 4) == 0x10000,
{
    vstd::arithmetic::power::lemma_pow0(16);
    vstd::arithmetic::power::lemma_pow1(16);
    vstd::arithmetic::power::lemma_pow_adds(16, 1, 1);
    assert(vstd::arithmetic::power::pow(16, 2) == 256);
    vstd::arithmetic::power::lemma_pow_adds(16, 2, 2);
}

proof fn lemma_hexs_val_push(ds: Seq<u8>, d: u8, acc: nat)
    ensures
        hexs_val(ds.push(d), acc) == hexs_val(ds, acc) * 16 + hex_val(d),
    decreases ds.len(),
{
    if ds.len() == 0 {
        assert(ds.push(d).len() == 1 && ds.push(d)[0] == d);
        assert(ds.push(d).drop_first() =~= Seq::<u8>::empty());
        assert(hexs_val(Seq::<u8>::empty(), acc * 16 + hex_val(d)) == acc * 16 + hex_val(d));
    } else {
        assert(ds.push(d)[0] == ds[0]);
        assert(ds.push(d).drop_first() =~= ds.drop_first().push(d));
        lemma_hexs_val_push(ds.drop_first(), d, acc * 16 + hex_val(ds[0]));
    }
}

pub proof fn lemma_hex_of_val(n: nat)
    ensures
        hexs_val(hex_of(n), 0) == n,
    decreases n,
{
    lemma_hex_of_val_acc(n, 0);
}

proof fn lemma_hex_of_val_acc(n: nat, acc: nat)
    ensures
        hexs_val(hex_of(n), acc) == acc * vstd::arithmetic::power::pow(16, hex_of(n).len() as nat)
            + n,
    decreases n,
{
    vstd::arithmetic::power::lemma_pow1(16);
    if n < 16 {
        let ds = hex_of(n);
        assert(ds.len() == 1 && ds[0] == hex_digit(n));
        assert(hex_val(hex_digit(n)) == n);
        assert(ds.drop_first() =~= Seq::<u8>::empty());
        assert(hexs_val(Seq::<u8>::empty(), acc * 16 + n) == acc * 16 + n);
        assert(hexs_val(ds, acc) == acc * 16 + n);
    } else {
        let pre = hex_of(n / 16);
        let d = hex_digit(n % 16);
        assert(hex_val(d) == n % 16);
        lemma_hexs_val_push(pre, d, acc);
        lemma_hex_of_val_acc(n / 16, acc);
        let p = vstd::arithmetic::power::pow(16, pre.len() as nat);
        vstd::arithmetic::power::lemma_pow_adds(16, pre.len() as nat, 1);
        assert(vstd::arithmetic::power::pow(16, (pre.len() + 1) as nat) == p * 16);
        assert(hexs_val(hex_of(n), acc) == (acc * p + n / 16) * 16 + n % 16);
        assert((acc * p + n / 16) * 16 == acc * p * 16 + (n / 16) * 16) by (nonlinear_arith);
        assert((n / 16) * 16 + n % 16 == n) by (nonlinear_arith);
        assert(acc * p * 16 == acc * (p * 16)) by (nonlinear_arith);
    }
}

/// Scans up to four hex digits, accumulating onto `acc`; fails on a fifth.
pub open spec fn scan_hex_loop(s: Seq<u8>, i: int, acc: nat, cnt: nat) -> Option<(nat, int)>
    decreases s.len() - i when 0 <= i <= s.len()
{
    if i == s.len() || !is_hex_digit(s[i]) {
        Some((acc, i))
    } else if cnt >= 4 {
        None
    } else {
        scan_hex_loop(s, i + 1, acc * 16 + hex_val(s[i]), cnt + 1)
    }
}

/// Scans a group of one to four hex digits starting exactly at `i`.
pub open spec fn scan_hex16(s: Seq<u8>, i: int) -> Option<(nat, int)> {
    if 0 <= i < s.len() && is_hex_digit(s[i]) {
        scan_hex_loop(s, i, 0, 0)
    } else {
        None
    }
}

pub proof fn lemma_scan_hex_loop_bounds(s: Seq<u8>, i: int, acc: nat, cnt: nat)
    requires
        0 <= i <= s.len(),
        acc < vstd::arithmetic::power::pow(16, cnt),
        cnt <= 4,
    ensures
        scan_hex_loop(s, i, acc, cnt) matches Some((v, j)) ==> i <= j <= s.len() && v < 0x10000,
    decreases s.len() - i,
{
    lemma_pow16_4();
    if i == s.len() || !is_hex_digit(s[i]) {
        assert(vstd::arithmetic::power::pow(16, cnt) <= 0x10000) by {
            vstd::arithmetic::power::lemma_pow_increases(16, cnt, 4);
            lemma_pow16_4();
        }
    } else if cnt < 4 {
        let acc2 = acc * 16 + hex_val(s[i]);
        assert(acc2 < vstd::arithmetic::power::pow(16, (cnt + 1) as nat)) by {
            vstd::arithmetic::power::lemma_pow_adds(16, cnt, 1);
            assert(acc * 16 + 16 <= vstd::arithmetic::power::pow(16, cnt) * 16)
                by (nonlinear_arith)
                requires
                    acc < vstd::arithmetic::power::pow(16, cnt),
            ;
        }
        lemma_scan_hex_loop_bounds(s, i + 1, acc2, (cnt + 1) as nat);
    }
}

proof fn lemma_scan_hex_loop_run(s: Seq<u8>, i: int, ds: Seq<u8>, acc: nat, cnt: nat)
    requires
        0 <= i,
        i + ds.len() <= s.len(),
        s.subrange(i, i + ds.len() as int) =~= ds,
        forall|k: int| 0 <= k < ds.len() ==> is_hex_digit(#[trigger] ds[k]),
        i + ds.len() == s.len() || !is_hex_digit(s[i + ds.len()]),
        cnt + ds.len() <= 4,
    ensures
        scan_hex_loop(s, i, acc, cnt) == Some((hexs_val(ds, acc), i + ds.len() as int)),
    decreases ds.len(),
{
    if ds.len() > 0 {
        assert(s[i] == ds[0]);
        assert(s.subrange(i + 1, i + ds.len() as int) =~= ds.drop_first());
        lemma_scan_hex_loop_run(s, i + 1, ds.drop_first(), acc * 16 + hex_val(ds[0]), cnt + 1);
    }
}

/// Scanning the hex form of `n` (`n` a 16-bit value, followed by a
/// non-hex-digit or the end) yields exactly `n`.
pub proof fn lemma_scan_hex_of(s: Seq<u8>, i: int, n: nat)
    requires
        0 <= i,
        n < 0x10000,
        i + hex_of(n).len() <= s.len(),
        s.subrange(i, i + hex_of(n).len() as int) =~= hex_of(n),
        i + hex_of(n).len() == s.len() || !is_hex_digit(s[i + hex_of(n).len()]),
    ensures
        scan_hex16(s, i) == Some((n, i + hex_of(n).len() as int)),
{
    lemma_hex_of_digits(n);
    lemma_hex_of_val(n);
    assert(n < vstd::arithmetic::power::pow(16, 4)) by {
        lemma_pow16_4();
    }
    lemma_hex_of_len(n, 4);
    assert(is_hex_digit(s[i]));
    lemma_scan_hex_loop_run(s, i, hex_of(n), 0, 0);
}

/// Formats `n` in minimal lowercase hex.
pub fn u16_to_hex(n: u16) -> (r: Vec<u8>)
    ensures
        r@ == hex_of(n as nat),
    decreases n,
{
    if n < 16 {
        let mut v: Vec<u8> = Vec::new();
        let d: u8 = if n < 10 {
            (0x30 + n) as u8
        } else {
            (0x61 + n - 10) as u8
        };
        v.push(d);
        v
    } else {
        let mut v = u16_to_hex(n / 16);
        let m = n % 16;
        let d: u8 = if m < 10 {
            (0x30 + m) as u8
        } else {
            (0x61 + m - 10) as u8
        };
        v.push(d);
        v
    }
}

/// Scans a group of one to four hex digits as `scan_hex16` does.
pub fn parse_hex16(s: &[u8], i: usize) -> (r: Option<(u16, usize)>)
    requires
        i <= s@.len(),
    ensures
        r is Some <==> scan_hex16(s@, i as int) is Some,
        r matches Some((v, j)) ==> scan_hex16(s@, i as int) == Some((v as nat, j as int))
            && i < j <= s@.len(),
{
    if i == s.len() {
        return None;
    }
    if !hex_digit_exec(s[i]) {
        return None;
    }
    proof {
        lemma_pow16_4();
    }
    let r = parse_hex_loop(s, i, 0, 0);
    proof {
        lemma_scan_hex_loop_bounds(s@, i as int, 0, 0);
        if scan_hex_loop(s@, i as int, 0, 0) is Some {
            lemma_scan_hex_loop_step(s@, i as int);
        }
    }
    r
}

proof fn lemma_scan_hex_loop_step(s: Seq<u8>, i: int)
    requires
        0 <= i < s.len(),
        is_hex_digit(s[i]),
        scan_hex_loop(s, i, 0, 0) is Some,
    ensures
        scan_hex_loop(s, i, 0, 0) matches Some((v, j)) ==> j > i,
{
    let acc2 = hex_val(s[i]);
    lemma_pow16_4();
    lemma_scan_hex_loop_bounds(s, i + 1, acc2, 1);
}

fn hex_digit_exec(b: u8) -> (r: bool)
    ensures
        r == is_hex_digit(b),
{
    (0x30 <= b && b <= 0x39) || (0x61 <= b && b <= 0x66) || (0x41 <= b && b <= 0x46)
}

fn parse_hex_loop(s: &[u8], i: usize, acc: u32, cnt: u8) -> (r: Option<(u16, usize)>)
    requires
        i <= s@.len(),
        cnt <= 4,
        acc < vstd::arithmetic::power::pow(16, cnt as nat),
    ensures
        r is Some <==> scan_hex_loop(s@, i as int, acc as nat, cnt as nat) is Some,
        r matches Some((v, j)) ==> scan_hex_loop(s@, i as int, acc as nat, cnt as nat)
            == Some((v as nat, j as int)) && i <= j <= s@.len(),
    decreases s@.len() - i,
{
    proof {
        vstd::arithmetic::power::lemma_pow1(16);
        vstd::arithmetic::power::lemma_pow_increases(16, cnt as nat, 4);
        lemma_pow16_4();
    }
    if i == s.len() || !hex_digit_exec(s[i]) {
        return Some(((acc as u16), i));
    }
    if cnt >= 4 {
        return None;
    }
    let b = s[i];
    let d: u32 = if 0x30 <= b && b <= 0x39 {
        (b - 0x30) as u32
    } else if 0x61 <= b && b <= 0x66 {
        (b - 0x61 + 10) as u32
    } else {
        (b - 0x41 + 10) as u32
    };
    let acc2 = acc * 16 + d;
    proof {
        assert(acc2 < vstd::arithmetic::power::pow(16, (cnt + 1) as nat)) by {
            vstd::arithmetic::power::lemma_pow_adds(16, cnt as nat, 1);
            assert(acc as nat * 16 + 16 <= vstd::arithmetic::power::pow(16, cnt as nat) * 16)
                by (nonlinear_arith)
                requires
                    (acc as nat) < vstd::arithmetic::power::pow(16, cnt as nat),
            ;
        }
    }
    parse_hex_loop(s, i + 1, acc2, cnt + 1)
}

// ---------------------------------------------------------------------------
// IPv4
// ---------------------------------------------------------------------------

/// Scans a dotted-quad octet: a decimal number up to 255 with no leading zero.
pub open spec fn scan_octet(s: Seq<u8>, i: int) -> Option<(nat, int)> {
    if 0 <= i < s.len() && s[i] == 0x30 && i + 1 < s.len() && is_digit(s[i + 1]) {
        None
    } else {
        scan_dec(s, i, 255)
    }
}

/// Scans `a.b.c.d` starting at `i`.
pub open spec fn scan_ipv4(s: Seq<u8>, i: int) -> Option<((u8, u8, u8, u8), int)> {
    match scan_octet(s, i) {
        None => None,
        Some((a, j1)) => if j1 < s.len() && s[j1] == dot() {
            match scan_octet(s, j1 + 1) {
                None => None,
                Some((b, j2)) => if j2 < s.len() && s[j2] == dot() {
                    match scan_octet(s, j2 + 1) {
                        None => None,
                        Some((c, j3)) => if j3 < s.len() && s[j3] == dot() {
                            match scan_octet(s, j3 + 1) {
                                None => None,
                                Some((d, j4)) => Some(
                                    ((a as u8, b as u8, c as u8, d as u8), j4),
                                ),
                            }
                        } else {
                            None
                        },
                    }
                } else {
                    None
                },
            }
        } else {
            None
        },
    }
}

/// A whole byte string as an IPv4 address.
pub open spec fn spec_parse_ipv4(s: Seq<u8>) -> Option<(u8, u8, u8, u8)> {
    match scan_ipv4(s, 0) {
        Some((q, j)) => if j == s.len() {
            Some(q)
        } else {
            None
        },
        None => None,
    }
}

fn parse_octet(s: &[u8], i: usize) -> (r: Option<(u8, usize)>)
    requires
        i <= s@.len(),
    ensures
        r is Some <==> scan_octet(s@, i as int) is Some,
        r matches Some((v, j)) ==> scan_octet(s@, i as int) == Some((v as nat, j as int))
            && i < j <= s@.len(),
{
    if i < s.len() && s[i] == 0x30 && i + 1 < s.len() && 0x30 <= s[i + 1] && s[i + 1] <= 0x39 {
        return None;
    }
    match parse_dec(s, i, 255) {
        Some((v, j)) => Some((v as u8, j)),
        None => None,
    }
}

/// Parses a whole byte string as a dotted-quad IPv4 address.
pub fn parse_ipv4(s: &[u8]) -> (r: Option<(u8, u8, u8, u8)>)
    ensures
        r == spec_parse_ipv4(s@),
{
    let (a, j1) = match parse_octet(s, 0) {
        Some(x) => x,
        None => { return None; },
    };
    if !(j1 < s.len() && s[j1] == 0x2e) {
        return None;
    }
    let (b, j2) = match parse_octet(s, j1 + 1) {
        Some(x) => x,
        None => { return None; },
    };
    if !(j2 < s.len() && s[j2] == 0x2e) {
        return None;
    }
    let (c, j3) = match parse_octet(s, j2 + 1) {
        Some(x) => x,
        None => { return None; },
    };
    if !(j3 < s.len() && s[j3] == 0x2e) {
        return None;
    }
    let (d, j4) = match parse_octet(s, j3 + 1) {
        Some(x) => x,
        None => { return None; },
    };
    if j4 != s.len() {
        return None;
    }
    Some((a, b, c, d))
}

/// Canonical dotted-quad text of an IPv4 address.
pub open spec fn ipv4_text(q: (u8, u8, u8, u8)) -> Seq<u8> {
    dec_of(q.0 as nat) + seq![dot()] + dec_of(q.1 as nat) + seq![dot()] + dec_of(q.2 as nat)
        + seq![dot()] + dec_of(q.3 as nat)
}

/// Formats an IPv4 address as dotted-quad text.
pub fn ipv4_to_text(a: u8, b: u8, c: u8, d: u8) -> (r: Vec<u8>)
    ensures
        r@ == ipv4_text((a, b, c, d)),
{
    let mut v = u64_to_dec(a as u64);
    v.push(0x2e);
    let mut vb = u64_to_dec(b as u64);
    v.append(&mut vb);
    v.push(0x2e);
    let mut vc = u64_to_dec(c as u64);
    v.append(&mut vc);
    v.push(0x2e);
    let mut vd = u64_to_dec(d as u64);
    v.append(&mut vd);
    proof {
        assert(v@ =~= ipv4_text((a, b, c, d)));
    }
    v
}

proof fn lemma_dec_of_first_nonzero(n: nat)
    requires
        n >= 1,
    ensures
        dec_of(n)[0] != 0x30,
    decreases n,
{
    if n >= 10 {
        lemma_dec_of_first_nonzero(n / 10);
    }
}

proof fn lemma_scan_octet_text(s: Seq<u8>, i: int, n: nat)
    requires
        0 <= i,
        n <= 255,
        i + dec_of(n).len() <= s.len(),
        s.subrange(i, i + dec_of(n).len() as int) =~= dec_of(n),
        i + dec_of(n).len() == s.len() || !is_digit(s[i + dec_of(n).len()]),
    ensures
        scan_octet(s, i) == Some((n, i + dec_of(n).len() as int)),
{
    lemma_dec_of_digits(n);
    lemma_scan_dec_of(s, i, n, 255);
    if n == 0 {
        assert(dec_of(0).len() == 1);
        assert(i + 1 == s.len() || !is_digit(s[i + 1]));
    } else {
        lemma_dec_of_first_nonzero(n);
        assert(s[i] == dec_of(n)[0]);
    }
}

/// The canonical IPv4 text parses back to the same four octets.
pub proof fn lemma_parse_ipv4_text(q: (u8, u8, u8, u8))
    ensures
        spec_parse_ipv4(ipv4_text(q)) == Some(q),
{
    let s = ipv4_text(q);
    let la = dec_of(q.0 as nat).len() as int;
    let lb = dec_of(q.1 as nat).len() as int;
    let lc = dec_of(q.2 as nat).len() as int;
    let ld = dec_of(q.3 as nat).len() as int;
    let p1 = la;
    let p2 = la + 1 + lb;
    let p3 = la + 1 + lb + 1 + lc;
    lemma_dec_of_digits(q.0 as nat);
    lemma_dec_of_digits(q.1 as nat);
    lemma_dec_of_digits(q.2 as nat);
    lemma_dec_of_digits(q.3 as nat);
    assert(s.subrange(0, p1) =~= dec_of(q.0 as nat));
    assert(s[p1] == dot());
    assert(s.subrange(p1 + 1, p2) =~= dec_of(q.1 as nat));
    assert(s[p2] == dot());
    assert(s.subrange(p2 + 1, p3) =~= dec_of(q.2 as nat));
    assert(s[p3] == dot());
    assert(s.subrange(p3 + 1, s.len() as int) =~= dec_of(q.3 as nat));
    lemma_scan_octet_text(s, 0, q.0 as nat);
    lemma_scan_octet_text(s, p1 + 1, q.1 as nat);
    lemma_scan_octet_text(s, p2 + 1, q.2 as nat);
    lemma_scan_octet_text(s, p3 + 1, q.3 as nat);
}

// ---------------------------------------------------------------------------
// IPv6
// ---------------------------------------------------------------------------

/// Scans the groups before any `::`, starting at a position where a group
/// must begin. Returns the groups read, the position after them, and whether
/// a `::` was consumed.
pub open spec fn scan_head(s: Seq<u8>, i: int, head: Seq<u16>) -> Option<(Seq<u16>, int, bool)>
    decreases s.len() - i when 0 <= i <= s.len()
{
    match scan_hex16(s, i) {
        None => None,
        Some((g, j)) => {
            let head2 = head.push(g as u16);
            if j == s.len() {
                Some((head2, j, false))
            } else if s[j] == colon() {
                if j + 1 < s.len() && s[j + 1] == colon() {
                    Some((head2, j + 2, true))
                } else if j + 1 < s.len() && i < j {
                    scan_head(s, j + 1, head2)
                } else {
                    None
                }
            } else {
                None
            }
        },
    }
}

/// Scans the groups after a `::`, starting at a position where a group must
/// begin.
pub open spec fn scan_tail(s: Seq<u8>, i: int, tail: Seq<u16>) -> Option<(Seq<u16>, int)>
    decreases s.len() - i when 0 <= i <= s.len()
{
    match scan_hex16(s, i) {
        None => None,
        Some((g, j)) => {
            let tail2 = tail.push(g as u16);
            if j == s.len() {
                Some((tail2, j))
            } else if s[j] == colon() {
                if j + 1 < s.len() && s[j + 1] == colon() {
                    None
                } else if j + 1 < s.len() && i < j {
                    scan_tail(s, j + 1, tail2)
                } else {
                    None
                }
            } else {
                None
            }
        },
    }
}

/// The eight groups denoted by `head :: tail`.
pub open spec fn pad_groups(head: Seq<u16>, tail: Seq<u16>) -> Seq<u16> {
    head + Seq::new((8 - head.len() - tail.len()) as nat, |k: int| 0u16) + tail
}

/// A whole byte string as an IPv6 address (eight 16-bit groups).
pub open spec fn spec_parse_ipv6(s: Seq<u8>) -> Option<Seq<u16>> {
    if s.len() >= 2 && s[0] == colon() && s[1] == colon() {
        if s.len() == 2 {
            Some(pad_groups(Seq::empty(), Seq::empty()))
        } else {
            match scan_tail(s, 2, Seq::empty()) {
                Some((t, j)) => if j == s.len() && t.len() <= 7 {
                    Some(pad_groups(Seq::empty(), t))
                } else {
                    None
                },
                None => None,
            }
        }
    } else {
        match scan_head(s, 0, Seq::empty()) {
            None => None,
            Some((h, j, false)) => if h.len() == 8 && j == s.len() {
                Some(h)
            } else {
                None
            },
            Some((h, j, true)) => if j == s.len() {
                if h.len() <= 7 {
                    Some(pad_groups(h, Seq::empty()))
                } else {
                    None
                }
            } else {
                match scan_tail(s, j, Seq::empty()) {
                    Some((t, j2)) => if j2 == s.len() && h.len() + t.len() <= 7 {
                        Some(pad_groups(h, t))
                    } else {
                        None
                    },
                    None => None,
                }
            },
        }
    }
}

fn parse_head(s: &[u8], i: usize, head: Vec<u16>) -> (r: Option<(Vec<u16>, usize, bool)>)
    requires
        i <= s@.len(),
    ensures
        r is Some <==> scan_head(s@, i as int, head@) is Some,
        r matches Some((h, j, dc)) ==> scan_head(s@, i as int, head@)
            == Some((h@, j as int, dc)) && j <= s@.len(),
    decreases s@.len() - i,
{
    let (g, j) = match parse_hex16(s, i) {
        Some(x) => x,
        None => { return None; },
    };
    let mut head2 = head;
    head2.push(g);
    if j == s.len() {
        return Some((head2, j, false));
    }
    if s[j] == 0x3a {
        if j + 1 < s.len() && s[j + 1] == 0x3a {
            Some((head2, j + 2, true))
        } else if j + 1 < s.len() {
            parse_head(s, j + 1, head2)
        } else {
            None
        }
    } else {
        None
    }
}

fn parse_tail(s: &[u8], i: usize, tail: Vec<u16>) -> (r: Option<(Vec<u16>, usize)>)
    requires
        i <= s@.len(),
    ensures
        r is Some <==> scan_tail(s@, i as int, tail@) is Some,
        r matches Some((t, j)) ==> scan_tail(s@, i as int, tail@) == Some((t@, j as int))
            && j <= s@.len(),
    decreases s@.len() - i,
{
    let (g, j) = match parse_hex16(s, i) {
        Some(x) => x,
        None => { return None; },
    };
    let mut tail2 = tail;
    tail2.push(g);
    if j == s.len() {
        return Some((tail2, j));
    }
    if s[j] == 0x3a {
        if j + 1 < s.len() && s[j + 1] == 0x3a {
            None
        } else if j + 1 < s.len() {
            parse_tail(s, j + 1, tail2)
        } else {
            None
        }
    } else {
        None
    }
}

fn pad_exec(head: Vec<u16>, tail: Vec<u16>) -> (r: Vec<u16>)
    requires
        head@.len() + tail@.len() <= 8,
    ensures
        r@ == pad_groups(head@, tail@),
        r@.len() == 8,
{
    let ghost h0 = head@;
    let ghost t0 = tail@;
    let mut v = head;
    let mut zeros: usize = 8 - v.len() - tail.len();
    let ghost total = zeros as nat;
    let mut k: usize = 0;
    while k < zeros
        invariant
            0 <= k <= zeros,
            zeros as nat == total,
            v@ =~= h0 + Seq::new(k as nat, |x: int| 0u16),
        decreases zeros - k,
    {
        v.push(0u16);
        proof {
            assert(v@ =~= h0 + Seq::new((k + 1) as nat, |x: int| 0u16));
        }
        k += 1;
    }
    let mut t = tail;
    v.append(&mut t);
    proof {
        assert(v@ =~= pad_groups(h0, t0));
    }
    v
}

/// Parses a whole byte string as a colon-separated IPv6 address.
pub fn parse_ipv6(s: &[u8]) -> (r: Option<Vec<u16>>)
    ensures
        r is Some <==> spec_parse_ipv6(s@) is Some,
        r matches Some(v) ==> spec_parse_ipv6(s@) == Some(v@) && v@.len() == 8,
{
    if s.len() >= 2 && s[0] == 0x3a && s[1] == 0x3a {
        if s.len() == 2 {
            let r = pad_exec(Vec::new(), Vec::new());
            return Some(r);
        }
        let (t, j) = match parse_tail(s, 2, Vec::new()) {
            Some(x) => x,
            None => { return None; },
        };
        if j == s.len() && t.len() <= 7 {
            let r = pad_exec(Vec::new(), t);
            Some(r)
        } else {
            None
        }
    } else {
        let (h, j, dc) = match parse_head(s, 0, Vec::new()) {
            Some(x) => x,
            None => { return None; },
        };
        if !dc {
            if h.len() == 8 && j == s.len() {
                proof {
                    assert(spec_parse_ipv6(s@) == Some(h@));
                }
                Some(h)
            } else {
                None
            }
        } else if j == s.len() {
            if h.len() <= 7 {
                let r = pad_exec(h, Vec::new());
                Some(r)
            } else {
                None
            }
        } else {
            let hlen = h.len();
            let (t, j2) = match parse_tail(s, j, Vec::new()) {
                Some(x) => x,
                None => { return None; },
            };
            if j2 == s.len() && hlen <= 7 && t.len() <= 7 - hlen {
                let r = pad_exec(h, t);
                Some(r)
            } else {
                None
            }
        }
    }
}

/// Canonical text of eight groups: minimal lowercase hex joined by colons,
/// with no `::` compression.
pub open spec fn ipv6_text(g: Seq<u16>) -> Seq<u8>
    decreases g.len(),
{
    if g.len() == 0 {
        Seq::empty()
    } else if g.len() == 1 {
        hex_of(g[0] as nat)
    } else {
        ipv6_text(g.drop_last()) + seq![colon()] + hex_of(g.last() as nat)
    }
}

/// Formats eight 16-bit groups as IPv6 text.
pub fn ipv6_to_text(g: &Vec<u16>) -> (r: Vec<u8>)
    requires
        g@.len() >= 1,
    ensures
        r@ == ipv6_text(g@),
{
    let mut v = u16_to_hex(g[0]);
    let mut k: usize = 1;
    proof {
        assert(g@.subrange(0, 1).drop_last() =~= Seq::<u16>::empty());
        assert(g@.subrange(0, 1) =~= seq![g@[0]]);
        assert(ipv6_text(g@.subrange(0, 1)) == hex_of(g@[0] as nat));
    }
    while k < g.len()
        invariant
            1 <= k <= g@.len(),
            v@ =~= ipv6_text(g@.subrange(0, k as int)),
        decreases g@.len() - k,
    {
        let ghost prev = v@;
        v.push(0x3a);
        let mut hx = u16_to_hex(g[k]);
        v.append(&mut hx);
        proof {
            let sub = g@.subrange(0, k as int + 1);
            assert(sub.drop_last() =~= g@.subrange(0, k as int));
            assert(sub.last() == g@[k as int]);
            assert(v@ =~= ipv6_text(sub));
        }
        k += 1;
    }
    proof {
        assert(g@.subrange(0, g@.len() as int) =~= g@);
    }
    v
}


proof fn lemma_ipv6_text_front(x: Seq<u16>)
    requires
        x.len() >= 2,
    ensures
        ipv6_text(x) == hex_of(x[0] as nat) + seq![colon()] + ipv6_text(x.drop_first()),
    decreases x.len(),
{
    if x.len() == 2 {
        assert(x.drop_last().len() == 1 && x.drop_last()[0] == x[0]);
        assert(x.drop_first().len() == 1 && x.drop_first()[0] == x[1]);
        assert(ipv6_text(x.drop_last()) == hex_of(x[0] as nat));
        assert(ipv6_text(x.drop_first()) == hex_of(x[1] as nat));
        assert(ipv6_text(x) =~= hex_of(x[0] as nat) + seq![colon()] + ipv6_text(x.drop_first()));
    } else {
        lemma_ipv6_text_front(x.drop_last());
        assert(x.drop_last().drop_first() =~= x.drop_first().drop_last());
        assert(x.drop_last()[0] == x[0]);
        assert(x.drop_first().last() == x.last());
        assert(x.drop_first().len() >= 2);
        assert(ipv6_text(x) =~= hex_of(x[0] as nat) + seq![colon()] + ipv6_text(x.drop_first()));
    }
}

proof fn lemma_ipv6_text_first_hex(x: Seq<u16>)
    requires
        x.len() >= 1,
    ensures
        ipv6_text(x).len() >= 1,
        is_hex_digit(ipv6_text(x)[0]),
    decreases x.len(),
{
    lemma_hex_of_digits(x[0] as nat);
    if x.len() == 1 {
    } else {
        lemma_ipv6_text_front(x);
        assert(ipv6_text(x)[0] == hex_of(x[0] as nat)[0]);
    }
}

proof fn lemma_scan_head_full(s: Seq<u8>, i: int, head: Seq<u16>, rest: Seq<u16>)
    requires
        0 <= i,
        rest.len() >= 1,
        i + ipv6_text(rest).len() == s.len(),
        s.subrange(i, s.len() as int) == ipv6_text(rest),
    ensures
        scan_head(s, i, head) == Some((head + rest, s.len() as int, false)),
    decreases rest.len(),
{
    crate::codec::lemma_subrange_index(s, i, ipv6_text(rest));
    if rest.len() == 1 {
        assert(ipv6_text(rest) == hex_of(rest[0] as nat));
        assert(s.subrange(i, i + hex_of(rest[0] as nat).len() as int) =~= hex_of(rest[0] as nat));
        lemma_scan_hex_of(s, i, rest[0] as nat);
        assert(head.push(rest[0]) =~= head + rest);
    } else {
        lemma_ipv6_text_front(rest);
        let h0 = hex_of(rest[0] as nat);
        let l0 = h0.len() as int;
        let tail = ipv6_text(rest.drop_first());
        assert(forall|m: int| 0 <= m < l0 ==> s[i + m] == #[trigger] h0[m]) by {
            assert(forall|m: int| 0 <= m < l0 ==> ipv6_text(rest)[m] == #[trigger] h0[m]);
        }
        assert(s.subrange(i, i + l0) =~= h0);
        assert(ipv6_text(rest)[l0] == colon());
        assert(s[i + l0] == colon());
        assert(!is_hex_digit(colon()));
        lemma_scan_hex_of(s, i, rest[0] as nat);
        lemma_ipv6_text_first_hex(rest.drop_first());
        assert(forall|m: int| 0 <= m < tail.len() ==> s[i + l0 + 1 + m] == #[trigger] tail[m]) by {
            assert(forall|m: int| 0 <= m < tail.len() ==> ipv6_text(rest)[l0 + 1 + m]
                == #[trigger] tail[m]);
        }
        assert(s[i + l0 + 1] == tail[0]);
        assert(s[i + l0 + 1] != colon());
        assert(s.subrange(i + l0 + 1, s.len() as int) =~= tail);
        lemma_scan_head_full(s, i + l0 + 1, head.push(rest[0]), rest.drop_first());
        assert(head.push(rest[0]) + rest.drop_first() =~= head + rest);
    }
}

/// The canonical IPv6 text parses back to the same eight groups, so the
/// guard judges a formatted address by its real groups.
pub proof fn lemma_parse_ipv6_text(g: Seq<u16>)
    requires
        g.len() == 8,
    ensures
        spec_parse_ipv6(ipv6_text(g)) == Some(g),
{
    let s = ipv6_text(g);
    lemma_ipv6_text_first_hex(g);
    assert(s[0] != colon());
    assert(s.subrange(0, s.len() as int) =~= s);
    lemma_scan_head_full(s, 0, Seq::empty(), g);
    assert(Seq::empty() + g =~= g);
}

} // verus!
