//! IP addresses as plain values, with a verified parser for their textual
//! forms (dotted-quad IPv4 and colon-hex IPv6, `::` compression included)
//! and a verified canonical printer.

use vstd::prelude::*;
use vstd::slice::slice_subrange;
use crate::text::{spec_split, split_chars, views_of, chars_of, string_of, is_space, lemma_split_no_sep, lemma_split_prepend};

verus! {

/// An IP address: an IPv4 address as its four octets, or an IPv6 address as
/// its eight 16-bit groups.
#[derive(Clone, Copy, PartialEq, Eq, Structural, Debug)]
pub enum IpAddress {
    V4(u8, u8, u8, u8),
    V6(u16, u16, u16, u16, u16, u16, u16, u16),
}

pub open spec fn is_digit(c: char) -> bool {
    '0' <= c && c <= '9'
}

pub open spec fn digit_val(c: char) -> int {
    c as int - '0' as int
}

pub open spec fn all_digits(s: Seq<char>) -> bool {
    forall|i: int| 0 <= i < s.len() ==> is_digit(s[i])
}

/// The value of a decimal digit string.
pub open spec fn dec_val(s: Seq<char>) -> int
    decreases s.len(),
{
    if s.len() == 0 {
        0
    } else {
        dec_val(s.drop_last()) * 10 + digit_val(s.last())
    }
}

/// A decimal octet of an IPv4 address: one to three digits, no leading zero,
/// value at most 255.
pub open spec fn is_octet(s: Seq<char>) -> bool {
    1 <= s.len() <= 3 && all_digits(s) && dec_val(s) <= 255 && (s.len() > 1 ==> s[0] != '0')
}

pub open spec fn is_hex_digit(c: char) -> bool {
    is_digit(c) || ('a' <= c && c <= 'f') || ('A' <= c && c <= 'F')
}

pub open spec fn hex_digit_val(c: char) -> int {
    if is_digit(c) {
        c as int - '0' as int
    } else if 'a' <= c && c <= 'f' {
        c as int - 'a' as int + 10
    } else {
        c as int - 'A' as int + 10
    }
}

pub open spec fn all_hex(s: Seq<char>) -> bool {
    forall|i: int| 0 <= i < s.len() ==> is_hex_digit(s[i])
}

/// The value of a hexadecimal digit string.
pub open spec fn hex_val(s: Seq<char>) -> int
    decreases s.len(),
{
    if s.len() == 0 {
        0
    } else {
        hex_val(s.drop_last()) * 16 + hex_digit_val(s.last())
    }
}

/// A group of an IPv6 address: one to four hexadecimal digits.
pub open spec fn is_group(s: Seq<char>) -> bool {
    1 <= s.len() <= 4 && all_hex(s)
}

pub proof fn lemma_dec_val_bounds(s: Seq<char>)
    requires
        all_digits(s),
    ensures
        0 <= dec_val(s),
        s.len() <= 1 ==> dec_val(s) <= 9,
        s.len() <= 2 ==> dec_val(s) <= 99,
        s.len() <= 3 ==> dec_val(s) <= 999,
    decreases s.len(),
{
    if s.len() > 0 {
        assert(all_digits(s.drop_last())) by {
            assert(forall|i: int|
                0 <= i < s.len() - 1 ==> s.drop_last()[i] == s[i] && is_digit(s[i]));
        }
        lemma_dec_val_bounds(s.drop_last());
    }
}

pub proof fn lemma_hex_val_bounds(s: Seq<char>)
    requires
        all_hex(s),
    ensures
        0 <= hex_val(s),
        s.len() <= 1 ==> hex_val(s) <= 0xf,
        s.len() <= 2 ==> hex_val(s) <= 0xff,
        s.len() <= 3 ==> hex_val(s) <= 0xfff,
        s.len() <= 4 ==> hex_val(s) <= 0xffff,
    decreases s.len(),
{
    if s.len() > 0 {
        assert(all_hex(s.drop_last())) by {
            assert(forall|i: int|
                0 <= i < s.len() - 1 ==> s.drop_last()[i] == s[i] && is_hex_digit(s[i]));
        }
        lemma_hex_val_bounds(s.drop_last());
    }
}

/// The IPv4 address denoted by a dotted-quad text, if any.
pub open spec fn spec_parse_v4(s: Seq<char>) -> Option<IpAddress> {
    let parts = spec_split(s, '.');
    if parts.len() == 4 && is_octet(parts[0]) && is_octet(parts[1]) && is_octet(parts[2])
        && is_octet(parts[3]) {
        Some(
            IpAddress::V4(
                dec_val(parts[0]) as u8,
                dec_val(parts[1]) as u8,
                dec_val(parts[2]) as u8,
                dec_val(parts[3]) as u8,
            ),
        )
    } else {
        None
    }
}

/// The position of the first `::` in `s`, if any.
pub open spec fn spec_find_dc(s: Seq<char>) -> Option<int>
    decreases s.len(),
{
    if s.len() < 2 {
        None
    } else if s[0] == ':' && s[1] == ':' {
        Some(0)
    } else {
        match spec_find_dc(s.skip(1)) {
            None => None,
            Some(i) => Some(i + 1),
        }
    }
}

pub open spec fn all_groups(parts: Seq<Seq<char>>) -> bool {
    forall|i: int| 0 <= i < parts.len() ==> is_group(parts[i])
}

pub open spec fn group_vals(parts: Seq<Seq<char>>) -> Seq<u16> {
    Seq::new(parts.len(), |i: int| hex_val(parts[i]) as u16)
}

/// The groups on one side of a `::`, which may be empty.
pub open spec fn side_groups(s: Seq<char>) -> Option<Seq<u16>> {
    if s.len() == 0 {
        Some(Seq::<u16>::empty())
    } else {
        let parts = spec_split(s, ':');
        if all_groups(parts) {
            Some(group_vals(parts))
        } else {
            None
        }
    }
}

pub open spec fn zeros(n: nat) -> Seq<u16> {
    Seq::new(n, |i: int| 0u16)
}

pub open spec fn v6_of(g: Seq<u16>) -> IpAddress {
    IpAddress::V6(g[0], g[1], g[2], g[3], g[4], g[5], g[6], g[7])
}

/// The IPv6 address denoted by a colon-hex text, if any: either eight groups,
/// or two group lists around a single `::` standing for the missing groups.
pub open spec fn spec_parse_v6(s: Seq<char>) -> Option<IpAddress> {
    match spec_find_dc(s) {
        None => {
            let parts = spec_split(s, ':');
            if parts.len() == 8 && all_groups(parts) {
                Some(v6_of(group_vals(parts)))
            } else {
                None
            }
        },
        Some(p) => {
            let left = s.take(p);
            let right = s.skip(p + 2);
            if spec_find_dc(right) is Some {
                None
            } else {
                match (side_groups(left), side_groups(right)) {
                    (Some(gl), Some(gr)) => if gl.len() + gr.len() <= 7 {
                        Some(v6_of(gl + zeros((8 - gl.len() - gr.len()) as nat) + gr))
                    } else {
                        None
                    },
                    _ => None,
                }
            }
        },
    }
}

/// The IP address denoted by a text: the dotted-quad reading where it fits,
/// otherwise the colon-hex reading.
pub open spec fn spec_parse_ip(s: Seq<char>) -> Option<IpAddress> {
    if spec_parse_v4(s) is Some {
        spec_parse_v4(s)
    } else {
        spec_parse_v6(s)
    }
}

fn parse_octet(part: &[char]) -> (r: Option<u8>)
    ensures
        r is Some <==> is_octet(part@),
        r matches Some(n) ==> n as int == dec_val(part@),
{
    let len = part.len();
    if len == 0 || len > 3 {
        return None;
    }
    let mut val: u32 = 0;
    let mut i: usize = 0;
    while i < len
        invariant
            0 <= i <= len <= 3,
            len == part@.len(),
            forall|k: int| 0 <= k < i ==> is_digit(part@[k]),
            val as int == dec_val(part@.take(i as int)),
            0 <= val <= 999,
        decreases len - i,
    {
        let c = part[i];
        if !('0' <= c && c <= '9') {
            return None;
        }
        proof {
            assert(part@.take(i + 1).drop_last() =~= part@.take(i as int));
            assert(part@.take(i + 1).last() == part@[i as int]);
            assert(forall|k: int| 0 <= k < i + 1 ==> is_digit(part@[k]));
            assert(all_digits(part@.take(i + 1))) by {
                assert(forall|k: int|
                    0 <= k < i + 1 ==> part@.take(i + 1)[k] == part@[k]);
            }
            lemma_dec_val_bounds(part@.take(i + 1));
        }
        val = val * 10 + (c as u32 - 48);
        i = i + 1;
    }
    proof {
        assert(part@.take(len as int) =~= part@);
    }
    if len > 1 && part[0] == '0' {
        return None;
    }
    if val > 255 {
        return None;
    }
    Some(val as u8)
}

fn parse_group(part: &[char]) -> (r: Option<u16>)
    ensures
        r is Some <==> is_group(part@),
        r matches Some(n) ==> n as int == hex_val(part@),
{
    let len = part.len();
    if len == 0 || len > 4 {
        return None;
    }
    let mut val: u32 = 0;
    let mut i: usize = 0;
    while i < len
        invariant
            0 <= i <= len <= 4,
            len == part@.len(),
            forall|k: int| 0 <= k < i ==> is_hex_digit(part@[k]),
            val as int == hex_val(part@.take(i as int)),
            0 <= val <= 0xffff,
        decreases len - i,
    {
        let c = part[i];
        let d: u32 = if '0' <= c && c <= '9' {
            c as u32 - 48
        } else if 'a' <= c && c <= 'f' {
            c as u32 - 97 + 10
        } else if 'A' <= c && c <= 'F' {
            c as u32 - 65 + 10
        } else {
            return None;
        };
        proof {
            assert(part@.take(i + 1).drop_last() =~= part@.take(i as int));
            assert(part@.take(i + 1).last() == part@[i as int]);
            assert(all_hex(part@.take(i + 1))) by {
                assert(forall|k: int|
                    0 <= k < i + 1 ==> part@.take(i + 1)[k] == part@[k]);
            }
            lemma_hex_val_bounds(part@.take(i + 1));
        }
        val = val * 16 + d;
        i = i + 1;
    }
    proof {
        assert(part@.take(len as int) =~= part@);
    }
    Some(val as u16)
}

fn parse_v4(v: &[char]) -> (r: Option<IpAddress>)
    ensures
        r == spec_parse_v4(v@),
{
    let parts = split_chars(v, '.');
    proof {
        assert(views_of(parts@) == spec_split(v@, '.'));
    }
    if parts.len() != 4 {
        return None;
    }
    let a = match parse_octet(parts[0].as_slice()) {
        Some(n) => n,
        None => {
            return None;
        },
    };
    let b = match parse_octet(parts[1].as_slice()) {
        Some(n) => n,
        None => {
            return None;
        },
    };
    let c = match parse_octet(parts[2].as_slice()) {
        Some(n) => n,
        None => {
            return None;
        },
    };
    let d = match parse_octet(parts[3].as_slice()) {
        Some(n) => n,
        None => {
            return None;
        },
    };
    Some(IpAddress::V4(a, b, c, d))
}

fn find_dc_from(v: &[char], from: usize) -> (r: Option<usize>)
    requires
        from <= v@.len(),
    ensures
        r matches Some(p) ==> from <= p && p + 1 < v@.len() && spec_find_dc(v@.skip(from as int))
            == Some(p - from),
        r is None ==> spec_find_dc(v@.skip(from as int)) is None,
    decreases v@.len() - from,
{
    if v.len() - from < 2 {
        return None;
    }
    if v[from] == ':' && v[from + 1] == ':' {
        proof {
            assert(v@.skip(from as int)[0] == v@[from as int]);
            assert(v@.skip(from as int)[1] == v@[from as int + 1]);
        }
        return Some(from);
    }
    let r = find_dc_from(v, from + 1);
    proof {
        assert(v@.skip(from as int).skip(1) =~= v@.skip(from as int + 1));
        assert(v@.skip(from as int)[0] == v@[from as int]);
        assert(v@.skip(from as int)[1] == v@[from as int + 1]);
    }
    match r {
        Some(p) => Some(p),
        None => None,
    }
}

fn parse_side(side: &[char]) -> (r: Option<Vec<u16>>)
    ensures
        r matches Some(g) ==> side_groups(side@) == Some(g@),
        r is None ==> side_groups(side@) is None,
{
    if side.len() == 0 {
        let g: Vec<u16> = Vec::new();
        proof {
            assert(side@ =~= Seq::<char>::empty());
            assert(g@ =~= Seq::<u16>::empty());
        }
        return Some(g);
    }
    let parts = split_chars(side, ':');
    let n = parts.len();
    let mut g: Vec<u16> = Vec::new();
    let mut i: usize = 0;
    while i < n
        invariant
            side@.len() != 0,
            0 <= i <= n,
            n == parts@.len(),
            views_of(parts@) == spec_split(side@, ':'),
            forall|k: int| 0 <= k < i ==> is_group(views_of(parts@)[k]),
            g@.len() == i,
            forall|k: int| 0 <= k < i ==> g@[k] == hex_val(views_of(parts@)[k]) as u16,
        decreases n - i,
    {
        match parse_group(parts[i].as_slice()) {
            Some(x) => {
                g.push(x);
            },
            None => {
                proof {
                    assert(side@.len() != 0);
                    assert(spec_split(side@, ':')[i as int] == parts@[i as int]@);
                    assert(!is_group(spec_split(side@, ':')[i as int]));
                    assert(!all_groups(spec_split(side@, ':')));
                    assert(side_groups(side@) is None);
                }
                return None;
            },
        }
        i = i + 1;
    }
    proof {
        assert(all_groups(spec_split(side@, ':')));
        assert(g@ =~= group_vals(spec_split(side@, ':')));
    }
    Some(g)
}

fn parse_v6(v: &[char]) -> (r: Option<IpAddress>)
    ensures
        r == spec_parse_v6(v@),
{
    proof {
        assert(v@.skip(0) =~= v@);
    }
    match find_dc_from(v, 0) {
        None => {
            let parts = split_chars(v, ':');
            if parts.len() != 8 {
                return None;
            }
            let mut g: Vec<u16> = Vec::new();
            let n = parts.len();
            let mut i: usize = 0;
            while i < n
                invariant
                    0 <= i <= n,
                    n == 8,
                    n == parts@.len(),
                    views_of(parts@) == spec_split(v@, ':'),
                    spec_find_dc(v@) is None,
                    forall|k: int| 0 <= k < i ==> is_group(views_of(parts@)[k]),
                    g@.len() == i,
                    forall|k: int| 0 <= k < i ==> g@[k] == hex_val(views_of(parts@)[k]) as u16,
                decreases n - i,
            {
                match parse_group(parts[i].as_slice()) {
                    Some(x) => {
                        g.push(x);
                    },
                    None => {
                        proof {
                            assert(spec_split(v@, ':')[i as int] == parts@[i as int]@);
                            assert(!is_group(spec_split(v@, ':')[i as int]));
                            assert(!all_groups(spec_split(v@, ':')));
                        }
                        return None;
                    },
                }
                i = i + 1;
            }
            proof {
                assert(all_groups(spec_split(v@, ':')));
                assert(g@ =~= group_vals(spec_split(v@, ':')));
            }
            Some(IpAddress::V6(g[0], g[1], g[2], g[3], g[4], g[5], g[6], g[7]))
        },
        Some(p) => {
            let n = v.len();
            let left = slice_subrange(v, 0, p);
            let right = slice_subrange(v, p + 2, n);
            proof {
                assert(left@ =~= v@.take(p as int));
                assert(right@ =~= v@.skip(p as int + 2));
            }
            if find_dc_from(right, 0).is_some() {
                proof {
                    assert(right@.skip(0) =~= right@);
                }
                return None;
            }
            proof {
                assert(right@.skip(0) =~= right@);
            }
            let gl = match parse_side(left) {
                Some(g) => g,
                None => {
                    return None;
                },
            };
            let gr = match parse_side(right) {
                Some(g) => g,
                None => {
                    return None;
                },
            };
            if gl.len() > 7 {
                return None;
            }
            if gr.len() > 7 - gl.len() {
                return None;
            }
            let fill = 8 - gl.len() - gr.len();
            let mut g = gl;
            let mut k: usize = 0;
            while k < fill
                invariant
                    0 <= k <= fill,
                    g@ =~= side_groups(left@)->0 + zeros(k as nat),
                decreases fill - k,
            {
                g.push(0u16);
                proof {
                    assert(g@ =~= side_groups(left@)->0 + zeros(k as nat + 1));
                }
                k = k + 1;
            }
            let mut j: usize = 0;
            let m = gr.len();
            while j < m
                invariant
                    0 <= j <= m,
                    m == gr@.len(),
                    gr@ == side_groups(right@)->0,
                    g@ =~= side_groups(left@)->0 + zeros((8 - side_groups(left@)->0.len()
                        - gr@.len()) as nat) + gr@.take(j as int),
                decreases m - j,
            {
                g.push(gr[j]);
                proof {
                    assert(g@ =~= side_groups(left@)->0 + zeros((8 - side_groups(left@)->0.len()
                        - gr@.len()) as nat) + gr@.take(j as int + 1));
                }
                j = j + 1;
            }
            proof {
                assert(gr@.take(m as int) =~= gr@);
                assert(g@.len() == 8);
            }
            Some(IpAddress::V6(g[0], g[1], g[2], g[3], g[4], g[5], g[6], g[7]))
        },
    }
}

/// Parse an IP address from characters: `r == spec_parse_ip(v@)`.
pub fn parse_ip_chars(v: &[char]) -> (r: Option<IpAddress>)
    ensures
        r == spec_parse_ip(v@),
{
    match parse_v4(v) {
        Some(ip) => Some(ip),
        None => parse_v6(v),
    }
}

/// Parse an IP address from a string.
pub fn parse_ip(s: &str) -> (r: Option<IpAddress>)
    ensures
        r == spec_parse_ip(s@),
{
    let v = chars_of(s);
    parse_ip_chars(v.as_slice())
}

pub open spec fn digit_char(d: int) -> char {
    ((48 + d) as u8) as char
}

pub open spec fn hex_digit_char(d: int) -> char {
    if d < 10 {
        ((48 + d) as u8) as char
    } else {
        ((87 + d) as u8) as char
    }
}

/// The decimal text of an octet value, without leading zeros.
pub open spec fn dec_text(n: int) -> Seq<char> {
    if n < 10 {
        seq![digit_char(n)]
    } else if n < 100 {
        seq![digit_char(n / 10), digit_char(n % 10)]
    } else {
        seq![digit_char(n / 100), digit_char((n / 10) % 10), digit_char(n % 10)]
    }
}

/// The lower-case hexadecimal text of a group value, without leading zeros.
#[verifier::opaque]
pub open spec fn hex_text(n: int) -> Seq<char> {
    if n < 0x10 {
        seq![hex_digit_char(n)]
    } else if n < 0x100 {
        seq![hex_digit_char(n / 16), hex_digit_char(n % 16)]
    } else if n < 0x1000 {
        seq![hex_digit_char(n / 256), hex_digit_char((n / 16) % 16), hex_digit_char(n % 16)]
    } else {
        seq![
            hex_digit_char(n / 4096),
            hex_digit_char((n / 256) % 16),
            hex_digit_char((n / 16) % 16),
            hex_digit_char(n % 16),
        ]
    }
}

/// The canonical text of an IP address: a dotted quad, or eight lower-case
/// colon-hex groups written in full.
pub open spec fn spec_ip_text(ip: IpAddress) -> Seq<char> {
    match ip {
        IpAddress::V4(a, b, c, d) => dec_text(a as int) + seq!['.'] + dec_text(b as int)
            + seq!['.'] + dec_text(c as int) + seq!['.'] + dec_text(d as int),
        IpAddress::V6(g0, g1, g2, g3, g4, g5, g6, g7) => hex_text(g0 as int) + seq![':']
            + hex_text(g1 as int) + seq![':'] + hex_text(g2 as int) + seq![':'] + hex_text(
            g3 as int,
        ) + seq![':'] + hex_text(g4 as int) + seq![':'] + hex_text(g5 as int) + seq![':']
            + hex_text(g6 as int) + seq![':'] + hex_text(g7 as int),
    }
}

fn dec_push(out: &mut Vec<char>, n: u8)
    ensures
        final(out)@ == old(out)@ + dec_text(n as int),
{
    if n >= 100 {
        out.push((48 + n / 100) as char);
        out.push((48 + (n / 10) % 10) as char);
        out.push((48 + n % 10) as char);
    } else if n >= 10 {
        out.push((48 + n / 10) as char);
        out.push((48 + n % 10) as char);
    } else {
        out.push((48 + n) as char);
    }
    proof {
        assert(out@ =~= old(out)@ + dec_text(n as int));
    }
}

fn hexc(d: u16) -> (c: char)
    requires
        d < 16,
    ensures
        c == hex_digit_char(d as int),
{
    if d < 10 {
        (48 + d as u8) as char
    } else {
        (87 + d as u8) as char
    }
}

fn hex_push(out: &mut Vec<char>, n: u16)
    ensures
        final(out)@ == old(out)@ + hex_text(n as int),
{
    if n >= 0x1000 {
        let c0 = hexc(n / 4096);
        let c1 = hexc((n / 256) % 16);
        let c2 = hexc((n / 16) % 16);
        let c3 = hexc(n % 16);
        out.push(c0);
        out.push(c1);
        out.push(c2);
        out.push(c3);
    } else if n >= 0x100 {
        let c0 = hexc(n / 256);
        let c1 = hexc((n / 16) % 16);
        let c2 = hexc(n % 16);
        out.push(c0);
        out.push(c1);
        out.push(c2);
    } else if n >= 0x10 {
        let c0 = hexc(n / 16);
        let c1 = hexc(n % 16);
        out.push(c0);
        out.push(c1);
    } else {
        let c0 = hexc(n);
        out.push(c0);
    }
    proof {
        reveal(hex_text);
        assert(out@ =~= old(out)@ + hex_text(n as int));
    }
}

/// The canonical text of an IP address, as characters.
pub fn ip_chars(ip: &IpAddress) -> (r: Vec<char>)
    ensures
        r@ == spec_ip_text(*ip),
{
    let mut out: Vec<char> = Vec::new();
    match ip {
        IpAddress::V4(a, b, c, d) => {
            dec_push(&mut out, *a);
            out.push('.');
            dec_push(&mut out, *b);
            out.push('.');
            dec_push(&mut out, *c);
            out.push('.');
            dec_push(&mut out, *d);
            proof {
                assert(out@ =~= spec_ip_text(*ip));
            }
        },
        IpAddress::V6(g0, g1, g2, g3, g4, g5, g6, g7) => {
            hex_push(&mut out, *g0);
            out.push(':');
            hex_push(&mut out, *g1);
            out.push(':');
            hex_push(&mut out, *g2);
            out.push(':');
            hex_push(&mut out, *g3);
            out.push(':');
            hex_push(&mut out, *g4);
            out.push(':');
            hex_push(&mut out, *g5);
            out.push(':');
            hex_push(&mut out, *g6);
            out.push(':');
            hex_push(&mut out, *g7);
            proof {
                assert(out@ =~= spec_ip_text(*ip));
            }
        },
    }
    out
}

/// The canonical text of an IP address, as a string.
pub fn ip_string(ip: &IpAddress) -> (r: String)
    ensures
        r@ == spec_ip_text(*ip),
{
    let v = ip_chars(ip);
    string_of(&v)
}

proof fn lemma_digit_char(d: int)
    requires
        0 <= d <= 9,
    ensures
        is_digit(digit_char(d)),
        digit_val(digit_char(d)) == d,
        digit_char(d) != '.',
        digit_char(d) != ':',
        !is_space(digit_char(d)),
        (digit_char(d) == '0') <==> (d == 0),
{
}

proof fn lemma_hex_digit_char(d: int)
    requires
        0 <= d < 16,
    ensures
        is_hex_digit(hex_digit_char(d)),
        hex_digit_val(hex_digit_char(d)) == d,
        hex_digit_char(d) != '.',
        hex_digit_char(d) != ':',
        !is_space(hex_digit_char(d)),
{
}


proof fn lemma_dec_val1(c: char)
    ensures
        dec_val(seq![c]) == digit_val(c),
{
    assert(seq![c].drop_last() =~= Seq::<char>::empty());
    assert(dec_val(Seq::<char>::empty()) == 0);
}

proof fn lemma_hex_val1(c: char)
    ensures
        hex_val(seq![c]) == hex_digit_val(c),
{
    assert(seq![c].drop_last() =~= Seq::<char>::empty());
    assert(hex_val(Seq::<char>::empty()) == 0);
}

/// The decimal text of an octet value is a valid octet and reads back to the
/// same value; its characters are digits only.
proof fn lemma_dec_text(n: int)
    requires
        0 <= n <= 255,
    ensures
        is_octet(dec_text(n)),
        dec_val(dec_text(n)) == n,
        forall|i: int| 0 <= i < dec_text(n).len() ==> (dec_text(n)[i] != '.' && dec_text(n)[i]
            != ':' && !is_space(dec_text(n)[i])),
{
    let t = dec_text(n);
    if n < 10 {
        lemma_digit_char(n);
        lemma_dec_val1(digit_char(n));
        assert(dec_val(t) == n);
    } else if n < 100 {
        lemma_digit_char(n / 10);
        lemma_digit_char(n % 10);
        assert(t.drop_last() =~= seq![digit_char(n / 10)]);
        assert(t.last() == digit_char(n % 10));
        lemma_dec_val1(digit_char(n / 10));
        assert(dec_val(t) == dec_val(t.drop_last()) * 10 + digit_val(t.last()));
        assert(dec_val(t) == (n / 10) * 10 + n % 10);
        assert((n / 10) * 10 + n % 10 == n);
        assert(t[0] == digit_char(n / 10));
        assert(n / 10 != 0);
    } else {
        lemma_digit_char(n / 100);
        lemma_digit_char((n / 10) % 10);
        lemma_digit_char(n % 10);
        let dl = seq![digit_char(n / 100), digit_char((n / 10) % 10)];
        assert(t.drop_last() =~= dl);
        assert(t.last() == digit_char(n % 10));
        assert(dl.drop_last() =~= seq![digit_char(n / 100)]);
        assert(dl.last() == digit_char((n / 10) % 10));
        lemma_dec_val1(digit_char(n / 100));
        assert(dec_val(dl) == dec_val(dl.drop_last()) * 10 + digit_val(dl.last()));
        assert(dec_val(t) == dec_val(t.drop_last()) * 10 + digit_val(t.last()));
        assert(dec_val(t) == ((n / 100) * 10 + (n / 10) % 10) * 10 + n % 10);
        assert(((n / 100) * 10 + (n / 10) % 10) * 10 + n % 10 == n) by {
            assert(n / 100 == (n / 10) / 10);
            assert((n / 10) / 10 * 10 + (n / 10) % 10 == n / 10);
            assert((n / 10) * 10 + n % 10 == n);
        }
        assert(t[0] == digit_char(n / 100));
        assert(n / 100 != 0);
    }
}

/// The hexadecimal text of a group value is a valid group and reads back to
/// the same value; its characters are hexadecimal digits only.
proof fn lemma_hex_text(n: int)
    requires
        0 <= n <= 0xffff,
    ensures
        is_group(hex_text(n)),
        hex_val(hex_text(n)) == n,
        forall|i: int| 0 <= i < hex_text(n).len() ==> (hex_text(n)[i] != '.' && hex_text(n)[i]
            != ':' && !is_space(hex_text(n)[i])),
{
    reveal(hex_text);
    let t = hex_text(n);
    if n < 0x10 {
        lemma_hex_digit_char(n);
        lemma_hex_val1(hex_digit_char(n));
        assert(hex_val(t) == n);
    } else if n < 0x100 {
        lemma_hex_digit_char(n / 16);
        lemma_hex_digit_char(n % 16);
        assert(t.drop_last() =~= seq![hex_digit_char(n / 16)]);
        assert(t.last() == hex_digit_char(n % 16));
        lemma_hex_val1(hex_digit_char(n / 16));
        assert(hex_val(t) == hex_val(t.drop_last()) * 16 + hex_digit_val(t.last()));
        assert(hex_val(t) == (n / 16) * 16 + n % 16);
        assert((n / 16) * 16 + n % 16 == n);
    } else if n < 0x1000 {
        lemma_hex_digit_char(n / 256);
        lemma_hex_digit_char((n / 16) % 16);
        lemma_hex_digit_char(n % 16);
        let dl = seq![hex_digit_char(n / 256), hex_digit_char((n / 16) % 16)];
        assert(t.drop_last() =~= dl);
        assert(t.last() == hex_digit_char(n % 16));
        assert(dl.drop_last() =~= seq![hex_digit_char(n / 256)]);
        assert(dl.last() == hex_digit_char((n / 16) % 16));
        lemma_hex_val1(hex_digit_char(n / 256));
        assert(hex_val(dl) == hex_val(dl.drop_last()) * 16 + hex_digit_val(dl.last()));
        assert(hex_val(t) == hex_val(t.drop_last()) * 16 + hex_digit_val(t.last()));
        assert(hex_val(t) == ((n / 256) * 16 + (n / 16) % 16) * 16 + n % 16);
        assert(((n / 256) * 16 + (n / 16) % 16) * 16 + n % 16 == n) by {
            assert(n / 256 == (n / 16) / 16);
            assert((n / 16) / 16 * 16 + (n / 16) % 16 == n / 16);
            assert((n / 16) * 16 + n % 16 == n);
        }
    } else {
        lemma_hex_digit_char(n / 4096);
        lemma_hex_digit_char((n / 256) % 16);
        lemma_hex_digit_char((n / 16) % 16);
        lemma_hex_digit_char(n % 16);
        let d3 = seq![
            hex_digit_char(n / 4096),
            hex_digit_char((n / 256) % 16),
            hex_digit_char((n / 16) % 16),
        ];
        let d2 = seq![hex_digit_char(n / 4096), hex_digit_char((n / 256) % 16)];
        assert(t.drop_last() =~= d3);
        assert(t.last() == hex_digit_char(n % 16));
        assert(d3.drop_last() =~= d2);
        assert(d3.last() == hex_digit_char((n / 16) % 16));
        assert(d2.drop_last() =~= seq![hex_digit_char(n / 4096)]);
        assert(d2.last() == hex_digit_char((n / 256) % 16));
        lemma_hex_val1(hex_digit_char(n / 4096));
        assert(hex_val(d2) == hex_val(d2.drop_last()) * 16 + hex_digit_val(d2.last()));
        assert(hex_val(d3) == hex_val(d3.drop_last()) * 16 + hex_digit_val(d3.last()));
        assert(hex_val(t) == hex_val(t.drop_last()) * 16 + hex_digit_val(t.last()));
        assert(hex_val(t) == (((n / 4096) * 16 + (n / 256) % 16) * 16 + (n / 16) % 16) * 16 + n
            % 16);
        assert((((n / 4096) * 16 + (n / 256) % 16) * 16 + (n / 16) % 16) * 16 + n % 16 == n) by {
            assert(n / 4096 == (n / 256) / 16);
            assert((n / 256) / 16 * 16 + (n / 256) % 16 == n / 256);
            assert(n / 256 == (n / 16) / 16);
            assert((n / 16) / 16 * 16 + (n / 16) % 16 == n / 16);
            assert((n / 16) * 16 + n % 16 == n);
        }
    }
}

proof fn lemma_find_dc_none(s: Seq<char>)
    requires
        forall|i: int| 0 <= i < s.len() - 1 ==> !((#[trigger] s[i]) == ':' && s[i + 1] == ':'),
    ensures
        spec_find_dc(s) is None,
    decreases s.len(),
{
    if s.len() >= 2 {
        assert(!(s[0] == ':' && s[1] == ':'));
        assert(forall|i: int|
            0 <= i < s.skip(1).len() - 1 ==> (#[trigger] s.skip(1)[i]) == s[i + 1] && s.skip(1)[i
                + 1] == s[i + 2]);
        lemma_find_dc_none(s.skip(1));
    }
}

/// No adjacent pair of colons, and no colon at either end.
spec fn colon_clean(s: Seq<char>) -> bool {
    &&& s.len() > 0
    &&& s[0] != ':'
    &&& s.last() != ':'
    &&& forall|i: int| 0 <= i < s.len() - 1 ==> !((#[trigger] s[i]) == ':' && s[i + 1] == ':')
}

proof fn lemma_colon_join(a: Seq<char>, b: Seq<char>)
    requires
        colon_clean(a),
        colon_clean(b),
    ensures
        colon_clean(a + seq![':'] + b),
{
    let t = a + seq![':'] + b;
    assert(t[0] == a[0]);
    assert(t.last() == b.last());
    assert forall|i: int| 0 <= i < t.len() - 1 implies !((#[trigger] t[i]) == ':' && t[i + 1]
        == ':') by {
        if i < a.len() - 1 {
            assert(t[i] == a[i] && t[i + 1] == a[i + 1]);
        } else if i == a.len() - 1 {
            assert(t[i] == a.last());
        } else if i == a.len() {
            assert(t[i + 1] == b[0]);
        } else {
            assert(t[i] == b[i - a.len() - 1] && t[i + 1] == b[i - a.len()]);
        }
    }
}

spec fn no_dot(s: Seq<char>) -> bool {
    forall|i: int| 0 <= i < s.len() ==> s[i] != '.'
}

proof fn lemma_no_dot_join(a: Seq<char>, b: Seq<char>)
    requires
        no_dot(a),
        no_dot(b),
    ensures
        no_dot(a + seq![':'] + b),
{
    let t = a + seq![':'] + b;
    assert forall|i: int| 0 <= i < t.len() implies t[i] != '.' by {
        if i < a.len() {
            assert(t[i] == a[i]);
        } else if i == a.len() {
            assert(t[i] == ':');
        } else {
            assert(t[i] == b[i - a.len() - 1]);
        }
    }
}

#[verifier::rlimit(60)]
proof fn lemma_v4_round_trip(a: u8, b: u8, c: u8, d: u8)
    ensures
        spec_parse_v4(spec_ip_text(IpAddress::V4(a, b, c, d))) == Some(IpAddress::V4(a, b, c, d)),
{
    let ip = IpAddress::V4(a, b, c, d);
    let s = spec_ip_text(ip);
    let ta = dec_text(a as int);
    let tb = dec_text(b as int);
    let tc = dec_text(c as int);
    let td = dec_text(d as int);
    lemma_dec_text(a as int);
    lemma_dec_text(b as int);
    lemma_dec_text(c as int);
    lemma_dec_text(d as int);
    assert(s =~= ta + seq!['.'] + (tb + seq!['.'] + (tc + seq!['.'] + td)));
    lemma_split_no_sep(td, '.');
    lemma_split_prepend(tc, td, '.');
    lemma_split_prepend(tb, tc + seq!['.'] + td, '.');
    lemma_split_prepend(ta, tb + seq!['.'] + (tc + seq!['.'] + td), '.');
    assert(spec_split(s, '.') =~~= seq![ta, tb, tc, td]);
    assert(spec_parse_v4(s) == Some(ip));
}

spec fn no_colon(s: Seq<char>) -> bool {
    forall|i: int| 0 <= i < s.len() ==> s[i] != ':'
}

spec fn good_group(t: Seq<char>, g: u16) -> bool {
    &&& is_group(t)
    &&& hex_val(t) == g as int
    &&& no_dot(t)
    &&& no_colon(t)
}

#[verifier::rlimit(60)]
proof fn lemma_v6_text_parse(
    t0: Seq<char>,
    t1: Seq<char>,
    t2: Seq<char>,
    t3: Seq<char>,
    t4: Seq<char>,
    t5: Seq<char>,
    t6: Seq<char>,
    t7: Seq<char>,
    g0: u16,
    g1: u16,
    g2: u16,
    g3: u16,
    g4: u16,
    g5: u16,
    g6: u16,
    g7: u16,
)
    requires
        good_group(t0, g0),
        good_group(t1, g1),
        good_group(t2, g2),
        good_group(t3, g3),
        good_group(t4, g4),
        good_group(t5, g5),
        good_group(t6, g6),
        good_group(t7, g7),
    ensures
        spec_parse_v4(
            t0 + seq![':'] + (t1 + seq![':'] + (t2 + seq![':'] + (t3 + seq![':'] + (t4
                + seq![':'] + (t5 + seq![':'] + (t6 + seq![':'] + t7)))))),
        ) is None,
        spec_parse_v6(
            t0 + seq![':'] + (t1 + seq![':'] + (t2 + seq![':'] + (t3 + seq![':'] + (t4
                + seq![':'] + (t5 + seq![':'] + (t6 + seq![':'] + t7)))))),
        ) == Some(IpAddress::V6(g0, g1, g2, g3, g4, g5, g6, g7)),
{
    let s67 = t6 + seq![':'] + t7;
    let s57 = t5 + seq![':'] + s67;
    let s47 = t4 + seq![':'] + s57;
    let s37 = t3 + seq![':'] + s47;
    let s27 = t2 + seq![':'] + s37;
    let s17 = t1 + seq![':'] + s27;
    let s = t0 + seq![':'] + s17;
    // the dotted-quad reading fails: the text holds no dot
    lemma_no_dot_join(t6, t7);
    lemma_no_dot_join(t5, s67);
    lemma_no_dot_join(t4, s57);
    lemma_no_dot_join(t3, s47);
    lemma_no_dot_join(t2, s37);
    lemma_no_dot_join(t1, s27);
    lemma_no_dot_join(t0, s17);
    lemma_split_no_sep(s, '.');
    assert(spec_split(s, '.').len() == 1);
    assert(spec_parse_v4(s) is None);
    // no `::` anywhere
    lemma_colon_join(t6, t7);
    lemma_colon_join(t5, s67);
    lemma_colon_join(t4, s57);
    lemma_colon_join(t3, s47);
    lemma_colon_join(t2, s37);
    lemma_colon_join(t1, s27);
    lemma_colon_join(t0, s17);
    lemma_find_dc_none(s);
    // the eight groups come back
    lemma_split_no_sep(t7, ':');
    lemma_split_prepend(t6, t7, ':');
    lemma_split_prepend(t5, s67, ':');
    lemma_split_prepend(t4, s57, ':');
    lemma_split_prepend(t3, s47, ':');
    lemma_split_prepend(t2, s37, ':');
    lemma_split_prepend(t1, s27, ':');
    lemma_split_prepend(t0, s17, ':');
    assert(spec_split(s, ':') =~~= seq![t0, t1, t2, t3, t4, t5, t6, t7]);
    let parts = spec_split(s, ':');
    assert(all_groups(parts));
    assert(group_vals(parts) =~= seq![g0, g1, g2, g3, g4, g5, g6, g7]);
    assert(spec_parse_v6(s) == Some(IpAddress::V6(g0, g1, g2, g3, g4, g5, g6, g7)));
}

#[verifier::rlimit(60)]
proof fn lemma_v6_round_trip(g0: u16, g1: u16, g2: u16, g3: u16, g4: u16, g5: u16, g6: u16, g7: u16)
    ensures
        spec_parse_v4(spec_ip_text(IpAddress::V6(g0, g1, g2, g3, g4, g5, g6, g7))) is None,
        spec_parse_v6(spec_ip_text(IpAddress::V6(g0, g1, g2, g3, g4, g5, g6, g7))) == Some(
            IpAddress::V6(g0, g1, g2, g3, g4, g5, g6, g7),
        ),
{
    let ip = IpAddress::V6(g0, g1, g2, g3, g4, g5, g6, g7);
    let s = spec_ip_text(ip);
    let t0 = hex_text(g0 as int);
    let t1 = hex_text(g1 as int);
    let t2 = hex_text(g2 as int);
    let t3 = hex_text(g3 as int);
    let t4 = hex_text(g4 as int);
    let t5 = hex_text(g5 as int);
    let t6 = hex_text(g6 as int);
    let t7 = hex_text(g7 as int);
    lemma_hex_text(g0 as int);
    lemma_hex_text(g1 as int);
    lemma_hex_text(g2 as int);
    lemma_hex_text(g3 as int);
    lemma_hex_text(g4 as int);
    lemma_hex_text(g5 as int);
    lemma_hex_text(g6 as int);
    lemma_hex_text(g7 as int);
    lemma_v6_text_parse(t0, t1, t2, t3, t4, t5, t6, t7, g0, g1, g2, g3, g4, g5, g6, g7);
    assert(s =~= t0 + seq![':'] + (t1 + seq![':'] + (t2 + seq![':'] + (t3 + seq![':'] + (t4
        + seq![':'] + (t5 + seq![':'] + (t6 + seq![':'] + t7)))))));
}

/// Printing an address and parsing the text back yields the same address.
pub proof fn lemma_ip_text_round_trip(ip: IpAddress)
    ensures
        spec_parse_ip(spec_ip_text(ip)) == Some(ip),
{
    match ip {
        IpAddress::V4(a, b, c, d) => {
            lemma_v4_round_trip(a, b, c, d);
        },
        IpAddress::V6(g0, g1, g2, g3, g4, g5, g6, g7) => {
            lemma_v6_round_trip(g0, g1, g2, g3, g4, g5, g6, g7);
        },
    }
}

/// The canonical text of an address is never empty and holds no whitespace.
pub proof fn lemma_ip_text_no_space(ip: IpAddress)
    ensures
        spec_ip_text(ip).len() > 0,
        forall|i: int| 0 <= i < spec_ip_text(ip).len() ==> !is_space(spec_ip_text(ip)[i]),
{
    match ip {
        IpAddress::V4(a, b, c, d) => {
            lemma_dec_text(a as int);
            lemma_dec_text(b as int);
            lemma_dec_text(c as int);
            lemma_dec_text(d as int);
        },
        IpAddress::V6(g0, g1, g2, g3, g4, g5, g6, g7) => {
            lemma_hex_text(g0 as int);
            lemma_hex_text(g1 as int);
            lemma_hex_text(g2 as int);
            lemma_hex_text(g3 as int);
            lemma_hex_text(g4 as int);
            lemma_hex_text(g5 as int);
            lemma_hex_text(g6 as int);
            lemma_hex_text(g7 as int);
            assert(!is_space(':'));
        },
    }
}

} // verus!
