//! Parsers for the hub's JSON wire messages.
//!
//! The wire grammar is the project's own: an object with the documented
//! fields in any order, JSON whitespace anywhere between tokens, strings
//! with the standard escapes, and unsigned integers. Unknown members are
//! read and discarded; a duplicate field rejects the message, which the
//! hub then ignores as malformed.
use vstd::prelude::*;

use crate::admin;
use crate::danmaku::{Message, MessageModel};
use crate::repertoire::{Program, ProgramModel, Repertoire, RepertoireModel};
use crate::text::{bytes_eq, dec_val, is_digit, parse_dec};
use vstd::string::StringSliceAdditionalSpecFns;
use vstd::utf8::{encode_scalar, is_scalar};

verus! {

/// JSON whitespace: space, tab, line feed, carriage return.
pub open spec fn is_json_ws(b: u8) -> bool {
    b == 32 || b == 9 || b == 10 || b == 13
}

/// The position of the first non-whitespace byte at or after `i`.
pub open spec fn ws_at(s: Seq<u8>, i: int) -> int
    decreases s.len() - i,
    when 0 <= i <= s.len()
{
    if i >= s.len() || !is_json_ws(s[i]) {
        i
    } else {
        ws_at(s, i + 1)
    }
}

pub proof fn lemma_ws_at(s: Seq<u8>, i: int)
    requires
        0 <= i <= s.len(),
    ensures
        i <= ws_at(s, i) <= s.len(),
    decreases s.len() - i,
{
    if i < s.len() && is_json_ws(s[i]) {
        lemma_ws_at(s, i + 1);
    }
}

/// Advances past JSON whitespace.
pub fn skip_ws(s: &[u8], i: usize) -> (r: usize)
    requires
        i <= s@.len(),
    ensures
        r == ws_at(s@, i as int),
        i <= r <= s@.len(),
{
    let n: usize = s.len();
    let mut j: usize = i;
    while j < n && (s[j] == 32 || s[j] == 9 || s[j] == 10 || s[j] == 13)
        invariant
            i <= j <= n == s@.len(),
            ws_at(s@, i as int) == ws_at(s@, j as int),
        decreases n - j,
    {
        j = j + 1;
    }
    proof {
        lemma_ws_at(s@, i as int);
    }
    j
}

/// The position of the first non-digit byte at or after `i`.
pub open spec fn digits_end(s: Seq<u8>, i: int) -> int
    decreases s.len() - i,
    when 0 <= i <= s.len()
{
    if i >= s.len() || !is_digit(s[i]) {
        i
    } else {
        digits_end(s, i + 1)
    }
}

pub proof fn lemma_digits_end(s: Seq<u8>, i: int)
    requires
        0 <= i <= s.len(),
    ensures
        i <= digits_end(s, i) <= s.len(),
        forall|k: int| i <= k < digits_end(s, i) ==> is_digit(#[trigger] s[k]),
        digits_end(s, i) < s.len() ==> !is_digit(s[digits_end(s, i)]),
    decreases s.len() - i,
{
    if i < s.len() && is_digit(s[i]) {
        lemma_digits_end(s, i + 1);
        assert forall|k: int| i <= k < digits_end(s, i) implies is_digit(#[trigger] s[k]) by {
            if k > i {
                assert(is_digit(s[k]));
            }
        }
    }
}

/// A JSON unsigned integer at `i`: digits without a superfluous leading
/// zero, read as a `u32`. A value above `u32::MAX` rejects the message, as
/// the typed decode does.
pub open spec fn sp_uint32(s: Seq<u8>, i: int) -> Option<(u32, int)> {
    if 0 <= i < s.len() && is_digit(s[i]) {
        let e = digits_end(s, i);
        if s[i] == 48 && e > i + 1 {
            None
        } else if dec_val(s.subrange(i, e)) <= u32::MAX {
            Some(((dec_val(s.subrange(i, e)) as u32), e))
        } else {
            None
        }
    } else {
        None
    }
}

/// Reads a JSON unsigned integer as a `u32`.
pub fn parse_uint32(s: &[u8], i: usize) -> (r: Option<(u32, usize)>)
    requires
        i <= s@.len(),
    ensures
        match r {
            Some((v, j)) => sp_uint32(s@, i as int) == Some((v, j as int)) && i < j <= s@.len(),
            None => sp_uint32(s@, i as int) is None,
        },
{
    let n: usize = s.len();
    if i >= n || s[i] < 48 || s[i] > 57 {
        return None;
    }
    let mut e: usize = i;
    while e < n && 48 <= s[e] && s[e] <= 57
        invariant
            i <= e <= n == s@.len(),
            digits_end(s@, i as int) == digits_end(s@, e as int),
        decreases n - e,
    {
        e = e + 1;
    }
    proof {
        lemma_digits_end(s@, i as int);
        assert(e == digits_end(s@, i as int));
    }
    if s[i] == 48 && e > i + 1 {
        return None;
    }
    let digits = crate::text::clone_bytes_range(s, i, e);
    let r = parse_dec(digits.as_slice(), 0xffff_ffff);
    proof {
        assert(digits@ =~= s@.subrange(i as int, e as int));
        assert(digits@.len() > 0);
        assert(crate::text::all_digits(digits@)) by {
            assert forall|k: int| 0 <= k < digits@.len() implies is_digit(#[trigger] digits@[k]) by {
                assert(digits@[k] == s@[i + k]);
            }
        }
    }
    match r {
        Some(v) => Some((v as u32, e)),
        None => None,
    }
}

/// The value of a hex digit, or a negative number when the byte is none.
pub open spec fn hex_val(b: u8) -> int {
    if is_digit(b) {
        b - 48
    } else if 97 <= b <= 102 {
        b - 87
    } else if 65 <= b <= 70 {
        b - 55
    } else {
        -1
    }
}

fn hex_digit_val(b: u8) -> (r: Option<u8>)
    ensures
        r is Some <==> hex_val(b) >= 0,
        r matches Some(v) ==> v == hex_val(b) && v < 16,
{
    if 48 <= b && b <= 57 {
        Some(b - 48)
    } else if 97 <= b && b <= 102 {
        Some(b - 87)
    } else if 65 <= b && b <= 70 {
        Some(b - 55)
    } else {
        None
    }
}

/// The value of the four hex digits at `i`, or a negative number when any
/// byte is not a hex digit.
pub open spec fn hex4_val(s: Seq<u8>, i: int) -> int
    recommends
        0 <= i,
        i + 4 <= s.len(),
{
    if hex_val(s[i]) >= 0 && hex_val(s[i + 1]) >= 0 && hex_val(s[i + 2]) >= 0 && hex_val(s[i + 3])
        >= 0 {
        hex_val(s[i]) * 4096 + hex_val(s[i + 1]) * 256 + hex_val(s[i + 2]) * 16 + hex_val(s[i + 3])
    } else {
        -1
    }
}

/// Appends the UTF-8 encoding of the scalar `v`.
fn push_utf8(out: &mut Vec<u8>, v: u32)
    requires
        is_scalar(v),
    ensures
        final(out)@ == old(out)@ + encode_scalar(v),
{
    let ghost pre = out@;
    if v <= 0x7f {
        out.push((v & 0x7f) as u8);
        assert(out@ =~= pre + encode_scalar(v));
    } else if v <= 0x7ff {
        out.push(0xc0 | ((v >> 6u32) & 0x1f) as u8);
        out.push(0x80 | (v & 0x3f) as u8);
        assert(out@ =~= pre + encode_scalar(v));
    } else if v <= 0xffff {
        out.push(0xe0 | ((v >> 12u32) & 0x0f) as u8);
        out.push(0x80 | ((v >> 6u32) & 0x3f) as u8);
        out.push(0x80 | (v & 0x3f) as u8);
        assert(out@ =~= pre + encode_scalar(v));
    } else {
        out.push(0xf0 | ((v >> 18u32) & 0x7) as u8);
        out.push(0x80 | ((v >> 12u32) & 0x3f) as u8);
        out.push(0x80 | ((v >> 6u32) & 0x3f) as u8);
        out.push(0x80 | (v & 0x3f) as u8);
        assert(out@ =~= pre + encode_scalar(v));
    }
}

/// The body of a JSON string literal from `i` (after the opening quote),
/// with `acc` the content unescaped so far: the content and the position
/// after the closing quote.
pub open spec fn sp_str_body(s: Seq<u8>, i: int, acc: Seq<u8>) -> Option<(Seq<u8>, int)>
    decreases s.len() - i,
    when 0 <= i <= s.len()
{
    if i >= s.len() {
        None
    } else if s[i] == 34 {
        Some((acc, i + 1))
    } else if s[i] == 92 {
        if i + 2 > s.len() {
            None
        } else {
            let e = s[i + 1];
            if e == 34 || e == 92 || e == 47 {
                sp_str_body(s, i + 2, acc.push(e))
            } else if e == 98 {
                sp_str_body(s, i + 2, acc.push(8))
            } else if e == 116 {
                sp_str_body(s, i + 2, acc.push(9))
            } else if e == 110 {
                sp_str_body(s, i + 2, acc.push(10))
            } else if e == 102 {
                sp_str_body(s, i + 2, acc.push(12))
            } else if e == 114 {
                sp_str_body(s, i + 2, acc.push(13))
            } else if e == 117 {
                if i + 6 > s.len() {
                    None
                } else {
                    let v = hex4_val(s, i + 2);
                    if v < 0 || (0xdc00 <= v && v <= 0xdfff) {
                        None
                    } else if 0xd800 <= v && v <= 0xdbff {
                        // a high surrogate must pair with an escaped low
                        // surrogate; together they name one scalar
                        if i + 12 > s.len() || s[i + 6] != 92 || s[i + 7] != 117 {
                            None
                        } else {
                            let w = hex4_val(s, i + 8);
                            if 0xdc00 <= w && w <= 0xdfff {
                                let cp = 0x10000 + (v - 0xd800) * 0x400 + (w - 0xdc00);
                                sp_str_body(s, i + 12, acc + encode_scalar(cp as u32))
                            } else {
                                None
                            }
                        }
                    } else {
                        sp_str_body(s, i + 6, acc + encode_scalar(v as u32))
                    }
                }
            } else {
                None
            }
        }
    } else if s[i] < 32 {
        None
    } else {
        sp_str_body(s, i + 1, acc.push(s[i]))
    }
}

/// A JSON string literal at `i`: its unescaped content and the position
/// after the closing quote.
pub open spec fn sp_string(s: Seq<u8>, i: int) -> Option<(Seq<u8>, int)> {
    if 0 <= i < s.len() && s[i] == 34 {
        sp_str_body(s, i + 1, Seq::empty())
    } else {
        None
    }
}

/// Reads a JSON string literal.
pub fn parse_string(s: &[u8], i: usize) -> (r: Option<(Vec<u8>, usize)>)
    requires
        i <= s@.len(),
    ensures
        match r {
            Some((v, j)) => sp_string(s@, i as int) == Some((v@, j as int)) && i < j <= s@.len(),
            None => sp_string(s@, i as int) is None,
        },
{
    let n: usize = s.len();
    if i >= n || s[i] != 34 {
        return None;
    }
    let mut out: Vec<u8> = Vec::new();
    let mut j: usize = i + 1;
    assert(out@ =~= Seq::<u8>::empty());
    loop
        invariant
            i + 1 <= j <= n == s@.len(),
            i < n && s@[i as int] == 34,
            sp_string(s@, i as int) == sp_str_body(s@, j as int, out@),
        decreases n - j,
    {
        if j >= n {
            return None;
        }
        let b: u8 = s[j];
        if b == 34 {
            return Some((out, j + 1));
        }
        if b == 92 {
            if n - j < 2 {
                return None;
            }
            let e: u8 = s[j + 1];
            if e == 34 || e == 92 || e == 47 {
                out.push(e);
                j = j + 2;
            } else if e == 98 {
                out.push(8);
                j = j + 2;
            } else if e == 116 {
                out.push(9);
                j = j + 2;
            } else if e == 110 {
                out.push(10);
                j = j + 2;
            } else if e == 102 {
                out.push(12);
                j = j + 2;
            } else if e == 114 {
                out.push(13);
                j = j + 2;
            } else if e == 117 {
                if n - j < 6 {
                    return None;
                }
                let h0 = hex_digit_val(s[j + 2]);
                let h1 = hex_digit_val(s[j + 3]);
                let h2 = hex_digit_val(s[j + 4]);
                let h3 = hex_digit_val(s[j + 5]);
                match (h0, h1, h2, h3) {
                    (Some(a), Some(bb), Some(c), Some(d)) => {
                        let v: u32 = (a as u32) * 4096 + (bb as u32) * 256 + (c as u32) * 16 + (
                        d as u32);
                        assert(v == hex4_val(s@, j + 2));
                        if 0xdc00 <= v && v <= 0xdfff {
                            return None;
                        }
                        if 0xd800 <= v && v <= 0xdbff {
                            if n - j < 12 || s[j + 6] != 92 || s[j + 7] != 117 {
                                return None;
                            }
                            let g0 = hex_digit_val(s[j + 8]);
                            let g1 = hex_digit_val(s[j + 9]);
                            let g2 = hex_digit_val(s[j + 10]);
                            let g3 = hex_digit_val(s[j + 11]);
                            match (g0, g1, g2, g3) {
                                (Some(a2), Some(b2), Some(c2), Some(d2)) => {
                                    let w: u32 = (a2 as u32) * 4096 + (b2 as u32) * 256 + (
                                    c2 as u32) * 16 + (d2 as u32);
                                    assert(w == hex4_val(s@, j + 8));
                                    if !(0xdc00 <= w && w <= 0xdfff) {
                                        return None;
                                    }
                                    let cp: u32 = 0x10000 + (v - 0xd800) * 0x400 + (w - 0xdc00);
                                    assert(cp == 0x10000 + (hex4_val(s@, j + 2) - 0xd800) * 0x400
                                        + (hex4_val(s@, j + 8) - 0xdc00));
                                    assert(is_scalar(cp));
                                    push_utf8(&mut out, cp);
                                    j = j + 12;
                                },
                                _ => {
                                    assert(hex4_val(s@, j + 8) < 0);
                                    return None;
                                },
                            }
                        } else {
                            assert(is_scalar(v));
                            push_utf8(&mut out, v);
                            j = j + 6;
                        }
                    },
                    _ => {
                        assert(hex4_val(s@, j + 2) < 0);
                        return None;
                    },
                }
            } else {
                return None;
            }
        } else if b < 32 {
            return None;
        } else {
            out.push(b);
            j = j + 1;
        }
    }
}

/// How deeply containers may nest inside an ignored member's value; deeper
/// values reject the message, as the bounded-recursion decode does.
pub const SKIP_DEPTH: u32 = 100;

/// The position after a JSON number at `i`: an optional minus sign, an
/// integer part without a superfluous leading zero, and optional fraction
/// and exponent parts.
pub open spec fn sp_skip_number(s: Seq<u8>, i: int) -> Option<int>
    recommends
        0 <= i <= s.len(),
{
    let a = if i < s.len() && s[i] == 45 {
        i + 1
    } else {
        i
    };
    if a >= s.len() || !is_digit(s[a]) {
        None
    } else {
        let b = if s[a] == 48 {
            a + 1
        } else {
            digits_end(s, a)
        };
        let d = if b < s.len() && s[b] == 46 {
            if b + 1 < s.len() && is_digit(s[b + 1]) {
                digits_end(s, b + 1)
            } else {
                -1
            }
        } else {
            b
        };
        if d < 0 {
            None
        } else {
            let e0 = if d < s.len() && (s[d] == 101 || s[d] == 69) {
                if d + 1 < s.len() && (s[d + 1] == 43 || s[d + 1] == 45) {
                    d + 2
                } else {
                    d + 1
                }
            } else {
                -1
            };
            if e0 < 0 {
                Some(d)
            } else if e0 < s.len() && is_digit(s[e0]) {
                Some(digits_end(s, e0))
            } else {
                None
            }
        }
    }
}

/// The position after any JSON value at `i`, read only to be discarded;
/// containers may nest at most `depth` levels.
pub open spec fn sp_skip_value(s: Seq<u8>, i: int, depth: u32) -> Option<int>
    decreases s.len() - i, 0int,
    when 0 <= i <= s.len()
{
    if i >= s.len() {
        None
    } else if s[i] == 34 {
        match sp_string(s, i) {
            Some((v, j)) => Some(j),
            None => None,
        }
    } else if s[i] == 123 {
        if depth == 0 {
            None
        } else {
            sp_skip_members(s, i + 1, true, (depth - 1) as u32)
        }
    } else if s[i] == 91 {
        if depth == 0 {
            None
        } else {
            sp_skip_elements(s, i + 1, true, (depth - 1) as u32)
        }
    } else if s[i] == 116 {
        if i + 4 <= s.len() && s[i + 1] == 114 && s[i + 2] == 117 && s[i + 3] == 101 {
            Some(i + 4)
        } else {
            None
        }
    } else if s[i] == 102 {
        if i + 5 <= s.len() && s[i + 1] == 97 && s[i + 2] == 108 && s[i + 3] == 115 && s[i + 4]
            == 101 {
            Some(i + 5)
        } else {
            None
        }
    } else if s[i] == 110 {
        if i + 4 <= s.len() && s[i + 1] == 117 && s[i + 2] == 108 && s[i + 3] == 108 {
            Some(i + 4)
        } else {
            None
        }
    } else {
        sp_skip_number(s, i)
    }
}

/// The position after the member list of a discarded object, from the
/// position after its opening brace or after the previous member.
pub open spec fn sp_skip_members(s: Seq<u8>, i: int, first: bool, depth: u32) -> Option<int>
    decreases s.len() - i, 1int,
    when 0 <= i <= s.len()
{
    let j = ws_at(s, i);
    if j >= s.len() {
        None
    } else if s[j] == 125 {
        Some(j + 1)
    } else {
        let k = if first {
            j
        } else if s[j] == 44 {
            ws_at(s, j + 1)
        } else {
            -1
        };
        if k < 0 {
            None
        } else {
            match sp_string(s, k) {
                None => None,
                Some((key, a)) => {
                    let b = ws_at(s, a);
                    if b >= s.len() || s[b] != 58 {
                        None
                    } else {
                        let c = ws_at(s, b + 1);
                        if !(i < c <= s.len()) {
                            None
                        } else {
                            match sp_skip_value(s, c, depth) {
                                Some(d) => if i < d <= s.len() {
                                    sp_skip_members(s, d, false, depth)
                                } else {
                                    None
                                },
                                None => None,
                            }
                        }
                    }
                },
            }
        }
    }
}

/// The position after the element list of a discarded array, from the
/// position after its opening bracket or after the previous element.
pub open spec fn sp_skip_elements(s: Seq<u8>, i: int, first: bool, depth: u32) -> Option<int>
    decreases s.len() - i, 1int,
    when 0 <= i <= s.len()
{
    let j = ws_at(s, i);
    if j >= s.len() {
        None
    } else if s[j] == 93 {
        Some(j + 1)
    } else {
        let k = if first {
            j
        } else if s[j] == 44 {
            ws_at(s, j + 1)
        } else {
            -1
        };
        if !(i <= k <= s.len()) {
            None
        } else {
            match sp_skip_value(s, k, depth) {
                Some(d) => if i < d <= s.len() {
                    sp_skip_elements(s, d, false, depth)
                } else {
                    None
                },
                None => None,
            }
        }
    }
}

fn scan_digits(s: &[u8], i: usize) -> (r: usize)
    requires
        i <= s@.len(),
    ensures
        r == digits_end(s@, i as int),
        i <= r <= s@.len(),
        r < s@.len() ==> !is_digit(s@[r as int]),
        forall|k: int| i <= k < r ==> is_digit(#[trigger] s@[k]),
{
    let n: usize = s.len();
    let mut j: usize = i;
    while j < n && 48 <= s[j] && s[j] <= 57
        invariant
            i <= j <= n == s@.len(),
            digits_end(s@, i as int) == digits_end(s@, j as int),
        decreases n - j,
    {
        j = j + 1;
    }
    proof {
        lemma_digits_end(s@, i as int);
    }
    j
}

/// Reads past a JSON number that is only being discarded.
fn skip_number(s: &[u8], i: usize) -> (r: Option<usize>)
    requires
        i <= s@.len(),
    ensures
        match r {
            Some(j) => sp_skip_number(s@, i as int) == Some(j as int) && i < j <= s@.len(),
            None => sp_skip_number(s@, i as int) is None,
        },
{
    let n: usize = s.len();
    let a: usize = if i < n && s[i] == 45 {
        i + 1
    } else {
        i
    };
    if a >= n || !(48 <= s[a] && s[a] <= 57) {
        return None;
    }
    let b: usize = if s[a] == 48 {
        a + 1
    } else {
        scan_digits(s, a)
    };
    let d: usize;
    if b < n && s[b] == 46 {
        if b + 1 < n && 48 <= s[b + 1] && s[b + 1] <= 57 {
            d = scan_digits(s, b + 1);
        } else {
            return None;
        }
    } else {
        d = b;
    }
    if d < n && (s[d] == 101 || s[d] == 69) {
        let e0: usize = if d + 1 < n && (s[d + 1] == 43 || s[d + 1] == 45) {
            d + 2
        } else {
            d + 1
        };
        if e0 < n && 48 <= s[e0] && s[e0] <= 57 {
            Some(scan_digits(s, e0))
        } else {
            None
        }
    } else {
        Some(d)
    }
}

/// Reads past any JSON value that is only being discarded.
fn skip_value(s: &[u8], i: usize, depth: u32) -> (r: Option<usize>)
    requires
        i <= s@.len(),
    ensures
        match r {
            Some(j) => sp_skip_value(s@, i as int, depth) == Some(j as int) && i < j <= s@.len(),
            None => sp_skip_value(s@, i as int, depth) is None,
        },
    decreases s@.len() - i, 0int,
{
    let n: usize = s.len();
    if i >= n {
        return None;
    }
    let b: u8 = s[i];
    if b == 34 {
        match parse_string(s, i) {
            Some((_v, j)) => Some(j),
            None => None,
        }
    } else if b == 123 {
        if depth == 0 {
            None
        } else {
            skip_members(s, i + 1, depth - 1)
        }
    } else if b == 91 {
        if depth == 0 {
            None
        } else {
            skip_elements(s, i + 1, depth - 1)
        }
    } else if b == 116 {
        if n - i >= 4 && s[i + 1] == 114 && s[i + 2] == 117 && s[i + 3] == 101 {
            Some(i + 4)
        } else {
            None
        }
    } else if b == 102 {
        if n - i >= 5 && s[i + 1] == 97 && s[i + 2] == 108 && s[i + 3] == 115 && s[i + 4] == 101 {
            Some(i + 5)
        } else {
            None
        }
    } else if b == 110 {
        if n - i >= 4 && s[i + 1] == 117 && s[i + 2] == 108 && s[i + 3] == 108 {
            Some(i + 4)
        } else {
            None
        }
    } else {
        skip_number(s, i)
    }
}

/// Reads past the member list of a discarded object.
fn skip_members(s: &[u8], i: usize, depth: u32) -> (r: Option<usize>)
    requires
        i <= s@.len(),
    ensures
        match r {
            Some(j) => sp_skip_members(s@, i as int, true, depth) == Some(j as int) && i < j
                <= s@.len(),
            None => sp_skip_members(s@, i as int, true, depth) is None,
        },
    decreases s@.len() - i, 1int,
{
    let n: usize = s.len();
    let mut j: usize = i;
    let mut first: bool = true;
    loop
        invariant
            i <= j <= n == s@.len(),
            sp_skip_members(s@, i as int, true, depth) == sp_skip_members(
                s@,
                j as int,
                first,
                depth,
            ),
        decreases n - j,
    {
        let j2 = skip_ws(s, j);
        if j2 >= n {
            return None;
        }
        if s[j2] == 125 {
            return Some(j2 + 1);
        }
        let k: usize;
        if first {
            k = j2;
        } else {
            if s[j2] != 44 {
                return None;
            }
            k = skip_ws(s, j2 + 1);
        }
        match parse_string(s, k) {
            None => {
                return None;
            },
            Some((_key, a)) => {
                let bcol = skip_ws(s, a);
                if bcol >= n || s[bcol] != 58 {
                    return None;
                }
                let c = skip_ws(s, bcol + 1);
                match skip_value(s, c, depth) {
                    Some(d) => {
                        first = false;
                        j = d;
                    },
                    None => {
                        return None;
                    },
                }
            },
        }
    }
}

/// Reads past the element list of a discarded array.
fn skip_elements(s: &[u8], i: usize, depth: u32) -> (r: Option<usize>)
    requires
        i <= s@.len(),
    ensures
        match r {
            Some(j) => sp_skip_elements(s@, i as int, true, depth) == Some(j as int) && i < j
                <= s@.len(),
            None => sp_skip_elements(s@, i as int, true, depth) is None,
        },
    decreases s@.len() - i, 1int,
{
    let n: usize = s.len();
    let mut j: usize = i;
    let mut first: bool = true;
    loop
        invariant
            i <= j <= n == s@.len(),
            sp_skip_elements(s@, i as int, true, depth) == sp_skip_elements(
                s@,
                j as int,
                first,
                depth,
            ),
        decreases n - j,
    {
        let j2 = skip_ws(s, j);
        if j2 >= n {
            return None;
        }
        if s[j2] == 93 {
            return Some(j2 + 1);
        }
        let k: usize;
        if first {
            k = j2;
        } else {
            if s[j2] != 44 {
                return None;
            }
            k = skip_ws(s, j2 + 1);
        }
        match skip_value(s, k, depth) {
            Some(d) => {
                first = false;
                j = d;
            },
            None => {
                return None;
            },
        }
    }
}

pub open spec fn opt_bytes_view(o: Option<Vec<u8>>) -> Option<Seq<u8>> {
    match o {
        Some(v) => Some(v@),
        None => None,
    }
}

/// The member list of a submission request object, fields in any order:
/// `"type":"propose"`, a string `content`, and an unsigned `color`.
/// `i` stands after the opening brace or after the previous member; the
/// following arguments say which fields were already read. Nothing but
/// whitespace may follow the closing brace.
pub open spec fn sp_propose_members(
    s: Seq<u8>,
    i: int,
    first: bool,
    ty: bool,
    content: Option<Seq<u8>>,
    color: Option<u32>,
) -> Option<MessageModel>
    decreases s.len() - i,
    when 0 <= i <= s.len()
{
    let j = ws_at(s, i);
    if j >= s.len() {
        None
    } else if s[j] == 125 {
        if ty && content is Some && color is Some && ws_at(s, j + 1) == s.len() {
            Some(MessageModel::Propose { content: content.unwrap(), color: color.unwrap() })
        } else {
            None
        }
    } else {
        let k = if first {
            j
        } else if s[j] == 44 {
            ws_at(s, j + 1)
        } else {
            -1
        };
        if k < 0 {
            None
        } else {
            match sp_string(s, k) {
                None => None,
                Some((key, a)) => {
                    let b = ws_at(s, a);
                    if b >= s.len() || s[b] != 58 {
                        None
                    } else {
                        let c = ws_at(s, b + 1);
                        if key == "type".spec_bytes() {
                            if ty {
                                None
                            } else {
                                match sp_string(s, c) {
                                    Some((v, d)) => if v == "propose".spec_bytes() && i < d
                                        <= s.len() {
                                        sp_propose_members(s, d, false, true, content, color)
                                    } else {
                                        None
                                    },
                                    None => None,
                                }
                            }
                        } else if key == "content".spec_bytes() {
                            if content is Some {
                                None
                            } else {
                                match sp_string(s, c) {
                                    Some((v, d)) => if i < d <= s.len() {
                                        sp_propose_members(s, d, false, ty, Some(v), color)
                                    } else {
                                        None
                                    },
                                    None => None,
                                }
                            }
                        } else if key == "color".spec_bytes() {
                            if color is Some {
                                None
                            } else {
                                match sp_uint32(s, c) {
                                    Some((v, d)) => if i < d <= s.len() {
                                        sp_propose_members(s, d, false, ty, content, Some(v))
                                    } else {
                                        None
                                    },
                                    None => None,
                                }
                            }
                        } else {
                            match sp_skip_value(s, c, SKIP_DEPTH) {
                                Some(d) => if i < d <= s.len() {
                                    sp_propose_members(s, d, false, ty, content, color)
                                } else {
                                    None
                                },
                                None => None,
                            }
                        }
                    }
                },
            }
        }
    }
}

/// A complete submission request: optional whitespace, then the object.
pub open spec fn sp_propose(s: Seq<u8>) -> Option<MessageModel> {
    let i = ws_at(s, 0);
    if i < s.len() && s[i] == 123 {
        sp_propose_members(s, i + 1, true, false, None, None)
    } else {
        None
    }
}

/// Parses an audience submission request.
pub fn parse_propose(s: &[u8]) -> (r: Option<Message>)
    ensures
        match r {
            Some(m) => sp_propose(s@) == Some(m@),
            None => sp_propose(s@) is None,
        },
{
    let n: usize = s.len();
    let i = skip_ws(s, 0);
    if i >= n || s[i] != 123 {
        return None;
    }
    let mut j: usize = i + 1;
    let mut first: bool = true;
    let mut got_type: bool = false;
    let mut content: Option<Vec<u8>> = None;
    let mut color: Option<u32> = None;
    loop
        invariant
            j <= n == s@.len(),
            sp_propose(s@) == sp_propose_members(
                s@,
                j as int,
                first,
                got_type,
                opt_bytes_view(content),
                color,
            ),
        decreases n - j,
    {
        let ghost entry = j as int;
        let j2 = skip_ws(s, j);
        if j2 >= n {
            return None;
        }
        if s[j2] == 125 {
            let endw = skip_ws(s, j2 + 1);
            if got_type && content.is_some() && color.is_some() && endw == n {
                let c = content.unwrap();
                let col = color.unwrap();
                return Some(Message::Propose { content: c, color: col });
            }
            return None;
        }
        let k: usize;
        if first {
            k = j2;
        } else {
            if s[j2] != 44 {
                return None;
            }
            k = skip_ws(s, j2 + 1);
        }
        match parse_string(s, k) {
            None => {
                return None;
            },
            Some((key, a)) => {
                let b = skip_ws(s, a);
                if b >= n || s[b] != 58 {
                    return None;
                }
                let c = skip_ws(s, b + 1);
                if bytes_eq(key.as_slice(), "type".as_bytes()) {
                    if got_type {
                        return None;
                    }
                    match parse_string(s, c) {
                        Some((v, d)) => {
                            if bytes_eq(v.as_slice(), "propose".as_bytes()) {
                                got_type = true;
                                first = false;
                                j = d;
                            } else {
                                return None;
                            }
                        },
                        None => {
                            return None;
                        },
                    }
                } else if bytes_eq(key.as_slice(), "content".as_bytes()) {
                    if content.is_some() {
                        return None;
                    }
                    match parse_string(s, c) {
                        Some((v, d)) => {
                            content = Some(v);
                            first = false;
                            j = d;
                        },
                        None => {
                            return None;
                        },
                    }
                } else if bytes_eq(key.as_slice(), "color".as_bytes()) {
                    if color.is_some() {
                        return None;
                    }
                    match parse_uint32(s, c) {
                        Some((v, d)) => {
                            color = Some(v);
                            first = false;
                            j = d;
                        },
                        None => {
                            return None;
                        },
                    }
                } else {
                    match skip_value(s, c, SKIP_DEPTH) {
                        Some(d) => {
                            first = false;
                            j = d;
                        },
                        None => {
                            return None;
                        },
                    }
                }
            },
        }
    }
}

pub open spec fn opt_programs_view(o: Option<Vec<Program>>) -> Option<Seq<ProgramModel>> {
    match o {
        Some(v) => Some(v.deep_view()),
        None => None,
    }
}

/// The member list of one programme object: an unsigned `id` and string
/// `name`, `performer` and `time`, in any order. Yields the programme and
/// the position after its closing brace.
pub open spec fn sp_program_members(
    s: Seq<u8>,
    i: int,
    first: bool,
    id: Option<u32>,
    name: Option<Seq<u8>>,
    performer: Option<Seq<u8>>,
    time: Option<Seq<u8>>,
) -> Option<(ProgramModel, int)>
    decreases s.len() - i,
    when 0 <= i <= s.len()
{
    let j = ws_at(s, i);
    if j >= s.len() {
        None
    } else if s[j] == 125 {
        if id is Some && name is Some && performer is Some && time is Some {
            Some(
                (
                    ProgramModel {
                        id: id.unwrap(),
                        name: name.unwrap(),
                        performer: performer.unwrap(),
                        time: time.unwrap(),
                    },
                    j + 1,
                ),
            )
        } else {
            None
        }
    } else {
        let k = if first {
            j
        } else if s[j] == 44 {
            ws_at(s, j + 1)
        } else {
            -1
        };
        if k < 0 {
            None
        } else {
            match sp_string(s, k) {
                None => None,
                Some((key, a)) => {
                    let b = ws_at(s, a);
                    if b >= s.len() || s[b] != 58 {
                        None
                    } else {
                        let c = ws_at(s, b + 1);
                        if key == "id".spec_bytes() {
                            if id is Some {
                                None
                            } else {
                                match sp_uint32(s, c) {
                                    Some((v, d)) => if i < d <= s.len() {
                                        sp_program_members(
                                            s,
                                            d,
                                            false,
                                            Some(v),
                                            name,
                                            performer,
                                            time,
                                        )
                                    } else {
                                        None
                                    },
                                    None => None,
                                }
                            }
                        } else if key == "name".spec_bytes() {
                            if name is Some {
                                None
                            } else {
                                match sp_string(s, c) {
                                    Some((v, d)) => if i < d <= s.len() {
                                        sp_program_members(
                                            s,
                                            d,
                                            false,
                                            id,
                                            Some(v),
                                            performer,
                                            time,
                                        )
                                    } else {
                                        None
                                    },
                                    None => None,
                                }
                            }
                        } else if key == "performer".spec_bytes() {
                            if performer is Some {
                                None
                            } else {
                                match sp_string(s, c) {
                                    Some((v, d)) => if i < d <= s.len() {
                                        sp_program_members(s, d, false, id, name, Some(v), time)
                                    } else {
                                        None
                                    },
                                    None => None,
                                }
                            }
                        } else if key == "time".spec_bytes() {
                            if time is Some {
                                None
                            } else {
                                match sp_string(s, c) {
                                    Some((v, d)) => if i < d <= s.len() {
                                        sp_program_members(
                                            s,
                                            d,
                                            false,
                                            id,
                                            name,
                                            performer,
                                            Some(v),
                                        )
                                    } else {
                                        None
                                    },
                                    None => None,
                                }
                            }
                        } else {
                            match sp_skip_value(s, c, SKIP_DEPTH) {
                                Some(d) => if i < d <= s.len() {
                                    sp_program_members(s, d, false, id, name, performer, time)
                                } else {
                                    None
                                },
                                None => None,
                            }
                        }
                    }
                },
            }
        }
    }
}

/// One programme object at `i`.
pub open spec fn sp_program(s: Seq<u8>, i: int) -> Option<(ProgramModel, int)> {
    if 0 <= i < s.len() && s[i] == 123 {
        sp_program_members(s, i + 1, true, None, None, None, None)
    } else {
        None
    }
}

/// The elements of the programme array from `i` (after the opening bracket
/// or the previous element), with `acc` the programmes read so far: the
/// full list and the position after the closing bracket.
pub open spec fn sp_programs(s: Seq<u8>, i: int, first: bool, acc: Seq<ProgramModel>) -> Option<
    (Seq<ProgramModel>, int),
>
    decreases s.len() - i,
    when 0 <= i <= s.len()
{
    let j = ws_at(s, i);
    if j >= s.len() {
        None
    } else if s[j] == 93 {
        Some((acc, j + 1))
    } else {
        let k = if first {
            j
        } else if s[j] == 44 {
            ws_at(s, j + 1)
        } else {
            -1
        };
        if k < 0 {
            None
        } else {
            match sp_program(s, k) {
                Some((p, d)) => if i < d <= s.len() {
                    sp_programs(s, d, false, acc.push(p))
                } else {
                    None
                },
                None => None,
            }
        }
    }
}

/// Reads one programme object.
fn parse_program(s: &[u8], i: usize) -> (r: Option<(Program, usize)>)
    requires
        i <= s@.len(),
    ensures
        match r {
            Some((p, j)) => sp_program(s@, i as int) == Some((p@, j as int)) && i < j <= s@.len(),
            None => sp_program(s@, i as int) is None,
        },
{
    let n: usize = s.len();
    if i >= n || s[i] != 123 {
        return None;
    }
    let mut j: usize = i + 1;
    let mut first: bool = true;
    let mut id: Option<u32> = None;
    let mut name: Option<Vec<u8>> = None;
    let mut performer: Option<Vec<u8>> = None;
    let mut time: Option<Vec<u8>> = None;
    loop
        invariant
            i < j <= n == s@.len(),
            sp_program(s@, i as int) == sp_program_members(
                s@,
                j as int,
                first,
                id,
                opt_bytes_view(name),
                opt_bytes_view(performer),
                opt_bytes_view(time),
            ),
        decreases n - j,
    {
        let j2 = skip_ws(s, j);
        if j2 >= n {
            return None;
        }
        if s[j2] == 125 {
            if id.is_some() && name.is_some() && performer.is_some() && time.is_some() {
                let p = Program {
                    id: id.unwrap(),
                    name: name.unwrap(),
                    performer: performer.unwrap(),
                    time: time.unwrap(),
                };
                return Some((p, j2 + 1));
            }
            return None;
        }
        let k: usize;
        if first {
            k = j2;
        } else {
            if s[j2] != 44 {
                return None;
            }
            k = skip_ws(s, j2 + 1);
        }
        match parse_string(s, k) {
            None => {
                return None;
            },
            Some((key, a)) => {
                let b = skip_ws(s, a);
                if b >= n || s[b] != 58 {
                    return None;
                }
                let c = skip_ws(s, b + 1);
                if bytes_eq(key.as_slice(), "id".as_bytes()) {
                    if id.is_some() {
                        return None;
                    }
                    match parse_uint32(s, c) {
                        Some((v, d)) => {
                            id = Some(v);
                            first = false;
                            j = d;
                        },
                        None => {
                            return None;
                        },
                    }
                } else if bytes_eq(key.as_slice(), "name".as_bytes()) {
                    if name.is_some() {
                        return None;
                    }
                    match parse_string(s, c) {
                        Some((v, d)) => {
                            name = Some(v);
                            first = false;
                            j = d;
                        },
                        None => {
                            return None;
                        },
                    }
                } else if bytes_eq(key.as_slice(), "performer".as_bytes()) {
                    if performer.is_some() {
                        return None;
                    }
                    match parse_string(s, c) {
                        Some((v, d)) => {
                            performer = Some(v);
                            first = false;
                            j = d;
                        },
                        None => {
                            return None;
                        },
                    }
                } else if bytes_eq(key.as_slice(), "time".as_bytes()) {
                    if time.is_some() {
                        return None;
                    }
                    match parse_string(s, c) {
                        Some((v, d)) => {
                            time = Some(v);
                            first = false;
                            j = d;
                        },
                        None => {
                            return None;
                        },
                    }
                } else {
                    match skip_value(s, c, SKIP_DEPTH) {
                        Some(d) => {
                            first = false;
                            j = d;
                        },
                        None => {
                            return None;
                        },
                    }
                }
            },
        }
    }
}

/// Reads the programme array from the position after its opening bracket,
/// returning the list and the position after the closing bracket.
fn parse_programs(s: &[u8], i: usize) -> (r: Option<(Vec<Program>, usize)>)
    requires
        i <= s@.len(),
    ensures
        match r {
            Some((ps, j)) => sp_programs(s@, i as int, true, Seq::empty()) == Some(
                (ps.deep_view(), j as int),
            ) && i <= j <= s@.len(),
            None => sp_programs(s@, i as int, true, Seq::empty()) is None,
        },
{
    let n: usize = s.len();
    let mut progs: Vec<Program> = Vec::new();
    let mut first: bool = true;
    let mut j: usize = i;
    assert(progs.deep_view() =~= Seq::<ProgramModel>::empty());
    loop
        invariant
            i <= j <= n == s@.len(),
            sp_programs(s@, i as int, true, Seq::empty()) == sp_programs(
                s@,
                j as int,
                first,
                progs.deep_view(),
            ),
        decreases n - j,
    {
        let j2 = skip_ws(s, j);
        if j2 >= n {
            return None;
        }
        if s[j2] == 93 {
            return Some((progs, j2 + 1));
        }
        let k: usize;
        if first {
            k = j2;
        } else {
            if s[j2] != 44 {
                return None;
            }
            k = skip_ws(s, j2 + 1);
        }
        match parse_program(s, k) {
            Some((p, d)) => {
                let ghost pre_dv = progs.deep_view();
                proof {
                    assert(pre_dv.len() == progs@.len());
                }
                let ghost pm = p@;
                progs.push(p);
                proof {
                    assert(progs.deep_view() =~= pre_dv.push(pm)) by {
                        assert(progs.deep_view().len() == pre_dv.len() + 1);
                        assert forall|x: int| 0 <= x < progs.deep_view().len() implies
                            progs.deep_view()[x] == pre_dv.push(pm)[x] by {
                            assert(progs.deep_view()[x] == progs@[x].deep_view());
                            if x < pre_dv.len() {
                                assert(progs@[x].deep_view() == pre_dv[x]);
                            }
                        }
                    }
                }
                first = false;
                j = d;
            },
            None => {
                return None;
            },
        }
    }
}

/// The member list of an operator request object: a `"type"` tag naming a
/// schedule update or a moderation relay, and that variant's fields, in any
/// order. `tag` is 0 before the type was read, 1 for a schedule update, 2
/// for a relay. Nothing but whitespace may follow the closing brace.
pub open spec fn sp_admin_members(
    s: Seq<u8>,
    i: int,
    first: bool,
    tag: u8,
    programs: Option<Seq<ProgramModel>>,
    current: Option<u32>,
    content: Option<Seq<u8>>,
    color: Option<u32>,
) -> Option<admin::MessageModel>
    decreases s.len() - i,
    when 0 <= i <= s.len()
{
    let j = ws_at(s, i);
    if j >= s.len() {
        None
    } else if s[j] == 125 {
        if ws_at(s, j + 1) != s.len() {
            None
        } else if tag == 1 && programs is Some && current is Some && content is None && color
            is None {
            Some(
                admin::MessageModel::RepUp {
                    programs: programs.unwrap(),
                    current: current.unwrap(),
                },
            )
        } else if tag == 2 && content is Some && color is Some && programs is None && current
            is None {
            Some(admin::MessageModel::DanChk { content: content.unwrap(), color: color.unwrap() })
        } else {
            None
        }
    } else {
        let k = if first {
            j
        } else if s[j] == 44 {
            ws_at(s, j + 1)
        } else {
            -1
        };
        if k < 0 {
            None
        } else {
            match sp_string(s, k) {
                None => None,
                Some((key, a)) => {
                    let b = ws_at(s, a);
                    if b >= s.len() || s[b] != 58 {
                        None
                    } else {
                        let c = ws_at(s, b + 1);
                        if key == "type".spec_bytes() {
                            if tag != 0 {
                                None
                            } else {
                                match sp_string(s, c) {
                                    Some((v, d)) => if i < d <= s.len() {
                                        if v == "repertoire-update".spec_bytes() {
                                            sp_admin_members(
                                                s,
                                                d,
                                                false,
                                                1,
                                                programs,
                                                current,
                                                content,
                                                color,
                                            )
                                        } else if v == "danmaku-checked".spec_bytes() {
                                            sp_admin_members(
                                                s,
                                                d,
                                                false,
                                                2,
                                                programs,
                                                current,
                                                content,
                                                color,
                                            )
                                        } else {
                                            None
                                        }
                                    } else {
                                        None
                                    },
                                    None => None,
                                }
                            }
                        } else if key == "programs".spec_bytes() {
                            if programs is Some || c >= s.len() || s[c] != 91 {
                                None
                            } else {
                                match sp_programs(s, c + 1, true, Seq::empty()) {
                                    Some((ps, d)) => if i < d <= s.len() {
                                        sp_admin_members(
                                            s,
                                            d,
                                            false,
                                            tag,
                                            Some(ps),
                                            current,
                                            content,
                                            color,
                                        )
                                    } else {
                                        None
                                    },
                                    None => None,
                                }
                            }
                        } else if key == "current".spec_bytes() {
                            if current is Some {
                                None
                            } else {
                                match sp_uint32(s, c) {
                                    Some((v, d)) => if i < d <= s.len() {
                                        sp_admin_members(
                                            s,
                                            d,
                                            false,
                                            tag,
                                            programs,
                                            Some(v),
                                            content,
                                            color,
                                        )
                                    } else {
                                        None
                                    },
                                    None => None,
                                }
                            }
                        } else if key == "content".spec_bytes() {
                            if content is Some {
                                None
                            } else {
                                match sp_string(s, c) {
                                    Some((v, d)) => if i < d <= s.len() {
                                        sp_admin_members(
                                            s,
                                            d,
                                            false,
                                            tag,
                                            programs,
                                            current,
                                            Some(v),
                                            color,
                                        )
                                    } else {
                                        None
                                    },
                                    None => None,
                                }
                            }
                        } else if key == "color".spec_bytes() {
                            if color is Some {
                                None
                            } else {
                                match sp_uint32(s, c) {
                                    Some((v, d)) => if i < d <= s.len() {
                                        sp_admin_members(
                                            s,
                                            d,
                                            false,
                                            tag,
                                            programs,
                                            current,
                                            content,
                                            Some(v),
                                        )
                                    } else {
                                        None
                                    },
                                    None => None,
                                }
                            }
                        } else {
                            match sp_skip_value(s, c, SKIP_DEPTH) {
                                Some(d) => if i < d <= s.len() {
                                    sp_admin_members(
                                        s,
                                        d,
                                        false,
                                        tag,
                                        programs,
                                        current,
                                        content,
                                        color,
                                    )
                                } else {
                                    None
                                },
                                None => None,
                            }
                        }
                    }
                },
            }
        }
    }
}

/// A complete operator request: optional whitespace, then the object.
pub open spec fn sp_admin(s: Seq<u8>) -> Option<admin::MessageModel> {
    let i = ws_at(s, 0);
    if i < s.len() && s[i] == 123 {
        sp_admin_members(s, i + 1, true, 0, None, None, None, None)
    } else {
        None
    }
}

/// Parses an operator request.
pub fn parse_admin(s: &[u8]) -> (r: Option<admin::Message>)
    ensures
        match r {
            Some(m) => sp_admin(s@) == Some(m@),
            None => sp_admin(s@) is None,
        },
{
    let n: usize = s.len();
    let i = skip_ws(s, 0);
    if i >= n || s[i] != 123 {
        return None;
    }
    let mut j: usize = i + 1;
    let mut first: bool = true;
    let mut tag: u8 = 0;
    let mut programs: Option<Vec<Program>> = None;
    let mut current: Option<u32> = None;
    let mut content: Option<Vec<u8>> = None;
    let mut color: Option<u32> = None;
    loop
        invariant
            j <= n == s@.len(),
            sp_admin(s@) == sp_admin_members(
                s@,
                j as int,
                first,
                tag,
                opt_programs_view(programs),
                current,
                opt_bytes_view(content),
                color,
            ),
        decreases n - j,
    {
        let j2 = skip_ws(s, j);
        if j2 >= n {
            return None;
        }
        if s[j2] == 125 {
            let endw = skip_ws(s, j2 + 1);
            if endw != n {
                return None;
            }
            if tag == 1 && programs.is_some() && current.is_some() && content.is_none()
                && color.is_none() {
                let ps = programs.unwrap();
                let cur = current.unwrap();
                return Some(admin::Message::RepUp { programs: ps, current: cur });
            }
            if tag == 2 && content.is_some() && color.is_some() && programs.is_none()
                && current.is_none() {
                let ct = content.unwrap();
                let col = color.unwrap();
                return Some(admin::Message::DanChk { content: ct, color: col });
            }
            return None;
        }
        let k: usize;
        if first {
            k = j2;
        } else {
            if s[j2] != 44 {
                return None;
            }
            k = skip_ws(s, j2 + 1);
        }
        match parse_string(s, k) {
            None => {
                return None;
            },
            Some((key, a)) => {
                let b = skip_ws(s, a);
                if b >= n || s[b] != 58 {
                    return None;
                }
                let c = skip_ws(s, b + 1);
                if bytes_eq(key.as_slice(), "type".as_bytes()) {
                    if tag != 0 {
                        return None;
                    }
                    match parse_string(s, c) {
                        Some((v, d)) => {
                            if bytes_eq(v.as_slice(), "repertoire-update".as_bytes()) {
                                tag = 1;
                                first = false;
                                j = d;
                            } else if bytes_eq(v.as_slice(), "danmaku-checked".as_bytes()) {
                                tag = 2;
                                first = false;
                                j = d;
                            } else {
                                return None;
                            }
                        },
                        None => {
                            return None;
                        },
                    }
                } else if bytes_eq(key.as_slice(), "programs".as_bytes()) {
                    if programs.is_some() || c >= n || s[c] != 91 {
                        return None;
                    }
                    match parse_programs(s, c + 1) {
                        Some((ps, d)) => {
                            programs = Some(ps);
                            first = false;
                            j = d;
                        },
                        None => {
                            return None;
                        },
                    }
                } else if bytes_eq(key.as_slice(), "current".as_bytes()) {
                    if current.is_some() {
                        return None;
                    }
                    match parse_uint32(s, c) {
                        Some((v, d)) => {
                            current = Some(v);
                            first = false;
                            j = d;
                        },
                        None => {
                            return None;
                        },
                    }
                } else if bytes_eq(key.as_slice(), "content".as_bytes()) {
                    if content.is_some() {
                        return None;
                    }
                    match parse_string(s, c) {
                        Some((v, d)) => {
                            content = Some(v);
                            first = false;
                            j = d;
                        },
                        None => {
                            return None;
                        },
                    }
                } else if bytes_eq(key.as_slice(), "color".as_bytes()) {
                    if color.is_some() {
                        return None;
                    }
                    match parse_uint32(s, c) {
                        Some((v, d)) => {
                            color = Some(v);
                            first = false;
                            j = d;
                        },
                        None => {
                            return None;
                        },
                    }
                } else {
                    match skip_value(s, c, SKIP_DEPTH) {
                        Some(d) => {
                            first = false;
                            j = d;
                        },
                        None => {
                            return None;
                        },
                    }
                }
            },
        }
    }
}

/// The member list of a stored schedule object: the programme array and the
/// `current` index, in any order. Nothing but whitespace may follow the
/// closing brace.
pub open spec fn sp_repertoire_members(
    s: Seq<u8>,
    i: int,
    first: bool,
    programs: Option<Seq<ProgramModel>>,
    current: Option<u32>,
) -> Option<RepertoireModel>
    decreases s.len() - i,
    when 0 <= i <= s.len()
{
    let j = ws_at(s, i);
    if j >= s.len() {
        None
    } else if s[j] == 125 {
        if programs is Some && current is Some && ws_at(s, j + 1) == s.len() {
            Some(RepertoireModel { programs: programs.unwrap(), current: current.unwrap() })
        } else {
            None
        }
    } else {
        let k = if first {
            j
        } else if s[j] == 44 {
            ws_at(s, j + 1)
        } else {
            -1
        };
        if k < 0 {
            None
        } else {
            match sp_string(s, k) {
                None => None,
                Some((key, a)) => {
                    let b = ws_at(s, a);
                    if b >= s.len() || s[b] != 58 {
                        None
                    } else {
                        let c = ws_at(s, b + 1);
                        if key == "programs".spec_bytes() {
                            if programs is Some || c >= s.len() || s[c] != 91 {
                                None
                            } else {
                                match sp_programs(s, c + 1, true, Seq::empty()) {
                                    Some((ps, d)) => if i < d <= s.len() {
                                        sp_repertoire_members(s, d, false, Some(ps), current)
                                    } else {
                                        None
                                    },
                                    None => None,
                                }
                            }
                        } else if key == "current".spec_bytes() {
                            if current is Some {
                                None
                            } else {
                                match sp_uint32(s, c) {
                                    Some((v, d)) => if i < d <= s.len() {
                                        sp_repertoire_members(s, d, false, programs, Some(v))
                                    } else {
                                        None
                                    },
                                    None => None,
                                }
                            }
                        } else {
                            match sp_skip_value(s, c, SKIP_DEPTH) {
                                Some(d) => if i < d <= s.len() {
                                    sp_repertoire_members(s, d, false, programs, current)
                                } else {
                                    None
                                },
                                None => None,
                            }
                        }
                    }
                },
            }
        }
    }
}

/// A complete stored schedule: optional whitespace, then the object.
pub open spec fn sp_repertoire(s: Seq<u8>) -> Option<RepertoireModel> {
    let i = ws_at(s, 0);
    if i < s.len() && s[i] == 123 {
        sp_repertoire_members(s, i + 1, true, None, None)
    } else {
        None
    }
}

/// Parses a schedule read back from storage.
pub fn parse_repertoire(s: &[u8]) -> (r: Option<Repertoire>)
    ensures
        match r {
            Some(rep) => sp_repertoire(s@) == Some(rep@),
            None => sp_repertoire(s@) is None,
        },
{
    let n: usize = s.len();
    let i = skip_ws(s, 0);
    if i >= n || s[i] != 123 {
        return None;
    }
    let mut j: usize = i + 1;
    let mut first: bool = true;
    let mut programs: Option<Vec<Program>> = None;
    let mut current: Option<u32> = None;
    loop
        invariant
            j <= n == s@.len(),
            sp_repertoire(s@) == sp_repertoire_members(
                s@,
                j as int,
                first,
                opt_programs_view(programs),
                current,
            ),
        decreases n - j,
    {
        let j2 = skip_ws(s, j);
        if j2 >= n {
            return None;
        }
        if s[j2] == 125 {
            let endw = skip_ws(s, j2 + 1);
            if programs.is_some() && current.is_some() && endw == n {
                let ps = programs.unwrap();
                let cur = current.unwrap();
                return Some(Repertoire { programs: ps, current: cur });
            }
            return None;
        }
        let k: usize;
        if first {
            k = j2;
        } else {
            if s[j2] != 44 {
                return None;
            }
            k = skip_ws(s, j2 + 1);
        }
        match parse_string(s, k) {
            None => {
                return None;
            },
            Some((key, a)) => {
                let b = skip_ws(s, a);
                if b >= n || s[b] != 58 {
                    return None;
                }
                let c = skip_ws(s, b + 1);
                if bytes_eq(key.as_slice(), "programs".as_bytes()) {
                    if programs.is_some() || c >= n || s[c] != 91 {
                        return None;
                    }
                    match parse_programs(s, c + 1) {
                        Some((ps, d)) => {
                            programs = Some(ps);
                            first = false;
                            j = d;
                        },
                        None => {
                            return None;
                        },
                    }
                } else if bytes_eq(key.as_slice(), "current".as_bytes()) {
                    if current.is_some() {
                        return None;
                    }
                    match parse_uint32(s, c) {
                        Some((v, d)) => {
                            current = Some(v);
                            first = false;
                            j = d;
                        },
                        None => {
                            return None;
                        },
                    }
                } else {
                    match skip_value(s, c, SKIP_DEPTH) {
                        Some(d) => {
                            first = false;
                            j = d;
                        },
                        None => {
                            return None;
                        },
                    }
                }
            },
        }
    }
}

} // verus!
