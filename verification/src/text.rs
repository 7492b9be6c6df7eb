//! Byte-level text utilities shared by the wire-message builders and parsers.
//!
//! All wire text is handled as UTF-8 bytes. Numbers are rendered and read in
//! decimal, strings are escaped as JSON string literals, and inbound fragment
//! buffers are cut down to their longest valid UTF-8 prefix before dispatch.
use vstd::prelude::*;
use vstd::utf8::*;

verus! {

/// ASCII whitespace, as trimmed from login frames.
pub open spec fn is_ws(b: u8) -> bool {
    b == 32 || (9 <= b <= 13)
}

pub open spec fn ws_prefix(s: Seq<u8>) -> int
    decreases s.len(),
{
    if s.len() == 0 || !is_ws(s[0]) {
        0
    } else {
        1 + ws_prefix(s.drop_first())
    }
}

pub open spec fn ws_suffix(s: Seq<u8>) -> int
    decreases s.len(),
{
    if s.len() == 0 || !is_ws(s.last()) {
        0
    } else {
        1 + ws_suffix(s.drop_last())
    }
}

/// The sequence with ASCII whitespace removed from both ends.
pub open spec fn spec_trim(s: Seq<u8>) -> Seq<u8> {
    if ws_prefix(s) == s.len() {
        Seq::empty()
    } else {
        s.subrange(ws_prefix(s), s.len() - ws_suffix(s))
    }
}

pub proof fn lemma_ws_prefix(s: Seq<u8>)
    ensures
        0 <= ws_prefix(s) <= s.len(),
        forall|j: int| 0 <= j < ws_prefix(s) ==> is_ws(#[trigger] s[j]),
        ws_prefix(s) < s.len() ==> !is_ws(s[ws_prefix(s)]),
    decreases s.len(),
{
    if s.len() == 0 || !is_ws(s[0]) {
    } else {
        lemma_ws_prefix(s.drop_first());
        assert forall|j: int| 0 <= j < ws_prefix(s) implies is_ws(#[trigger] s[j]) by {
            if j > 0 {
                assert(s.drop_first()[j - 1] == s[j]);
            }
        }
        if ws_prefix(s) < s.len() {
            assert(s.drop_first()[ws_prefix(s) - 1] == s[ws_prefix(s)]);
        }
    }
}

pub proof fn lemma_ws_suffix(s: Seq<u8>)
    ensures
        0 <= ws_suffix(s) <= s.len(),
        forall|j: int| s.len() - ws_suffix(s) <= j < s.len() ==> is_ws(#[trigger] s[j]),
        ws_suffix(s) < s.len() ==> !is_ws(s[s.len() - ws_suffix(s) - 1]),
    decreases s.len(),
{
    if s.len() == 0 || !is_ws(s.last()) {
    } else {
        lemma_ws_suffix(s.drop_last());
        assert forall|j: int| s.len() - ws_suffix(s) <= j < s.len() implies is_ws(
            #[trigger] s[j],
        ) by {
            if j < s.len() - 1 {
                assert(s.drop_last()[j] == s[j]);
            }
        }
    }
}

proof fn lemma_ws_prefix_of_scan(s: Seq<u8>, a: int)
    requires
        0 <= a <= s.len(),
        forall|j: int| 0 <= j < a ==> is_ws(#[trigger] s[j]),
        a < s.len() ==> !is_ws(s[a]),
    ensures
        ws_prefix(s) == a,
    decreases s.len(),
{
    if s.len() == 0 {
    } else if a == 0 {
        lemma_ws_prefix(s);
        if ws_prefix(s) > 0 {
            assert(is_ws(s[0]));
        }
    } else {
        assert(is_ws(s[0]));
        assert forall|j: int| 0 <= j < a - 1 implies is_ws(#[trigger] s.drop_first()[j]) by {
            assert(s.drop_first()[j] == s[j + 1]);
        }
        if a - 1 < s.drop_first().len() {
            assert(s.drop_first()[a - 1] == s[a]);
        }
        lemma_ws_prefix_of_scan(s.drop_first(), a - 1);
    }
}

proof fn lemma_ws_suffix_of_scan(s: Seq<u8>, b: int)
    requires
        0 <= b <= s.len(),
        forall|j: int| b <= j < s.len() ==> is_ws(#[trigger] s[j]),
        b > 0 ==> !is_ws(s[b - 1]),
    ensures
        ws_suffix(s) == s.len() - b,
    decreases s.len(),
{
    if s.len() == 0 {
    } else if b == s.len() {
        lemma_ws_suffix(s);
        if ws_suffix(s) > 0 {
            assert(is_ws(s.last()));
        }
    } else {
        assert(is_ws(s.last()));
        assert forall|j: int| b <= j < s.drop_last().len() implies is_ws(
            #[trigger] s.drop_last()[j],
        ) by {
            assert(s.drop_last()[j] == s[j]);
        }
        if b > 0 {
            assert(s.drop_last()[b - 1] == s[b - 1]);
        }
        lemma_ws_suffix_of_scan(s.drop_last(), b);
    }
}

/// Removes ASCII whitespace from both ends, as the login comparison does.
pub fn trim(s: &[u8]) -> (r: Vec<u8>)
    ensures
        r@ == spec_trim(s@),
{
    let n: usize = s.len();
    let mut a: usize = 0;
    while a < n && (s[a] == 32 || (9 <= s[a] && s[a] <= 13))
        invariant
            0 <= a <= n == s@.len(),
            forall|j: int| 0 <= j < a ==> is_ws(#[trigger] s@[j]),
        decreases n - a,
    {
        a = a + 1;
    }
    proof {
        lemma_ws_prefix_of_scan(s@, a as int);
    }
    if a == n {
        let out: Vec<u8> = Vec::new();
        assert(out@ =~= spec_trim(s@));
        return out;
    }
    let mut b: usize = n;
    while b > a && (s[b - 1] == 32 || (9 <= s[b - 1] && s[b - 1] <= 13))
        invariant
            0 <= a <= b <= n == s@.len(),
            forall|j: int| b <= j < n ==> is_ws(#[trigger] s@[j]),
        decreases b,
    {
        b = b - 1;
    }
    proof {
        assert(!is_ws(s@[a as int]));
        assert(b > a) by {
            if b == a {
                assert(is_ws(s@[a as int]));
            }
        }
        lemma_ws_suffix_of_scan(s@, b as int);
    }
    let mut out: Vec<u8> = Vec::new();
    let mut i: usize = a;
    while i < b
        invariant
            a <= i <= b <= s@.len(),
            out@ == s@.subrange(a as int, i as int),
        decreases b - i,
    {
        out.push(s[i]);
        assert(out@ =~= s@.subrange(a as int, i + 1 as int));
        i = i + 1;
    }
    assert(out@ =~= spec_trim(s@));
    out
}

/// An owned copy of a byte string.
pub fn clone_bytes(v: &[u8]) -> (r: Vec<u8>)
    ensures
        r@ == v@,
{
    let mut out: Vec<u8> = Vec::new();
    let n: usize = v.len();
    let mut i: usize = 0;
    while i < n
        invariant
            0 <= i <= n == v@.len(),
            out@ == v@.take(i as int),
        decreases n - i,
    {
        out.push(v[i]);
        assert(out@ =~= v@.take(i + 1));
        i = i + 1;
    }
    assert(out@ =~= v@);
    out
}

/// An owned copy of the bytes from `a` (inclusive) to `b` (exclusive).
pub fn clone_bytes_range(v: &[u8], a: usize, b: usize) -> (r: Vec<u8>)
    requires
        a <= b <= v@.len(),
    ensures
        r@ == v@.subrange(a as int, b as int),
{
    let mut out: Vec<u8> = Vec::new();
    let mut i: usize = a;
    while i < b
        invariant
            a <= i <= b <= v@.len(),
            out@ == v@.subrange(a as int, i as int),
        decreases b - i,
    {
        out.push(v[i]);
        assert(out@ =~= v@.subrange(a as int, i + 1 as int));
        i = i + 1;
    }
    out
}

/// True when the two byte strings hold the same bytes.
pub fn bytes_eq(a: &[u8], b: &[u8]) -> (r: bool)
    ensures
        r <==> a@ == b@,
{
    if a.len() != b.len() {
        return false;
    }
    let n: usize = a.len();
    let mut i: usize = 0;
    while i < n
        invariant
            0 <= i <= n,
            n == a@.len() == b@.len(),
            forall|j: int| 0 <= j < i ==> a@[j] == b@[j],
        decreases n - i,
    {
        if a[i] != b[i] {
            return false;
        }
        i = i + 1;
    }
    proof {
        assert(a@ =~= b@);
    }
    true
}

/// The decimal digits of `n`, most significant first.
pub open spec fn dec_digits(n: nat) -> Seq<u8>
    decreases n,
{
    if n < 10 {
        seq![(48 + n) as u8]
    } else {
        dec_digits(n / 10).push((48 + n % 10) as u8)
    }
}

/// Renders `n` in decimal ASCII.
pub fn u64_to_dec(n: u64) -> (r: Vec<u8>)
    ensures
        r@ == dec_digits(n as nat),
{
    let mut out: Vec<u8> = Vec::new();
    let mut m: u64 = n;
    while m >= 10
        invariant
            dec_digits(n as nat) == dec_digits(m as nat) + out@,
        decreases m,
    {
        let ghost pre = out@;
        let d: u8 = (m % 10) as u8 + 48;
        out.insert(0, d);
        assert(out@ =~= seq![d] + pre);
        assert(dec_digits((m / 10) as nat).push(d) + pre =~= dec_digits((m / 10) as nat) + out@);
        m = m / 10;
    }
    let ghost pre = out@;
    let d: u8 = m as u8 + 48;
    out.insert(0, d);
    assert(out@ =~= seq![d] + pre);
    assert(dec_digits(m as nat) + pre =~= out@);
    out
}

/// Renders `n` in decimal ASCII.
pub fn u32_to_dec(n: u32) -> (r: Vec<u8>)
    ensures
        r@ == dec_digits(n as nat),
{
    u64_to_dec(n as u64)
}

pub open spec fn is_digit(b: u8) -> bool {
    48 <= b <= 57
}

pub open spec fn all_digits(s: Seq<u8>) -> bool {
    forall|i: int| 0 <= i < s.len() ==> is_digit(#[trigger] s[i])
}

/// The number a decimal digit string denotes.
pub open spec fn dec_val(s: Seq<u8>) -> nat
    decreases s.len(),
{
    if s.len() == 0 {
        0
    } else {
        dec_val(s.drop_last()) * 10 + (s.last() - 48) as nat
    }
}

proof fn lemma_dec_val_step(s: Seq<u8>, i: int)
    requires
        0 <= i < s.len(),
    ensures
        dec_val(s.take(i + 1)) == dec_val(s.take(i)) * 10 + (s[i] - 48) as nat,
{
    assert(s.take(i + 1).drop_last() =~= s.take(i));
    assert(s.take(i + 1).last() == s[i]);
}

proof fn lemma_dec_val_monotone(s: Seq<u8>, i: int)
    requires
        0 <= i <= s.len(),
    ensures
        dec_val(s.take(i)) <= dec_val(s),
    decreases s.len() - i,
{
    if i == s.len() {
        assert(s.take(i) =~= s);
    } else {
        lemma_dec_val_step(s, i);
        lemma_dec_val_monotone(s, i + 1);
    }
}

/// Reads a decimal number, refusing empty input, non-digits, and values
/// above `max`.
pub fn parse_dec(s: &[u8], max: u64) -> (r: Option<u64>)
    ensures
        r is Some <==> s@.len() > 0 && all_digits(s@) && dec_val(s@) <= max,
        r is Some ==> r == Some((dec_val(s@) as u64)),
{
    let n: usize = s.len();
    if n == 0 {
        return None;
    }
    let mut acc: u128 = 0;
    let mut i: usize = 0;
    while i < n
        invariant
            0 <= i <= n == s@.len(),
            acc == dec_val(s@.take(i as int)),
            acc <= max,
            max <= u64::MAX,
            forall|j: int| 0 <= j < i ==> is_digit(#[trigger] s@[j]),
        decreases n - i,
    {
        let b: u8 = s[i];
        if b < 48 || b > 57 {
            return None;
        }
        proof {
            lemma_dec_val_step(s@, i as int);
        }
        let next: u128 = acc * 10 + (b - 48) as u128;
        if next > max as u128 {
            proof {
                lemma_dec_val_monotone(s@, i + 1);
            }
            return None;
        }
        acc = next;
        i = i + 1;
    }
    proof {
        assert(s@.take(n as int) =~= s@);
    }
    Some(acc as u64)
}

/// Reads a decimal `u32`.
pub fn parse_dec_u32(s: &[u8]) -> (r: Option<u32>)
    ensures
        r is Some <==> s@.len() > 0 && all_digits(s@) && dec_val(s@) <= u32::MAX,
        r is Some ==> r == Some((dec_val(s@) as u32)),
{
    match parse_dec(s, 0xffff_ffff) {
        Some(v) => Some(v as u32),
        None => None,
    }
}

/// ASCII hex digit for a value below 16, lower case.
pub open spec fn hex_digit(n: u8) -> u8 {
    if n < 10 {
        (48 + n) as u8
    } else {
        (87 + n) as u8
    }
}

/// The JSON escape of one byte of string content: quote and backslash get a
/// backslash escape, control bytes get their short escape or a `\u00xx`
/// escape, and every other byte stands for itself.
pub open spec fn esc_byte(b: u8) -> Seq<u8> {
    if b == 34 {
        seq![92u8, 34u8]
    } else if b == 92 {
        seq![92u8, 92u8]
    } else if b == 8 {
        seq![92u8, 98u8]
    } else if b == 9 {
        seq![92u8, 116u8]
    } else if b == 10 {
        seq![92u8, 110u8]
    } else if b == 12 {
        seq![92u8, 102u8]
    } else if b == 13 {
        seq![92u8, 114u8]
    } else if b < 32 {
        seq![92u8, 117u8, 48u8, 48u8, hex_digit(b / 16), hex_digit(b % 16)]
    } else {
        seq![b]
    }
}

pub open spec fn esc_all(s: Seq<u8>) -> Seq<u8>
    decreases s.len(),
{
    if s.len() == 0 {
        Seq::empty()
    } else {
        esc_byte(s[0]) + esc_all(s.drop_first())
    }
}

pub proof fn lemma_esc_all_snoc(s: Seq<u8>, i: int)
    requires
        0 <= i < s.len(),
    ensures
        esc_all(s.take(i + 1)) == esc_all(s.take(i)) + esc_byte(s[i]),
    decreases i,
{
    if i == 0 {
        assert(s.take(1)[0] == s[0]);
        assert(s.take(1).drop_first() =~= s.take(0));
        assert(esc_all(s.take(1)) =~= esc_byte(s[0]) + esc_all(s.take(0)));
        assert(esc_all(s.take(0)) =~= Seq::<u8>::empty());
        assert(esc_all(s.take(1)) =~= esc_all(s.take(0)) + esc_byte(s[0]));
    } else {
        let t = s.drop_first();
        lemma_esc_all_snoc(t, i - 1);
        assert(s.take(i + 1)[0] == s[0]);
        assert(s.take(i + 1).drop_first() =~= t.take(i));
        assert(s.take(i).drop_first() =~= t.take(i - 1));
        assert(t[i - 1] == s[i]);
        assert(esc_byte(s[0]) + (esc_all(t.take(i - 1)) + esc_byte(s[i])) =~= (esc_byte(s[0])
            + esc_all(t.take(i - 1))) + esc_byte(s[i]));
    }
}

/// A JSON string literal holding `s`: a double quote, each byte escaped, and
/// a closing double quote.
pub open spec fn json_quoted(s: Seq<u8>) -> Seq<u8> {
    seq![34u8] + esc_all(s) + seq![34u8]
}

/// Renders string content as a JSON string literal.
pub fn json_quote(s: &[u8]) -> (r: Vec<u8>)
    ensures
        r@ == json_quoted(s@),
{
    let n: usize = s.len();
    let mut out: Vec<u8> = Vec::new();
    out.push(34);
    assert(out@ =~= seq![34u8] + esc_all(s@.take(0)));
    let mut i: usize = 0;
    while i < n
        invariant
            0 <= i <= n == s@.len(),
            out@ == seq![34u8] + esc_all(s@.take(i as int)),
        decreases n - i,
    {
        let ghost pre = out@;
        let b: u8 = s[i];
        if b == 34 {
            out.push(92);
            out.push(34);
        } else if b == 92 {
            out.push(92);
            out.push(92);
        } else if b == 8 {
            out.push(92);
            out.push(98);
        } else if b == 9 {
            out.push(92);
            out.push(116);
        } else if b == 10 {
            out.push(92);
            out.push(110);
        } else if b == 12 {
            out.push(92);
            out.push(102);
        } else if b == 13 {
            out.push(92);
            out.push(114);
        } else if b < 32 {
            out.push(92);
            out.push(117);
            out.push(48);
            out.push(48);
            let hi: u8 = b / 16;
            let lo: u8 = b % 16;
            out.push(if hi < 10 {
                48 + hi
            } else {
                87 + hi
            });
            out.push(if lo < 10 {
                48 + lo
            } else {
                87 + lo
            });
        } else {
            out.push(b);
        }
        proof {
            lemma_esc_all_snoc(s@, i as int);
            assert(out@ =~= pre + esc_byte(s@[i as int]));
            assert(pre + esc_byte(s@[i as int]) =~= seq![34u8] + esc_all(s@.take(i + 1)));
        }
        i = i + 1;
    }
    let ghost pre = out@;
    out.push(34);
    proof {
        assert(s@.take(n as int) =~= s@);
        assert(out@ =~= json_quoted(s@));
    }
    out
}

/// The number of Unicode scalar values a UTF-8 byte string encodes, counted
/// as its non-continuation bytes.
pub open spec fn scalar_count(s: Seq<u8>) -> nat
    decreases s.len(),
{
    if s.len() == 0 {
        0
    } else {
        (if is_continuation_byte(s[0]) {
            0nat
        } else {
            1nat
        }) + scalar_count(s.drop_first())
    }
}

proof fn lemma_scalar_count_skip(s: Seq<u8>, i: int)
    requires
        0 <= i < s.len(),
    ensures
        scalar_count(s.skip(i)) == (if is_continuation_byte(s[i]) {
            0nat
        } else {
            1nat
        }) + scalar_count(s.skip(i + 1)),
{
    assert(s.skip(i)[0] == s[i]);
    assert(s.skip(i).drop_first() =~= s.skip(i + 1));
}

/// Counts the Unicode scalar values in a UTF-8 byte string.
pub fn count_scalars(s: &[u8]) -> (n: usize)
    ensures
        n == scalar_count(s@),
{
    let len: usize = s.len();
    let mut cnt: usize = 0;
    let mut i: usize = 0;
    assert(s@.skip(0) =~= s@);
    while i < len
        invariant
            0 <= i <= len == s@.len(),
            cnt <= i,
            cnt + scalar_count(s@.skip(i as int)) == scalar_count(s@),
        decreases len - i,
    {
        proof {
            lemma_scalar_count_skip(s@, i as int);
        }
        let b: u8 = s[i];
        if !(0x80 <= b && b <= 0xbf) {
            cnt = cnt + 1;
        }
        i = i + 1;
    }
    assert(s@.skip(len as int) =~= Seq::<u8>::empty());
    cnt
}

proof fn lemma_scalar_count_unfold(s: Seq<u8>, k: int)
    requires
        1 <= k <= 4,
        k <= s.len(),
        !is_continuation_byte(s[0]),
        forall|j: int| 1 <= j < k ==> is_continuation_byte(#[trigger] s[j]),
    ensures
        scalar_count(s) == 1 + scalar_count(s.skip(k)),
    decreases k,
{
    if k == 1 {
        assert(s.drop_first() =~= s.skip(1));
    } else {
        let t = s.drop_first();
        assert(t =~= s.skip(1));
        assert(scalar_count(s) == 1 + scalar_count(t));
        assert(t.drop_first() =~= s.skip(2));
        if k == 2 {
            assert(scalar_count(t) == scalar_count(s.skip(2)));
        } else {
            let u = s.skip(2);
            assert(scalar_count(t) == scalar_count(u));
            assert(u.drop_first() =~= s.skip(3));
            if k == 3 {
                assert(scalar_count(u) == scalar_count(s.skip(3)));
            } else {
                let v = s.skip(3);
                assert(scalar_count(u) == scalar_count(v));
                assert(v.drop_first() =~= s.skip(4));
                assert(scalar_count(v) == scalar_count(s.skip(4)));
            }
        }
    }
}

/// On valid UTF-8 input, counting the non-continuation bytes counts
/// exactly the Unicode scalar values the input decodes to, so the content
/// cap is a cap on scalar values.
pub proof fn lemma_scalar_count_is_decoded_len(s: Seq<u8>)
    requires
        valid_utf8(s),
    ensures
        scalar_count(s) == decode_utf8(s).len(),
    decreases s.len(),
{
    if s.len() != 0 {
        let k = length_of_first_scalar(s);
        assert(!is_continuation_byte(s[0]));
        assert(forall|j: int| 1 <= j < k ==> is_continuation_byte(#[trigger] s[j]));
        lemma_scalar_count_unfold(s, k);
        assert(pop_first_scalar(s) =~= s.skip(k));
        lemma_scalar_count_is_decoded_len(pop_first_scalar(s));
    }
}

/// The length of the longest prefix of `s` that is valid UTF-8, scanning
/// scalar by scalar and stopping at the first ill-formed sequence.
pub open spec fn utf8_prefix_len(s: Seq<u8>) -> int
    decreases s.len(),
    when s.len() >= 0
    via utf8_prefix_len_decreases
{
    if s.len() == 0 || !valid_first_scalar(s) {
        0
    } else {
        length_of_first_scalar(s) + utf8_prefix_len(pop_first_scalar(s))
    }
}

#[via_fn]
proof fn utf8_prefix_len_decreases(s: Seq<u8>) {
    if s.len() != 0 && valid_first_scalar(s) {
        assert(pop_first_scalar(s).len() < s.len());
    }
}

pub proof fn lemma_utf8_prefix_len_bounds(s: Seq<u8>)
    ensures
        0 <= utf8_prefix_len(s) <= s.len(),
    decreases s.len(),
{
    if s.len() != 0 && valid_first_scalar(s) {
        lemma_utf8_prefix_len_bounds(pop_first_scalar(s));
    }
}

/// On fully valid UTF-8 input the prefix is the whole string.
pub proof fn lemma_utf8_prefix_len_valid(s: Seq<u8>)
    requires
        valid_utf8(s),
    ensures
        utf8_prefix_len(s) == s.len(),
    decreases s.len(),
{
    if s.len() != 0 {
        lemma_utf8_prefix_len_valid(pop_first_scalar(s));
    }
}

fn utf8_prefix_scan(v: &[u8]) -> (n: usize)
    ensures
        n == utf8_prefix_len(v@),
{
    let len: usize = v.len();
    let mut i: usize = 0;
    assert(v@.skip(0) =~= v@);
    loop
        invariant
            0 <= i <= len == v@.len(),
            utf8_prefix_len(v@) == i + utf8_prefix_len(v@.skip(i as int)),
        decreases len - i,
    {
        let ghost rest = v@.skip(i as int);
        if i >= len {
            return i;
        }
        let b0: u8 = v[i];
        proof {
            assert(rest[0] == v@[i as int]);
            assert(rest.len() == len - i);
        }
        if b0 <= 0x7f {
            proof {
                assert(valid_first_scalar(rest));
                assert(length_of_first_scalar(rest) == 1);
                assert(pop_first_scalar(rest) =~= v@.skip(i + 1));
            }
            i = i + 1;
        } else if 0xc0 <= b0 && b0 <= 0xdf {
            if i + 1 >= len || !(0x80 <= v[i + 1] && v[i + 1] <= 0xbf) {
                proof {
                    assert(!valid_first_scalar(rest));
                }
                return i;
            }
            let b1: u8 = v[i + 1];
            proof {
                assert(rest[1] == v@[i + 1]);
            }
            let cp: u32 = (((b0 & 0x1f) as u32) << 6u32) | ((b1 & 0x3f) as u32);
            proof {
                assert((((b0 & 0x1f) as u32) << 6u32) | ((b1 & 0x3f) as u32) <= 0x7ff) by (bit_vector);
                assert(decode_first_codepoint(rest) == cp);
            }
            if cp < 0x80 {
                proof {
                    assert(!valid_first_scalar(rest));
                }
                return i;
            }
            proof {
                assert(valid_first_scalar(rest));
                assert(length_of_first_scalar(rest) == 2);
                assert(pop_first_scalar(rest) =~= v@.skip(i + 2));
            }
            i = i + 2;
        } else if 0xe0 <= b0 && b0 <= 0xef {
            if len - i < 3 || !(0x80 <= v[i + 1] && v[i + 1] <= 0xbf) || !(0x80 <= v[i + 2]
                && v[i + 2] <= 0xbf) {
                proof {
                    assert(!valid_first_scalar(rest));
                }
                return i;
            }
            let b1: u8 = v[i + 1];
            let b2: u8 = v[i + 2];
            proof {
                assert(rest[1] == v@[i + 1]);
                assert(rest[2] == v@[i + 2]);
            }
            let cp: u32 = (((b0 & 0x0f) as u32) << 12u32) | (((b1 & 0x3f) as u32) << 6u32) | ((b2
                & 0x3f) as u32);
            proof {
                assert((((b0 & 0x0f) as u32) << 12u32) | (((b1 & 0x3f) as u32) << 6u32) | ((b2
                    & 0x3f) as u32) <= 0xffff) by (bit_vector);
                assert(decode_first_codepoint(rest) == cp);
            }
            if cp < 0x800 || (0xd800 <= cp && cp <= 0xdfff) {
                proof {
                    assert(!valid_first_scalar(rest));
                }
                return i;
            }
            proof {
                assert(valid_first_scalar(rest));
                assert(length_of_first_scalar(rest) == 3);
                assert(pop_first_scalar(rest) =~= v@.skip(i + 3));
            }
            i = i + 3;
        } else if 0xf0 <= b0 && b0 <= 0xf7 {
            if len - i < 4 || !(0x80 <= v[i + 1] && v[i + 1] <= 0xbf) || !(0x80 <= v[i + 2]
                && v[i + 2] <= 0xbf) || !(0x80 <= v[i + 3] && v[i + 3] <= 0xbf) {
                proof {
                    assert(!valid_first_scalar(rest));
                }
                return i;
            }
            let b1: u8 = v[i + 1];
            let b2: u8 = v[i + 2];
            let b3: u8 = v[i + 3];
            proof {
                assert(rest[1] == v@[i + 1]);
                assert(rest[2] == v@[i + 2]);
                assert(rest[3] == v@[i + 3]);
            }
            let cp: u32 = (((b0 & 0x07) as u32) << 18u32) | (((b1 & 0x3f) as u32) << 12u32) | (((b2
                & 0x3f) as u32) << 6u32) | ((b3 & 0x3f) as u32);
            proof {
                assert(decode_first_codepoint(rest) == cp);
            }
            if cp < 0x10000 || cp > 0x10ffff {
                proof {
                    assert(!valid_first_scalar(rest));
                }
                return i;
            }
            proof {
                assert(valid_first_scalar(rest));
                assert(length_of_first_scalar(rest) == 4);
                assert(pop_first_scalar(rest) =~= v@.skip(i + 4));
            }
            i = i + 4;
        } else {
            proof {
                assert(!valid_first_scalar(rest));
            }
            return i;
        }
    }
}

/// Cuts a byte string down to its longest valid UTF-8 prefix, the permissive
/// decode applied to a reassembled text fragment before dispatch.
pub fn utf8_prefix(v: &[u8]) -> (r: Vec<u8>)
    ensures
        r@ == v@.take(utf8_prefix_len(v@)),
{
    let n: usize = utf8_prefix_scan(v);
    proof {
        lemma_utf8_prefix_len_bounds(v@);
    }
    let mut out: Vec<u8> = Vec::new();
    let mut i: usize = 0;
    while i < n
        invariant
            0 <= i <= n <= v@.len(),
            out@ == v@.take(i as int),
        decreases n - i,
    {
        out.push(v[i]);
        assert(out@ =~= v@.take(i + 1));
        i = i + 1;
    }
    out
}

} // verus!
