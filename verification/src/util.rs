//! Byte-level helpers shared by the header scanner, the serializer and the
//! WebSocket codec: ASCII case folding, whitespace trimming, comma-separated
//! token matching, and decimal / hexadecimal / big-endian number rendering.

use vstd::prelude::*;

verus! {

/// Linear whitespace (and line break) bytes stripped from header values.
pub open spec fn is_space(b: u8) -> bool {
    b == 32 || b == 9 || b == 13 || b == 10
}

/// ASCII lower-casing of one byte.
pub open spec fn lower_byte(b: u8) -> u8 {
    if 65 <= b && b <= 90 {
        (b + 32) as u8
    } else {
        b
    }
}

/// ASCII lower-casing of a byte string.
pub open spec fn lower_seq(s: Seq<u8>) -> Seq<u8> {
    s.map_values(|b: u8| lower_byte(b))
}

/// The bytes of an ASCII string literal.
pub open spec fn ascii_bytes(s: Seq<char>) -> Seq<u8> {
    Seq::new(s.len(), |i: int| s[i] as u8)
}

pub fn byte_lower(b: u8) -> (r: u8)
    ensures
        r == lower_byte(b),
{
    if 65 <= b && b <= 90 {
        b + 32
    } else {
        b
    }
}

fn is_space_b(b: u8) -> (r: bool)
    ensures
        r == is_space(b),
{
    b == 32 || b == 9 || b == 13 || b == 10
}

/// View of an ASCII `&str` as its byte string.
pub fn str_bytes<'a>(s: &'a str) -> (r: &'a [u8])
    requires
        vstd::string::is_ascii(s),
    ensures
        r@ == ascii_bytes(s@),
{
    proof {
        broadcast use vstd::string::is_ascii_spec_bytes;

    }
    let r = s.as_bytes();
    proof {
        assert(r@ =~= ascii_bytes(s@));
    }
    r
}

/// Case-insensitive comparison against an already lower-case byte string.
pub fn eq_lower(a: &[u8], b: &[u8]) -> (r: bool)
    ensures
        r == (lower_seq(a@) == b@),
{
    if a.len() != b.len() {
        proof {
            assert(lower_seq(a@).len() == a@.len());
        }
        return false;
    }
    let mut i: usize = 0;
    while i < a.len()
        invariant
            0 <= i <= a.len(),
            a.len() == b.len(),
            a@.len() == b@.len(),
            forall|j: int| 0 <= j < i ==> lower_byte(a@[j]) == b@[j],
        decreases a.len() - i,
    {
        if byte_lower(a[i]) != b[i] {
            proof {
                assert(lower_seq(a@)[i as int] == lower_byte(a@[i as int]));
            }
            return false;
        }
        i += 1;
    }
    proof {
        assert(lower_seq(a@) =~= b@);
    }
    true
}

/// Leading whitespace removed.
pub open spec fn trim_front(s: Seq<u8>) -> Seq<u8>
    decreases s.len(),
{
    if s.len() > 0 && is_space(s[0]) {
        trim_front(s.drop_first())
    } else {
        s
    }
}

/// Trailing whitespace removed.
pub open spec fn trim_back(s: Seq<u8>) -> Seq<u8>
    decreases s.len(),
{
    if s.len() > 0 && is_space(s.last()) {
        trim_back(s.drop_last())
    } else {
        s
    }
}

/// Whitespace removed from both ends.
pub open spec fn trim_seq(s: Seq<u8>) -> Seq<u8> {
    trim_back(trim_front(s))
}

/// Strips leading and trailing whitespace from a byte string.
pub fn bytes_trim(x: &[u8]) -> (r: &[u8])
    ensures
        r@ == trim_seq(x@),
{
    let len = x.len();
    proof {
        assert(x@.subrange(0, len as int) =~= x@);
    }
    let mut start: usize = 0;
    while start < len && is_space_b(x[start])
        invariant
            0 <= start <= len == x@.len(),
            trim_front(x@) == trim_front(x@.subrange(start as int, len as int)),
        decreases len - start,
    {
        proof {
            let tail = x@.subrange(start as int, len as int);
            assert(tail[0] == x@[start as int]);
            assert(tail.drop_first() =~= x@.subrange(start as int + 1, len as int));
        }
        start += 1;
    }
    proof {
        let tail = x@.subrange(start as int, len as int);
        assert(trim_front(tail) == tail);
        assert(trim_front(x@) == tail);
    }
    let mut end: usize = len;
    while end > start && is_space_b(x[end - 1])
        invariant
            0 <= start <= end <= len == x@.len(),
            trim_front(x@) == x@.subrange(start as int, len as int),
            trim_seq(x@) == trim_back(x@.subrange(start as int, end as int)),
        decreases end,
    {
        proof {
            let cur = x@.subrange(start as int, end as int);
            assert(cur.last() == x@[end - 1]);
            assert(cur.drop_last() =~= x@.subrange(start as int, end as int - 1));
        }
        end -= 1;
    }
    proof {
        let cur = x@.subrange(start as int, end as int);
        assert(trim_back(cur) == cur);
    }
    &x[start..end]
}

/// A token equals a word after trimming and case folding.
pub open spec fn tok_is(t: Seq<u8>, w: Seq<u8>) -> bool {
    lower_seq(trim_seq(t)) == w
}

/// Index of the first comma, or -1 when there is none.
pub open spec fn find_comma(s: Seq<u8>) -> int
    decreases s.len(),
{
    if s.len() == 0 {
        -1
    } else if s[0] == 44 {
        0
    } else {
        let r = find_comma(s.drop_first());
        if r < 0 {
            -1
        } else {
            r + 1
        }
    }
}

pub proof fn lemma_find_comma(s: Seq<u8>)
    ensures
        find_comma(s) == -1 ==> forall|i: int| 0 <= i < s.len() ==> s[i] != 44,
        find_comma(s) >= 0 ==> 0 <= find_comma(s) < s.len() && s[find_comma(s)] == 44 && forall|
            i: int,
        | 0 <= i < find_comma(s) ==> s[i] != 44,
    decreases s.len(),
{
    if s.len() == 0 {
    } else if s[0] == 44 {
    } else {
        lemma_find_comma(s.drop_first());
        assert forall|i: int| 0 <= i < s.len() && i >= 1 implies s[i] == s.drop_first()[i - 1] by {}
    }
}

/// Some comma-separated token of `s` equals `w` after trim and case fold.
pub open spec fn any_token_is(s: Seq<u8>, w: Seq<u8>) -> bool
    decreases s.len(),
{
    let k = find_comma(s);
    if 0 <= k < s.len() {
        tok_is(s.subrange(0, k), w) || any_token_is(s.subrange(k + 1, s.len() as int), w)
    } else {
        tok_is(s, w)
    }
}

/// The part of `s` after its last comma (all of `s` when there is none).
pub open spec fn last_token(s: Seq<u8>) -> Seq<u8>
    decreases s.len(),
{
    if s.len() == 0 {
        s
    } else if s.last() == 44 {
        Seq::empty()
    } else {
        last_token(s.drop_last()).push(s.last())
    }
}

/// Returns the last comma-separated token of `s`.
pub fn last_token_slice<'a>(s: &'a [u8]) -> (r: &'a [u8])
    ensures
        r@ == last_token(s@),
{
    let len = s.len();
    proof {
        assert(s@.subrange(0, len as int) =~= s@);
        assert(s@.subrange(len as int, len as int) =~= Seq::<u8>::empty());
        assert(last_token(s@) + Seq::<u8>::empty() =~= last_token(s@));
    }
    let mut i: usize = len;
    while i > 0 && s[i - 1] != 44
        invariant
            0 <= i <= len == s@.len(),
            last_token(s@) == last_token(s@.subrange(0, i as int)) + s@.subrange(
                i as int,
                len as int,
            ),
        decreases i,
    {
        proof {
            let cur = s@.subrange(0, i as int);
            assert(cur.last() == s@[i - 1]);
            assert(cur.drop_last() =~= s@.subrange(0, i as int - 1));
            assert(last_token(cur) == last_token(cur.drop_last()).push(cur.last()));
            assert(last_token(cur.drop_last()).push(cur.last()) + s@.subrange(i as int, len as int)
                =~= last_token(cur.drop_last()) + s@.subrange(i as int - 1, len as int));
        }
        i -= 1;
    }
    proof {
        let cur = s@.subrange(0, i as int);
        if i > 0 {
            assert(cur.last() == s@[i - 1]);
            assert(last_token(cur) =~= Seq::<u8>::empty());
        }
        assert(last_token(cur) + s@.subrange(i as int, len as int) =~= s@.subrange(
            i as int,
            len as int,
        ));
    }
    &s[i..len]
}

/// Relies on std's str::from_utf8: it accepts exactly the byte strings
/// that are valid UTF-8, the encoding vstd's valid_utf8 spells out.
#[verifier::external_body]
pub fn check_utf8(b: &[u8]) -> (r: bool)
    ensures
        r == vstd::utf8::valid_utf8(b@),
{
    core::str::from_utf8(b).is_ok()
}

/// Exact equality of two byte strings.
pub fn eq_bytes(a: &[u8], b: &[u8]) -> (r: bool)
    ensures
        r == (a@ == b@),
{
    if a.len() != b.len() {
        return false;
    }
    let mut i: usize = 0;
    while i < a.len()
        invariant
            0 <= i <= a.len(),
            a@.len() == b@.len(),
            forall|j: int| 0 <= j < i ==> a@[j] == b@[j],
        decreases a.len() - i,
    {
        if a[i] != b[i] {
            return false;
        }
        i += 1;
    }
    proof {
        assert(a@ =~= b@);
    }
    true
}

/// The ASCII-lowercased copy of a byte string.
pub fn to_lower_vec(s: &[u8]) -> (r: Vec<u8>)
    ensures
        r@ == lower_seq(s@),
{
    let mut v: Vec<u8> = Vec::new();
    let mut i: usize = 0;
    while i < s.len()
        invariant
            0 <= i <= s.len(),
            v@ == lower_seq(s@.subrange(0, i as int)),
        decreases s.len() - i,
    {
        v.push(byte_lower(s[i]));
        proof {
            assert(v@ =~= lower_seq(s@.subrange(0, i as int + 1)));
        }
        i += 1;
    }
    proof {
        assert(lower_seq(s@.subrange(0, s@.len() as int)) =~= lower_seq(s@));
    }
    v
}

/// Trims a token and compares it, case-insensitively, against an already
/// lower-case byte string.
pub fn token_eq(t: &[u8], w: &[u8]) -> (r: bool)
    ensures
        r == tok_is(t@, w@),
{
    eq_lower(bytes_trim(t), w)
}

/// Does any comma-separated token of `s` equal the already lower-case
/// `w` after trim and case fold?
pub fn any_token_eq(s: &[u8], w: &[u8]) -> (r: bool)
    ensures
        r == any_token_is(s@, w@),
    decreases s@.len(),
{
    let len = s.len();
    let mut i: usize = 0;
    while i < len && s[i] != 44
        invariant
            0 <= i <= len == s@.len(),
            forall|j: int| 0 <= j < i ==> s@[j] != 44,
        decreases len - i,
    {
        i += 1;
    }
    proof {
        lemma_find_comma(s@);
    }
    if i < len {
        proof {
            assert(s@[i as int] == 44);
            assert(find_comma(s@) == i);
        }
        let pre = &s[0..i];
        if token_eq(pre, w) {
            proof {
                assert(pre@ == s@.subrange(0, i as int));
            }
            true
        } else {
            let rest = &s[i + 1..len];
            any_token_eq(rest, w)
        }
    } else {
        proof {
            assert(find_comma(s@) == -1);
        }
        token_eq(s, w)
    }
}

/// Index of the first occurrence of `b`, or -1 when there is none.
pub open spec fn find_byte(s: Seq<u8>, b: u8) -> int
    decreases s.len(),
{
    if s.len() == 0 {
        -1
    } else if s[0] == b {
        0
    } else {
        let r = find_byte(s.drop_first(), b);
        if r < 0 {
            -1
        } else {
            r + 1
        }
    }
}

pub proof fn lemma_find_byte(s: Seq<u8>, b: u8)
    ensures
        find_byte(s, b) == -1 ==> forall|i: int| 0 <= i < s.len() ==> s[i] != b,
        find_byte(s, b) >= 0 ==> 0 <= find_byte(s, b) < s.len() && s[find_byte(s, b)] == b
            && forall|i: int| 0 <= i < find_byte(s, b) ==> s[i] != b,
    decreases s.len(),
{
    if s.len() == 0 {
    } else if s[0] == b {
    } else {
        lemma_find_byte(s.drop_first(), b);
        assert forall|i: int| 0 <= i < s.len() && i >= 1 implies s[i] == s.drop_first()[i - 1] by {}
    }
}

/// Finds the first occurrence of `b` in `s`.
pub fn find_byte_at(s: &[u8], b: u8) -> (r: Option<usize>)
    ensures
        match r {
            Some(i) => i == find_byte(s@, b),
            None => find_byte(s@, b) == -1,
        },
{
    let len = s.len();
    let mut i: usize = 0;
    while i < len && s[i] != b
        invariant
            0 <= i <= len == s@.len(),
            forall|j: int| 0 <= j < i ==> s@[j] != b,
        decreases len - i,
    {
        i += 1;
    }
    proof {
        lemma_find_byte(s@, b);
    }
    if i < len {
        Some(i)
    } else {
        None
    }
}

/// Index of the first CRLF pair, or -1 when there is none.
pub open spec fn find_crlf(s: Seq<u8>) -> int
    decreases s.len(),
{
    if s.len() < 2 {
        -1
    } else if s[0] == 13 && s[1] == 10 {
        0
    } else {
        let r = find_crlf(s.drop_first());
        if r < 0 {
            -1
        } else {
            r + 1
        }
    }
}

pub proof fn lemma_find_crlf(s: Seq<u8>)
    ensures
        find_crlf(s) == -1 ==> forall|i: int|
            0 <= i < s.len() - 1 ==> !(#[trigger] s[i] == 13 && s[i + 1] == 10),
        find_crlf(s) >= 0 ==> 0 <= find_crlf(s) < s.len() - 1 && s[find_crlf(s)] == 13
            && s[find_crlf(s) + 1] == 10 && forall|i: int|
            0 <= i < find_crlf(s) ==> !(#[trigger] s[i] == 13 && s[i + 1] == 10),
    decreases s.len(),
{
    if s.len() < 2 {
    } else if s[0] == 13 && s[1] == 10 {
    } else {
        lemma_find_crlf(s.drop_first());
        assert forall|i: int| 0 <= i < s.len() && i >= 1 implies s[i] == s.drop_first()[i - 1] by {}
    }
}

/// Finds the first CRLF pair in `s`.
pub fn find_crlf_at(s: &[u8]) -> (r: Option<usize>)
    ensures
        match r {
            Some(i) => i == find_crlf(s@),
            None => find_crlf(s@) == -1,
        },
{
    let len = s.len();
    if len < 2 {
        proof {
            lemma_find_crlf(s@);
        }
        return None;
    }
    let mut i: usize = 0;
    while i < len - 1 && !(s[i] == 13 && s[i + 1] == 10)
        invariant
            0 <= i <= len - 1,
            len == s@.len(),
            len >= 2,
            forall|j: int| 0 <= j < i ==> !(#[trigger] s@[j] == 13 && s@[j + 1] == 10),
        decreases len - i,
    {
        i += 1;
    }
    proof {
        lemma_find_crlf(s@);
    }
    if i < len - 1 {
        Some(i)
    } else {
        None
    }
}

/// Index of the first `://`, or -1 when there is none.
pub open spec fn find_scheme_sep(s: Seq<u8>) -> int
    decreases s.len(),
{
    if s.len() < 3 {
        -1
    } else if s[0] == 58 && s[1] == 47 && s[2] == 47 {
        0
    } else {
        let r = find_scheme_sep(s.drop_first());
        if r < 0 {
            -1
        } else {
            r + 1
        }
    }
}

pub proof fn lemma_find_scheme_sep(s: Seq<u8>)
    ensures
        find_scheme_sep(s) == -1 ==> forall|i: int|
            0 <= i < s.len() - 2 ==> !(#[trigger] s[i] == 58 && s[i + 1] == 47 && s[i + 2] == 47),
        find_scheme_sep(s) >= 0 ==> 0 <= find_scheme_sep(s) < s.len() - 2 && s[find_scheme_sep(s)]
            == 58 && s[find_scheme_sep(s) + 1] == 47 && s[find_scheme_sep(s) + 2] == 47 && forall|
            i: int,
        | 0 <= i < find_scheme_sep(s) ==> !(#[trigger] s[i] == 58 && s[i + 1] == 47 && s[i + 2] == 47),
    decreases s.len(),
{
    if s.len() < 3 {
    } else if s[0] == 58 && s[1] == 47 && s[2] == 47 {
    } else {
        lemma_find_scheme_sep(s.drop_first());
        assert forall|i: int| 0 <= i < s.len() && i >= 1 implies s[i] == s.drop_first()[i - 1] by {}
    }
}

/// Finds the first `://` in `s`.
pub fn find_scheme_sep_at(s: &[u8]) -> (r: Option<usize>)
    ensures
        match r {
            Some(i) => i == find_scheme_sep(s@),
            None => find_scheme_sep(s@) == -1,
        },
{
    let len = s.len();
    if len < 3 {
        proof {
            lemma_find_scheme_sep(s@);
        }
        return None;
    }
    let mut i: usize = 0;
    while i < len - 2 && !(s[i] == 58 && s[i + 1] == 47 && s[i + 2] == 47)
        invariant
            0 <= i <= len - 2,
            len == s@.len(),
            len >= 3,
            forall|j: int| 0 <= j < i ==> !(#[trigger] s@[j] == 58 && s@[j + 1] == 47 && s@[j + 2] == 47),
        decreases len - i,
    {
        i += 1;
    }
    proof {
        lemma_find_scheme_sep(s@);
    }
    if i < len - 2 {
        Some(i)
    } else {
        None
    }
}

pub open spec fn is_digit(b: u8) -> bool {
    48 <= b && b <= 57
}

pub open spec fn all_digits(s: Seq<u8>) -> bool {
    forall|i: int| 0 <= i < s.len() ==> is_digit(#[trigger] s[i])
}

/// Value of a decimal digit string.
pub open spec fn dec_val(s: Seq<u8>) -> int
    decreases s.len(),
{
    if s.len() == 0 {
        0
    } else {
        dec_val(s.drop_last()) * 10 + s.last() - 48
    }
}

proof fn lemma_dec_prefix(s: Seq<u8>, j: int)
    requires
        all_digits(s),
        0 <= j <= s.len(),
    ensures
        0 <= dec_val(s.subrange(0, j)) <= dec_val(s),
    decreases s.len() - j,
{
    if j == s.len() {
        assert(s.subrange(0, j) =~= s);
        lemma_dec_nonneg(s);
    } else {
        lemma_dec_prefix(s, j + 1);
        let t = s.subrange(0, j + 1);
        assert(t.drop_last() =~= s.subrange(0, j));
        assert(all_digits(s.subrange(0, j))) by {
            assert(forall|i: int|
                0 <= i < j ==> #[trigger] s.subrange(0, j)[i] == s[i]);
        }
        lemma_dec_nonneg(s.subrange(0, j));
        assert(is_digit(t.last()));
    }
}

proof fn lemma_dec_nonneg(s: Seq<u8>)
    requires
        all_digits(s),
    ensures
        dec_val(s) >= 0,
    decreases s.len(),
{
    if s.len() > 0 {
        assert(all_digits(s.drop_last())) by {
            assert(forall|i: int|
                0 <= i < s.len() - 1 ==> #[trigger] s.drop_last()[i] == s[i]);
        }
        lemma_dec_nonneg(s.drop_last());
        assert(is_digit(s.last()));
    }
}

/// Parses an unsigned decimal number, as `Content-Length` requires.
///
/// Fails on an empty string, on any non-digit byte, and on overflow.
pub fn parse_u64_dec(s: &[u8]) -> (r: Option<u64>)
    ensures
        match r {
            Some(v) => s@.len() > 0 && all_digits(s@) && v == dec_val(s@),
            None => s@.len() == 0 || !all_digits(s@) || dec_val(s@) > u64::MAX,
        },
{
    let len = s.len();
    if len == 0 {
        return None;
    }
    let mut acc: u64 = 0;
    let mut i: usize = 0;
    while i < len
        invariant
            0 <= i <= len == s@.len(),
            all_digits(s@.subrange(0, i as int)),
            acc == dec_val(s@.subrange(0, i as int)),
        decreases len - i,
    {
        let b = s[i];
        if b < 48 || b > 57 {
            return None;
        }
        let d: u64 = (b - 48) as u64;
        let wide: u128 = acc as u128 * 10 + d as u128;
        proof {
            let t = s@.subrange(0, i as int + 1);
            assert(t.drop_last() =~= s@.subrange(0, i as int));
            assert(all_digits(t)) by {
                assert(forall|k: int|
                    0 <= k < i ==> #[trigger] t[k] == s@.subrange(0, i as int)[k]);
            }
            assert(dec_val(t) == acc * 10 + d);
        }
        if wide > u64::MAX as u128 {
            proof {
                if all_digits(s@) {
                    lemma_dec_prefix(s@, i as int + 1);
                }
            }
            return None;
        }
        acc = wide as u64;
        i += 1;
    }
    proof {
        assert(s@.subrange(0, len as int) =~= s@);
    }
    Some(acc)
}

pub open spec fn is_hex_digit(b: u8) -> bool {
    (48 <= b && b <= 57) || (97 <= b && b <= 102) || (65 <= b && b <= 70)
}

pub open spec fn all_hex_digits(s: Seq<u8>) -> bool {
    forall|i: int| 0 <= i < s.len() ==> is_hex_digit(#[trigger] s[i])
}

pub open spec fn hex_digit_val(b: u8) -> int {
    if 48 <= b && b <= 57 {
        b - 48
    } else if 97 <= b && b <= 102 {
        b - 87
    } else {
        b - 55
    }
}

/// Value of a hexadecimal digit string, either case.
pub open spec fn hex_val(s: Seq<u8>) -> int
    decreases s.len(),
{
    if s.len() == 0 {
        0
    } else {
        hex_val(s.drop_last()) * 16 + hex_digit_val(s.last())
    }
}

proof fn lemma_hex_prefix(s: Seq<u8>, j: int)
    requires
        all_hex_digits(s),
        0 <= j <= s.len(),
    ensures
        0 <= hex_val(s.subrange(0, j)) <= hex_val(s),
    decreases s.len() - j,
{
    if j == s.len() {
        assert(s.subrange(0, j) =~= s);
        lemma_hex_nonneg(s);
    } else {
        lemma_hex_prefix(s, j + 1);
        let t = s.subrange(0, j + 1);
        assert(t.drop_last() =~= s.subrange(0, j));
        assert(all_hex_digits(s.subrange(0, j))) by {
            assert(forall|i: int|
                0 <= i < j ==> #[trigger] s.subrange(0, j)[i] == s[i]);
        }
        lemma_hex_nonneg(s.subrange(0, j));
        assert(is_hex_digit(t.last()));
    }
}

proof fn lemma_hex_nonneg(s: Seq<u8>)
    requires
        all_hex_digits(s),
    ensures
        hex_val(s) >= 0,
    decreases s.len(),
{
    if s.len() > 0 {
        assert(all_hex_digits(s.drop_last())) by {
            assert(forall|i: int|
                0 <= i < s.len() - 1 ==> #[trigger] s.drop_last()[i] == s[i]);
        }
        lemma_hex_nonneg(s.drop_last());
        assert(is_hex_digit(s.last()));
    }
}

/// Parses an unsigned hexadecimal number, as a chunk-size line holds.
///
/// Fails on an empty string, on any non-hex byte, and on overflow.
pub fn parse_u64_hex(s: &[u8]) -> (r: Option<u64>)
    ensures
        match r {
            Some(v) => s@.len() > 0 && all_hex_digits(s@) && v == hex_val(s@),
            None => s@.len() == 0 || !all_hex_digits(s@) || hex_val(s@) > u64::MAX,
        },
{
    let len = s.len();
    if len == 0 {
        return None;
    }
    let mut acc: u64 = 0;
    let mut i: usize = 0;
    while i < len
        invariant
            0 <= i <= len == s@.len(),
            all_hex_digits(s@.subrange(0, i as int)),
            acc == hex_val(s@.subrange(0, i as int)),
        decreases len - i,
    {
        let b = s[i];
        let d: u64;
        if 48 <= b && b <= 57 {
            d = (b - 48) as u64;
        } else if 97 <= b && b <= 102 {
            d = (b - 87) as u64;
        } else if 65 <= b && b <= 70 {
            d = (b - 55) as u64;
        } else {
            return None;
        }
        let wide: u128 = acc as u128 * 16 + d as u128;
        proof {
            let t = s@.subrange(0, i as int + 1);
            assert(t.drop_last() =~= s@.subrange(0, i as int));
            assert(all_hex_digits(t)) by {
                assert(forall|k: int|
                    0 <= k < i ==> #[trigger] t[k] == s@.subrange(0, i as int)[k]);
            }
            assert(hex_val(t) == acc * 16 + d);
        }
        if wide > u64::MAX as u128 {
            proof {
                if all_hex_digits(s@) {
                    lemma_hex_prefix(s@, i as int + 1);
                }
            }
            return None;
        }
        acc = wide as u64;
        i += 1;
    }
    proof {
        assert(s@.subrange(0, len as int) =~= s@);
    }
    Some(acc)
}

/// The decimal digit string of a non-negative number.
pub open spec fn dec_digits(n: int) -> Seq<u8>
    decreases n,
{
    if n < 10 {
        seq![(n + 48) as u8]
    } else {
        dec_digits(n / 10).push((n % 10 + 48) as u8)
    }
}

/// Appends the decimal rendering of `n` to `buf`.
pub fn push_dec_u64(buf: &mut Vec<u8>, n: u64)
    ensures
        final(buf)@ == old(buf)@ + dec_digits(n as int),
    decreases n,
{
    if n >= 10 {
        push_dec_u64(buf, n / 10);
        buf.push((n % 10) as u8 + 48);
        proof {
            assert(final(buf)@ =~= old(buf)@ + dec_digits(n as int));
        }
    } else {
        buf.push(n as u8 + 48);
        proof {
            assert(final(buf)@ =~= old(buf)@ + dec_digits(n as int));
        }
    }
}

pub open spec fn hex_digit(d: int) -> u8 {
    if d < 10 {
        (48 + d) as u8
    } else {
        (87 + d) as u8
    }
}

/// The lower-case hexadecimal digit string of a non-negative number.
pub open spec fn hex_digits(n: int) -> Seq<u8>
    decreases n,
{
    if n < 16 {
        seq![hex_digit(n)]
    } else {
        hex_digits(n / 16).push(hex_digit(n % 16))
    }
}

/// Appends the lower-case hexadecimal rendering of `n` to `buf`.
pub fn push_hex_u64(buf: &mut Vec<u8>, n: u64)
    ensures
        final(buf)@ == old(buf)@ + hex_digits(n as int),
    decreases n,
{
    if n >= 16 {
        push_hex_u64(buf, n / 16);
        let d = (n % 16) as u8;
        buf.push(if d < 10 { d + 48 } else { d + 87 });
        proof {
            assert(final(buf)@ =~= old(buf)@ + hex_digits(n as int));
        }
    } else {
        let d = n as u8;
        buf.push(if d < 10 { d + 48 } else { d + 87 });
        proof {
            assert(final(buf)@ =~= old(buf)@ + hex_digits(n as int));
        }
    }
}

/// Big-endian bytes of a 16-bit number.
pub open spec fn u16_be(n: u16) -> Seq<u8> {
    seq![(n >> 8) as u8, n as u8]
}

/// Big-endian bytes of a 64-bit number.
pub open spec fn u64_be(n: u64) -> Seq<u8> {
    seq![
        (n >> 56) as u8,
        (n >> 48) as u8,
        (n >> 40) as u8,
        (n >> 32) as u8,
        (n >> 24) as u8,
        (n >> 16) as u8,
        (n >> 8) as u8,
        n as u8,
    ]
}

/// The 16-bit number read from two big-endian bytes.
pub open spec fn val_u16_be(b0: u8, b1: u8) -> u16 {
    ((b0 as u16) << 8 | (b1 as u16)) as u16
}

/// The 64-bit number read from eight big-endian bytes.
pub open spec fn val_u64_be(b: Seq<u8>) -> u64
    recommends
        b.len() == 8,
{
    ((b[0] as u64) << 56 | (b[1] as u64) << 48 | (b[2] as u64) << 40 | (b[3] as u64) << 32 | (
    b[4] as u64) << 24 | (b[5] as u64) << 16 | (b[6] as u64) << 8 | (b[7] as u64)) as u64
}

pub fn read_u16_be(b0: u8, b1: u8) -> (r: u16)
    ensures
        r == val_u16_be(b0, b1),
{
    (b0 as u16) << 8 | (b1 as u16)
}

pub fn read_u64_be(b: &[u8], at: usize) -> (r: u64)
    requires
        at + 8 <= b@.len(),
    ensures
        r == val_u64_be(b@.subrange(at as int, at as int + 8)),
{
    let r = (b[at] as u64) << 56 | (b[at + 1] as u64) << 48 | (b[at + 2] as u64) << 40 | (b[at
        + 3] as u64) << 32 | (b[at + 4] as u64) << 24 | (b[at + 5] as u64) << 16 | (b[at
        + 6] as u64) << 8 | (b[at + 7] as u64);
    proof {
        let s = b@.subrange(at as int, at as int + 8);
        assert(s[0] == b@[at as int] && s[1] == b@[at as int + 1] && s[2] == b@[at as int + 2]
            && s[3] == b@[at as int + 3] && s[4] == b@[at as int + 4] && s[5] == b@[at as int + 5]
            && s[6] == b@[at as int + 6] && s[7] == b@[at as int + 7]);
    }
    r
}

/// Decomposing a 16-bit number into big-endian bytes and reading it back
/// is the identity, in both directions.
pub proof fn lemma_u16_be_round_trip(n: u16, b0: u8, b1: u8)
    ensures
        val_u16_be(u16_be(n)[0], u16_be(n)[1]) == n,
        u16_be(val_u16_be(b0, b1)) =~= seq![b0, b1],
{
    assert(((n >> 8) as u8 as u16) << 8 | (n as u8 as u16) == n) by (bit_vector);
    assert((((b0 as u16) << 8 | (b1 as u16)) >> 8) as u8 == b0) by (bit_vector);
    assert(((b0 as u16) << 8 | (b1 as u16)) as u8 == b1) by (bit_vector);
}

/// The same identity for 64-bit numbers.
pub proof fn lemma_u64_be_round_trip(n: u64, b: Seq<u8>)
    requires
        b.len() == 8,
    ensures
        val_u64_be(u64_be(n)) == n,
        u64_be(val_u64_be(b)) =~= b,
{
    assert(((n >> 56) as u8 as u64) << 56 | ((n >> 48) as u8 as u64) << 48 | ((n
        >> 40) as u8 as u64) << 40 | ((n >> 32) as u8 as u64) << 32 | ((n >> 24) as u8 as u64)
        << 24 | ((n >> 16) as u8 as u64) << 16 | ((n >> 8) as u8 as u64) << 8 | (n as u8 as u64)
        == n) by (bit_vector);
    let b0 = b[0];
    let b1 = b[1];
    let b2 = b[2];
    let b3 = b[3];
    let b4 = b[4];
    let b5 = b[5];
    let b6 = b[6];
    let b7 = b[7];
    assert({
        let v = ((b0 as u64) << 56 | (b1 as u64) << 48 | (b2 as u64) << 40 | (b3 as u64) << 32 | (
        b4 as u64) << 24 | (b5 as u64) << 16 | (b6 as u64) << 8 | (b7 as u64)) as u64;
        (v >> 56) as u8 == b0 && (v >> 48) as u8 == b1 && (v >> 40) as u8 == b2 && (v
            >> 32) as u8 == b3 && (v >> 24) as u8 == b4 && (v >> 16) as u8 == b5 && (v
            >> 8) as u8 == b6 && v as u8 == b7
    }) by (bit_vector);
}

} // verus!
