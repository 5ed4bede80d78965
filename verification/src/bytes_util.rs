//! Byte-sequence primitives shared by the request parser and the response
//! builder: substring search, line structure of a header block, decimal and
//! hexadecimal numerals.

use vstd::prelude::*;

verus! {

/// `pat` occurs in `s` starting exactly at position `i`.
pub open spec fn match_at(s: Seq<u8>, pat: Seq<u8>, i: int) -> bool {
    &&& 0 <= i
    &&& i + pat.len() <= s.len()
    &&& s.subrange(i, i + pat.len() as int) == pat
}

/// `pat` occurs somewhere in `s`.
pub open spec fn contains_seq(s: Seq<u8>, pat: Seq<u8>) -> bool {
    exists|i: int| match_at(s, pat, i)
}

/// Position of the first occurrence of the byte `b` in `s` at or after `i`.
pub open spec fn find_byte_from(s: Seq<u8>, b: u8, i: int) -> Option<int>
    decreases s.len() - i,
{
    if i < 0 || i >= s.len() {
        None
    } else if s[i] == b {
        Some(i)
    } else {
        find_byte_from(s, b, i + 1)
    }
}

/// Every returned index points at `b` and lies in range.
pub proof fn lemma_find_byte_from_spec(s: Seq<u8>, b: u8, i: int)
    ensures
        match find_byte_from(s, b, i) {
            Some(j) => i <= j < s.len() && s[j] == b,
            None => true,
        },
    decreases s.len() - i,
{
    if 0 <= i < s.len() && s[i] != b {
        lemma_find_byte_from_spec(s, b, i + 1);
    }
}

/// Exec mirror of `find_byte_from`, starting the scan at `from`.
pub fn find_byte(s: &[u8], b: u8, from: usize) -> (r: Option<usize>)
    ensures
        match r {
            Some(j) => find_byte_from(s@, b, from as int) == Some(j as int),
            None => find_byte_from(s@, b, from as int) is None,
        },
{
    let mut i = from;
    if i > s.len() {
        return None;
    }
    while i < s.len()
        invariant
            from <= i <= s@.len(),
            find_byte_from(s@, b, from as int) == find_byte_from(s@, b, i as int),
        decreases s@.len() - i,
    {
        if s[i] == b {
            return Some(i);
        }
        i = i + 1;
    }
    None
}

/// Exec mirror of `match_at`.
pub fn is_match_at(s: &[u8], pat: &[u8], i: usize) -> (r: bool)
    requires
        i + pat@.len() <= s@.len(),
    ensures
        r == match_at(s@, pat@, i as int),
{
    let n = s.len();
    let mut j: usize = 0;
    while j < pat.len()
        invariant
            0 <= j <= pat@.len(),
            i + pat@.len() <= s@.len(),
            n == s@.len(),
            forall|k: int| 0 <= k < j ==> s@[i + k] == pat@[k],
        decreases pat@.len() - j,
    {
        if s[i + j] != pat[j] {
            proof {
                assert(s@.subrange(i as int, i + pat@.len() as int)[j as int] != pat@[j as int]);
            }
            return false;
        }
        j = j + 1;
    }
    proof {
        assert(s@.subrange(i as int, i + pat@.len() as int) =~= pat@);
    }
    true
}

/// Exec mirror of `contains_seq`.
pub fn contains_bytes(s: &[u8], pat: &[u8]) -> (r: bool)
    ensures
        r == contains_seq(s@, pat@),
{
    if pat.len() > s.len() {
        return false;
    }
    if pat.len() == 0 {
        proof {
            assert(match_at(s@, pat@, 0)) by {
                assert(s@.subrange(0, 0) =~= pat@);
            }
        }
        return true;
    }
    let limit = s.len() - pat.len();
    let mut i: usize = 0;
    while i <= limit
        invariant
            0 <= i <= limit + 1,
            limit == s@.len() - pat@.len(),
            pat@.len() >= 1,
            s@.len() <= usize::MAX,
            forall|j: int| 0 <= j < i ==> !match_at(s@, pat@, j),
        decreases limit + 1 - i,
    {
        if is_match_at(s, pat, i) {
            return true;
        }
        i = i + 1;
    }
    proof {
        assert(forall|j: int| !match_at(s@, pat@, j));
    }
    false
}

/// Position `p` starts a line of the header block: the very beginning, or the
/// position right after a CRLF.
pub open spec fn is_line_start(s: Seq<u8>, p: int) -> bool {
    p == 0 || (2 <= p <= s.len() && s[p - 2] == '\r' as u8 && s[p - 1] == '\n' as u8)
}

/// Position of the first CRLF pair in `s` at or after `i`.
pub open spec fn find_crlf_from(s: Seq<u8>, i: int) -> Option<int>
    decreases s.len() - i,
{
    if i < 0 || i + 2 > s.len() {
        None
    } else if s[i] == '\r' as u8 && s[i + 1] == '\n' as u8 {
        Some(i)
    } else {
        find_crlf_from(s, i + 1)
    }
}

/// Every returned index points at a CRLF and lies in range.
pub proof fn lemma_find_crlf_from_spec(s: Seq<u8>, i: int)
    ensures
        match find_crlf_from(s, i) {
            Some(j) => i <= j && j + 2 <= s.len() && s[j] == '\r' as u8 && s[j + 1] == '\n' as u8,
            None => true,
        },
    decreases s.len() - i,
{
    if !(i < 0 || i + 2 > s.len()) && !(s[i] == '\r' as u8 && s[i + 1] == '\n' as u8) {
        lemma_find_crlf_from_spec(s, i + 1);
    }
}

/// Exec mirror of `find_crlf_from`, starting the scan at `from`.
pub fn find_crlf(s: &[u8], from: usize) -> (r: Option<usize>)
    ensures
        match r {
            Some(j) => find_crlf_from(s@, from as int) == Some(j as int),
            None => find_crlf_from(s@, from as int) is None,
        },
{
    if s.len() < 2 || from > s.len() - 2 {
        return None;
    }
    let limit = s.len() - 2;
    let mut i = from;
    while i <= limit
        invariant
            from <= i <= limit + 1,
            limit == s@.len() - 2,
            find_crlf_from(s@, from as int) == find_crlf_from(s@, i as int),
        decreases limit + 1 - i,
    {
        if s[i] == '\r' as u8 && s[i + 1] == '\n' as u8 {
            return Some(i);
        }
        i = i + 1;
    }
    None
}

/// Position of the first line of `s` that begins with `pat`, scanning from `i`.
pub open spec fn find_prefixed_line_from(s: Seq<u8>, pat: Seq<u8>, i: int) -> Option<int>
    decreases s.len() + 1 - i,
{
    if i < 0 || i + pat.len() > s.len() {
        None
    } else if is_line_start(s, i) && match_at(s, pat, i) {
        Some(i)
    } else {
        find_prefixed_line_from(s, pat, i + 1)
    }
}

/// Every returned position starts a line that carries the prefix.
pub proof fn lemma_find_prefixed_line_from_spec(s: Seq<u8>, pat: Seq<u8>, i: int)
    ensures
        match find_prefixed_line_from(s, pat, i) {
            Some(p) => i <= p && p + pat.len() <= s.len() && is_line_start(s, p) && match_at(
                s,
                pat,
                p,
            ),
            None => true,
        },
    decreases s.len() + 1 - i,
{
    if !(i < 0 || i + pat.len() > s.len()) && !(is_line_start(s, i) && match_at(s, pat, i)) {
        lemma_find_prefixed_line_from_spec(s, pat, i + 1);
    }
}

/// Exec mirror of `find_prefixed_line_from`, scanning from the start.
pub fn find_prefixed_line(s: &[u8], pat: &[u8]) -> (r: Option<usize>)
    ensures
        match r {
            Some(p) => find_prefixed_line_from(s@, pat@, 0) == Some(p as int),
            None => find_prefixed_line_from(s@, pat@, 0) is None,
        },
{
    if pat.len() > s.len() {
        return None;
    }
    if pat.len() == 0 {
        proof {
            assert(match_at(s@, pat@, 0)) by {
                assert(s@.subrange(0, 0) =~= pat@);
            }
        }
        return Some(0);
    }
    let limit = s.len() - pat.len();
    let mut i: usize = 0;
    while i <= limit
        invariant
            0 <= i <= limit + 1,
            limit == s@.len() - pat@.len(),
            pat@.len() >= 1,
            s@.len() <= usize::MAX,
            find_prefixed_line_from(s@, pat@, 0) == find_prefixed_line_from(s@, pat@, i as int),
        decreases limit + 1 - i,
    {
        let line_start: bool = if i == 0 {
            true
        } else if i >= 2 {
            s[i - 2] == '\r' as u8 && s[i - 1] == '\n' as u8
        } else {
            false
        };
        if line_start && is_match_at(s, pat, i) {
            return Some(i);
        }
        i = i + 1;
    }
    None
}

/// The end of the line that position `i` lies on: the next CRLF, or the end
/// of the whole block.
pub open spec fn line_end_from(s: Seq<u8>, i: int) -> int {
    match find_crlf_from(s, i) {
        Some(j) => j,
        None => s.len() as int,
    }
}

/// The value of the first header line beginning with `pat`: the bytes between
/// the prefix and the end of that line.  `None` when no line carries the
/// prefix.
pub open spec fn header_value(s: Seq<u8>, pat: Seq<u8>) -> Option<Seq<u8>> {
    match find_prefixed_line_from(s, pat, 0) {
        None => None,
        Some(p) => Some(
            s.subrange(p + pat.len() as int, line_end_from(s, p + pat.len() as int)),
        ),
    }
}

/// Exec mirror of `header_value`: the bounds of the value inside `s`.
pub fn find_header_value(s: &[u8], pat: &[u8]) -> (r: Option<(usize, usize)>)
    ensures
        match r {
            Some(b) => b.0 <= b.1 <= s@.len() && header_value(s@, pat@) == Some(
                s@.subrange(b.0 as int, b.1 as int),
            ),
            None => header_value(s@, pat@) is None,
        },
{
    let n = s.len();
    match find_prefixed_line(s, pat) {
        None => None,
        Some(p) => {
            proof {
                lemma_find_prefixed_line_from_spec(s@, pat@, 0);
                assert(p + pat@.len() <= n);
            }
            let lo = p + pat.len();
            proof {
                lemma_find_crlf_from_spec(s@, lo as int);
            }
            let hi = match find_crlf(s, lo) {
                Some(j) => j,
                None => s.len(),
            };
            Some((lo, hi))
        },
    }
}

/// The two byte slices hold the same bytes.
pub fn eq_bytes(a: &[u8], b: &[u8]) -> (r: bool)
    ensures
        r == (a@ == b@),
{
    if a.len() != b.len() {
        proof {
            assert(a@ != b@) by {
                assert(a@.len() != b@.len());
            }
        }
        return false;
    }
    let mut i: usize = 0;
    while i < a.len()
        invariant
            0 <= i <= a@.len(),
            a@.len() == b@.len(),
            forall|j: int| 0 <= j < i ==> a@[j] == b@[j],
        decreases a@.len() - i,
    {
        if a[i] != b[i] {
            return false;
        }
        i = i + 1;
    }
    proof {
        assert(a@ =~= b@);
    }
    true
}

/// Appends every byte of `src` to `dst`.
pub fn push_all(dst: &mut Vec<u8>, src: &[u8])
    ensures
        final(dst)@ == old(dst)@ + src@,
{
    let mut i: usize = 0;
    while i < src.len()
        invariant
            0 <= i <= src@.len(),
            dst@ == old(dst)@ + src@.subrange(0, i as int),
        decreases src@.len() - i,
    {
        dst.push(src[i]);
        proof {
            assert(dst@ =~= old(dst)@ + src@.subrange(0, i + 1));
        }
        i = i + 1;
    }
    proof {
        assert(src@.subrange(0, src@.len() as int) =~= src@);
    }
}

/// ASCII decimal digit.
pub open spec fn is_dec_digit(b: u8) -> bool {
    '0' as u8 <= b <= '9' as u8
}

/// Every byte of `s` is a decimal digit.
pub open spec fn all_dec_digits(s: Seq<u8>) -> bool {
    forall|i: int| 0 <= i < s.len() ==> is_dec_digit(#[trigger] s[i])
}

/// The number written by `s` as a decimal numeral (most significant first).
pub open spec fn dec_value(s: Seq<u8>) -> int
    decreases s.len(),
{
    if s.len() == 0 {
        0
    } else {
        dec_value(s.drop_last()) * 10 + (s.last() - '0' as u8)
    }
}

/// A decimal numeral's value is never negative.
pub proof fn lemma_dec_value_nonneg(s: Seq<u8>)
    requires
        all_dec_digits(s),
    ensures
        dec_value(s) >= 0,
    decreases s.len(),
{
    if s.len() > 0 {
        assert(all_dec_digits(s.drop_last())) by {
            assert(forall|i: int|
                0 <= i < s.len() - 1 ==> #[trigger] s.drop_last()[i] == s[i]);
        }
        lemma_dec_value_nonneg(s.drop_last());
    }
}

/// Appending one digit multiplies the value by ten and adds the digit.
pub proof fn lemma_dec_value_step(s: Seq<u8>, i: int)
    requires
        0 <= i < s.len(),
    ensures
        dec_value(s.subrange(0, i + 1)) == dec_value(s.subrange(0, i)) * 10 + (s[i] - '0' as u8),
{
    assert(s.subrange(0, i + 1).drop_last() =~= s.subrange(0, i));
    assert(s.subrange(0, i + 1).last() == s[i]);
}

/// A prefix of a decimal numeral never exceeds the whole numeral's value.
pub proof fn lemma_dec_value_prefix_le(s: Seq<u8>, i: int)
    requires
        0 <= i <= s.len(),
        all_dec_digits(s),
    ensures
        dec_value(s.subrange(0, i)) <= dec_value(s),
    decreases s.len() - i,
{
    if i < s.len() {
        lemma_dec_value_step(s, i);
        assert(all_dec_digits(s.subrange(0, i)));
        lemma_dec_value_nonneg(s.subrange(0, i));
        assert(dec_value(s.subrange(0, i)) <= dec_value(s.subrange(0, i + 1)));
        lemma_dec_value_prefix_le(s, i + 1);
    } else {
        assert(s.subrange(0, i) =~= s);
    }
}

/// Parses `s` as an unsigned decimal numeral: defined exactly when `s` is a
/// non-empty, all-digit run whose value fits in a `u64`.
pub open spec fn spec_parse_u64_dec(s: Seq<u8>) -> Option<u64> {
    if s.len() > 0 && all_dec_digits(s) && dec_value(s) <= u64::MAX {
        Some(dec_value(s) as u64)
    } else {
        None
    }
}

/// Exec mirror of `spec_parse_u64_dec`.
pub fn parse_u64_dec(s: &[u8]) -> (r: Option<u64>)
    ensures
        r == spec_parse_u64_dec(s@),
{
    let n = s.len();
    if n == 0 {
        return None;
    }
    let mut val: u64 = 0;
    let mut i: usize = 0;
    while i < n
        invariant
            0 <= i <= n,
            n == s@.len(),
            all_dec_digits(s@.subrange(0, i as int)),
            val == dec_value(s@.subrange(0, i as int)),
        decreases n - i,
    {
        let b = s[i];
        if b < '0' as u8 || b > '9' as u8 {
            proof {
                assert(!all_dec_digits(s@)) by {
                    assert(!is_dec_digit(s@[i as int]));
                }
            }
            return None;
        }
        let d = (b - '0' as u8) as u64;
        proof {
            lemma_dec_value_step(s@, i as int);
            assert(all_dec_digits(s@.subrange(0, i + 1)));
        }
        if val > (u64::MAX - d) / 10 {
            proof {
                assert(dec_value(s@.subrange(0, i + 1)) > u64::MAX) by (nonlinear_arith)
                    requires
                        dec_value(s@.subrange(0, i + 1)) == val * 10 + d,
                        val > (u64::MAX - d) / 10,
                        0 <= d <= 9,
                {}
                if all_dec_digits(s@) {
                    lemma_dec_value_prefix_le(s@, i + 1);
                }
            }
            return None;
        }
        proof {
            assert(val * 10 + d <= u64::MAX) by (nonlinear_arith)
                requires
                    val <= (u64::MAX - d) / 10,
                    0 <= d <= 9,
                    0 <= val,
            {}
        }
        val = val * 10 + d;
        i = i + 1;
    }
    proof {
        assert(s@.subrange(0, n as int) =~= s@);
    }
    Some(val)
}

/// ASCII hexadecimal digit, either case.
pub open spec fn is_hex_digit(b: u8) -> bool {
    ('0' as u8 <= b <= '9' as u8) || ('a' as u8 <= b <= 'f' as u8) || (
    'A' as u8 <= b <= 'F' as u8)
}

/// Every byte of `s` is a hexadecimal digit.
pub open spec fn all_hex_digits(s: Seq<u8>) -> bool {
    forall|i: int| 0 <= i < s.len() ==> is_hex_digit(#[trigger] s[i])
}

/// The numeric value of one hexadecimal digit.
pub open spec fn hex_digit_value(b: u8) -> int {
    if '0' as u8 <= b <= '9' as u8 {
        b - '0' as u8
    } else if 'a' as u8 <= b <= 'f' as u8 {
        b - 'a' as u8 + 10
    } else {
        b - 'A' as u8 + 10
    }
}

/// The number written by `s` as a hexadecimal numeral.
pub open spec fn hex_value(s: Seq<u8>) -> int
    decreases s.len(),
{
    if s.len() == 0 {
        0
    } else {
        hex_value(s.drop_last()) * 16 + hex_digit_value(s.last())
    }
}

/// A hexadecimal numeral's value is never negative.
pub proof fn lemma_hex_value_nonneg(s: Seq<u8>)
    requires
        all_hex_digits(s),
    ensures
        hex_value(s) >= 0,
    decreases s.len(),
{
    if s.len() > 0 {
        assert(all_hex_digits(s.drop_last())) by {
            assert(forall|i: int|
                0 <= i < s.len() - 1 ==> #[trigger] s.drop_last()[i] == s[i]);
        }
        lemma_hex_value_nonneg(s.drop_last());
    }
}

/// Appending one digit multiplies the value by sixteen and adds the digit.
pub proof fn lemma_hex_value_step(s: Seq<u8>, i: int)
    requires
        0 <= i < s.len(),
    ensures
        hex_value(s.subrange(0, i + 1)) == hex_value(s.subrange(0, i)) * 16 + hex_digit_value(
            s[i],
        ),
{
    assert(s.subrange(0, i + 1).drop_last() =~= s.subrange(0, i));
    assert(s.subrange(0, i + 1).last() == s[i]);
}

/// A prefix of a hexadecimal numeral never exceeds the whole numeral's value.
pub proof fn lemma_hex_value_prefix_le(s: Seq<u8>, i: int)
    requires
        0 <= i <= s.len(),
        all_hex_digits(s),
    ensures
        hex_value(s.subrange(0, i)) <= hex_value(s),
    decreases s.len() - i,
{
    if i < s.len() {
        lemma_hex_value_step(s, i);
        assert(all_hex_digits(s.subrange(0, i)));
        lemma_hex_value_nonneg(s.subrange(0, i));
        assert(hex_value(s.subrange(0, i)) <= hex_value(s.subrange(0, i + 1)));
        lemma_hex_value_prefix_le(s, i + 1);
    } else {
        assert(s.subrange(0, i) =~= s);
    }
}

/// Parses `s` as an unsigned hexadecimal numeral: defined exactly when `s` is
/// a non-empty, all-hex-digit run whose value fits in a `u128`.
pub open spec fn spec_parse_u128_hex(s: Seq<u8>) -> Option<u128> {
    if s.len() > 0 && all_hex_digits(s) && hex_value(s) <= u128::MAX {
        Some(hex_value(s) as u128)
    } else {
        None
    }
}

/// Exec mirror of `spec_parse_u128_hex`.
pub fn parse_u128_hex(s: &[u8]) -> (r: Option<u128>)
    ensures
        r == spec_parse_u128_hex(s@),
{
    let n = s.len();
    if n == 0 {
        return None;
    }
    let mut val: u128 = 0;
    let mut i: usize = 0;
    while i < n
        invariant
            0 <= i <= n,
            n == s@.len(),
            all_hex_digits(s@.subrange(0, i as int)),
            val == hex_value(s@.subrange(0, i as int)),
        decreases n - i,
    {
        let b = s[i];
        let d: u128 = if b >= '0' as u8 && b <= '9' as u8 {
            (b - '0' as u8) as u128
        } else if b >= 'a' as u8 && b <= 'f' as u8 {
            (b - 'a' as u8 + 10) as u128
        } else if b >= 'A' as u8 && b <= 'F' as u8 {
            (b - 'A' as u8 + 10) as u128
        } else {
            proof {
                assert(!all_hex_digits(s@)) by {
                    assert(!is_hex_digit(s@[i as int]));
                }
            }
            return None;
        };
        proof {
            lemma_hex_value_step(s@, i as int);
            assert(all_hex_digits(s@.subrange(0, i + 1)));
        }
        if val > (u128::MAX - d) / 16 {
            proof {
                assert(hex_value(s@.subrange(0, i + 1)) > u128::MAX) by (nonlinear_arith)
                    requires
                        hex_value(s@.subrange(0, i + 1)) == val * 16 + d,
                        val > (u128::MAX - d) / 16,
                        0 <= d <= 15,
                {}
                if all_hex_digits(s@) {
                    lemma_hex_value_prefix_le(s@, i + 1);
                }
            }
            return None;
        }
        proof {
            assert(val * 16 + d <= u128::MAX) by (nonlinear_arith)
                requires
                    val <= (u128::MAX - d) / 16,
                    0 <= d <= 15,
                    0 <= val,
            {}
        }
        val = val * 16 + d;
        i = i + 1;
    }
    proof {
        assert(s@.subrange(0, n as int) =~= s@);
    }
    Some(val)
}

/// The shortest decimal numeral for `n` (no leading zeros, except for zero
/// itself).
pub open spec fn dec_digits_of(n: nat) -> Seq<u8>
    decreases n,
{
    if n < 10 {
        seq![('0' as u8 + n) as u8]
    } else {
        dec_digits_of(n / 10).push(('0' as u8 + n % 10) as u8)
    }
}

/// Renders `n` as its decimal numeral.
pub fn u64_to_dec(n: u64) -> (r: Vec<u8>)
    ensures
        r@ == dec_digits_of(n as nat),
    decreases n,
{
    if n < 10 {
        let mut v: Vec<u8> = Vec::new();
        v.push('0' as u8 + (n as u8));
        proof {
            assert(v@ =~= dec_digits_of(n as nat));
        }
        v
    } else {
        let mut v = u64_to_dec(n / 10);
        v.push('0' as u8 + ((n % 10) as u8));
        proof {
            assert(v@ =~= dec_digits_of(n as nat));
        }
        v
    }
}

} // verus!
