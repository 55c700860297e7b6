//! Verified string helpers: ASCII case folding, comparison, searching,
//! splitting, trimming, decimal parsing and formatting.
//!
//! Every executable function is specified against a spec function over
//! `Seq<char>`, so the parsers and formatters in the rest of the crate can
//! state their contracts directly over character sequences.

use vstd::prelude::*;

verus! {

/// ASCII lower-casing of one character.
pub open spec fn spec_lower_char(c: char) -> char {
    if 'A' <= c && c <= 'Z' {
        ((c as u8) + 32) as char
    } else {
        c
    }
}

/// ASCII lower-casing of a character sequence.
pub open spec fn lower(s: Seq<char>) -> Seq<char> {
    s.map_values(|c: char| spec_lower_char(c))
}

/// Lower-case one character (ASCII range only, as the configuration
/// keywords this crate compares are ASCII).
pub fn lower_char(c: char) -> (r: char)
    ensures
        r == spec_lower_char(c),
{
    if 'A' <= c && c <= 'Z' {
        ((c as u8) + 32) as char
    } else {
        c
    }
}

/// Lower-case a string, ASCII-only.
pub fn to_lower(s: &str) -> (r: String)
    ensures
        r@ == lower(s@),
{
    let n = s.unicode_len();
    let mut i: usize = 0;
    let mut out = String::new();
    while i < n
        invariant
            i <= n,
            n == s@.len(),
            out@ == lower(s@.take(i as int)),
        decreases n - i,
    {
        let c = lower_char(s.get_char(i));
        let piece = char_to_string(c);
        out.append(piece.as_str());
        proof {
            assert(s@.take(i + 1 as int).map_values(|c: char| spec_lower_char(c))
                =~= s@.take(i as int).map_values(|c: char| spec_lower_char(c)).push(
                spec_lower_char(s@[i as int])));
        }
        i = i + 1;
    }
    proof {
        assert(s@.take(n as int) =~= s@);
    }
    out
}

/// Wraps `char::to_string`: a one-character string.
#[verifier::external_body]
pub fn char_to_string(c: char) -> (r: String)
    ensures
        r@ == seq![c],
{
    c.to_string()
}

/// Character-sequence equality of two string slices.
pub fn str_eq(a: &str, b: &str) -> (r: bool)
    ensures
        r == (a@ == b@),
{
    let na = a.unicode_len();
    let nb = b.unicode_len();
    if na != nb {
        proof {
            assert(a@ != b@) by {
                assert(a@.len() != b@.len());
            }
        }
        return false;
    }
    let mut i: usize = 0;
    while i < na
        invariant
            i <= na,
            na == a@.len(),
            na == b@.len(),
            forall|j: int| 0 <= j < i ==> a@[j] == b@[j],
        decreases na - i,
    {
        if a.get_char(i) != b.get_char(i) {
            return false;
        }
        i = i + 1;
    }
    proof {
        assert(a@ =~= b@);
    }
    true
}

/// Case-insensitive (ASCII) equality.
pub fn eq_ignore_case(a: &str, b: &str) -> (r: bool)
    ensures
        r == (lower(a@) == lower(b@)),
{
    let la = to_lower(a);
    let lb = to_lower(b);
    str_eq(la.as_str(), lb.as_str())
}

/// Whether `pre` is a prefix of `s`.
pub fn starts_with(s: &str, pre: &str) -> (r: bool)
    ensures
        r == pre@.is_prefix_of(s@),
{
    let ns = s.unicode_len();
    let np = pre.unicode_len();
    if np > ns {
        return false;
    }
    let head = s.substring_char(0, np);
    proof {
        assert(pre@.is_prefix_of(s@) == (head@ == pre@)) by {
            assert(s@.subrange(0, np as int) =~= s@.take(np as int));
            if head@ == pre@ {
                assert(pre@ =~= s@.take(pre@.len() as int));
            }
        }
    }
    str_eq(head, pre)
}

/// Whether `pat` occurs as a contiguous subsequence of `s`.
pub open spec fn contains_seq(s: Seq<char>, pat: Seq<char>) -> bool {
    exists|i: int|
        0 <= i && i + pat.len() <= s.len() && #[trigger] s.subrange(i, i + pat.len() as int)
            == pat
}

/// Substring search.
pub fn contains(s: &str, pat: &str) -> (r: bool)
    ensures
        r == contains_seq(s@, pat@),
{
    let n = s.unicode_len();
    let m = pat.unicode_len();
    if m > n {
        return false;
    }
    if m == 0 {
        proof {
            assert(contains_seq(s@, pat@)) by {
                assert(s@.subrange(0, 0 + pat@.len() as int) =~= pat@);
            }
        }
        return true;
    }
    let mut i: usize = 0;
    while i <= n - m
        invariant
            0 <= i <= n - m + 1,
            1 <= m <= n,
            n == s@.len(),
            m == pat@.len(),
            forall|j: int| 0 <= j < i ==> #[trigger] s@.subrange(j, j + m as int) != pat@,
        decreases n - i,
    {
        let piece = s.substring_char(i, i + m);
        if str_eq(piece, pat) {
            return true;
        }
        i = i + 1;
    }
    false
}

/// Characters treated as trimmable whitespace.
pub open spec fn is_space(c: char) -> bool {
    c == ' ' || c == '\t' || c == '\r' || c == '\n'
}

/// `s` with leading whitespace removed.
pub open spec fn trim_front(s: Seq<char>) -> Seq<char>
    decreases s.len(),
{
    if s.len() > 0 && is_space(s[0]) {
        trim_front(s.drop_first())
    } else {
        s
    }
}

/// `s` with trailing whitespace removed.
pub open spec fn trim_back(s: Seq<char>) -> Seq<char>
    decreases s.len(),
{
    if s.len() > 0 && is_space(s.last()) {
        trim_back(s.drop_last())
    } else {
        s
    }
}

/// `s` with whitespace removed from both ends.
pub open spec fn spec_trim(s: Seq<char>) -> Seq<char> {
    trim_back(trim_front(s))
}

fn is_space_char(c: char) -> (r: bool)
    ensures
        r == is_space(c),
{
    c == ' ' || c == '\t' || c == '\r' || c == '\n'
}

/// Remove whitespace from both ends of a string slice.
pub fn trim(s: &str) -> (r: &str)
    ensures
        r@ == spec_trim(s@),
{
    let n = s.unicode_len();
    proof {
        assert(s@.skip(0) =~= s@);
    }
    let mut start: usize = 0;
    while start < n && is_space_char(s.get_char(start))
        invariant
            0 <= start <= n,
            n == s@.len(),
            trim_front(s@) == trim_front(s@.skip(start as int)),
        decreases n - start,
    {
        proof {
            assert(s@.skip(start as int).drop_first() =~= s@.skip(start + 1 as int));
        }
        start = start + 1;
    }
    proof {
        assert(trim_front(s@) == s@.skip(start as int)) by {
            if start < n {
                assert(!is_space(s@.skip(start as int)[0]));
            } else {
                assert(s@.skip(start as int).len() == 0);
            }
        }
    }
    let mut end: usize = n;
    while end > start && is_space_char(s.get_char(end - 1))
        invariant
            start <= end <= n,
            n == s@.len(),
            trim_front(s@) == s@.skip(start as int),
            trim_back(s@.skip(start as int)) == trim_back(s@.subrange(start as int, end as int)),
        decreases end,
    {
        proof {
            assert(s@.subrange(start as int, end as int).drop_last() =~= s@.subrange(
                start as int,
                end - 1 as int,
            ));
            assert(s@.subrange(start as int, end as int).last() == s@[end - 1 as int]);
        }
        end = end - 1;
    }
    proof {
        assert(trim_back(s@.subrange(start as int, end as int)) == s@.subrange(
            start as int,
            end as int,
        )) by {
            if end > start {
                assert(!is_space(s@.subrange(start as int, end as int).last()));
            } else {
                assert(s@.subrange(start as int, end as int).len() == 0);
            }
        }
    }
    s.substring_char(start, end)
}

/// `s` with every leading occurrence of `c` removed.
pub open spec fn trim_front_char(s: Seq<char>, c: char) -> Seq<char>
    decreases s.len(),
{
    if s.len() > 0 && s[0] == c {
        trim_front_char(s.drop_first(), c)
    } else {
        s
    }
}

/// `s` with every trailing occurrence of `c` removed.
pub open spec fn trim_back_char(s: Seq<char>, c: char) -> Seq<char>
    decreases s.len(),
{
    if s.len() > 0 && s.last() == c {
        trim_back_char(s.drop_last(), c)
    } else {
        s
    }
}

/// Remove every leading `open` and trailing `close` from a string slice.
pub fn trim_matching(s: &str, open: char, close: char) -> (r: &str)
    ensures
        r@ == trim_back_char(trim_front_char(s@, open), close),
{
    let n = s.unicode_len();
    proof {
        assert(s@.skip(0) =~= s@);
    }
    let mut start: usize = 0;
    while start < n && s.get_char(start) == open
        invariant
            0 <= start <= n,
            n == s@.len(),
            trim_front_char(s@, open) == trim_front_char(s@.skip(start as int), open),
        decreases n - start,
    {
        proof {
            assert(s@.skip(start as int).drop_first() =~= s@.skip(start + 1 as int));
        }
        start = start + 1;
    }
    proof {
        assert(trim_front_char(s@, open) == s@.skip(start as int)) by {
            if start < n {
                assert(s@.skip(start as int)[0] == s@[start as int]);
            } else {
                assert(s@.skip(start as int).len() == 0);
            }
        }
    }
    let mut end: usize = n;
    while end > start && s.get_char(end - 1) == close
        invariant
            start <= end <= n,
            n == s@.len(),
            trim_front_char(s@, open) == s@.skip(start as int),
            trim_back_char(s@.skip(start as int), close) == trim_back_char(
                s@.subrange(start as int, end as int),
                close,
            ),
        decreases end,
    {
        proof {
            assert(s@.subrange(start as int, end as int).drop_last() =~= s@.subrange(
                start as int,
                end - 1 as int,
            ));
            assert(s@.subrange(start as int, end as int).last() == s@[end - 1 as int]);
        }
        end = end - 1;
    }
    proof {
        assert(trim_back_char(s@.subrange(start as int, end as int), close) == s@.subrange(
            start as int,
            end as int,
        )) by {
            if end > start {
                assert(s@.subrange(start as int, end as int).last() == s@[end - 1 as int]);
            } else {
                assert(s@.subrange(start as int, end as int).len() == 0);
            }
        }
    }
    s.substring_char(start, end)
}

/// Splitting at a separator character; the result always has at least one
/// element, and splitting the empty string yields one empty field.
pub open spec fn spec_split(s: Seq<char>, sep: char) -> Seq<Seq<char>>
    decreases s.len(),
{
    if s.len() == 0 {
        seq![Seq::<char>::empty()]
    } else {
        let parts = spec_split(s.drop_last(), sep);
        if s.last() == sep {
            parts.push(Seq::<char>::empty())
        } else {
            parts.update(parts.len() - 1, parts.last().push(s.last()))
        }
    }
}

/// The fields of `s` between occurrences of `sep`, each trimmed.
pub open spec fn spec_split_trim(s: Seq<char>, sep: char) -> Seq<Seq<char>> {
    spec_split(s, sep).map_values(|t: Seq<char>| spec_trim(t))
}

/// Split at `sep` and trim each field.
pub fn split_trim(s: &str, sep: char) -> (r: Vec<String>)
    ensures
        r.deep_view() == spec_split_trim(s@, sep),
        r.len() >= 1,
{
    let n = s.unicode_len();
    let mut parts: Vec<String> = Vec::new();
    let mut cur = String::new();
    let mut i: usize = 0;
    while i < n
        invariant
            0 <= i <= n,
            n == s@.len(),
            parts.deep_view().push(cur@) == spec_split(s@.take(i as int), sep),
        decreases n - i,
    {
        let c = s.get_char(i);
        let ghost prev = spec_split(s@.take(i as int), sep);
        let ghost oldcur = cur@;
        proof {
            assert(s@.take(i + 1 as int).drop_last() =~= s@.take(i as int));
            assert(s@.take(i + 1 as int).last() == s@[i as int]);
        }
        if c == sep {
            parts.push(cur);
            cur = String::new();
            proof {
                assert(parts.deep_view().push(cur@) =~= prev.push(Seq::<char>::empty()));
            }
        } else {
            let piece = char_to_string(c);
            cur.append(piece.as_str());
            proof {
                assert(prev[prev.len() - 1] == oldcur);
                assert(cur@ =~= oldcur.push(s@[i as int]));
                assert(parts.deep_view().push(cur@) =~= prev.update(
                    prev.len() - 1,
                    prev.last().push(s@[i as int]),
                ));
            }
        }
        i = i + 1;
    }
    parts.push(cur);
    proof {
        assert(s@.take(n as int) =~= s@);
    }
    let ghost raw = spec_split(s@, sep);
    let mut out: Vec<String> = Vec::new();
    let mut k: usize = 0;
    while k < parts.len()
        invariant
            0 <= k <= parts.len(),
            parts.deep_view() == raw,
            out.deep_view() == raw.take(k as int).map_values(|t: Seq<char>| spec_trim(t)),
        decreases parts.len() - k,
    {
        let t = trim(parts[k].as_str());
        out.push(String::from_str(t));
        proof {
            assert(raw.take(k + 1 as int).map_values(|t: Seq<char>| spec_trim(t)) =~= raw.take(
                k as int,
            ).map_values(|t: Seq<char>| spec_trim(t)).push(spec_trim(raw[k as int])));
        }
        k = k + 1;
    }
    proof {
        assert(raw.take(parts.len() as int) =~= raw);
    }
    out
}

/// Decimal digit test.
pub open spec fn is_digit(c: char) -> bool {
    '0' <= c && c <= '9'
}

/// Numeric value of a decimal digit character.
pub open spec fn digit_val(c: char) -> int {
    c as u32 - 48
}

/// Whether every character of `s` is a decimal digit.
pub open spec fn all_digits(s: Seq<char>) -> bool {
    forall|i: int| 0 <= i < s.len() ==> is_digit(#[trigger] s[i])
}

/// The number denoted by a sequence of decimal digits.
pub open spec fn digits_val(s: Seq<char>) -> int
    decreases s.len(),
{
    if s.len() == 0 {
        0
    } else {
        digits_val(s.drop_last()) * 10 + digit_val(s.last())
    }
}

pub proof fn lemma_digits_val_nonneg(s: Seq<char>)
    requires
        all_digits(s),
    ensures
        digits_val(s) >= 0,
    decreases s.len(),
{
    if s.len() > 0 {
        assert(all_digits(s.drop_last())) by {
            assert(forall|i: int|
                0 <= i < s.len() - 1 ==> #[trigger] s.drop_last()[i] == s[i]);
        }
        lemma_digits_val_nonneg(s.drop_last());
    }
}

/// Extending a digit string on the right can only increase its value.
pub proof fn lemma_digits_val_prefix(s: Seq<char>, k: int)
    requires
        all_digits(s),
        0 <= k <= s.len(),
    ensures
        digits_val(s.take(k)) <= digits_val(s),
    decreases s.len() - k,
{
    if k < s.len() {
        lemma_digits_val_prefix(s, k + 1);
        assert(s.take(k + 1).drop_last() =~= s.take(k));
        assert(all_digits(s.take(k))) by {
            assert(forall|i: int| 0 <= i < k ==> #[trigger] s.take(k)[i] == s[i]);
        }
        lemma_digits_val_nonneg(s.take(k));
    } else {
        assert(s.take(k) =~= s);
    }
}

/// What parsing an unsigned decimal integer yields: the digits' value when
/// `s` is one or more digits and the value fits, nothing otherwise.
pub open spec fn spec_parse_u64(s: Seq<char>) -> Option<u64> {
    if s.len() >= 1 && all_digits(s) && digits_val(s) <= u64::MAX {
        Some(digits_val(s) as u64)
    } else {
        None
    }
}

/// Parse an unsigned decimal integer.
pub fn parse_u64(s: &str) -> (r: Option<u64>)
    ensures
        r == spec_parse_u64(s@),
{
    let n = s.unicode_len();
    if n == 0 {
        return None;
    }
    let mut acc: u64 = 0;
    let mut i: usize = 0;
    while i < n
        invariant
            0 <= i <= n,
            n == s@.len(),
            all_digits(s@.take(i as int)),
            acc == digits_val(s@.take(i as int)),
        decreases n - i,
    {
        let c = s.get_char(i);
        if !('0' <= c && c <= '9') {
            assert(!all_digits(s@)) by {
                assert(!is_digit(s@[i as int]));
            }
            return None;
        }
        let d: u64 = (c as u32 - 48) as u64;
        proof {
            assert(s@.take(i + 1 as int).drop_last() =~= s@.take(i as int));
            assert(s@.take(i + 1 as int).last() == s@[i as int]);
            assert(all_digits(s@.take(i + 1 as int))) by {
                assert(forall|j: int|
                    0 <= j < i ==> #[trigger] s@.take(i + 1 as int)[j] == s@.take(i as int)[j]);
            }
        }
        if acc > (u64::MAX - d) / 10 {
            proof {
                assert(digits_val(s@.take(i + 1 as int)) > u64::MAX);
                if all_digits(s@) {
                    lemma_digits_val_prefix(s@, i + 1 as int);
                }
            }
            return None;
        }
        acc = acc * 10 + d;
        i = i + 1;
    }
    proof {
        assert(s@.take(n as int) =~= s@);
    }
    Some(acc)
}

/// What parsing a signed decimal integer yields.
pub open spec fn spec_parse_i64(s: Seq<char>) -> Option<i64> {
    if s.len() >= 1 && s[0] == '-' {
        let t = s.skip(1);
        if t.len() >= 1 && all_digits(t) && digits_val(t) <= 0x8000_0000_0000_0000 {
            Some((-digits_val(t)) as i64)
        } else {
            None
        }
    } else if s.len() >= 1 && all_digits(s) && digits_val(s) <= i64::MAX {
        Some(digits_val(s) as i64)
    } else {
        None
    }
}

/// Parse a signed decimal integer.
pub fn parse_i64(s: &str) -> (r: Option<i64>)
    ensures
        r == spec_parse_i64(s@),
{
    let n = s.unicode_len();
    if n == 0 {
        return None;
    }
    if s.get_char(0) == '-' {
        let rest = s.substring_char(1, n);
        proof {
            assert(rest@ =~= s@.skip(1));
        }
        match parse_u64(rest) {
            Some(v) => {
                proof {
                    lemma_digits_val_nonneg(rest@);
                }
                if v <= 0x8000_0000_0000_0000u64 {
                    if v == 0x8000_0000_0000_0000u64 {
                        Some(i64::MIN)
                    } else {
                        Some(-(v as i64))
                    }
                } else {
                    None
                }
            },
            None => {
                proof {
                    if all_digits(s@.skip(1)) && s@.skip(1).len() >= 1 {
                        lemma_digits_val_nonneg(s@.skip(1));
                    }
                }
                None
            },
        }
    } else {
        match parse_u64(s) {
            Some(v) => {
                proof {
                    lemma_digits_val_nonneg(s@);
                }
                if v <= i64::MAX as u64 {
                    Some(v as i64)
                } else {
                    None
                }
            },
            None => None,
        }
    }
}

/// Ten to the `k`.
pub open spec fn pow10(k: nat) -> int
    decreases k,
{
    if k == 0 {
        1
    } else {
        10 * pow10((k - 1) as nat)
    }
}

/// Index of the first occurrence of `c` in `s`, or -1.
pub open spec fn find_char(s: Seq<char>, c: char) -> int
    decreases s.len(),
{
    if s.len() == 0 {
        -1
    } else if s[0] == c {
        0
    } else {
        let r = find_char(s.drop_first(), c);
        if r == -1 {
            -1
        } else {
            r + 1
        }
    }
}

/// The value of a non-negative decimal literal (digits, optionally with one
/// dot), scaled by ten to the `p` and truncated to `p` fractional digits.
/// Mirrors what a float parse accepts: `"20"`, `"20.5"`, `"20."`, `".5"`,
/// but not `"."`, `""` or anything with other characters.
pub open spec fn spec_parse_fixed(s: Seq<char>, p: nat) -> Option<int> {
    let dot = find_char(s, '.');
    if dot == -1 {
        if s.len() >= 1 && all_digits(s) {
            Some(digits_val(s) * pow10(p))
        } else {
            None
        }
    } else {
        let ip = s.take(dot);
        let fp = s.skip(dot + 1);
        if ip.len() + fp.len() >= 1 && all_digits(ip) && all_digits(fp) {
            let fd = if fp.len() <= p {
                fp
            } else {
                fp.take(p as int)
            };
            Some(digits_val(ip) * pow10(p) + digits_val(fd) * pow10((p - fd.len()) as nat))
        } else {
            None
        }
    }
}

/// `spec_parse_fixed`, restricted to values that fit an `i64`.
pub open spec fn spec_parse_fixed_i64(s: Seq<char>, p: nat) -> Option<i64> {
    match spec_parse_fixed(s, p) {
        Some(v) => if v <= i64::MAX {
            Some(v as i64)
        } else {
            None
        },
        None => None,
    }
}

proof fn lemma_pow10_pos(k: nat)
    ensures
        pow10(k) >= 1,
    decreases k,
{
    if k > 0 {
        lemma_pow10_pos((k - 1) as nat);
    }
}

proof fn lemma_pow10_small(p: nat)
    requires
        p <= 3,
    ensures
        pow10(p) == if p == 0 {
            1int
        } else if p == 1 {
            10int
        } else if p == 2 {
            100int
        } else {
            1000int
        },
{
    assert(pow10(0) == 1);
    assert(pow10(1) == 10);
    assert(pow10(2) == 100);
    assert(pow10(3) == 1000);
}

/// The product of a `u64` and a factor of at most 1000 fits a `u128`.
proof fn lemma_u128_product_bound(a: int, s: int)
    requires
        0 <= a <= u64::MAX,
        0 <= s <= 1000,
    ensures
        a * s <= u64::MAX * 1000 < u128::MAX,
{
    vstd::arithmetic::mul::lemma_mul_inequality(a, u64::MAX as int, s);
    vstd::arithmetic::mul::lemma_mul_inequality(s, 1000, u64::MAX as int);
    vstd::arithmetic::mul::lemma_mul_is_commutative(u64::MAX as int, s);
    vstd::arithmetic::mul::lemma_mul_is_commutative(u64::MAX as int, 1000);
}

fn pow10_exec(p: u32) -> (r: u64)
    requires
        p <= 3,
    ensures
        r == pow10(p as nat),
{
    proof {
        lemma_pow10_small(p as nat);
    }
    if p == 0 {
        1
    } else if p == 1 {
        10
    } else if p == 2 {
        100
    } else {
        1000
    }
}

/// Parse a non-negative decimal literal into fixed-point with `p`
/// fractional digits (`p` at most 3), rejecting values over `i64::MAX`.
fn parse_fixed(s: &str, p: u32) -> (r: Option<i64>)
    requires
        1 <= p <= 3,
    ensures
        r == spec_parse_fixed_i64(s@, p as nat),
{
    let n = s.unicode_len();
    let scale = pow10_exec(p);
    proof {
        lemma_pow10_small(p as nat);
    }
    // locate the first dot
    let mut dot: usize = 0;
    let mut found = false;
    while dot < n
        invariant_except_break
            0 <= dot <= n,
            n == s@.len(),
            !found,
            forall|j: int| 0 <= j < dot ==> s@[j] != '.',
        ensures
            0 <= dot <= n,
            n == s@.len(),
            forall|j: int| 0 <= j < dot ==> s@[j] != '.',
            found ==> dot < n && s@[dot as int] == '.',
            !found ==> dot == n,
        decreases n - dot,
    {
        if s.get_char(dot) == '.' {
            found = true;
            break;
        }
        dot = dot + 1;
    }
    proof {
        lemma_find_char(s@, '.');
        if found {
            assert(find_char(s@, '.') == dot as int);
        } else {
            assert(find_char(s@, '.') == -1);
        }
    }
    if !found {
        match parse_u64(s) {
            Some(v) => {
                proof {
                    lemma_digits_val_nonneg(s@);
                    lemma_u128_product_bound(v as int, scale as int);
                }
                if (v as u128) * (scale as u128) <= i64::MAX as u128 {
                    Some(((v as u128) * (scale as u128)) as i64)
                } else {
                    None
                }
            },
            None => {
                proof {
                    if s@.len() >= 1 && all_digits(s@) {
                        // value exceeds u64::MAX, so certainly i64::MAX
                        lemma_digits_val_nonneg(s@);
                        vstd::arithmetic::mul::lemma_mul_inequality(
                            1,
                            pow10(p as nat),
                            digits_val(s@),
                        );
                        assert(digits_val(s@) * 1 == digits_val(s@));
                        assert(digits_val(s@) * pow10(p as nat) == pow10(p as nat) * digits_val(
                            s@,
                        )) by {
                            vstd::arithmetic::mul::lemma_mul_is_commutative(
                                digits_val(s@),
                                pow10(p as nat),
                            );
                        }
                    }
                }
                None
            },
        }
    } else {
        let ghost ip = s@.take(dot as int);
        let ghost fp = s@.skip(dot as int + 1);
        if n == 1 {
            // the string is just "."
            return None;
        }
        // integer part
        let ip_val: u64 = if dot == 0 {
            0
        } else {
            let ip_str = s.substring_char(0, dot);
            proof {
                assert(ip_str@ =~= ip);
            }
            match parse_u64(ip_str) {
                Some(v) => {
                    proof {
                        lemma_digits_val_nonneg(ip);
                    }
                    v
                },
                None => {
                    proof {
                        if all_digits(ip) && all_digits(fp) {
                            // the integer part alone exceeds u64::MAX
                            let fd = if fp.len() <= p as nat {
                                fp
                            } else {
                                fp.take(p as int)
                            };
                            assert(all_digits(fd)) by {
                                assert(forall|j: int|
                                    0 <= j < fd.len() ==> #[trigger] fd[j] == fp[j]);
                            }
                            lemma_digits_val_nonneg(fd);
                            lemma_digits_val_nonneg(ip);
                            lemma_pow10_pos((p as nat - fd.len()) as nat);
                            vstd::arithmetic::mul::lemma_mul_inequality(
                                1,
                                pow10(p as nat),
                                digits_val(ip),
                            );
                            vstd::arithmetic::mul::lemma_mul_is_commutative(
                                digits_val(ip),
                                pow10(p as nat),
                            );
                            vstd::arithmetic::mul::lemma_mul_nonnegative(
                                digits_val(fd),
                                pow10((p as nat - fd.len()) as nat),
                            );
                        }
                    }
                    return None;
                },
            }
        };
        // fractional part: every character must be a digit
        let fp_len = n - dot - 1;
        let mut j: usize = 0;
        while j < fp_len
            invariant
                0 <= j <= fp_len,
                fp_len == n - dot - 1,
                dot < n,
                n == s@.len(),
                find_char(s@, '.') == dot as int,
                fp == s@.skip(dot as int + 1),
                fp.len() == fp_len,
                forall|k: int| 0 <= k < j ==> is_digit(#[trigger] fp[k]),
            decreases fp_len - j,
        {
            let c = s.get_char(dot + 1 + j);
            if !('0' <= c && c <= '9') {
                assert(!is_digit(fp[j as int]));
                return None;
            }
            j = j + 1;
        }
        assert(all_digits(fp));
        // first `p` fractional digits, scaled to `p` places
        let k = if fp_len <= p as usize {
            fp_len
        } else {
            p as usize
        };
        let ghost fd = if fp.len() <= p as nat {
            fp
        } else {
            fp.take(p as int)
        };
        let fs: u64 = if k == 0 {
            proof {
                assert(fd =~= Seq::<char>::empty());
            }
            0
        } else {
            let fd_str = s.substring_char(dot + 1, dot + 1 + k);
            proof {
                assert(fd_str@ =~= fd);
                assert(all_digits(fd)) by {
                    assert(forall|t: int| 0 <= t < fd.len() ==> #[trigger] fd[t] == fp[t]);
                }
                lemma_digits_val_nonneg(fd);
                lemma_digits_val_prefix(fp, k as int);
                lemma_pow10_small((p as nat - fd.len()) as nat);
                lemma_pow10_small(fd.len());
                assert(digits_val(fd) <= u64::MAX) by {
                    assert(fd.len() <= 3);
                    lemma_pow10_small(fd.len());
                    lemma_digits_small(fd);
                }
            }
            let fd_val = match parse_u64(fd_str) {
                Some(v) => v,
                None => {
                    // unreachable: fd is one to three digits
                    proof {
                        assert(false);
                    }
                    0
                },
            };
            let mult = pow10_exec(p - k as u32);
            proof {
                let lo = pow10(fd.len());
                let hi = pow10((p as nat - fd.len()) as nat);
                lemma_digits_small(fd);
                lemma_pow10_small(fd.len());
                vstd::arithmetic::mul::lemma_mul_inequality(digits_val(fd), lo - 1, hi);
                lemma_pow10_add(fd.len(), (p as nat - fd.len()) as nat);
                vstd::arithmetic::mul::lemma_mul_is_distributive_sub_other_way(
                    hi,
                    lo,
                    1,
                );
                vstd::arithmetic::mul::lemma_mul_is_commutative(lo - 1, hi);
                vstd::arithmetic::mul::lemma_mul_is_commutative(lo, hi);
                assert((lo - 1) * hi == lo * hi - hi);
            }
            fd_val * mult
        };
        proof {
            assert(fs <= 1000);
            lemma_digits_val_nonneg(ip);
            lemma_u128_product_bound(ip_val as int, scale as int);
        }
        // assemble, guarding against overflow of the total
        let total: u128 = (ip_val as u128) * (scale as u128) + (fs as u128);
        if total <= i64::MAX as u128 {
            Some(total as i64)
        } else {
            None
        }
    }
}

/// A digit string of length `n` denotes less than ten to the `n`.
proof fn lemma_digits_small(s: Seq<char>)
    requires
        all_digits(s),
    ensures
        digits_val(s) < pow10(s.len()),
    decreases s.len(),
{
    if s.len() == 0 {
    } else {
        assert(all_digits(s.drop_last())) by {
            assert(forall|i: int|
                0 <= i < s.len() - 1 ==> #[trigger] s.drop_last()[i] == s[i]);
        }
        lemma_digits_small(s.drop_last());
        assert(digits_val(s.drop_last()) <= pow10((s.len() - 1) as nat) - 1);
        vstd::arithmetic::mul::lemma_mul_inequality(
            digits_val(s.drop_last()),
            pow10((s.len() - 1) as nat) - 1,
            10,
        );
        assert(is_digit(s.last()));
    }
}

/// `pow10` turns addition of exponents into multiplication.
proof fn lemma_pow10_add(a: nat, b: nat)
    ensures
        pow10(a) * pow10(b) == pow10(a + b),
    decreases a,
{
    if a == 0 {
    } else {
        lemma_pow10_add((a - 1) as nat, b);
        assert(pow10(a) * pow10(b) == 10 * pow10((a - 1) as nat) * pow10(b));
        vstd::arithmetic::mul::lemma_mul_is_associative(
            10,
            pow10((a - 1) as nat),
            pow10(b),
        );
    }
}

/// Parse a decimal literal into hundredths.
pub fn parse_centi(s: &str) -> (r: Option<i64>)
    ensures
        r == spec_parse_fixed_i64(s@, 2),
{
    parse_fixed(s, 2)
}

/// Parse a decimal literal into thousandths.
pub fn parse_milli(s: &str) -> (r: Option<i64>)
    ensures
        r == spec_parse_fixed_i64(s@, 3),
{
    parse_fixed(s, 3)
}

/// The character for a decimal digit value.
pub open spec fn spec_digit_char(d: int) -> char {
    ((48 + d) as u8) as char
}

/// Decimal digit string of a non-negative number, most significant first.
pub open spec fn spec_u64_str(n: int) -> Seq<char>
    decreases n,
{
    if n < 10 {
        seq![spec_digit_char(n)]
    } else {
        spec_u64_str(n / 10).push(spec_digit_char(n % 10))
    }
}

/// Decimal digit string of a signed number.
pub open spec fn spec_i64_str(n: int) -> Seq<char> {
    if n >= 0 {
        spec_u64_str(n)
    } else {
        seq!['-'] + spec_u64_str(-n)
    }
}

fn digit_to_char(d: u64) -> (r: char)
    requires
        d < 10,
    ensures
        r == spec_digit_char(d as int),
{
    (48 + d as u8) as char
}

/// Render a number in decimal.
pub fn u64_to_string(n: u64) -> (r: String)
    ensures
        r@ == spec_u64_str(n as int),
    decreases n,
{
    if n < 10 {
        char_to_string(digit_to_char(n))
    } else {
        let rest = u64_to_string(n / 10);
        let piece = char_to_string(digit_to_char(n % 10));
        rest.concat(piece.as_str())
    }
}

/// Render a signed number in decimal.
pub fn i64_to_string(n: i64) -> (r: String)
    ensures
        r@ == spec_i64_str(n as int),
{
    if n >= 0 {
        u64_to_string(n as u64)
    } else {
        let m: u64 = if n == i64::MIN {
            9223372036854775808u64
        } else {
            (-n) as u64
        };
        proof {
            reveal_strlit("-");
        }
        let digits = u64_to_string(m);
        String::from_str("-").concat(digits.as_str())
    }
}

/// Hundredths rounded to the nearest whole number, ties away from zero.
pub open spec fn spec_centi_round(c: int) -> int {
    if c >= 0 {
        (c + 50) / 100
    } else {
        -((-c + 50) / 100)
    }
}

/// Decimal rendering of a fixed-point hundredths value rounded to a whole
/// number.
pub open spec fn spec_centi_str(c: int) -> Seq<char> {
    spec_i64_str(spec_centi_round(c))
}

/// Render a hundredths value as a rounded whole number.
pub fn centi_to_string(c: i64) -> (r: String)
    requires
        -(i64::MAX - 50) <= c <= i64::MAX - 50,
    ensures
        r@ == spec_centi_str(c as int),
{
    if c >= 0 {
        u64_to_string(((c + 50) / 100) as u64)
    } else {
        let mag = ((-c) + 50) / 100;
        i64_to_string(-mag)
    }
}

/// `s` with every occurrence of `pat` replaced by `rep`, scanning left to
/// right without revisiting replaced text; the empty pattern replaces
/// nothing.
pub open spec fn spec_replace(s: Seq<char>, pat: Seq<char>, rep: Seq<char>) -> Seq<char>
    decreases s.len(),
{
    if pat.len() == 0 {
        s
    } else if s.len() < pat.len() {
        s
    } else if s.take(pat.len() as int) == pat {
        rep + spec_replace(s.skip(pat.len() as int), pat, rep)
    } else {
        seq![s[0]] + spec_replace(s.drop_first(), pat, rep)
    }
}

/// Replace every occurrence of `pat` in `s` by `rep`.
pub fn replace(s: &str, pat: &str, rep: &str) -> (r: String)
    ensures
        r@ == spec_replace(s@, pat@, rep@),
{
    let n = s.unicode_len();
    let m = pat.unicode_len();
    if m == 0 {
        return String::from_str(s);
    }
    let mut out = String::new();
    let mut i: usize = 0;
    proof {
        assert(s@.skip(0) =~= s@);
    }
    while i < n
        invariant
            0 <= i <= n,
            1 <= m,
            n == s@.len(),
            m == pat@.len(),
            out@ + spec_replace(s@.skip(i as int), pat@, rep@) == spec_replace(s@, pat@, rep@),
        decreases n - i,
    {
        if m <= n - i {
            let piece = s.substring_char(i, i + m);
            proof {
                assert(piece@ =~= s@.skip(i as int).take(m as int));
            }
            if str_eq(piece, pat) {
                out.append(rep);
                proof {
                    assert(s@.skip(i as int).skip(m as int) =~= s@.skip(i + m as int));
                }
                i = i + m;
            } else {
                let one = s.substring_char(i, i + 1);
                out.append(one);
                proof {
                    assert(one@ =~= seq![s@.skip(i as int)[0]]);
                    assert(s@.skip(i as int).drop_first() =~= s@.skip(i + 1 as int));
                }
                i = i + 1;
            }
        } else {
            let tail = s.substring_char(i, n);
            out.append(tail);
            proof {
                assert(tail@ =~= s@.skip(i as int));
                assert(s@.skip(n as int) =~= Seq::<char>::empty());
            }
            i = n;
        }
    }
    proof {
        assert(s@.skip(n as int) =~= Seq::<char>::empty());
        assert(out@ =~= out@ + Seq::<char>::empty());
    }
    out
}

pub proof fn lemma_find_char(s: Seq<char>, c: char)
    ensures
        find_char(s, c) == -1 ==> forall|j: int| 0 <= j < s.len() ==> s[j] != c,
        find_char(s, c) != -1 ==> {
            let r = find_char(s, c);
            &&& 0 <= r < s.len()
            &&& s[r] == c
            &&& forall|j: int| 0 <= j < r ==> s[j] != c
        },
    decreases s.len(),
{
    if s.len() > 0 && s[0] != c {
        lemma_find_char(s.drop_first(), c);
        assert(forall|j: int|
            1 <= j < s.len() ==> #[trigger] s[j] == s.drop_first()[j - 1]);
    }
}

} // verus!
