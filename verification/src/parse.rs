use vstd::prelude::*;

use vstd::slice::slice_subrange;
use vstd::string::StringSliceAdditionalSpecFns;

use crate::MAX_TIME_US;

verus! {

/// Decimal digits of a whole-second part are capped here: any larger
/// whole part already exceeds `MAX_TIME_US` once scaled to microseconds.
pub const WHOLE_SECONDS_CAP: u64 = 10_000_000_000_000;

pub open spec fn is_digit_byte(b: u8) -> bool {
    48 <= b <= 57
}

pub open spec fn is_ascii_ws(b: u8) -> bool {
    b == 32 || b == 9 || b == 10 || b == 11 || b == 12 || b == 13
}

/// A token ends at a colon or at ASCII whitespace.
pub open spec fn is_delim_byte(b: u8) -> bool {
    b == 58 || is_ascii_ws(b)
}

pub open spec fn all_digit_bytes(s: Seq<u8>) -> bool {
    forall|i: int| 0 <= i < s.len() ==> is_digit_byte(#[trigger] s[i])
}

/// The number a digit string denotes, most significant digit first.
pub open spec fn digits_val(s: Seq<u8>) -> nat
    decreases s.len(),
{
    if s.len() == 0 {
        0
    } else {
        digits_val(s.drop_last()) * 10 + (s.last() - 48) as nat
    }
}

pub open spec fn ten_pow(n: nat) -> nat
    decreases n,
{
    if n == 0 {
        1
    } else {
        10 * ten_pow((n - 1) as nat)
    }
}

/// The microseconds a fractional-second digit string denotes: digits
/// beyond the sixth are truncated, shorter strings are padded with zeros.
pub open spec fn spec_frac_micros(s: Seq<u8>) -> nat {
    if s.len() >= 6 {
        digits_val(s.take(6))
    } else {
        digits_val(s) * ten_pow((6 - s.len()) as nat)
    }
}

/// `j` is the first occurrence of byte `b` in `s`.
pub open spec fn is_first_index_of(s: Seq<u8>, b: u8, j: int) -> bool {
    &&& 0 <= j < s.len()
    &&& s[j] == b
    &&& forall|k: int| 0 <= k < j ==> s[k] != b
}

/// Where `s` splits at its first occurrence of `b`: the index of that
/// occurrence, or the length when `b` never occurs.
pub open spec fn spec_split_point(s: Seq<u8>, b: u8) -> int {
    if exists|j: int| is_first_index_of(s, b, j) {
        choose|j: int| is_first_index_of(s, b, j)
    } else {
        s.len() as int
    }
}

/// What a decimal-seconds string denotes in microseconds: an optional
/// whole part and an optional fractional part around one dot, at least
/// one digit in all, nothing else.  Fractional digits beyond microsecond
/// resolution are truncated; values beyond `MAX_TIME_US` are rejected.
pub open spec fn spec_parse_decimal_us(s: Seq<u8>) -> Option<u64> {
    let dot = spec_split_point(s, 46);
    let whole = s.take(dot);
    let frac = if dot == s.len() {
        Seq::<u8>::empty()
    } else {
        s.skip(dot + 1)
    };
    if whole.len() == 0 && frac.len() == 0 {
        None
    } else if !all_digit_bytes(whole) || !all_digit_bytes(frac) {
        None
    } else {
        let v = digits_val(whole) * 1_000_000 + spec_frac_micros(frac);
        if v > MAX_TIME_US {
            None
        } else {
            Some(v as u64)
        }
    }
}

/// `pat` occurs in `text` starting at `i`.
pub open spec fn spec_contains_at(text: Seq<u8>, pat: Seq<u8>, i: int) -> bool {
    &&& 0 <= i
    &&& i + pat.len() <= text.len()
    &&& text.subrange(i, i + pat.len()) == pat
}

pub open spec fn spec_contains(text: Seq<u8>, pat: Seq<u8>) -> bool {
    exists|i: int| spec_contains_at(text, pat, i)
}

/// `i` is the first occurrence of `pat` in `text`.
pub open spec fn is_first_match_at(text: Seq<u8>, pat: Seq<u8>, i: int) -> bool {
    &&& spec_contains_at(text, pat, i)
    &&& forall|k: int| 0 <= k < i ==> !spec_contains_at(text, pat, k)
}

pub open spec fn spec_first_match(text: Seq<u8>, pat: Seq<u8>) -> int {
    choose|i: int| is_first_match_at(text, pat, i)
}

/// `j` is the first delimiter of `s`.
pub open spec fn is_first_delim_at(s: Seq<u8>, j: int) -> bool {
    &&& 0 <= j < s.len()
    &&& is_delim_byte(s[j])
    &&& forall|k: int| 0 <= k < j ==> !is_delim_byte(s[k])
}

/// The token at the head of `s`: everything up to the first delimiter.
pub open spec fn spec_token(s: Seq<u8>) -> Seq<u8> {
    if exists|j: int| is_first_delim_at(s, j) {
        s.take(choose|j: int| is_first_delim_at(s, j))
    } else {
        s
    }
}

/// `s` from its first non-whitespace byte on.
pub open spec fn spec_skip_ws(s: Seq<u8>) -> Seq<u8> {
    if exists|j: int| is_first_non_ws_at(s, j) {
        s.skip(choose|j: int| is_first_non_ws_at(s, j))
    } else {
        Seq::empty()
    }
}

/// The number the text right after the first occurrence of `marker`
/// denotes: leading whitespace skipped, then the token up to the next
/// colon or whitespace, parsed as decimal seconds.  Absent marker or
/// malformed token: nothing.
pub open spec fn spec_value_after(text: Seq<u8>, marker: Seq<u8>) -> Option<u64> {
    if !spec_contains(text, marker) {
        None
    } else {
        spec_parse_decimal_us(
            spec_token(spec_skip_ws(text.skip(spec_first_match(text, marker) + marker.len()))),
        )
    }
}

/// `j` is the first non-whitespace byte of `s`.
pub open spec fn is_first_non_ws_at(s: Seq<u8>, j: int) -> bool {
    &&& 0 <= j < s.len()
    &&& !is_ascii_ws(s[j])
    &&& forall|k: int| 0 <= k < j ==> is_ascii_ws(s[k])
}

/// `j` is the last non-whitespace byte of `s`.
pub open spec fn is_last_non_ws_at(s: Seq<u8>, j: int) -> bool {
    &&& 0 <= j < s.len()
    &&& !is_ascii_ws(s[j])
    &&& forall|k: int| j < k < s.len() ==> is_ascii_ws(s[k])
}

/// `s` with leading and trailing ASCII whitespace removed.
pub open spec fn spec_trim_ws(s: Seq<u8>) -> Seq<u8> {
    if exists|j: int| is_first_non_ws_at(s, j) {
        let f = choose|j: int| is_first_non_ws_at(s, j);
        let l = choose|j: int| is_last_non_ws_at(s, j);
        s.subrange(f, l + 1)
    } else {
        Seq::empty()
    }
}

/// What one black-frame diagnostic line yields: the interval start and
/// end, read from the tokens after `black_start:` and `black_end:`.
/// Lines missing either marker or carrying malformed values yield
/// nothing and are silently skipped by the callers.
pub open spec fn spec_parse_black_frame_line(line: Seq<u8>) -> Option<(u64, u64)> {
    let s = spec_value_after(line, "black_start:".spec_bytes());
    let e = spec_value_after(line, "black_end:".spec_bytes());
    if s is Some && e is Some {
        Some((s->0, e->0))
    } else {
        None
    }
}

/// What one scene-change diagnostic line yields: everything after
/// `pts_time:`, trimmed of whitespace, parsed as decimal seconds.
pub open spec fn spec_parse_pts_time_line(line: Seq<u8>) -> Option<u64> {
    if !spec_contains(line, "pts_time:".spec_bytes()) {
        None
    } else {
        spec_parse_decimal_us(
            spec_trim_ws(line.skip(spec_first_match(line, "pts_time:".spec_bytes()) + 9)),
        )
    }
}

proof fn lemma_first_index_unique(s: Seq<u8>, b: u8, j1: int, j2: int)
    requires
        is_first_index_of(s, b, j1),
        is_first_index_of(s, b, j2),
    ensures
        j1 == j2,
{
    if j1 < j2 {
        assert(s[j1] != b);
    }
    if j2 < j1 {
        assert(s[j2] != b);
    }
}

proof fn lemma_first_match_unique(text: Seq<u8>, pat: Seq<u8>, j1: int, j2: int)
    requires
        is_first_match_at(text, pat, j1),
        is_first_match_at(text, pat, j2),
    ensures
        j1 == j2,
{
    if j1 < j2 {
        assert(!spec_contains_at(text, pat, j1));
    }
    if j2 < j1 {
        assert(!spec_contains_at(text, pat, j2));
    }
}

proof fn lemma_first_delim_unique(s: Seq<u8>, j1: int, j2: int)
    requires
        is_first_delim_at(s, j1),
        is_first_delim_at(s, j2),
    ensures
        j1 == j2,
{
    if j1 < j2 {
        assert(!is_delim_byte(s[j1]));
    }
    if j2 < j1 {
        assert(!is_delim_byte(s[j2]));
    }
}

proof fn lemma_first_non_ws_unique(s: Seq<u8>, j1: int, j2: int)
    requires
        is_first_non_ws_at(s, j1),
        is_first_non_ws_at(s, j2),
    ensures
        j1 == j2,
{
    if j1 < j2 {
        assert(is_ascii_ws(s[j1]));
    }
    if j2 < j1 {
        assert(is_ascii_ws(s[j2]));
    }
}

proof fn lemma_last_non_ws_unique(s: Seq<u8>, j1: int, j2: int)
    requires
        is_last_non_ws_at(s, j1),
        is_last_non_ws_at(s, j2),
    ensures
        j1 == j2,
{
    if j1 < j2 {
        assert(is_ascii_ws(s[j2]));
    }
    if j2 < j1 {
        assert(is_ascii_ws(s[j1]));
    }
}

/// A digit-string prefix never denotes more than the whole string.
proof fn lemma_digits_val_take_le(s: Seq<u8>, i: int)
    requires
        0 <= i <= s.len(),
    ensures
        digits_val(s.take(i)) <= digits_val(s),
    decreases s.len(),
{
    if i < s.len() {
        assert(s.drop_last().take(i) =~= s.take(i));
        lemma_digits_val_take_le(s.drop_last(), i);
    } else {
        assert(s.take(i) =~= s);
    }
}

proof fn lemma_ten_pow_monotone(a: nat, b: nat)
    requires
        a <= b,
    ensures
        ten_pow(a) <= ten_pow(b),
    decreases b,
{
    if a < b {
        lemma_ten_pow_monotone(a, (b - 1) as nat);
    }
}

proof fn lemma_ten_pow_six()
    ensures
        ten_pow(6) == 1_000_000,
{
    assert(ten_pow(0) == 1);
    assert(ten_pow(1) == 10 * ten_pow(0));
    assert(ten_pow(2) == 10 * ten_pow(1));
    assert(ten_pow(3) == 10 * ten_pow(2));
    assert(ten_pow(4) == 10 * ten_pow(3));
    assert(ten_pow(5) == 10 * ten_pow(4));
    assert(ten_pow(6) == 10 * ten_pow(5));
}

/// A digit string of length `n` denotes less than `10^n`.
proof fn lemma_digits_val_bound(s: Seq<u8>)
    requires
        all_digit_bytes(s),
    ensures
        digits_val(s) < ten_pow(s.len() as nat),
    decreases s.len(),
{
    if s.len() > 0 {
        assert(all_digit_bytes(s.drop_last())) by {
            assert(forall|k: int| 0 <= k < s.len() - 1 ==> s.drop_last()[k] == s[k]);
        }
        lemma_digits_val_bound(s.drop_last());
        assert(is_digit_byte(s.last()));
    }
}

/// The first occurrence of byte `b` in `s`, if any.
fn find_byte(s: &[u8], b: u8) -> (r: Option<usize>)
    ensures
        match r {
            Some(j) => is_first_index_of(s@, b, j as int),
            None => forall|k: int| 0 <= k < s@.len() ==> s@[k] != b,
        },
{
    let n = s.len();
    let mut i: usize = 0;
    while i < n
        invariant
            n == s@.len(),
            i <= n,
            forall|k: int| 0 <= k < i ==> s@[k] != b,
        decreases n - i,
    {
        if s[i] == b {
            return Some(i);
        }
        i = i + 1;
    }
    None
}

/// The first delimiter position of `s`, or its length.
fn find_delim(s: &[u8]) -> (r: usize)
    ensures
        r <= s@.len(),
        forall|k: int| 0 <= k < r ==> !is_delim_byte(s@[k]),
        r < s@.len() ==> is_delim_byte(s@[r as int]),
{
    let n = s.len();
    let mut i: usize = 0;
    while i < n
        invariant
            n == s@.len(),
            i <= n,
            forall|k: int| 0 <= k < i ==> !is_delim_byte(s@[k]),
        decreases n - i,
    {
        let c = s[i];
        if c == 58 || c == 32 || c == 9 || c == 10 || c == 11 || c == 12 || c == 13 {
            return i;
        }
        i = i + 1;
    }
    n
}

/// The value of a run of digits, refused when any byte is no digit or
/// the value reaches `WHOLE_SECONDS_CAP`.
fn parse_digits_value(digits: &[u8]) -> (r: Option<u64>)
    ensures
        match r {
            Some(v) => all_digit_bytes(digits@) && v == digits_val(digits@) && v
                < WHOLE_SECONDS_CAP,
            None => !all_digit_bytes(digits@) || digits_val(digits@) >= WHOLE_SECONDS_CAP,
        },
{
    let n = digits.len();
    let mut acc: u64 = 0;
    let mut i: usize = 0;
    while i < n
        invariant
            n == digits@.len(),
            i <= n,
            forall|k: int| 0 <= k < i ==> is_digit_byte(#[trigger] digits@[k]),
            acc == digits_val(digits@.take(i as int)),
            acc < WHOLE_SECONDS_CAP,
        decreases n - i,
    {
        let b = digits[i];
        if b < 48 || b > 57 {
            return None;
        }
        proof {
            assert(digits@.take(i as int + 1).drop_last() =~= digits@.take(i as int));
            assert(digits@.take(i as int + 1).last() == digits@[i as int]);
        }
        if acc >= WHOLE_SECONDS_CAP / 10 + 1 {
            // Even without the remaining digits the value is out of range.
            proof {
                lemma_digits_val_take_le(digits@, i as int + 1);
            }
            return None;
        }
        acc = acc * 10 + (b - 48) as u64;
        if acc >= WHOLE_SECONDS_CAP {
            proof {
                lemma_digits_val_take_le(digits@, i as int + 1);
            }
            return None;
        }
        i = i + 1;
    }
    proof {
        assert(digits@.take(n as int) =~= digits@);
    }
    Some(acc)
}

/// The microseconds a fractional part denotes, refused when any byte is
/// no digit; digits beyond the sixth are truncated.
fn parse_frac_micros(digits: &[u8]) -> (r: Option<u64>)
    ensures
        match r {
            Some(v) => all_digit_bytes(digits@) && v == spec_frac_micros(digits@) && v
                < 1_000_000,
            None => !all_digit_bytes(digits@),
        },
{
    let n = digits.len();
    let mut acc: u64 = 0;
    let mut i: usize = 0;
    while i < n
        invariant
            n == digits@.len(),
            i <= n,
            forall|k: int| 0 <= k < i ==> is_digit_byte(#[trigger] digits@[k]),
            acc == digits_val(digits@.take(if i < 6 { i as int } else { 6 })),
            acc < ten_pow(if i < 6 { i as nat } else { 6nat }),
            acc < 1_000_000,
        decreases n - i,
    {
        let b = digits[i];
        if b < 48 || b > 57 {
            return None;
        }
        if i < 6 {
            proof {
                assert(digits@.take(i as int + 1).drop_last() =~= digits@.take(i as int));
                assert(digits@.take(i as int + 1).last() == digits@[i as int]);
                assert(ten_pow(i as nat + 1) == 10 * ten_pow(i as nat));
                lemma_ten_pow_monotone(i as nat + 1, 6);
                lemma_ten_pow_six();
            }
            acc = acc * 10 + (b - 48) as u64;
        }
        i = i + 1;
    }
    if n >= 6 {
        return Some(acc);
    }
    // Pad to microsecond resolution.
    proof {
        assert(digits@.take(n as int) =~= digits@);
        assert(ten_pow(0nat) == 1);
        assert(digits_val(digits@) * ten_pow(0nat) == digits_val(digits@)) by (nonlinear_arith)
            requires
                ten_pow(0nat) == 1,
        ;
    }
    let mut k: usize = n;
    while k < 6
        invariant
            n == digits@.len(),
            n <= k <= 6,
            all_digit_bytes(digits@),
            acc == digits_val(digits@) * ten_pow((k - n) as nat),
            acc < ten_pow(k as nat),
            acc < 1_000_000,
        decreases 6 - k,
    {
        proof {
            assert(ten_pow((k - n) as nat + 1) == 10 * ten_pow((k - n) as nat));
            assert(ten_pow(k as nat + 1) == 10 * ten_pow(k as nat));
            lemma_ten_pow_monotone(k as nat + 1, 6);
            lemma_ten_pow_six();
            assert(digits_val(digits@) * ten_pow((k - n) as nat + 1) == 10 * (digits_val(digits@)
                * ten_pow((k - n) as nat))) by (nonlinear_arith)
                requires
                    ten_pow((k - n) as nat + 1) == 10 * ten_pow((k - n) as nat),
            ;
        }
        acc = acc * 10;
        k = k + 1;
    }
    Some(acc)
}

/// Parses a decimal-seconds string into microseconds: digits around at
/// most one dot, truncated at microsecond resolution, rejected beyond
/// `MAX_TIME_US`.
pub fn parse_decimal_us(s: &[u8]) -> (r: Option<u64>)
    ensures
        r == spec_parse_decimal_us(s@),
{
    let n = s.len();
    let ghost dot_spec = spec_split_point(s@, 46);
    let dot: usize = match find_byte(s, 46) {
        Some(j) => {
            proof {
                let jj = choose|jj: int| is_first_index_of(s@, 46, jj);
                lemma_first_index_unique(s@, 46, jj, j as int);
            }
            j
        },
        None => {
            proof {
                assert(!exists|j: int| is_first_index_of(s@, 46, j));
            }
            n
        },
    };
    assert(dot == dot_spec);
    let whole = slice_subrange(s, 0, dot);
    assert(whole@ =~= s@.take(dot as int));
    let w = match parse_digits_value(whole) {
        Some(w) => w,
        None => {
            proof {
                if all_digit_bytes(whole@) {
                    // The whole part alone already exceeds the range.
                    assert(digits_val(whole@) >= WHOLE_SECONDS_CAP);
                    assert(digits_val(whole@) * 1_000_000 >= WHOLE_SECONDS_CAP * 1_000_000)
                        by (nonlinear_arith)
                        requires
                            digits_val(whole@) >= WHOLE_SECONDS_CAP,
                    ;
                }
            }
            return None;
        },
    };
    let f = if dot == n {
        proof {
            assert(digits_val(Seq::<u8>::empty()) == 0);
            assert(spec_frac_micros(Seq::<u8>::empty()) == 0);
        }
        0u64
    } else {
        let frac = slice_subrange(s, dot + 1, n);
        assert(frac@ =~= s@.skip(dot as int + 1));
        match parse_frac_micros(frac) {
            Some(f) => f,
            None => {
                return None;
            },
        }
    };
    if whole.len() == 0 && dot == n {
        return None;
    }
    if dot < n && whole.len() == 0 && n - dot - 1 == 0 {
        // A bare dot has no digits at all.
        return None;
    }
    let v = w * 1_000_000 + f;
    if v > MAX_TIME_US {
        return None;
    }
    Some(v)
}

/// The first occurrence of `pat` in `text`, if any.
fn find_subslice(text: &[u8], pat: &[u8]) -> (r: Option<usize>)
    ensures
        match r {
            Some(i) => is_first_match_at(text@, pat@, i as int),
            None => !spec_contains(text@, pat@),
        },
{
    let tn = text.len();
    let pn = pat.len();
    if pn > tn {
        proof {
            assert forall|k: int| !spec_contains_at(text@, pat@, k) by {}
        }
        return None;
    }
    let mut i: usize = 0;
    while i <= tn - pn
        invariant
            tn == text@.len(),
            pn == pat@.len(),
            pn <= tn,
            i <= tn - pn + 1,
            forall|k: int| 0 <= k < i ==> !spec_contains_at(text@, pat@, k),
        decreases tn - pn + 1 - i,
    {
        let mut j: usize = 0;
        let mut matched: bool = true;
        while j < pn
            invariant
                tn == text@.len(),
                pn == pat@.len(),
                i + pn <= tn,
                j <= pn,
                matched <==> (forall|m: int| 0 <= m < j ==> text@[i + m] == pat@[m]),
            decreases pn - j,
        {
            if text[i + j] != pat[j] {
                matched = false;
                j = pn;
            } else {
                j = j + 1;
            }
        }
        if matched {
            proof {
                assert(text@.subrange(i as int, i + pn) =~= pat@);
            }
            return Some(i);
        }
        proof {
            assert(!spec_contains_at(text@, pat@, i as int)) by {
                if spec_contains_at(text@, pat@, i as int) {
                    let m = choose|m: int|
                        0 <= m < pn && text@[i + m] != pat@[m];
                    assert(text@.subrange(i as int, i + pn)[m] == pat@[m]);
                }
            }
        }
        i = i + 1;
    }
    None
}

/// Whether `marker` occurs anywhere in `text`.
pub fn contains_marker(text: &[u8], marker: &[u8]) -> (r: bool)
    ensures
        r == spec_contains(text@, marker@),
{
    match find_subslice(text, marker) {
        Some(_) => true,
        None => false,
    }
}

/// The decimal-seconds value of the token right after the first
/// occurrence of `marker`, if the marker occurs and the token parses.
pub fn value_after(text: &[u8], marker: &[u8]) -> (r: Option<u64>)
    ensures
        r == spec_value_after(text@, marker@),
{
    let i = match find_subslice(text, marker) {
        Some(i) => i,
        None => {
            return None;
        },
    };
    proof {
        let ii = spec_first_match(text@, marker@);
        lemma_first_match_unique(text@, marker@, ii, i as int);
    }
    let tlen = text.len();
    assert(i + marker@.len() <= text@.len());
    let raw = slice_subrange(text, i + marker.len(), tlen);
    proof {
        assert(raw@ =~= text@.skip(i + marker@.len()));
    }
    let n = raw.len();
    let mut f: usize = 0;
    while f < n && is_ws_byte(raw[f])
        invariant
            n == raw@.len(),
            f <= n,
            forall|k: int| 0 <= k < f ==> is_ascii_ws(raw@[k]),
        decreases n - f,
    {
        f = f + 1;
    }
    let rest = slice_subrange(raw, f, n);
    proof {
        if f < n {
            assert(is_first_non_ws_at(raw@, f as int));
            let ff = choose|j: int| is_first_non_ws_at(raw@, j);
            lemma_first_non_ws_unique(raw@, ff, f as int);
            assert(rest@ =~= spec_skip_ws(raw@));
        } else {
            assert(!exists|j: int| is_first_non_ws_at(raw@, j));
            assert(rest@ =~= spec_skip_ws(raw@));
        }
    }
    let d = find_delim(rest);
    let token = slice_subrange(rest, 0, d);
    proof {
        if d < rest.len() {
            assert(is_first_delim_at(rest@, d as int));
            let dd = choose|j: int| is_first_delim_at(rest@, j);
            lemma_first_delim_unique(rest@, dd, d as int);
            assert(token@ =~= spec_token(rest@));
        } else {
            assert(!exists|j: int| is_first_delim_at(rest@, j));
            assert(token@ =~= rest@);
        }
    }
    parse_decimal_us(token)
}

/// Whether one byte is ASCII whitespace.
fn is_ws_byte(b: u8) -> (r: bool)
    ensures
        r == is_ascii_ws(b),
{
    b == 32 || b == 9 || b == 10 || b == 11 || b == 12 || b == 13
}

/// `s` with leading and trailing ASCII whitespace removed.
fn trim_ws<'a>(s: &'a [u8]) -> (r: &'a [u8])
    ensures
        r@ == spec_trim_ws(s@),
{
    let n = s.len();
    let mut f: usize = 0;
    while f < n && is_ws_byte(s[f])
        invariant
            n == s@.len(),
            f <= n,
            forall|k: int| 0 <= k < f ==> is_ascii_ws(s@[k]),
        decreases n - f,
    {
        f = f + 1;
    }
    if f == n {
        proof {
            assert(!exists|j: int| is_first_non_ws_at(s@, j));
        }
        let r = slice_subrange(s, n, n);
        proof {
            assert(r@ =~= Seq::<u8>::empty());
        }
        return r;
    }
    let mut l: usize = n - 1;
    while l > f && is_ws_byte(s[l])
        invariant
            n == s@.len(),
            f <= l < n,
            forall|k: int| l < k < n ==> is_ascii_ws(s@[k]),
            forall|k: int| 0 <= k < f ==> is_ascii_ws(s@[k]),
            !is_ascii_ws(s@[f as int]),
        decreases l,
    {
        l = l - 1;
    }
    proof {
        assert(is_first_non_ws_at(s@, f as int));
        assert(is_last_non_ws_at(s@, l as int));
        let ff = choose|j: int| is_first_non_ws_at(s@, j);
        let ll = choose|j: int| is_last_non_ws_at(s@, j);
        lemma_first_non_ws_unique(s@, ff, f as int);
        lemma_last_non_ws_unique(s@, ll, l as int);
    }
    let r = slice_subrange(s, f, l + 1);
    proof {
        assert(r@ =~= spec_trim_ws(s@));
    }
    r
}

/// Parses one diagnostic line of the black-frame analysis: the tokens
/// after `black_start:` and `black_end:` as an interval, or nothing if
/// either marker is missing or malformed (lenient parsing: such lines
/// are skipped, never an error).
pub fn parse_black_frame_line(line: &[u8]) -> (r: Option<(u64, u64)>)
    ensures
        r == spec_parse_black_frame_line(line@),
{
    let s = value_after(line, "black_start:".as_bytes());
    let e = value_after(line, "black_end:".as_bytes());
    match (s, e) {
        (Some(sv), Some(ev)) => Some((sv, ev)),
        _ => None,
    }
}

/// Parses one diagnostic line of the scene-change analysis: everything
/// after `pts_time:`, trimmed, as a timestamp, or nothing if the marker
/// is missing or the value is malformed.
pub fn parse_pts_time_line(line: &[u8]) -> (r: Option<u64>)
    ensures
        r == spec_parse_pts_time_line(line@),
{
    let marker = "pts_time:".as_bytes();
    let i = match find_subslice(line, marker) {
        Some(i) => i,
        None => {
            return None;
        },
    };
    proof {
        let ii = spec_first_match(line@, marker@);
        lemma_first_match_unique(line@, marker@, ii, i as int);
        assert(marker@.len() == 9) by {
            vstd::string::is_ascii_spec_bytes("pts_time:");
            reveal_strlit("pts_time:");
        }
    }
    let llen = line.len();
    assert(i + marker@.len() <= line@.len());
    let rest = slice_subrange(line, i + marker.len(), llen);
    proof {
        assert(rest@ =~= line@.skip(i + 9));
    }
    let trimmed = trim_ws(rest);
    parse_decimal_us(trimmed)
}

/// Whether a new scene-change timestamp is retained: it must come at
/// least `min_scene_length_us` after the previously retained one.
pub open spec fn spec_scene_accept(last_kept: Option<u64>, t: u64, min_scene_length_us: u64) -> bool {
    match last_kept {
        None => true,
        Some(l) => l <= t && t - l >= min_scene_length_us,
    }
}

/// Whether a new scene-change timestamp is retained, given the one
/// retained before it.
pub fn scene_accept(last_kept: Option<u64>, t: u64, min_scene_length_us: u64) -> (r: bool)
    ensures
        r == spec_scene_accept(last_kept, t, min_scene_length_us),
{
    match last_kept {
        None => true,
        Some(l) => l <= t && t - l >= min_scene_length_us,
    }
}

/// The timestamps that survive arrival-order deduplication, starting
/// from an already-retained timestamp (or none).
pub open spec fn spec_filter_scenes(times: Seq<u64>, last: Option<u64>, min_scene_length_us: u64) -> Seq<u64>
    decreases times.len(),
{
    if times.len() == 0 {
        Seq::empty()
    } else if spec_scene_accept(last, times[0], min_scene_length_us) {
        seq![times[0]] + spec_filter_scenes(times.drop_first(), Some(times[0]), min_scene_length_us)
    } else {
        spec_filter_scenes(times.drop_first(), last, min_scene_length_us)
    }
}

/// Deduplicates scene-change timestamps as they arrived: a timestamp is
/// kept only if it lies at least `min_scene_length_us` past the
/// previously kept one.
pub fn filter_scene_times(times: &Vec<u64>, min_scene_length_us: u64) -> (r: Vec<u64>)
    ensures
        r@ == spec_filter_scenes(times@, None, min_scene_length_us),
{
    let ghost full = spec_filter_scenes(times@, None, min_scene_length_us);
    let mut out: Vec<u64> = Vec::new();
    let mut last: Option<u64> = None;
    proof {
        assert(times@.skip(0) =~= times@);
        assert(Seq::<u64>::empty() + full =~= full);
    }
    let mut i: usize = 0;
    while i < times.len()
        invariant
            i <= times@.len(),
            full == spec_filter_scenes(times@, None, min_scene_length_us),
            out@ + spec_filter_scenes(times@.skip(i as int), last, min_scene_length_us) == full,
        decreases times@.len() - i,
    {
        let t = times[i];
        proof {
            assert(times@.skip(i as int)[0] == times@[i as int]);
            assert(times@.skip(i as int).drop_first() =~= times@.skip(i as int + 1));
        }
        if scene_accept(last, t, min_scene_length_us) {
            out.push(t);
            last = Some(t);
            proof {
                assert(out@ + spec_filter_scenes(times@.skip(i as int + 1), last, min_scene_length_us)
                    =~= full);
            }
        }
        i = i + 1;
    }
    proof {
        assert(times@.skip(times@.len() as int) =~= Seq::<u64>::empty());
        assert(out@ + Seq::<u64>::empty() =~= out@);
    }
    out
}

/// What a whole black-frame diagnostic stream yields: each line that
/// mentions the black-frame filter and parses contributes its interval.
pub open spec fn spec_collect_black_frames(lines: Seq<Vec<u8>>) -> Seq<(u64, u64)>
    decreases lines.len(),
{
    if lines.len() == 0 {
        Seq::empty()
    } else {
        let rest = spec_collect_black_frames(lines.drop_first());
        if spec_contains(lines[0]@, "blackdetect".spec_bytes()) && spec_parse_black_frame_line(
            lines[0]@,
        ) is Some {
            seq![spec_parse_black_frame_line(lines[0]@)->0] + rest
        } else {
            rest
        }
    }
}

/// Collects black-frame intervals from the analysis's diagnostic lines,
/// in order; lines without the filter's marker or with malformed values
/// are silently skipped.
pub fn collect_black_frames(lines: &Vec<Vec<u8>>) -> (r: Vec<(u64, u64)>)
    ensures
        r@ == spec_collect_black_frames(lines@),
{
    let ghost full = spec_collect_black_frames(lines@);
    let mut out: Vec<(u64, u64)> = Vec::new();
    proof {
        assert(lines@.skip(0) =~= lines@);
        assert(Seq::<(u64, u64)>::empty() + full =~= full);
    }
    let mut i: usize = 0;
    while i < lines.len()
        invariant
            i <= lines@.len(),
            full == spec_collect_black_frames(lines@),
            out@ + spec_collect_black_frames(lines@.skip(i as int)) == full,
        decreases lines@.len() - i,
    {
        let line = &lines[i];
        proof {
            assert(lines@.skip(i as int)[0] == lines@[i as int]);
            assert(lines@.skip(i as int).drop_first() =~= lines@.skip(i as int + 1));
        }
        if contains_marker(line.as_slice(), "blackdetect".as_bytes()) {
            match parse_black_frame_line(line.as_slice()) {
                Some(iv) => {
                    out.push(iv);
                    proof {
                        assert(out@ + spec_collect_black_frames(lines@.skip(i as int + 1)) =~= full);
                    }
                },
                None => {},
            }
        }
        i = i + 1;
    }
    proof {
        assert(lines@.skip(lines@.len() as int) =~= Seq::<Vec<u8>>::empty());
        assert(out@ + Seq::<(u64, u64)>::empty() =~= out@);
    }
    out
}

/// What a whole scene-change diagnostic stream yields: each line with a
/// timestamp marker contributes its timestamp, deduplicated on arrival
/// by the minimum scene length.
pub open spec fn spec_collect_scene_changes(
    lines: Seq<Vec<u8>>,
    last: Option<u64>,
    min_scene_length_us: u64,
) -> Seq<u64>
    decreases lines.len(),
{
    if lines.len() == 0 {
        Seq::empty()
    } else {
        match spec_parse_pts_time_line(lines[0]@) {
            Some(t) => if spec_scene_accept(last, t, min_scene_length_us) {
                seq![t] + spec_collect_scene_changes(lines.drop_first(), Some(t), min_scene_length_us)
            } else {
                spec_collect_scene_changes(lines.drop_first(), last, min_scene_length_us)
            },
            None => spec_collect_scene_changes(lines.drop_first(), last, min_scene_length_us),
        }
    }
}

/// Collects scene-change timestamps from the analysis's diagnostic
/// lines, deduplicating as they arrive: a timestamp is kept only if it
/// lies at least `min_scene_length_us` past the previously kept one.
pub fn collect_scene_changes(lines: &Vec<Vec<u8>>, min_scene_length_us: u64) -> (r: Vec<u64>)
    ensures
        r@ == spec_collect_scene_changes(lines@, None, min_scene_length_us),
{
    let ghost full = spec_collect_scene_changes(lines@, None, min_scene_length_us);
    let mut out: Vec<u64> = Vec::new();
    let mut last: Option<u64> = None;
    proof {
        assert(lines@.skip(0) =~= lines@);
        assert(Seq::<u64>::empty() + full =~= full);
    }
    let mut i: usize = 0;
    while i < lines.len()
        invariant
            i <= lines@.len(),
            full == spec_collect_scene_changes(lines@, None, min_scene_length_us),
            out@ + spec_collect_scene_changes(lines@.skip(i as int), last, min_scene_length_us)
                == full,
        decreases lines@.len() - i,
    {
        let line = &lines[i];
        proof {
            assert(lines@.skip(i as int)[0] == lines@[i as int]);
            assert(lines@.skip(i as int).drop_first() =~= lines@.skip(i as int + 1));
        }
        match parse_pts_time_line(line.as_slice()) {
            Some(t) => {
                if scene_accept(last, t, min_scene_length_us) {
                    out.push(t);
                    last = Some(t);
                    proof {
                        assert(out@ + spec_collect_scene_changes(
                            lines@.skip(i as int + 1),
                            last,
                            min_scene_length_us,
                        ) =~= full);
                    }
                }
            },
            None => {},
        }
        i = i + 1;
    }
    proof {
        assert(lines@.skip(lines@.len() as int) =~= Seq::<Vec<u8>>::empty());
        assert(out@ + Seq::<u64>::empty() =~= out@);
    }
    out
}

} // verus!
