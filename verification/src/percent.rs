//! Percentages as fixed-point numbers.
//!
//! A percentage is held in hundredths of a percent, so "85", "80.5" and
//! "100.00" become 8500, 8050 and 10000. Decimal digits past the second are
//! ignored; a threshold above the largest meaningful value saturates to
//! `PERCENT_CAP`, which compares above every valid used percentage. With both
//! sides on this scale the over-threshold comparison is exact.

use vstd::prelude::*;

verus! {

/// One hundred percent, in hundredths of a percent.
pub const PERCENT_MAX: u32 = 10000;

/// The saturation cap for thresholds: strictly above every valid used
/// percentage, so a saturated threshold never triggers.
pub const PERCENT_CAP: u32 = 10001;

/// Whether `c` is a decimal digit.
pub open spec fn is_digit_char(c: char) -> bool {
    48 <= (c as u32) <= 57
}

/// The numeric value of the decimal digit `c`.
pub open spec fn digit_value(c: char) -> int {
    (c as u32) - 48
}

/// Whether every character of `s` is a decimal digit.
pub open spec fn all_digits(s: Seq<char>) -> bool {
    forall|i: int| 0 <= i < s.len() ==> is_digit_char(s[i])
}

/// The value of `s` read as a decimal numeral.
pub open spec fn digits_to_int(s: Seq<char>) -> int
    decreases s.len(),
{
    if s.len() == 0 {
        0
    } else {
        digits_to_int(s.drop_last()) * 10 + digit_value(s.last())
    }
}

/// The position of the first occurrence of `c` in `s`, if any.
pub open spec fn find_char(s: Seq<char>, c: char) -> Option<int>
    decreases s.len(),
{
    if s.len() == 0 {
        None
    } else if s[0] == c {
        Some(0)
    } else {
        match find_char(s.drop_first(), c) {
            Some(i) => Some(i + 1),
            None => None,
        }
    }
}

/// The value of the fractional digits `fp`, in hundredths: digits past the
/// second contribute nothing.
pub open spec fn frac_hundredths(fp: Seq<char>) -> int {
    if fp.len() == 0 {
        0
    } else if fp.len() == 1 {
        digit_value(fp[0]) * 10
    } else {
        digit_value(fp[0]) * 10 + digit_value(fp[1])
    }
}

/// The value of `s` read as a non-negative decimal numeral with an optional
/// fractional part, in hundredths, truncated after the second fractional
/// digit. `None` when `s` is not such a numeral.
pub open spec fn percent_hundredths(s: Seq<char>) -> Option<int> {
    match find_char(s, '.') {
        Some(d) => {
            let ip = s.subrange(0, d);
            let fp = s.subrange(d + 1, s.len() as int);
            if all_digits(ip) && all_digits(fp) && ip.len() + fp.len() > 0 {
                Some(digits_to_int(ip) * 100 + frac_hundredths(fp))
            } else {
                None
            }
        },
        None => if all_digits(s) && s.len() > 0 {
            Some(digits_to_int(s) * 100)
        } else {
            None
        },
    }
}

/// `v` held below the threshold saturation cap.
pub open spec fn clamp_cap(v: int) -> int {
    if v > PERCENT_CAP as int {
        PERCENT_CAP as int
    } else {
        v
    }
}

/// `s` with one trailing percent sign removed, if it has one.
pub open spec fn strip_percent_sign(s: Seq<char>) -> Seq<char> {
    if s.len() > 0 && s.last() == '%' {
        s.drop_last()
    } else {
        s
    }
}

/// The used-percentage value of a record field such as "85%": one trailing
/// percent sign is stripped and the rest is read in hundredths of a percent.
/// `None` when the rest is not a decimal numeral or lies outside [0, 100].
pub open spec fn used_percent_value(s: Seq<char>) -> Option<int> {
    match percent_hundredths(strip_percent_sign(s)) {
        Some(v) => if v <= PERCENT_MAX as int {
            Some(v)
        } else {
            None
        },
        None => None,
    }
}

/// The threshold value of a configuration string such as "80.5", in
/// hundredths of a percent, saturated to `PERCENT_CAP`. `None` when the
/// string is not a non-negative decimal numeral.
pub open spec fn threshold_value(s: Seq<char>) -> Option<int> {
    match percent_hundredths(s) {
        Some(v) => Some(clamp_cap(v)),
        None => None,
    }
}

/// A used-percentage value lies in [0, 100] percent, on the hundredths
/// scale.
pub proof fn lemma_used_percent_range(s: Seq<char>)
    ensures
        used_percent_value(s) matches Some(v) ==> 0 <= v <= PERCENT_MAX as int,
{
    lemma_percent_nonneg(strip_percent_sign(s));
}

/// A decimal numeral is non-negative.
pub proof fn lemma_digits_nonneg(s: Seq<char>)
    requires
        all_digits(s),
    ensures
        digits_to_int(s) >= 0,
    decreases s.len(),
{
    if s.len() > 0 {
        assert(forall|i: int| 0 <= i < s.drop_last().len() ==> s.drop_last()[i] == s[i]);
        lemma_digits_nonneg(s.drop_last());
    }
}

/// Appending digits to a numeral never shrinks its value.
proof fn lemma_digits_prefix_le(s: Seq<char>, n: int)
    requires
        all_digits(s),
        0 <= n <= s.len(),
    ensures
        digits_to_int(s.take(n)) <= digits_to_int(s),
    decreases s.len() - n,
{
    if n < s.len() {
        lemma_digits_prefix_le(s, n + 1);
        let t = s.take(n + 1);
        assert(t.drop_last() =~= s.take(n));
        assert(digits_to_int(t) == digits_to_int(s.take(n)) * 10 + digit_value(t.last()));
        assert(all_digits(s.take(n))) by {
            assert(forall|i: int| 0 <= i < s.take(n).len() ==> s.take(n)[i] == s[i]);
        }
        lemma_digits_nonneg(s.take(n));
        assert(is_digit_char(t.last()));
        assert(digits_to_int(s.take(n)) <= digits_to_int(t));
    } else {
        assert(s.take(n) =~= s);
    }
}

/// A parsed percentage is non-negative.
pub proof fn lemma_percent_nonneg(s: Seq<char>)
    ensures
        percent_hundredths(s) matches Some(v) ==> v >= 0,
{
    match find_char(s, '.') {
        Some(d) => {
            lemma_find_char_first(s, '.');
            let ip = s.subrange(0, d);
            let fp = s.subrange(d + 1, s.len() as int);
            if all_digits(ip) && all_digits(fp) && ip.len() + fp.len() > 0 {
                lemma_digits_nonneg(ip);
                assert(frac_hundredths(fp) >= 0);
            }
        },
        None => {
            if all_digits(s) && s.len() > 0 {
                lemma_digits_nonneg(s);
            }
        },
    }
}

proof fn lemma_find_char_first(s: Seq<char>, c: char)
    ensures
        match find_char(s, c) {
            Some(i) => 0 <= i < s.len() && s[i] == c && (forall|j: int| 0 <= j < i ==> s[j] != c),
            None => forall|j: int| 0 <= j < s.len() ==> s[j] != c,
        },
    decreases s.len(),
{
    if s.len() == 0 {
    } else if s[0] == c {
    } else {
        lemma_find_char_first(s.drop_first(), c);
        assert(forall|j: int| 1 <= j < s.len() ==> s[j] == s.drop_first()[j - 1]);
    }
}

/// Decides whether `c` is a decimal digit.
pub fn is_digit(c: char) -> (r: bool)
    ensures
        r == is_digit_char(c),
{
    let u: u32 = c as u32;
    48 <= u && u <= 57
}

/// The numeric value of the decimal digit `c`.
pub fn digit_of(c: char) -> (r: u32)
    requires
        is_digit_char(c),
    ensures
        r == digit_value(c),
        r <= 9,
{
    (c as u32) - 48
}

fn find_dot(s: &str) -> (r: Option<usize>)
    ensures
        match r {
            Some(i) => find_char(s@, '.') == Some(i as int),
            None => find_char(s@, '.') is None,
        },
{
    proof {
        lemma_find_char_first(s@, '.');
    }
    let len: usize = s.unicode_len();
    let mut i: usize = 0;
    while i < len
        invariant
            len == s@.len(),
            i <= len,
            forall|j: int| 0 <= j < i ==> s@[j] != '.',
            match find_char(s@, '.') {
                Some(k) => 0 <= k < s@.len() && s@[k] == '.' && (forall|j: int|
                    0 <= j < k ==> s@[j] != '.'),
                None => forall|j: int| 0 <= j < s@.len() ==> s@[j] != '.',
            },
        decreases len - i,
    {
        if s.get_char(i) == '.' {
            assert(find_char(s@, '.') == Some(i as int)) by {
                match find_char(s@, '.') {
                    Some(k) => {
                        if k < i as int {
                            assert(false);
                        }
                        if k > i as int {
                            assert(s@[i as int] != '.');
                            assert(false);
                        }
                    },
                    None => {
                        assert(s@[i as int] != '.');
                        assert(false);
                    },
                }
            }
            return Some(i);
        }
        i += 1;
    }
    None
}

/// Reads the decimal digits of `s` in `[from, to)`, with the value saturated
/// to `PERCENT_CAP`. `None` as soon as a non-digit stands in the range.
fn digits_clamped(s: &str, from: usize, to: usize) -> (r: Option<u32>)
    requires
        from <= to <= s@.len(),
    ensures
        match r {
            Some(v) => all_digits(s@.subrange(from as int, to as int)) && v == clamp_cap(
                digits_to_int(s@.subrange(from as int, to as int)),
            ),
            None => !all_digits(s@.subrange(from as int, to as int)),
        },
        r matches Some(v) ==> v <= PERCENT_CAP,
{
    let ghost whole = s@.subrange(from as int, to as int);
    let mut acc: u32 = 0;
    let mut i: usize = from;
    assert(whole.take(0) =~= Seq::<char>::empty());
    while i < to
        invariant
            from <= i <= to <= s@.len(),
            whole == s@.subrange(from as int, to as int),
            all_digits(whole.take(i - from)),
            acc <= PERCENT_CAP,
            acc == clamp_cap(digits_to_int(whole.take(i - from))),
        decreases to - i,
    {
        let c = s.get_char(i);
        assert(whole[i - from] == s@[i as int]);
        if !is_digit(c) {
            assert(!all_digits(whole)) by {
                assert(!is_digit_char(whole[i - from]));
            }
            return None;
        }
        let d: u32 = digit_of(c);
        let ghost pre = whole.take(i - from);
        let ghost nxt = whole.take(i - from + 1);
        assert(nxt.drop_last() =~= pre);
        assert(nxt.last() == whole[i - from]);
        assert(digits_to_int(nxt) == digits_to_int(pre) * 10 + digit_value(whole[i - from]));
        proof {
            lemma_digits_nonneg(pre);
        }
        let t: u32 = acc * 10 + d;
        let nacc: u32 = if t > PERCENT_CAP {
            PERCENT_CAP
        } else {
            t
        };
        assert(nacc == clamp_cap(digits_to_int(nxt))) by {
            let x = digits_to_int(pre);
            if x > PERCENT_CAP as int {
                assert(acc == PERCENT_CAP);
                assert(x * 10 >= (PERCENT_CAP as int + 1) * 10);
            }
        }
        acc = nacc;
        i += 1;
    }
    assert(whole.take(to - from) =~= whole);
    Some(acc)
}

fn parse_percent_clamped(s: &str) -> (r: Option<u32>)
    ensures
        match percent_hundredths(s@) {
            Some(v) => r == Some(clamp_cap(v) as u32),
            None => r is None,
        },
        r matches Some(v) ==> v <= PERCENT_CAP,
{
    let len: usize = s.unicode_len();
    let dot = find_dot(s);
    proof {
        lemma_find_char_first(s@, '.');
    }
    let (ipend, fpstart): (usize, usize) = match dot {
        Some(d) => (d, d + 1),
        None => (len, len),
    };
    assert(ipend <= len && fpstart <= len);
    let ghost ip = s@.subrange(0, ipend as int);
    let ghost fp = s@.subrange(fpstart as int, len as int);
    if ipend == 0 && fpstart >= len {
        proof {
            assert(ip =~= Seq::<char>::empty());
            assert(fp =~= Seq::<char>::empty());
            if dot is None {
                assert(s@ =~= Seq::<char>::empty());
            }
            assert(percent_hundredths(s@) is None);
        }
        return None;
    }
    let ip_val: u32 = match digits_clamped(s, 0, ipend) {
        Some(v) => v,
        None => {
            proof {
                if dot is None {
                    assert(ip =~= s@);
                }
            }
            return None;
        },
    };
    let mut f: u32 = 0;
    if fpstart < len {
        let c0 = s.get_char(fpstart);
        assert(fp[0] == s@[fpstart as int]);
        if !is_digit(c0) {
            assert(!all_digits(fp));
            return None;
        }
        f = digit_of(c0) * 10;
        if fpstart + 1 < len {
            let c1 = s.get_char(fpstart + 1);
            assert(fp[1] == s@[fpstart + 1]);
            if !is_digit(c1) {
                assert(!all_digits(fp));
                return None;
            }
            f = f + digit_of(c1);
        }
    }
    let mut j: usize = fpstart;
    while j < len
        invariant
            fpstart <= j <= len <= s@.len(),
            fp == s@.subrange(fpstart as int, len as int),
            fpstart < len ==> find_char(s@, '.') == Some(fpstart - 1),
            forall|k: int| 0 <= k < j - fpstart ==> is_digit_char(fp[k]),
        decreases len - j,
    {
        let c = s.get_char(j);
        assert(fp[j - fpstart] == s@[j as int]);
        if !is_digit(c) {
            assert(!all_digits(fp));
            return None;
        }
        j += 1;
    }
    assert(all_digits(fp));
    assert(f == frac_hundredths(fp));
    let t: u32 = ip_val * 100 + f;
    let res: u32 = if t > PERCENT_CAP {
        PERCENT_CAP
    } else {
        t
    };
    proof {
        let x = digits_to_int(ip);
        lemma_digits_nonneg(ip);
        let v = x * 100 + frac_hundredths(fp);
        if x > PERCENT_CAP as int {
            assert(ip_val == PERCENT_CAP);
            assert(x * 100 >= (PERCENT_CAP as int + 1) * 100);
            assert(res == clamp_cap(v));
        } else {
            assert(ip_val == x);
            assert(res == clamp_cap(v));
        }
        if dot is None {
            assert(ip =~= s@);
            assert(fp =~= Seq::<char>::empty());
        }
        assert(percent_hundredths(s@) == Some(v));
    }
    Some(res)
}

/// Reads a threshold percentage such as "80.5" in hundredths of a percent,
/// saturated to `PERCENT_CAP`. `None` when the string is not a non-negative
/// decimal numeral.
pub fn parse_threshold(s: &str) -> (r: Option<u32>)
    ensures
        match threshold_value(s@) {
            Some(v) => r == Some(v as u32),
            None => r is None,
        },
{
    parse_percent_clamped(s)
}

/// Reads a used-percentage field such as "85%" in hundredths of a percent:
/// one trailing percent sign is stripped, and the value must lie in
/// [0, 100] percent.
pub fn parse_used_percent(s: &str) -> (r: Option<u32>)
    ensures
        match used_percent_value(s@) {
            Some(v) => r == Some(v as u32),
            None => r is None,
        },
        r matches Some(v) ==> v <= PERCENT_MAX,
{
    let len: usize = s.unicode_len();
    let stripped: &str = if len > 0 && s.get_char(len - 1) == '%' {
        let t = s.substring_char(0, len - 1);
        assert(t@ =~= strip_percent_sign(s@));
        t
    } else {
        assert(s@ == strip_percent_sign(s@));
        s
    };
    proof {
        lemma_percent_nonneg(stripped@);
    }
    match parse_percent_clamped(stripped) {
        Some(v) => {
            proof {
                let v0 = percent_hundredths(stripped@).unwrap();
                assert(0 <= clamp_cap(v0) <= PERCENT_CAP as int);
                assert(v == clamp_cap(v0));
            }
            if v <= PERCENT_MAX {
                assert(clamp_cap(percent_hundredths(stripped@).unwrap()) == percent_hundredths(
                    stripped@,
                ).unwrap());
                Some(v)
            } else {
                assert(v == PERCENT_CAP);
                assert(percent_hundredths(stripped@).unwrap() > PERCENT_MAX as int);
                None
            }
        },
        None => None,
    }
}

/// Reads a polling interval in whole seconds. `None` when the string is not
/// a decimal numeral or its value does not fit in a machine integer.
pub fn parse_interval_secs(s: &str) -> (r: Option<u64>)
    ensures
        match interval_value(s@) {
            Some(v) => r == Some(v as u64),
            None => r is None,
        },
{
    let len: usize = s.unicode_len();
    if len == 0 {
        return None;
    }
    let mut acc: u64 = 0;
    let mut i: usize = 0;
    assert(s@.take(0) =~= Seq::<char>::empty());
    while i < len
        invariant
            len == s@.len(),
            i <= len,
            all_digits(s@.take(i as int)),
            acc == digits_to_int(s@.take(i as int)),
        decreases len - i,
    {
        let c = s.get_char(i);
        if !is_digit(c) {
            assert(!all_digits(s@));
            return None;
        }
        let d: u32 = digit_of(c);
        let ghost pre = s@.take(i as int);
        let ghost nxt = s@.take(i + 1);
        assert(nxt.drop_last() =~= pre);
        assert(nxt.last() == s@[i as int]);
        assert(digits_to_int(nxt) == digits_to_int(pre) * 10 + digit_value(s@[i as int]));
        let m: u64 = match acc.checked_mul(10) {
            Some(m) => m,
            None => {
                proof {
                    lemma_digits_nonneg(pre);
                    if all_digits(s@) {
                        lemma_digits_prefix_le(s@, i + 1);
                    }
                }
                return None;
            },
        };
        let t: u64 = match m.checked_add(d as u64) {
            Some(t) => t,
            None => {
                proof {
                    lemma_digits_nonneg(pre);
                    if all_digits(s@) {
                        lemma_digits_prefix_le(s@, i + 1);
                    }
                }
                return None;
            },
        };
        acc = t;
        i += 1;
    }
    assert(s@.take(len as int) =~= s@);
    Some(acc)
}

/// The value of `s` read as a decimal numeral, when it is one and fits in a
/// machine integer. The polling and warning intervals are read this way.
pub open spec fn interval_value(s: Seq<char>) -> Option<int> {
    if s.len() > 0 && all_digits(s) && digits_to_int(s) <= u64::MAX as int {
        Some(digits_to_int(s))
    } else {
        None
    }
}

} // verus!
