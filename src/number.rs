use vstd::prelude::*;

use crate::location::COORD_LIMIT;

verus! {

/// Largest whole number of blocks, exclusive, that a parsed coordinate may have.
pub const BLOCK_LIMIT: u64 = 1_000_000_000_000;


pub open spec fn is_digit(c: char) -> bool {
    48 <= (c as u32) <= 57
}

pub open spec fn digit_value(c: char) -> int {
    (c as u32) - 48
}

pub open spec fn all_digits(s: Seq<char>) -> bool {
    forall|i: int| 0 <= i < s.len() ==> is_digit(#[trigger] s[i])
}

/// The number that a string of decimal digits spells.
pub open spec fn digits_value(s: Seq<char>) -> int
    decreases s.len(),
{
    if s.len() == 0 {
        0
    } else {
        digits_value(s.drop_last()) * 10 + digit_value(s.last())
    }
}

/// The first three digits after the decimal point, in thousandths;
/// further digits are dropped.
pub open spec fn fraction_milli(f: Seq<char>) -> int {
    if f.len() >= 3 {
        digits_value(f.take(3))
    } else if f.len() == 2 {
        digits_value(f) * 10
    } else if f.len() == 1 {
        digits_value(f) * 100
    } else {
        0
    }
}

/// `k` is the position of the first decimal point of `s`.
pub open spec fn first_dot(s: Seq<char>, k: int) -> bool {
    &&& 0 <= k < s.len()
    &&& s[k] == '.'
    &&& forall|j: int| 0 <= j < k ==> s[j] != '.'
}

/// The digits before the decimal point (all of `s` when there is none).
pub open spec fn whole_part(s: Seq<char>) -> Seq<char> {
    if exists|k: int| first_dot(s, k) {
        s.take(choose|k: int| first_dot(s, k))
    } else {
        s
    }
}

/// The digits after the decimal point (none when there is no point).
pub open spec fn fraction_part(s: Seq<char>) -> Seq<char> {
    if exists|k: int| first_dot(s, k) {
        s.skip((choose|k: int| first_dot(s, k)) + 1)
    } else {
        seq![]
    }
}

/// The value, in thousandths, of an unsigned decimal numeral such as `246.50`,
/// `7`, `.5` or `3.`; `None` for anything else or for a whole part of
/// `BLOCK_LIMIT` or more.
pub open spec fn unsigned_milli(s: Seq<char>) -> Option<int> {
    let w = whole_part(s);
    let f = fraction_part(s);
    if all_digits(w) && all_digits(f) && w.len() + f.len() > 0 && digits_value(w)
        < BLOCK_LIMIT {
        Some(digits_value(w) * 1000 + fraction_milli(f))
    } else {
        None
    }
}

/// The value, in thousandths, of a decimal numeral with an optional leading
/// `-` or `+`.
pub open spec fn decimal_milli(s: Seq<char>) -> Option<int> {
    if s.len() > 0 && (s[0] == '-' || s[0] == '+') {
        match unsigned_milli(s.skip(1)) {
            Some(v) => Some(if s[0] == '-' { -v } else { v }),
            None => None,
        }
    } else {
        unsigned_milli(s)
    }
}

fn digit_of(c: char) -> (r: Option<u64>)
    ensures
        is_digit(c) ==> r == Some(digit_value(c) as u64),
        !is_digit(c) ==> r is None,
{
    let u = c as u32;
    if 48 <= u && u <= 57 {
        Some((u - 48) as u64)
    } else {
        None
    }
}

/// Reads a decimal numeral as a whole number of thousandths.
pub fn parse_milli(t: &Vec<char>) -> (r: Option<i64>)
    ensures
        r matches Some(v) ==> decimal_milli(t@) == Some(v as int),
        r is None ==> decimal_milli(t@) is None,
        r matches Some(v) ==> -COORD_LIMIT < v < COORD_LIMIT,
{
    let n = t.len();
    let mut start: usize = 0;
    let mut neg = false;
    if n > 0 && (t[0] == '-' || t[0] == '+') {
        neg = t[0] == '-';
        start = 1;
    }
    let ghost s = t@.skip(start as int);
    assert(start == 0 ==> s == t@);
    let mut k: usize = start;
    while k < n && t[k] != '.'
        invariant
            start <= k <= n,
            n == t@.len(),
            s == t@.skip(start as int),
            forall|j: int| 0 <= j < k - start ==> s[j] != '.',
        decreases n - k,
    {
        k = k + 1;
    }
    let ghost w = s.take(k - start);
    let ghost f = if k < n { s.skip(k - start + 1) } else { seq![] };
    proof {
        if k < n {
            assert(first_dot(s, k - start));
            let c = choose|c: int| first_dot(s, c);
            assert(first_dot(s, c));
            if c < k - start {
                assert(s[c] != '.');
            }
            if c > k - start {
                assert(s[k - start] != '.');
            }
            assert(c == k - start);
        } else {
            assert forall|c: int| !first_dot(s, c) by {
                if 0 <= c < s.len() {
                    assert(s[c] != '.');
                }
            }
            assert(w == s);
        }
        assert(whole_part(s) == w);
        assert(fraction_part(s) == f);
    }
    let mut whole: u64 = 0;
    let mut i: usize = start;
    while i < k
        invariant
            start <= i <= k <= n,
            n == t@.len(),
            s == t@.skip(start as int),
            w == s.take(k - start),
            whole_part(s) == w,
            fraction_part(s) == f,
            decimal_milli(t@) == (match unsigned_milli(s) {
                Some(v) => Some(if neg { -v } else { v }),
                None => None,
            }),
            all_digits(w.take(i - start)),
            digits_value(w.take(i - start)) >= BLOCK_LIMIT ==> whole == BLOCK_LIMIT,
            digits_value(w.take(i - start)) < BLOCK_LIMIT ==> whole == digits_value(
                w.take(i - start),
            ),
        decreases k - i,
    {
        let ghost pre = w.take(i - start);
        let ghost next = w.take(i - start + 1);
        assert(next.drop_last() == pre);
        assert(next.last() == t@[i as int]);
        match digit_of(t[i]) {
            None => {
                assert(!all_digits(w) && w[i - start] == t@[i as int]);
                assert(unsigned_milli(s) is None);
                return None;
            },
            Some(d) => {
                if whole < BLOCK_LIMIT {
                    let v = whole * 10 + d;
                    whole = if v >= BLOCK_LIMIT {
                        BLOCK_LIMIT
                    } else {
                        v
                    };
                }
                assert(all_digits(next)) by {
                    assert forall|j: int| 0 <= j < next.len() implies is_digit(#[trigger] next[j]) by {
                        if j < pre.len() {
                            assert(next[j] == pre[j]);
                        }
                    }
                }
            },
        }
        i = i + 1;
    }
    assert(w.take(k - start) == w);
    let fs: usize = if k < n {
        k + 1
    } else {
        n
    };
    assert(f == t@.subrange(fs as int, n as int));
    let mut frac: u64 = 0;
    let mut cnt: usize = 0;
    let mut j: usize = fs;
    while j < n
        invariant
            fs <= j <= n,
            n == t@.len(),
            f == t@.subrange(fs as int, n as int),
            all_digits(f.take(j - fs)),
            whole_part(s) == w,
            fraction_part(s) == f,
            decimal_milli(t@) == (match unsigned_milli(s) {
                Some(v) => Some(if neg { -v } else { v }),
                None => None,
            }),
            cnt as int == if j - fs < 3 { j - fs } else { 3 },
            frac == digits_value(f.take(cnt as int)),
            cnt <= 1 ==> frac < 10,
            cnt <= 2 ==> frac < 100,
            frac < 1000,
        decreases n - j,
    {
        let ghost pre = f.take(j - fs);
        let ghost next = f.take(j - fs + 1);
        assert(next.last() == t@[j as int]);
        match digit_of(t[j]) {
            None => {
                assert(!all_digits(f) && f[j - fs] == t@[j as int]);
                assert(unsigned_milli(s) is None);
                return None;
            },
            Some(d) => {
                if cnt < 3 {
                    assert(next.drop_last() == pre);
                    frac = frac * 10 + d;
                    cnt = cnt + 1;
                }
                assert(all_digits(next)) by {
                    assert forall|q: int| 0 <= q < next.len() implies is_digit(#[trigger] next[q]) by {
                        if q < pre.len() {
                            assert(next[q] == pre[q]);
                        }
                    }
                }
            },
        }
        j = j + 1;
    }
    assert(f.take(n - fs) == f);
    assert(cnt < 3 ==> f.take(cnt as int) == f);
    if k - start + (n - fs) == 0 || whole >= BLOCK_LIMIT {
        return None;
    }
    let fm: u64 = if cnt == 3 {
        frac
    } else if cnt == 2 {
        frac * 10
    } else if cnt == 1 {
        frac * 100
    } else {
        0
    };
    let v: i64 = (whole * 1000 + fm) as i64;
    assert(unsigned_milli(s) == Some(v as int));
    if neg {
        Some(-v)
    } else {
        Some(v)
    }
}

} // verus!
