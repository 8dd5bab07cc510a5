use vstd::prelude::*;

verus! {

/// Nanoseconds in one second.
pub const NANOS_PER_SEC: u64 = 1_000_000_000;

pub open spec fn is_digit(c: char) -> bool {
    '0' <= c && c <= '9'
}

pub open spec fn all_digits(s: Seq<char>) -> bool {
    forall|i: int| 0 <= i < s.len() ==> is_digit(#[trigger] s[i])
}

/// The value of a string of decimal digits.
pub open spec fn digits_value(s: Seq<char>) -> int
    decreases s.len(),
{
    if s.len() == 0 {
        0
    } else {
        digits_value(s.drop_last()) * 10 + (s.last() as int - '0' as int)
    }
}

/// The value of `s` as an unsigned decimal number (digits after an
/// optional `+`), where it is one and is at most `max`.
pub open spec fn unsigned_value(s: Seq<char>, max: int) -> Option<int> {
    let body = if s.len() > 0 && s[0] == '+' {
        s.drop_first()
    } else {
        s
    };
    if body.len() > 0 && all_digits(body) && digits_value(body) <= max {
        Some(digits_value(body))
    } else {
        None
    }
}

/// The first nine digits of a fraction, padded with zeros: the fraction
/// in nanoseconds.
pub open spec fn nano_digits(f: Seq<char>) -> Seq<char> {
    Seq::new(9, |i: int| if i < f.len() { f[i] } else { '0' })
}

/// A time in decimal seconds (`12`, `12.` or `12.345`), in whole
/// nanoseconds: digits past the ninth after the point are dropped.
pub open spec fn seconds_ns(s: Seq<char>) -> Option<int> {
    let v = if s.len() > 0 && all_digits(s) {
        Some(digits_value(s) * NANOS_PER_SEC)
    } else if exists|d: int|
        0 < d < s.len() && s[d] == '.' && all_digits(s.take(d)) && all_digits(s.skip(d + 1)) {
        let d = choose|d: int|
            0 < d < s.len() && s[d] == '.' && all_digits(s.take(d)) && all_digits(s.skip(d + 1));
        Some(digits_value(s.take(d)) * NANOS_PER_SEC + digits_value(nano_digits(s.skip(d + 1))))
    } else {
        None
    };
    match v {
        Some(n) => if n <= u64::MAX {
            Some(n)
        } else {
            None
        },
        None => None,
    }
}

proof fn lemma_digits_value_nonneg(s: Seq<char>)
    requires
        all_digits(s),
    ensures
        digits_value(s) >= 0,
    decreases s.len(),
{
    if s.len() > 0 {
        lemma_digits_value_nonneg(s.drop_last());
    }
}

/// A longer run of digits is worth at least as much as its prefix.
proof fn lemma_digits_value_prefix(s: Seq<char>, k: int)
    requires
        all_digits(s),
        0 <= k <= s.len(),
    ensures
        digits_value(s.take(k)) <= digits_value(s),
    decreases s.len() - k,
{
    if k < s.len() {
        lemma_digits_value_prefix(s, k + 1);
        assert(s.take(k + 1).drop_last() =~= s.take(k));
        lemma_digits_value_nonneg(s.take(k));
    } else {
        assert(s.take(k) =~= s);
    }
}

/// Reads the digits of `s` from position `from` to `to` as a number, where
/// they are all digits and their value is at most `max`.
fn digits_in(s: &str, from: usize, to: usize, max: u64) -> (r: Option<u64>)
    requires
        from <= to <= s@.len(),
    ensures
        ({
            let d = s@.subrange(from as int, to as int);
            match r {
                Some(v) => all_digits(d) && v == digits_value(d) && v <= max,
                None => !all_digits(d) || digits_value(d) > max,
            }
        }),
{
    let ghost d = s@.subrange(from as int, to as int);
    let mut acc: u64 = 0;
    let mut k: usize = from;
    while k < to
        invariant
            from <= k <= to <= s@.len(),
            d == s@.subrange(from as int, to as int),
            all_digits(d.take(k - from)),
            acc == digits_value(d.take(k - from)),
            acc <= max,
        decreases to - k,
    {
        let c = s.get_char(k);
        proof {
            assert(d.take(k - from + 1).drop_last() =~= d.take(k - from));
            assert(d[k - from] == c);
        }
        if c < '0' || c > '9' {
            assert(!is_digit(d[k - from]));
            return None;
        }
        let dv: u64 = (c as u32 - '0' as u32) as u64;
        if dv > max || acc > (max - dv) / 10 {
            proof {
                assert(acc * 10 + dv > max) by (nonlinear_arith)
                    requires
                        dv > max || acc > (max - dv) / 10,
                        acc >= 0,
                ;
                if all_digits(d) {
                    lemma_digits_value_prefix(d, k - from + 1);
                }
            }
            return None;
        }
        assert(acc * 10 + dv <= max) by (nonlinear_arith)
            requires
                acc <= (max - dv) / 10,
                dv <= max,
        ;
        acc = acc * 10 + dv;
        k = k + 1;
    }
    assert(d.take(to - from) =~= d);
    Some(acc)
}

/// Parses `s` as an unsigned decimal number no greater than `max`.
pub fn parse_unsigned(s: &str, max: u64) -> (r: Option<u64>)
    ensures
        match r {
            Some(v) => unsigned_value(s@, max as int) == Some(v as int),
            None => unsigned_value(s@, max as int) is None,
        },
{
    let n = s.unicode_len();
    let from: usize = if n > 0 && s.get_char(0) == '+' {
        1
    } else {
        0
    };
    assert(s@.subrange(from as int, n as int) =~= if s@.len() > 0 && s@[0] == '+' {
        s@.drop_first()
    } else {
        s@
    });
    if from == n {
        return None;
    }
    digits_in(s, from, n, max)
}


/// Whole seconds whose nanoseconds still fit in a `u64`.
pub const MAX_SECS: u64 = 18_446_744_073;

pub open spec fn pow10(k: nat) -> int
    decreases k,
{
    if k == 0 {
        1
    } else {
        10 * pow10((k - 1) as nat)
    }
}

proof fn lemma_pow10_le_nine(k: nat)
    requires
        k <= 9,
    ensures
        1 <= pow10(k) <= NANOS_PER_SEC,
        k == 9 ==> pow10(k) == NANOS_PER_SEC,
    decreases 9 - k,
{
    reveal_with_fuel(pow10, 10);
    if k < 9 {
        lemma_pow10_le_nine(k + 1);
    }
}

/// Parses a time in decimal seconds into whole nanoseconds.
pub fn parse_seconds_ns(s: &str) -> (r: Option<u64>)
    ensures
        match r {
            Some(v) => seconds_ns(s@) == Some(v as int),
            None => seconds_ns(s@) is None,
        },
{
    let n = s.unicode_len();
    let mut d: usize = 0;
    while d < n
        invariant
            d <= n == s@.len(),
            all_digits(s@.take(d as int)),
        ensures
            d <= n == s@.len(),
            all_digits(s@.take(d as int)),
            d < n ==> !is_digit(s@[d as int]),
        decreases n - d,
    {
        let c = s.get_char(d);
        if c < '0' || c > '9' {
            break;
        }
        assert(s@.take(d as int + 1) =~= s@.take(d as int).push(c));
        d = d + 1;
    }
    if d == n {
        assert(s@.take(n as int) =~= s@);
        assert(s@.subrange(0, n as int) =~= s@);
        if n == 0 {
            return None;
        }
        return match digits_in(s, 0, n, MAX_SECS) {
            Some(v) => {
                assert(v * NANOS_PER_SEC <= u64::MAX) by (nonlinear_arith)
                    requires
                        v <= MAX_SECS,
                ;
                Some(v * NANOS_PER_SEC)
            },
            None => {
                assert(digits_value(s@) * NANOS_PER_SEC > u64::MAX) by (nonlinear_arith)
                    requires
                        digits_value(s@) > MAX_SECS,
                ;
                None
            },
        };
    }
    let c = s.get_char(d);
    assert(!is_digit(s@[d as int]));
    // any point that splits `s` into digits, a point and digits is at `d`
    assert forall|e: int|
        0 < e < s@.len() && s@[e] == '.' && all_digits(s@.take(e)) && all_digits(
            s@.skip(e + 1),
        ) implies e == d by {
        if e < d {
            assert(s@.take(d as int)[e] == s@[e]);
        } else if e > d {
            assert(s@.take(e)[d as int] == s@[d as int]);
        }
    }
    assert(!all_digits(s@));
    if d == 0 || c != '.' {
        assert forall|e: int|
            !(0 < e < s@.len() && s@[e] == '.' && all_digits(s@.take(e)) && all_digits(
                s@.skip(e + 1),
            )) by {
            if 0 < e < s@.len() && s@[e] == '.' && all_digits(s@.take(e)) && all_digits(
                s@.skip(e + 1),
            ) {
                assert(e == d);
            }
        }
        return None;
    }
    let ghost f = s@.skip(d as int + 1);
    let mut k: usize = d + 1;
    while k < n
        invariant
            d + 1 <= k <= n == s@.len(),
            f == s@.skip(d as int + 1),
            forall|i: int| 0 <= i < k - d - 1 ==> is_digit(#[trigger] f[i]),
            !all_digits(s@),
            forall|e: int|
                0 < e < s@.len() && s@[e] == '.' && all_digits(s@.take(e)) && all_digits(
                    s@.skip(e + 1),
                ) ==> e == d,
        decreases n - k,
    {
        let c = s.get_char(k);
        if c < '0' || c > '9' {
            assert(f[k - d - 1] == c);
            assert(!all_digits(f));
            assert(!exists|e: int|
                0 < e < s@.len() && s@[e] == '.' && all_digits(s@.take(e)) && all_digits(
                    s@.skip(e + 1),
                ));
            return None;
        }
        k = k + 1;
    }
    assert(all_digits(f));
    assert(seconds_ns(s@) == {
        let v = digits_value(s@.take(d as int)) * NANOS_PER_SEC + digits_value(nano_digits(f));
        if v <= u64::MAX {
            Some(v)
        } else {
            None
        }
    });
    let ghost nd = nano_digits(f);
    let mut frac: u64 = 0;
    let mut p: u64 = 1;
    let mut i: usize = 0;
    while i < 9
        invariant
            i <= 9,
            d < n == s@.len(),
            f == s@.skip(d as int + 1),
            nd == nano_digits(f),
            all_digits(f),
            p == pow10(i as nat),
            frac == digits_value(nd.take(i as int)),
            0 <= frac < p,
        decreases 9 - i,
    {
        proof {
            lemma_pow10_le_nine(i as nat);
            lemma_pow10_le_nine(i as nat + 1);
        }
        let c = if i < n - d - 1 {
            s.get_char(d + 1 + i)
        } else {
            '0'
        };
        assert(nd[i as int] == c);
        assert(nd.take(i as int + 1).drop_last() =~= nd.take(i as int));
        let dv: u64 = (c as u32 - '0' as u32) as u64;
        assert(frac * 10 + dv < p * 10) by (nonlinear_arith)
            requires
                frac < p,
                dv <= 9,
        ;
        frac = frac * 10 + dv;
        p = p * 10;
        i = i + 1;
    }
    proof {
        lemma_pow10_le_nine(9);
        assert(nd.take(9) =~= nd);
    }
    assert(s@.subrange(0, d as int) =~= s@.take(d as int));
    match digits_in(s, 0, d, MAX_SECS) {
        Some(v) => {
            assert(v * NANOS_PER_SEC <= u64::MAX) by (nonlinear_arith)
                requires
                    v <= MAX_SECS,
            ;
            let whole = v * NANOS_PER_SEC;
            if whole > u64::MAX - frac {
                None
            } else {
                Some(whole + frac)
            }
        },
        None => {
            assert(digits_value(s@.take(d as int)) * NANOS_PER_SEC > u64::MAX) by (nonlinear_arith)
                requires
                    digits_value(s@.take(d as int)) > MAX_SECS,
            ;
            None
        },
    }
}

} // verus!
