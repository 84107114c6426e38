//! Verified decimal parsing, matching the standard library's integer
//! parsing: an optional sign, then one or more digits; anything else, or
//! a value out of range, is rejected.
use vstd::prelude::*;

verus! {

/// A decimal digit.
pub open spec fn is_digit(c: char) -> bool {
    '0' <= c && c <= '9'
}

/// The numeric value of one digit.
pub open spec fn digit_val(c: char) -> int {
    c as int - 48
}

/// Every character is a digit.
pub open spec fn all_digits(s: Seq<char>) -> bool {
    forall|i: int| 0 <= i < s.len() ==> is_digit(#[trigger] s[i])
}

/// The number a digit string denotes, most significant digit first.
pub open spec fn digits_val(s: Seq<char>) -> int
    decreases s.len(),
{
    if s.len() == 0 {
        0
    } else {
        digits_val(s.drop_last()) * 10 + digit_val(s.last())
    }
}

/// A digit string never denotes a negative number.
pub proof fn lemma_digits_val_nonneg(s: Seq<char>)
    requires
        all_digits(s),
    ensures
        digits_val(s) >= 0,
    decreases s.len(),
{
    if s.len() > 0 {
        assert(all_digits(s.drop_last())) by {
            assert(forall|i: int| 0 <= i < s.len() - 1 ==> s.drop_last()[i] == s[i]);
        }
        lemma_digits_val_nonneg(s.drop_last());
    }
}

/// What `str::parse::<u32>` accepts: an optional plus sign, then one or
/// more digits whose value fits, and the value they denote.
pub open spec fn u32_numeral_value(s: Seq<char>) -> Option<int> {
    let digits = if s.len() > 0 && s[0] == '+' {
        s.drop_first()
    } else {
        s
    };
    if digits.len() >= 1 && all_digits(digits) && digits_val(digits) <= u32::MAX {
        Some(digits_val(digits))
    } else {
        None
    }
}

/// What `str::parse::<i32>` accepts: an optional sign, then one or more
/// digits, with the signed value in range, and the value it denotes.
pub open spec fn i32_numeral_value(s: Seq<char>) -> Option<int> {
    let negative = s.len() > 0 && s[0] == '-';
    let digits = if s.len() > 0 && (s[0] == '+' || s[0] == '-') {
        s.drop_first()
    } else {
        s
    };
    if digits.len() >= 1 && all_digits(digits) {
        let v = if negative {
            -digits_val(digits)
        } else {
            digits_val(digits)
        };
        if i32::MIN <= v <= i32::MAX {
            Some(v)
        } else {
            None
        }
    } else {
        None
    }
}

/// Scans `s` from position `from` on: whether every remaining character
/// is a digit and, if so, whether their value stays within `bound` — and
/// the value itself when it does.
fn scan_digits(s: &str, from: usize, bound: u64) -> (r: (bool, bool, u64))
    requires
        from as int <= s@.len(),
        bound <= 0x1000_0000_0000_0000,
    ensures
        r.0 <==> all_digits(s@.skip(from as int)),
        r.0 ==> (r.1 <==> digits_val(s@.skip(from as int)) <= bound),
        r.0 && r.1 ==> r.2 == digits_val(s@.skip(from as int)),
{
    let ghost sub = s@.skip(from as int);
    let n = s.unicode_len();
    let mut i = from;
    let mut acc: u64 = 0;
    let mut big = false;
    while i < n
        invariant
            from <= i <= n,
            n == s@.len(),
            sub == s@.skip(from as int),
            bound <= 0x1000_0000_0000_0000,
            all_digits(sub.take(i - from)),
            !big ==> acc == digits_val(sub.take(i - from)) && acc <= bound,
            big ==> digits_val(sub.take(i - from)) > bound,
        decreases n - i,
    {
        let c = s.get_char(i);
        proof {
            assert(sub[i - from] == s@[i as int]);
            assert(sub.take(i - from + 1).drop_last() =~= sub.take(i - from));
            assert(sub.take(i - from + 1).last() == sub[i - from]);
        }
        if c < '0' || c > '9' {
            proof {
                assert(!is_digit(sub[i - from]));
            }
            return (false, false, 0);
        }
        proof {
            assert(all_digits(sub.take(i - from + 1))) by {
                assert(forall|j: int|
                    0 <= j < i - from ==> sub.take(i - from + 1)[j] == #[trigger] sub.take(
                        i - from,
                    )[j]);
            }
            lemma_digits_val_nonneg(sub.take(i - from));
        }
        let d: u32 = (c as u32) - 48;
        if big {
        } else {
            let acc2 = acc * 10 + (d as u64);
            if acc2 > bound {
                big = true;
            } else {
                acc = acc2;
            }
        }
        i = i + 1;
    }
    proof {
        assert(sub.take(n - from) =~= sub);
    }
    (true, !big, acc)
}

/// Parses as `str::parse::<u32>` does: the denoted value, or nothing.
pub fn parse_u32_opt(s: &str) -> (r: Option<u32>)
    ensures
        r is Some <==> u32_numeral_value(s@) is Some,
        r matches Some(v) ==> u32_numeral_value(s@) == Some(v as int),
{
    let n = s.unicode_len();
    let from: usize = if n > 0 && s.get_char(0) == '+' {
        1
    } else {
        0
    };
    proof {
        if from == 1 {
            assert(s@.skip(1) =~= s@.drop_first());
        } else {
            assert(s@.skip(0) =~= s@);
        }
    }
    if n == from {
        return None;
    }
    let scanned = scan_digits(s, from, 0xffff_ffff);
    if scanned.0 && scanned.1 {
        Some(scanned.2 as u32)
    } else {
        None
    }
}

/// Parses as `str::parse::<i32>` does, yielding `dflt` where the parse
/// would fail.
pub fn parse_i32_or(s: &str, dflt: i32) -> (r: i32)
    ensures
        r as int == (match i32_numeral_value(s@) {
            Some(v) => v,
            None => dflt as int,
        }),
{
    let n = s.unicode_len();
    let mut neg = false;
    let mut from: usize = 0;
    if n > 0 {
        let c = s.get_char(0);
        if c == '-' {
            neg = true;
            from = 1;
        } else if c == '+' {
            from = 1;
        }
    }
    proof {
        if from == 1 {
            assert(s@.skip(1) =~= s@.drop_first());
        } else {
            assert(s@.skip(0) =~= s@);
        }
    }
    if n == from {
        return dflt;
    }
    let scanned = scan_digits(s, from, 0x8000_0000);
    if !scanned.0 || !scanned.1 {
        proof {
            if scanned.0 {
                lemma_digits_val_nonneg(s@.skip(from as int));
            }
        }
        return dflt;
    }
    if neg {
        (-(scanned.2 as i64)) as i32
    } else {
        if scanned.2 <= 0x7fff_ffff {
            scanned.2 as i32
        } else {
            dflt
        }
    }
}

} // verus!
