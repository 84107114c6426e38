//! Counting fully-contained section-range pairs: each line holds two
//! dash-separated ranges joined by a comma, and a pair counts when one
//! range lies entirely inside the other.
use vstd::prelude::*;

use crate::parse::parse_u32_opt;
use crate::parse::u32_numeral_value;

verus! {

/// An inclusive section range.
#[derive(Clone, Copy, Debug)]
pub struct Pair {
    pub x: u32,
    pub y: u32,
}

/// The one way a line can be malformed: a missing separator or a field
/// that is not a number.
#[derive(Debug, PartialEq, Eq, Structural, Clone, Copy)]
pub struct ParsePairError;

/// The first position of `c` at or after `i`, or a negative value when
/// there is none.
pub open spec fn find_from(s: Seq<char>, c: char, i: int) -> int
    decreases s.len() - i,
{
    if i < 0 || i >= s.len() {
        -1
    } else if s[i] == c {
        i
    } else {
        find_from(s, c, i + 1)
    }
}

/// What a dash-separated range field denotes, if anything.
pub open spec fn pair_of(s: Seq<char>) -> Option<(int, int)> {
    let i = find_from(s, '-', 0);
    if i < 0 {
        None
    } else {
        match (u32_numeral_value(s.take(i)), u32_numeral_value(s.skip(i + 1))) {
            (Some(a), Some(b)) => Some((a, b)),
            _ => None,
        }
    }
}

/// What a whole line denotes: its two ranges, if both parse.
pub open spec fn line_pairs(s: Seq<char>) -> Option<((int, int), (int, int))> {
    let j = find_from(s, ',', 0);
    if j < 0 {
        None
    } else {
        match (pair_of(s.take(j)), pair_of(s.skip(j + 1))) {
            (Some(a), Some(b)) => Some((a, b)),
            _ => None,
        }
    }
}

/// One range contains the other, either way round.
pub open spec fn fully_overlapping(a: (int, int), b: (int, int)) -> bool {
    (a.0 >= b.0 && a.1 <= b.1) || (b.0 >= a.0 && b.1 <= a.1)
}

/// How many of the first `k` lines hold a fully-contained pair.
pub open spec fn overlap_count(lines: Seq<String>, k: int) -> int
    decreases k,
{
    if k <= 0 {
        0
    } else {
        overlap_count(lines, k - 1) + (match line_pairs(lines[k - 1]@) {
            Some((a, b)) => if fully_overlapping(a, b) {
                1int
            } else {
                0int
            },
            None => 0int,
        })
    }
}

/// Every line parses.
pub open spec fn all_lines_parse(lines: Seq<String>) -> bool {
    forall|i: int| 0 <= i < lines.len() ==> line_pairs((#[trigger] lines[i])@) is Some
}

/// The first position of `c`, scanning from `from`.
fn find_char(s: &str, c: char, from: usize) -> (r: Option<usize>)
    requires
        from as int <= s@.len(),
    ensures
        r is None ==> find_from(s@, c, from as int) < 0,
        r matches Some(i) ==> {
            &&& i as int == find_from(s@, c, from as int)
            &&& from <= i < s@.len()
            &&& s@[i as int] == c
        },
{
    let n = s.unicode_len();
    let mut i = from;
    while i < n
        invariant
            from <= i <= n,
            n == s@.len(),
            find_from(s@, c, from as int) == find_from(s@, c, i as int),
        decreases n - i,
    {
        if s.get_char(i) == c {
            return Some(i);
        }
        i = i + 1;
    }
    None
}

impl Pair {
    /// Reads a `low-high` range field.
    pub fn from_str(s: &str) -> (r: Result<Pair, ParsePairError>)
        ensures
            r is Ok <==> pair_of(s@) is Some,
            r matches Ok(p) ==> pair_of(s@) == Some((p.x as int, p.y as int)),
            r matches Err(e) ==> e == ParsePairError,
    {
        let n = s.unicode_len();
        match find_char(s, '-', 0) {
            None => Err(ParsePairError),
            Some(i) => {
                let left = s.substring_char(0, i);
                let right = s.substring_char(i + 1, n);
                proof {
                    assert(left@ =~= s@.take(i as int));
                    assert(right@ =~= s@.skip(i + 1));
                }
                match parse_u32_opt(left) {
                    None => Err(ParsePairError),
                    Some(x) => match parse_u32_opt(right) {
                        None => Err(ParsePairError),
                        Some(y) => Ok(Pair { x, y }),
                    },
                }
            },
        }
    }
}

/// Counts the lines whose two ranges fully contain one another; the first
/// malformed line aborts the count instead.
pub fn calc_overlapping_pairs(lines: &Vec<String>) -> (r: Result<u32, ParsePairError>)
    requires
        lines@.len() <= u32::MAX,
    ensures
        r is Ok <==> all_lines_parse(lines@),
        r matches Ok(n) ==> n as int == overlap_count(lines@, lines@.len() as int),
        r matches Err(e) ==> e == ParsePairError,
{
    let mut num_of_overlapping: u32 = 0;
    let mut i: usize = 0;
    while i < lines.len()
        invariant
            lines@.len() <= u32::MAX,
            i <= lines@.len(),
            forall|j: int| 0 <= j < i ==> line_pairs((#[trigger] lines@[j])@) is Some,
            num_of_overlapping as int == overlap_count(lines@, i as int),
            num_of_overlapping <= i,
        decreases lines@.len() - i,
    {
        let line = lines[i].as_str();
        let n = line.unicode_len();
        let comma = match find_char(line, ',', 0) {
            None => {
                return Err(ParsePairError);
            },
            Some(j) => j,
        };
        let left_str = line.substring_char(0, comma);
        let right_str = line.substring_char(comma + 1, n);
        proof {
            assert(left_str@ =~= line@.take(comma as int));
            assert(right_str@ =~= line@.skip(comma + 1));
        }
        let left_pair = match Pair::from_str(left_str) {
            Err(e) => {
                return Err(e);
            },
            Ok(p) => p,
        };
        let right_pair = match Pair::from_str(right_str) {
            Err(e) => {
                return Err(e);
            },
            Ok(p) => p,
        };
        if left_pair.x >= right_pair.x && left_pair.y <= right_pair.y {
            num_of_overlapping = num_of_overlapping + 1;
        } else if right_pair.x >= left_pair.x && right_pair.y <= left_pair.y {
            num_of_overlapping = num_of_overlapping + 1;
        }
        i = i + 1;
    }
    Ok(num_of_overlapping)
}

} // verus!
