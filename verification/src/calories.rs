//! Finds the largest block sum in a list of numbers separated by
//! non-numeric lines. A line that does not parse stands for a block
//! break; the running block is compared against the best at each break,
//! and the final block is left out of the comparison.
use vstd::prelude::*;

use crate::parse::i32_numeral_value;
use crate::parse::parse_i32_or;

verus! {

/// The number a line stands for: its parsed value, or the break marker.
pub open spec fn line_value(s: Seq<char>) -> int {
    match i32_numeral_value(s) {
        Some(v) => v,
        None => -1,
    }
}

/// The running sum and the best block sum after the first `k` lines: the
/// first line seeds the running sum, each break marker closes a block.
pub open spec fn fold_state(lines: Seq<String>, k: int) -> (int, int)
    decreases k,
{
    if k <= 1 {
        (line_value(lines[0]@), 0)
    } else {
        let prev = fold_state(lines, k - 1);
        let x = line_value(lines[k - 1]@);
        if x == -1 {
            (0, if prev.0 > prev.1 {
                prev.0
            } else {
                prev.1
            })
        } else {
            (prev.0 + x, prev.1)
        }
    }
}

/// Every running sum along the way fits in `i32`.
pub open spec fn fold_acc_ok(lines: Seq<String>) -> bool {
    forall|k: int|
        1 <= k <= lines.len() ==> i32::MIN <= (#[trigger] fold_state(lines, k)).0 <= i32::MAX
}

/// The best block sum is never negative and never leaves `i32`.
proof fn lemma_fold_best_bounds(lines: Seq<String>, k: int)
    requires
        fold_acc_ok(lines),
        1 <= k <= lines.len(),
    ensures
        0 <= fold_state(lines, k).1 <= i32::MAX,
    decreases k,
{
    if k > 1 {
        lemma_fold_best_bounds(lines, k - 1);
    }
}

/// The largest block sum, exactly as the fold above computes it.
pub fn biggest_sum(lines: &Vec<String>) -> (r: i32)
    requires
        lines@.len() >= 1,
        fold_acc_ok(lines@),
    ensures
        r == fold_state(lines@, lines@.len() as int).1,
{
    let mut acc = parse_i32_or(lines[0].as_str(), -1);
    let mut best: i32 = 0;
    let mut i: usize = 1;
    while i < lines.len()
        invariant
            lines@.len() >= 1,
            fold_acc_ok(lines@),
            1 <= i <= lines@.len(),
            acc == fold_state(lines@, i as int).0,
            best == fold_state(lines@, i as int).1,
            0 <= best,
        decreases lines@.len() - i,
    {
        proof {
            lemma_fold_best_bounds(lines@, i as int);
        }
        let x = parse_i32_or(lines[i].as_str(), -1);
        if x == -1 {
            if acc > best {
                best = acc;
            }
            acc = 0;
        } else {
            proof {
                assert(fold_state(lines@, i as int + 1).0 == acc + x);
            }
            acc = acc + x;
        }
        i = i + 1;
    }
    best
}

} // verus!
