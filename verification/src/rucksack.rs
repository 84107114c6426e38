//! Rucksack priorities: each line splits into two halves; the first item
//! of the first half that also appears in the second half is the shared
//! item, and its priority (1–26 for lower-case letters, 27–52 for
//! upper-case ones) is summed over all lines.
use vstd::prelude::*;

verus! {

/// The character appears in the second half of the line.
pub open spec fn second_half_contains(s: Seq<char>, c: char) -> bool {
    exists|j: int| s.len() / 2 <= j < s.len() && s[j] == c
}

/// The first position in the first half whose character also appears in
/// the second half, scanning from `i`; negative when there is none.
pub open spec fn shared_idx_from(s: Seq<char>, i: int) -> int
    decreases s.len() / 2 - i,
{
    if i < 0 || i >= s.len() / 2 {
        -1
    } else if second_half_contains(s, s[i]) {
        i
    } else {
        shared_idx_from(s, i + 1)
    }
}

/// The shared item of a line.
pub open spec fn shared_item(s: Seq<char>) -> char {
    s[shared_idx_from(s, 0)]
}

/// An ASCII letter.
pub open spec fn is_letter(c: char) -> bool {
    ('a' <= c && c <= 'z') || ('A' <= c && c <= 'Z')
}

/// The priority of a shared item: position in the alphabet for lower
/// case, position plus twenty-six for upper case.
pub open spec fn priority(c: char) -> int {
    if 'a' <= c && c <= 'z' {
        c as int - 97 + 1
    } else {
        c as int + 32 - 97 + 27
    }
}

/// A line has a shared item, and it is a letter.
pub open spec fn line_ok(s: Seq<char>) -> bool {
    &&& shared_idx_from(s, 0) >= 0
    &&& is_letter(shared_item(s))
}

/// The summed priorities of the first `k` lines' shared items.
pub open spec fn priorities_sum(lines: Seq<String>, k: int) -> int
    decreases k,
{
    if k <= 0 {
        0
    } else {
        priorities_sum(lines, k - 1) + priority(shared_item(lines[k - 1]@))
    }
}

/// Sums the shared-item priorities over all lines. Halves are counted in
/// characters, and every line must hold a shared letter.
pub fn process_rucksack_lines(lines: &Vec<String>) -> (r: u32)
    requires
        forall|i: int| 0 <= i < lines@.len() ==> line_ok((#[trigger] lines@[i])@),
        52 * lines@.len() <= u32::MAX,
    ensures
        r as int == priorities_sum(lines@, lines@.len() as int),
{
    let mut score: u32 = 0;
    let mut i: usize = 0;
    while i < lines.len()
        invariant
            forall|j: int| 0 <= j < lines@.len() ==> line_ok((#[trigger] lines@[j])@),
            52 * lines@.len() <= u32::MAX,
            i <= lines@.len(),
            score as int == priorities_sum(lines@, i as int),
            score <= 52 * i,
        decreases lines@.len() - i,
    {
        let line = lines[i].as_str();
        let ghost l = line@;
        let n = line.unicode_len();
        let mid = n / 2;
        let mut idx: usize = 0;
        let mut found = false;
        let mut item: char = '0';
        while idx < mid && !found
            invariant
                n == l.len(),
                l == line@,
                mid == n / 2,
                line_ok(l),
                idx <= mid,
                !found ==> shared_idx_from(l, 0) == shared_idx_from(l, idx as int),
                found ==> item == shared_item(l),
            decreases mid - idx, (if found { 0int } else { 1int }),
        {
            let c = line.get_char(idx);
            let mut j = mid;
            let mut hit = false;
            while j < n && !hit
                invariant
                    n == l.len(),
                    l == line@,
                    mid == n / 2,
                    c == l[idx as int],
                    idx < mid,
                    mid <= j <= n,
                    !hit ==> forall|j2: int| mid <= j2 < j ==> l[j2] != c,
                    hit ==> second_half_contains(l, c),
                decreases n - j, (if hit { 0int } else { 1int }),
            {
                if line.get_char(j) == c {
                    hit = true;
                } else {
                    j = j + 1;
                }
            }
            if hit {
                found = true;
                item = c;
                proof {
                    assert(shared_idx_from(l, idx as int) == idx);
                }
            } else {
                proof {
                    assert(!second_half_contains(l, c));
                }
                idx = idx + 1;
            }
        }
        proof {
            if !found {
                assert(shared_idx_from(l, mid as int) == -1);
                assert(false);
            }
        }
        let value: u32 = if item >= 'a' && item <= 'z' {
            (item as u32) - 97 + 1
        } else {
            (item as u32) + 32 - 97 + 27
        };
        proof {
            assert(value as int == priority(shared_item(l)));
        }
        score = score + value;
        i = i + 1;
    }
    score
}

} // verus!
