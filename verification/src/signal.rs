//! Start-of-packet detection: the position just past the first window of
//! four pairwise-distinct characters in a stream.
use vstd::prelude::*;

verus! {

/// The four characters ending at position `i` are pairwise distinct.
pub open spec fn distinct_window(s: Seq<char>, i: int) -> bool {
    &&& s[i - 3] != s[i - 2]
    &&& s[i - 3] != s[i - 1]
    &&& s[i - 3] != s[i]
    &&& s[i - 2] != s[i - 1]
    &&& s[i - 2] != s[i]
    &&& s[i - 1] != s[i]
}

/// Returns one past the position where the first window of four pairwise
/// distinct characters ends, or zero when no such window exists.
pub fn calculate_signal(line: &str) -> (r: usize)
    ensures
        r == 0 ==> forall|i: int| 3 <= i < line@.len() ==> !distinct_window(line@, i),
        r != 0 ==> {
            &&& 3 <= r - 1 < line@.len()
            &&& distinct_window(line@, r - 1)
            &&& forall|i: int| 3 <= i < r - 1 ==> !distinct_window(line@, i)
        },
{
    let n = line.unicode_len();
    if n < 4 {
        return 0;
    }
    let mut i: usize = 3;
    while i < n
        invariant
            n == line@.len(),
            3 <= i <= n,
            forall|j: int| 3 <= j < i ==> !distinct_window(line@, j),
        decreases n - i,
    {
        let a = line.get_char(i - 3);
        let b = line.get_char(i - 2);
        let c = line.get_char(i - 1);
        let d = line.get_char(i);
        if a != b && a != c && a != d && b != c && b != d && c != d {
            return i + 1;
        }
        i = i + 1;
    }
    0
}

} // verus!
