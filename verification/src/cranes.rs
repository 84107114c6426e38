//! Crate stacks and crane moves: drawing lines fill the stacks column by
//! column, command lines move crates one at a time between stacks, and
//! the answer is the top crate of every stack read left to right.
//! Column positions and lengths are counted in characters.
use std::collections::VecDeque;
use vstd::prelude::*;

use crate::text::push_char;

verus! {

/// Whether a character is a letter.
pub uninterp spec fn is_alpha(c: char) -> bool;

/// Relies on `char::is_alphabetic`: whether the character is a letter;
/// the result depends on the character alone.
#[verifier::external_body]
fn char_is_alphabetic(c: char) -> (r: bool)
    ensures
        r == is_alpha(c),
{
    c.is_alphabetic()
}

/// The stacks after reading the first `upto` characters of a drawing
/// line: each letter at position `p` lands at the bottom of stack `p/4`;
/// positions past the last stack are ignored.
pub open spec fn insert_crates_spec(line: Seq<char>, cranes: Seq<Seq<char>>, upto: int) -> Seq<
    Seq<char>,
>
    decreases upto,
{
    if upto <= 0 {
        cranes
    } else {
        let prev = insert_crates_spec(line, cranes, upto - 1);
        let idx = upto - 1;
        let c = line[idx];
        if is_alpha(c) && idx / 4 < prev.len() {
            prev.update(idx / 4, prev[idx / 4].push(c))
        } else {
            prev
        }
    }
}

/// One crate moved from the top of `from` to the top of `to`; nothing
/// happens when `from` is empty.
pub open spec fn move_one(cranes: Seq<Seq<char>>, from: int, to: int) -> Seq<Seq<char>> {
    if cranes[from].len() == 0 {
        cranes
    } else {
        let c = cranes[from][0];
        let after = cranes.update(from, cranes[from].drop_first());
        after.update(to, seq![c] + after[to])
    }
}

/// `n` crates moved one at a time.
pub open spec fn move_n(cranes: Seq<Seq<char>>, n: int, from: int, to: int) -> Seq<Seq<char>>
    decreases n,
{
    if n <= 0 {
        cranes
    } else {
        move_one(move_n(cranes, n - 1, from, to), from, to)
    }
}

/// Relies on regex: the first match of `move (\d+) from (\d+) to (\d+)`
/// in the line, each group read as a number; nothing when the line has no
/// match or a group overflows. The result depends on the line alone.
pub uninterp spec fn move_command_of(s: Seq<char>) -> Option<(u32, u32, u32)>;

#[verifier::external_body]
fn parse_move_command(line: &str) -> (r: Option<(u32, u32, u32)>)
    ensures
        r == move_command_of(line@),
{
    let re = regex::Regex::new(r"move (\d+) from (\d+) to (\d+)").unwrap();
    let caps = re.captures(line)?;
    let count = caps[1].parse::<u32>().ok()?;
    let from = caps[2].parse::<u32>().ok()?;
    let to = caps[3].parse::<u32>().ok()?;
    Some((count, from, to))
}

/// What a command line does to the stacks: its stated number of single
/// moves, or nothing when it does not parse or names a stack that does
/// not exist.
pub open spec fn move_line_spec(l: Seq<char>, cs: Seq<Seq<char>>) -> Seq<Seq<char>> {
    match move_command_of(l) {
        Some(cmd) => if 1 <= cmd.1 && cmd.1 <= cs.len() && 1 <= cmd.2 && cmd.2 <= cs.len() {
            move_n(cs, cmd.0 as int, cmd.1 - 1, cmd.2 - 1)
        } else {
            cs
        },
        None => cs,
    }
}

/// Reads one drawing line into the stacks.
pub fn insert_crates_to_cranes(line: &str, cranes: &mut Vec<VecDeque<char>>)
    ensures
        final(cranes).deep_view() == insert_crates_spec(
            line@,
            old(cranes).deep_view(),
            line@.len() as int,
        ),
        final(cranes)@.len() == old(cranes)@.len(),
{
    let n = line.unicode_len();
    let mut i: usize = 0;
    while i < n
        invariant
            n == line@.len(),
            i <= n,
            cranes.deep_view() == insert_crates_spec(line@, old(cranes).deep_view(), i as int),
            cranes@.len() == old(cranes)@.len(),
        decreases n - i,
    {
        let ghost prev = cranes.deep_view();
        let ch = line.get_char(i);
        if char_is_alphabetic(ch) {
            let crane_idx = i / 4;
            if crane_idx < cranes.len() {
                let q = &mut cranes[crane_idx];
                q.push_back(ch);
                proof {
                    assert(cranes.deep_view() =~~= prev.update(
                        crane_idx as int,
                        prev[crane_idx as int].push(ch),
                    ));
                }
            }
        }
        i = i + 1;
    }
}

/// Applies one command line to the stacks.
pub fn move_crates(line: &str, cranes: &mut Vec<VecDeque<char>>)
    ensures
        final(cranes).deep_view() == move_line_spec(line@, old(cranes).deep_view()),
        final(cranes)@.len() == old(cranes)@.len(),
{
    let command = parse_move_command(line);
    match command {
        None => {},
        Some((count, from, to)) => {
            if 1 <= from && (from as usize) <= cranes.len() && 1 <= to && (to as usize)
                <= cranes.len() {
                let from_crane = (from - 1) as usize;
                let to_crane = (to - 1) as usize;
                let mut k: u32 = 0;
                while k < count
                    invariant
                        from_crane < cranes@.len(),
                        to_crane < cranes@.len(),
                        k <= count,
                        cranes@.len() == old(cranes)@.len(),
                        cranes.deep_view() == move_n(
                            old(cranes).deep_view(),
                            k as int,
                            from_crane as int,
                            to_crane as int,
                        ),
                    decreases count - k,
                {
                    let ghost prev = cranes.deep_view();
                    let src = &mut cranes[from_crane];
                    let popped = src.pop_front();
                    let ghost mid = cranes.deep_view();
                    match popped {
                        Some(ch) => {
                            proof {
                                assert(mid =~~= prev.update(
                                    from_crane as int,
                                    prev[from_crane as int].drop_first(),
                                ));
                            }
                            let dst = &mut cranes[to_crane];
                            dst.push_front(ch);
                            proof {
                                assert(cranes.deep_view() =~~= mid.update(
                                    to_crane as int,
                                    seq![ch] + mid[to_crane as int],
                                ));
                            }
                        },
                        None => {
                            proof {
                                assert(mid =~= prev);
                            }
                        },
                    }
                    k = k + 1;
                }
            }
        },
    }
}

/// The top crate of each stack, left to right; empty stacks contribute
/// nothing.
pub open spec fn crane_fronts(cs: Seq<Seq<char>>, k: int) -> Seq<char>
    decreases k,
{
    if k <= 0 {
        Seq::empty()
    } else {
        crane_fronts(cs, k - 1) + (if cs[k - 1].len() > 0 {
            seq![cs[k - 1][0]]
        } else {
            Seq::empty()
        })
    }
}

/// Reads the answer off the stacks: every top crate, left to right.
pub fn cranes_state_to_string(cranes: &Vec<VecDeque<char>>) -> (r: String)
    ensures
        r@ == crane_fronts(cranes.deep_view(), cranes@.len() as int),
{
    let mut result = String::new();
    let mut i: usize = 0;
    while i < cranes.len()
        invariant
            i <= cranes@.len(),
            result@ == crane_fronts(cranes.deep_view(), i as int),
        decreases cranes@.len() - i,
    {
        let ghost before = result@;
        if cranes[i].len() > 0 {
            let c = cranes[i][0];
            push_char(&mut result, c);
            proof {
                assert(result@ =~= before + seq![c]);
            }
        } else {
            proof {
                assert(result@ =~= before + Seq::<char>::empty());
            }
        }
        i = i + 1;
    }
    result
}

/// The stack count and the stacks after the first `k` lines: the first
/// line long enough to imply a stack count allocates that many empty
/// stacks, drawing lines fill them, command lines move crates.
pub open spec fn crates_state(lines: Seq<String>, k: int) -> (int, Seq<Seq<char>>)
    decreases k,
{
    if k <= 0 {
        (0, Seq::empty())
    } else {
        let prev = crates_state(lines, k - 1);
        let l = lines[k - 1]@;
        let started = if prev.0 == 0 {
            (((l.len() + 1) / 4) as int, Seq::new((l.len() + 1) / 4, |j: int| Seq::<char>::empty()))
        } else {
            prev
        };
        if l.len() > 0 && l[0] == '[' {
            (started.0, insert_crates_spec(l, started.1, l.len() as int))
        } else if l.len() > 0 && l[0] == 'm' {
            (started.0, move_line_spec(l, started.1))
        } else {
            started
        }
    }
}

/// Plays the whole input: sets up the stacks, applies every line, and
/// reads off the top crates.
pub fn calculate_crates_order(lines: &Vec<String>) -> (r: String)
    requires
        forall|i: int| 0 <= i < lines@.len() ==> (#[trigger] lines@[i])@.len() < usize::MAX,
    ensures
        r@ == crane_fronts(
            crates_state(lines@, lines@.len() as int).1,
            crates_state(lines@, lines@.len() as int).1.len() as int,
        ),
{
    let mut number_of_cranes: usize = 0;
    let mut cranes_vec: Vec<VecDeque<char>> = Vec::new();
    let mut i: usize = 0;
    proof {
        assert(cranes_vec.deep_view() =~= Seq::<Seq<char>>::empty());
    }
    while i < lines.len()
        invariant
            forall|j: int| 0 <= j < lines@.len() ==> (#[trigger] lines@[j])@.len() < usize::MAX,
            i <= lines@.len(),
            number_of_cranes as int == crates_state(lines@, i as int).0,
            cranes_vec.deep_view() == crates_state(lines@, i as int).1,
            number_of_cranes == 0 ==> cranes_vec@.len() == 0,
        decreases lines@.len() - i,
    {
        let line = lines[i].as_str();
        let n = line.unicode_len();
        if number_of_cranes == 0 {
            number_of_cranes = (n + 1) / 4;
            let ghost before = cranes_vec.deep_view();
            let mut j: usize = 0;
            while j < number_of_cranes
                invariant
                    j <= number_of_cranes,
                    cranes_vec@.len() == j,
                    forall|q: int|
                        0 <= q < j ==> (#[trigger] cranes_vec.deep_view()[q]).len() == 0,
                decreases number_of_cranes - j,
            {
                let ghost old_dv = cranes_vec.deep_view();
                cranes_vec.push(VecDeque::new());
                proof {
                    let dv = cranes_vec.deep_view();
                    assert forall|q: int| 0 <= q < j + 1 implies (#[trigger] dv[q]).len()
                        == 0 by {
                        if q < j {
                            assert(dv[q] == old_dv[q]);
                        } else {
                            assert(cranes_vec@[q]@ =~= Seq::<char>::empty());
                        }
                    }
                }
                j = j + 1;
            }
            proof {
                assert(cranes_vec.deep_view() =~~= Seq::new(
                    number_of_cranes as nat,
                    |q: int| Seq::<char>::empty(),
                ));
            }
        }
        if n > 0 && line.get_char(0) == '[' {
            insert_crates_to_cranes(line, &mut cranes_vec);
        } else if n > 0 && line.get_char(0) == 'm' {
            move_crates(line, &mut cranes_vec);
        }
        i = i + 1;
    }
    cranes_state_to_string(&cranes_vec)
}

} // verus!
