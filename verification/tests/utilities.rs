use std::collections::VecDeque;

use ev_flex::{GameOptions, GameScore, Pair};

fn lines(texts: &[&str]) -> Vec<String> {
    texts.iter().map(|t| t.to_string()).collect()
}

#[test]
fn signal_found_after_seven_characters() {
    assert_eq!(ev_flex::calculate_signal("mjqjpqmgbljsphdztnvjfqwrcgsmlb"), 7);
}

#[test]
fn signal_found_after_five_characters() {
    assert_eq!(ev_flex::calculate_signal("bvwbjplbgvbhsrlpgdmjqwftvncz"), 5);
}

#[test]
fn signal_absent_in_short_or_repetitive_input() {
    assert_eq!(ev_flex::calculate_signal("abc"), 0);
    assert_eq!(ev_flex::calculate_signal("aaaaaaaa"), 0);
}

#[test]
fn game_score_follows_the_rules() {
    assert_eq!(
        GameScore::get_game_score(&GameOptions::Rock, &GameOptions::Paper),
        GameScore::Win
    );
    assert_eq!(
        GameScore::get_game_score(&GameOptions::Rock, &GameOptions::Scissors),
        GameScore::Loss
    );
    assert_eq!(
        GameScore::get_game_score(&GameOptions::Paper, &GameOptions::Paper),
        GameScore::Draw
    );
}

#[test]
fn total_round_score() {
    let input = lines(&["A Y", "B X", "C Z"]);
    assert_eq!(ev_flex::calculate_score(&input), 15);
}

#[test]
fn biggest_block_sum() {
    let input = lines(&[
        "1000", "2000", "3000", "", "4000", "", "5000", "6000", "", "7000", "8000", "9000", "",
        "10000",
    ]);
    assert_eq!(ev_flex::biggest_sum(&input), 24000);
}

#[test]
fn final_block_is_never_compared() {
    // the closing block is only weighed at a break line, so a last block
    // without one falls away
    assert_eq!(ev_flex::biggest_sum(&lines(&["5", "", "1"])), 5);
    assert_eq!(ev_flex::biggest_sum(&lines(&["1", "2"])), 0);
}

#[test]
fn rucksack_priorities_sum() {
    let input = lines(&[
        "vJrwpWtwJgWrhcsFMMfFFhFp",
        "jqHRNqRjqzjGDLGLrsFMfFZSrLrFZsSL",
        "PmmdzqPrVvPwwTWBwg",
        "wMqvLMZHhHMvwLHjbvcjnnSBnvTQFn",
        "ttgJtRGJQctTZtZT",
        "CrZsJsPPZsGzwwsLwLmpwMDw",
    ]);
    assert_eq!(ev_flex::process_rucksack_lines(&input), 157);
}

#[test]
fn pair_parses_and_rejects() {
    let pair = Pair::from_str("12-34").expect("well formed");
    assert_eq!(pair.x, 12);
    assert_eq!(pair.y, 34);
    assert!(Pair::from_str("12").is_err());
    assert!(Pair::from_str("a-b").is_err());
}

#[test]
fn fully_contained_pairs_are_counted() {
    let input = lines(&["2-4,6-8", "2-3,4-5", "5-7,7-9", "2-8,3-7", "6-6,4-6", "2-6,4-8"]);
    assert_eq!(ev_flex::calc_overlapping_pairs(&input), Ok(2));
}

#[test]
fn malformed_pair_line_aborts_the_count() {
    let input = lines(&["2-4,6-8", "oops"]);
    assert!(ev_flex::calc_overlapping_pairs(&input).is_err());
}

#[test]
fn parse_i32_accepts_signs_and_rejects_overflow() {
    assert_eq!(ev_flex::parse_i32_or("123", -1), 123);
    assert_eq!(ev_flex::parse_i32_or("-45", -1), -45);
    assert_eq!(ev_flex::parse_i32_or("+7", -1), 7);
    assert_eq!(ev_flex::parse_i32_or("", -1), -1);
    assert_eq!(ev_flex::parse_i32_or("12a", -1), -1);
    assert_eq!(ev_flex::parse_i32_or("2147483647", -1), 2147483647);
    assert_eq!(ev_flex::parse_i32_or("2147483648", -1), -1);
    assert_eq!(ev_flex::parse_i32_or("-2147483648", -1), -2147483648);
}

#[test]
fn parse_u32_handles_bounds() {
    assert_eq!(ev_flex::parse_u32_opt("4294967295"), Some(4294967295));
    assert_eq!(ev_flex::parse_u32_opt("4294967296"), None);
    assert_eq!(ev_flex::parse_u32_opt("0012"), Some(12));
    assert_eq!(ev_flex::parse_u32_opt("-1"), None);
}

#[test]
fn crates_are_inserted_by_column() {
    let mut cranes: Vec<VecDeque<char>> = vec![VecDeque::new(), VecDeque::new()];
    ev_flex::insert_crates_to_cranes("[A] [B]", &mut cranes);
    assert_eq!(cranes[0], VecDeque::from(vec!['A']));
    assert_eq!(cranes[1], VecDeque::from(vec!['B']));
}

#[test]
fn move_command_moves_one_crate_at_a_time() {
    let mut cranes: Vec<VecDeque<char>> =
        vec![VecDeque::from(vec!['N', 'Z']), VecDeque::new()];
    ev_flex::move_crates("move 2 from 1 to 2", &mut cranes);
    assert_eq!(cranes[0], VecDeque::new());
    assert_eq!(cranes[1], VecDeque::from(vec!['Z', 'N']));
}

#[test]
fn bad_move_commands_change_nothing() {
    let mut cranes: Vec<VecDeque<char>> = vec![VecDeque::from(vec!['A'])];
    ev_flex::move_crates("lift 1 from 1 to 1", &mut cranes);
    assert_eq!(cranes[0], VecDeque::from(vec!['A']));
    ev_flex::move_crates("move 1 from 9 to 1", &mut cranes);
    assert_eq!(cranes[0], VecDeque::from(vec!['A']));
}

#[test]
fn top_crates_read_left_to_right() {
    let cranes: Vec<VecDeque<char>> = vec![
        VecDeque::from(vec!['C', 'D']),
        VecDeque::new(),
        VecDeque::from(vec!['M']),
    ];
    assert_eq!(ev_flex::cranes_state_to_string(&cranes), "CM");
}

#[test]
fn whole_crate_game_is_played_through() {
    let input = lines(&[
        "    [D]    ",
        "[N] [C]    ",
        "[Z] [M] [P]",
        " 1   2   3 ",
        "",
        "move 1 from 2 to 1",
        "move 3 from 1 to 3",
        "move 2 from 2 to 1",
        "move 1 from 1 to 2",
    ]);
    // a drawing line that begins with spaces is not read, so the stacks
    // start as N/Z, C/M and P
    assert_eq!(ev_flex::calculate_crates_order(&input), "MZ");
}

#[test]
fn march_calendar_lines() {
    let calendar = ev_flex::generate_calendar(2021, 3).expect("valid month");
    assert_eq!(calendar[0], "");
    assert_eq!(calendar[1], "March 2021");
    assert_eq!(calendar[2], "");
    assert_eq!(calendar[3], "Mon Tue Wed Thu Fri Sat Sun");
    assert_eq!(calendar[4], "");
    assert_eq!(calendar[5], "1   2   3   4   5   6   7   ");
    assert_eq!(calendar[6], "8   9   10  11  12  13  14  ");
    assert_eq!(calendar.len(), 5 + 4);
}

#[test]
fn february_calendar_is_indented_to_wednesday() {
    let calendar = ev_flex::generate_calendar(2023, 2).expect("valid month");
    assert_eq!(calendar[5], "        1   2   3   4   5   ");
    assert_eq!(calendar.len(), 5 + 4);
}
