//! Scoring of rock-paper-scissors rounds written one per line: an
//! opponent letter, a space, and an own letter.
use itertools::Itertools;
use vstd::prelude::*;

verus! {

/// A shape one hand can show.
#[derive(Clone, Copy, PartialEq, Eq, Structural, Debug)]
pub enum GameOptions {
    Rock,
    Paper,
    Scissors,
}

/// What the letter columns decode to: A and X are rock, B and Y paper,
/// anything else scissors.
pub open spec fn option_of_char(value: char) -> GameOptions {
    if value == 'A' || value == 'X' {
        GameOptions::Rock
    } else if value == 'B' || value == 'Y' {
        GameOptions::Paper
    } else {
        GameOptions::Scissors
    }
}

impl GameOptions {
    /// Decodes one letter column.
    pub fn from(value: char) -> (r: Self)
        ensures
            r == option_of_char(value),
    {
        match value {
            'A' | 'X' => GameOptions::Rock,
            'B' | 'Y' => GameOptions::Paper,
            _ => GameOptions::Scissors,
        }
    }

    /// Points awarded for the shape itself.
    pub open spec fn shape_points(self) -> int {
        match self {
            GameOptions::Rock => 1,
            GameOptions::Paper => 2,
            GameOptions::Scissors => 3,
        }
    }

    /// Points awarded for the shape itself.
    pub fn shape_score(&self) -> (r: i32)
        ensures
            r == self.shape_points(),
    {
        match self {
            GameOptions::Rock => 1,
            GameOptions::Paper => 2,
            GameOptions::Scissors => 3,
        }
    }
}

/// The outcome of one round, seen from the own side.
#[derive(Clone, Copy, PartialEq, Eq, Structural, Debug)]
pub enum GameScore {
    Loss,
    Draw,
    Win,
}

/// Who beats whom: rock blunts scissors, scissors cut paper, paper wraps
/// rock; the same shape draws.
pub open spec fn outcome_of(opponent: GameOptions, mine: GameOptions) -> GameScore {
    match (opponent, mine) {
        (GameOptions::Rock, GameOptions::Scissors) => GameScore::Loss,
        (GameOptions::Rock, GameOptions::Paper) => GameScore::Win,
        (GameOptions::Scissors, GameOptions::Rock) => GameScore::Win,
        (GameOptions::Scissors, GameOptions::Paper) => GameScore::Loss,
        (GameOptions::Paper, GameOptions::Rock) => GameScore::Loss,
        (GameOptions::Paper, GameOptions::Scissors) => GameScore::Win,
        (_, _) => GameScore::Draw,
    }
}

impl GameScore {
    /// The outcome of one round.
    pub fn get_game_score(opponent: &GameOptions, mine: &GameOptions) -> (r: GameScore)
        ensures
            r == outcome_of(*opponent, *mine),
    {
        match (opponent, mine) {
            (GameOptions::Rock, GameOptions::Scissors) => GameScore::Loss,
            (GameOptions::Rock, GameOptions::Paper) => GameScore::Win,
            (GameOptions::Scissors, GameOptions::Rock) => GameScore::Win,
            (GameOptions::Scissors, GameOptions::Paper) => GameScore::Loss,
            (GameOptions::Paper, GameOptions::Rock) => GameScore::Loss,
            (GameOptions::Paper, GameOptions::Scissors) => GameScore::Win,
            (_, _) => GameScore::Draw,
        }
    }

    /// Points awarded for the outcome.
    pub open spec fn outcome_points(self) -> int {
        match self {
            GameScore::Loss => 0,
            GameScore::Draw => 3,
            GameScore::Win => 6,
        }
    }

    /// Points awarded for the outcome.
    pub fn outcome_score(&self) -> (r: i32)
        ensures
            r == self.outcome_points(),
    {
        match self {
            GameScore::Loss => 0,
            GameScore::Draw => 3,
            GameScore::Win => 6,
        }
    }
}

/// Points one round earns: the outcome points plus the own shape's points.
pub open spec fn line_points(s: Seq<char>) -> int {
    outcome_of(option_of_char(s[0]), option_of_char(s[2])).outcome_points() + option_of_char(
        s[2],
    ).shape_points()
}

/// Points the first `k` rounds earn together.
pub open spec fn rounds_points(lines: Seq<String>, k: int) -> int
    decreases k,
{
    if k <= 0 {
        0
    } else {
        rounds_points(lines, k - 1) + line_points(lines[k - 1]@)
    }
}

/// Relies on itertools' `collect_tuple`: yields the three characters of a
/// three-character string, and nothing for any other length.
#[verifier::external_body]
fn three_chars(s: &str) -> (r: Option<(char, char, char)>)
    ensures
        r is Some <==> s@.len() == 3,
        r matches Some(t) ==> t.0 == s@[0] && t.1 == s@[1] && t.2 == s@[2],
{
    s.chars().collect_tuple()
}

/// Sums the score of every round: each line must hold exactly an opponent
/// letter, a separator, and an own letter.
pub fn calculate_score(lines: &Vec<String>) -> (r: i32)
    requires
        forall|i: int| 0 <= i < lines@.len() ==> (#[trigger] lines@[i])@.len() == 3,
        9 * lines@.len() <= i32::MAX,
    ensures
        r == rounds_points(lines@, lines@.len() as int),
{
    let mut score: i32 = 0;
    let mut i: usize = 0;
    while i < lines.len()
        invariant
            forall|j: int| 0 <= j < lines@.len() ==> (#[trigger] lines@[j])@.len() == 3,
            9 * lines@.len() <= i32::MAX,
            i <= lines@.len(),
            score == rounds_points(lines@, i as int),
            0 <= score <= 9 * i,
        decreases lines@.len() - i,
    {
        let trio = three_chars(lines[i].as_str());
        match trio {
            Some((opponent_char, _sep, my_char)) => {
                let opponent_option = GameOptions::from(opponent_char);
                let my_option = GameOptions::from(my_char);
                let game_score = GameScore::get_game_score(&opponent_option, &my_option);
                score = score + game_score.outcome_score() + my_option.shape_score();
            },
            None => {
                proof {
                    assert(false);
                }
            },
        }
        i = i + 1;
    }
    score
}

} // verus!
