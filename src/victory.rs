//! Terminal conditions: elimination and the turn limit.

use vstd::prelude::*;
use crate::units::{Team, UnitEntry};

verus! {

/// How a finished game ended.
#[derive(Clone, Copy, Debug, PartialEq, Eq, Structural, Hash)]
pub enum GameOutcome {
    RedWins,
    BlueWins,
    Draw,
}

/// The number of units of `team` among the first `k` of `units`.
pub open spec fn count_upto(units: Seq<UnitEntry>, team: Team, k: nat) -> nat
    decreases k,
{
    if k == 0 {
        0
    } else {
        count_upto(units, team, (k - 1) as nat) + if units[k - 1].unit.team == team {
            1nat
        } else {
            0nat
        }
    }
}

/// The number of units of `team`.
pub open spec fn team_count(units: Seq<UnitEntry>, team: Team) -> nat {
    count_upto(units, team, units.len())
}

/// The outcome that the surviving counts give: a side with no units left
/// loses, both empty or both standing is a draw.
pub open spec fn spec_outcome(red: int, blue: int) -> GameOutcome {
    if red == 0 && blue == 0 {
        GameOutcome::Draw
    } else if red == 0 {
        GameOutcome::BlueWins
    } else if blue == 0 {
        GameOutcome::RedWins
    } else {
        GameOutcome::Draw
    }
}

/// The outcome that the surviving counts give.
pub fn outcome_of_counts(red: usize, blue: usize) -> (o: GameOutcome)
    ensures
        o == spec_outcome(red as int, blue as int),
{
    if red == 0 && blue == 0 {
        GameOutcome::Draw
    } else if red == 0 {
        GameOutcome::BlueWins
    } else if blue == 0 {
        GameOutcome::RedWins
    } else {
        GameOutcome::Draw
    }
}

impl GameOutcome {
    /// The banner shown when the game ends.
    pub fn banner(&self) -> (s: &'static str)
        ensures
            *self == GameOutcome::RedWins ==> s@ == "RED TEAM WINS!"@,
            *self == GameOutcome::BlueWins ==> s@ == "BLUE TEAM WINS!"@,
            *self == GameOutcome::Draw ==> s@ == "DRAW!"@,
    {
        match self {
            GameOutcome::RedWins => "RED TEAM WINS!",
            GameOutcome::BlueWins => "BLUE TEAM WINS!",
            GameOutcome::Draw => "DRAW!",
        }
    }
}

/// The number of red and of blue units.
pub fn team_counts(units: &Vec<UnitEntry>) -> (c: (usize, usize))
    ensures
        c.0 == team_count(units@, Team::Red),
        c.1 == team_count(units@, Team::Blue),
{
    let mut red: usize = 0;
    let mut blue: usize = 0;
    let mut i: usize = 0;
    while i < units.len()
        invariant
            i <= units@.len(),
            red == count_upto(units@, Team::Red, i as nat),
            blue == count_upto(units@, Team::Blue, i as nat),
            red + blue == i,
        decreases units@.len() - i,
    {
        match units[i].unit.team {
            Team::Red => red = red + 1,
            Team::Blue => blue = blue + 1,
        }
        i = i + 1;
    }
    (red, blue)
}

/// The sticky game-over flag and the outcome recorded when it was set.
#[derive(Clone, Copy, Debug, PartialEq, Eq, Structural)]
pub struct GameOver {
    pub over: bool,
    pub outcome: Option<GameOutcome>,
}

/// The state after a victory check at turn `turn`: once over it stays as
/// it is; otherwise the game ends when the turn limit is reached or a side
/// has no units left, with the outcome the counts give.
pub open spec fn next_victory(s: GameOver, turn: int, max_turns: int, red: int, blue: int) -> GameOver {
    if s.over {
        s
    } else if turn >= max_turns || red == 0 || blue == 0 {
        GameOver { over: true, outcome: Some(spec_outcome(red, blue)) }
    } else {
        s
    }
}

impl GameOver {
    /// A game that is still running.
    pub fn new() -> (g: GameOver)
        ensures
            !g.over,
            g.outcome is None,
    {
        GameOver { over: false, outcome: None }
    }

    /// Whether the outcome is recorded exactly when the game is over.
    pub open spec fn wf(self) -> bool {
        self.over <==> self.outcome is Some
    }

    /// Runs the victory check after a turn.
    pub fn check_victory(&mut self, turn: u32, max_turns: u32, red: usize, blue: usize)
        ensures
            *final(self) == next_victory(*old(self), turn as int, max_turns as int, red as int, blue as int),
            old(self).wf() ==> final(self).wf(),
    {
        if self.over {
            return;
        }
        if turn >= max_turns || red == 0 || blue == 0 {
            self.over = true;
            self.outcome = Some(outcome_of_counts(red, blue));
        }
    }
}

/// The victory check is idempotent once the game is over: a later check,
/// whatever it is shown, changes neither the flag nor the recorded outcome.
pub proof fn lemma_victory_sticky(
    s: GameOver,
    turn: int,
    max_turns: int,
    red: int,
    blue: int,
    turn2: int,
    max_turns2: int,
    red2: int,
    blue2: int,
)
    requires
        next_victory(s, turn, max_turns, red, blue).over,
    ensures
        next_victory(next_victory(s, turn, max_turns, red, blue), turn2, max_turns2, red2, blue2)
            == next_victory(s, turn, max_turns, red, blue),
{
}

/// A side with a unit at index `i` has a positive count.
pub proof fn lemma_count_positive(units: Seq<UnitEntry>, team: Team, i: int)
    requires
        0 <= i < units.len(),
        units[i].unit.team == team,
    ensures
        team_count(units, team) > 0,
{
    lemma_count_upto_positive(units, team, i, units.len());
}

proof fn lemma_count_upto_positive(units: Seq<UnitEntry>, team: Team, i: int, k: nat)
    requires
        0 <= i < k <= units.len(),
        units[i].unit.team == team,
    ensures
        count_upto(units, team, k) > 0,
    decreases k,
{
    if k - 1 > i {
        lemma_count_upto_positive(units, team, i, (k - 1) as nat);
    }
}

} // verus!
