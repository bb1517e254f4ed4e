use vstd::prelude::*;

verus! {

/// The game mode a player is in.
#[derive(Clone, Copy, Debug, PartialEq, Eq, Structural)]
pub enum GameMode {
    NotSet,
    Survival,
    Creative,
    Adventure,
    Spectator,
}

impl GameMode {
    /// The mode that an integer stands for; every integer outside `-1..=3`
    /// stands for `Adventure`.
    pub open spec fn of_int(val: int) -> GameMode {
        if val == 3 {
            GameMode::Spectator
        } else if val == 1 {
            GameMode::Creative
        } else if val == 0 {
            GameMode::Survival
        } else if val == -1 {
            GameMode::NotSet
        } else {
            GameMode::Adventure
        }
    }

    /// The integer that stands for a mode.
    pub open spec fn to_int(self) -> int {
        match self {
            GameMode::NotSet => -1,
            GameMode::Survival => 0,
            GameMode::Creative => 1,
            GameMode::Adventure => 2,
            GameMode::Spectator => 3,
        }
    }

    pub fn from_int(val: i32) -> (mode: GameMode)
        ensures
            mode == Self::of_int(val as int),
    {
        match val {
            3 => GameMode::Spectator,
            2 => GameMode::Adventure,
            1 => GameMode::Creative,
            0 => GameMode::Survival,
            -1 => GameMode::NotSet,
            _ => GameMode::Adventure,
        }
    }

    pub fn can_fly(&self) -> (b: bool)
        ensures
            b == (*self == GameMode::Creative || *self == GameMode::Spectator),
    {
        matches!(*self, GameMode::Creative | GameMode::Spectator)
    }

    pub fn always_fly(&self) -> (b: bool)
        ensures
            b == (*self == GameMode::Spectator),
    {
        matches!(*self, GameMode::Spectator)
    }

    pub fn noclip(&self) -> (b: bool)
        ensures
            b == (*self == GameMode::Spectator),
    {
        matches!(*self, GameMode::Spectator)
    }

    pub fn can_interact_with_world(&self) -> (b: bool)
        ensures
            b == (*self != GameMode::Adventure && *self != GameMode::Spectator),
    {
        matches!(*self, GameMode::Creative | GameMode::Survival | GameMode::NotSet)
    }
}

/// Every mode is the mode of its own integer.
pub proof fn lemma_game_mode_int_round_trip(mode: GameMode)
    ensures
        GameMode::of_int(mode.to_int()) == mode,
        -1 <= mode.to_int() <= 3,
{
}

} // verus!
