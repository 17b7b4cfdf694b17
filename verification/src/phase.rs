use vstd::prelude::*;

verus! {

/// The phases a game goes through.
#[derive(Clone, Copy, Debug, PartialEq, Eq, Structural)]
pub enum GamePhase {
    Lobby,
    Prompting,
    Voting,
    Reveal,
    Results,
}

/// The name of a phase as the clients and the screen know it.
pub open spec fn phase_text(phase: GamePhase) -> Seq<char> {
    match phase {
        GamePhase::Lobby => "lobby"@,
        GamePhase::Prompting => "prompting"@,
        GamePhase::Voting => "voting"@,
        GamePhase::Reveal => "reveal"@,
        GamePhase::Results => "results"@,
    }
}

impl GamePhase {
    /// The name of this phase as the clients and the screen know it.
    pub fn label(&self) -> (s: &'static str)
        ensures
            s@ == phase_text(*self),
    {
        match self {
            GamePhase::Lobby => "lobby",
            GamePhase::Prompting => "prompting",
            GamePhase::Voting => "voting",
            GamePhase::Reveal => "reveal",
            GamePhase::Results => "results",
        }
    }
}

} // verus!
