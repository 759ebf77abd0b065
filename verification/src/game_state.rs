//! The states of a game and the moves between them.

use vstd::prelude::*;

verus! {

/// What the game shows.
#[derive(Debug, Clone, Copy, PartialEq, Eq, Structural)]
pub enum GameState {
    Welcome,
    Playing,
    Victory,
}

/// How hard a maze is.
#[derive(Debug, Clone, Copy, PartialEq, Eq, Structural)]
pub enum Difficulty {
    Easy,
    Medium,
    Difficult,
}

/// How many difficulties the menu offers.
pub const DIFFICULTIES: usize = 3;

impl Difficulty {
    /// The name of the file that holds the maze of this difficulty.
    pub open spec fn spec_maze_file(self) -> Seq<char> {
        match self {
            Difficulty::Easy => "maze_easy.txt"@,
            Difficulty::Medium => "maze_medium.txt"@,
            Difficulty::Difficult => "maze_difficult.txt"@,
        }
    }

    /// The name the menu shows for this difficulty.
    pub open spec fn spec_name(self) -> &'static str {
        match self {
            Difficulty::Easy => "EASY",
            Difficulty::Medium => "MEDIUM",
            Difficulty::Difficult => "DIFFICULT",
        }
    }

    /// The difficulty in the given place of the menu; the first for a place
    /// the menu does not have.
    pub open spec fn spec_from_option(option: usize) -> Difficulty {
        if option == 1 {
            Difficulty::Medium
        } else if option == 2 {
            Difficulty::Difficult
        } else {
            Difficulty::Easy
        }
    }

    /// The name of the file that holds the maze of this difficulty.
    pub fn get_maze_file(&self) -> (file: &'static str)
        ensures
            file@ == self.spec_maze_file(),
    {
        match self {
            Difficulty::Easy => "maze_easy.txt",
            Difficulty::Medium => "maze_medium.txt",
            Difficulty::Difficult => "maze_difficult.txt",
        }
    }

    /// The name the menu shows for this difficulty.
    pub fn get_name(&self) -> (name: &'static str)
        ensures
            name == self.spec_name(),
    {
        match self {
            Difficulty::Easy => "EASY",
            Difficulty::Medium => "MEDIUM",
            Difficulty::Difficult => "DIFFICULT",
        }
    }

    /// The difficulty in the given place of the menu; the first for a place
    /// the menu does not have.
    #[verifier::when_used_as_spec(spec_from_option)]
    pub fn from_option(option: usize) -> (difficulty: Difficulty)
        ensures
            difficulty == Difficulty::spec_from_option(option),
    {
        if option == 1 {
            Difficulty::Medium
        } else if option == 2 {
            Difficulty::Difficult
        } else {
            Difficulty::Easy
        }
    }
}

/// The state of the game, the difficulty being played and the place of the
/// menu that is selected.
#[derive(Debug, Clone, Copy, PartialEq, Eq, Structural)]
pub struct GameManager {
    pub state: GameState,
    pub current_difficulty: Difficulty,
    pub selected_option: usize,
}

impl GameManager {
    /// A game that shows the welcome screen with its first place selected.
    pub fn new() -> (manager: GameManager)
        ensures
            manager == (GameManager {
                state: GameState::Welcome,
                current_difficulty: Difficulty::Easy,
                selected_option: 0,
            }),
    {
        GameManager {
            state: GameState::Welcome,
            current_difficulty: Difficulty::Easy,
            selected_option: 0,
        }
    }

    /// Goes back to the welcome screen with its first place selected.
    pub fn reset_to_welcome(&mut self)
        ensures
            *final(self) == (GameManager {
                state: GameState::Welcome,
                selected_option: 0,
                ..*old(self)
            }),
    {
        self.state = GameState::Welcome;
        self.selected_option = 0;
    }

    /// Starts playing at the given difficulty.
    pub fn start_game(&mut self, difficulty: Difficulty)
        ensures
            *final(self) == (GameManager {
                state: GameState::Playing,
                current_difficulty: difficulty,
                ..*old(self)
            }),
    {
        self.current_difficulty = difficulty;
        self.state = GameState::Playing;
    }

    /// Ends the game in victory.
    pub fn win_game(&mut self)
        ensures
            *final(self) == (GameManager { state: GameState::Victory, ..*old(self) }),
    {
        self.state = GameState::Victory;
    }
}

} // verus!
