//! How a session is played.
use vstd::prelude::*;

verus! {

/// The game variant; a tag that judgment does not read.
#[derive(Clone, Copy, Debug, PartialEq, Eq)]
pub enum GameMode {
    NORMAL,
    /// Slot machine.
    SLOT,
    /// Dice.
    DICE,
    /// Mahjong.
    MAHJONG,
    /// Binary numbers.
    BINARY,
    /// Hexadecimal numbers.
    HEXADECIMAL,
    /// Binary and hexadecimal mixed.
    MIX,
    /// Formulas.
    FORMULA,
    /// Emoji.
    EMOJI,
    /// Colour codes.
    COLOR,
    /// Fonts.
    FONT,
    /// Celebrities.
    CELEBRITY,
    /// Flags.
    FLAG,
    /// Numbers in foreign languages.
    FOREIGN,
}

#[derive(Clone, Copy, Debug, PartialEq, Eq)]
pub struct GameSettings {
    /// Whether play goes on after the first complete line.
    pub multiple_bingo: bool,
    /// Whether numbers are called by the server.
    pub auto_open: bool,
    /// The most participants a session takes; no bound when `None`.
    pub max_player: Option<usize>,
}

impl Default for GameSettings {
    fn default() -> (r: GameSettings)
        ensures
            r == (GameSettings { multiple_bingo: false, auto_open: false, max_player: None }),
    {
        GameSettings { multiple_bingo: false, auto_open: false, max_player: None }
    }
}

} // verus!
