use vstd::prelude::*;

use crate::action::Action;
use crate::letters::{letter_of_text, Letter};
use crate::side::PlayerSide;

verus! {

/// Input from the page to the game client.
#[derive(Clone, Copy, Debug, PartialEq, Eq, Structural)]
pub enum AppMessage {
    AddLetter(Letter),
    Backspace,
}

impl AppMessage {
    /// `AddLetter` for a one-character string naming a letter, in either
    /// case; `None` for any other string.
    pub fn add_letter(letter: &str) -> (r: Option<AppMessage>)
        ensures
            r == match letter_of_text(letter@) {
                Some(l) => Some(AppMessage::AddLetter(l)),
                None => None,
            },
    {
        match Letter::from_string(letter) {
            Some(l) => Some(AppMessage::AddLetter(l)),
            None => None,
        }
    }

    /// The action the message asks for.
    pub fn to_action(&self) -> (r: Action)
        ensures
            r == match *self {
                AppMessage::AddLetter(l) => Action::Append(l),
                AppMessage::Backspace => Action::Delete,
            },
    {
        match self {
            AppMessage::AddLetter(l) => Action::Append(*l),
            AppMessage::Backspace => Action::Delete,
        }
    }
}

/// What one client is shown of its match: its side, both words, both
/// scores, and the arena's size.
#[derive(Clone, Debug)]
pub struct UpdateStateMessage {
    pub my_side: PlayerSide,
    pub left_word: String,
    pub left_score: usize,
    pub right_word: String,
    pub right_score: usize,
    pub arena_size: usize,
}

/// Output from the game client to the page.
#[derive(Clone, Debug)]
pub enum WorkerMessage {
    UpdateState(UpdateStateMessage),
}

} // verus!
