use vstd::prelude::*;

use crate::dictionary::{lower_spelling, starts_some, Dictionary};
use crate::letters::Letter;
use crate::side::PlayerSide;
use crate::word::Word;

verus! {

/// What a player may do to its own word.
#[derive(Clone, Copy, Debug, PartialEq, Eq, Structural)]
pub enum Action {
    Append(Letter),
    Delete,
}

/// A word after one optional action: `Append` pushes its letter, `Delete`
/// pops the last letter (nothing on an empty word), no action keeps it.
pub open spec fn apply_to(word: Seq<Letter>, action: Option<Action>) -> Seq<Letter> {
    match action {
        Some(Action::Append(l)) => word.push(l),
        Some(Action::Delete) => if word.len() == 0 {
            word
        } else {
            word.drop_last()
        },
        None => word,
    }
}

/// An action as a client sends it: the action, the side it claims, and the
/// player entity it claims to act for.
#[derive(Clone, Copy, Debug, PartialEq, Eq, Structural)]
pub struct ActionEvent {
    pub action: Action,
    pub side: PlayerSide,
    pub actor: u64,
}

impl Action {
    /// Applies the action straight to a word: `Append` only when the longer
    /// word, spelled in lower case, still begins some word of the dictionary;
    /// `Delete` pops the last letter, if any.
    pub fn apply(&self, word: &mut Word, dictionary: &Dictionary)
        ensures
            match *self {
                Action::Append(l) => final(word)@ == if starts_some(
                    dictionary@,
                    lower_spelling(old(word)@.push(l)),
                ) {
                    old(word)@.push(l)
                } else {
                    old(word)@
                },
                Action::Delete => final(word)@ == apply_to(old(word)@, Some(Action::Delete)),
            },
    {
        match self {
            Action::Append(letter) => {
                let mut candidate = word.letters().clone();
                candidate.push(*letter);
                if dictionary.accepts(&candidate) {
                    word.push(*letter);
                }
            },
            Action::Delete => {
                word.pop();
            },
        }
    }

    /// Tags the action with the entity and the side it is issued for.
    pub fn made_by(self, entity: u64, side: PlayerSide) -> (r: ActionEvent)
        ensures
            r == (ActionEvent { action: self, side, actor: entity }),
    {
        ActionEvent { action: self, side, actor: entity }
    }
}

} // verus!
