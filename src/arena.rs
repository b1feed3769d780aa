use vstd::prelude::*;

use crate::action::{apply_to, Action};
use crate::letters::Letter;
use crate::side::PlayerSide;
use crate::word::Word;

verus! {

/// What a strike decides.
#[derive(Clone, Copy, Debug, PartialEq, Eq, Structural)]
pub enum Strike {
    /// The side scores one point.
    Point(PlayerSide),
    /// Nobody scores: equal last letters, or the words overflowed the arena.
    Parry,
}

/// The words do not yet fill the arena.
#[derive(Clone, Copy, Debug, PartialEq, Eq, Structural)]
pub enum ArenaError {
    NotInRange { left: usize, right: usize, total: usize },
}

/// Rank of the last letter of a word, -1 for an empty word (an absent letter
/// orders below every letter).
pub open spec fn last_rank(w: Seq<Letter>) -> int {
    if w.len() == 0 {
        -1
    } else {
        w.last().rank() as int
    }
}

/// The strike that two words decide in an arena of `size`, or `None` while
/// their combined length is below `size`.
pub open spec fn strike_of(size: nat, left: Seq<Letter>, right: Seq<Letter>) -> Option<Strike> {
    let total = left.len() + right.len();
    if total < size {
        None
    } else if total > size {
        Some(Strike::Parry)
    } else if last_rank(left) > last_rank(right) {
        Some(Strike::Point(PlayerSide::Left))
    } else if last_rank(left) < last_rank(right) {
        Some(Strike::Point(PlayerSide::Right))
    } else {
        Some(Strike::Parry)
    }
}

/// While the two words together are shorter than the arena, nothing strikes.
pub proof fn lemma_below_size_no_strike(size: nat, left: Seq<Letter>, right: Seq<Letter>)
    requires
        left.len() + right.len() < size,
    ensures
        strike_of(size, left, right) is None,
{
}

/// When the words exactly fill the arena, the side whose last letter is
/// later in the alphabet scores.
pub proof fn lemma_higher_last_letter_scores(size: nat, left: Seq<Letter>, right: Seq<Letter>)
    requires
        left.len() + right.len() == size,
        left.len() > 0,
        right.len() > 0,
        left.last().rank() != right.last().rank(),
    ensures
        strike_of(size, left, right) == Some(Strike::Point(
            if left.last().rank() > right.last().rank() {
                PlayerSide::Left
            } else {
                PlayerSide::Right
            },
        )),
{
}

/// When the words exactly fill the arena and one side's word is empty, the
/// other side scores.
pub proof fn lemma_empty_side_loses(size: nat, left: Seq<Letter>, right: Seq<Letter>)
    requires
        left.len() + right.len() == size,
        left.len() == 0 || right.len() == 0,
        left.len() + right.len() > 0,
    ensures
        strike_of(size, left, right) == Some(Strike::Point(
            if left.len() > 0 {
                PlayerSide::Left
            } else {
                PlayerSide::Right
            },
        )),
{
}

/// When the words exactly fill the arena and end in the same letter,
/// nobody scores.
pub proof fn lemma_equal_last_letters_parry(size: nat, left: Seq<Letter>, right: Seq<Letter>)
    requires
        left.len() + right.len() == size,
        left.len() > 0,
        right.len() > 0,
        left.last() == right.last(),
    ensures
        strike_of(size, left, right) == Some(Strike::Parry),
{
}

/// When the words overflow the arena, nobody scores, whatever the letters.
pub proof fn lemma_overflow_parries(size: nat, left: Seq<Letter>, right: Seq<Letter>)
    requires
        left.len() + right.len() > size,
    ensures
        strike_of(size, left, right) == Some(Strike::Parry),
{
}

/// Two appends in one tick to words that together fall one letter short
/// overflow the arena: nobody scores, and the resolver empties both words.
pub proof fn lemma_simultaneous_appends_parry(
    size: nat,
    left: Seq<Letter>,
    right: Seq<Letter>,
    a: Letter,
    b: Letter,
)
    requires
        left.len() + right.len() + 1 == size,
    ensures
        strike_of(
            size,
            apply_to(left, Some(Action::Append(a))),
            apply_to(right, Some(Action::Append(b))),
        ) == Some(Strike::Parry),
{
}

/// The arena's contents as values: its capacity and the word of each side.
pub ghost struct ArenaView {
    pub size: nat,
    pub left: Seq<Letter>,
    pub right: Seq<Letter>,
}

impl ArenaView {
    pub open spec fn word(self, side: PlayerSide) -> Seq<Letter> {
        match side {
            PlayerSide::Left => self.left,
            PlayerSide::Right => self.right,
        }
    }

    pub open spec fn strike(self) -> Option<Strike> {
        strike_of(self.size, self.left, self.right)
    }
}

/// The bounded buffer of one match, holding one word per side.
#[derive(Clone, Debug)]
pub struct Arena {
    size: usize,
    left: Word,
    right: Word,
}

impl View for Arena {
    type V = ArenaView;

    closed spec fn view(&self) -> ArenaView {
        ArenaView { size: self.size as nat, left: self.left@, right: self.right@ }
    }
}

impl Arena {
    /// An empty arena of the given capacity.
    pub fn new(size: usize) -> (r: Arena)
        ensures
            r@.size == size,
            r@.left == Seq::<Letter>::empty(),
            r@.right == Seq::<Letter>::empty(),
    {
        Arena { size, left: Word::new(), right: Word::new() }
    }

    pub fn size(&self) -> (r: usize)
        ensures
            r == self@.size,
    {
        self.size
    }

    pub fn word(&self, side: PlayerSide) -> (r: &Word)
        ensures
            r@ == self@.word(side),
    {
        match side {
            PlayerSide::Left => &self.left,
            PlayerSide::Right => &self.right,
        }
    }

    /// Replaces the word of one side.
    pub fn set_word(&mut self, side: PlayerSide, word: Word)
        ensures
            final(self)@.size == old(self)@.size,
            final(self)@.word(side) == word@,
            final(self)@.word(side.other()) == old(self)@.word(side.other()),
    {
        match side {
            PlayerSide::Left => self.left = word,
            PlayerSide::Right => self.right = word,
        }
    }

    pub fn add_letter(&mut self, letter: Letter, side: PlayerSide)
        ensures
            final(self)@.size == old(self)@.size,
            final(self)@.word(side) == old(self)@.word(side).push(letter),
            final(self)@.word(side.other()) == old(self)@.word(side.other()),
    {
        match side {
            PlayerSide::Left => self.left.push(letter),
            PlayerSide::Right => self.right.push(letter),
        }
    }

    /// Pops the last letter of one side's word; an empty word stays empty.
    pub fn remove_letter(&mut self, side: PlayerSide) -> (r: Option<Letter>)
        ensures
            final(self)@.size == old(self)@.size,
            final(self)@.word(side) == apply_to(old(self)@.word(side), Some(Action::Delete)),
            final(self)@.word(side.other()) == old(self)@.word(side.other()),
            r == (if old(self)@.word(side).len() == 0 {
                None
            } else {
                Some(old(self)@.word(side).last())
            }),
    {
        match side {
            PlayerSide::Left => self.left.pop(),
            PlayerSide::Right => self.right.pop(),
        }
    }

    /// Lengths of the left and the right word.
    pub fn word_sizes(&self) -> (r: (usize, usize))
        ensures
            r.0 == self@.left.len(),
            r.1 == self@.right.len(),
    {
        (self.left.len(), self.right.len())
    }

    /// Empties both words.
    pub fn clear(&mut self)
        ensures
            final(self)@.size == old(self)@.size,
            final(self)@.left == Seq::<Letter>::empty(),
            final(self)@.right == Seq::<Letter>::empty(),
    {
        self.left.clear();
        self.right.clear();
    }

    /// Applies one optional action to one side's word.
    pub fn apply(&mut self, action: Option<Action>, side: PlayerSide)
        ensures
            final(self)@.size == old(self)@.size,
            final(self)@.word(side) == apply_to(old(self)@.word(side), action),
            final(self)@.word(side.other()) == old(self)@.word(side.other()),
    {
        match action {
            Some(Action::Append(letter)) => self.add_letter(letter, side),
            Some(Action::Delete) => {
                self.remove_letter(side);
            },
            None => {},
        }
    }

    /// Evaluates the current words: the strike they decide, or `NotInRange`
    /// with both lengths while they do not yet fill the arena.
    pub fn strike(&self) -> (r: Result<Strike, ArenaError>)
        ensures
            match r {
                Ok(s) => self@.strike() == Some(s),
                Err(e) => self@.strike() is None && e == (ArenaError::NotInRange {
                    left: self@.left.len() as usize,
                    right: self@.right.len() as usize,
                    total: self@.size as usize,
                }),
            },
    {
        let l = self.left.len();
        let r = self.right.len();
        // l + r compared with size, without forming the sum
        if l > self.size || r > self.size - l {
            return Ok(Strike::Parry);
        }
        if r < self.size - l {
            return Err(ArenaError::NotInRange { left: l, right: r, total: self.size });
        }
        let left_rank: i16 = match self.left.last() {
            Some(letter) => letter.index() as i16,
            None => -1,
        };
        let right_rank: i16 = match self.right.last() {
            Some(letter) => letter.index() as i16,
            None => -1,
        };
        if left_rank > right_rank {
            Ok(Strike::Point(PlayerSide::Left))
        } else if left_rank < right_rank {
            Ok(Strike::Point(PlayerSide::Right))
        } else {
            Ok(Strike::Parry)
        }
    }

    /// Applies the tick's actions, left then right, and only then evaluates
    /// the strike of the resulting words.
    pub fn execute_actions(&mut self, actions: [Option<Action>; 2]) -> (r: Result<
        Strike,
        ArenaError,
    >)
        ensures
            final(self)@ == (ArenaView {
                size: old(self)@.size,
                left: apply_to(old(self)@.left, actions@[0]),
                right: apply_to(old(self)@.right, actions@[1]),
            }),
            match r {
                Ok(s) => final(self)@.strike() == Some(s),
                Err(e) => final(self)@.strike() is None && e == (ArenaError::NotInRange {
                    left: final(self)@.left.len() as usize,
                    right: final(self)@.right.len() as usize,
                    total: final(self)@.size as usize,
                }),
            },
    {
        self.apply(actions[0], PlayerSide::Left);
        self.apply(actions[1], PlayerSide::Right);
        self.strike()
    }

    /// One tick of the resolver: applies both sides' actions, evaluates, and
    /// on a strike empties both words. Returns the strike, if one happened.
    pub fn resolve(&mut self, actions: [Option<Action>; 2]) -> (r: Option<Strike>)
        ensures
            r == strike_of(
                old(self)@.size,
                apply_to(old(self)@.left, actions@[0]),
                apply_to(old(self)@.right, actions@[1]),
            ),
            final(self)@.size == old(self)@.size,
            r is Some ==> final(self)@.left == Seq::<Letter>::empty() && final(self)@.right
                == Seq::<Letter>::empty(),
            r is None ==> final(self)@.left == apply_to(old(self)@.left, actions@[0])
                && final(self)@.right == apply_to(old(self)@.right, actions@[1]),
    {
        match self.execute_actions(actions) {
            Ok(strike) => {
                self.clear();
                Some(strike)
            },
            Err(_) => None,
        }
    }
}

} // verus!
