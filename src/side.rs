use vstd::prelude::*;

verus! {

/// One of the two fixed roles within a match.
#[derive(Clone, Copy, Debug, PartialEq, Eq, Structural, Hash)]
pub enum PlayerSide {
    Left,
    Right,
}

/// The side of the arena a word is written from; the same two roles.
pub type ArenaSide = PlayerSide;

impl PlayerSide {
    /// The other side.
    pub open spec fn other(self) -> PlayerSide {
        match self {
            PlayerSide::Left => PlayerSide::Right,
            PlayerSide::Right => PlayerSide::Left,
        }
    }

    pub fn is_left(&self) -> (r: bool)
        ensures
            r == (*self == PlayerSide::Left),
    {
        matches!(self, PlayerSide::Left)
    }

    pub fn is_right(&self) -> (r: bool)
        ensures
            r == (*self == PlayerSide::Right),
    {
        matches!(self, PlayerSide::Right)
    }

    /// Slot of the side in a two-element array: `Left` is 0, `Right` is 1.
    pub fn to_index(&self) -> (r: usize)
        ensures
            r < 2,
            r == 0 <==> *self == PlayerSide::Left,
    {
        match self {
            PlayerSide::Left => 0,
            PlayerSide::Right => 1,
        }
    }

    /// The opposite side.
    pub fn opposite(self) -> (r: PlayerSide)
        ensures
            r == self.other(),
            r != self,
    {
        match self {
            PlayerSide::Left => PlayerSide::Right,
            PlayerSide::Right => PlayerSide::Left,
        }
    }
}

impl std::ops::Not for PlayerSide {
    type Output = PlayerSide;

    fn not(self) -> (r: PlayerSide) {
        self.opposite()
    }
}

impl vstd::std_specs::ops::NotSpecImpl for PlayerSide {
    open spec fn obeys_not_spec() -> bool {
        true
    }

    open spec fn not_req(self) -> bool {
        true
    }

    open spec fn not_spec(self) -> PlayerSide {
        self.other()
    }
}

} // verus!
