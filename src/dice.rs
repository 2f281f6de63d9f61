//! The six faces of a die.
use vstd::prelude::*;

verus! {

/// One die face, ordered by its pips.
#[derive(Copy, Clone, Debug, PartialEq, Eq, Structural, Hash)]
pub enum Dice {
    One,
    Two,
    Three,
    Four,
    Five,
    Six,
}

impl Dice {
    /// The number of pips on this face, 1 to 6.
    pub open spec fn face(self) -> int {
        match self {
            Dice::One => 1,
            Dice::Two => 2,
            Dice::Three => 3,
            Dice::Four => 4,
            Dice::Five => 5,
            Dice::Six => 6,
        }
    }

    /// The face with `v` pips, for `v` from 1 to 6.
    pub open spec fn with_face(v: int) -> Dice {
        if v <= 1 {
            Dice::One
        } else if v == 2 {
            Dice::Two
        } else if v == 3 {
            Dice::Three
        } else if v == 4 {
            Dice::Four
        } else if v == 5 {
            Dice::Five
        } else {
            Dice::Six
        }
    }

    pub fn value(&self) -> (r: u8)
        ensures
            r == self.face(),
    {
        match self {
            Dice::One => 1,
            Dice::Two => 2,
            Dice::Three => 3,
            Dice::Four => 4,
            Dice::Five => 5,
            Dice::Six => 6,
        }
    }

    /// Every face, from one pip up to six.
    pub fn all() -> (r: Vec<Dice>)
        ensures
            r@.len() == 6,
            forall|i: int| 0 <= i < 6 ==> #[trigger] r@[i].face() == i + 1,
            forall|i: int| 0 <= i < 6 ==> #[trigger] r@[i] == Dice::with_face(i + 1),
    {
        vec![Dice::One, Dice::Two, Dice::Three, Dice::Four, Dice::Five, Dice::Six]
    }

    /// Two faces with the same pips are the same face.
    pub proof fn lemma_face_injective(a: Dice, b: Dice)
        requires
            a.face() == b.face(),
        ensures
            a == b,
    {
    }
}

} // verus!
