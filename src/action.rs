//! The actions that symbols perform, and their labels.

use vstd::prelude::*;

verus! {

/// One of six axis-aligned rotation directions.
#[derive(Clone, Copy, Debug, PartialEq, Eq, Structural, PartialOrd, Ord, Hash)]
pub enum Direction {
    XPos,
    XNeg,
    YPos,
    YNeg,
    ZPos,
    ZNeg,
}

/// What the turtle does when it meets a symbol.
#[derive(Clone, Copy, Debug, PartialEq, Eq, Structural, PartialOrd, Ord, Hash)]
pub enum Action {
    Nothing,
    Forwards,
    Rotate(Direction),
    Push,
    Pop,
}

/// The word that names a direction.
pub open spec fn direction_label(d: Direction) -> Seq<char> {
    match d {
        Direction::XPos => "right"@,
        Direction::XNeg => "left"@,
        Direction::YPos => "forwards"@,
        Direction::YNeg => "back"@,
        Direction::ZPos => "up"@,
        Direction::ZNeg => "down"@,
    }
}

/// The words that describe an action.
pub open spec fn action_label(a: Action) -> Seq<char> {
    match a {
        Action::Nothing => "Do nothing"@,
        Action::Forwards => "Move forwards"@,
        Action::Rotate(d) => "Rotate "@ + direction_label(d),
        Action::Push => "Push transform"@,
        Action::Pop => "Pop transform"@,
    }
}

impl Direction {
    /// The word that names the direction.
    pub fn label(&self) -> (r: &'static str)
        ensures
            r@ == direction_label(*self),
    {
        match self {
            Direction::XPos => "right",
            Direction::XNeg => "left",
            Direction::YPos => "forwards",
            Direction::YNeg => "back",
            Direction::ZPos => "up",
            Direction::ZNeg => "down",
        }
    }
}

impl Action {
    /// The words that describe the action.
    pub fn label(&self) -> (r: &'static str)
        ensures
            r@ == action_label(*self),
    {
        proof {
            reveal_strlit("Rotate ");
            reveal_strlit("right");
            reveal_strlit("left");
            reveal_strlit("forwards");
            reveal_strlit("back");
            reveal_strlit("up");
            reveal_strlit("down");
            reveal_strlit("Rotate right");
            reveal_strlit("Rotate left");
            reveal_strlit("Rotate forwards");
            reveal_strlit("Rotate back");
            reveal_strlit("Rotate up");
            reveal_strlit("Rotate down");
        }
        match self {
            Action::Nothing => "Do nothing",
            Action::Forwards => "Move forwards",
            Action::Rotate(Direction::XPos) => {
                assert("Rotate right"@ =~= "Rotate "@ + "right"@);
                "Rotate right"
            },
            Action::Rotate(Direction::XNeg) => {
                assert("Rotate left"@ =~= "Rotate "@ + "left"@);
                "Rotate left"
            },
            Action::Rotate(Direction::YPos) => {
                assert("Rotate forwards"@ =~= "Rotate "@ + "forwards"@);
                "Rotate forwards"
            },
            Action::Rotate(Direction::YNeg) => {
                assert("Rotate back"@ =~= "Rotate "@ + "back"@);
                "Rotate back"
            },
            Action::Rotate(Direction::ZPos) => {
                assert("Rotate up"@ =~= "Rotate "@ + "up"@);
                "Rotate up"
            },
            Action::Rotate(Direction::ZNeg) => {
                assert("Rotate down"@ =~= "Rotate "@ + "down"@);
                "Rotate down"
            },
            Action::Push => "Push transform",
            Action::Pop => "Pop transform",
        }
    }
}

} // verus!
