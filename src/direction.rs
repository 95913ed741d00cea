use vstd::prelude::*;
use vstd::string::StringExecFns;

verus! {

/// One of the six ways out of a room.
#[derive(Clone, Copy, Debug, PartialEq, Eq, Structural)]
pub enum Direction {
    North,
    East,
    South,
    West,
    Up,
    Down,
}

impl Direction {
    /// The direction that leads back the way one came.
    pub open spec fn spec_opposite(self) -> Direction {
        match self {
            Direction::North => Direction::South,
            Direction::East => Direction::West,
            Direction::South => Direction::North,
            Direction::West => Direction::East,
            Direction::Up => Direction::Down,
            Direction::Down => Direction::Up,
        }
    }

    /// The lower-case word for the direction.
    pub open spec fn spec_name(self) -> Seq<char> {
        match self {
            Direction::North => "north"@,
            Direction::East => "east"@,
            Direction::South => "south"@,
            Direction::West => "west"@,
            Direction::Up => "up"@,
            Direction::Down => "down"@,
        }
    }

    pub fn opposite(self) -> (r: Direction)
        ensures
            r == self.spec_opposite(),
    {
        match self {
            Direction::North => Direction::South,
            Direction::East => Direction::West,
            Direction::South => Direction::North,
            Direction::West => Direction::East,
            Direction::Up => Direction::Down,
            Direction::Down => Direction::Up,
        }
    }

    pub fn name(self) -> (r: &'static str)
        ensures
            r@ == self.spec_name(),
    {
        match self {
            Direction::North => "north",
            Direction::East => "east",
            Direction::South => "south",
            Direction::West => "west",
            Direction::Up => "up",
            Direction::Down => "down",
        }
    }

    /// The direction written as a lower-case word.
    pub fn to_string(&self) -> (r: String)
        ensures
            r@ == self.spec_name(),
    {
        String::from_str(self.name())
    }
}

/// Turning round twice faces the first way again.
pub proof fn lemma_opposite_involutive(d: Direction)
    ensures
        d.spec_opposite().spec_opposite() == d,
{
}

/// No direction is its own opposite.
pub proof fn lemma_opposite_differs(d: Direction)
    ensures
        d.spec_opposite() != d,
{
}

} // verus!
