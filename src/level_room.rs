use vstd::prelude::*;
use vstd::string::StringExecFns;

use crate::direction::Direction;
use crate::exits::{entry_exits, Exits};
use crate::room::{describe_exits, room_info, Room};

verus! {

/// A room with a fixed description and its exit set.
pub struct LevelRoom {
    pub description: String,
    pub exits: Exits,
}

impl Room for LevelRoom {
    open spec fn spec_description(&self) -> Seq<char> {
        self.description@
    }

    open spec fn spec_exits(&self) -> Set<Direction> {
        self.exits@
    }

    fn get_exits(&self) -> (r: Exits) {
        self.exits
    }

    fn get_info(&self) -> (r: String) {
        let mut r = self.description.clone();
        r.append("\n");
        let sentence = describe_exits(self.exits);
        r.append(sentence.as_str());
        r
    }

    fn new(description: String, exits: Exits) -> (r: Self) {
        LevelRoom { description, exits }
    }

    fn new_random_with_entry(description: String, entry_direction: Direction) -> (r: Self) {
        let exits = Exits::random_exits_with_entry(entry_direction);
        LevelRoom { description, exits }
    }
}

} // verus!
