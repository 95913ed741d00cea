use vstd::prelude::*;

use crate::room::Room;

verus! {

/// The number of a level: a main number, and for a sub-level its own number.
#[derive(Clone, Copy, Debug, PartialEq, Eq, Structural)]
pub struct LevelNumber {
    pub main: u16,
    pub sub: Option<u16>,
}

impl LevelNumber {
    /// The number of a main level.
    pub fn new_main(main: u16) -> (r: Self)
        ensures
            r.main == main,
            r.sub == None::<u16>,
    {
        LevelNumber { main, sub: None }
    }

    /// The number of sub-level `sub` of main level `main`.
    pub fn new_sub(main: u16, sub: u16) -> (r: Self)
        ensures
            r.main == main,
            r.sub == Some(sub),
    {
        LevelNumber { main, sub: Some(sub) }
    }
}

/// A named level and the room it starts in.
pub struct Level<T: Room> {
    number: LevelNumber,
    name: String,
    room: T,
}

impl<T: Room> Level<T> {
    /// The level's number.
    pub closed spec fn spec_number(&self) -> LevelNumber {
        self.number
    }

    /// The level's name.
    pub closed spec fn spec_name(&self) -> Seq<char> {
        self.name@
    }

    /// The room the level starts in.
    pub closed spec fn spec_room(&self) -> T {
        self.room
    }

    /// Main level `main_num`.
    pub fn new_main(main_num: u16, name: String, room: T) -> (r: Self)
        ensures
            r.spec_number() == (LevelNumber { main: main_num, sub: None }),
            r.spec_name() == name@,
            r.spec_room() == room,
    {
        let number = LevelNumber::new_main(main_num);
        Level { number, name, room }
    }

    /// Sub-level `sub_num` of main level `main_num`.
    pub fn new_sub(main_num: u16, sub_num: u16, name: String, room: T) -> (r: Self)
        ensures
            r.spec_number() == (LevelNumber { main: main_num, sub: Some(sub_num) }),
            r.spec_name() == name@,
            r.spec_room() == room,
    {
        let number = LevelNumber::new_sub(main_num, sub_num);
        Level { number, name, room }
    }

    /// The level's number.
    pub fn number(&self) -> (r: LevelNumber)
        ensures
            r == self.spec_number(),
    {
        self.number
    }

    /// The level's name.
    pub fn name(&self) -> (r: &String)
        ensures
            r@ == self.spec_name(),
    {
        &self.name
    }

    /// The room the level starts in.
    pub fn room(&self) -> (r: &T)
        ensures
            *r == self.spec_room(),
    {
        &self.room
    }
}

} // verus!
