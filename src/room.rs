use vstd::prelude::*;
use vstd::string::StringExecFns;

use crate::direction::Direction;
use crate::exits::{entry_exits, members_upto, Exits};

verus! {

/// The names of the compass exits of `e`, in the order north, east, south,
/// west. Vertical exits are not named.
pub open spec fn exit_words(e: Set<Direction>) -> Seq<Seq<char>> {
    members_upto(e, 4).map_values(|d: Direction| d.spec_name())
}

/// The words joined by `", "`.
pub open spec fn join_commas(words: Seq<Seq<char>>) -> Seq<char>
    decreases words.len(),
{
    if words.len() == 0 {
        Seq::empty()
    } else if words.len() == 1 {
        words[0]
    } else {
        join_commas(words.drop_last()) + ", "@ + words.last()
    }
}

/// `none` for no word, the word itself for one, and otherwise all but the
/// last joined by commas, then `and` and the last.
pub open spec fn list_phrase(words: Seq<Seq<char>>) -> Seq<char> {
    if words.len() == 0 {
        "none"@
    } else if words.len() == 1 {
        words[0]
    } else {
        join_commas(words.drop_last()) + " and "@ + words.last()
    }
}

/// The sentence that lists a room's exits.
pub open spec fn exits_sentence(e: Set<Direction>) -> Seq<char> {
    "Exits are "@ + list_phrase(exit_words(e))
}

/// A room's description followed, on the next line, by its exits.
pub open spec fn room_info(description: Seq<char>, e: Set<Direction>) -> Seq<char> {
    description + "\n"@ + exits_sentence(e)
}

/// What the map asks of a room: its exits, its text, and two ways to build
/// one.
pub trait Room: Sized {
    /// The room's own text.
    spec fn spec_description(&self) -> Seq<char>;

    /// The directions through which the room can be left.
    spec fn spec_exits(&self) -> Set<Direction>;

    /// The room's exits.
    fn get_exits(&self) -> (r: Exits)
        ensures
            r@ == self.spec_exits(),
    ;

    /// The room's text, then a line that lists its compass exits.
    fn get_info(&self) -> (r: String)
        ensures
            r@ == room_info(self.spec_description(), self.spec_exits()),
    ;

    /// A room with the given text and exits.
    fn new(description: String, exits: Exits) -> (r: Self)
        ensures
            r.spec_description() == description@,
            r.spec_exits() == exits@,
    ;

    /// A room with the given text whose exits come from
    /// `Exits::random_exits_with_entry`: it always has the way back.
    fn new_random_with_entry(description: String, entry_direction: Direction) -> (r: Self)
        ensures
            r.spec_description() == description@,
            entry_exits(r.spec_exits(), entry_direction),
    ;
}

/// The sentence that lists the compass exits of `exits`, such as
/// `Exits are north, east and south`.
pub fn describe_exits(exits: Exits) -> (r: String)
    ensures
        r@ == exits_sentence(exits@),
{
    let dirs = exits.members_upto(4);
    let ghost words = exit_words(exits@);
    assert(words.len() == dirs@.len());
    let n = dirs.len();
    let mut r = String::from_str("Exits are ");
    if n == 0 {
        r.append("none");
    } else {
        let mut i: usize = 0;
        while i + 1 < n
            invariant
                0 < n == dirs.len() == words.len(),
                i + 1 <= n,
                words == exit_words(exits@),
                dirs@ == members_upto(exits@, 4),
                r@ == "Exits are "@ + join_commas(words.subrange(0, i as int)),
            decreases n - i,
        {
            if i > 0 {
                r.append(", ");
            }
            r.append(dirs[i].name());
            proof {
                let next = words.subrange(0, i + 1);
                assert(next[i as int] == dirs[i as int].spec_name());
                if i > 0 {
                    assert(next.drop_last() =~= words.subrange(0, i as int));
                } else {
                    assert(join_commas(words.subrange(0, 0)) == Seq::<char>::empty());
                }
            }
            i += 1;
        }
        if n > 1 {
            r.append(" and ");
        }
        r.append(dirs[n - 1].name());
        proof {
            assert(words.drop_last() =~= words.subrange(0, n - 1));
            if n == 1 {
                assert(words.subrange(0, 0) =~= Seq::<Seq<char>>::empty());
            }
        }
    }
    r
}

} // verus!
