use vstd::prelude::*;
use vstd::set_lib::{lemma_len_subset, lemma_subset_equality};

use crate::direction::Direction;

verus! {

/// The bit that stands for a direction in an exit mask.
pub open spec fn dir_bit(d: Direction) -> u8 {
    match d {
        Direction::North => 1u8,
        Direction::East => 2u8,
        Direction::South => 4u8,
        Direction::West => 8u8,
        Direction::Up => 16u8,
        Direction::Down => 32u8,
    }
}

/// The position of a direction in the fixed order north, east, south, west,
/// up, down.
pub open spec fn dir_rank(d: Direction) -> int {
    match d {
        Direction::North => 0,
        Direction::East => 1,
        Direction::South => 2,
        Direction::West => 3,
        Direction::Up => 4,
        Direction::Down => 5,
    }
}

/// Every direction.
pub open spec fn all_directions() -> Set<Direction> {
    set![
        Direction::North,
        Direction::East,
        Direction::South,
        Direction::West,
        Direction::Up,
        Direction::Down,
    ]
}

/// The four compass directions.
pub open spec fn horizontal() -> Set<Direction> {
    set![Direction::North, Direction::East, Direction::South, Direction::West]
}

/// A set of directions through which a room can be left, kept as a bitmask.
#[derive(Clone, Copy, Debug, PartialEq, Eq, Structural)]
pub struct Exits {
    bits: u8,
}

impl View for Exits {
    type V = Set<Direction>;

    closed spec fn view(&self) -> Set<Direction> {
        Set::new(|d: Direction| self.bits & dir_bit(d) != 0)
    }
}

/// An exit set never holds more than the six directions.
pub broadcast proof fn lemma_exits_finite(e: Exits)
    ensures
        #[trigger] e@.finite(),
        e@.len() <= 6,
{
    assert(e@.subset_of(all_directions()));
    lemma_len_subset(e@, all_directions());
}

proof fn lemma_bit_ops(a: u8, b: u8)
    ensures
        forall|d: Direction| (#[trigger] ((a | b) & dir_bit(d)) != 0) == ((a & dir_bit(d)) != 0 || (b & dir_bit(d)) != 0),
        forall|d: Direction| (#[trigger] ((a & !b) & dir_bit(d)) != 0) == ((a & dir_bit(d)) != 0 && (b & dir_bit(d)) == 0),
        (a & 63u8 == 0) == (forall|d: Direction| #[trigger] (a & dir_bit(d)) == 0),
{
    assert(forall|m: u8| ((a | b) & m != 0) == ((a & m != 0) || (b & m != 0))) by (bit_vector);
    assert(forall|m: u8|
        (m == 1u8 || m == 2u8 || m == 4u8 || m == 8u8 || m == 16u8 || m == 32u8) ==>
        (((a & !b) & m != 0) == ((a & m != 0) && (b & m == 0)))) by (bit_vector);
    assert((a & 63u8 == 0) == (a & 1u8 == 0 && a & 2u8 == 0 && a & 4u8 == 0 && a & 8u8 == 0
        && a & 16u8 == 0 && a & 32u8 == 0)) by (bit_vector);
    if a & 63u8 == 0 {
        assert forall|d: Direction| #[trigger] (a & dir_bit(d)) == 0 by {
        }
    }
    if forall|d: Direction| #[trigger] (a & dir_bit(d)) == 0 {
        assert(a & dir_bit(Direction::North) == 0);
        assert(a & dir_bit(Direction::East) == 0);
        assert(a & dir_bit(Direction::South) == 0);
        assert(a & dir_bit(Direction::West) == 0);
        assert(a & dir_bit(Direction::Up) == 0);
        assert(a & dir_bit(Direction::Down) == 0);
    }
}

impl Exits {
    fn bit(d: Direction) -> (r: u8)
        ensures
            r == dir_bit(d),
    {
        match d {
            Direction::North => 1,
            Direction::East => 2,
            Direction::South => 4,
            Direction::West => 8,
            Direction::Up => 16,
            Direction::Down => 32,
        }
    }

    /// The set with no exit.
    pub fn empty() -> (r: Exits)
        ensures
            r@ == Set::<Direction>::empty(),
    {
        let r = Exits { bits: 0 };
        assert(forall|d: Direction| 0u8 & #[trigger] dir_bit(d) == 0) by {
            assert(forall|m: u8| 0u8 & m == 0) by (bit_vector);
        }
        assert(r@ =~= Set::<Direction>::empty());
        r
    }

    /// North, east, south and west.
    pub fn all_2d() -> (r: Exits)
        ensures
            r@ == horizontal(),
    {
        let r = Exits { bits: 15 };
        assert(15u8 & 1u8 != 0 && 15u8 & 2u8 != 0 && 15u8 & 4u8 != 0 && 15u8 & 8u8 != 0
            && 15u8 & 16u8 == 0 && 15u8 & 32u8 == 0) by (bit_vector);
        assert(r@ =~= horizontal());
        r
    }

    /// Whether `d` is an exit.
    pub fn contains(&self, d: Direction) -> (r: bool)
        ensures
            r == self@.contains(d),
    {
        self.bits & Self::bit(d) != 0
    }

    /// Whether there is no exit at all.
    pub fn is_empty(&self) -> (r: bool)
        ensures
            r == (self@ == Set::<Direction>::empty()),
    {
        proof {
            lemma_bit_ops(self.bits, 0);
            if self@ == Set::<Direction>::empty() {
                assert forall|d: Direction| #[trigger] (self.bits & dir_bit(d)) == 0 by {
                    assert(!self@.contains(d));
                }
            }
            if self.bits & 63u8 == 0 {
                assert(self@ =~= Set::<Direction>::empty());
            }
        }
        self.bits & 63 == 0
    }

    /// The exits of either set.
    pub fn union(self, other: Exits) -> (r: Exits)
        ensures
            r@ == self@.union(other@),
    {
        let r = Exits { bits: self.bits | other.bits };
        proof {
            lemma_bit_ops(self.bits, other.bits);
            assert(r@ =~= self@.union(other@));
        }
        r
    }

    /// The exits of `self` that are not in `other`.
    pub fn difference(self, other: Exits) -> (r: Exits)
        ensures
            r@ == self@.difference(other@),
    {
        let r = Exits { bits: self.bits & !other.bits };
        proof {
            lemma_bit_ops(self.bits, other.bits);
            assert(r@ =~= self@.difference(other@));
        }
        r
    }

    /// Adds the exit `d`.
    pub fn insert(&mut self, d: Direction)
        ensures
            final(self)@ == old(self)@.insert(d),
    {
        let one = Exits::from(d);
        *self = self.union(one);
        assert(final(self)@ =~= old(self)@.insert(d));
    }

    /// Takes the exit `d` away.
    pub fn remove(&mut self, d: Direction)
        ensures
            final(self)@ == old(self)@.remove(d),
    {
        let one = Exits::from(d);
        *self = self.difference(one);
        assert(final(self)@ =~= old(self)@.remove(d));
    }
}

/// The direction at a given position of the fixed order.
pub open spec fn dir_of_rank(i: int) -> Direction {
    if i == 0 {
        Direction::North
    } else if i == 1 {
        Direction::East
    } else if i == 2 {
        Direction::South
    } else if i == 3 {
        Direction::West
    } else if i == 4 {
        Direction::Up
    } else {
        Direction::Down
    }
}

/// The members of `e` among the first `n` directions of the fixed order, in
/// that order.
pub open spec fn members_upto(e: Set<Direction>, n: int) -> Seq<Direction>
    decreases n,
{
    if n <= 0 {
        Seq::empty()
    } else if e.contains(dir_of_rank(n - 1)) {
        members_upto(e, n - 1).push(dir_of_rank(n - 1))
    } else {
        members_upto(e, n - 1)
    }
}

/// The smaller of two counts.
pub open spec fn min_count(a: int, b: int) -> int {
    if a <= b {
        a
    } else {
        b
    }
}

/// How many exits beyond the way back a generated room asks for, given a
/// roll in `0..100`: four (all of the compass) on 80 and above, two on 60 to
/// 79, one on 30 to 59, none below.
pub open spec fn extra_exits_for_roll(roll: int) -> int {
    if roll >= 80 {
        4
    } else if roll >= 60 {
        2
    } else if roll >= 30 {
        1
    } else {
        0
    }
}

/// The exit sets that room generation may give a room entered by moving
/// `entry`: the way back, plus none, one, two or all of the other compass
/// directions.
pub open spec fn entry_exits(e: Set<Direction>, entry: Direction) -> bool {
    let back = entry.spec_opposite();
    let pool = horizontal().remove(back);
    let extra = e.remove(back);
    &&& e.contains(back)
    &&& extra.subset_of(pool)
    &&& (extra.len() == 0 || extra.len() == 1 || extra.len() == 2 || extra == pool)
}

/// Relies on rand::random_range: a value drawn from `0..bound` (it panics on
/// an empty range).
#[verifier::external_body]
fn random_below(bound: u32) -> (r: u32)
    requires
        0 < bound,
    ensures
        r < bound,
{
    rand::random_range(0..bound)
}

fn direction_of_rank(i: usize) -> (r: Direction)
    requires
        i < 6,
    ensures
        r == dir_of_rank(i as int),
        dir_rank(r) == i,
{
    if i == 0 {
        Direction::North
    } else if i == 1 {
        Direction::East
    } else if i == 2 {
        Direction::South
    } else if i == 3 {
        Direction::West
    } else if i == 4 {
        Direction::Up
    } else {
        Direction::Down
    }
}

impl Exits {
    /// The members among the first `n` directions of the fixed order.
    pub(crate) fn members_upto(&self, n: usize) -> (r: Vec<Direction>)
        requires
            n <= 6,
        ensures
            r@ == members_upto(self@, n as int),
            forall|d: Direction| r@.contains(d) <==> (self@.contains(d) && dir_rank(d) < n),
            forall|a: int, b: int| 0 <= a < b < r.len() ==> dir_rank(r[a]) < dir_rank(r[b]),
    {
        let mut r: Vec<Direction> = Vec::new();
        let mut i: usize = 0;
        while i < n
            invariant
                i <= n <= 6,
                r@ == members_upto(self@, i as int),
                forall|d: Direction| r@.contains(d) <==> (self@.contains(d) && dir_rank(d) < i),
                forall|a: int, b: int| 0 <= a < b < r.len() ==> dir_rank(r[a]) < dir_rank(r[b]),
                forall|a: int| 0 <= a < r.len() ==> dir_rank(#[trigger] r[a]) < i,
            decreases n - i,
        {
            let d = direction_of_rank(i);
            if self.contains(d) {
                proof {
                    assert forall|x: Direction| r@.push(d).contains(x) <==> (r@.contains(x) || x == d) by {
                        if r@.contains(x) {
                            let k = choose|k: int| 0 <= k < r@.len() && r@[k] == x;
                            assert(r@.push(d)[k] == x);
                        }
                        if x == d {
                            assert(r@.push(d)[r.len() as int] == d);
                        }
                        if r@.push(d).contains(x) && x != d {
                            let k = choose|k: int| 0 <= k < r@.push(d).len() && r@.push(d)[k] == x;
                            assert(r@[k] == x);
                        }
                    }
                }
                r.push(d);
            }
            i += 1;
        }
        r
    }

    /// The members in the fixed order north, east, south, west, up, down.
    pub fn members(&self) -> (r: Vec<Direction>)
        ensures
            r@ == members_upto(self@, 6),
            r@.no_duplicates(),
            r@.to_set() == self@,
            r.len() == self@.len(),
    {
        let r = self.members_upto(6);
        proof {
            assert(r@.to_set() =~= self@);
            r@.unique_seq_to_set();
        }
        r
    }

    /// Up to `num_exits` distinct directions of `available_exits`, drawn at
    /// random without replacement: all of them where there are no more.
    pub fn random_exits(num_exits: u8, available_exits: Exits) -> (r: Exits)
        ensures
            r@.subset_of(available_exits@),
            r@.len() == min_count(num_exits as int, available_exits@.len() as int),
    {
        broadcast use lemma_exits_finite;

        let mut generated = Exits::empty();
        let mut available = available_exits;
        let mut n: u8 = 0;
        while n < num_exits
            invariant
                n <= num_exits,
                generated@.subset_of(available_exits@),
                available@ == available_exits@.difference(generated@),
                generated@.len() == n,
            ensures
                n == num_exits || available@ == Set::<Direction>::empty(),
                generated@.subset_of(available_exits@),
                available@ == available_exits@.difference(generated@),
                generated@.len() == n,
            decreases num_exits - n,
        {
            if available.is_empty() {
                break;
            }
            let options = available.members();
            proof {
                lemma_exits_finite(available);
                if available@.len() == 0 {
                    available@.lemma_len0_is_empty();
                }
            }
            let k = random_below(options.len() as u32) as usize;
            let chosen = options[k];
            assert(options@.to_set().contains(chosen));
            assert(!generated@.contains(chosen));
            proof {
                lemma_exits_finite(generated);
            }
            generated.insert(chosen);
            available.remove(chosen);
            proof {
                assert(available@ =~= available_exits@.difference(generated@));
            }
            n = n + 1;
        }
        proof {
            lemma_len_subset(generated@, available_exits@);
            if available@ == Set::<Direction>::empty() {
                assert(generated@ =~= available_exits@) by {
                    assert forall|d: Direction| available_exits@.contains(d) implies generated@.contains(d) by {
                        if !generated@.contains(d) {
                            assert(available@.contains(d));
                        }
                    }
                }
            }
        }
        generated
    }

    /// The number of extra exits asked for on a roll.
    pub fn extra_exit_count(roll: u32) -> (r: u8)
        ensures
            r as int == extra_exits_for_roll(roll as int),
    {
        if roll >= 80 {
            4
        } else if roll >= 60 {
            2
        } else if roll >= 30 {
            1
        } else {
            0
        }
    }

    /// Exits for a room entered by moving `entry_direction`, given a roll in
    /// `0..100`: the way back, and as many other compass directions as
    /// `extra_exit_count(roll)` asks for, drawn at random (all of them where
    /// fewer remain).
    pub fn exits_for_roll(entry_direction: Direction, roll: u32) -> (r: Exits)
        ensures
            entry_exits(r@, entry_direction),
            r@.remove(entry_direction.spec_opposite()).len() == min_count(
                extra_exits_for_roll(roll as int),
                horizontal().remove(entry_direction.spec_opposite()).len() as int,
            ),
    {
        broadcast use lemma_exits_finite;

        let back = Exits::from(entry_direction.opposite());
        let count = Exits::extra_exit_count(roll);
        let pool = Exits::all_2d().difference(back);
        let extra = Exits::random_exits(count, pool);
        let r = back.union(extra);
        proof {
            let b = entry_direction.spec_opposite();
            assert(pool@ =~= horizontal().remove(b));
            assert(r@.remove(b) =~= extra@);
            assert(horizontal().len() == 4);
            lemma_len_subset(pool@, horizontal());
            if count == 4 {
                lemma_subset_equality(extra@, pool@);
            }
        }
        r
    }

    /// Exits for a room entered by moving `entry_direction`: always the way
    /// back, and by a roll of chance some more compass directions.
    pub fn random_exits_with_entry(entry_direction: Direction) -> (r: Exits)
        ensures
            entry_exits(r@, entry_direction),
    {
        let roll = random_below(100);
        Exits::exits_for_roll(entry_direction, roll)
    }
}

impl From<Direction> for Exits {
    fn from(d: Direction) -> (r: Exits)
        ensures
            r@ == set![d],
    {
        let r = Exits { bits: Self::bit(d) };
        assert(r@ =~= set![d]) by {
            assert(1u8 & 2u8 == 0 && 1u8 & 4u8 == 0 && 1u8 & 8u8 == 0 && 1u8 & 16u8 == 0 && 1u8 & 32u8 == 0
                && 2u8 & 1u8 == 0 && 2u8 & 4u8 == 0 && 2u8 & 8u8 == 0 && 2u8 & 16u8 == 0 && 2u8 & 32u8 == 0
                && 4u8 & 1u8 == 0 && 4u8 & 2u8 == 0 && 4u8 & 8u8 == 0 && 4u8 & 16u8 == 0 && 4u8 & 32u8 == 0
                && 8u8 & 1u8 == 0 && 8u8 & 2u8 == 0 && 8u8 & 4u8 == 0 && 8u8 & 16u8 == 0 && 8u8 & 32u8 == 0
                && 16u8 & 1u8 == 0 && 16u8 & 2u8 == 0 && 16u8 & 4u8 == 0 && 16u8 & 8u8 == 0 && 16u8 & 32u8 == 0
                && 32u8 & 1u8 == 0 && 32u8 & 2u8 == 0 && 32u8 & 4u8 == 0 && 32u8 & 8u8 == 0 && 32u8 & 16u8 == 0
                && 1u8 & 1u8 != 0 && 2u8 & 2u8 != 0 && 4u8 & 4u8 != 0 && 8u8 & 8u8 != 0 && 16u8 & 16u8 != 0
                && 32u8 & 32u8 != 0) by (bit_vector);
        }
        r
    }
}

impl vstd::std_specs::convert::FromSpecImpl<Direction> for Exits {
    open spec fn obeys_from_spec() -> bool {
        true
    }

    closed spec fn from_spec(d: Direction) -> Exits {
        Exits { bits: dir_bit(d) }
    }
}

} // verus!
