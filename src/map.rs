use vstd::prelude::*;
use vstd::string::StringExecFns;

use petgraph::graph::NodeIndex;
use petgraph::visit::EdgeRef;
use petgraph::Graph;

use crate::direction::Direction;
use crate::exits::entry_exits;
use crate::room::{room_info, Room};

verus! {

#[verifier::external_type_specification]
#[verifier::external_body]
#[verifier::reject_recursive_types(N)]
#[verifier::reject_recursive_types(E)]
#[verifier::reject_recursive_types(Ty)]
#[verifier::reject_recursive_types(Ix)]
pub struct ExGraph<N, E, Ty, Ix>(Graph<N, E, Ty, Ix>);

#[verifier::external_type_specification]
#[verifier::external_body]
pub struct ExDirected(petgraph::Directed);

/// The passages held by a graph, in the order they were added, each as
/// (from, direction, to).
pub uninterp spec fn graph_edges(g: Graph<(), Direction>) -> Seq<(usize, Direction, usize)>;

/// The number of nodes held by a graph.
pub uninterp spec fn graph_node_count(g: Graph<(), Direction>) -> nat;

/// The most rooms a map holds: node and edge indices of the graph are `u32`.
pub const MAX_ROOMS: usize = 0x7fff_ffff;

/// The text given to a room made on first entry.
pub open spec fn generated_description() -> Seq<char> {
    "[generated room]"@
}

/// The passages that leave `a`, most recently added first, each as
/// (direction, to).
pub open spec fn outgoing_of(edges: Seq<(usize, Direction, usize)>, a: usize) -> Seq<(Direction, usize)>
    decreases edges.len(),
{
    if edges.len() == 0 {
        Seq::empty()
    } else {
        let e = edges.last();
        let rest = outgoing_of(edges.drop_last(), a);
        if e.0 == a {
            seq![(e.1, e.2)] + rest
        } else {
            rest
        }
    }
}

/// Some passage leads from `a` in direction `d` to `b`.
pub open spec fn has_edge(edges: Seq<(usize, Direction, usize)>, a: usize, d: Direction, b: usize) -> bool {
    exists|i: int| 0 <= i < edges.len() && #[trigger] edges[i] == (a, d, b)
}

/// Some passage leads from `a` in direction `d`.
pub open spec fn has_exit_edge(edges: Seq<(usize, Direction, usize)>, a: usize, d: Direction) -> bool {
    exists|b: usize| #[trigger] has_edge(edges, a, d, b)
}

proof fn lemma_outgoing_of(edges: Seq<(usize, Direction, usize)>, a: usize)
    ensures
        forall|d: Direction, b: usize|
            #[trigger] outgoing_of(edges, a).contains((d, b)) <==> has_edge(edges, a, d, b),
    decreases edges.len(),
{
    if edges.len() > 0 {
        let rest = edges.drop_last();
        lemma_outgoing_of(rest, a);
        let e = edges.last();
        assert forall|d: Direction, b: usize|
            #[trigger] outgoing_of(edges, a).contains((d, b)) <==> has_edge(edges, a, d, b) by {
            let out = outgoing_of(edges, a);
            let out_rest = outgoing_of(rest, a);
            if has_edge(rest, a, d, b) {
                let i = choose|i: int| 0 <= i < rest.len() && #[trigger] rest[i] == (a, d, b);
                assert(edges[i] == (a, d, b));
            }
            if has_edge(edges, a, d, b) {
                let i = choose|i: int| 0 <= i < edges.len() && #[trigger] edges[i] == (a, d, b);
                if i < rest.len() {
                    assert(rest[i] == (a, d, b));
                }
            }
            if e.0 == a {
                assert(out == seq![(e.1, e.2)] + out_rest);
                if out.contains((d, b)) {
                    let k = choose|k: int| 0 <= k < out.len() && out[k] == (d, b);
                    if k > 0 {
                        assert(out_rest[k - 1] == (d, b));
                    } else {
                        assert(edges[edges.len() - 1] == (a, d, b));
                    }
                }
                if out_rest.contains((d, b)) {
                    let k = choose|k: int| 0 <= k < out_rest.len() && out_rest[k] == (d, b);
                    assert(out[k + 1] == (d, b));
                }
                if e == (a, d, b) {
                    assert(out[0] == (d, b));
                }
            } else {
                if has_edge(edges, a, d, b) {
                    let i = choose|i: int| 0 <= i < edges.len() && #[trigger] edges[i] == (a, d, b);
                    assert(i != edges.len() - 1);
                    assert(rest[i] == (a, d, b));
                }
            }
        }
    }
}

/// Relies on petgraph's `Graph::new`: a directed graph with no node and no
/// edge.
#[verifier::external_body]
fn graph_new() -> (g: Graph<(), Direction>)
    ensures
        graph_node_count(g) == 0,
        graph_edges(g) == Seq::<(usize, Direction, usize)>::empty(),
{
    Graph::new()
}

/// Relies on petgraph's `Graph::add_node`: the node is appended and its index
/// is the old node count (it panics once the count reaches `u32::MAX`).
#[verifier::external_body]
fn graph_add_node(g: &mut Graph<(), Direction>) -> (r: usize)
    requires
        graph_node_count(*old(g)) < u32::MAX,
    ensures
        r == graph_node_count(*old(g)),
        graph_node_count(*final(g)) == graph_node_count(*old(g)) + 1,
        graph_edges(*final(g)) == graph_edges(*old(g)),
{
    g.add_node(()).index()
}

/// Relies on petgraph's `Graph::add_edge`: the edge is appended (it panics on
/// a node out of bounds, or once the edge count reaches `u32::MAX`).
#[verifier::external_body]
fn graph_add_edge(g: &mut Graph<(), Direction>, a: usize, b: usize, d: Direction)
    requires
        a < graph_node_count(*old(g)),
        b < graph_node_count(*old(g)),
        graph_edges(*old(g)).len() < u32::MAX,
    ensures
        graph_node_count(*final(g)) == graph_node_count(*old(g)),
        graph_edges(*final(g)) == graph_edges(*old(g)).push((a, d, b)),
{
    g.add_edge(NodeIndex::new(a), NodeIndex::new(b), d);
}

/// Relies on petgraph's `Graph::edges_directed` with `Outgoing`: on a
/// directed graph it lists the edges that leave `a`, the most recently added
/// first.
#[verifier::external_body]
fn graph_outgoing(g: &Graph<(), Direction>, a: usize) -> (r: Vec<(Direction, usize)>)
    requires
        a < graph_node_count(*g),
    ensures
        r@ == outgoing_of(graph_edges(*g), a),
{
    g.edges_directed(NodeIndex::new(a), petgraph::Direction::Outgoing).map(
        |e| (*e.weight(), e.target().index()),
    ).collect()
}

/// Why a move failed.
#[derive(Clone, Copy, Debug, PartialEq, Eq, Structural)]
pub enum TravelError {
    /// The current room has no exit that way.
    NoExit,
}

impl TravelError {
    /// The message shown for the error.
    pub fn to_string(&self) -> (r: String)
        ensures
            r@ == "No exit"@,
    {
        String::from_str("No exit")
    }
}

/// The text a room shows.
pub open spec fn info_of<T: Room>(room: T) -> Seq<char> {
    room_info(room.spec_description(), room.spec_exits())
}

/// The explored part of a dungeon: rooms joined by passages, and the room
/// the player stands in.
pub struct GraphMap<T: Room> {
    rooms: Vec<T>,
    graph: Graph<(), Direction>,
    current_room_id: usize,
}

impl<T: Room> GraphMap<T> {
    /// The rooms, by handle.
    pub closed spec fn spec_rooms(&self) -> Seq<T> {
        self.rooms@
    }

    /// The passages, in the order they were made.
    pub closed spec fn spec_edges(&self) -> Seq<(usize, Direction, usize)> {
        graph_edges(self.graph)
    }

    /// The handle of the room the player stands in.
    pub closed spec fn spec_current(&self) -> usize {
        self.current_room_id
    }

    /// The number of nodes of the underlying graph.
    pub closed spec fn spec_node_count(&self) -> nat {
        graph_node_count(self.graph)
    }

    /// The room the player stands in.
    pub open spec fn spec_current_room(&self) -> T {
        self.spec_rooms()[self.spec_current() as int]
    }

    /// Passages are made in pairs, each followed by the one that leads back.
    pub open spec fn edges_paired(&self) -> bool {
        let edges = self.spec_edges();
        forall|i: int|
            0 <= i < edges.len() && i % 2 == 0 ==> edges[i + 1] == (
                #[trigger] edges[i].2,
                edges[i].1.spec_opposite(),
                edges[i].0,
            )
    }

    /// From each room at most one passage leads in each direction.
    pub open spec fn edges_unique(&self) -> bool {
        let edges = self.spec_edges();
        forall|i: int, j: int|
            0 <= i < edges.len() && 0 <= j < edges.len() && #[trigger] edges[i].0 == #[trigger] edges[j].0
                && edges[i].1 == edges[j].1 ==> i == j
    }

    /// Every passage joins two rooms of the map and leaves through an exit of
    /// its room.
    pub open spec fn edges_in_bounds(&self) -> bool {
        let edges = self.spec_edges();
        let rooms = self.spec_rooms();
        forall|i: int|
            0 <= i < edges.len() ==> {
                let e = #[trigger] edges[i];
                &&& e.0 < rooms.len()
                &&& e.2 < rooms.len()
                &&& rooms[e.0 as int].spec_exits().contains(e.1)
            }
    }

    /// The map is well formed.
    pub open spec fn wf(&self) -> bool {
        &&& self.spec_node_count() == self.spec_rooms().len()
        &&& self.spec_current() < self.spec_rooms().len()
        &&& self.spec_rooms().len() <= MAX_ROOMS
        &&& self.spec_edges().len() + 2 == 2 * self.spec_rooms().len()
        &&& self.edges_paired()
        &&& self.edges_unique()
        &&& self.edges_in_bounds()
    }

    /// What a move in direction `d` does to a map `m0`, giving `m1` and the
    /// result `r`.
    pub open spec fn travel_outcome(
        m0: GraphMap<T>,
        d: Direction,
        m1: GraphMap<T>,
        r: Result<String, TravelError>,
    ) -> bool {
        let cur = m0.spec_current();
        let n = m0.spec_rooms().len();
        if !m0.spec_current_room().spec_exits().contains(d) {
            &&& r == Err::<String, TravelError>(TravelError::NoExit)
            &&& m1 == m0
        } else {
            &&& r is Ok
            &&& r->Ok_0@ == info_of(m1.spec_current_room())
            &&& if has_exit_edge(m0.spec_edges(), cur, d) {
                &&& m1.spec_rooms() == m0.spec_rooms()
                &&& m1.spec_edges() == m0.spec_edges()
                &&& has_edge(m0.spec_edges(), cur, d, m1.spec_current())
            } else {
                &&& m1.spec_rooms().len() == n + 1
                &&& m1.spec_rooms().drop_last() == m0.spec_rooms()
                &&& m1.spec_current() == n
                &&& m1.spec_current_room().spec_description() == generated_description()
                &&& entry_exits(m1.spec_current_room().spec_exits(), d)
                &&& m1.spec_edges() == m0.spec_edges().push((cur, d, n as usize)).push(
                    (n as usize, d.spec_opposite(), cur),
                )
            }
        }
    }
}

impl<T: Room> GraphMap<T> {
    /// A map of the one room `root_room`, where the player stands.
    pub fn new(root_room: T) -> (r: Self)
        ensures
            r.wf(),
            r.spec_rooms() == seq![root_room],
            r.spec_edges() == Seq::<(usize, Direction, usize)>::empty(),
            r.spec_current() == 0,
    {
        let mut graph = graph_new();
        let root_room_id = graph_add_node(&mut graph);
        let mut rooms: Vec<T> = Vec::new();
        rooms.push(root_room);
        let r = GraphMap { rooms, graph, current_room_id: root_room_id };
        assert(r.spec_rooms() =~= seq![root_room]);
        r
    }

    /// The number of rooms made so far.
    pub fn room_count(&self) -> (r: usize)
        ensures
            r == self.spec_rooms().len(),
    {
        self.rooms.len()
    }

    /// The handle of the room the player stands in.
    pub fn current_room_id(&self) -> (r: usize)
        ensures
            r == self.spec_current(),
    {
        self.current_room_id
    }

    /// The room with handle `room_id`.
    pub fn get_room(&self, room_id: usize) -> (r: &T)
        requires
            room_id < self.spec_rooms().len(),
        ensures
            *r == self.spec_rooms()[room_id as int],
    {
        &self.rooms[room_id]
    }

    /// The room the player stands in.
    pub fn get_current_room(&self) -> (r: &T)
        requires
            self.wf(),
        ensures
            *r == self.spec_current_room(),
    {
        &self.rooms[self.current_room_id]
    }

    /// Where the passage from `room_id` in direction `target` leads, if there
    /// is one.
    fn get_edge(&self, room_id: usize, target: Direction) -> (r: Option<usize>)
        requires
            self.wf(),
            room_id < self.spec_rooms().len(),
        ensures
            r matches Some(b) ==> has_edge(self.spec_edges(), room_id, target, b),
            r is None ==> !has_exit_edge(self.spec_edges(), room_id, target),
    {
        let out = graph_outgoing(&self.graph, room_id);
        let mut i: usize = 0;
        while i < out.len()
            invariant
                out@ == outgoing_of(self.spec_edges(), room_id),
                i <= out.len(),
                forall|k: int| 0 <= k < i ==> (#[trigger] out@[k]).0 != target,
            decreases out.len() - i,
        {
            let (d, b) = out[i];
            if d == target {
                assert(out@[i as int] == (d, b));
                proof {
                    lemma_outgoing_of(self.spec_edges(), room_id);
                }
                assert(out@.contains((d, b)));
                assert(has_edge(self.spec_edges(), room_id, target, b));
                return Some(b);
            }
            i += 1;
        }
        proof {
            lemma_outgoing_of(self.spec_edges(), room_id);
            if has_exit_edge(self.spec_edges(), room_id, target) {
                let b = choose|b: usize| has_edge(self.spec_edges(), room_id, target, b);
                assert(out@.contains((target, b)));
            }
        }
        None
    }

    /// Makes a room entered by moving `entry_direction` and returns its
    /// handle.
    fn generate_room(&mut self, entry_direction: Direction) -> (r: usize)
        requires
            old(self).wf(),
            old(self).spec_rooms().len() < MAX_ROOMS,
        ensures
            r == old(self).spec_rooms().len(),
            final(self).spec_rooms().len() == r + 1,
            final(self).spec_rooms().drop_last() == old(self).spec_rooms(),
            final(self).spec_rooms()[r as int].spec_description() == generated_description(),
            entry_exits(final(self).spec_rooms()[r as int].spec_exits(), entry_direction),
            final(self).spec_edges() == old(self).spec_edges(),
            final(self).spec_current() == old(self).spec_current(),
            final(self).spec_node_count() == final(self).spec_rooms().len(),
    {
        let new_room = T::new_random_with_entry(
            String::from_str("[generated room]"),
            entry_direction,
        );
        let new_room_id = graph_add_node(&mut self.graph);
        self.rooms.push(new_room);
        assert(self.rooms@.drop_last() =~= old(self).rooms@);
        new_room_id
    }

    /// Joins `from_room` to the new room `to_room` by a passage in
    /// `direction` and one back.
    fn connect_rooms(&mut self, from_room: usize, to_room: usize, direction: Direction)
        requires
            old(self).spec_node_count() == old(self).spec_rooms().len(),
            old(self).spec_rooms().len() <= MAX_ROOMS,
            old(self).spec_edges().len() + 4 == 2 * old(self).spec_rooms().len(),
            old(self).edges_paired(),
            old(self).edges_unique(),
            old(self).edges_in_bounds(),
            from_room < to_room,
            to_room + 1 == old(self).spec_rooms().len(),
            old(self).spec_rooms()[from_room as int].spec_exits().contains(direction),
            old(self).spec_rooms()[to_room as int].spec_exits().contains(direction.spec_opposite()),
            !has_exit_edge(old(self).spec_edges(), from_room, direction),
            forall|i: int|
                0 <= i < old(self).spec_edges().len() ==> (#[trigger] old(self).spec_edges()[i]).0 < to_room,
        ensures
            final(self).spec_rooms() == old(self).spec_rooms(),
            final(self).spec_current() == old(self).spec_current(),
            final(self).spec_node_count() == old(self).spec_node_count(),
            final(self).spec_edges() == old(self).spec_edges().push((from_room, direction, to_room)).push(
                (to_room, direction.spec_opposite(), from_room),
            ),
            final(self).edges_paired(),
            final(self).edges_unique(),
            final(self).edges_in_bounds(),
    {
        let ghost e0 = self.spec_edges();
        graph_add_edge(&mut self.graph, from_room, to_room, direction);
        graph_add_edge(&mut self.graph, to_room, from_room, direction.opposite());
        proof {
            let e1 = self.spec_edges();
            let n0 = e0.len() as int;
            assert(n0 % 2 == 0);
            assert forall|i: int| 0 <= i < e1.len() && i % 2 == 0 implies e1[i + 1] == (
                #[trigger] e1[i].2,
                e1[i].1.spec_opposite(),
                e1[i].0,
            ) by {
                if i < n0 {
                    assert(e0[i] == e1[i]);
                    assert(e0[i + 1] == e1[i + 1]);
                }
            }
            assert forall|i: int, j: int|
                0 <= i < e1.len() && 0 <= j < e1.len() && #[trigger] e1[i].0 == #[trigger] e1[j].0
                    && e1[i].1 == e1[j].1 implies i == j by {
                if i < n0 && j < n0 {
                    assert(e0[i] == e1[i] && e0[j] == e1[j]);
                } else if i < n0 {
                    assert(e0[i] == e1[i]);
                    if j == n0 {
                        assert(has_edge(e0, from_room, direction, e0[i].2));
                    }
                } else if j < n0 {
                    assert(e0[j] == e1[j]);
                    if i == n0 {
                        assert(has_edge(e0, from_room, direction, e0[j].2));
                    }
                }
            }
            assert forall|i: int| 0 <= i < e1.len() implies {
                let e = #[trigger] e1[i];
                &&& e.0 < self.spec_rooms().len()
                &&& e.2 < self.spec_rooms().len()
                &&& self.spec_rooms()[e.0 as int].spec_exits().contains(e.1)
            } by {
                if i < n0 {
                    assert(e0[i] == e1[i]);
                }
            }
        }
    }

    /// Moves the player one room in `direction`. Where the current room has
    /// no exit that way this fails with `NoExit` and changes nothing. Else
    /// the passage that way is followed; where there is none yet, a room is
    /// made for it first and joined to the current room both ways. The text
    /// of the room reached is returned.
    pub fn travel(&mut self, direction: Direction) -> (r: Result<String, TravelError>)
        requires
            old(self).wf(),
            old(self).spec_rooms().len() < MAX_ROOMS,
        ensures
            final(self).wf(),
            Self::travel_outcome(*old(self), direction, *final(self), r),
    {
        let current_room = self.get_current_room();
        if current_room.get_exits().contains(direction) {
            let new_room_id = match self.get_edge(self.current_room_id, direction) {
                Some(target) => target,
                None => {
                    let new_room_id = self.generate_room(direction);
                    proof {
                        assert(self.spec_rooms()[old(self).spec_current() as int] == old(self).spec_current_room());
                        lemma_entry_exits_way_back(self.spec_rooms()[new_room_id as int].spec_exits(), direction);
                        assert(self.spec_rooms().drop_last() == old(self).spec_rooms());
                        assert forall|i: int| 0 <= i < self.spec_edges().len() implies {
                            let e = #[trigger] self.spec_edges()[i];
                            &&& e.0 < new_room_id
                            &&& e.2 < self.spec_rooms().len()
                            &&& self.spec_rooms()[e.0 as int].spec_exits().contains(e.1)
                        } by {
                            let e = self.spec_edges()[i];
                            assert(self.spec_rooms()[e.0 as int] == old(self).spec_rooms()[e.0 as int]);
                        }
                    }
                    self.connect_rooms(self.current_room_id, new_room_id, direction);
                    new_room_id
                }
            };
            proof {
                if has_exit_edge(old(self).spec_edges(), old(self).spec_current(), direction) {
                    let b = choose|b: usize| has_edge(old(self).spec_edges(), old(self).spec_current(), direction, b);
                    let i = choose|i: int| 0 <= i < old(self).spec_edges().len() && #[trigger] old(self).spec_edges()[i] == (old(self).spec_current(), direction, b);
                    assert(old(self).spec_edges()[i].2 < old(self).spec_rooms().len());
                }
            }
            self.current_room_id = new_room_id;
            let info = self.get_current_room().get_info();
            Ok(info)
        } else {
            Err(TravelError::NoExit)
        }
    }
}

/// A generated room always has the way back.
pub proof fn lemma_entry_exits_way_back(e: Set<Direction>, entry: Direction)
    requires
        entry_exits(e, entry),
    ensures
        e.contains(entry.spec_opposite()),
{
}

/// Every passage can be walked back: where one leads from `a` in direction
/// `d` to `b`, another leads from `b` in the opposite direction to `a`.
pub proof fn lemma_edges_symmetric<T: Room>(m: GraphMap<T>, a: usize, d: Direction, b: usize)
    requires
        m.wf(),
        has_edge(m.spec_edges(), a, d, b),
    ensures
        has_edge(m.spec_edges(), b, d.spec_opposite(), a),
{
    let edges = m.spec_edges();
    let i = choose|i: int| 0 <= i < edges.len() && #[trigger] edges[i] == (a, d, b);
    if i % 2 == 0 {
        assert(edges[i + 1] == (b, d.spec_opposite(), a));
    } else {
        let e = edges[i - 1];
        assert(edges[i] == (e.2, e.1.spec_opposite(), e.0));
        assert(e.1 == d.spec_opposite());
        assert(edges[i - 1] == (b, d.spec_opposite(), a));
    }
}

/// From a room at most one passage leads in a direction.
pub proof fn lemma_edge_target_unique<T: Room>(
    m: GraphMap<T>,
    a: usize,
    d: Direction,
    b: usize,
    c: usize,
)
    requires
        m.wf(),
        has_edge(m.spec_edges(), a, d, b),
        has_edge(m.spec_edges(), a, d, c),
    ensures
        b == c,
{
    let edges = m.spec_edges();
    let i = choose|i: int| 0 <= i < edges.len() && #[trigger] edges[i] == (a, d, b);
    let j = choose|j: int| 0 <= j < edges.len() && #[trigger] edges[j] == (a, d, c);
    assert(edges[i].0 == edges[j].0);
}

/// A successful move leaves a passage from the room left to the room
/// reached, and keeps every room and passage that was there.
pub proof fn lemma_travel_leaves_edge<T: Room>(
    m0: GraphMap<T>,
    d: Direction,
    m1: GraphMap<T>,
    r: Result<String, TravelError>,
)
    requires
        m0.wf(),
        GraphMap::travel_outcome(m0, d, m1, r),
        r is Ok,
    ensures
        has_edge(m1.spec_edges(), m0.spec_current(), d, m1.spec_current()),
        m0.spec_rooms() == m1.spec_rooms().subrange(0, m0.spec_rooms().len() as int),
        m0.spec_edges() == m1.spec_edges().subrange(0, m0.spec_edges().len() as int),
{
    let e0 = m0.spec_edges();
    let e1 = m1.spec_edges();
    if has_exit_edge(e0, m0.spec_current(), d) {
        assert(m0.spec_rooms() =~= m1.spec_rooms().subrange(0, m0.spec_rooms().len() as int));
        assert(e0 =~= e1.subrange(0, e0.len() as int));
    } else {
        assert(e1[e0.len() as int] == (m0.spec_current(), d, m1.spec_current()));
        assert(m0.spec_rooms() =~= m1.spec_rooms().subrange(0, m0.spec_rooms().len() as int));
        assert(e0 =~= e1.subrange(0, e0.len() as int));
    }
}

/// A move through a wall: where the current room has no exit in direction
/// `d`, the move fails with `NoExit` and the map is left as it was.
pub proof fn lemma_travel_no_exit<T: Room>(
    m0: GraphMap<T>,
    d: Direction,
    m1: GraphMap<T>,
    r: Result<String, TravelError>,
)
    requires
        m0.wf(),
        GraphMap::travel_outcome(m0, d, m1, r),
        !m0.spec_current_room().spec_exits().contains(d),
    ensures
        r == Err::<String, TravelError>(TravelError::NoExit),
        m1 == m0,
{
}

/// Going back: after a move in direction `d` that made a new room, a move
/// in the opposite direction succeeds and returns to the very room one came
/// from, making no room.
pub proof fn lemma_travel_back<T: Room>(
    m0: GraphMap<T>,
    d: Direction,
    r1: Result<String, TravelError>,
    m1: GraphMap<T>,
    r2: Result<String, TravelError>,
    m2: GraphMap<T>,
)
    requires
        m0.wf(),
        m1.wf(),
        GraphMap::travel_outcome(m0, d, m1, r1),
        r1 is Ok,
        m1.spec_rooms().len() > m0.spec_rooms().len(),
        GraphMap::travel_outcome(m1, d.spec_opposite(), m2, r2),
    ensures
        r2 is Ok,
        m2.spec_current() == m0.spec_current(),
        m2.spec_rooms() == m1.spec_rooms(),
        m2.spec_current_room() == m0.spec_current_room(),
{
    let a = m0.spec_current();
    let b = m1.spec_current();
    let e1 = m1.spec_edges();
    assert(!has_exit_edge(m0.spec_edges(), a, d));
    assert(e1[e1.len() - 1] == (b, d.spec_opposite(), a));
    assert(has_edge(e1, b, d.spec_opposite(), a));
    lemma_edges_symmetric(m1, b, d.spec_opposite(), a);
    assert(m1.spec_current_room().spec_exits().contains(d.spec_opposite()));
    assert(has_exit_edge(e1, b, d.spec_opposite()));
    lemma_edge_target_unique(m1, b, d.spec_opposite(), a, m2.spec_current());
    assert(m1.spec_rooms()[a as int] == m1.spec_rooms().drop_last()[a as int]);
}

/// Going the same way twice: a move in direction `d`, a move back, and a
/// move in `d` again all succeed; the second move returns to the room first
/// left, and the third reaches the room first reached, making no room.
pub proof fn lemma_travel_again<T: Room>(
    m0: GraphMap<T>,
    d: Direction,
    r1: Result<String, TravelError>,
    m1: GraphMap<T>,
    r2: Result<String, TravelError>,
    m2: GraphMap<T>,
    r3: Result<String, TravelError>,
    m3: GraphMap<T>,
)
    requires
        m0.wf(),
        m1.wf(),
        m2.wf(),
        GraphMap::travel_outcome(m0, d, m1, r1),
        r1 is Ok,
        GraphMap::travel_outcome(m1, d.spec_opposite(), m2, r2),
        GraphMap::travel_outcome(m2, d, m3, r3),
    ensures
        r2 is Ok,
        r3 is Ok,
        m2.spec_current() == m0.spec_current(),
        m3.spec_current() == m1.spec_current(),
        m3.spec_rooms() == m1.spec_rooms(),
        m3.spec_edges() == m1.spec_edges(),
{
    let a = m0.spec_current();
    let b = m1.spec_current();
    let e1 = m1.spec_edges();
    let back = d.spec_opposite();
    lemma_travel_leaves_edge(m0, d, m1, r1);
    lemma_edges_symmetric(m1, a, d, b);
    let i = choose|i: int| 0 <= i < e1.len() && #[trigger] e1[i] == (b, back, a);
    assert(m1.spec_current_room().spec_exits().contains(back));
    assert(has_exit_edge(e1, b, back));
    lemma_edge_target_unique(m1, b, back, a, m2.spec_current());
    let j = choose|j: int| 0 <= j < e1.len() && #[trigger] e1[j] == (a, d, b);
    assert(m2.spec_current_room().spec_exits().contains(d));
    assert(has_exit_edge(m2.spec_edges(), a, d));
    lemma_edge_target_unique(m2, a, d, b, m3.spec_current());
}

} // verus!
