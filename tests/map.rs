use liminal::{Direction, Exits, GraphMap, Level, LevelNumber, LevelRoom, Room, TravelError};

fn room(desc: &str, dirs: &[Direction]) -> LevelRoom {
    let mut e = Exits::empty();
    for d in dirs {
        e = e.union(Exits::from(*d));
    }
    LevelRoom::new(desc.to_string(), e)
}

#[test]
fn room_info_text() {
    let r = room("A hall.", &[Direction::North, Direction::East]);
    assert_eq!(r.get_info(), "A hall.\nExits are north and east");
    assert_eq!(r.get_exits(), Exits::from(Direction::North).union(Exits::from(Direction::East)));
    let g = LevelRoom::new_random_with_entry("Far".to_string(), Direction::West);
    assert!(g.get_exits().contains(Direction::East));
    assert_eq!(g.description, "Far");
}

#[test]
fn travel_without_exit_changes_nothing() {
    let mut map = GraphMap::new(room("root", &[Direction::North, Direction::East]));
    assert_eq!(map.travel(Direction::West), Err(TravelError::NoExit));
    assert_eq!(map.travel(Direction::Up), Err(TravelError::NoExit));
    assert_eq!(map.current_room_id(), 0);
    assert_eq!(map.room_count(), 1);
    assert_eq!(TravelError::NoExit.to_string(), "No exit");
}

#[test]
fn end_to_end_scenario() {
    let mut map = GraphMap::new(room("root", &[Direction::North, Direction::East]));
    let text = map.travel(Direction::North).unwrap();
    assert!(text.starts_with("[generated room]\nExits are "));
    assert!(map.get_current_room().get_exits().contains(Direction::South));
    assert_eq!(map.current_room_id(), 1);
    assert_eq!(map.room_count(), 2);
    let back = map.travel(Direction::South).unwrap();
    assert_eq!(back, "root\nExits are north and east");
    assert_eq!(map.current_room_id(), 0);
    assert_eq!(map.room_count(), 2);
    assert_eq!(map.travel(Direction::West), Err(TravelError::NoExit));
    assert_eq!(map.current_room_id(), 0);
}

#[test]
fn travel_back_returns_to_same_room() {
    for d in [Direction::North, Direction::East, Direction::South, Direction::West] {
        let mut map = GraphMap::new(room("start", &[d]));
        map.travel(d).unwrap();
        assert_eq!(map.room_count(), 2);
        map.travel(d.opposite()).unwrap();
        assert_eq!(map.current_room_id(), 0);
        assert_eq!(map.get_current_room().description, "start");
        assert_eq!(map.room_count(), 2);
    }
}

#[test]
fn travel_twice_reuses_room() {
    let mut map = GraphMap::new(room("start", &[Direction::East]));
    map.travel(Direction::East).unwrap();
    let first = map.current_room_id();
    let count = map.room_count();
    let info = map.get_current_room().get_info();
    map.travel(Direction::West).unwrap();
    map.travel(Direction::East).unwrap();
    assert_eq!(map.current_room_id(), first);
    assert_eq!(map.room_count(), count);
    assert_eq!(map.get_current_room().get_info(), info);
    assert_eq!(map.get_room(0).description, "start");
}

#[test]
fn wandering_keeps_passages_both_ways() {
    let mut map = GraphMap::new(LevelRoom::new("hub".to_string(), Exits::all_2d()));
    let dirs = [Direction::North, Direction::East, Direction::South, Direction::West];
    for step in 0..200usize {
        let d = dirs[(step * 7 + step / 3) % 4];
        let from = map.current_room_id();
        let before = map.room_count();
        match map.travel(d) {
            Ok(_) => {
                let to = map.current_room_id();
                let after = map.room_count();
                assert!(after == before || after == before + 1);
                map.travel(d.opposite()).unwrap();
                assert_eq!(map.current_room_id(), from);
                map.travel(d).unwrap();
                assert_eq!(map.current_room_id(), to);
                assert_eq!(map.room_count(), after);
            }
            Err(e) => {
                assert_eq!(e, TravelError::NoExit);
                assert_eq!(map.current_room_id(), from);
                assert_eq!(map.room_count(), before);
            }
        }
    }
}

#[test]
fn level_numbers() {
    let main = LevelNumber::new_main(3);
    assert_eq!(main.main, 3);
    assert_eq!(main.sub, None);
    let sub = LevelNumber::new_sub(3, 1);
    assert_eq!(sub.main, 3);
    assert_eq!(sub.sub, Some(1));
    let level = Level::new_sub(0, 2, "Lobby".to_string(), room("lobby", &[Direction::North]));
    assert_eq!(level.number(), sub_of(0, 2));
    assert_eq!(level.name(), "Lobby");
    assert_eq!(level.room().description, "lobby");
    let level = Level::new_main(7, "Pipes".to_string(), room("pipes", &[]));
    assert_eq!(level.number(), LevelNumber::new_main(7));
}

fn sub_of(main: u16, sub: u16) -> LevelNumber {
    LevelNumber { main, sub: Some(sub) }
}
