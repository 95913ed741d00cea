use liminal::{describe_exits, Direction, Exits};

const ALL: [Direction; 6] = [
    Direction::North,
    Direction::East,
    Direction::South,
    Direction::West,
    Direction::Up,
    Direction::Down,
];

fn set_of(dirs: &[Direction]) -> Exits {
    let mut e = Exits::empty();
    for d in dirs {
        e = e.union(Exits::from(*d));
    }
    e
}

#[test]
fn opposite_is_involutive() {
    for d in ALL {
        assert_eq!(d.opposite().opposite(), d);
        assert_ne!(d.opposite(), d);
    }
    assert_eq!(Direction::North.opposite(), Direction::South);
    assert_eq!(Direction::East.opposite(), Direction::West);
    assert_eq!(Direction::Up.opposite(), Direction::Down);
}

#[test]
fn direction_names() {
    assert_eq!(Direction::North.to_string(), "north");
    assert_eq!(Direction::East.to_string(), "east");
    assert_eq!(Direction::South.to_string(), "south");
    assert_eq!(Direction::West.to_string(), "west");
    assert_eq!(Direction::Up.to_string(), "up");
    assert_eq!(Direction::Down.to_string(), "down");
}

#[test]
fn set_operations() {
    let ne = set_of(&[Direction::North, Direction::East]);
    assert!(ne.contains(Direction::North));
    assert!(ne.contains(Direction::East));
    assert!(!ne.contains(Direction::South));
    let all = Exits::all_2d();
    assert_eq!(all, set_of(&[Direction::North, Direction::East, Direction::South, Direction::West]));
    assert!(!all.contains(Direction::Up));
    assert!(!all.contains(Direction::Down));
    assert_eq!(all.difference(ne), set_of(&[Direction::South, Direction::West]));
    assert_eq!(ne.union(Exits::from(Direction::Up)), set_of(&[Direction::North, Direction::East, Direction::Up]));
    assert!(Exits::empty().is_empty());
    assert!(!ne.is_empty());
    assert!(ne.difference(ne).is_empty());
    let mut e = Exits::empty();
    e.insert(Direction::Down);
    assert_eq!(e, Exits::from(Direction::Down));
    e.remove(Direction::Down);
    assert!(e.is_empty());
}

#[test]
fn members_in_fixed_order() {
    let e = set_of(&[Direction::Down, Direction::West, Direction::North]);
    assert_eq!(e.members(), vec![Direction::North, Direction::West, Direction::Down]);
    assert_eq!(Exits::empty().members(), Vec::<Direction>::new());
}

#[test]
fn random_exits_is_subset_of_right_size() {
    let pools = [
        Exits::empty(),
        Exits::from(Direction::East),
        set_of(&[Direction::North, Direction::Up]),
        Exits::all_2d(),
        set_of(&ALL),
    ];
    for pool in pools {
        let size = pool.members().len();
        for k in 0u8..8 {
            for _ in 0..20 {
                let r = Exits::random_exits(k, pool);
                assert_eq!(r.difference(pool), Exits::empty());
                let n = r.members().len();
                assert_eq!(n, std::cmp::min(k as usize, size));
            }
        }
    }
}

#[test]
fn random_exits_edge_cases() {
    assert!(Exits::random_exits(0, Exits::all_2d()).is_empty());
    assert!(Exits::random_exits(3, Exits::empty()).is_empty());
    assert_eq!(Exits::random_exits(5, Exits::all_2d()), Exits::all_2d());
    assert_eq!(Exits::random_exits(1, Exits::from(Direction::Up)), Exits::from(Direction::Up));
}

#[test]
fn extra_exit_count_tiers() {
    assert_eq!(Exits::extra_exit_count(0), 0);
    assert_eq!(Exits::extra_exit_count(29), 0);
    assert_eq!(Exits::extra_exit_count(30), 1);
    assert_eq!(Exits::extra_exit_count(59), 1);
    assert_eq!(Exits::extra_exit_count(60), 2);
    assert_eq!(Exits::extra_exit_count(79), 2);
    assert_eq!(Exits::extra_exit_count(80), 4);
    assert_eq!(Exits::extra_exit_count(99), 4);
}

#[test]
fn entry_exits_always_lead_back() {
    for d in ALL {
        let back = d.opposite();
        for _ in 0..200 {
            let e = Exits::random_exits_with_entry(d);
            assert!(e.contains(back));
            let extra = e.difference(Exits::from(back));
            assert_eq!(extra.difference(Exits::all_2d()), Exits::empty());
            let pool = Exits::all_2d().difference(Exits::from(back));
            let n = extra.members().len();
            assert!(n <= 2 || extra == pool);
        }
    }
}

#[test]
fn exits_sentence_formatting() {
    assert_eq!(describe_exits(Exits::empty()), "Exits are none");
    assert_eq!(describe_exits(Exits::from(Direction::East)), "Exits are east");
    assert_eq!(describe_exits(set_of(&[Direction::North, Direction::East])), "Exits are north and east");
    assert_eq!(
        describe_exits(set_of(&[Direction::North, Direction::East, Direction::South])),
        "Exits are north, east and south"
    );
    assert_eq!(describe_exits(Exits::all_2d()), "Exits are north, east, south and west");
    assert_eq!(describe_exits(set_of(&[Direction::Up, Direction::Down])), "Exits are none");
    assert_eq!(describe_exits(set_of(&[Direction::West, Direction::Up])), "Exits are west");
}

#[test]
fn exits_for_roll_per_tier() {
    for d in [Direction::North, Direction::East, Direction::South, Direction::West] {
        let back = Exits::from(d.opposite());
        assert_eq!(Exits::exits_for_roll(d, 0), back);
        assert_eq!(Exits::exits_for_roll(d, 29), back);
        for roll in [30u32, 59] {
            let e = Exits::exits_for_roll(d, roll);
            assert!(e.contains(d.opposite()));
            assert_eq!(e.members().len(), 2);
            assert_eq!(e.difference(Exits::all_2d()), Exits::empty());
        }
        for roll in [60u32, 79] {
            let e = Exits::exits_for_roll(d, roll);
            assert!(e.contains(d.opposite()));
            assert_eq!(e.members().len(), 3);
            assert_eq!(e.difference(Exits::all_2d()), Exits::empty());
        }
        assert_eq!(Exits::exits_for_roll(d, 80), Exits::all_2d());
        assert_eq!(Exits::exits_for_roll(d, 99), Exits::all_2d());
    }
    assert_eq!(Exits::exits_for_roll(Direction::Up, 0), Exits::from(Direction::Down));
    assert_eq!(
        Exits::exits_for_roll(Direction::Up, 85),
        Exits::all_2d().union(Exits::from(Direction::Down))
    );
    let e = Exits::exits_for_roll(Direction::Down, 65);
    assert!(e.contains(Direction::Up));
    assert_eq!(e.members().len(), 3);
}
