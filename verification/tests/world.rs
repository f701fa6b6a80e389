use repairmen::error::CdnErrorKind;
use repairmen::position::{MoveDirection, Position};
use repairmen::repairman::Id;
use repairmen::world::{House, HouseStatus, SyncCell, World, WorldConfig};

#[derive(Debug)]
struct Tst;

impl WorldConfig for Tst {
    const MAX_LEN_X: usize = 4;
    const MAX_LEN_Y: usize = 3;
    const REPAIRMEN: usize = 3;
    const HOUSES_NEEDING_REPAIR: usize = 6;
}

#[derive(Debug)]
struct City;

impl WorldConfig for City {}

#[derive(Debug)]
struct WrongConfig;

impl WorldConfig for WrongConfig {
    const MAX_LEN_X: usize = 2;
    const MAX_LEN_Y: usize = 2;
    const HOUSES_NEEDING_REPAIR: usize = 5;
}

#[derive(Debug)]
struct Full;

impl WorldConfig for Full {
    const MAX_LEN_X: usize = 3;
    const MAX_LEN_Y: usize = 2;
    const REPAIRMEN: usize = 1;
    const HOUSES_NEEDING_REPAIR: usize = 6;
}

#[derive(Debug)]
struct Nowhere;

impl WorldConfig for Nowhere {
    const MAX_LEN_X: usize = 0;
    const MAX_LEN_Y: usize = 5;
    const REPAIRMEN: usize = 1;
    const HOUSES_NEEDING_REPAIR: usize = 0;
}

fn needing_repair<C: WorldConfig>(world: &World<C>) -> usize {
    let mut count = 0;
    for y in 0..C::MAX_LEN_Y {
        for x in 0..C::MAX_LEN_X {
            match world.get_house(&Position::new(x, y)).status {
                HouseStatus::NeedsRepair => count += 1,
                HouseStatus::Repaired => {}
            }
        }
    }
    count
}

#[test]
fn test_move_repairman() {
    let pos1 = Position::new(0, 0);
    let pos2 = Position::new(1, 0);

    let mut world = World::<Tst>::default();
    for id in world.get_repairmen_ids() {
        assert_eq!(*world.get_repairman_position(id), pos1);
        world.move_repairman(id, MoveDirection::Right).unwrap();
        assert_eq!(*world.get_repairman_position(id), pos2);
    }
}

#[test]
fn default_config_is_seven_by_seven() {
    assert_eq!(7, City::MAX_LEN_X);
    assert_eq!(7, City::MAX_LEN_Y);
    assert_eq!(4, City::REPAIRMEN);
    assert_eq!(6, City::HOUSES_NEEDING_REPAIR);
}

#[test]
fn config_with_more_damage_than_cells_is_not_valid() {
    assert!(!World::<WrongConfig>::config_is_valid());
    assert!(!World::<Nowhere>::config_is_valid());
    assert!(World::<Tst>::config_is_valid());
    assert!(World::<City>::config_is_valid());
    assert!(World::<Full>::config_is_valid());
}

#[test]
fn new_world_has_exactly_the_damage_asked_for() {
    for _ in 0..50 {
        let world = World::<Tst>::new();
        assert_eq!(6, needing_repair(&world));
        let world = World::<City>::new();
        assert_eq!(6, needing_repair(&world));
        let world = World::<Full>::new();
        assert_eq!(6, needing_repair(&world));
    }
}

#[test]
fn new_world_has_no_notes_and_repairmen_on_the_grid() {
    let world = World::<City>::new();
    for y in 0..7 {
        for x in 0..7 {
            assert!(world.get_house(&Position::new(x, y)).notes.entries().is_empty());
        }
    }
    let ids = world.get_repairmen_ids();
    assert_eq!(vec![Id(0), Id(1), Id(2), Id(3)], ids);
    for id in ids {
        let pos = world.get_repairman_position(id);
        assert!(pos.x() < 7 && pos.y() < 7);
    }
}

#[test]
fn new_worlds_differ() {
    let mut layouts = std::collections::HashSet::new();
    for _ in 0..50 {
        let world = World::<City>::new();
        let mut layout = Vec::new();
        for y in 0..7 {
            for x in 0..7 {
                let status = world.get_house(&Position::new(x, y)).status;
                layout.push(status == HouseStatus::NeedsRepair);
            }
        }
        layouts.insert(layout);
    }
    assert!(layouts.len() > 1);
}

#[test]
fn default_world_is_repaired_with_everyone_at_the_origin() {
    let world = World::<Tst>::default();
    assert_eq!(0, needing_repair(&world));
    assert_eq!(3, world.get_repairmen_ids().len());
    assert_eq!(3, world.repairmen_at(&Position::new(0, 0)));
    assert_eq!(0, world.repairmen_at(&Position::new(1, 0)));
    let house = world.get_repairman_house(Id(0));
    assert_eq!(HouseStatus::Repaired, house.status);
    assert!(house.notes.entries().is_empty());
}

#[test]
fn move_off_the_grid_fails_and_changes_nothing() {
    let mut world = World::<Tst>::default();
    let err = world.move_repairman(Id(1), MoveDirection::Left).unwrap_err();
    assert!(matches!(err.kind(), CdnErrorKind::InvalidMoveDirection));
    let err = world.move_repairman(Id(1), MoveDirection::Down).unwrap_err();
    assert!(err.is_invalid_move());
    for id in world.get_repairmen_ids() {
        assert_eq!(Position::new(0, 0), *world.get_repairman_position(id));
    }
}

#[test]
fn move_returns_the_house_moved_to() {
    let mut world = World::<Tst>::default();
    world.get_house_mut(&Position::new(0, 1)).status = HouseStatus::NeedsRepair;
    world.get_house_mut(&Position::new(0, 1)).notes.insert(Id(2), 9);
    let house = world.move_repairman(Id(0), MoveDirection::Up).unwrap();
    assert_eq!(HouseStatus::NeedsRepair, house.status);
    assert_eq!(Some(9), house.notes.get(Id(2)));
    assert_eq!(Position::new(0, 1), *world.get_repairman_position(Id(0)));
    assert_eq!(Position::new(0, 0), *world.get_repairman_position(Id(1)));
    assert_eq!(HouseStatus::NeedsRepair, world.get_repairman_house(Id(0)).status);
    assert_eq!(HouseStatus::Repaired, world.get_repairman_house(Id(1)).status);
}

#[test]
fn observer_sees_status_and_head_count_of_each_cell() {
    let mut world = World::<Tst>::default();
    world.get_house_mut(&Position::new(3, 2)).status = HouseStatus::NeedsRepair;
    world.move_repairman(Id(1), MoveDirection::Right).unwrap();
    world.move_repairman(Id(1), MoveDirection::Right).unwrap();
    world.move_repairman(Id(1), MoveDirection::Up).unwrap();

    let expected = [[2, 0, 0, 0], [0, 0, 1, 0], [0, 0, 0, 0]];
    for y in 0..3 {
        for x in 0..4 {
            let pos = Position::<Tst>::new(x, y);
            assert_eq!(expected[y][x], world.repairmen_at(&pos));
            let status = world.get_house(&pos).status;
            if (x, y) == (3, 2) {
                assert_eq!(HouseStatus::NeedsRepair, status);
            } else {
                assert_eq!(HouseStatus::Repaired, status);
            }
        }
    }
}

#[test]
fn changing_one_house_leaves_the_others() {
    let mut world = World::<Tst>::default();
    let house = world.get_house_mut(&Position::new(2, 1));
    house.status = HouseStatus::NeedsRepair;
    house.notes.insert(Id(0), 1);
    assert_eq!(1, needing_repair(&world));
    assert_eq!(Some(1), world.get_house(&Position::new(2, 1)).notes.get(Id(0)));
    assert_eq!(None, world.get_house(&Position::new(1, 2)).notes.get(Id(0)));
    assert_eq!(HouseStatus::Repaired, world.get_house(&Position::new(1, 2)).status);
}

#[test]
fn house_and_status_defaults() {
    let house = House::default();
    assert_eq!(HouseStatus::Repaired, house.status);
    assert!(house.notes.entries().is_empty());
    assert_eq!(HouseStatus::Repaired, HouseStatus::default());
}

#[test]
fn sync_cell_holds_what_it_is_given() {
    let mut cell = SyncCell::new(5);
    assert_eq!(5, *cell.get());
    *cell.get_mut() = 6;
    assert_eq!(6, *cell.get());
    let cell: SyncCell<usize> = SyncCell::default();
    assert_eq!(0, *cell.get());
}

#[test]
fn try_new_builds_exactly_the_valid_worlds() {
    assert!(World::<WrongConfig>::try_new().is_none());
    assert!(World::<Nowhere>::try_new().is_none());
    let world = World::<Tst>::try_new().unwrap();
    assert_eq!(6, needing_repair(&world));
    let world = World::<Full>::try_new().unwrap();
    assert_eq!(6, needing_repair(&world));
}

#[test]
fn taking_a_house_leaves_a_new_one() {
    let mut world = World::<Tst>::default();
    let at = Position::new(1, 1);
    world.get_house_mut(&at).status = HouseStatus::NeedsRepair;
    world.get_house_mut(&at).notes.insert(Id(0), 3);
    let house = world.take_house(&at);
    assert_eq!(HouseStatus::NeedsRepair, house.status);
    assert_eq!(vec![(0, 3)], house.notes.entries());
    assert_eq!(HouseStatus::Repaired, world.get_house(&at).status);
    assert!(world.get_house(&at).notes.entries().is_empty());
}
