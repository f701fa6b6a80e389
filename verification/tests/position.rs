use ndarray::Array2;
use rand::thread_rng;
use repairmen::error::CdnErrorKind;
use repairmen::position::{MoveDirection, Position};
use repairmen::world::WorldConfig;
use std::collections::HashSet;

#[derive(Debug)]
struct Tst;

impl WorldConfig for Tst {
    const MAX_LEN_X: usize = 4;
    const MAX_LEN_Y: usize = 3;
    const REPAIRMEN: usize = 3;
    const HOUSES_NEEDING_REPAIR: usize = 6;
}

const LEN: usize = Tst::MAX_LEN_X * Tst::MAX_LEN_Y;

#[test]
fn test_uniqueness_of_random_set() {
    let mut rng = thread_rng();
    let set: HashSet<_> = Position::<Tst>::new_random_set(&mut rng, LEN)
        .into_iter()
        .collect();
    assert_eq!(LEN, set.len())
}

#[test]
fn test_position_to_index() {
    let arr2: Array2<usize> =
        Array2::from_shape_vec((3, 4), vec![0, 1, 2, 3, 4, 5, 6, 7, 8, 9, 10, 11]).unwrap();

    let idx = Position::<Tst>::new(2, 1).to_index();
    assert_eq!(6, arr2[idx]);

    let idx = Position::<Tst>::new(1, 2).to_index();
    assert_eq!(9, arr2[idx]);

    let idx = Position::<Tst>::new(3, 2).to_index();
    assert_eq!(11, arr2[idx]);
}

#[test]
fn test_move_position() {
    let mut pos = Position::<Tst>::new(Tst::MAX_LEN_X - 1, Tst::MAX_LEN_Y - 1);
    pos.move_by(MoveDirection::Up).unwrap_err();
    pos.move_by(MoveDirection::Right).unwrap_err();

    let mut pos = Position::<Tst>::new(0, 0);
    pos.move_by(MoveDirection::Left).unwrap_err();
    pos.move_by(MoveDirection::Down).unwrap_err();

    pos.move_by(MoveDirection::Right).unwrap();
    assert_eq!([0, 1], pos.to_index());
    pos.move_by(MoveDirection::Left).unwrap();
    assert_eq!([0, 0], pos.to_index());
    pos.move_by(MoveDirection::Up).unwrap();
    assert_eq!([1, 0], pos.to_index());
    pos.move_by(MoveDirection::Down).unwrap();
    assert_eq!([0, 0], pos.to_index());
}

#[test]
fn test_direction_to_position() {
    let pos1 = Position::<Tst>::new(1, 1);

    let pos2 = Position::<Tst>::new(2, 1);
    assert_eq!(MoveDirection::Right, pos1.direction_to(&pos2));
    let pos2 = Position::<Tst>::new(1, 2);
    assert_eq!(MoveDirection::Up, pos1.direction_to(&pos2));
    let pos2 = Position::<Tst>::new(0, 1);
    assert_eq!(MoveDirection::Left, pos1.direction_to(&pos2));
    let pos2 = Position::<Tst>::new(1, 0);
    assert_eq!(MoveDirection::Down, pos1.direction_to(&pos2));
}

#[test]
fn failed_move_is_invalid_move_and_leaves_position() {
    let mut pos = Position::<Tst>::new(3, 2);
    let err = pos.move_by(MoveDirection::Right).unwrap_err();
    assert!(matches!(err.kind(), CdnErrorKind::InvalidMoveDirection));
    assert!(err.is_invalid_move());
    assert_eq!((3, 2), (pos.x(), pos.y()));
    let err = pos.move_by(MoveDirection::Up).unwrap_err();
    assert!(err.is_invalid_move());
    assert_eq!((3, 2), (pos.x(), pos.y()));
}

#[test]
fn move_right_adds_one_to_x_up_to_the_edge() {
    for y in 0..Tst::MAX_LEN_Y {
        for x in 0..Tst::MAX_LEN_X {
            let mut pos = Position::<Tst>::new(x, y);
            let moved = pos.move_by(MoveDirection::Right);
            if x < Tst::MAX_LEN_X - 1 {
                assert!(moved.is_ok());
                assert_eq!((x + 1, y), (pos.x(), pos.y()));
            } else {
                assert!(moved.is_err());
                assert_eq!((x, y), (pos.x(), pos.y()));
            }
        }
    }
}

#[test]
fn direction_to_undoes_every_legal_move() {
    let all = [
        MoveDirection::Right,
        MoveDirection::Left,
        MoveDirection::Up,
        MoveDirection::Down,
    ];
    for y in 0..Tst::MAX_LEN_Y {
        for x in 0..Tst::MAX_LEN_X {
            for direction in all {
                let from = Position::<Tst>::new(x, y);
                let mut to = from.clone();
                if to.move_by(direction).is_ok() {
                    assert_eq!(direction, from.direction_to(&to));
                    let mut again = from.clone();
                    again.move_by(from.direction_to(&to)).unwrap();
                    assert_eq!(to, again);
                }
            }
        }
    }
}

#[test]
fn random_set_of_six_has_six_distinct_cells_on_the_grid() {
    let mut rng = thread_rng();
    let set = Position::<Tst>::new_random_set(&mut rng, 6);
    assert_eq!(6, set.len());
    let distinct: HashSet<_> = set.iter().cloned().collect();
    assert_eq!(6, distinct.len());
    for pos in &set {
        assert!(pos.x() < Tst::MAX_LEN_X && pos.y() < Tst::MAX_LEN_Y);
    }
}

#[test]
fn random_set_longer_than_the_grid_is_the_whole_grid() {
    let mut rng = thread_rng();
    let set = Position::<Tst>::new_random_set(&mut rng, LEN + 5);
    assert_eq!(LEN, set.len());
    for y in 0..Tst::MAX_LEN_Y {
        for x in 0..Tst::MAX_LEN_X {
            assert!(set.contains(&Position::new(x, y)));
        }
    }
}

#[test]
fn random_set_of_none_is_empty() {
    let mut rng = thread_rng();
    assert!(Position::<Tst>::new_random_set(&mut rng, 0).is_empty());
}

#[test]
fn random_set_does_not_always_start_with_the_same_cell() {
    let mut rng = thread_rng();
    let mut firsts = HashSet::new();
    for _ in 0..200 {
        let set = Position::<Tst>::new_random_set(&mut rng, 1);
        firsts.insert(set[0].clone());
    }
    assert!(firsts.len() > 1);
}

#[test]
fn random_position_lies_on_the_grid() {
    let mut rng = thread_rng();
    for _ in 0..200 {
        let pos = Position::<Tst>::random(&mut rng);
        assert!(pos.x() < Tst::MAX_LEN_X);
        assert!(pos.y() < Tst::MAX_LEN_Y);
    }
}

#[test]
fn direction_from_index() {
    assert_eq!(MoveDirection::Right, MoveDirection::from_index(0));
    assert_eq!(MoveDirection::Left, MoveDirection::from_index(1));
    assert_eq!(MoveDirection::Up, MoveDirection::from_index(2));
    assert_eq!(MoveDirection::Down, MoveDirection::from_index(3));
    assert_eq!(MoveDirection::Down, MoveDirection::from_index(17));
    let mut rng = thread_rng();
    let mut seen = HashSet::new();
    for _ in 0..400 {
        seen.insert(MoveDirection::random(&mut rng) as u8);
    }
    assert_eq!(4, seen.len());
}

#[test]
fn neighbors_are_the_legal_steps() {
    let corner = Position::<Tst>::new(0, 0);
    let found: HashSet<_> = corner.neighbors().into_iter().collect();
    let expected: HashSet<_> = [Position::new(1, 0), Position::new(0, 1)]
        .into_iter()
        .collect();
    assert_eq!(expected, found);

    let inner = Position::<Tst>::new(1, 1);
    let cells = inner.neighbors();
    assert_eq!(4, cells.len());
    let found: HashSet<_> = cells.into_iter().collect();
    let expected: HashSet<_> = [
        Position::new(2, 1),
        Position::new(0, 1),
        Position::new(1, 2),
        Position::new(1, 0),
    ]
    .into_iter()
    .collect();
    assert_eq!(expected, found);
}

#[test]
fn neighbors_come_in_more_than_one_order() {
    let inner = Position::<Tst>::new(1, 1);
    let mut firsts = HashSet::new();
    for _ in 0..200 {
        firsts.insert(inner.neighbors()[0].clone());
    }
    assert!(firsts.len() > 1);
}
