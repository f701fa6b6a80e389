use repairmen::barrier::Barrier;
use repairmen::notes::Notes;
use repairmen::repairman::{Id, Repairman};
use repairmen::report::List;
use repairmen::shared::SharedWorld;
use repairmen::world::{World, WorldConfig};

#[derive(Debug)]
struct City;

impl WorldConfig for City {}

#[derive(Debug)]
struct Quiet;

impl WorldConfig for Quiet {
    const MAX_LEN_X: usize = 2;
    const MAX_LEN_Y: usize = 2;
    const REPAIRMEN: usize = 1;
    const HOUSES_NEEDING_REPAIR: usize = 0;
}

#[derive(Debug)]
struct Busy;

impl WorldConfig for Busy {
    const MAX_LEN_X: usize = 3;
    const MAX_LEN_Y: usize = 3;
    const REPAIRMEN: usize = 5;
    const HOUSES_NEEDING_REPAIR: usize = 9;
}

// The repairmen take their turns one after another, each at a barrier of its own,
// on houses that stand each behind a lock of its own: a round of the whole group is
// one pass of the outer loop.
fn run<C: WorldConfig>() -> (List, usize) {
    assert!(World::<C>::config_is_valid());
    let world = World::<C>::new();
    let mut men: Vec<Option<Repairman<C>>> = world
        .get_repairmen_ids()
        .into_iter()
        .map(|id| Some(Repairman::new(id, Barrier::new(), &world)))
        .collect();
    let shared = SharedWorld::share(world);
    let mut list = List::new();
    let mut rounds = 0;
    while men.iter().any(|man| man.is_some()) {
        rounds += 1;
        assert!(rounds <= 4 * C::MAX_LEN_X * C::MAX_LEN_Y * C::MAX_LEN_X * C::MAX_LEN_Y + 1);
        for slot in men.iter_mut() {
            let Some(man) = slot.as_mut() else { continue };
            let mut goes_on = man.keeps_working();
            if goes_on {
                let here = man.get_position().clone();
                let before = man.get_notebook().clone();
                goes_on = man.take_turn(shared.house_at(&here)).unwrap();
                shared.publish(man.get_id(), man.get_position()).unwrap();
                for (id, count) in before.entries() {
                    assert!(man.get_notebook().get(Id(id)).unwrap() >= count);
                }
            }
            if !goes_on {
                let (id, notes) = slot.take().unwrap().into_report();
                list.insert(id, notes);
            }
        }
    }
    (list, rounds)
}

fn best_known(list: &List) -> Notes {
    let mut best = Notes::new();
    for id in list.ids() {
        best.merge_max(list.get(id).unwrap());
    }
    best
}

#[test]
fn four_repairmen_repair_six_houses_of_a_seven_by_seven_city() {
    for _ in 0..20 {
        let (list, _) = run::<City>();
        assert_eq!(4, list.ids().len());
        assert_eq!(6, best_known(&list).total());
        assert_eq!(6, list.total_repaired());
    }
}

#[test]
fn one_repairman_with_nothing_to_repair_stops_at_once() {
    let (list, rounds) = run::<Quiet>();
    assert_eq!(1, rounds);
    assert_eq!(vec![Id(0)], list.ids());
    assert!(list.get(Id(0)).unwrap().entries().is_empty());
    assert_eq!(0, list.total_repaired());
}

#[test]
fn crowded_city_in_need_of_repair_everywhere() {
    for _ in 0..20 {
        let (list, _) = run::<Busy>();
        assert_eq!(5, list.ids().len());
        assert_eq!(9, list.total_repaired());
        let best = best_known(&list);
        for id in list.ids() {
            let notes = list.get(id).unwrap();
            for (other, count) in notes.entries() {
                assert!(count <= best.get(Id(other)).unwrap());
                assert!(count <= list.repaired_by(Id(other)));
            }
        }
    }
}
