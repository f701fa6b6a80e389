use repairmen::notes::Notes;
use repairmen::repairman::Id;
use repairmen::report::List;

#[test]
fn notes_start_empty() {
    let notes = Notes::new();
    assert_eq!(None, notes.get(Id(0)));
    assert_eq!(0, notes.total());
    assert!(notes.entries().is_empty());
    assert_eq!(0, Notes::default().total());
}

#[test]
fn insert_replaces_the_count_of_one_id() {
    let mut notes = Notes::new();
    notes.insert(Id(2), 5);
    notes.insert(Id(0), 1);
    notes.insert(Id(2), 7);
    assert_eq!(Some(7), notes.get(Id(2)));
    assert_eq!(Some(1), notes.get(Id(0)));
    assert_eq!(None, notes.get(Id(1)));
    assert_eq!(vec![(0, 1), (2, 7)], notes.entries());
    assert_eq!(8, notes.total());
}

#[test]
fn total_stops_at_the_greatest_number() {
    let mut notes = Notes::new();
    notes.insert(Id(0), usize::MAX - 1);
    notes.insert(Id(1), 5);
    assert_eq!(usize::MAX, notes.total());
}

#[test]
fn merge_takes_the_greater_count_of_each_id() {
    let mut mine = Notes::new();
    mine.insert(Id(1), 4);
    mine.insert(Id(3), 5);
    mine.insert(Id(4), 12);
    let mut theirs = Notes::new();
    theirs.insert(Id(2), 0);
    theirs.insert(Id(3), 7);
    theirs.insert(Id(4), 10);
    mine.merge_max(&theirs);
    assert_eq!(vec![(1, 4), (2, 0), (3, 7), (4, 12)], mine.entries());
    assert_eq!(vec![(2, 0), (3, 7), (4, 10)], theirs.entries());
}

#[test]
fn merge_never_lowers_and_reading_twice_changes_nothing() {
    let mut mine = Notes::new();
    mine.insert(Id(0), 3);
    mine.insert(Id(1), 1);
    let before = mine.clone();
    let mut theirs = Notes::new();
    theirs.insert(Id(0), 2);
    theirs.insert(Id(1), 9);
    theirs.insert(Id(5), 1);
    mine.merge_max(&theirs);
    for (id, count) in before.entries() {
        assert!(mine.get(Id(id)).unwrap() >= count);
    }
    for (id, count) in theirs.entries() {
        assert!(mine.get(Id(id)).unwrap() >= count);
    }
    let once = mine.entries();
    mine.merge_max(&theirs);
    assert_eq!(once, mine.entries());
}

#[test]
fn merge_stays_below_a_common_bound() {
    let truth = [(0usize, 4usize), (1, 2), (2, 6)];
    let mut mine = Notes::new();
    mine.insert(Id(0), 4);
    mine.insert(Id(2), 1);
    let mut theirs = Notes::new();
    theirs.insert(Id(1), 2);
    theirs.insert(Id(2), 5);
    mine.merge_max(&theirs);
    for (id, limit) in truth {
        assert!(mine.get(Id(id)).unwrap() <= limit);
    }
    assert_eq!(vec![(0, 4), (1, 2), (2, 5)], mine.entries());
}

#[test]
fn clone_of_notes_is_independent() {
    let mut notes = Notes::new();
    notes.insert(Id(1), 1);
    let copy = notes.clone();
    notes.insert(Id(1), 2);
    assert_eq!(Some(1), copy.get(Id(1)));
    assert_eq!(Some(2), notes.get(Id(1)));
}

#[test]
fn id_from_number_and_back() {
    let id: Id = 7.into();
    assert_eq!(Id(7), id);
    assert_eq!(7, id.number());
    assert_eq!(&7, id.as_ref());
    assert!(Id(1) < Id(2));
}

#[test]
fn list_adds_up_what_each_says_of_itself() {
    let mut list = List::new();
    assert_eq!(0, list.total_repaired());
    assert!(list.ids().is_empty());

    let mut first = Notes::new();
    first.insert(Id(0), 2);
    first.insert(Id(1), 3);
    let mut second = Notes::new();
    second.insert(Id(0), 1);
    second.insert(Id(1), 4);
    let third = Notes::new();
    list.insert(Id(1), second);
    list.insert(Id(0), first);
    list.insert(Id(5), third);

    assert_eq!(vec![Id(0), Id(1), Id(5)], list.ids());
    assert_eq!(2, list.repaired_by(Id(0)));
    assert_eq!(4, list.repaired_by(Id(1)));
    assert_eq!(0, list.repaired_by(Id(5)));
    assert_eq!(0, list.repaired_by(Id(9)));
    assert_eq!(6, list.total_repaired());
    assert_eq!(5, list.get(Id(0)).unwrap().total());
    assert!(list.get(Id(9)).is_none());
    assert_eq!(0, List::default().total_repaired());
}

#[test]
fn list_keeps_the_last_notebook_filed_for_an_id() {
    let mut list = List::new();
    let mut early = Notes::new();
    early.insert(Id(3), 1);
    let mut late = Notes::new();
    late.insert(Id(3), 2);
    list.insert(Id(3), early);
    list.insert(Id(3), late);
    assert_eq!(vec![Id(3)], list.ids());
    assert_eq!(2, list.total_repaired());
}
