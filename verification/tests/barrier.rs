use repairmen::barrier::{Barrier, BarrierState};

#[test]
fn lone_holder_never_blocks_and_always_leads() {
    let barrier = Barrier::new();
    for _ in 0..10 {
        assert!(barrier.wait().is_leader());
    }
    assert!(Barrier::default().wait().is_leader());
}

#[test]
fn holder_that_is_left_alone_leads_again() {
    let barrier = Barrier::new();
    let second = barrier.clone();
    let third = second.clone();
    second.leave();
    third.leave();
    for _ in 0..3 {
        assert!(barrier.wait().is_leader());
    }
    let fourth = barrier.clone();
    barrier.leave();
    assert!(fourth.wait().is_leader());
}

#[test]
fn dropping_a_handle_leaves_the_group() {
    let barrier = Barrier::new();
    {
        let _second = barrier.clone();
        let _third = barrier.clone();
    }
    for _ in 0..3 {
        assert!(barrier.wait().is_leader());
    }
    let fourth = barrier.clone();
    drop(barrier);
    assert!(fourth.wait().is_leader());
}

#[test]
fn state_round_of_four_has_one_leader_round_after_round() {
    let mut state = BarrierState::new();
    state.join();
    state.join();
    state.join();
    for round in 0..50 {
        let mut leaders = 0;
        for arrival in 0..4 {
            assert!(state.same_generation(round));
            assert_eq!(arrival, state.count);
            if state.arrive() {
                leaders += 1;
                assert_eq!(3, arrival);
            }
        }
        assert_eq!(1, leaders);
        assert!(!state.same_generation(round));
        assert_eq!(0, state.count);
        assert_eq!(4, state.num_threads);
    }
}

#[test]
fn state_counts_arrivals_until_the_last() {
    let mut state = BarrierState::new();
    state.join();
    state.join();
    assert_eq!(3, state.num_threads);
    assert!(!state.arrive());
    assert!(!state.arrive());
    assert_eq!(2, state.count);
    assert_eq!(0, state.generation_id);
    assert!(state.same_generation(0));
    assert!(state.arrive());
    assert_eq!(
        BarrierState {
            count: 0,
            generation_id: 1,
            num_threads: 3,
            leader_open: false
        },
        state
    );
    assert!(!state.same_generation(0));
    assert!(!state.claim_leadership());
}

#[test]
fn state_after_a_departure_that_frees_the_waiters() {
    let mut state = BarrierState::new();
    state.join();
    state.join();
    assert!(!state.arrive());
    assert!(!state.leave());
    assert_eq!(2, state.num_threads);
    assert_eq!(1, state.count);
    assert!(state.leave());
    assert_eq!(
        BarrierState {
            count: 0,
            generation_id: 1,
            num_threads: 1,
            leader_open: true
        },
        state
    );
    assert!(state.claim_leadership());
    assert!(!state.claim_leadership());
    assert!(state.arrive());
    assert_eq!(2, state.generation_id);
}

#[test]
fn state_departure_with_nobody_waiting_frees_nobody() {
    let mut state = BarrierState::new();
    state.join();
    assert!(!state.leave());
    assert!(!state.leave());
    assert_eq!(0, state.num_threads);
    assert!(!state.leave());
    assert_eq!(
        BarrierState {
            count: 0,
            generation_id: 0,
            num_threads: 0,
            leader_open: false
        },
        state
    );
}

#[test]
fn state_generation_starts_over_after_the_greatest() {
    let mut state = BarrierState {
        count: 0,
        generation_id: usize::MAX,
        num_threads: 1,
        leader_open: false,
    };
    assert!(state.arrive());
    assert_eq!(0, state.generation_id);
    let mut full = BarrierState {
        count: 0,
        generation_id: 0,
        num_threads: usize::MAX,
        leader_open: false,
    };
    full.join();
    assert_eq!(usize::MAX, full.num_threads);
}
