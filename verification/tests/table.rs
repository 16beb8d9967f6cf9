use dining_philosophers::error::PoolError;
use dining_philosophers::table::Table;

/// Every fork of `table` can be taken by a newcomer, so every fork is free.
fn every_fork_is_free(table: &Table) -> bool {
    let mut probe = table.clone();
    let mut all = true;
    for fork in 0..probe.len() {
        if probe.try_acquire(fork, usize::MAX) != Ok(true) {
            all = false;
        }
    }
    all
}

#[test]
fn new_table_has_the_forks_asked_for_and_all_are_free() {
    let table = Table::new(5);
    assert_eq!(table.len(), 5);
    assert!(every_fork_is_free(&table));
    let small = Table::new(2);
    assert_eq!(small.len(), 2);
    assert!(every_fork_is_free(&small));
}

#[test]
fn acquire_past_the_end_is_invalid_and_leaves_all_forks_free() {
    let mut table = Table::new(5);
    assert_eq!(table.try_acquire(5, 0), Err(PoolError::InvalidIndex));
    assert_eq!(table.try_acquire(usize::MAX, 0), Err(PoolError::InvalidIndex));
    assert_eq!(table.len(), 5);
    assert!(every_fork_is_free(&table));
}

#[test]
fn acquire_takes_a_free_fork_once() {
    let mut table = Table::new(3);
    assert_eq!(table.try_acquire(1, 7), Ok(true));
    assert_eq!(table.try_acquire(1, 8), Ok(false));
    assert_eq!(table.try_acquire(1, 7), Ok(false));
    assert_eq!(table.try_acquire(0, 8), Ok(true));
    assert_eq!(table.try_acquire(2, 7), Ok(true));
    assert!(!every_fork_is_free(&table));
}

#[test]
fn busy_fork_stays_with_its_holder() {
    let mut table = Table::new(2);
    assert_eq!(table.try_acquire(0, 1), Ok(true));
    assert_eq!(table.try_acquire(0, 2), Ok(false));
    assert_eq!(table.release(0, 2), Err(PoolError::NotHeld));
    assert_eq!(table.release(0, 1), Ok(()));
}

#[test]
fn release_past_the_end_is_invalid() {
    let mut table = Table::new(2);
    assert_eq!(table.release(2, 0), Err(PoolError::InvalidIndex));
    assert_eq!(table.release(usize::MAX, 0), Err(PoolError::InvalidIndex));
    assert!(every_fork_is_free(&table));
}

#[test]
fn release_of_a_free_fork_is_not_held() {
    let mut table = Table::new(2);
    assert_eq!(table.release(0, 0), Err(PoolError::NotHeld));
    assert_eq!(table.release(1, 5), Err(PoolError::NotHeld));
    assert!(every_fork_is_free(&table));
}

#[test]
fn release_by_another_hand_is_not_held_and_changes_nothing() {
    let mut table = Table::new(4);
    assert_eq!(table.try_acquire(3, 10), Ok(true));
    assert_eq!(table.release(3, 11), Err(PoolError::NotHeld));
    assert_eq!(table.try_acquire(3, 11), Ok(false));
    assert_eq!(table.release(3, 10), Ok(()));
    assert_eq!(table.try_acquire(3, 11), Ok(true));
}

#[test]
fn release_frees_the_fork_for_the_next_hand() {
    let mut table = Table::new(2);
    assert_eq!(table.try_acquire(0, 1), Ok(true));
    assert_eq!(table.try_acquire(1, 1), Ok(true));
    assert_eq!(table.release(1, 1), Ok(()));
    assert_eq!(table.release(0, 1), Ok(()));
    assert!(every_fork_is_free(&table));
    assert_eq!(table.try_acquire(0, 2), Ok(true));
}

#[test]
fn second_release_is_not_held() {
    let mut table = Table::new(2);
    assert_eq!(table.try_acquire(1, 3), Ok(true));
    assert_eq!(table.release(1, 3), Ok(()));
    assert_eq!(table.release(1, 3), Err(PoolError::NotHeld));
    assert!(every_fork_is_free(&table));
}

#[test]
fn a_failed_request_leaves_the_other_forks_alone() {
    let mut table = Table::new(3);
    assert_eq!(table.try_acquire(0, 1), Ok(true));
    assert_eq!(table.try_acquire(9, 2), Err(PoolError::InvalidIndex));
    assert_eq!(table.release(9, 1), Err(PoolError::InvalidIndex));
    assert_eq!(table.release(1, 1), Err(PoolError::NotHeld));
    assert_eq!(table.try_acquire(0, 2), Ok(false));
    assert_eq!(table.try_acquire(1, 2), Ok(true));
    assert_eq!(table.try_acquire(2, 2), Ok(true));
}

#[test]
fn a_copy_of_the_table_goes_its_own_way() {
    let mut table = Table::new(2);
    assert_eq!(table.try_acquire(0, 1), Ok(true));
    let mut copy = table.clone();
    assert_eq!(copy.try_acquire(0, 2), Ok(false));
    assert_eq!(copy.release(0, 1), Ok(()));
    assert_eq!(table.try_acquire(0, 2), Ok(false));
    assert_eq!(copy.try_acquire(0, 2), Ok(true));
}

#[test]
fn acquire_and_release_count_never_exceeds_one_holder() {
    // Two hands hammer the same two forks in a fixed interleaving; a counter
    // per fork follows the granted requests and must stay at zero or one.
    let mut table = Table::new(2);
    let mut holders = [0usize; 2];
    for round in 0..1000usize {
        for who in 0..2usize {
            let fork = (round + who) % 2;
            if table.try_acquire(fork, who) == Ok(true) {
                holders[fork] += 1;
            }
            assert!(holders[0] <= 1 && holders[1] <= 1);
            let other = (fork + 1) % 2;
            if round % 3 == who && table.release(other, who) == Ok(()) {
                holders[other] -= 1;
            }
            if round % 5 == 0 && table.release(fork, who) == Ok(()) {
                holders[fork] -= 1;
            }
            assert!(holders[0] <= 1 && holders[1] <= 1);
        }
    }
}

#[test]
fn errors_describe_themselves() {
    assert_eq!(PoolError::InvalidIndex.describe(), "no such fork on the table");
    assert_eq!(PoolError::NotHeld.describe(), "fork is not held by the caller");
    assert_ne!(PoolError::InvalidIndex, PoolError::NotHeld);
}
