//! Tests of the crossed-pair guard's state machine and its round trip.

use cross_alloc::calloc::VecDeque;
use cross_alloc::cross::{CrossVec, CrossVecPair, CrossVecPairGuard, CrossVecPairGuardState};
use cross_alloc::lifos::FixedDequeLifos;

#[test]
fn cross_vec_pair_guard_state() {
    let pair: CrossVecPair<()> = CrossVecPair(CrossVec::new(), CrossVec::new());
    assert!(CrossVecPairGuardState::<()>::NotTakenYet(pair).is_not_taken_yet());

    assert!(CrossVecPairGuardState::<()>::TakenOut.is_taken_out());
    assert!(CrossVecPairGuardState::<()>::MovedBack.is_moved_back());
}

#[test]
fn guard_round_trip_restores_capacity_and_contents() {
    let mut lifos = FixedDequeLifos::<u64>::new_from_empty(VecDeque::with_capacity(5));
    lifos.push_front(1);
    lifos.push_front(2);
    lifos.push_back(9);
    let mut guard = CrossVecPairGuard::new_from_lifos(lifos);
    let pair = guard.temp_take();
    // Front half: most recent front push first. Back half: back pushes in
    // order.
    assert_eq!(pair.0.len(), 2);
    assert_eq!(*pair.0.get(0), 2);
    assert_eq!(*pair.0.get(1), 1);
    assert_eq!(pair.1.len(), 1);
    assert_eq!(*pair.1.get(0), 9);
    let mut joined = guard.move_back_join_into(pair);
    // The rejoined buffer has the original total capacity and the two
    // halves' combined length.
    assert_eq!(joined.capacity(), 5);
    assert_eq!(joined.len(), 3);
    assert_eq!(joined.pop(), Some(9));
    assert_eq!(joined.pop(), Some(1));
    assert_eq!(joined.pop(), Some(2));
}

#[test]
fn guard_round_trip_after_shrinking_the_halves() {
    let mut lifos = FixedDequeLifos::<u64>::new_from_empty(VecDeque::with_capacity(4));
    lifos.push_front(3);
    lifos.push_front(4);
    lifos.push_back(7);
    let mut guard = CrossVecPairGuard::new_from_lifos(lifos);
    let CrossVecPair(mut front, mut back) = guard.temp_take();
    // The recursive use may shrink the sides by consuming elements.
    assert_eq!(front.pop(), Some(3));
    assert_eq!(back.pop(), Some(7));
    let mut joined = guard.move_back_join_into(CrossVecPair(front, back));
    assert_eq!(joined.capacity(), 4);
    assert_eq!(joined.len(), 1);
    assert_eq!(joined.pop(), Some(4));
}
