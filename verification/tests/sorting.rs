//! Tests of the allocation-reusing partition sort and the consumers.

use cross_alloc::consume::{CollectAll, CollectUpTo, Consumer};
use cross_alloc::sort::sort;

fn buf_from(items: &[u64], cap: usize) -> cross_alloc::calloc::Vec<u64> {
    assert!(items.len() <= cap);
    let mut v = cross_alloc::calloc::Vec::with_capacity(cap);
    for &x in items {
        v.push(x);
    }
    v
}

fn drain(mut v: cross_alloc::calloc::Vec<u64>) -> Vec<u64> {
    let mut out = Vec::new();
    while let Some(x) = v.pop() {
        out.push(x);
    }
    out.reverse();
    out
}

fn run_sort(
    items: &[u64],
    consumer: &mut impl Consumer<u64>,
) -> (Vec<u64>, Vec<u64>, Vec<u64>, bool) {
    let n = items.len();
    let input = buf_from(items, n);
    let aux0 = buf_from(&[], n);
    let aux1 = buf_from(&[], n);
    let (r0, r1, r2, completed) = sort(input, aux0, aux1, consumer);
    (drain(r0), drain(r1), drain(r2), completed)
}

#[test]
fn sort_delivers_ascending_with_gapless_indices() {
    let mut consumer = CollectAll::new();
    let (r0, r1, r2, completed) = run_sort(&[5, 3, 8, 1], &mut consumer);
    assert!(completed);
    assert!(r0.is_empty() && r1.is_empty() && r2.is_empty());
    assert_eq!(consumer.into_seen(), vec![(0, 1), (1, 3), (2, 5), (3, 8)]);
}

#[test]
fn sort_early_stop_keeps_the_rest() {
    let mut consumer = CollectUpTo::new(2);
    let (r0, r1, r2, completed) = run_sort(&[5, 3, 8, 1], &mut consumer);
    assert!(!completed);
    assert_eq!(consumer.into_seen(), vec![(0, 1), (1, 3)]);
    let mut rest: Vec<u64> = [r0, r1, r2].concat();
    rest.sort();
    assert_eq!(rest, vec![5, 8]);
}

#[test]
fn sort_empty_input_completes_without_calls() {
    let mut consumer = CollectAll::new();
    let (r0, r1, r2, completed) = run_sort(&[], &mut consumer);
    assert!(completed);
    assert!(r0.is_empty() && r1.is_empty() && r2.is_empty());
    assert_eq!(consumer.into_seen(), vec![]);
}

#[test]
fn sort_single_element() {
    let mut consumer = CollectAll::new();
    let (r0, r1, r2, completed) = run_sort(&[42], &mut consumer);
    assert!(completed);
    assert!(r0.is_empty() && r1.is_empty() && r2.is_empty());
    assert_eq!(consumer.into_seen(), vec![(0, 42)]);
}

#[test]
fn sort_handles_duplicates() {
    let mut consumer = CollectAll::new();
    let (_, _, _, completed) = run_sort(&[2, 1, 2, 1], &mut consumer);
    assert!(completed);
    let values: Vec<u64> = consumer.into_seen().into_iter().map(|p| p.1).collect();
    assert_eq!(values, vec![1, 1, 2, 2]);
}

#[test]
fn sort_reversed_run() {
    let items: Vec<u64> = (0..10).rev().collect();
    let mut consumer = CollectAll::new();
    let (r0, r1, r2, completed) = run_sort(&items, &mut consumer);
    assert!(completed);
    assert!(r0.is_empty() && r1.is_empty() && r2.is_empty());
    let seen = consumer.into_seen();
    for (i, &(idx, value)) in seen.iter().enumerate() {
        assert_eq!(idx, i);
        assert_eq!(value, i as u64);
    }
}

#[test]
fn sort_declined_on_last_call_is_not_completed() {
    // The consumer takes all four values but answers false on the fourth
    // call, so the sort reports an early stop with nothing left over.
    let mut consumer = CollectUpTo::new(4);
    let (r0, r1, r2, completed) = run_sort(&[5, 3, 8, 1], &mut consumer);
    assert!(!completed);
    assert!(r0.is_empty() && r1.is_empty() && r2.is_empty());
    assert_eq!(consumer.into_seen(), vec![(0, 1), (1, 3), (2, 5), (3, 8)]);
}

#[test]
fn sort_with_roomy_limit_completes() {
    let mut consumer = CollectUpTo::new(10);
    let (r0, r1, r2, completed) = run_sort(&[4, 2, 9], &mut consumer);
    assert!(completed);
    assert!(r0.is_empty() && r1.is_empty() && r2.is_empty());
    assert_eq!(consumer.into_seen(), vec![(0, 2), (1, 4), (2, 9)]);
}

#[test]
fn sort_early_stop_mid_run() {
    let items: Vec<u64> = vec![7, 0, 9, 4, 8, 2, 6, 1, 5, 3];
    let mut consumer = CollectUpTo::new(4);
    let (r0, r1, r2, completed) = run_sort(&items, &mut consumer);
    assert!(!completed);
    let values: Vec<u64> = consumer.into_seen().into_iter().map(|p| p.1).collect();
    assert_eq!(values, vec![0, 1, 2, 3]);
    let mut rest: Vec<u64> = [r0, r1, r2].concat();
    rest.sort();
    assert_eq!(rest, vec![4, 5, 6, 7, 8, 9]);
}

#[test]
fn collect_up_to_declines_at_its_limit() {
    let mut consumer = CollectUpTo::new(1);
    assert!(!consumer.consume(0, 11));
    assert_eq!(consumer.into_seen(), vec![(0, 11)]);
}

#[test]
fn collect_all_always_goes_on() {
    let mut consumer = CollectAll::new();
    assert!(consumer.consume(0, 5));
    assert!(consumer.consume(1, 6));
    assert_eq!(consumer.into_seen(), vec![(0, 5), (1, 6)]);
}
