use emtux::order::MAX_COUNT;
use emtux::vec::{EmtuxVec, EmtuxVecError, EmtuxVecResult};
use std::sync::MutexGuard;

fn cells(count: usize) -> EmtuxVec<usize> {
    EmtuxVec::from_iter(0..count)
}

/// What a position is owed, written down without any sorting.
#[derive(Debug, PartialEq)]
enum Expected {
    Value(usize),
    Duplicate,
    OutsideBounds,
}

fn expected(indices: &[usize], len: usize) -> Vec<Expected> {
    let mut out = Vec::new();
    for pos in 0..indices.len() {
        if indices[pos] >= len {
            out.push(Expected::OutsideBounds);
        } else if indices[..pos].contains(&indices[pos]) {
            out.push(Expected::Duplicate);
        } else {
            out.push(Expected::Value(indices[pos]));
        }
    }
    out
}

fn seen(results: &[EmtuxVecResult<MutexGuard<'_, usize>>]) -> Vec<Expected> {
    let mut out = Vec::new();
    for result in results {
        match result {
            Ok(guard) => out.push(Expected::Value(**guard)),
            Err(EmtuxVecError::DuplicateIndex) => out.push(Expected::Duplicate),
            Err(EmtuxVecError::IndexOutsideBounds) => out.push(Expected::OutsideBounds),
            Err(EmtuxVecError::Poison(_)) => panic!("no cell was poisoned"),
        }
    }
    out
}

#[test]
fn test_scenario_duplicate_then_outside() {
    let vec = cells(10);
    {
        let [first, second] = vec.get_many([1, 1]);
        assert_eq!(*first.unwrap(), 1);
        assert!(matches!(second, Err(EmtuxVecError::DuplicateIndex)));
    }
    let [first, second] = vec.get_many([11, 2]);
    assert!(matches!(first, Err(EmtuxVecError::IndexOutsideBounds)));
    assert_eq!(*second.unwrap(), 2);
}

#[test]
fn test_batch_refers_to_the_cells_that_get_refers_to() {
    let vec = cells(10);
    let request = [7, 0, 9, 3];
    {
        let results = vec.get_many(request);
        for (result, index) in results.into_iter().zip(request) {
            let mut guard = result.unwrap();
            assert_eq!(*guard, index);
            *guard = 100 + index;
        }
    }
    for index in 0..10 {
        let wanted = if request.contains(&index) { 100 + index } else { index };
        assert_eq!(*vec.get(index).unwrap(), wanted);
    }
}

#[test]
fn test_duplicate_is_reported_at_the_second_position() {
    let vec = cells(10);
    for k in 0..10 {
        let [first, second] = vec.get_many([k, k]);
        assert_eq!(*first.unwrap(), k);
        assert!(matches!(second, Err(EmtuxVecError::DuplicateIndex)));
    }
}

#[test]
fn test_outside_bounds_is_reported_at_its_position_only() {
    let vec = cells(10);
    for k in 0..10 {
        for n in [10, 11, 1000, usize::MAX] {
            {
                let [inside, outside] = vec.get_many([k, n]);
                assert_eq!(*inside.unwrap(), k);
                assert!(matches!(outside, Err(EmtuxVecError::IndexOutsideBounds)));
            }
            let [outside, inside] = vec.get_many([n, k]);
            assert!(matches!(outside, Err(EmtuxVecError::IndexOutsideBounds)));
            assert_eq!(*inside.unwrap(), k);
        }
    }
}

#[test]
fn test_outside_bounds_twice_is_outside_bounds_twice() {
    let vec = cells(10);
    let [first, second] = vec.get_many([11, 11]);
    assert!(matches!(first, Err(EmtuxVecError::IndexOutsideBounds)));
    assert!(matches!(second, Err(EmtuxVecError::IndexOutsideBounds)));
}

#[test]
fn test_outside_bounds_is_never_a_duplicate() {
    let vec = cells(3);
    let results = vec.get_many([11, 2, 11, 3, 2, 3, 11]);
    assert_eq!(
        seen(&results),
        vec![
            Expected::OutsideBounds,
            Expected::Value(2),
            Expected::OutsideBounds,
            Expected::OutsideBounds,
            Expected::Duplicate,
            Expected::OutsideBounds,
            Expected::OutsideBounds,
        ]
    );
}

#[test]
fn test_empty_request() {
    let vec = cells(10);
    let results: [EmtuxVecResult<MutexGuard<'_, usize>>; 0] = vec.get_many([]);
    assert_eq!(results.len(), 0);
}

#[test]
fn test_request_on_empty_sequence() {
    let vec: EmtuxVec<usize> = EmtuxVec::default();
    let results = vec.get_many([0, 1, 0]);
    assert_eq!(
        seen(&results),
        vec![Expected::OutsideBounds, Expected::OutsideBounds, Expected::OutsideBounds]
    );
}

#[test]
fn test_all_duplicates() {
    let vec = cells(10);
    let results = vec.get_many([4, 4, 4, 4]);
    assert_eq!(
        seen(&results),
        vec![Expected::Value(4), Expected::Duplicate, Expected::Duplicate, Expected::Duplicate]
    );
}

#[test]
fn test_duplicate_apart() {
    let vec = cells(10);
    let results = vec.get_many([1, 2, 1]);
    assert_eq!(
        seen(&results),
        vec![Expected::Value(1), Expected::Value(2), Expected::Duplicate]
    );
}

#[test]
fn test_reversed_requests_both_complete() {
    let vec = cells(10);
    {
        let [a, b] = vec.get_many([2, 5]);
        assert_eq!((*a.unwrap(), *b.unwrap()), (2, 5));
    }
    let [b, a] = vec.get_many([5, 2]);
    assert_eq!((*b.unwrap(), *a.unwrap()), (5, 2));
}

#[test]
fn test_every_request_of_three() {
    let vec = cells(4);
    for a in 0..6 {
        for b in 0..6 {
            for c in 0..6 {
                let request = [a, b, c];
                let results = vec.get_many(request);
                assert_eq!(seen(&results), expected(&request, 4), "request {:?}", request);
            }
        }
    }
}

#[test]
fn test_every_request_of_four_from_a_view() {
    let vec = cells(3);
    let mut view = vec.get_view();
    for a in 0..4 {
        for b in 0..4 {
            for c in 0..4 {
                for d in 0..4 {
                    let request = [a, b, c, d];
                    let results = view.get_many(request);
                    assert_eq!(seen(&results), expected(&request, 3), "request {:?}", request);
                }
            }
        }
    }
}

#[test]
fn test_largest_request() {
    assert_eq!(MAX_COUNT, 34);
    let vec = cells(40);
    let mut request = [0usize; 34];
    for pos in 0..34 {
        request[pos] = 33 - pos;
    }
    {
        let results = vec.get_many(request);
        assert_eq!(seen(&results), expected(&request, 40));
    }
    for pos in 0..34 {
        request[pos] = (pos * 7) % 45;
    }
    request[20] = request[3];
    request[33] = request[0];
    let results = vec.get_many(request);
    assert_eq!(seen(&results), expected(&request, 40));
}

#[test]
fn test_requests_of_every_length() {
    let vec = cells(6);
    let r1 = vec.get_many([5]);
    assert_eq!(seen(&r1), expected(&[5], 6));
    drop(r1);
    let r5 = vec.get_many([4, 9, 0, 4, 2]);
    assert_eq!(seen(&r5), expected(&[4, 9, 0, 4, 2], 6));
    drop(r5);
    let r8 = vec.get_many([5, 4, 3, 2, 1, 0, 6, 0]);
    assert_eq!(seen(&r8), expected(&[5, 4, 3, 2, 1, 0, 6, 0], 6));
    drop(r8);
    let r13 = vec.get_many([3, 3, 1, 8, 0, 5, 1, 2, 4, 8, 7, 0, 5]);
    assert_eq!(seen(&r13), expected(&[3, 3, 1, 8, 0, 5, 1, 2, 4, 8, 7, 0, 5], 6));
}

#[test]
fn test_swaps_conserve_the_values() {
    let vec = cells(10);
    let mut view = vec.get_view();
    let mut state: u64 = 123;
    for _ in 0..200 {
        state = state.wrapping_mul(6364136223846793005).wrapping_add(1442695040888963407);
        let i0 = ((state >> 33) % 10) as usize;
        state = state.wrapping_mul(6364136223846793005).wrapping_add(1442695040888963407);
        let i1 = ((state >> 33) % 10) as usize;
        let [v0, v1] = view.get_many([i0, i1]);
        let mut g0 = v0.unwrap();
        match v1 {
            Ok(mut g1) => std::mem::swap(&mut *g0, &mut *g1),
            Err(EmtuxVecError::DuplicateIndex) => assert_eq!(i0, i1),
            Err(_) => panic!("both cells exist and none is poisoned"),
        }
    }
    let mut rest = vec.iter();
    let mut values = Vec::new();
    while let Some(outcome) = rest.next() {
        values.push(*outcome.unwrap());
    }
    values.sort();
    assert_eq!(values, vec![0, 1, 2, 3, 4, 5, 6, 7, 8, 9]);
}
