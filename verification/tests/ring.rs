use resource_ring::ring::{
    first_resource, left_resource, right_resource, second_resource, sharers, MIN_RING_SIZE,
    TABLE_SIZE,
};

#[test]
fn left_is_own_position() {
    for worker in 0..TABLE_SIZE {
        assert_eq!(left_resource(worker), worker);
    }
}

#[test]
fn right_wraps_around() {
    assert_eq!(right_resource(0, 5), 1);
    assert_eq!(right_resource(1, 5), 2);
    assert_eq!(right_resource(2, 5), 3);
    assert_eq!(right_resource(3, 5), 4);
    assert_eq!(right_resource(4, 5), 0);
}

#[test]
fn right_is_successor_modulo_size() {
    for n in 1..9usize {
        for worker in 0..n {
            assert_eq!(right_resource(worker, n), (worker + 1) % n);
        }
    }
}

#[test]
fn odd_workers_take_left_then_right() {
    for worker in [1usize, 3] {
        assert_eq!(first_resource(worker, 5), left_resource(worker));
        assert_eq!(second_resource(worker, 5), right_resource(worker, 5));
    }
    assert_eq!((first_resource(1, 5), second_resource(1, 5)), (1, 2));
    assert_eq!((first_resource(3, 5), second_resource(3, 5)), (3, 4));
}

#[test]
fn even_workers_take_right_then_left() {
    for worker in [0usize, 2, 4] {
        assert_eq!(first_resource(worker, 5), right_resource(worker, 5));
        assert_eq!(second_resource(worker, 5), left_resource(worker));
    }
    assert_eq!((first_resource(0, 5), second_resource(0, 5)), (1, 0));
    assert_eq!((first_resource(2, 5), second_resource(2, 5)), (3, 2));
    assert_eq!((first_resource(4, 5), second_resource(4, 5)), (0, 4));
}

#[test]
fn minimal_ring_shares_both_resources() {
    assert_eq!(MIN_RING_SIZE, 2);
    assert_eq!((first_resource(0, 2), second_resource(0, 2)), (1, 0));
    assert_eq!((first_resource(1, 2), second_resource(1, 2)), (1, 0));
}

#[test]
fn every_resource_has_two_sharers() {
    assert_eq!(sharers(0, 5), (0, 4));
    assert_eq!(sharers(1, 5), (1, 0));
    assert_eq!(sharers(4, 5), (4, 3));
    assert_eq!(sharers(0, 2), (0, 1));
    assert_eq!(sharers(1, 2), (1, 0));
    for n in 2..9usize {
        for resource in 0..n {
            let (on_left, on_right) = sharers(resource, n);
            assert_ne!(on_left, on_right);
            assert_eq!(left_resource(on_left), resource);
            assert_eq!(right_resource(on_right, n), resource);
        }
    }
}

#[test]
fn first_and_second_differ() {
    for n in 2..9usize {
        for worker in 0..n {
            assert_ne!(first_resource(worker, n), second_resource(worker, n));
        }
    }
}
