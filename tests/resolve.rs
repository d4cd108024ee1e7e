use stepper::resolve::{closest_down, closest_up, resolve_new_value, sorted_ascending, StepError};
use stepper::Direction;

fn presets() -> Vec<u32> {
    vec![1, 2, 5, 10]
}

#[test]
fn up_moves_to_next_greater() {
    assert_eq!(resolve_new_value(Direction::Up, 3, presets()), Ok(5));
}

#[test]
fn down_moves_to_next_smaller() {
    assert_eq!(resolve_new_value(Direction::Down, 3, presets()), Ok(2));
}

#[test]
fn up_saturates_at_top() {
    assert_eq!(resolve_new_value(Direction::Up, 10, presets()), Ok(10));
}

#[test]
fn down_saturates_at_bottom() {
    assert_eq!(resolve_new_value(Direction::Down, 1, presets()), Ok(1));
}

#[test]
fn bottom_and_top_pick_extremes_for_any_current() {
    let c = vec![35, 11, 99];
    for v in [0, 11, 50, 99, 1000, u32::MAX] {
        assert_eq!(resolve_new_value(Direction::Bottom, v, c.clone()), Ok(11));
        assert_eq!(resolve_new_value(Direction::Top, v, c.clone()), Ok(99));
    }
}

#[test]
fn up_from_below_all_picks_smallest() {
    assert_eq!(resolve_new_value(Direction::Up, 0, vec![7, 3, 9]), Ok(3));
}

#[test]
fn down_from_above_all_picks_largest() {
    assert_eq!(resolve_new_value(Direction::Down, 100, vec![7, 3, 9]), Ok(9));
}

#[test]
fn up_from_a_candidate_skips_equal_values() {
    assert_eq!(resolve_new_value(Direction::Up, 5, presets()), Ok(10));
    assert_eq!(resolve_new_value(Direction::Down, 5, presets()), Ok(2));
}

#[test]
fn current_value_between_unsorted_candidates() {
    assert_eq!(resolve_new_value(Direction::Up, 6, vec![10, 1, 5, 2]), Ok(10));
    assert_eq!(resolve_new_value(Direction::Down, 6, vec![10, 1, 5, 2]), Ok(5));
}

#[test]
fn empty_candidates_are_an_error() {
    for d in [Direction::Bottom, Direction::Down, Direction::Up, Direction::Top] {
        assert_eq!(resolve_new_value(d, 3, Vec::new()), Err(StepError::EmptyCandidateSet));
    }
}

#[test]
fn single_candidate_is_always_picked() {
    for d in [Direction::Bottom, Direction::Down, Direction::Up, Direction::Top] {
        for v in [0, 4, 5, 6, u32::MAX] {
            assert_eq!(resolve_new_value(d, v, vec![5]), Ok(5));
        }
    }
}

#[test]
fn shuffled_candidates_give_same_results() {
    let orders = [vec![1, 2, 5, 10], vec![10, 5, 2, 1], vec![5, 1, 10, 2], vec![2, 10, 1, 5]];
    for d in [Direction::Bottom, Direction::Down, Direction::Up, Direction::Top] {
        for v in 0..12 {
            let first = resolve_new_value(d, v, orders[0].clone());
            for c in orders.iter() {
                assert_eq!(resolve_new_value(d, v, c.clone()), first);
            }
        }
    }
}

#[test]
fn duplicate_candidates_give_same_results() {
    let with_copies = vec![5, 1, 10, 2, 5, 5, 1, 10];
    for d in [Direction::Bottom, Direction::Down, Direction::Up, Direction::Top] {
        for v in 0..12 {
            assert_eq!(
                resolve_new_value(d, v, with_copies.clone()),
                resolve_new_value(d, v, presets())
            );
        }
    }
}

#[test]
fn extreme_values_are_handled() {
    let c = vec![0, u32::MAX];
    assert_eq!(resolve_new_value(Direction::Up, 0, c.clone()), Ok(u32::MAX));
    assert_eq!(resolve_new_value(Direction::Up, u32::MAX, c.clone()), Ok(u32::MAX));
    assert_eq!(resolve_new_value(Direction::Down, u32::MAX, c.clone()), Ok(0));
    assert_eq!(resolve_new_value(Direction::Down, 0, c), Ok(0));
}

#[test]
fn sorting_keeps_duplicates() {
    assert_eq!(sorted_ascending(&vec![5, 1, 10, 1, 2]), vec![1, 1, 2, 5, 10]);
    assert_eq!(sorted_ascending(&Vec::new()), Vec::<u32>::new());
}

#[test]
fn closest_up_on_sorted_values() {
    let s = presets();
    assert_eq!(closest_up(&s, 0), 1);
    assert_eq!(closest_up(&s, 2), 5);
    assert_eq!(closest_up(&s, 9), 10);
    assert_eq!(closest_up(&s, 11), 10);
}

#[test]
fn closest_down_on_sorted_values() {
    let s = presets();
    assert_eq!(closest_down(&s, 0), 1);
    assert_eq!(closest_down(&s, 5), 2);
    assert_eq!(closest_down(&s, 6), 5);
    assert_eq!(closest_down(&s, 11), 10);
}
