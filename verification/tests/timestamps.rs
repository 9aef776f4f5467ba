use loadorder::load_order::timestamps::{padded_unique_timestamps, timestamps_fit};
use loadorder::plugin::Plugin;

fn plugins(times: &[u64]) -> Vec<Plugin> {
    times
        .iter()
        .enumerate()
        .map(|(index, time)| Plugin::new(&format!("Blank{}.esp", index), false, *time))
        .collect()
}

#[test]
fn padded_unique_timestamps_should_be_empty_for_no_plugins() {
    assert!(padded_unique_timestamps(&[]).is_empty());
}

#[test]
fn padded_unique_timestamps_should_sort_timestamps_that_are_all_different() {
    assert_eq!(vec![1, 2, 3, 7], padded_unique_timestamps(&plugins(&[3, 7, 1, 2])));
}

#[test]
fn padded_unique_timestamps_should_keep_timestamps_that_are_ascending() {
    assert_eq!(vec![0, 1, 59, 60, 61], padded_unique_timestamps(&plugins(&[0, 1, 59, 60, 61])));
}

#[test]
fn padded_unique_timestamps_should_pad_a_minute_apart_behind_the_latest_timestamp() {
    assert_eq!(vec![5, 65, 125], padded_unique_timestamps(&plugins(&[5, 5, 5])));
    assert_eq!(
        vec![10, 20, 30, 90, 150],
        padded_unique_timestamps(&plugins(&[20, 10, 30, 20, 10]))
    );
    assert_eq!(vec![0, 60], padded_unique_timestamps(&plugins(&[0, 0])));
}

#[test]
fn padded_unique_timestamps_should_give_timestamps_that_are_all_different() {
    let times = [7, 3, 7, 7, 3, 100, 42, 42, 0];

    let timestamps = padded_unique_timestamps(&plugins(&times));

    assert_eq!(times.len(), timestamps.len());
    assert_eq!(vec![0, 3, 7, 42, 100, 160, 220, 280, 340], timestamps);
    assert!(timestamps.windows(2).all(|pair| pair[0] < pair[1]));
}

#[test]
fn padded_unique_timestamps_should_change_nothing_when_given_its_own_result() {
    for times in [vec![3, 7, 1, 2], vec![5, 5, 5], vec![20, 10, 30, 20, 10], vec![]] {
        let once = padded_unique_timestamps(&plugins(&times));
        let twice = padded_unique_timestamps(&plugins(&once));

        assert_eq!(once, twice);
    }
}

#[test]
fn padded_unique_timestamps_should_reach_the_latest_time_that_there_is() {
    assert_eq!(
        vec![u64::MAX - 120, u64::MAX - 60, u64::MAX],
        padded_unique_timestamps(&plugins(&[u64::MAX - 120, u64::MAX - 120, u64::MAX - 120]))
    );
    assert_eq!(vec![0, u64::MAX], padded_unique_timestamps(&plugins(&[u64::MAX, 0])));
}

#[test]
fn timestamps_fit_should_be_true_if_no_timestamp_has_to_be_made_up() {
    assert!(timestamps_fit(&[]));
    assert!(timestamps_fit(&plugins(&[u64::MAX])));
    assert!(timestamps_fit(&plugins(&[u64::MAX, 0, 7])));
}

#[test]
fn timestamps_fit_should_be_true_if_the_made_up_timestamps_are_in_range() {
    assert!(timestamps_fit(&plugins(&[5, 5, 5])));
    assert!(timestamps_fit(&plugins(&[u64::MAX - 60, u64::MAX - 60])));
    assert!(timestamps_fit(&plugins(&[u64::MAX - 120, u64::MAX - 120, u64::MAX - 120])));
}

#[test]
fn timestamps_fit_should_be_false_if_a_made_up_timestamp_is_out_of_range() {
    assert!(!timestamps_fit(&plugins(&[u64::MAX, u64::MAX])));
    assert!(!timestamps_fit(&plugins(&[u64::MAX - 59, u64::MAX - 59])));
    assert!(!timestamps_fit(&plugins(&[u64::MAX - 119, 0, 0, u64::MAX - 119])));
}
