use rt_plot::store::IngestError;
use rt_plot::store::TimeSeriesStore;
use rt_plot::window::TimeWindow;

#[test]
fn new_store_is_empty() {
    let store = TimeSeriesStore::new(3);
    assert_eq!(store.len(), 0);
    assert!(store.is_empty());
    assert_eq!(store.channels(), 3);
    assert_eq!(store.first_time(), None);
    assert_eq!(store.get(0), None);
}

#[test]
fn insert_at_a_held_time_replaces_the_values() {
    let mut store = TimeSeriesStore::new(2);
    assert_eq!(store.insert(10, vec![1, 2]), Ok(()));
    assert_eq!(store.insert(20, vec![3, 4]), Ok(()));
    assert_eq!(store.len(), 2);
    assert_eq!(store.insert(10, vec![5, 6]), Ok(()));
    assert_eq!(store.len(), 2);
    assert_eq!(store.get(10), Some(vec![5, 6]));
    assert_eq!(store.get(20), Some(vec![3, 4]));
    let all = store.range_query(&TimeWindow { start: 0, end: 100 });
    assert_eq!(all.len(), 2);
    assert_eq!(all[0].time, 10);
    assert_eq!(all[0].values, vec![5, 6]);
    assert_eq!(all[1].time, 20);
}

#[test]
fn insert_refuses_a_sample_of_the_wrong_size() {
    let mut store = TimeSeriesStore::new(2);
    assert_eq!(store.insert(1, vec![1]), Err(IngestError::ConfigMismatch));
    assert_eq!(store.insert(1, vec![1, 2, 3]), Err(IngestError::ConfigMismatch));
    assert_eq!(store.insert(1, vec![]), Err(IngestError::ConfigMismatch));
    assert!(store.is_empty());
    assert_eq!(store.insert(1, vec![1, 2]), Ok(()));
    assert_eq!(store.len(), 1);
}

#[test]
fn range_query_is_ordered_whatever_the_order_of_insertion() {
    let mut store = TimeSeriesStore::new(1);
    for time in [50, 10, 40, 20, 30, -5] {
        store.insert(time, vec![time * 2]).unwrap();
    }
    let found = store.range_query(&TimeWindow { start: 10, end: 50 });
    let times: Vec<i64> = found.iter().map(|s| s.time).collect();
    assert_eq!(times, vec![10, 20, 30, 40]);
    for sample in &found {
        assert_eq!(sample.values, vec![sample.time * 2]);
    }
}

#[test]
fn range_query_leaves_out_the_end_of_the_window() {
    let mut store = TimeSeriesStore::new(1);
    for time in 0..5 {
        store.insert(time, vec![0]).unwrap();
    }
    assert_eq!(store.range_query(&TimeWindow { start: 1, end: 3 }).len(), 2);
    assert_eq!(store.range_query(&TimeWindow { start: 3, end: 3 }).len(), 0);
    assert_eq!(store.range_query(&TimeWindow { start: 4, end: 5 }).len(), 1);
    assert_eq!(store.range_query(&TimeWindow { start: i64::MIN, end: i64::MAX }).len(), 5);
}

#[test]
fn range_query_of_a_window_that_ends_before_it_starts_is_empty() {
    let mut store = TimeSeriesStore::new(1);
    store.insert(1, vec![1]).unwrap();
    store.insert(2, vec![1]).unwrap();
    assert_eq!(store.range_query(&TimeWindow { start: 3, end: 0 }).len(), 0);
}

#[test]
fn range_query_can_be_made_again() {
    let mut store = TimeSeriesStore::new(1);
    for time in [3, 1, 2] {
        store.insert(time, vec![time]).unwrap();
    }
    let window = TimeWindow { start: 0, end: 10 };
    let first: Vec<i64> = store.range_query(&window).iter().map(|s| s.time).collect();
    let second: Vec<i64> = store.range_query(&window).iter().map(|s| s.time).collect();
    assert_eq!(first, vec![1, 2, 3]);
    assert_eq!(first, second);
}

#[test]
fn first_time_is_the_earliest() {
    let mut store = TimeSeriesStore::new(1);
    store.insert(7, vec![0]).unwrap();
    assert_eq!(store.first_time(), Some(7));
    store.insert(9, vec![0]).unwrap();
    assert_eq!(store.first_time(), Some(7));
    store.insert(-3, vec![0]).unwrap();
    assert_eq!(store.first_time(), Some(-3));
    store.insert(-3, vec![5]).unwrap();
    assert_eq!(store.first_time(), Some(-3));
}

#[test]
fn count_rises_by_one_with_each_new_time_and_only_then() {
    let mut store = TimeSeriesStore::new(1);
    for (k, time) in [40, 10, 30, 20].iter().enumerate() {
        assert_eq!(store.len(), k);
        store.insert(*time, vec![0]).unwrap();
        assert_eq!(store.len(), k + 1);
        assert!(!store.is_empty());
    }
    for time in [40, 10, 30, 20] {
        store.insert(time, vec![1]).unwrap();
        assert_eq!(store.len(), 4);
    }
    assert_eq!(store.insert(50, vec![1, 2]), Err(IngestError::ConfigMismatch));
    assert_eq!(store.len(), 4);
}
