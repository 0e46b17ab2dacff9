use maigacha::{PullHistory, PullType, Timestamp};

fn at(seconds: i64) -> Timestamp {
    Timestamp { seconds, nanos: 0 }
}

fn seconds_of(history: &PullHistory) -> Vec<i64> {
    history.export().iter().map(|r| r.0.seconds).collect()
}

#[test]
fn new_window_is_empty() {
    let history = PullHistory::new(35);
    assert_eq!(history.size, 35);
    assert!(history.history.is_empty());
    assert!(history.export().is_empty());
    assert!(!history.contains(PullType::Common));
    assert!(!history.contains(PullType::Rare));
}

#[test]
fn record_appends_at_the_back() {
    let mut history = PullHistory::new(10);
    history.record(at(1), PullType::Common, "Sword".to_string());
    history.record(Timestamp { seconds: 2, nanos: 5 }, PullType::Rare, "Gem".to_string());
    assert_eq!(
        history.export(),
        vec![
            (at(1), PullType::Common, "Sword".to_string()),
            (Timestamp { seconds: 2, nanos: 5 }, PullType::Rare, "Gem".to_string()),
        ]
    );
}

#[test]
fn record_drops_the_oldest_once_the_size_is_reached() {
    let mut history = PullHistory::new(3);
    history.record(at(1), PullType::Common, "a".to_string());
    assert_eq!(seconds_of(&history), vec![1]);
    history.record(at(2), PullType::Common, "b".to_string());
    assert_eq!(seconds_of(&history), vec![1, 2]);
    // The third record brings the length to the size: the oldest leaves.
    history.record(at(3), PullType::Common, "c".to_string());
    assert_eq!(seconds_of(&history), vec![2, 3]);
    history.record(at(4), PullType::Common, "d".to_string());
    assert_eq!(seconds_of(&history), vec![3, 4]);
}

#[test]
fn window_never_holds_more_than_its_size() {
    for size in 0..6_usize {
        let mut history = PullHistory::new(size);
        for n in 0..20 {
            history.record(at(n), PullType::Common, "x".to_string());
            assert!(history.history.len() <= size);
        }
    }
}

#[test]
fn window_of_size_zero_or_one_keeps_nothing() {
    let mut none = PullHistory::new(0);
    none.record(at(1), PullType::Rare, "Gem".to_string());
    assert!(none.history.is_empty());
    assert!(!none.contains(PullType::Rare));
    let mut one = PullHistory::new(1);
    one.record(at(1), PullType::Rare, "Gem".to_string());
    assert!(one.history.is_empty());
}

#[test]
fn full_window_turns_over_after_size_plus_one_records() {
    let mut history = PullHistory::new(3);
    history.history.push_back((at(1), PullType::Rare, "old".to_string()));
    history.history.push_back((at(2), PullType::Rare, "old".to_string()));
    history.history.push_back((at(3), PullType::Rare, "old".to_string()));
    for n in 10..14 {
        history.record(at(n), PullType::Common, "new".to_string());
    }
    assert_eq!(seconds_of(&history), vec![11, 12, 13]);
    assert!(!history.contains(PullType::Rare));
}

#[test]
fn partly_filled_window_turns_over_to_one_below_its_size() {
    let mut history = PullHistory::new(3);
    history.record(at(1), PullType::Rare, "old".to_string());
    for n in 10..14 {
        history.record(at(n), PullType::Common, "new".to_string());
    }
    assert_eq!(seconds_of(&history), vec![12, 13]);
    let mut empty = PullHistory::new(3);
    for n in 10..14 {
        empty.record(at(n), PullType::Common, "new".to_string());
    }
    assert_eq!(seconds_of(&empty), vec![12, 13]);
}

#[test]
fn default_window_keeps_thirty_four_pulls() {
    let mut history = PullHistory::new(35);
    for n in 0..100 {
        history.record(at(n), PullType::Common, "x".to_string());
    }
    assert_eq!(history.history.len(), 34);
    assert_eq!(seconds_of(&history), (66..100).collect::<Vec<i64>>());
}

#[test]
fn overfull_window_loses_one_record_for_each_one_added() {
    let mut history = PullHistory::new(2);
    for n in 0..4 {
        history.history.push_back((at(n), PullType::Common, "x".to_string()));
    }
    history.record(at(9), PullType::Rare, "y".to_string());
    assert_eq!(seconds_of(&history), vec![1, 2, 3, 9]);
}

#[test]
fn contains_looks_at_the_tier_of_every_record() {
    let mut history = PullHistory::new(10);
    history.record(at(1), PullType::Common, "Sword".to_string());
    assert!(history.contains(PullType::Common));
    assert!(!history.contains(PullType::Rare));
    history.record(at(2), PullType::Rare, "Gem".to_string());
    history.record(at(3), PullType::Common, "Sword".to_string());
    assert!(history.contains(PullType::Common));
    assert!(history.contains(PullType::Rare));
}

#[test]
fn update_records_the_tier_and_name_at_the_present_time() {
    let mut history = PullHistory::new(3);
    history.update(PullType::Rare, "Gem".to_string());
    let records = history.export();
    assert_eq!(records.len(), 1);
    assert_eq!(records[0].1, PullType::Rare);
    assert_eq!(records[0].2, "Gem");
    assert!(records[0].0.seconds > 1_704_067_200);
    history.update(PullType::Common, "a".to_string());
    history.update(PullType::Common, "b".to_string());
    let records = history.export();
    assert_eq!(records.len(), 2);
    assert_eq!(records[0].2, "a");
    assert_eq!(records[1].2, "b");
    assert!(records[0].0.seconds <= records[1].0.seconds);
}

#[test]
fn export_leaves_the_window_as_it_was() {
    let mut history = PullHistory::new(5);
    history.record(at(1), PullType::Common, "Sword".to_string());
    let first = history.export();
    let second = history.export();
    assert_eq!(first, second);
    assert_eq!(history.history.len(), 1);
}
