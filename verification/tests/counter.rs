use activity_roles::counter::{CounterRecord, CounterStore};
use activity_roles::error::StoreError;

#[test]
fn a_new_store_has_counted_nobody() {
    let store = CounterStore::new();
    assert_eq!(store.get(0), 0);
    assert_eq!(store.get(42), 0);
    assert_eq!(store.get(u64::MAX), 0);
}

#[test]
fn the_first_message_gives_one() {
    let mut store = CounterStore::new();
    assert_eq!(store.increment_and_get(42), Ok(1));
    assert_eq!(store.get(42), 1);
}

#[test]
fn each_increment_returns_its_own_count() {
    let mut store = CounterStore::new();
    let mut expected: u64 = 1;
    while expected <= 50 {
        assert_eq!(store.increment_and_get(7), Ok(expected));
        expected += 1;
    }
    assert_eq!(store.get(7), 50);
}

#[test]
fn n_messages_leave_a_count_of_n_however_they_interleave() {
    // 6 messages of user 1, mixed with 3 of user 2 and 1 of user 3.
    let authors = [1u64, 2, 1, 1, 3, 2, 1, 1, 2, 1];
    let mut store = CounterStore::new();
    for author in authors {
        store.increment_and_get(author).unwrap();
    }
    assert_eq!(store.get(1), 6);
    assert_eq!(store.get(2), 3);
    assert_eq!(store.get(3), 1);

    // The same messages in another order.
    let authors = [2u64, 2, 2, 3, 1, 1, 1, 1, 1, 1];
    let mut store = CounterStore::new();
    for author in authors {
        store.increment_and_get(author).unwrap();
    }
    assert_eq!(store.get(1), 6);
    assert_eq!(store.get(2), 3);
    assert_eq!(store.get(3), 1);
}

#[test]
fn reading_changes_nothing() {
    let mut store = CounterStore::new();
    store.increment_and_get(5).unwrap();
    assert_eq!(store.get(5), 1);
    assert_eq!(store.get(5), 1);
    assert_eq!(store.get(6), 0);
    assert_eq!(store.increment_and_get(6), Ok(1));
    assert_eq!(store.increment_and_get(5), Ok(2));
}

#[test]
fn counts_never_go_down() {
    let mut store = CounterStore::new();
    let mut last: u64 = 0;
    for author in [9u64, 9, 4, 9, 4, 9] {
        store.increment_and_get(author).unwrap();
        let now = store.get(9);
        assert!(now >= last);
        last = now;
    }
    assert_eq!(last, 4);
}

#[test]
fn a_store_reads_back_its_records() {
    let records = vec![
        CounterRecord { user_id: 1, count: 17 },
        CounterRecord { user_id: 2, count: 0 },
    ];
    let mut store = CounterStore::from_records(&records);
    assert_eq!(store.get(1), 17);
    assert_eq!(store.get(2), 0);
    assert_eq!(store.get(3), 0);
    assert_eq!(store.increment_and_get(1), Ok(18));
}

#[test]
fn the_later_of_two_records_stands() {
    let records = vec![
        CounterRecord { user_id: 1, count: 17 },
        CounterRecord { user_id: 1, count: 4 },
    ];
    let store = CounterStore::from_records(&records);
    assert_eq!(store.get(1), 4);
}

#[test]
fn a_count_that_cannot_grow_fails_and_stays() {
    let records = vec![
        CounterRecord { user_id: 1, count: u64::MAX },
        CounterRecord { user_id: 2, count: u64::MAX - 1 },
    ];
    let mut store = CounterStore::from_records(&records);
    assert_eq!(store.increment_and_get(1), Err(StoreError::Saturated));
    assert_eq!(store.get(1), u64::MAX);
    assert_eq!(store.increment_and_get(2), Ok(u64::MAX));
    assert_eq!(store.increment_and_get(2), Err(StoreError::Saturated));
    assert_eq!(store.get(2), u64::MAX);
}
