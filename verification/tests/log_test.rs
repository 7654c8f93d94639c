use simple_oracle::oracle_data::{is_expired, Error, OracleData, OracleStorage};
use std::cmp::Ordering;

const L: u64 = 10;

fn log_of(times: &[u64]) -> OracleStorage {
    let mut log = OracleStorage::default();
    for t in times {
        log.push(*t, t.to_string().into_bytes(), u64::MAX).unwrap();
    }
    log
}

fn payloads_of(times: &[u64]) -> Vec<Vec<u8>> {
    times.iter().map(|t| t.to_string().into_bytes()).collect()
}

#[test]
fn an_entry_expires_when_it_is_exactly_one_lifetime_old() {
    assert!(!is_expired(5, 14, L));
    assert!(is_expired(5, 15, L));
    assert!(is_expired(5, 16, L));
    assert!(!is_expired(5, 5, L));
    assert!(is_expired(0, u64::MAX, u64::MAX));
    assert!(!is_expired(1, u64::MAX, u64::MAX));
}

#[test]
fn an_entry_from_the_future_is_never_expired() {
    assert!(!is_expired(6, 5, L));
    assert!(!is_expired(u64::MAX, 0, 1));
    assert!(!is_expired(6, 5, 0));
}

#[test]
fn with_no_lifetime_everything_up_to_now_is_expired() {
    assert!(is_expired(5, 5, 0));
    let mut log = OracleStorage::default();
    log.push(1, b"a".to_vec(), 0).unwrap();
    log.push(2, b"b".to_vec(), 0).unwrap();
    assert_eq!(log.as_slice(), [OracleData::new(b"b".to_vec(), 2)]);
    assert!(log.iter_data(2, 0).is_empty());
}

#[test]
fn pushes_in_order_keep_the_timestamps_in_order() {
    let mut log = OracleStorage::default();
    for t in [3u64, 3, 4, 9, 9, 12, 13] {
        assert_eq!(log.push(t, vec![t as u8], L), Ok(()));
        let stored = log.as_slice();
        assert!(stored.windows(2).all(|w| w[0].saved_at() <= w[1].saved_at()));
        assert_eq!(stored.last().unwrap().saved_at(), t);
    }
    let times: Vec<u64> = log.as_slice().iter().map(|e| e.saved_at()).collect();
    assert_eq!(times, [4, 9, 9, 12, 13]);
}

#[test]
fn a_push_behind_the_newest_entry_fails_and_leaves_the_log() {
    let mut log = OracleStorage::default();
    log.push(10, b"0".to_vec(), L).unwrap();
    assert_eq!(log.push(0, b"1".to_vec(), L), Err(Error::AttemptToInsertHistoricalData));
    assert_eq!(log.as_slice(), [OracleData::new(b"0".to_vec(), 10)]);
    assert_eq!(log.push(9, b"1".to_vec(), L), Err(Error::AttemptToInsertHistoricalData));
    assert_eq!(log.len(), 1);
    assert_eq!(log.push(10, b"1".to_vec(), L), Ok(()));
    assert_eq!(log.len(), 2);
}

#[test]
fn a_failed_push_removes_nothing_even_where_entries_are_due() {
    let mut log = log_of(&[0, 100]);
    assert_eq!(log.push(50, b"x".to_vec(), L), Err(Error::AttemptToInsertHistoricalData));
    assert_eq!(log, log_of(&[0, 100]));
}

#[test]
fn reading_shrinks_from_the_front_as_time_goes_on() {
    let times: Vec<u64> = (0..10).collect();
    let log = log_of(&times);
    for now in 0..10u64 {
        assert_eq!(log.iter_data(now, L), payloads_of(&times));
    }
    for now in 10..20u64 {
        let first = (now - L + 1) as usize;
        assert_eq!(log.iter_data(now, L), payloads_of(&times[first..]));
        assert_eq!(log.iter_data(now, L).len(), 20 - 1 - now as usize);
        assert_eq!(log.partition_point(now, L), first);
    }
    assert!(log.iter_data(19, L).is_empty());
    assert!(log.iter_data(1000, L).is_empty());
    assert_eq!(log.partition_point(1000, L), 10);
}

#[test]
fn reading_leaves_the_log_as_it_is() {
    let log = log_of(&[0, 1, 2]);
    assert!(log.iter_data(100, L).is_empty());
    assert_eq!(log.len(), 3);
    assert_eq!(log, log_of(&[0, 1, 2]));
    assert_eq!(log.iter_data(2, L), payloads_of(&[0, 1, 2]));
}

#[test]
fn reading_before_the_newest_entry_does_not_fail() {
    let log = log_of(&[0, 5, 100]);
    assert_eq!(log.iter_data(50, L), payloads_of(&[100]));
    assert_eq!(log.iter_data(3, L), payloads_of(&[0, 5, 100]));
    assert_eq!(log.iter_data(14, L), payloads_of(&[5, 100]));
}

#[test]
fn an_empty_log_reads_empty_and_cleans_to_empty() {
    let mut log = OracleStorage::default();
    assert_eq!(log.len(), 0);
    assert!(log.iter_data(7, L).is_empty());
    assert_eq!(log.partition_point(7, L), 0);
    assert_eq!(log.clean_outdated_data(7, L), Ok(()));
    assert_eq!(log, OracleStorage::default());
}

#[test]
fn cleaning_removes_exactly_the_expired_front() {
    let mut log = log_of(&[0, 1, 5, 6, 20]);
    assert_eq!(log.clean_outdated_data(20, L), Ok(()));
    assert_eq!(log, log_of(&[20]));

    let mut log = log_of(&[0, 1, 5, 6, 15]);
    assert_eq!(log.clean_outdated_data(15, L), Ok(()));
    assert_eq!(log, log_of(&[6, 15]));

    let mut log = log_of(&[0, 1, 5]);
    assert_eq!(log.clean_outdated_data(9, L), Ok(()));
    assert_eq!(log, log_of(&[0, 1, 5]));

    let mut log = log_of(&[0, 1, 5]);
    assert_eq!(log.clean_outdated_data(15, L), Ok(()));
    assert_eq!(log, OracleStorage::default());
}

#[test]
fn cleaning_behind_the_newest_entry_fails_and_removes_nothing() {
    let mut log = log_of(&[0, 100]);
    assert_eq!(log.clean_outdated_data(99, L), Err(Error::AttemptToInsertHistoricalData));
    assert_eq!(log, log_of(&[0, 100]));
    assert_eq!(log.clean_outdated_data(100, L), Ok(()));
    assert_eq!(log, log_of(&[100]));
}

#[test]
fn cleaning_twice_is_cleaning_once() {
    for now in [0u64, 9, 10, 12, 15, 19, 20, 1000] {
        let mut once = log_of(&[0, 1, 5, 9]);
        let first = once.clean_outdated_data(now, L);
        let mut twice = once.clone();
        assert_eq!(twice.clean_outdated_data(now, L), first);
        assert_eq!(twice, once);
    }
    let mut stale = log_of(&[0, 100]);
    assert!(stale.clean_outdated_data(50, L).is_err());
    assert!(stale.clean_outdated_data(50, L).is_err());
    assert_eq!(stale, log_of(&[0, 100]));
}

#[test]
fn reading_agrees_with_cleaning_a_copy() {
    let log = log_of(&[0, 1, 5, 9, 9, 12]);
    for now in 12..30u64 {
        let mut copy = log.clone();
        assert_eq!(copy.clean_outdated_data(now, L), Ok(()));
        let left: Vec<&[u8]> = copy.as_slice().iter().map(|e| e.data()).collect();
        assert_eq!(log.iter_data(now, L), left);
        assert_eq!(copy.iter_data(now, L), left);
    }
}

#[test]
fn a_log_is_rebuilt_from_entries_in_order_only() {
    let entries = vec![
        OracleData::new(b"a".to_vec(), 1),
        OracleData::new(b"b".to_vec(), 1),
        OracleData::new(b"c".to_vec(), 7),
    ];
    let log = OracleStorage::from_entries(entries.clone()).unwrap();
    assert_eq!(log.as_slice(), entries.as_slice());
    assert_eq!(log.into_entries(), entries);

    let unordered = vec![OracleData::new(b"a".to_vec(), 2), OracleData::new(b"b".to_vec(), 1)];
    assert!(OracleStorage::from_entries(unordered).is_none());
    let late = vec![
        OracleData::new(b"a".to_vec(), 1),
        OracleData::new(b"b".to_vec(), 3),
        OracleData::new(b"c".to_vec(), 2),
    ];
    assert!(OracleStorage::from_entries(late).is_none());
    assert_eq!(OracleStorage::from_entries(vec![]), Some(OracleStorage::default()));
    assert!(OracleStorage::from_entries(vec![OracleData::new(vec![], 9)]).is_some());
}

#[test]
fn entries_are_ordered_by_their_time_alone() {
    let early = OracleData::new(b"z".to_vec(), 1);
    let late = OracleData::new(b"a".to_vec(), 2);
    let twin = OracleData::new(b"q".to_vec(), 2);
    assert_eq!(early.partial_cmp(&late), Some(Ordering::Less));
    assert_eq!(late.partial_cmp(&early), Some(Ordering::Greater));
    assert_eq!(late.partial_cmp(&twin), Some(Ordering::Equal));
    assert!(early < late);
    assert_ne!(late, twin);
}

#[test]
fn an_entry_gives_back_what_it_was_made_of() {
    let entry = OracleData::new(b"payload".to_vec(), 42);
    assert_eq!(entry.data(), b"payload");
    assert_eq!(entry.saved_at(), 42);
    assert_eq!(entry.clone(), entry);
    let empty = OracleData::default();
    assert_eq!(empty.data(), b"");
    assert_eq!(empty.saved_at(), 0);
}

#[test]
fn a_copy_of_a_log_does_not_follow_its_source() {
    let mut log = log_of(&[1, 2]);
    let copy = log.clone();
    log.push(3, b"3".to_vec(), u64::MAX).unwrap();
    assert_eq!(copy, log_of(&[1, 2]));
    assert_eq!(log, log_of(&[1, 2, 3]));
}

#[test]
fn large_payloads_and_times_are_kept() {
    let mut log = OracleStorage::default();
    let big = vec![0xAB; 100_000];
    log.push(u64::MAX - 1, big.clone(), L).unwrap();
    log.push(u64::MAX, vec![], L).unwrap();
    assert_eq!(log.iter_data(u64::MAX, L), [big.as_slice(), b"".as_slice()]);
    assert_eq!(log.push(0, vec![], L), Err(Error::AttemptToInsertHistoricalData));
}
