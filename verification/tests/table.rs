use rpcmux::error::Error;
use rpcmux::table::PendingTable;
use rpcmux::table::Progress;

#[test]
fn registered_call_is_pending() {
    let mut table = PendingTable::new();
    assert!(!table.contains(3));
    assert!(!table.is_pending(3));
    assert!(table.register(3, 50));
    assert!(table.contains(3));
    assert!(table.is_pending(3));
    assert!(!table.contains(4));
}

#[test]
fn id_in_use_is_refused() {
    let mut table = PendingTable::new();
    assert!(table.register(3, 50));
    assert!(!table.register(3, 10));
    assert_eq!(table.poll(3, 10), Progress::Waiting);
    assert_eq!(table.poll(3, 50), Progress::Finished(Err(Error::Timeout)));
    assert!(table.register(3, 10));
}

#[test]
fn slot_is_filled_once() {
    let mut table = PendingTable::new();
    table.register(1, 50);
    assert!(table.complete(1, Ok(vec![1])));
    assert!(!table.complete(1, Ok(vec![2])));
    assert!(!table.complete(1, Err(Error::ConnectionClosed)));
    assert!(table.contains(1));
    assert!(!table.is_pending(1));
    assert_eq!(table.poll(1, 0), Progress::Finished(Ok(vec![1])));
    assert_eq!(table.poll(1, 0), Progress::Unknown);
    assert!(!table.complete(1, Ok(vec![3])));
    assert!(!table.contains(1));
}

#[test]
fn unknown_call_cannot_be_completed() {
    let mut table = PendingTable::new();
    assert!(!table.complete(9, Ok(vec![])));
    assert!(!table.contains(9));
    assert_eq!(table.poll(9, u64::MAX), Progress::Unknown);
}

#[test]
fn completed_call_is_handed_out_even_after_its_deadline() {
    let mut table = PendingTable::new();
    table.register(1, 50);
    table.complete(1, Err(Error::RemoteError(vec![7])));
    assert_eq!(table.poll(1, 1000), Progress::Finished(Err(Error::RemoteError(vec![7]))));
}

#[test]
fn deadline_decides_between_waiting_and_timeout() {
    let mut table = PendingTable::new();
    table.register(1, 50);
    assert_eq!(table.poll(1, 0), Progress::Waiting);
    assert_eq!(table.poll(1, 49), Progress::Waiting);
    assert!(table.is_pending(1));
    assert_eq!(table.poll(1, 50), Progress::Finished(Err(Error::Timeout)));
    assert!(!table.contains(1));
    table.register(2, 0);
    assert_eq!(table.poll(2, 0), Progress::Finished(Err(Error::Timeout)));
}

#[test]
fn fail_all_completes_what_was_pending() {
    let mut table = PendingTable::new();
    table.register(1, 50);
    table.register(2, 50);
    table.register(3, 50);
    table.complete(2, Ok(vec![2]));
    table.fail_all();
    assert!(!table.is_pending(1));
    assert!(!table.is_pending(3));
    assert_eq!(table.poll(1, 0), Progress::Finished(Err(Error::ConnectionClosed)));
    assert_eq!(table.poll(2, 0), Progress::Finished(Ok(vec![2])));
    assert_eq!(table.poll(3, 0), Progress::Finished(Err(Error::ConnectionClosed)));
    assert_eq!(table.poll(1, 0), Progress::Unknown);
    table.fail_all();
    assert!(!table.contains(1));
}

#[test]
fn removing_one_call_keeps_the_others() {
    let mut table = PendingTable::new();
    for id in 0..10u64 {
        assert!(table.register(id, 100 + id));
    }
    assert_eq!(table.poll(4, 104), Progress::Finished(Err(Error::Timeout)));
    assert_eq!(table.poll(0, 100), Progress::Finished(Err(Error::Timeout)));
    assert_eq!(table.poll(9, 109), Progress::Finished(Err(Error::Timeout)));
    for id in [1u64, 2, 3, 5, 6, 7, 8] {
        assert!(table.is_pending(id));
        assert_eq!(table.poll(id, 99 + id), Progress::Waiting);
        assert_eq!(table.poll(id, 100 + id), Progress::Finished(Err(Error::Timeout)));
    }
    assert!(!table.contains(5));
}

#[test]
fn first_free_skips_ids_in_use() {
    let mut table = PendingTable::new();
    assert_eq!(table.first_free(5), 5);
    table.register(5, 0);
    table.register(6, 0);
    table.register(8, 0);
    assert_eq!(table.first_free(5), 7);
    assert_eq!(table.first_free(6), 7);
    assert_eq!(table.first_free(7), 7);
    assert_eq!(table.first_free(8), 9);
    assert_eq!(table.first_free(4), 4);
    table.complete(6, Ok(vec![]));
    assert_eq!(table.first_free(5), 7);
    table.poll(6, 0);
    assert_eq!(table.first_free(6), 6);
    assert_eq!(table.first_free(5), 6);
}

#[test]
fn first_free_wraps_round() {
    let mut table = PendingTable::new();
    table.register(u64::MAX, 0);
    assert_eq!(table.first_free(u64::MAX), 0);
    table.register(0, 0);
    table.register(u64::MAX - 1, 0);
    assert_eq!(table.first_free(u64::MAX - 1), 1);
}
