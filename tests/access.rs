use singleton_sort::access::AccessState;

#[test]
fn readers_share_and_writer_excludes() {
    let mut lock = AccessState::new();
    for _ in 0..20 {
        assert!(lock.try_read());
    }
    assert_eq!(lock.readers(), 20);
    assert!(!lock.try_write());
    for _ in 0..20 {
        lock.end_read();
    }
    assert!(lock.try_write());
    assert!(lock.has_writer());
    assert!(!lock.try_read());
    assert!(!lock.try_write());
    assert_eq!(lock.readers(), 0);
    lock.end_write();
    assert!(!lock.has_writer());
    assert!(lock.try_read());
}

#[test]
fn alternating_readers_and_writers_never_overlap() {
    let mut lock = AccessState::new();
    let mut writes = 0usize;
    let mut reads = 0usize;
    for round in 0..30 {
        if round % 3 == 0 {
            assert!(lock.try_write());
            assert_eq!(lock.readers(), 0);
            writes += 1;
            lock.end_write();
        } else {
            assert!(lock.try_read());
            assert!(!lock.has_writer());
            reads += 1;
            lock.end_read();
        }
    }
    assert_eq!((reads, writes), (20, 10));
}
