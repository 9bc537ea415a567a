use claude_sync_watch::buffer::ChangeBuffer;

const SECOND: u128 = 1_000_000_000;

#[test]
fn new_buffer_is_empty_and_never_due() {
    let mut buffer = ChangeBuffer::new();
    assert!(!buffer.has_pending());
    assert_eq!(buffer.len(), 0);
    assert!(!buffer.should_flush_at(1_000 * SECOND, 0, 0));
    assert!(!buffer.should_flush(0, 0));
    assert!(buffer.take().is_empty());
}

#[test]
fn single_event_flushes_after_a_second_of_silence() {
    let mut buffer = ChangeBuffer::new();
    buffer.add_at("/l/a".to_string(), true, 5 * SECOND);
    assert!(buffer.has_pending());
    assert!(!buffer.should_flush_at(5 * SECOND, SECOND, 10 * SECOND));
    assert!(!buffer.should_flush_at(5 * SECOND + SECOND / 2, SECOND, 10 * SECOND));
    assert!(!buffer.should_flush_at(6 * SECOND, SECOND, 10 * SECOND));
    assert!(buffer.should_flush_at(6 * SECOND + 1, SECOND, 10 * SECOND));
    assert!(buffer.should_flush_at(7 * SECOND, SECOND, 10 * SECOND));
}

#[test]
fn continuous_events_flush_at_the_ten_second_mark() {
    let mut buffer = ChangeBuffer::new();
    let start = 100 * SECOND;
    let mut now = start;
    while now < start + 10 * SECOND {
        buffer.add_at("/l/a".to_string(), true, now);
        assert!(
            !buffer.should_flush_at(now + SECOND / 2 - 1, SECOND, 10 * SECOND),
            "flushed too early at {}",
            now - start
        );
        now += SECOND / 2;
    }
    buffer.add_at("/l/a".to_string(), true, now);
    assert_eq!(now, start + 10 * SECOND);
    assert!(buffer.should_flush_at(now, SECOND, 10 * SECOND));
    assert_eq!(buffer.len(), 1);
}

#[test]
fn every_pending_path_must_be_quiet() {
    let mut buffer = ChangeBuffer::new();
    buffer.add_at("/l/a".to_string(), true, 0);
    buffer.add_at("/r/b".to_string(), false, 3 * SECOND);
    assert!(!buffer.should_flush_at(4 * SECOND, SECOND, 10 * SECOND));
    assert!(buffer.should_flush_at(4 * SECOND + 1, SECOND, 10 * SECOND));
}

#[test]
fn a_clock_that_runs_backwards_counts_as_no_time_passed() {
    let mut buffer = ChangeBuffer::new();
    buffer.add_at("/l/a".to_string(), true, 10 * SECOND);
    assert!(!buffer.should_flush_at(2 * SECOND, SECOND, 10 * SECOND));
    assert!(!buffer.should_flush_at(2 * SECOND, 0, 10 * SECOND));
    assert!(buffer.should_flush_at(2 * SECOND, 0, 0));
}

#[test]
fn take_hands_out_paths_in_order_of_arrival() {
    let mut buffer = ChangeBuffer::new();
    buffer.add_at("/l/a".to_string(), true, 1);
    buffer.add_at("/r/b".to_string(), false, 2);
    buffer.add_at("/l/c".to_string(), true, 3);
    buffer.add_at("/l/a".to_string(), false, 4);
    assert_eq!(buffer.len(), 3);
    let batch = buffer.take();
    assert_eq!(
        batch,
        vec![("/l/a".to_string(), false), ("/r/b".to_string(), false), ("/l/c".to_string(), true)]
    );
    assert!(!buffer.has_pending());
    assert!(!buffer.should_flush_at(1_000 * SECOND, 0, 0));
}

#[test]
fn a_refreshed_path_keeps_the_batch_open_time() {
    let mut buffer = ChangeBuffer::new();
    buffer.add_at("/l/a".to_string(), true, 0);
    buffer.add_at("/l/a".to_string(), true, 9 * SECOND);
    assert!(!buffer.should_flush_at(9 * SECOND + 1, SECOND, 10 * SECOND));
    assert!(buffer.should_flush_at(10 * SECOND, SECOND, 10 * SECOND));
}

#[test]
fn a_new_batch_opens_after_take() {
    let mut buffer = ChangeBuffer::new();
    buffer.add_at("/l/a".to_string(), true, 0);
    buffer.take();
    buffer.add_at("/l/b".to_string(), true, 20 * SECOND);
    assert!(!buffer.should_flush_at(20 * SECOND + 1, SECOND, 10 * SECOND));
    assert!(buffer.should_flush_at(30 * SECOND, 100 * SECOND, 10 * SECOND));
}

#[test]
fn add_and_should_flush_read_the_clock() {
    let mut buffer = ChangeBuffer::new();
    buffer.add("/l/a".to_string(), true);
    assert!(buffer.has_pending());
    assert!(!buffer.should_flush(3_600 * SECOND, 3_600 * SECOND));
    assert!(buffer.should_flush(3_600 * SECOND, 0));
    let first = buffer.now();
    let second = buffer.now();
    assert!(second >= first);
}
