use ripparallel::jobs::{job_count, Broker, Dispatch, Message};

#[test]
fn lines_are_numbered_without_gaps() {
    let mut broker = Broker::new(2);
    assert_eq!(broker.next_sequence_number(), 0);
    match broker.number_line("first".to_string()) {
        Message::Job((0, line)) => assert_eq!(line, "first"),
        _ => panic!("expected job 0"),
    }
    match broker.number_line("second".to_string()) {
        Message::Job((1, line)) => assert_eq!(line, "second"),
        _ => panic!("expected job 1"),
    }
    assert_eq!(broker.next_sequence_number(), 2);
}

#[test]
fn refill_tops_the_queue_up_to_capacity() {
    let mut broker = Broker::new(3);
    assert!(matches!(broker.on_result(true, 0), Dispatch::Refill(3)));
    assert!(matches!(broker.on_result(true, 1), Dispatch::Refill(2)));
    assert!(matches!(broker.on_result(true, 3), Dispatch::Refill(0)));
    assert!(matches!(broker.on_result(true, 7), Dispatch::Refill(0)));
}

#[test]
fn refill_never_takes_the_queue_past_capacity() {
    let capacity = 4;
    let mut broker = Broker::new(capacity);
    let mut queue: usize = 0;
    let takes = [0, 1, 3, 0, 2, 4, 1, 0, 0, 5];
    for taken in takes {
        queue -= taken.min(queue);
        if let Dispatch::Refill(n) = broker.on_result(true, queue) {
            queue += n;
        }
        assert!(queue <= capacity);
    }
}

#[test]
fn one_quit_per_worker_once_input_is_exhausted() {
    let mut broker = Broker::new(2);
    assert!(matches!(broker.on_result(false, 0), Dispatch::Quit));
    assert!(matches!(broker.on_result(false, 0), Dispatch::Quit));
    assert!(matches!(broker.on_result(false, 0), Dispatch::Wait));
}

#[test]
fn worker_count_defaults_to_parallelism_less_one() {
    assert_eq!(job_count(None, 8), 7);
    assert_eq!(job_count(None, 2), 1);
    assert_eq!(job_count(None, 1), 1);
    assert_eq!(job_count(Some(3), 8), 3);
}
