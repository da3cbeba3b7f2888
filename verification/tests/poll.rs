use mdns::poll::{became_readable, poll_until, wait_readable, Poll, PollEvent};

const TIMEOUT: u128 = 2_000_000_000;

#[test]
fn descriptor_is_the_only_one_in_its_set() {
    for fd in [0, 1, 7, 8, 9, 63, 500, 1023] {
        let request = wait_readable(fd, 0).unwrap();
        assert_eq!(request.nfds, fd + 1);
        for k in 0..1024 {
            let bit = request.read_fds[k / 8] >> (k % 8) & 1;
            assert_eq!(bit == 1, k as i32 == fd);
        }
    }
}

#[test]
fn descriptor_out_of_range_is_not_waited_for() {
    assert!(wait_readable(-1, 0).is_none());
    assert!(wait_readable(1024, 0).is_none());
    assert!(wait_readable(i32::MAX, 0).is_none());
}

#[test]
fn timeout_is_split_into_seconds_and_microseconds() {
    let request = wait_readable(3, 2_000_000_000 + 34_567_891).unwrap();
    assert_eq!((request.sec, request.usec), (2, 34_567));
    let request = wait_readable(3, 100_000_000).unwrap();
    assert_eq!((request.sec, request.usec), (0, 100_000));
}

#[test]
fn only_a_positive_count_is_readable() {
    assert!(became_readable(1));
    assert!(!became_readable(0));
    assert!(!became_readable(-1));
}

#[test]
fn poll_begins_with_the_clock_unless_done() {
    assert_eq!(poll_until(TIMEOUT, false, PollEvent::Begin), Poll::Clock);
    assert_eq!(poll_until(TIMEOUT, true, PollEvent::Begin), Poll::Finished);
}

#[test]
fn poll_waits_in_slices() {
    let at = |elapsed: u128| poll_until(TIMEOUT, false, PollEvent::Clock { elapsed });
    assert_eq!(at(0), Poll::Wait { nanos: 100_000_000 });
    assert_eq!(at(1_900_000_000), Poll::Wait { nanos: 100_000_000 });
    assert_eq!(at(1_900_000_001), Poll::Wait { nanos: 99_999_999 });
    assert_eq!(at(1_999_999_999), Poll::Wait { nanos: 1 });
    assert_eq!(at(2_000_000_000), Poll::Finished);
    assert_eq!(at(u128::MAX), Poll::Finished);
}

#[test]
fn poll_processes_what_is_readable() {
    let waited = |readable: bool| poll_until(TIMEOUT, false, PollEvent::Waited { readable });
    assert_eq!(waited(true), Poll::Process);
    assert_eq!(waited(false), Poll::Clock);
}

#[test]
fn poll_ends_when_done_or_on_an_error() {
    let processed = |done: bool, err: i32| poll_until(TIMEOUT, done, PollEvent::Processed { err });
    assert_eq!(processed(true, 0), Poll::Finished);
    assert_eq!(processed(false, 0), Poll::Clock);
    assert_eq!(processed(false, -65537), Poll::Finished);
    assert_eq!(processed(true, -65537), Poll::Finished);
}
