//! Waiting for the replies of an operation: what to hand to `select(2)`, and when to stop.
use vstd::prelude::*;

verus! {

/// What DNS-SD functions return on success.
pub const NO_ERR: i32 = 0;

/// The longest single wait of a poll, in nanoseconds.
pub const SLICE: u128 = 100_000_000;

/// The arguments of a `select(2)` call that waits until a descriptor is readable.
pub struct SelectRequest {
    /// One more than the highest descriptor in `read_fds`.
    pub nfds: i32,
    /// The set of descriptors to wait for, as an `fd_set` of 1024 bits.
    pub read_fds: [u8; 128],
    /// The whole seconds of the timeout.
    pub sec: i64,
    /// The microseconds of the timeout beyond the whole seconds.
    pub usec: i32,
}

/// Whether descriptor `k` is in the `fd_set` that `bytes` holds.
pub open spec fn in_fd_set(bytes: Seq<u8>, k: int) -> bool {
    (bytes[k / 8] >> ((k % 8) as u8)) & 1u8 == 1u8
}

/// The `select(2)` call that blocks until `fd` is readable or `timeout` nanoseconds have
/// passed, or `None` if an `fd_set` cannot hold `fd`: then it counts as not readable.
pub fn wait_readable(fd: i32, timeout: u128) -> (request: Option<SelectRequest>)
    ensures
        request is Some <==> 0 <= fd < 1024,
        request matches Some(r) ==> {
            &&& r.nfds == fd + 1
            &&& forall|k: int| 0 <= k < 1024 ==> #[trigger] in_fd_set(r.read_fds@, k) == (k == fd)
            &&& forall|j: int|
                0 <= j < 128 ==> #[trigger] r.read_fds@[j] as int == if j == fd as int / 8 {
                    vstd::arithmetic::power2::pow2((fd as int % 8) as nat) as int
                } else {
                    0
                }
            &&& r.sec == (timeout / 1_000_000_000) as i64
            &&& r.usec == timeout % 1_000_000_000 / 1_000
            &&& timeout <= i64::MAX ==> r.sec * 1_000_000 + r.usec == timeout / 1_000
            &&& 0 <= r.usec < 1_000_000
        },
{
    if fd < 0 || fd >= 1024 {
        return None;
    }
    let mut read_fds: [u8; 128] = [0u8;128];
    let bit: u8 = (fd % 8) as u8;
    read_fds[(fd / 8) as usize] = 1u8 << bit;
    assert forall|k: int| 0 <= k < 1024 implies #[trigger] in_fd_set(read_fds@, k) == (k == fd) by {
        let b = (k % 8) as u8;
        assert(b < 8 && bit < 8 ==> ((1u8 << bit) >> b) & 1u8 == (if b == bit {
            1u8
        } else {
            0u8
        })) by (bit_vector);
        assert((0u8 >> b) & 1u8 == 0u8) by (bit_vector);
    }
    proof {
        lemma_bit_value(bit);
    }
    Some(
        SelectRequest {
            nfds: fd + 1,
            read_fds,
            sec: (timeout / 1_000_000_000) as i64,
            usec: (timeout % 1_000_000_000 / 1_000) as i32,
        },
    )
}

/// The value of a single bit of a byte.
proof fn lemma_bit_value(bit: u8)
    requires
        bit < 8,
    ensures
        (1u8 << bit) as int == vstd::arithmetic::power2::pow2(bit as nat),
{
    vstd::arithmetic::power2::lemma2_to64();
    assert(1u8 << 0u8 == 1u8 && 1u8 << 1u8 == 2u8 && 1u8 << 2u8 == 4u8 && 1u8 << 3u8 == 8u8 && 1u8
        << 4u8 == 16u8 && 1u8 << 5u8 == 32u8 && 1u8 << 6u8 == 64u8 && 1u8 << 7u8 == 128u8)
        by (bit_vector);
}

/// Whether the descriptor became readable, given what `select(2)` returned.
pub fn became_readable(ready: i32) -> (readable: bool)
    ensures
        readable == (ready > 0),
{
    ready > 0
}

/// What a poll wants next.
#[derive(Clone, Copy, Debug, PartialEq, Eq, Structural)]
pub enum Poll {
    /// The time that has passed since the poll began.
    Clock,
    /// To wait until the operation is readable, for `nanos` nanoseconds at most.
    Wait { nanos: u128 },
    /// To process the result that can be read.
    Process,
    /// Nothing: the poll is over.
    Finished,
}

/// What a poll is told.
#[derive(Clone, Copy, Debug, PartialEq, Eq, Structural)]
pub enum PollEvent {
    /// The poll begins.
    Begin,
    /// `elapsed` nanoseconds have passed since it began.
    Clock { elapsed: u128 },
    /// A wait is over, and the operation is `readable` or not.
    Waited { readable: bool },
    /// A result was processed, with the given error code.
    Processed { err: i32 },
}

/// What a poll of at most `timeout` nanoseconds wants after `event`; `done` tells whether what
/// it polls for is there.
pub open spec fn poll_next(timeout: u128, done: bool, event: PollEvent) -> Poll {
    match event {
        PollEvent::Clock { elapsed } => if elapsed >= timeout {
            Poll::Finished
        } else if timeout - elapsed <= SLICE {
            Poll::Wait { nanos: (timeout - elapsed) as u128 }
        } else {
            Poll::Wait { nanos: SLICE }
        },
        PollEvent::Waited { readable: true } => Poll::Process,
        PollEvent::Processed { err } if err != NO_ERR => Poll::Finished,
        _ => if done {
            Poll::Finished
        } else {
            Poll::Clock
        },
    }
}

/// Polls in slices of 100 ms until `done` or until `timeout` nanoseconds have passed. A result
/// that cannot be processed ends the poll too.
pub fn poll_until(timeout: u128, done: bool, event: PollEvent) -> (next: Poll)
    ensures
        next == poll_next(timeout, done, event),
{
    match event {
        PollEvent::Clock { elapsed } => {
            if elapsed >= timeout {
                return Poll::Finished;
            }
            let remaining: u128 = timeout - elapsed;
            Poll::Wait {
                nanos: if remaining <= SLICE {
                    remaining
                } else {
                    SLICE
                },
            }
        },
        PollEvent::Waited { readable: true } => Poll::Process,
        PollEvent::Processed { err } if err != NO_ERR => Poll::Finished,
        _ => if done {
            Poll::Finished
        } else {
            Poll::Clock
        },
    }
}

/// A poll waits for at most 100 ms at a time, and never beyond its timeout; a shorter wait ends
/// with the timeout.
pub proof fn law_poll_keeps_to_its_timeout(timeout: u128, done: bool, elapsed: u128)
    ensures
        match poll_next(timeout, done, PollEvent::Clock { elapsed }) {
            Poll::Wait { nanos } => {
                &&& elapsed < timeout
                &&& 0 < nanos <= 100_000_000 && elapsed + nanos <= timeout
                &&& nanos == 100_000_000 || elapsed + nanos == timeout
            },
            Poll::Finished => elapsed >= timeout,
            _ => false,
        },
{
}

/// A poll ends exactly if it is done, its timeout has passed or a result could not be
/// processed; what can be read is processed first, and otherwise the clock is read again.
pub proof fn law_poll_ends_when_done(
    timeout: u128,
    done: bool,
    event: PollEvent,
    err: i32,
    readable: bool,
)
    ensures
        poll_next(timeout, done, event) == Poll::Finished ==> {
            ||| done
            ||| (event matches PollEvent::Clock { elapsed } && elapsed >= timeout)
            ||| (event matches PollEvent::Processed { err } && err != 0)
        },
        done && (event is Begin || event is Processed) ==> poll_next(timeout, done, event)
            == Poll::Finished,
        !done ==> poll_next(timeout, done, PollEvent::Begin) == Poll::Clock,
        poll_next(timeout, done, PollEvent::Processed { err }) == Poll::Finished <==> done || err
            != 0,
        poll_next(timeout, done, PollEvent::Processed { err }) == Poll::Clock <==> !done && err
            == 0,
        poll_next(timeout, done, PollEvent::Waited { readable }) == Poll::Process <==> readable,
        poll_next(timeout, done, PollEvent::Waited { readable }) == Poll::Clock <==> !readable
            && !done,
        poll_next(timeout, done, PollEvent::Waited { readable }) == Poll::Finished <==> !readable
            && done,
{
}

} // verus!
