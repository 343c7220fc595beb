//! A delayed-message dispatch engine.
//!
//! Clients admit a message tagged with a destination queue, a delivery mode
//! and a delivery time; the engine keeps admitted messages in a pending store
//! ordered by deadline, and hands each one to the delivery primitive no
//! earlier than its deadline. The store survives restarts through a snapshot
//! that round-trips exactly.

pub mod codec;
pub mod msg_type;
pub mod queue;
pub mod queue_manager;

use vstd::prelude::*;

use crate::codec::{parse_dec_u64, parse_u64_dec};
use crate::msg_type::{parse_mode, Mode, Msg, MsgHeap, MsgV};

verus! {

/// The fallback idle interval, in seconds: how long the scheduler sleeps
/// when the pending store is empty.
pub const SLEEP_SECOND: u64 = 10;

/// Nanoseconds in one second.
pub const NANOS_PER_SECOND: u64 = 1_000_000_000;

/// Why an admission was rejected. Rejection happens synchronously, before
/// any state changes.
#[derive(Clone, Copy, Debug, PartialEq, Eq, Structural)]
pub enum PushError {
    /// The delay was not a decimal number of seconds, or the deadline it
    /// gives lies beyond the representable range.
    InvalidDelay,
    /// The mode was neither `p2p` nor `broadcast` in any ASCII case.
    InvalidMode,
}

/// The deadline of a message admitted at `now` with the given delay, both in
/// nanoseconds since the epoch.
pub open spec fn deliver_at(now: u64, delay_secs: u64) -> int {
    now + delay_secs * NANOS_PER_SECOND
}

/// Admits one delayed message at wall-clock time `now` (nanoseconds since
/// the epoch): parses the delay and the mode, stamps a fresh identifier,
/// inserts the message into the pending store, and returns the identifier as
/// the admission receipt. Rejected admissions leave the store untouched.
///
/// The host persists the store and signals the scheduler after each
/// successful call.
pub fn push_delay_message(
    heap: &mut MsgHeap,
    queue_name: String,
    message: String,
    delay: &str,
    mode: &str,
    now: u64,
) -> (r: Result<String, PushError>)
    requires
        old(heap).wf(),
    ensures
        final(heap).wf(),
        match r {
            Ok(id) => {
                &&& parse_dec_u64(delay@) is Some
                &&& deliver_at(now, parse_dec_u64(delay@)->Some_0) <= u64::MAX
                &&& parse_mode(mode@) is Some
                &&& final(heap)@.to_multiset() == old(heap)@.to_multiset().insert(
                    MsgV {
                        id: id@,
                        queue_name: queue_name@,
                        msg: message@,
                        delay_time: deliver_at(now, parse_dec_u64(delay@)->Some_0) as u64,
                        mode: parse_mode(mode@)->Some_0,
                    },
                )
            },
            Err(PushError::InvalidDelay) => {
                &&& final(heap)@ == old(heap)@
                &&& (parse_dec_u64(delay@) is None || deliver_at(
                    now,
                    parse_dec_u64(delay@)->Some_0,
                ) > u64::MAX)
            },
            Err(PushError::InvalidMode) => {
                &&& final(heap)@ == old(heap)@
                &&& parse_dec_u64(delay@) is Some
                &&& deliver_at(now, parse_dec_u64(delay@)->Some_0) <= u64::MAX
                &&& parse_mode(mode@) is None
            },
        },
{
    let d = match parse_u64_dec(delay) {
        Some(d) => d,
        None => {
            return Err(PushError::InvalidDelay);
        },
    };
    let headroom = (u64::MAX - now) / NANOS_PER_SECOND;
    if d > headroom {
        proof {
            let c = NANOS_PER_SECOND as int;
            let m = u64::MAX - now;
            assert(d * c >= (headroom + 1) * c) by (nonlinear_arith)
                requires
                    d >= headroom + 1,
                    c > 0,
            ;
            assert((headroom + 1) * c == headroom * c + c);
            assert(headroom * c + (m as int) % c == m);
            assert(d * c > m);
        }
        return Err(PushError::InvalidDelay);
    }
    proof {
        let c = NANOS_PER_SECOND as int;
        let m = u64::MAX - now;
        assert(d * c <= headroom * c) by (nonlinear_arith)
            requires
                d <= headroom,
                c > 0,
        ;
        assert(headroom * c <= m);
    }
    let delay_time = now + d * NANOS_PER_SECOND;
    let m = match Mode::from_str(mode) {
        Ok(m) => m,
        Err(_) => {
            return Err(PushError::InvalidMode);
        },
    };
    let msg = Msg::new(queue_name, message, delay_time, m);
    let id = msg.id.clone();
    let ghost mv = msg@;
    heap.push(msg);
    proof {
        assert(mv =~= MsgV {
            id: id@,
            queue_name: mv.queue_name,
            msg: mv.msg,
            delay_time: delay_time,
            mode: m,
        });
    }
    Ok(id)
}

} // verus!
