//! The scheduler's drain step: on every wake it removes the due messages
//! from the pending store, in deadline order, and decides how long to sleep
//! until the next deadline. The host runs the event loop, performs the
//! delivery calls this module prescribes, and hands the wall-clock time in.

use vstd::prelude::*;

use crate::msg_type::{msg_json, Mode, Msg, MsgHeap, MsgV};
use crate::{NANOS_PER_SECOND, SLEEP_SECOND};

verus! {

/// One delivery instruction: the host command to call, the destination key,
/// and the payload to carry.
pub struct DispatchCall {
    /// `"RPUSH"` for point-to-point delivery, `"PUBLISH"` for broadcast.
    pub command: String,
    /// The destination list or channel.
    pub queue_name: String,
    /// The dispatch payload: the message as a JSON record.
    pub payload: String,
}

/// The mathematical value of a delivery instruction.
#[verifier::ext_equal]
pub ghost struct DispatchCallV {
    pub command: Seq<char>,
    pub queue_name: Seq<char>,
    pub payload: Seq<char>,
}

impl View for DispatchCall {
    type V = DispatchCallV;

    open spec fn view(&self) -> DispatchCallV {
        DispatchCallV {
            command: self.command@,
            queue_name: self.queue_name@,
            payload: self.payload@,
        }
    }
}

/// The delivery instruction a message calls for: its payload on its queue,
/// through the list primitive for point-to-point mode and the publish
/// primitive for broadcast mode.
pub open spec fn dispatch_of(m: MsgV) -> DispatchCallV {
    DispatchCallV {
        command: match m.mode {
            Mode::P2P => "RPUSH"@,
            Mode::Broadcast => "PUBLISH"@,
        },
        queue_name: m.queue_name,
        payload: msg_json(m),
    }
}

/// Translates one due message into its delivery instruction.
pub fn pop_message(msg: &Msg) -> (c: DispatchCall)
    ensures
        c@ == dispatch_of(msg@),
{
    let command = match msg.mode {
        Mode::P2P => String::from_str("RPUSH"),
        Mode::Broadcast => String::from_str("PUBLISH"),
    };
    let payload = msg.to_json();
    let queue_name = msg.queue_name.clone();
    let c = DispatchCall { command, queue_name, payload };
    proof {
        assert(c@ =~= dispatch_of(msg@));
    }
    c
}

/// One drain pass at wall-clock time `now`, in nanoseconds since the epoch.
///
/// Removes every entry whose deadline has passed — never one whose deadline
/// is still in the future — and returns their delivery instructions in
/// non-decreasing deadline order, together with how long to sleep, in
/// nanoseconds: until the earliest remaining deadline, or the fallback idle
/// interval if the store is left empty.
pub fn handle_heap_msg(heap: &mut MsgHeap, now: u64) -> (r: (Vec<DispatchCall>, u64))
    requires
        old(heap).wf(),
    ensures
        final(heap).wf(),
        r.0@.len() <= old(heap)@.len(),
        final(heap)@ =~= old(heap)@.skip(r.0@.len() as int),
        // each instruction belongs to the entry it drained, in store order
        forall|i: int| 0 <= i < r.0@.len() ==> r.0@[i]@ == dispatch_of(#[trigger] old(heap)@[i]),
        // no early dispatch: every drained entry was due
        forall|i: int| 0 <= i < r.0@.len() ==> (#[trigger] old(heap)@[i]).delay_time <= now,
        // a full drain: every remaining entry is still in the future
        forall|i: int|
            r.0@.len() <= i < old(heap)@.len() ==> (#[trigger] old(heap)@[i]).delay_time > now,
        // dispatch order is non-decreasing in deadline
        forall|i: int, j: int|
            0 <= i <= j < r.0@.len() ==> (#[trigger] old(heap)@[i]).delay_time <= (#[trigger] old(
                heap,
            )@[j]).delay_time,
        // the next wake: the earliest remaining deadline, or the idle fallback
        r.1 == if final(heap)@.len() == 0 {
            (SLEEP_SECOND * NANOS_PER_SECOND) as u64
        } else {
            (final(heap)@[0].delay_time - now) as u64
        },
{
    let ghost orig = heap@;
    let mut calls: Vec<DispatchCall> = Vec::new();
    let mut done = false;
    proof {
        assert(orig.skip(0) =~= orig);
    }
    while !done
        invariant
            heap.wf(),
            calls@.len() <= orig.len(),
            heap@ =~= orig.skip(calls@.len() as int),
            forall|i: int| 0 <= i < calls@.len() ==> calls@[i]@ == dispatch_of(#[trigger] orig[i]),
            forall|i: int| 0 <= i < calls@.len() ==> (#[trigger] orig[i]).delay_time <= now,
            forall|i: int, j: int|
                0 <= i <= j < orig.len() ==> (#[trigger] orig[i]).delay_time <= (
                #[trigger] orig[j]).delay_time,
            done ==> (heap@.len() == 0 || heap@[0].delay_time > now),
        decreases heap@.len() + (if done { 0int } else { 1int }),
    {
        let due = match heap.peek() {
            Some(m) => m.delay_time <= now,
            None => false,
        };
        if !due {
            done = true;
        } else {
            let ghost pre = heap@;
            match heap.pop() {
                Some(msg) => {
                    calls.push(pop_message(&msg));
                    proof {
                        assert(msg@ == orig[calls@.len() - 1]);
                        assert(pre.drop_first() =~= orig.skip(calls@.len() as int));
                    }
                },
                None => {
                    proof {
                        assert(false);
                    }
                },
            }
        }
    }
    let sleep = match heap.peek() {
        None => SLEEP_SECOND * NANOS_PER_SECOND,
        Some(m) => {
            proof {
                assert(m.delay_time > now);
            }
            m.delay_time - now
        },
    };
    (calls, sleep)
}

} // verus!
