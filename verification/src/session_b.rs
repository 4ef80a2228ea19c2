//! Transfer session, strategy B: a fixed pool of parallel logical channels
//! with one acknowledgment per frame.  Each frame is framed into at most one
//! chunk per channel, every channel gets exactly one message (an empty one
//! when it carries no data this frame), all of them are dispatched without
//! waiting in between, and the session then waits for a single per-frame
//! ready signal before the next frame may start.
//!
//! As with strategy A, the session is a pure state machine: the caller owns
//! the transport, polls the shared connection and frame-ready flags, hands
//! each step a snapshot of them, and performs the returned action.

use crate::chunks::{chunk_count, chunk_message, frame_messages};
use vstd::prelude::*;

verus! {

/// Where a strategy-B transfer of one frame stands.
#[derive(Clone, Copy, PartialEq, Eq, Structural, Debug)]
pub enum StateB {
    /// Nothing dispatched yet for this frame.
    Idle,
    /// All channel messages were dispatched; the session is waiting for the
    /// single per-frame acknowledgment.
    AwaitingFrameAck,
    /// The frame's acknowledgment was observed.
    Done,
    /// The link dropped or a send failed; the frame is abandoned.
    Aborted,
}

/// What the caller must do after one polling step.
#[derive(Clone, Copy, PartialEq, Eq, Structural, Debug)]
pub enum ActionB {
    /// Deliver every channel's message for this frame now, in any order and
    /// without waiting in between.
    Dispatch,
    /// Nothing changed: poll the flags again after the short interval.
    Wait,
    /// The frame was dispatched and acknowledged.
    Complete,
    /// The transfer is abandoned; nothing further is sent for this frame.
    Abort,
}

/// The transition relation of a strategy-B session: from a state and a
/// snapshot of the connection and frame-ready flags to the next state and
/// the action the caller must perform.
pub open spec fn spec_step_b(s: StateB, connected: bool, acked: bool) -> (StateB, ActionB) {
    match s {
        StateB::Idle => {
            if !connected {
                (StateB::Aborted, ActionB::Abort)
            } else {
                (StateB::AwaitingFrameAck, ActionB::Dispatch)
            }
        },
        StateB::AwaitingFrameAck => {
            if !connected {
                (StateB::Aborted, ActionB::Abort)
            } else if !acked {
                (s, ActionB::Wait)
            } else {
                (StateB::Done, ActionB::Complete)
            }
        },
        StateB::Done => (s, ActionB::Complete),
        StateB::Aborted => (s, ActionB::Abort),
    }
}

/// Whether one step from `s` under these flag snapshots consumes the
/// per-frame acknowledgment.
pub open spec fn consumes_ack_b(s: StateB, connected: bool, acked: bool) -> bool {
    connected && acked && s is AwaitingFrameAck
}

/// A strategy-B transfer session for one frame.
pub struct SessionB {
    /// One wire message per logical channel, chunks first, empty messages on
    /// the channels left without data this frame.
    pub messages: Vec<Vec<u8>>,
    /// Where the transfer stands.
    pub state: StateB,
}

impl SessionB {
    /// The wire bytes of this session's channel messages.
    pub open spec fn msgs(self) -> Seq<Seq<u8>> {
        self.messages@.map(|i: int, c: Vec<u8>| c@)
    }

    /// Frames `payload` for a pool of `channels` logical channels of
    /// capacity `cap` and readies a fresh session.  A payload needing more
    /// chunks than there are channels is a capacity violation and is
    /// rejected rather than truncated.
    pub fn new(payload: &Vec<u8>, cap: usize, channels: usize) -> (r: Option<SessionB>)
        requires
            1 < cap <= 0xffff,
            channels <= 255,
        ensures
            match r {
                Some(s) => {
                    &&& chunk_count(payload@.len() as int, cap as int) <= channels as int
                    &&& s.state == StateB::Idle
                    &&& s.msgs().len() == channels
                    &&& forall|i: int|
                        0 <= i < chunk_count(payload@.len() as int, cap as int)
                            ==> #[trigger] s.msgs()[i] == chunk_message(payload@, cap as int, i)
                    &&& forall|i: int|
                        chunk_count(payload@.len() as int, cap as int) <= i < channels
                            ==> #[trigger] s.msgs()[i] == Seq::<u8>::empty()
                },
                None => chunk_count(payload@.len() as int, cap as int) > channels as int,
            },
    {
        let len = payload.len();
        let n: usize = if len == 0 {
            0
        } else {
            (len - 1) / (cap - 1) + 1
        };
        if n > channels {
            None
        } else {
            Some(SessionB { messages: frame_messages(payload, cap, channels), state: StateB::Idle })
        }
    }

    /// Number of logical channels in the pool.
    pub fn num_channels(&self) -> (n: usize)
        ensures
            n == self.msgs().len(),
    {
        self.messages.len()
    }

    /// The wire bytes of channel `i`'s message for this frame.
    pub fn message(&self, i: usize) -> (c: &Vec<u8>)
        requires
            i < self.msgs().len(),
        ensures
            c@ == self.msgs()[i as int],
    {
        &self.messages[i]
    }

    /// One polling step, driven by snapshots of the connection flag and the
    /// per-frame ready flag.  When the step consumes the acknowledgment
    /// (`consumes_ack_b`), the caller must clear the shared flag before
    /// starting the next frame.
    pub fn step(&mut self, connected: bool, acked: bool) -> (a: ActionB)
        ensures
            final(self).messages == old(self).messages,
            (final(self).state, a) == spec_step_b(old(self).state, connected, acked),
    {
        match self.state {
            StateB::Idle => {
                if !connected {
                    self.state = StateB::Aborted;
                    ActionB::Abort
                } else {
                    self.state = StateB::AwaitingFrameAck;
                    ActionB::Dispatch
                }
            },
            StateB::AwaitingFrameAck => {
                if !connected {
                    self.state = StateB::Aborted;
                    ActionB::Abort
                } else if !acked {
                    ActionB::Wait
                } else {
                    self.state = StateB::Done;
                    ActionB::Complete
                }
            },
            StateB::Done => ActionB::Complete,
            StateB::Aborted => ActionB::Abort,
        }
    }

    /// Abandons the frame, as after a failure of the send primitive.
    pub fn abort(&mut self)
        ensures
            final(self).state == StateB::Aborted,
            final(self).messages == old(self).messages,
    {
        self.state = StateB::Aborted;
    }
}

/// The state after driving a session from `s` through a sequence of
/// `(connected, acked)` flag snapshots.
pub open spec fn run_state_b(s: StateB, polls: Seq<(bool, bool)>) -> StateB
    decreases polls.len(),
{
    if polls.len() == 0 {
        s
    } else {
        run_state_b(spec_step_b(s, polls[0].0, polls[0].1).0, polls.subrange(1, polls.len() as int))
    }
}

/// How many times the whole frame is dispatched while driving a session
/// from `s` through `polls`.
pub open spec fn run_dispatches_b(s: StateB, polls: Seq<(bool, bool)>) -> nat
    decreases polls.len(),
{
    if polls.len() == 0 {
        0
    } else {
        let stepped = spec_step_b(s, polls[0].0, polls[0].1);
        (if stepped.1 is Dispatch {
            1nat
        } else {
            0nat
        }) + run_dispatches_b(stepped.0, polls.subrange(1, polls.len() as int))
    }
}

/// How many per-frame acknowledgments are consumed while driving a session
/// from `s` through `polls`.
pub open spec fn run_acks_b(s: StateB, polls: Seq<(bool, bool)>) -> nat
    decreases polls.len(),
{
    if polls.len() == 0 {
        0
    } else {
        (if consumes_ack_b(s, polls[0].0, polls[0].1) {
            1nat
        } else {
            0nat
        }) + run_acks_b(spec_step_b(s, polls[0].0, polls[0].1).0, polls.subrange(1, polls.len() as int))
    }
}

proof fn lemma_b_counts_from(s: StateB, polls: Seq<(bool, bool)>)
    ensures
        run_dispatches_b(s, polls) <= if s is Idle {
            1nat
        } else {
            0nat
        },
        run_acks_b(s, polls) <= if s is Done || s is Aborted {
            0nat
        } else {
            1nat
        },
        (s is Done || s is Aborted) ==> run_state_b(s, polls) == s,
        (s is Idle || s is AwaitingFrameAck) ==> (run_state_b(s, polls) is Done <==> run_acks_b(
            s,
            polls,
        ) == 1),
    decreases polls.len(),
{
    if polls.len() > 0 {
        let stepped = spec_step_b(s, polls[0].0, polls[0].1);
        lemma_b_counts_from(stepped.0, polls.subrange(1, polls.len() as int));
    }
}

/// Strategy-B dispatch: a session dispatches the frame's channel messages at
/// most once, so every frame goes out as exactly one burst of `channels`
/// messages.
pub proof fn lemma_b_dispatch_at_most_once(polls: Seq<(bool, bool)>)
    ensures
        run_dispatches_b(StateB::Idle, polls) <= 1,
{
    lemma_b_counts_from(StateB::Idle, polls);
}

/// Strategy-B pacing: a session finishes exactly when it has consumed the
/// single per-frame acknowledgment, so the next frame's first send can only
/// follow that acknowledgment.
pub proof fn lemma_b_done_iff_one_ack(polls: Seq<(bool, bool)>)
    ensures
        run_state_b(StateB::Idle, polls) is Done <==> run_acks_b(StateB::Idle, polls) == 1,
        run_acks_b(StateB::Idle, polls) <= 1,
{
    lemma_b_counts_from(StateB::Idle, polls);
}

proof fn lemma_b_run_split(s: StateB, front: Seq<(bool, bool)>, back: Seq<(bool, bool)>)
    ensures
        run_state_b(s, front + back) == run_state_b(run_state_b(s, front), back),
        run_dispatches_b(s, front + back) == run_dispatches_b(s, front) + run_dispatches_b(
            run_state_b(s, front),
            back,
        ),
    decreases front.len(),
{
    if front.len() == 0 {
        assert(front + back =~= back);
    } else {
        let stepped = spec_step_b(s, front[0].0, front[0].1);
        let front_rest = front.subrange(1, front.len() as int);
        assert((front + back).subrange(1, (front + back).len() as int) =~= front_rest + back);
        assert((front + back)[0] == front[0]);
        lemma_b_run_split(stepped.0, front_rest, back);
    }
}

/// Strategy-B abort: once a poll observes the link down, nothing further is
/// dispatched in this session — the caller returns to the connect-wait loop
/// instead of starting a new frame.
pub proof fn lemma_b_disconnect_stops_dispatches(polls: Seq<(bool, bool)>, t: int)
    requires
        0 <= t < polls.len(),
        polls[t].0 == false,
    ensures
        run_dispatches_b(StateB::Idle, polls) == run_dispatches_b(
            StateB::Idle,
            polls.subrange(0, t),
        ),
{
    let pre = polls.subrange(0, t);
    let post = polls.subrange(t, polls.len() as int);
    assert(pre + post =~= polls);
    lemma_b_run_split(StateB::Idle, pre, post);
    let st = run_state_b(StateB::Idle, pre);
    let stepped = spec_step_b(st, post[0].0, post[0].1);
    assert(post[0] == polls[t]);
    assert(stepped.0 is Done || stepped.0 is Aborted);
    assert(!(stepped.1 is Dispatch));
    lemma_b_counts_from(stepped.0, post.subrange(1, post.len() as int));
}

} // verus!
