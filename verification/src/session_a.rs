//! Transfer session, strategy A: a single logical channel with one
//! acknowledgment per chunk.  The session sends one chunk, then waits until
//! the receiver's acknowledgment flag is observed before sending the next,
//! and abandons the rest of the frame as soon as a poll observes the link
//! down.
//!
//! The session itself is a pure state machine: the caller owns the real
//! transport, polls the shared connection and acknowledgment flags, hands
//! each step a snapshot of them, and performs the returned action (deliver a
//! chunk, sleep for the short poll interval, or stop).

use crate::chunks::{chunk_count, chunk_message, try_frame_payload};
use vstd::prelude::*;

verus! {

/// Where a strategy-A transfer of one frame stands.
#[derive(Clone, Copy, PartialEq, Eq, Structural, Debug)]
pub enum StateA {
    /// No chunk has been sent yet.
    Idle,
    /// Chunks `0 .. sent` have been sent; the session is waiting for the
    /// acknowledgment of chunk `sent - 1`.
    AwaitingAck { sent: usize },
    /// Every chunk was sent and the last acknowledgment was observed.
    Done,
    /// The link dropped or a send failed; the rest of the frame is abandoned.
    Aborted,
}

/// What the caller must do after one polling step.
#[derive(Clone, Copy, PartialEq, Eq, Structural, Debug)]
pub enum ActionA {
    /// Deliver chunk `index` on the channel now.
    SendChunk { index: usize },
    /// Nothing changed: poll the flags again after the short interval.
    Wait,
    /// The frame was fully sent and acknowledged.
    Complete,
    /// The transfer is abandoned; no further chunk of this frame is sent.
    Abort,
}

/// Validity of a session state for a frame of `n` chunks.
pub open spec fn state_wf_a(s: StateA, n: nat) -> bool {
    match s {
        StateA::AwaitingAck { sent } => 1 <= sent <= n,
        _ => true,
    }
}

/// The transition relation of a strategy-A session: from a state and a
/// snapshot of the connection and acknowledgment flags to the next state and
/// the action the caller must perform.
pub open spec fn spec_step_a(s: StateA, n: nat, connected: bool, acked: bool) -> (StateA, ActionA) {
    match s {
        StateA::Idle => {
            if !connected {
                (StateA::Aborted, ActionA::Abort)
            } else if n == 0 {
                (StateA::Done, ActionA::Complete)
            } else {
                (StateA::AwaitingAck { sent: 1 }, ActionA::SendChunk { index: 0 })
            }
        },
        StateA::AwaitingAck { sent } => {
            if !connected {
                (StateA::Aborted, ActionA::Abort)
            } else if !acked {
                (s, ActionA::Wait)
            } else if sent < n {
                (
                    StateA::AwaitingAck { sent: (sent + 1) as usize },
                    ActionA::SendChunk { index: sent },
                )
            } else {
                (StateA::Done, ActionA::Complete)
            }
        },
        StateA::Done => (s, ActionA::Complete),
        StateA::Aborted => (s, ActionA::Abort),
    }
}

/// Whether one step from `s` under these flag snapshots consumes an
/// acknowledgment.
pub open spec fn consumes_ack_a(s: StateA, connected: bool, acked: bool) -> bool {
    connected && acked && s is AwaitingAck
}

/// A strategy-A transfer session for one frame.
pub struct SessionA {
    /// The framed wire messages of the frame being transferred.
    pub chunks: Vec<Vec<u8>>,
    /// Where the transfer stands.
    pub state: StateA,
}

impl SessionA {
    /// The wire bytes of this session's chunks.
    pub open spec fn messages(self) -> Seq<Seq<u8>> {
        self.chunks@.map(|i: int, c: Vec<u8>| c@)
    }

    /// Session validity.
    pub open spec fn wf(self) -> bool {
        state_wf_a(self.state, self.chunks@.len() as nat)
    }

    /// Frames `payload` into chunks of capacity `cap` and readies a fresh
    /// session.  A payload that would need more than 255 chunks cannot be
    /// described by the one-byte count field and is rejected.
    pub fn new(payload: &Vec<u8>, cap: usize) -> (r: Option<SessionA>)
        requires
            1 < cap <= 0xffff,
        ensures
            match r {
                Some(s) => {
                    &&& chunk_count(payload@.len() as int, cap as int) <= 255
                    &&& s.wf()
                    &&& s.state == StateA::Idle
                    &&& s.messages().len() == chunk_count(payload@.len() as int, cap as int)
                    &&& forall|i: int|
                        0 <= i < s.messages().len() ==> #[trigger] s.messages()[i]
                            == chunk_message(payload@, cap as int, i)
                },
                None => chunk_count(payload@.len() as int, cap as int) > 255,
            },
    {
        match try_frame_payload(payload, cap) {
            Some(chunks) => Some(SessionA { chunks, state: StateA::Idle }),
            None => None,
        }
    }

    /// Number of chunks in this frame.
    pub fn num_chunks(&self) -> (n: usize)
        ensures
            n == self.messages().len(),
    {
        self.chunks.len()
    }

    /// The wire bytes of chunk `i`.
    pub fn chunk(&self, i: usize) -> (c: &Vec<u8>)
        requires
            i < self.messages().len(),
        ensures
            c@ == self.messages()[i as int],
    {
        &self.chunks[i]
    }

    /// One polling step, driven by snapshots of the connection flag and the
    /// acknowledgment flag.  When the step consumes an acknowledgment
    /// (`consumes_ack_a`), the caller must clear the shared flag before
    /// performing the returned action, so that the flag's owner can set it
    /// again for the next chunk.
    pub fn step(&mut self, connected: bool, acked: bool) -> (a: ActionA)
        requires
            old(self).wf(),
        ensures
            final(self).wf(),
            final(self).chunks == old(self).chunks,
            (final(self).state, a) == spec_step_a(
                old(self).state,
                old(self).chunks@.len() as nat,
                connected,
                acked,
            ),
    {
        let n = self.chunks.len();
        match self.state {
            StateA::Idle => {
                if !connected {
                    self.state = StateA::Aborted;
                    ActionA::Abort
                } else if n == 0 {
                    self.state = StateA::Done;
                    ActionA::Complete
                } else {
                    self.state = StateA::AwaitingAck { sent: 1 };
                    ActionA::SendChunk { index: 0 }
                }
            },
            StateA::AwaitingAck { sent } => {
                if !connected {
                    self.state = StateA::Aborted;
                    ActionA::Abort
                } else if !acked {
                    ActionA::Wait
                } else if sent < n {
                    self.state = StateA::AwaitingAck { sent: sent + 1 };
                    ActionA::SendChunk { index: sent }
                } else {
                    self.state = StateA::Done;
                    ActionA::Complete
                }
            },
            StateA::Done => ActionA::Complete,
            StateA::Aborted => ActionA::Abort,
        }
    }

    /// Abandons the frame, as after a failure of the send primitive: the
    /// frame is given up without crashing, and no further chunk of it is
    /// offered.
    pub fn abort(&mut self)
        requires
            old(self).wf(),
        ensures
            final(self).wf(),
            final(self).state == StateA::Aborted,
            final(self).chunks == old(self).chunks,
    {
        self.state = StateA::Aborted;
    }
}

/// The state after driving a session from `s` through a sequence of
/// `(connected, acked)` flag snapshots.
pub open spec fn run_state_a(s: StateA, n: nat, polls: Seq<(bool, bool)>) -> StateA
    decreases polls.len(),
{
    if polls.len() == 0 {
        s
    } else {
        run_state_a(
            spec_step_a(s, n, polls[0].0, polls[0].1).0,
            n,
            polls.subrange(1, polls.len() as int),
        )
    }
}

/// The chunk indices sent while driving a session from `s` through `polls`,
/// in the order they are sent.
pub open spec fn run_sends_a(s: StateA, n: nat, polls: Seq<(bool, bool)>) -> Seq<int>
    decreases polls.len(),
{
    if polls.len() == 0 {
        Seq::empty()
    } else {
        let stepped = spec_step_a(s, n, polls[0].0, polls[0].1);
        let head = match stepped.1 {
            ActionA::SendChunk { index } => seq![index as int],
            _ => Seq::<int>::empty(),
        };
        head + run_sends_a(stepped.0, n, polls.subrange(1, polls.len() as int))
    }
}

/// How many acknowledgments are consumed while driving a session from `s`
/// through `polls`.
pub open spec fn run_acks_a(s: StateA, n: nat, polls: Seq<(bool, bool)>) -> nat
    decreases polls.len(),
{
    if polls.len() == 0 {
        0
    } else {
        (if consumes_ack_a(s, polls[0].0, polls[0].1) {
            1nat
        } else {
            0nat
        }) + run_acks_a(
            spec_step_a(s, n, polls[0].0, polls[0].1).0,
            n,
            polls.subrange(1, polls.len() as int),
        )
    }
}

/// A finished or abandoned session never sends again.
proof fn lemma_a_terminal_no_sends(s: StateA, n: nat, polls: Seq<(bool, bool)>)
    requires
        s is Done || s is Aborted,
    ensures
        run_sends_a(s, n, polls).len() == 0,
    decreases polls.len(),
{
    if polls.len() > 0 {
        lemma_a_terminal_no_sends(
            spec_step_a(s, n, polls[0].0, polls[0].1).0,
            n,
            polls.subrange(1, polls.len() as int),
        );
    }
}

/// The index of the next chunk a state would send.
pub open spec fn next_chunk_a(s: StateA) -> int {
    match s {
        StateA::Idle => 0,
        StateA::AwaitingAck { sent } => sent as int,
        StateA::Done => 0,
        StateA::Aborted => 0,
    }
}

proof fn lemma_a_sends_from(s: StateA, n: nat, polls: Seq<(bool, bool)>)
    requires
        state_wf_a(s, n),
        n <= usize::MAX,
    ensures
        (s is Done || s is Aborted) ==> run_sends_a(s, n, polls).len() == 0,
        run_sends_a(s, n, polls).len() <= n - next_chunk_a(s),
        forall|j: int|
            0 <= j < run_sends_a(s, n, polls).len() ==> #[trigger] run_sends_a(s, n, polls)[j]
                == next_chunk_a(s) + j,
    decreases polls.len(),
{
    if polls.len() > 0 {
        let stepped = spec_step_a(s, n, polls[0].0, polls[0].1);
        let rest = polls.subrange(1, polls.len() as int);
        assert(state_wf_a(stepped.0, n));
        lemma_a_sends_from(stepped.0, n, rest);
        if s is Done || s is Aborted {
            lemma_a_terminal_no_sends(s, n, polls);
        } else {
            let sends = run_sends_a(s, n, polls);
            let sends2 = run_sends_a(stepped.0, n, rest);
            if stepped.1 is SendChunk {
                assert(next_chunk_a(stepped.0) == next_chunk_a(s) + 1);
                assert forall|j: int| 0 <= j < sends.len() implies sends[j] == next_chunk_a(s)
                    + j by {
                    if j > 0 {
                        assert(sends[j] == sends2[j - 1]);
                        assert(sends2[j - 1] == next_chunk_a(stepped.0) + (j - 1));
                    }
                }
            } else if stepped.0 is Done || stepped.0 is Aborted {
                assert(sends.len() == sends2.len());
            } else {
                assert(stepped.0 == s);
                assert forall|j: int| 0 <= j < sends.len() implies sends[j] == next_chunk_a(s)
                    + j by {
                    assert(sends[j] == sends2[j]);
                }
            }
        }
    }
}

/// Strategy-A ordering: a fresh session emits chunk indices `0, 1, 2, ...`
/// in payload order, with no gap and no repetition — the `j`-th chunk sent
/// is chunk `j`.
pub proof fn lemma_a_sends_sequential(n: nat, polls: Seq<(bool, bool)>)
    requires
        n <= usize::MAX,
    ensures
        forall|j: int|
            0 <= j < run_sends_a(StateA::Idle, n, polls).len() ==> #[trigger] run_sends_a(
                StateA::Idle,
                n,
                polls,
            )[j] == j,
{
    lemma_a_sends_from(StateA::Idle, n, polls);
}

/// A session sends each of its `n` chunks at most once: together with the
/// ordering law, every run sends exactly the chunks `0 .. k` for some
/// `k <= n`, one time each.
pub proof fn lemma_a_sends_at_most_n(n: nat, polls: Seq<(bool, bool)>)
    requires
        n <= usize::MAX,
    ensures
        run_sends_a(StateA::Idle, n, polls).len() <= n,
{
    lemma_a_sends_from(StateA::Idle, n, polls);
}

/// A later chunk goes out only at the very step that observes the link up
/// and consumes the acknowledgment of its predecessor: chunk `index` is
/// never sent before the ack for chunk `index - 1`.
pub proof fn lemma_a_send_requires_ack(
    s: StateA,
    n: nat,
    connected: bool,
    acked: bool,
    index: usize,
)
    requires
        spec_step_a(s, n, connected, acked).1 == (ActionA::SendChunk { index }),
        index >= 1,
    ensures
        consumes_ack_a(s, connected, acked),
        s == (StateA::AwaitingAck { sent: index }),
{
}

proof fn lemma_a_sends_le_acks_from(s: StateA, n: nat, polls: Seq<(bool, bool)>)
    ensures
        run_sends_a(s, n, polls).len() <= run_acks_a(s, n, polls) + if s is Idle {
            1int
        } else {
            0int
        },
    decreases polls.len(),
{
    if polls.len() > 0 {
        let stepped = spec_step_a(s, n, polls[0].0, polls[0].1);
        let rest = polls.subrange(1, polls.len() as int);
        lemma_a_sends_le_acks_from(stepped.0, n, rest);
    }
}

/// Strategy-A pacing: a session never sends more chunks than it has
/// consumed acknowledgments for, beyond the first chunk, which needs none.
/// Chunk `i + 1` is sent only at the very step that consumes the
/// acknowledgment of chunk `i`.  The bound holds for every snapshot
/// sequence, hence for every prefix of a run.
pub proof fn lemma_a_sends_bounded_by_acks(n: nat, polls: Seq<(bool, bool)>)
    ensures
        run_sends_a(StateA::Idle, n, polls).len() <= run_acks_a(StateA::Idle, n, polls) + 1,
{
    lemma_a_sends_le_acks_from(StateA::Idle, n, polls);
}

proof fn lemma_a_run_split(s: StateA, n: nat, front: Seq<(bool, bool)>, back: Seq<(bool, bool)>)
    ensures
        run_state_a(s, n, front + back) == run_state_a(run_state_a(s, n, front), n, back),
        run_sends_a(s, n, front + back) == run_sends_a(s, n, front) + run_sends_a(
            run_state_a(s, n, front),
            n,
            back,
        ),
    decreases front.len(),
{
    if front.len() == 0 {
        assert(front + back =~= back);
        assert(run_sends_a(s, n, front) + run_sends_a(s, n, back) =~= run_sends_a(s, n, back));
    } else {
        let stepped = spec_step_a(s, n, front[0].0, front[0].1);
        let front_rest = front.subrange(1, front.len() as int);
        assert((front + back).subrange(1, (front + back).len() as int) =~= front_rest + back);
        assert((front + back)[0] == front[0]);
        lemma_a_run_split(stepped.0, n, front_rest, back);
        let head = match stepped.1 {
            ActionA::SendChunk { index } => seq![index as int],
            _ => Seq::<int>::empty(),
        };
        assert(head + (run_sends_a(stepped.0, n, front_rest) + run_sends_a(
            run_state_a(stepped.0, n, front_rest),
            n,
            back,
        )) =~= (head + run_sends_a(stepped.0, n, front_rest)) + run_sends_a(
            run_state_a(stepped.0, n, front_rest),
            n,
            back,
        ));
    }
}

/// Strategy-A abort: once a poll observes the link down, the set of sent
/// chunks stops growing — every chunk sent in the whole run was already sent
/// before that poll, and none follows for this frame.
pub proof fn lemma_a_disconnect_stops_sends(n: nat, polls: Seq<(bool, bool)>, t: int)
    requires
        0 <= t < polls.len(),
        polls[t].0 == false,
    ensures
        run_sends_a(StateA::Idle, n, polls) == run_sends_a(
            StateA::Idle,
            n,
            polls.subrange(0, t),
        ),
{
    let pre = polls.subrange(0, t);
    let post = polls.subrange(t, polls.len() as int);
    assert(pre + post =~= polls);
    lemma_a_run_split(StateA::Idle, n, pre, post);
    let st = run_state_a(StateA::Idle, n, pre);
    let stepped = spec_step_a(st, n, post[0].0, post[0].1);
    assert(post[0] == polls[t]);
    assert(stepped.0 is Done || stepped.0 is Aborted);
    assert(!(stepped.1 is SendChunk));
    lemma_a_terminal_no_sends(stepped.0, n, post.subrange(1, post.len() as int));
    assert(run_sends_a(st, n, post).len() == 0);
    assert(run_sends_a(StateA::Idle, n, pre) + run_sends_a(st, n, post) =~= run_sends_a(
        StateA::Idle,
        n,
        pre,
    ));
}

} // verus!
