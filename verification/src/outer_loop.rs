//! The top-level transfer loop shared by both strategies: wait until the
//! link is up, then run one frame transfer per iteration while it stays up.
//! The connect-wait phase polls the connection flag at a coarse interval;
//! the streaming phase polls the frame source each iteration and skips the
//! iteration when no frame is ready.
//!
//! Like the sessions, the loop is a pure state machine: the caller polls the
//! connection flag and the frame source, hands each step a snapshot, and
//! performs the returned action (sleep, skip, or drive one frame session to
//! its end).

use vstd::prelude::*;

verus! {

/// Where the top-level loop stands.
#[derive(Clone, Copy, PartialEq, Eq, Structural, Debug)]
pub enum LoopState {
    /// The link is down: poll the connection flag at the coarse interval.
    AwaitingLink,
    /// The link was up at the start of the iteration: frames may be sent.
    Streaming,
}

/// What the caller must do after one loop iteration.
#[derive(Clone, Copy, PartialEq, Eq, Structural, Debug)]
pub enum LoopAction {
    /// Still disconnected: sleep for the coarse connect-poll interval.
    WaitForLink,
    /// Connected but the source has no frame ready: skip this iteration.
    Skip,
    /// Connected with a frame ready: build its payload and drive one
    /// transfer session to completion or abort.
    StartFrame,
}

/// The transition relation of the top-level loop: from a state and a
/// snapshot of the connection flag and of whether the source has a frame
/// ready, to the next state and the action to perform.
pub open spec fn spec_step_loop(s: LoopState, connected: bool, frame_ready: bool) -> (
    LoopState,
    LoopAction,
) {
    if !connected {
        (LoopState::AwaitingLink, LoopAction::WaitForLink)
    } else if !frame_ready {
        (LoopState::Streaming, LoopAction::Skip)
    } else {
        (LoopState::Streaming, LoopAction::StartFrame)
    }
}

/// The top-level transfer loop's state machine.
pub struct TransferLoop {
    /// Where the loop stands.
    pub state: LoopState,
}

impl TransferLoop {
    /// A fresh loop, in the connect-wait phase.
    pub fn new() -> (t: TransferLoop)
        ensures
            t.state == LoopState::AwaitingLink,
    {
        TransferLoop { state: LoopState::AwaitingLink }
    }

    /// One iteration, driven by snapshots of the connection flag and of
    /// whether the frame source returned a frame.  A frame is only started
    /// when the link was observed up and a frame was ready; otherwise the
    /// iteration sends nothing and advances no sequence state.
    pub fn step(&mut self, connected: bool, frame_ready: bool) -> (a: LoopAction)
        ensures
            (final(self).state, a) == spec_step_loop(old(self).state, connected, frame_ready),
            a == LoopAction::StartFrame <==> connected && frame_ready,
    {
        if !connected {
            self.state = LoopState::AwaitingLink;
            LoopAction::WaitForLink
        } else if !frame_ready {
            self.state = LoopState::Streaming;
            LoopAction::Skip
        } else {
            self.state = LoopState::Streaming;
            LoopAction::StartFrame
        }
    }
}

/// The state after driving the loop from `s` through a sequence of
/// `(connected, frame_ready)` snapshots.
pub open spec fn run_state_loop(s: LoopState, polls: Seq<(bool, bool)>) -> LoopState
    decreases polls.len(),
{
    if polls.len() == 0 {
        s
    } else {
        run_state_loop(
            spec_step_loop(s, polls[0].0, polls[0].1).0,
            polls.subrange(1, polls.len() as int),
        )
    }
}

/// How many frames are started while driving the loop from `s` through
/// `polls`.
pub open spec fn run_frame_starts(s: LoopState, polls: Seq<(bool, bool)>) -> nat
    decreases polls.len(),
{
    if polls.len() == 0 {
        0
    } else {
        (if spec_step_loop(s, polls[0].0, polls[0].1).1 is StartFrame {
            1nat
        } else {
            0nat
        }) + run_frame_starts(
            spec_step_loop(s, polls[0].0, polls[0].1).0,
            polls.subrange(1, polls.len() as int),
        )
    }
}

/// A frame source that returns no frame starts nothing: any number of
/// consecutive polls without a ready frame — ten or ten thousand — leaves
/// the loop where it was, starts no session, advances no sequence counter,
/// and triggers no send.
pub proof fn lemma_no_frame_no_starts(s: LoopState, polls: Seq<(bool, bool)>)
    requires
        forall|i: int| 0 <= i < polls.len() ==> !(#[trigger] polls[i]).1,
    ensures
        run_frame_starts(s, polls) == 0,
    decreases polls.len(),
{
    if polls.len() > 0 {
        assert(!polls[0].1);
        lemma_no_frame_no_starts(
            spec_step_loop(s, polls[0].0, polls[0].1).0,
            polls.subrange(1, polls.len() as int),
        );
    }
}

} // verus!
