use camstream::config::Config;
use camstream::outer_loop::{LoopAction, TransferLoop};
use camstream::session_a::{ActionA, SessionA, StateA};
use camstream::session_b::{ActionB, SessionB, StateB};

fn sample_payload(len: usize) -> Vec<u8> {
    let mut p = Vec::new();
    let mut i: usize = 0;
    while i < len {
        p.push((i % 251) as u8);
        i += 1;
    }
    p
}

/// Drives a strategy-A session through a scripted sequence of flag
/// snapshots, one per tick of a logical clock, and records at which tick
/// each chunk went out.
fn drive_a(session: &mut SessionA, polls: &[(bool, bool)]) -> Vec<(usize, usize)> {
    let mut sends = Vec::new();
    for (tick, &(connected, acked)) in polls.iter().enumerate() {
        if let ActionA::SendChunk { index } = session.step(connected, acked) {
            sends.push((tick, index));
        }
    }
    sends
}

#[test]
fn a_sends_all_chunks_in_order() {
    // 1030 bytes at capacity 512: three chunks
    let payload = sample_payload(1030);
    let mut session = SessionA::new(&payload, 512).unwrap();
    assert_eq!(session.num_chunks(), 3);
    let sends = drive_a(
        &mut session,
        &[(true, false), (true, true), (true, true), (true, true)],
    );
    let indices: Vec<usize> = sends.iter().map(|&(_, i)| i).collect();
    assert_eq!(indices, vec![0, 1, 2]);
    assert_eq!(session.state, StateA::Done);
}

#[test]
fn a_waits_for_each_ack() {
    let payload = sample_payload(1030);
    let mut session = SessionA::new(&payload, 512).unwrap();
    // the ack for chunk 0 arrives only at tick 4; chunk 1 may not go out
    // before that tick
    let sends = drive_a(
        &mut session,
        &[
            (true, false), // tick 0: chunk 0 goes out
            (true, false), // tick 1: waiting
            (true, false), // tick 2: waiting
            (true, false), // tick 3: waiting
            (true, true),  // tick 4: ack observed, chunk 1 goes out
            (true, true),  // tick 5: ack observed, chunk 2 goes out
        ],
    );
    assert_eq!(sends, vec![(0, 0), (4, 1), (5, 2)]);
    // send ticks are strictly ordered and separated by the ack delay
    assert!(sends[1].0 - sends[0].0 >= 4);
}

#[test]
fn a_stops_sending_after_disconnect() {
    let payload = sample_payload(1030);
    let mut session = SessionA::new(&payload, 512).unwrap();
    assert_eq!(session.step(true, false), ActionA::SendChunk { index: 0 });
    // the link drops during the ack wait, with an ack pending
    assert_eq!(session.step(false, true), ActionA::Abort);
    assert_eq!(session.state, StateA::Aborted);
    // the send count stops increasing no matter what the flags say
    for _ in 0..10 {
        assert_eq!(session.step(true, true), ActionA::Abort);
    }
}

#[test]
fn a_send_failure_aborts_frame() {
    let payload = sample_payload(100);
    let mut session = SessionA::new(&payload, 512).unwrap();
    assert_eq!(session.step(true, false), ActionA::SendChunk { index: 0 });
    // the send primitive failed: the frame is abandoned, not retried
    session.abort();
    assert_eq!(session.step(true, true), ActionA::Abort);
}

#[test]
fn a_empty_frame_completes_without_sending() {
    let payload: Vec<u8> = Vec::new();
    let mut session = SessionA::new(&payload, 512).unwrap();
    assert_eq!(session.num_chunks(), 0);
    assert_eq!(session.step(true, false), ActionA::Complete);
    assert_eq!(session.state, StateA::Done);
}

#[test]
fn a_rejects_oversized_payload() {
    assert!(SessionA::new(&sample_payload(256), 2).is_none());
}

#[test]
fn a_first_chunk_bytes_match_wire_format() {
    let payload = sample_payload(1030);
    let session = SessionA::new(&payload, 512).unwrap();
    let c0 = session.chunk(0);
    assert_eq!(c0[0], 0);
    assert_eq!(c0[1], 0x00);
    assert_eq!(c0[2], 0x02);
    assert_eq!(c0[3], 3);
    assert_eq!(&c0[4..], &payload[0..511]);
}

#[test]
fn b_dispatches_once_then_waits_for_frame_ack() {
    let payload = sample_payload(1030);
    let mut session = SessionB::new(&payload, 512, 40).unwrap();
    assert_eq!(session.num_channels(), 40);
    // every channel has exactly one message this frame
    let mut nonempty = 0;
    for i in 0..40 {
        if !session.message(i).is_empty() {
            nonempty += 1;
        }
    }
    assert_eq!(nonempty, 3);
    // one dispatch, then only waiting until the single frame ack
    assert_eq!(session.step(true, false), ActionB::Dispatch);
    assert_eq!(session.step(true, false), ActionB::Wait);
    assert_eq!(session.step(true, false), ActionB::Wait);
    assert_eq!(session.step(true, true), ActionB::Complete);
    assert_eq!(session.state, StateB::Done);
}

#[test]
fn b_rejects_more_chunks_than_channels() {
    // 1030 bytes at capacity 512 need 3 chunks: a 2-channel pool is too small
    assert!(SessionB::new(&sample_payload(1030), 512, 2).is_none());
    assert!(SessionB::new(&sample_payload(1030), 512, 3).is_some());
}

#[test]
fn b_disconnect_abandons_frame() {
    let payload = sample_payload(1030);
    let mut session = SessionB::new(&payload, 512, 40).unwrap();
    assert_eq!(session.step(true, false), ActionB::Dispatch);
    // the link drops during the frame-ack wait
    assert_eq!(session.step(false, true), ActionB::Abort);
    assert_eq!(session.state, StateB::Aborted);
    assert_eq!(session.step(true, true), ActionB::Abort);
}

#[test]
fn loop_starts_no_frame_without_a_ready_frame() {
    let mut lp = TransferLoop::new();
    // connected, but the source returns no frame for 10 consecutive polls
    for _ in 0..10 {
        assert_eq!(lp.step(true, false), LoopAction::Skip);
    }
    // and none at all while disconnected
    for _ in 0..10 {
        assert_eq!(lp.step(false, true), LoopAction::WaitForLink);
    }
    // a frame is started only when connected with a frame ready
    assert_eq!(lp.step(true, true), LoopAction::StartFrame);
}

#[test]
fn config_defaults_to_empty_strings() {
    let c = Config::default();
    assert_eq!(c.wifi_name, "");
    assert_eq!(c.wifi_ssid, "");
    assert_eq!(c.wifi_password, "");
}
