//! Chunked transfer of downsampled camera frames over a transport that only
//! delivers small bounded-size messages.
//!
//! A frame is flattened into a byte payload (`payload`), the payload is split
//! into sequence-prefixed chunks (`chunks`), and a transfer session paces the
//! chunk sends under a flow-control signal, either one acknowledgment per
//! chunk (`session_a`) or one acknowledgment per frame over a fixed pool of
//! parallel channels (`session_b`).  The outer connect-wait loop that gates
//! both strategies on the link state lives in `outer_loop`.

pub mod chunks;

pub mod config;

pub mod outer_loop;

pub mod payload;

pub mod session_a;

pub mod session_b;
