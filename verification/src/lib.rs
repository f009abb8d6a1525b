//! Inter-process communication over UNIX domain sockets: framed messages that
//! carry both structured values and OS resource handles, a typed
//! sender/receiver channel pair, and a single-instance companion daemon that a
//! client can bootstrap and shut down.
//!
//! The framing, the descriptor-aware serialization and every decision live
//! here, verified. Moving the bytes over a socket is the embedding program's
//! work, and carrying the descriptors themselves takes the platform's
//! ancillary-data socket calls, which the standard library's sockets do not
//! expose: an embedding built on those sockets alone can frame and decode
//! every message but can hand the decoder descriptors only for messages that
//! embed none.
use vstd::prelude::*;

pub mod codec;
pub mod handle;
pub mod message;
pub mod channel;
pub mod store;
pub mod daemon;
pub mod supervisor;

pub use codec::DecodeError;
pub use handle::{Handle, HandleKind, Receiver, Sender};
pub use message::{Response, Task, decode_response, decode_task, encode_response, encode_task};
pub use channel::{HEADER_LEN, decode_envelope, encode_envelope};
pub use store::Store;
pub use daemon::{DispatchOutcome, dispatch, i64_to_string, sum_values};
pub use supervisor::{
    BootstrapAction, bootstrap_decision, check_started, check_started_with, companion_addr,
    lockfile, parse_pid_file, pid_path, render_pid_file,
};

verus! {

/// Environment variable through which the client and the daemon agree on the
/// rendezvous socket path.
pub const ENV_VAR: &'static str = "RUST_COMPANION";

/// Service name: used to derive the default socket path and the PID file name.
pub const PROGRAM_NAME: &'static str = "rust-companion";

} // verus!
