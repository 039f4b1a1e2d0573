//! Host-side runtime for sandboxed terminal-multiplexer extensions.
//!
//! - `vocab`: the closed sets of events delivered to extensions and of
//!   commands they issue back.
//! - `bridge`: each command as the one instruction for the collaborator
//!   (screen, pty, server, worker) it is meant for.
//! - `host`: the supervisor, a state machine over the registry of instances
//!   that decides, per inbound instruction, what its driver must do.
//! - `properties`: what holds of the supervisor across instructions.
//! - `fixture`: a reference extension and its background worker.
//! - `runtime`: a serial, in-process driver that runs the reference extension.
//! - `text`: decimal digits and the debug text of events, for rendering.
pub mod vocab;
pub mod bridge;
pub mod fixture;
pub mod text;
pub mod host;
pub mod properties;
pub mod runtime;
