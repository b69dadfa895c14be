//! Trace-context propagation for a request/response RPC transport.
//!
//! A caller starts a span for an outgoing call and gets the trace headers to
//! send in the call's metadata; the callee turns the metadata it received into
//! the parent of its own span. One trace then runs across both processes.
//!
//! - [`bag`]: the metadata bag, a mapping from keys to ordered values.
//! - [`carrier`]: the bag as the sink or the source that a propagator works on.
//! - [`wire`]: the codec between a bag and the key/value pairs of a call.
//! - [`tracing`]: `start_client_trace` and `start_server_trace`.
pub mod bag;
pub mod carrier;
pub mod tracing;
pub mod wire;
