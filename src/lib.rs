//! Process, context and IPC-routing core of a small microkernel.
//!
//! The kernel keeps a fixed table of processes, each with a bank of thread
//! contexts, a fixed table of servers, and a per-process connection map. All
//! of it lives in one [`services::SystemServices`] value whose operations are
//! verified against the scheduling, address-space and IPC invariants stated
//! in [`services::SystemServices::wf`].
pub mod error;
pub mod abi;
pub mod process;
pub mod arch;
pub mod server;
pub mod services;
pub mod laws;
pub mod hosted;
