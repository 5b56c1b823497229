//! A line-oriented task server's core: the request codec, the task kinds, the
//! admission gate that bounds concurrent CPU-intensive executions, the
//! connection handler's state machine, and the server's configuration.
pub mod codec;
pub mod gate;
pub mod handler;
pub mod server;
pub mod task;

pub use codec::{decode_request, get_task_value, DecodeError, Request};
pub use gate::{Admission, AdmissionGate};
pub use handler::{Action, ConnState, ReadEvent};
pub use server::{Server, Startup, StartupSignal};
pub use task::TaskKind;
