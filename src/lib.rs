//! Path-scoped dispatch of file-change events to registered handlers.
//!
//! A [`Registry`] holds one handler per path. An [`Event`] goes to the handler
//! registered at the nearest ancestor of its first path, the path itself
//! included, and to no other. A [`Dispatcher`] makes the decisions of the loop
//! that receives events and runs handlers, in blocking mode (a handler's
//! [`Flow::Exit`] ends it) or in background mode (only the loss of the event
//! source ends it).

pub mod blocking;
pub mod dispatch;
pub mod event;
pub mod path;
pub mod registry;
pub mod util;

pub use blocking::Flow;
pub use dispatch::{Action, Dispatcher, Phase, Signal};
pub use event::{ChangeKind, Event, ModifyKind};
pub use registry::Registry;
pub use util::{handler_for_event, log_dead, log_event, log_matching_path};
