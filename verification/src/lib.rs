//! Session/binding coordinator for a support bridge: many private user
//! conversations on one side, one shared staff space organized into threads on
//! the other. The library holds the verified core: the binding store mapping
//! conversations to threads, the single negotiation slot, the decision logic
//! of every inbound event, and the snapshot codec used for persistence.
//! Transport and file I/O live outside the library and act only on the plain
//! values these functions take and return.

pub mod commands;
pub mod decimal;
pub mod handlers;
pub mod prompts;
pub mod snapshot;
pub mod state;
pub mod util;
