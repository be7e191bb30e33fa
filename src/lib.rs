//! Per-node bookkeeping for gradient checkpointing: which node outputs are
//! retained during a backward pass, how many more times each is needed, and
//! when each one is released.

pub mod backward;
pub mod logger;
pub mod state;

pub use backward::BackwardStates;
pub use logger::{LogItem, Logger, Progress};
pub use state::{NodeID, State, StateContent, StateValue};
