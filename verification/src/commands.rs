//! The commands' decisions, apart from the files, processes and network they act on.

pub mod audit;
pub mod commit;
pub mod peek;
pub mod snitch;
