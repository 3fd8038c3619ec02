//! Route matching: host and path primitives and the compiled route table.

pub mod matcher;
pub mod snapshot;

pub use matcher::{host_matches, path_prefix_matches};
pub use snapshot::{CompiledRoute, RouteTable};
