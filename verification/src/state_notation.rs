//! State notation types and graph computation for juggling patterns.

pub mod graph;
pub mod state;
pub mod throws;
pub mod transition;

pub use graph::compute_graph;
pub use graph::compute_table;
pub use graph::Edge;
pub use graph::GraphParams;
pub use graph::GraphParamsError;
pub use graph::StateGraph;
pub use graph::Table;
pub use state::Bits;
pub use state::State;
pub use state::MAX_MAX_HEIGHT;
pub use throws::compute_throws;
pub use throws::Throw;
pub use transition::Transition;
