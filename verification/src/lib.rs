pub mod analysis;
pub mod analyzer_state;
pub mod cfg;
pub mod diagnostics;
pub mod graph;
pub mod lowering;
pub mod messages;
pub mod text;
pub mod variable_info;
pub mod worklist;
pub mod sea_checks;
pub mod sea_info;
pub mod syntax;
pub mod ts;
pub mod sea;
pub mod laws;
