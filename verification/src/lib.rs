pub mod span;
pub mod text;
pub mod annotation;
pub mod types;
pub mod diagnostics;
pub mod graph;
pub mod network;
pub mod visitor;
pub mod transaction_checker;
pub mod constant_folding;
pub mod reducer;
pub mod annotations;
