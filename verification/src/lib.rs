pub mod ai;
pub mod engine;
pub mod panic_report;
pub mod sources;
pub mod text;
