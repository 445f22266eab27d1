//! The AI models: which are available, and which are being downloaded.

pub mod cancellation;
pub mod id_map;
pub mod state;
