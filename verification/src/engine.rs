//! What the application runs besides the sources.

pub mod local_searxng;
