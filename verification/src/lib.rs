//! In-memory backend for a presentation editor: a keyed store of
//! timestamped presentation documents, a counter, a credential store,
//! and the text shaping around an external language-model service.

pub mod counter;
pub mod digits;
pub mod laws;
pub mod presentation;
pub mod store;
pub mod text;
pub mod users;
