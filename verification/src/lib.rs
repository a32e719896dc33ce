//! The rules of a plugin that serves FIFINE Ampligame D6 decks.

pub mod batch;
pub mod cache;
pub mod content_laws;
pub mod convert;
pub mod draw_laws;
pub mod enqueue;
pub mod error;
pub mod events;
pub mod frame;
pub mod inputs;
pub mod mappings;
pub mod order_laws;
pub mod picture;
pub mod render;
pub mod render_laws;
pub mod tables;
pub mod task;
pub mod worker;
