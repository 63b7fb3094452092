pub mod app;
pub mod event;

pub use app::{advance, DiffApp, Screen};
pub use event::{handle_events, handle_key};
