//! The event dispatch engine: a registry of listeners per named event.

pub mod emitter;
pub mod listener;
pub mod name_index;
