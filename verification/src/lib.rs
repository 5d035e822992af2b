//! Core of a freestanding demonstration program: a bounded text buffer for
//! staging output, a record of what is sent to the character sink and the
//! fault trigger, a fixed-region heap, and the entry routine with its
//! failure handlers.

pub mod console;
pub mod demo;
pub mod fatal;
pub mod heap;
pub mod sort;
pub mod text;
pub mod transcript;
