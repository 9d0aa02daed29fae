//! A Turing machine on a tape that is closed to a ring: rules are read from
//! the text of a program, and a machine applies, step by step, the first rule
//! that is for its state and for the symbol under its head, until none is.

pub mod decimal;
pub mod error;
pub mod machine;
pub mod order;
pub mod render;
pub mod text;
pub mod turd;

pub use error::TuringMachineError;
pub use machine::Machine;
pub use turd::{Step, Turd};
