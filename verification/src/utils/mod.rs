//! Small helpers shared by the other modules.

pub mod clock;
