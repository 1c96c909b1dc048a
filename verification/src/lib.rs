//! Engine for driving a GRBL motion controller: a G-code tokenizer and modal
//! interpreter, the firmware message grammar, and the connection and
//! streaming state machines, all over exact fixed-point arithmetic.

pub mod decimal;
pub mod gcode;
pub mod geometry;
pub mod simulation;
pub mod text;
pub mod toolpath;
pub mod grbl;
