//! The controller side: what the firmware says and is told, the state it
//! reports, the connection to it and the task that streams programs.

pub mod connection;
pub mod gcode_task;
pub mod msgs;
pub mod state;
