//! Helpers of the commands.
pub mod display;
