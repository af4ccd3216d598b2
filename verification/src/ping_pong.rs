//! The solver of the ping-pong problem and what it is asked to do.
pub mod ping_pong_arguments;
pub mod ping_pong_solver;
