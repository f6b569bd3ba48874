pub mod rime;
pub mod commands;
