pub mod proc;
pub mod delta;
