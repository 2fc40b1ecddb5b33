pub mod execution;
pub mod failure;
pub mod notify;
pub mod registry;
pub mod strategy;
pub mod task;
