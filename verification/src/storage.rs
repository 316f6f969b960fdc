//! What is stored, and the form in which it is stored.
pub mod rows;
pub mod cells;
pub mod batches;
pub mod queries;
pub mod database;
