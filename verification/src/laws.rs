//! What holds of the operations, said of their inputs and results alone.

pub mod connection;
pub mod exchange;
pub mod host;
pub mod node;
pub mod reading;
pub mod table;
