//! What the commands of the program decide.

pub mod peer;
pub mod tls;
pub mod upgrade;
