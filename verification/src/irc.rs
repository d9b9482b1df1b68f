//! The IRC side of the gateway.

pub mod protocol;
pub mod reading_laws;
pub mod transport;
pub mod transport_laws;
pub mod user;
pub mod user_laws;
pub mod writing_laws;
