pub mod discovery;
pub mod dispatch;
pub mod handler;
pub mod laws;
pub mod onion;
pub mod protocol;
