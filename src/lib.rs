pub mod clock;
pub mod console;
pub mod filter;
pub mod naming;
pub mod packets;
pub mod rotation;
