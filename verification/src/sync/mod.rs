pub mod protocol;
pub mod merge;
pub mod pairing;
pub mod channel;
pub mod client;
pub mod identity;
pub mod server;
pub mod noise;
pub mod discovery;
