pub mod channel;
pub mod factory;
pub mod network;
pub mod network_initializer;
pub mod text;
pub mod topology;
pub mod validate;
