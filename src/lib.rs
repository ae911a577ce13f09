pub mod types;
pub mod clients;
pub mod registry;
pub mod object_map;
pub mod connection;
pub mod wire;
