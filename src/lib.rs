pub mod memory_bus;
pub mod message_broker;
pub mod message_bus;
pub mod topology;
