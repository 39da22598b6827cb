pub mod block_device;
pub mod connections;
pub mod error;
pub mod fields;
pub mod hex;
pub mod migrate_info;
pub mod orchestrator;
pub mod space;
pub mod stage2_config;
pub mod staging;
