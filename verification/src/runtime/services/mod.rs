pub mod registry;
pub mod encoding;
