pub mod action_map;
pub mod laws;
pub mod loader;
pub mod manifest;
pub mod page;
pub mod scan;
