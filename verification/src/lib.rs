//! Core logic of a tool that manages `docker compose` stacks on remote hosts over ssh.
pub mod text;
pub mod quoting;
pub mod model;
pub mod image_ref;
pub mod version_check;
pub mod compose;
pub mod store;
pub mod sorting;
pub mod ssh_config;
