//! The deployment strategies' decision cores: the save-and-load strategy
//! that ships images over the remote shell, and the static-site strategy
//! that publishes a built directory.

pub mod cloudflare_pages;
pub mod docker_save;
