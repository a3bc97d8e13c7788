//! A typed deployment pipeline: describe an application container and a
//! reverse-proxy configuration as plain values, render the proxy
//! configuration file and the multi-service orchestration manifest
//! deterministically, and plan the provision / DNS / deploy phases as
//! explicit decision steps.
//!
//! Every rendering and decision function in this crate carries a contract
//! that pins its result down; the process-spawning, SSH and HTTP edges live
//! outside the library and consume the strings and plans produced here.

pub mod app;
pub mod caddy;
pub mod caddyfile;
pub mod cmd;
pub mod compose;
pub mod deploy;
pub mod dns;
pub mod error;
pub mod pipeline;
pub mod provision;
pub mod ssh;
pub mod text;

pub use app::App;
pub use app::Upstream;
pub use caddy::Caddy;
pub use dns::cloudflare::Cloudflare;
pub use dns::ovh::Ovh;
pub use dns::ovh::OvhCredentials;
pub use dns::ovh::parse_ini_value;
pub use deploy::cloudflare_pages::CloudflarePages;
pub use deploy::docker_save::DockerSaveLoad;
pub use pipeline::Pipeline;
pub use provision::digitalocean::DigitalOcean;
pub use provision::libvirt::Libvirt;
pub use provision::libvirt::NetworkMode;
pub use provision::remove_ssh_host_entry;
