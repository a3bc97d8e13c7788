use catapulta::DigitalOcean;
use catapulta::provision::digitalocean::{
    droplet_entry_of, droplet_id_of, droplet_ip_of, fingerprint_of, parse_ssh_key_list,
    remove_ssh_host_entry, strip_pub_suffix,
};

#[test]
fn provision_digitalocean_defaults() {
    let do_ = DigitalOcean::new();

    assert_eq!(do_.size, "s-1vcpu-1gb");
    assert_eq!(do_.region, "fra1");
    assert_eq!(do_.image, "ubuntu-24-04-x64");
}

#[test]
fn provision_digitalocean_builder_chain() {
    let do_ = DigitalOcean::new()
        .size("s-2vcpu-4gb")
        .region("nyc1")
        .image("ubuntu-22-04-x64");

    assert_eq!(do_.size, "s-2vcpu-4gb");
    assert_eq!(do_.region, "nyc1");
    assert_eq!(do_.image, "ubuntu-22-04-x64");
}

#[test]
fn provision_digitalocean_remove_single_host_entry() {
    let config = "\
Host myserver
    HostName 1.2.3.4
    User root
    IdentityFile ~/.ssh/key

Host other
    HostName 5.6.7.8
    User deploy";

    let result = remove_ssh_host_entry(config, "myserver");

    assert!(!result.contains("Host myserver"));
    assert!(!result.contains("1.2.3.4"));
    assert!(result.contains("Host other"));
    assert!(result.contains("5.6.7.8"));
}

#[test]
fn provision_digitalocean_remove_last_host_entry() {
    let config = "\
Host first
    HostName 1.1.1.1

Host target
    HostName 2.2.2.2
    User root";

    let result = remove_ssh_host_entry(config, "target");

    assert!(result.contains("Host first"));
    assert!(result.contains("1.1.1.1"));
    assert!(!result.contains("Host target"));
    assert!(!result.contains("2.2.2.2"));
}

#[test]
fn provision_digitalocean_remove_nonexistent_host() {
    let config = "\
Host existing
    HostName 1.1.1.1
    User root";

    let result = remove_ssh_host_entry(config, "missing");

    assert!(result.contains("Host existing"));
    assert!(result.contains("1.1.1.1"));
}

#[test]
fn provision_digitalocean_remove_from_empty_config() {
    let result = remove_ssh_host_entry("", "any");
    assert_eq!(result, "");
}

#[test]
fn provision_digitalocean_remove_only_host_entry() {
    let config = "\
Host only
    HostName 1.1.1.1
    User root
    IdentityFile ~/.ssh/key";

    let result = remove_ssh_host_entry(config, "only");

    assert!(!result.contains("Host only"));
    assert!(!result.contains("1.1.1.1"));
}

#[test]
fn provision_digitalocean_remove_collapses_triple_blank_lines() {
    let config = "\
Host a
    HostName 1.1.1.1



Host target
    HostName 2.2.2.2



Host b
    HostName 3.3.3.3";

    let result = remove_ssh_host_entry(config, "target");

    assert!(!result.contains("\n\n\n"));
    assert!(result.contains("Host a"));
    assert!(result.contains("Host b"));
}

#[test]
fn digitalocean_defaults() {
    let do_ = DigitalOcean::new();

    assert_eq!(do_.size, "s-1vcpu-1gb");
    assert_eq!(do_.region, "fra1");
    assert_eq!(do_.image, "ubuntu-24-04-x64");
}

#[test]
fn digitalocean_builder_chain() {
    let do_ = DigitalOcean::new()
        .size("s-2vcpu-4gb")
        .region("nyc1")
        .image("ubuntu-22-04-x64");

    assert_eq!(do_.size, "s-2vcpu-4gb");
    assert_eq!(do_.region, "nyc1");
    assert_eq!(do_.image, "ubuntu-22-04-x64");
}

#[test]
fn digitalocean_remove_single_host_entry() {
    let config = "\
Host myserver
    HostName 1.2.3.4
    User root
    IdentityFile ~/.ssh/key

Host other
    HostName 5.6.7.8
    User deploy";

    let result = remove_ssh_host_entry(config, "myserver");

    assert!(!result.contains("Host myserver"));
    assert!(!result.contains("1.2.3.4"));
    assert!(result.contains("Host other"));
    assert!(result.contains("5.6.7.8"));
}

#[test]
fn digitalocean_remove_last_host_entry() {
    let config = "\
Host first
    HostName 1.1.1.1

Host target
    HostName 2.2.2.2
    User root";

    let result = remove_ssh_host_entry(config, "target");

    assert!(result.contains("Host first"));
    assert!(result.contains("1.1.1.1"));
    assert!(!result.contains("Host target"));
    assert!(!result.contains("2.2.2.2"));
}

#[test]
fn digitalocean_remove_nonexistent_host() {
    let config = "\
Host existing
    HostName 1.1.1.1
    User root";

    let result = remove_ssh_host_entry(config, "missing");

    assert!(result.contains("Host existing"));
    assert!(result.contains("1.1.1.1"));
}

#[test]
fn digitalocean_remove_from_empty_config() {
    let result = remove_ssh_host_entry("", "any");
    assert_eq!(result, "");
}

#[test]
fn digitalocean_remove_only_host_entry() {
    let config = "\
Host only
    HostName 1.1.1.1
    User root
    IdentityFile ~/.ssh/key";

    let result = remove_ssh_host_entry(config, "only");

    assert!(!result.contains("Host only"));
    assert!(!result.contains("1.1.1.1"));
}

#[test]
fn digitalocean_remove_collapses_triple_blank_lines() {
    let config = "\
Host a
    HostName 1.1.1.1



Host target
    HostName 2.2.2.2



Host b
    HostName 3.3.3.3";

    let result = remove_ssh_host_entry(config, "target");

    assert!(!result.contains("\n\n\n"));
    assert!(result.contains("Host a"));
    assert!(result.contains("Host b"));
}

#[test]
fn droplet_listing_parsers() {
    let listing = "\
one      203.0.113.1    fra1
two      203.0.113.2    nyc1";

    assert_eq!(droplet_ip_of(listing, "two").unwrap(), "203.0.113.2");
    assert!(droplet_ip_of(listing, "three").is_err());
    assert_eq!(
        droplet_entry_of(listing, "one"),
        Some(("203.0.113.1".to_string(), "fra1".to_string()))
    );
    assert_eq!(droplet_id_of(listing, "two"), Some("203.0.113.2".to_string()));
    assert_eq!(droplet_id_of(listing, "missing"), None);
}

#[test]
fn ssh_key_listing_parser() {
    let (id, fp) = parse_ssh_key_list("123456  aa:bb:cc\n").unwrap();
    assert_eq!(id, "123456");
    assert_eq!(fp, "aa:bb:cc");
    assert!(parse_ssh_key_list("").is_err());
    assert!(parse_ssh_key_list("only-one-column\n").is_err());

    assert_eq!(fingerprint_of("2048 MD5:aa:bb:cc user (RSA)"), "aa:bb:cc");
    assert_eq!(fingerprint_of("2048"), "");
    assert_eq!(strip_pub_suffix("/home/u/.ssh/id.pub"), "/home/u/.ssh/id");
    assert_eq!(strip_pub_suffix("/home/u/.ssh/id"), "/home/u/.ssh/id");
}
