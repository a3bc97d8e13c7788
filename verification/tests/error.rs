use catapulta::error::DeployError;

#[test]
fn display_command_not_found() {
    let err = DeployError::CommandNotFound("docker".into());
    assert_eq!(err.message(), "command not found: docker");
}

#[test]
fn display_ssh_failed() {
    let err = DeployError::SshFailed("timeout".into());
    assert_eq!(err.message(), "SSH connection failed: timeout");
}

#[test]
fn display_prerequisite_missing() {
    let err = DeployError::PrerequisiteMissing("doctl".into());
    assert_eq!(err.message(), "prerequisite missing: doctl");
}

#[test]
fn display_server_not_found() {
    let err = DeployError::ServerNotFound("my-droplet".into());
    assert_eq!(err.message(), "server not found: my-droplet");
}

#[test]
fn display_dns_error() {
    let err = DeployError::DnsError("record failed".into());
    assert_eq!(err.message(), "DNS error: record failed");
}

#[test]
fn display_env_missing() {
    let err = DeployError::EnvMissing("API_KEY".into());
    assert_eq!(err.message(), "environment variable missing: API_KEY");
}

#[test]
fn display_file_not_found() {
    let err = DeployError::FileNotFound("config.toml".into());
    assert_eq!(err.message(), "file not found: config.toml");
}

#[test]
fn display_other() {
    let err = DeployError::Other("custom error".into());
    assert_eq!(err.message(), "custom error");
}

#[test]
fn display_command_failed() {
    let err = DeployError::CommandFailed {
        command: "docker build".into(),
        status_code: Some(1),
    };
    assert_eq!(err.message(), "command failed: docker build");
}

#[test]
fn display_healthcheck_timeout() {
    let err = DeployError::HealthcheckTimeout("api".into(), 30);
    assert_eq!(
        err.message(),
        "container 'api' did not become healthy after 30 attempts"
    );
}
