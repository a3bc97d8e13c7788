use catapulta::cmd::format_command;
use catapulta::ssh::SshSession;

#[test]
fn format_command_joins_program_and_args() {
    assert_eq!(
        format_command("docker", &["build", "-t", "api:latest", "."]),
        "docker build -t api:latest ."
    );
    assert_eq!(format_command("ls", &[]), "ls");
}

#[test]
fn ssh_argument_lists() {
    let ssh = SshSession::new("203.0.113.9", "root");
    assert_eq!(ssh.destination(), "root@203.0.113.9");
    assert_eq!(
        ssh.build_ssh_args("echo ok"),
        vec![
            "-o",
            "StrictHostKeyChecking=accept-new",
            "-o",
            "ConnectTimeout=10",
            "root@203.0.113.9",
            "echo ok",
        ]
    );

    let keyed = SshSession::new("host.example", "deploy").with_key("/tmp/key");
    assert_eq!(
        keyed.ssh_base_args(),
        vec![
            "-o",
            "StrictHostKeyChecking=accept-new",
            "-o",
            "ConnectTimeout=10",
            "-i",
            "/tmp/key",
        ]
    );
    assert_eq!(
        keyed.scp_base_args(),
        vec!["-o", "StrictHostKeyChecking=accept-new", "-i", "/tmp/key"]
    );
    assert_eq!(
        keyed.scp_destination("/opt/app/.env"),
        "deploy@host.example:/opt/app/.env"
    );
    assert_eq!(
        SshSession::write_file_command("/opt/app/Caddyfile"),
        "cat > /opt/app/Caddyfile"
    );
}
