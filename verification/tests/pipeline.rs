use catapulta::caddyfile;
use catapulta::compose;
use catapulta::deploy::docker_save::{
    GateStep, MAX_HEALTH_ATTEMPTS, NO_HEALTHCHECK_GRACE_SECS, check_env_files, env_remote_name,
    health_plan, image_tag, load_image_command, restart_command, status_command,
    status_is_healthy,
};
use catapulta::pipeline::{
    DeployAction, DestroyAction, Pipeline, ProvisionAction, creations_in, destroy_confirmed,
    destroy_plan, provision_plan,
};
use catapulta::{App, Caddy};

#[test]
fn end_to_end_two_apps_behind_proxy() {
    let api = App::new("api")
        .healthcheck("curl -f http://localhost:8000/health")
        .expose(8000);
    let web = App::new("web").expose(3000);

    let caddy = Caddy::new()
        .route("/api/*", api.upstream())
        .route("", web.upstream());

    let manifest = compose::render(&[api, web], &caddy);
    let (services, _volumes, networks) = compose::parse_names(&manifest);
    assert_eq!(services, vec!["caddy", "api", "web"]);
    assert_eq!(networks, vec!["api-network"]);

    let config = caddyfile::render(&caddy, "project.example.com");
    // One path-scoped block and one unscoped catch-all block.
    assert!(config.contains("\thandle /api/* {"));
    assert!(config.contains("\thandle {\n"));
    assert_eq!(config.matches("handle").count(), 2);
}

#[test]
fn provision_twice_creates_once() {
    // First run: the server does not exist yet.
    let first = provision_plan(false, true, true);
    // Second run: the server is reported as existing and the phase
    // short-circuits.
    let second = provision_plan(true, true, true);

    assert_eq!(creations_in(&first) + creations_in(&second), 1);
    assert_eq!(second, vec![ProvisionAction::ReportExisting]);
    assert_eq!(
        first,
        vec![
            ProvisionAction::DetectSshKey,
            ProvisionAction::CreateServer,
            ProvisionAction::UpsertDnsRecord,
            ProvisionAction::SetupServer,
        ]
    );
}

#[test]
fn provision_without_domain_skips_dns() {
    let plan = provision_plan(false, true, false);
    assert_eq!(
        plan,
        vec![
            ProvisionAction::DetectSshKey,
            ProvisionAction::CreateServer,
            ProvisionAction::SetupServer,
        ]
    );
}

#[test]
fn health_gate_without_healthchecks_waits_grace_only() {
    let apps = vec![App::new("a").expose(80), App::new("b")];
    let plan = health_plan(&apps);
    assert!(plan.is_none());
    assert_eq!(NO_HEALTHCHECK_GRACE_SECS, 5);
}

#[test]
fn health_gate_never_healthy_times_out_with_attempt_count() {
    let apps = vec![App::new("api").healthcheck("curl -f http://localhost:8000/health")];
    let mut gate = health_plan(&apps).expect("one app has a health check");

    let mut attempts = 0u32;
    loop {
        attempts += 1;
        let (next, step) = gate.observe(status_is_healthy("starting"));
        gate = next;
        match step {
            GateStep::Retry => continue,
            GateStep::TimedOut => break,
            _ => panic!("gate must not succeed on an unhealthy status"),
        }
    }
    assert_eq!(attempts, MAX_HEALTH_ATTEMPTS);
    assert_eq!(
        gate.timeout_error().message(),
        "container 'api' did not become healthy after 30 attempts"
    );
}

#[test]
fn health_gate_walks_every_checked_app() {
    let apps = vec![
        App::new("api").healthcheck("x"),
        App::new("db"),
        App::new("web").healthcheck("y"),
    ];
    let gate = health_plan(&apps).unwrap();
    assert_eq!(gate.current_app(), "api");

    let (gate, step) = gate.observe(status_is_healthy("healthy"));
    assert_eq!(step, GateStep::NextApp);
    assert_eq!(gate.current_app(), "web");

    let (gate, step) = gate.observe(true);
    assert_eq!(step, GateStep::AllHealthy);
    let _ = gate;
}

#[test]
fn deploy_plan_orders_the_phase() {
    let api = App::new("api").env_file("deploy/.env.api").expose(8000);
    let web = App::new("web").expose(3000);
    let caddy = Caddy::new().route("/api/*", api.upstream()).route("", web.upstream());
    let pipeline = Pipeline::multi(vec![api, web], caddy);

    let plan = pipeline.deploy_plan(false);
    assert_eq!(
        plan,
        vec![
            DeployAction::BuildImage(0),
            DeployAction::BuildImage(1),
            DeployAction::TransferImage(0),
            DeployAction::TransferImage(1),
            DeployAction::WriteManifest,
            DeployAction::WriteProxyConfig,
            DeployAction::TransferEnvFile(0),
            DeployAction::RestartStack,
            DeployAction::AwaitHealthy,
            DeployAction::ShowStatus,
        ]
    );

    let skip = pipeline.deploy_plan(true);
    assert!(!skip.contains(&DeployAction::BuildImage(0)));
}

#[test]
fn env_files_are_checked_before_any_remote_action() {
    let apps = vec![
        App::new("one").env_file("deploy/.env.one"),
        App::new("two"),
    ];
    assert!(check_env_files(&apps, &[true, true]).is_ok());
    let err = check_env_files(&apps, &[false, true]).unwrap_err();
    assert_eq!(
        err.message(),
        "file not found: deploy/.env.one not found for app 'one'. Create from .env.example"
    );
}

#[test]
fn env_remote_names_disambiguate_only_with_multiple_apps() {
    assert_eq!(env_remote_name("/opt/app", "api", false), "/opt/app/.env");
    assert_eq!(env_remote_name("/opt/app", "api", true), "/opt/app/.env.api");
}

#[test]
fn destroy_requires_exact_affirmative_token() {
    assert!(destroy_confirmed("yes"));
    assert!(destroy_confirmed("  yes\n"));
    assert!(!destroy_confirmed("y"));
    assert!(!destroy_confirmed("YES"));
    assert!(!destroy_confirmed(""));

    assert_eq!(destroy_plan(false, true, true), vec![]);
    assert_eq!(
        destroy_plan(true, true, true),
        vec![DestroyAction::DestroyServer, DestroyAction::DeleteDnsRecord]
    );
    assert_eq!(
        destroy_plan(true, false, true),
        vec![DestroyAction::DestroyServer]
    );
}

#[test]
fn remote_command_builders() {
    let app = App::new("api");
    assert_eq!(image_tag(&app), "api:latest");
    assert_eq!(
        load_image_command("/tmp/catapulta-api.tar"),
        "docker load < /tmp/catapulta-api.tar && rm -f /tmp/catapulta-api.tar"
    );
    assert_eq!(
        restart_command("/opt/app"),
        "cd /opt/app && docker compose down 2>/dev/null || true && docker compose up -d"
    );
    assert_eq!(status_command("/opt/app"), "cd /opt/app && docker compose ps");
}

#[test]
fn pipeline_builder_defaults() {
    let app = App::new("svc").expose(80);
    let caddy = Caddy::new().reverse_proxy(app.upstream());
    let p = Pipeline::new(app, caddy).remote_dir("/srv/app").ssh_user("deploy");
    assert_eq!(p.remote_dir, "/srv/app");
    assert_eq!(p.ssh_user, "deploy");
    assert_eq!(p.apps.len(), 1);
}
