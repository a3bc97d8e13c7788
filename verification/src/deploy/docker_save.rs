//! The save-and-load deployment strategy's decision core: the exact
//! build, save, transfer and restart command lines, the environment-file
//! checks and remote naming, and the health gate that decides when a
//! rollout counts as done. Every process and remote call runs outside
//! the library.

use vstd::prelude::*;

use crate::app::App;
use crate::error::DeployError;
use crate::error::DeployResult;
use crate::text::spec_trim;
use crate::text::spec_dec;
use crate::text::trim_str;
use crate::text::str_eq;
use crate::text::push_dec;
use vstd::slice::slice_index_get;

verus! {

/// Deploy by saving the image locally, copying it over, and loading it
/// on the remote host — no registry involved.
pub struct DockerSaveLoad;

impl DockerSaveLoad {
    /// The strategy carries no configuration.
    pub fn new() -> (r: Self) {
        DockerSaveLoad
    }
}

/// The image tag every application builds to.
pub fn image_tag(app: &App) -> (r: String)
    ensures
        r@ == app.name@ + ":latest"@,
{
    let mut out = app.name.clone();
    out.append(":latest");
    out
}

/// The name of the local archive an image is saved to.
pub fn local_tar_name(app: &App) -> (r: String)
    ensures
        r@ == "catapulta-"@ + app.name@ + ".tar"@,
{
    let mut out = String::from_str("catapulta-");
    out.append(app.name.as_str());
    out.append(".tar");
    out
}

/// The path the archive lands at on the remote host.
pub fn remote_tar_path(app: &App) -> (r: String)
    ensures
        r@ == "/tmp/catapulta-"@ + app.name@ + ".tar"@,
{
    let mut out = String::from_str("/tmp/catapulta-");
    out.append(app.name.as_str());
    out.append(".tar");
    out
}

/// Where a cloned remote source lands; a cached clone keeps a fixed
/// name, a throwaway clone is scoped to the calling process.
pub fn source_dir_name(app: &App, pid: u64) -> (r: String)
    ensures
        app.cache_source ==> r@ == "catapulta-src-"@ + app.name@,
        !app.cache_source ==> r@ == "catapulta-src-"@ + app.name@ + "-"@ + spec_dec(pid as nat),
{
    let mut out = String::from_str("catapulta-src-");
    out.append(app.name.as_str());
    if !app.cache_source {
        out.append("-");
        push_dec(&mut out, pid);
    }
    out
}

/// The build context and Dockerfile path, resolved against a cloned
/// source directory when one is used.
pub fn build_paths(app: &App, base: Option<&String>) -> (r: (String, String))
    ensures
        ({
            let ctx = r.0;
            let df = r.1;
            match base {
                Some(b) => ctx@ == (match app.context {
                    Some(sub) => b@ + "/"@ + sub@,
                    None => b@,
                }) && df@ == ctx@ + "/"@ + app.dockerfile@,
                None => ctx@ == (match app.context {
                    Some(sub) => sub@,
                    None => "."@,
                }) && df@ == app.dockerfile@,
            }
        }),
{
    match base {
        Some(b) => {
            let context: String = match &app.context {
                Some(sub) => {
                    let mut c = (*b).clone();
                    c.append("/");
                    c.append(sub.as_str());
                    c
                },
                None => (*b).clone(),
            };
            let mut df = context.clone();
            df.append("/");
            df.append(app.dockerfile.as_str());
            (context, df)
        },
        None => {
            let context: String = match &app.context {
                Some(sub) => sub.clone(),
                None => String::from_str("."),
            };
            (context, app.dockerfile.clone())
        },
    }
}

/// The build-argument pairs rendered as `KEY=VALUE`.
pub open spec fn spec_build_arg_flags(args: Seq<(Seq<char>, Seq<char>)>) -> Seq<Seq<char>>
    decreases args.len(),
{
    if args.len() == 0 {
        Seq::<Seq<char>>::empty()
    } else {
        spec_build_arg_flags(args.drop_last()) + seq![
            "--build-arg"@,
            args.last().0 + "="@ + args.last().1,
        ]
    }
}

/// The whole image-build argument list.
pub open spec fn spec_docker_build_args(
    app: App,
    context: Seq<char>,
    dockerfile: Seq<char>,
) -> Seq<Seq<char>> {
    seq!["build"@, "--platform"@, app.platform@, "-f"@, dockerfile] + spec_build_arg_flags(
        app.build_args.deep_view(),
    ) + seq!["-t"@, app.name@ + ":latest"@, context]
}

/// The argument list that builds one application's image.
pub fn docker_build_args(app: &App, context: &str, dockerfile: &str) -> (r: Vec<String>)
    ensures
        r.deep_view() == spec_docker_build_args(*app, context@, dockerfile@),
{
    let mut args: Vec<String> = Vec::new();
    args.push(String::from_str("build"));
    args.push(String::from_str("--platform"));
    args.push(app.platform.clone());
    args.push(String::from_str("-f"));
    args.push(dockerfile.to_owned());
    let ghost head = seq!["build"@, "--platform"@, app.platform@, "-f"@, dockerfile@];
    proof {
        assert(args.deep_view() =~~= head);
    }
    let ghost ba = app.build_args.deep_view();
    let n = app.build_args.len();
    let mut i: usize = 0;
    while i < n
        invariant
            0 <= i <= n,
            n == ba.len(),
            ba == app.build_args.deep_view(),
            args.deep_view() == head + spec_build_arg_flags(ba.take(i as int)),
        decreases n - i,
    {
        let kv = &app.build_args[i];
        proof {
            assert(ba[i as int] == (kv.0@, kv.1@));
        }
        let ghost before = args.deep_view();
        args.push(String::from_str("--build-arg"));
        let mut pair = kv.0.clone();
        pair.append("=");
        pair.append(kv.1.as_str());
        proof {
            assert(pair@ =~= kv.0@ + "="@ + kv.1@);
        }
        args.push(pair);
        proof {
            assert(ba.take(i + 1).drop_last() =~~= ba.take(i as int));
            assert(ba.take(i + 1).last() == ba[i as int]);
            assert(args.deep_view() =~~= before + seq![
                "--build-arg"@,
                kv.0@ + "="@ + kv.1@,
            ]);
            assert(args.deep_view() =~~= head + spec_build_arg_flags(ba.take(i + 1)));
        }
        i += 1;
    }
    proof {
        assert(ba.take(n as int) =~~= ba);
    }
    args.push(String::from_str("-t"));
    args.push(image_tag(app));
    args.push(context.to_owned());
    proof {
        assert(args.deep_view() =~~= spec_docker_build_args(*app, context@, dockerfile@));
    }
    args
}

/// The argument list that saves an image to a local archive.
pub fn docker_save_args(tag: &str, local_tar: &str) -> (r: Vec<String>)
    ensures
        r.deep_view() == seq!["save"@, tag@, "-o"@, local_tar@],
{
    let mut args: Vec<String> = Vec::new();
    args.push(String::from_str("save"));
    args.push(tag.to_owned());
    args.push(String::from_str("-o"));
    args.push(local_tar.to_owned());
    proof {
        assert(args.deep_view() =~~= seq!["save"@, tag@, "-o"@, local_tar@]);
    }
    args
}

/// The remote command that loads the shipped archive and removes it.
pub fn load_image_command(remote_tar: &str) -> (r: String)
    ensures
        r@ == "docker load < "@ + remote_tar@ + " && rm -f "@ + remote_tar@,
{
    let mut out = String::from_str("docker load < ");
    out.append(remote_tar);
    out.append(" && rm -f ");
    out.append(remote_tar);
    out
}

/// The remote command that tears the old stack down — tolerating that
/// nothing runs — and brings the new one up.
pub fn restart_command(remote_dir: &str) -> (r: String)
    ensures
        r@ == "cd "@ + remote_dir@
            + " && docker compose down 2>/dev/null || true && docker compose up -d"@,
{
    let mut out = String::from_str("cd ");
    out.append(remote_dir);
    out.append(" && docker compose down 2>/dev/null || true && docker compose up -d");
    out
}

/// The remote command that shows the stack's state.
pub fn status_command(remote_dir: &str) -> (r: String)
    ensures
        r@ == "cd "@ + remote_dir@ + " && docker compose ps"@,
{
    let mut out = String::from_str("cd ");
    out.append(remote_dir);
    out.append(" && docker compose ps");
    out
}

/// The remote command that asks one container for its health status.
pub fn health_query_command(remote_dir: &str, app_name: &str) -> (r: String)
    ensures
        r@ == "cd "@ + remote_dir@ + " && docker inspect --format='{{.State.Health.Status}}' "@
            + app_name@,
{
    let mut out = String::from_str("cd ");
    out.append(remote_dir);
    out.append(" && docker inspect --format='{{.State.Health.Status}}' ");
    out.append(app_name);
    out
}

/// Where the rendered manifest lands on the remote host.
pub fn manifest_remote_path(remote_dir: &str) -> (r: String)
    ensures
        r@ == remote_dir@ + "/docker-compose.yml"@,
{
    let mut out = remote_dir.to_owned();
    out.append("/docker-compose.yml");
    out
}

/// Where the rendered proxy configuration lands on the remote host.
pub fn proxy_config_remote_path(remote_dir: &str) -> (r: String)
    ensures
        r@ == remote_dir@ + "/Caddyfile"@,
{
    let mut out = remote_dir.to_owned();
    out.append("/Caddyfile");
    out
}

/// The remote name of one application's environment file: a bare `.env`
/// for a single application, and one namespaced by the application name
/// when several share the target.
pub fn env_remote_name(remote_dir: &str, app_name: &str, multiple: bool) -> (r: String)
    ensures
        multiple ==> r@ == remote_dir@ + "/.env."@ + app_name@,
        !multiple ==> r@ == remote_dir@ + "/.env"@,
{
    let mut out = remote_dir.to_owned();
    if multiple {
        out.append("/.env.");
        out.append(app_name);
    } else {
        out.append("/.env");
    }
    out
}

/// The remote command that restricts an environment file to its owner.
pub fn chmod_env_command(remote_name: &str) -> (r: String)
    ensures
        r@ == "chmod 600 "@ + remote_name@,
{
    let mut out = String::from_str("chmod 600 ");
    out.append(remote_name);
    out
}

/// Every environment file an application promises must exist before any
/// remote action happens.
pub fn check_env_files(apps: &[App], exists: &[bool]) -> (r: DeployResult<()>)
    requires
        apps@.len() == exists@.len(),
    ensures
        r is Ok <==> (forall|i: int|
            0 <= i < apps@.len() ==> ((#[trigger] apps@[i]).env_file is Some ==> exists@[i])),
        r matches Err(e) ==> (exists|i: int|
            0 <= i < apps@.len() && (#[trigger] apps@[i]).env_file is Some && !exists@[i]
                && (e matches DeployError::FileNotFound(m) && m@ == apps@[i].env_file->0@
                + " not found for app '"@ + apps@[i].name@ + "'. Create from .env.example"@)),
{
    let n = apps.len();
    let mut i: usize = 0;
    while i < n
        invariant
            0 <= i <= n,
            n == apps@.len(),
            apps@.len() == exists@.len(),
            forall|j: int| 0 <= j < i ==> ((#[trigger] apps@[j]).env_file is Some ==> exists@[j]),
        decreases n - i,
    {
        let app = slice_index_get(apps, i);
        if let Some(ef) = &app.env_file {
            if !*slice_index_get(exists, i) {
                let mut m = ef.clone();
                m.append(" not found for app '");
                m.append(app.name.as_str());
                m.append("'. Create from .env.example");
                proof {
                    assert(m@ =~= apps@[i as int].env_file->0@ + " not found for app '"@
                        + apps@[i as int].name@ + "'. Create from .env.example"@);
                }
                return Err(DeployError::FileNotFound(m));
            }
        }
        i += 1;
    }
    Ok(())
}

/// The health gate's attempt budget per application.
pub const MAX_HEALTH_ATTEMPTS: u32 = 30;

/// The pause between health polls, in seconds.
pub const HEALTH_POLL_INTERVAL_SECS: u64 = 5;

/// The fixed grace period when no health check is configured, in
/// seconds.
pub const NO_HEALTHCHECK_GRACE_SECS: u64 = 5;

/// The names of the applications that declare a health check, in order.
pub open spec fn spec_hc_names(apps: Seq<App>) -> Seq<Seq<char>>
    decreases apps.len(),
{
    if apps.len() == 0 {
        Seq::<Seq<char>>::empty()
    } else {
        spec_hc_names(apps.drop_last()) + (if apps.last().healthcheck is Some {
            seq![apps.last().name@]
        } else {
            Seq::<Seq<char>>::empty()
        })
    }
}

/// The rollout gate: which health-checked applications remain, which one
/// is being polled, and how many attempts it has used.
pub struct HealthGate {
    pub app_names: Vec<String>,
    pub idx: usize,
    pub attempt: u32,
}

/// What the health watcher asks its driver to do next.
#[derive(Debug, PartialEq, Eq, Structural)]
pub enum GateStep {
    /// Sleep one interval and poll the same application again.
    Retry,
    /// The current application is healthy; move to the next one.
    NextApp,
    /// Every health-checked application reported healthy.
    AllHealthy,
    /// The attempt budget is exhausted; the rollout failed.
    TimedOut,
}

/// Whether a reported status string means healthy.
pub fn status_is_healthy(status: &str) -> (r: bool)
    ensures
        r == (spec_trim(status@) == "healthy"@),
{
    let t = trim_str(status);
    str_eq(t.as_str(), "healthy")
}

/// Plan the health gate: no gate at all when no application declares a
/// health check — the driver then waits the fixed grace period and
/// proceeds without polling.
pub fn health_plan(apps: &[App]) -> (r: Option<HealthGate>)
    ensures
        r is None <==> spec_hc_names(apps@).len() == 0,
        r matches Some(g) ==> g.app_names.deep_view() == spec_hc_names(apps@) && g.idx == 0
            && g.attempt == 1,
{
    let mut names: Vec<String> = Vec::new();
    let n = apps.len();
    let mut i: usize = 0;
    proof {
        assert(names.deep_view() =~~= spec_hc_names(apps@.take(0)));
    }
    while i < n
        invariant
            0 <= i <= n,
            n == apps@.len(),
            names.deep_view() == spec_hc_names(apps@.take(i as int)),
        decreases n - i,
    {
        let app = slice_index_get(apps, i);
        let ghost before = names.deep_view();
        if app.healthcheck.is_some() {
            names.push(app.name.clone());
            proof {
                assert(names.deep_view() =~~= before.push(apps@[i as int].name@));
            }
        }
        proof {
            assert(apps@.take(i + 1).drop_last() =~= apps@.take(i as int));
            assert(apps@.take(i + 1).last() == apps@[i as int]);
            assert(names.deep_view() =~~= spec_hc_names(apps@.take(i + 1)));
        }
        i += 1;
    }
    proof {
        assert(apps@.take(n as int) =~= apps@);
    }
    if names.len() == 0 {
        None
    } else {
        Some(HealthGate { app_names: names, idx: 0, attempt: 1 })
    }
}

impl HealthGate {
    /// A gate that is still polling some application.
    pub open spec fn active(&self) -> bool {
        self.idx < self.app_names@.len() && 1 <= self.attempt <= MAX_HEALTH_ATTEMPTS
    }

    /// Advance on one observation. A healthy report moves to
    /// the next application with a fresh attempt budget; an unhealthy
    /// one retries until the budget runs out, which is a terminal
    /// failure — never silently ignored.
    pub fn observe(&self, healthy: bool) -> (r: (HealthGate, GateStep))
        requires
            self.active(),
        ensures
            r.0.app_names.deep_view() == self.app_names.deep_view(),
            healthy && self.idx + 1 < self.app_names@.len() ==> r.1 == GateStep::NextApp
                && r.0.idx == self.idx + 1 && r.0.attempt == 1,
            healthy && self.idx + 1 == self.app_names@.len() ==> r.1 == GateStep::AllHealthy,
            !healthy && self.attempt < MAX_HEALTH_ATTEMPTS ==> r.1 == GateStep::Retry && r.0.idx
                == self.idx && r.0.attempt == self.attempt + 1,
            !healthy && self.attempt == MAX_HEALTH_ATTEMPTS ==> r.1 == GateStep::TimedOut
                && r.0.idx == self.idx && r.0.attempt == self.attempt,
    {
        let len = self.app_names.len();
        if healthy {
            if self.idx + 1 < len {
                (
                    HealthGate {
                        app_names: clone_names(&self.app_names),
                        idx: self.idx + 1,
                        attempt: 1,
                    },
                    GateStep::NextApp,
                )
            } else {
                (
                    HealthGate {
                        app_names: clone_names(&self.app_names),
                        idx: self.idx,
                        attempt: self.attempt,
                    },
                    GateStep::AllHealthy,
                )
            }
        } else if self.attempt < MAX_HEALTH_ATTEMPTS {
            (
                HealthGate {
                    app_names: clone_names(&self.app_names),
                    idx: self.idx,
                    attempt: self.attempt + 1,
                },
                GateStep::Retry,
            )
        } else {
            (
                HealthGate {
                    app_names: clone_names(&self.app_names),
                    idx: self.idx,
                    attempt: self.attempt,
                },
                GateStep::TimedOut,
            )
        }
    }

    /// The application currently being polled.
    pub fn current_app(&self) -> (r: &str)
        requires
            self.idx < self.app_names@.len(),
        ensures
            r@ == self.app_names.deep_view()[self.idx as int],
    {
        self.app_names[self.idx].as_str()
    }

    /// The failure a timed-out gate reports: it names the application
    /// and the attempt budget that was used up.
    pub fn timeout_error(&self) -> (r: DeployError)
        requires
            self.idx < self.app_names@.len(),
        ensures
            r matches DeployError::HealthcheckTimeout(name, attempts) && name@
                == self.app_names.deep_view()[self.idx as int] && attempts == MAX_HEALTH_ATTEMPTS,
    {
        DeployError::HealthcheckTimeout(self.app_names[self.idx].clone(), MAX_HEALTH_ATTEMPTS)
    }
}

/// Clone a name list, keeping its contents.
fn clone_names(names: &Vec<String>) -> (r: Vec<String>)
    ensures
        r.deep_view() == names.deep_view(),
{
    let mut out: Vec<String> = Vec::new();
    let n = names.len();
    let mut i: usize = 0;
    while i < n
        invariant
            0 <= i <= n,
            n == names.deep_view().len(),
            out.deep_view() == names.deep_view().take(i as int),
        decreases n - i,
    {
        let ghost before = out.deep_view();
        out.push(names[i].clone());
        proof {
            assert(out.deep_view() =~~= before.push(names.deep_view()[i as int]));
            assert(names.deep_view().take(i + 1) =~~= names.deep_view().take(i as int).push(
                names.deep_view()[i as int],
            ));
        }
        i += 1;
    }
    proof {
        assert(names.deep_view().take(n as int) =~~= names.deep_view());
    }
    out
}

} // verus!
