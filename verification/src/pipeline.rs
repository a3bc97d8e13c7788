//! The pipeline's state machine: the configured applications and proxy,
//! and the explicit decision steps of the provision, deploy and destroy
//! phases. The driver outside the library performs each planned action
//! and feeds observations back; re-running a phase converges instead of
//! duplicating work, and destruction happens only behind an exact
//! affirmative token.

use vstd::prelude::*;

use crate::app::App;
use crate::caddy::Caddy;
use crate::text::spec_trim;
use crate::text::trim_str;
use crate::text::str_eq;

verus! {

/// The configured pipeline: the applications to deploy, the proxy in
/// front of them, and where and as whom to reach the target host.
pub struct Pipeline {
    pub apps: Vec<App>,
    pub caddy: Caddy,
    pub remote_dir: String,
    pub ssh_user: String,
}

impl Pipeline {
    /// A pipeline for one application, with the default target
    /// directory and user.
    pub fn new(app: App, caddy: Caddy) -> (r: Self)
        ensures
            r.apps@.len() == 1,
            r.apps@[0] == app,
            r.caddy == caddy,
            r.remote_dir@ == "/opt/app"@,
            r.ssh_user@ == "root"@,
    {
        let mut apps: Vec<App> = Vec::new();
        apps.push(app);
        Pipeline {
            apps,
            caddy,
            remote_dir: String::from_str("/opt/app"),
            ssh_user: String::from_str("root"),
        }
    }

    /// A pipeline for several applications behind one proxy.
    pub fn multi(apps: Vec<App>, caddy: Caddy) -> (r: Self)
        ensures
            r.apps == apps,
            r.caddy == caddy,
            r.remote_dir@ == "/opt/app"@,
            r.ssh_user@ == "root"@,
    {
        Pipeline {
            apps,
            caddy,
            remote_dir: String::from_str("/opt/app"),
            ssh_user: String::from_str("root"),
        }
    }

    /// Replace the remote deploy directory.
    pub fn remote_dir(self, dir: &str) -> (r: Self)
        ensures
            r.remote_dir@ == dir@,
            r == (Pipeline { remote_dir: r.remote_dir, ..self }),
    {
        Pipeline { remote_dir: dir.to_owned(), ..self }
    }

    /// Replace the remote user.
    pub fn ssh_user(self, user: &str) -> (r: Self)
        ensures
            r.ssh_user@ == user@,
            r == (Pipeline { ssh_user: r.ssh_user, ..self }),
    {
        Pipeline { ssh_user: user.to_owned(), ..self }
    }
}

/// One step of the provision phase.
#[derive(Debug, PartialEq, Eq, Structural)]
pub enum ProvisionAction {
    /// The server already exists: report its address and stop — the
    /// phase is idempotent, not an error.
    ReportExisting,
    /// Detect the key pair to provision with.
    DetectSshKey,
    /// Create the server.
    CreateServer,
    /// Point the domain's address record at the new server before its
    /// setup finishes, so certificate issuance can already resolve it.
    UpsertDnsRecord,
    /// Install dependencies, open the firewall and prepare the deploy
    /// directory on the new server.
    SetupServer,
}

/// How many servers a provision plan creates.
pub open spec fn spec_creations(plan: Seq<ProvisionAction>) -> nat
    decreases plan.len(),
{
    if plan.len() == 0 {
        0
    } else {
        spec_creations(plan.drop_last()) + (if plan.last() == ProvisionAction::CreateServer {
            1nat
        } else {
            0nat
        })
    }
}

/// Plan the provision phase, after the prerequisite check and the
/// existence query: an existing server short-circuits to a report and
/// creates nothing; otherwise the server is created, the address record
/// is set before remote setup when a DNS backend and a domain are both
/// configured, and setup runs last.
pub fn provision_plan(server_exists: bool, dns_configured: bool, domain_given: bool) -> (r: Vec<
    ProvisionAction,
>)
    ensures
        server_exists ==> r@ == seq![ProvisionAction::ReportExisting],
        !server_exists && dns_configured && domain_given ==> r@ == seq![
            ProvisionAction::DetectSshKey,
            ProvisionAction::CreateServer,
            ProvisionAction::UpsertDnsRecord,
            ProvisionAction::SetupServer,
        ],
        !server_exists && !(dns_configured && domain_given) ==> r@ == seq![
            ProvisionAction::DetectSshKey,
            ProvisionAction::CreateServer,
            ProvisionAction::SetupServer,
        ],
        spec_creations(r@) == (if server_exists {
            0nat
        } else {
            1nat
        }),
{
    let mut plan: Vec<ProvisionAction> = Vec::new();
    if server_exists {
        plan.push(ProvisionAction::ReportExisting);
        proof {
            assert(plan@ =~= seq![ProvisionAction::ReportExisting]);
            assert(plan@.drop_last() =~= Seq::<ProvisionAction>::empty());
            assert(spec_creations(Seq::<ProvisionAction>::empty()) == 0nat);
            assert(spec_creations(plan@) == 0nat);
        }
    } else {
        plan.push(ProvisionAction::DetectSshKey);
        plan.push(ProvisionAction::CreateServer);
        if dns_configured && domain_given {
            plan.push(ProvisionAction::UpsertDnsRecord);
            plan.push(ProvisionAction::SetupServer);
            proof {
                let full = seq![
                    ProvisionAction::DetectSshKey,
                    ProvisionAction::CreateServer,
                    ProvisionAction::UpsertDnsRecord,
                    ProvisionAction::SetupServer,
                ];
                assert(plan@ =~= full);
                assert(full.drop_last() =~= full.take(3));
                assert(full.take(3).drop_last() =~= full.take(2));
                assert(full.take(2).drop_last() =~= full.take(1));
                assert(full.take(1).drop_last() =~= full.take(0));
                assert(spec_creations(full.take(0)) == 0nat);
                assert(spec_creations(full.take(1)) == 0nat);
                assert(spec_creations(full.take(2)) == 1nat);
                assert(spec_creations(full.take(3)) == 1nat);
                assert(spec_creations(plan@) == 1nat);
            }
        } else {
            plan.push(ProvisionAction::SetupServer);
            proof {
                let full = seq![
                    ProvisionAction::DetectSshKey,
                    ProvisionAction::CreateServer,
                    ProvisionAction::SetupServer,
                ];
                assert(plan@ =~= full);
                assert(full.drop_last() =~= full.take(2));
                assert(full.take(2).drop_last() =~= full.take(1));
                assert(full.take(1).drop_last() =~= full.take(0));
                assert(spec_creations(full.take(0)) == 0nat);
                assert(spec_creations(full.take(1)) == 0nat);
                assert(spec_creations(full.take(2)) == 1nat);
                assert(spec_creations(plan@) == 1nat);
            }
        }
    }
    plan
}

/// Count the server creations in a plan.
pub fn creations_in(plan: &Vec<ProvisionAction>) -> (r: usize)
    ensures
        r == spec_creations(plan@),
{
    let mut count: usize = 0;
    let n = plan.len();
    let mut i: usize = 0;
    while i < n
        invariant
            0 <= i <= n,
            n == plan@.len(),
            count == spec_creations(plan@.take(i as int)),
            count <= i,
        decreases n - i,
    {
        proof {
            assert(plan@.take(i + 1).drop_last() =~= plan@.take(i as int));
            assert(plan@.take(i + 1).last() == plan@[i as int]);
        }
        if plan[i] == ProvisionAction::CreateServer {
            count += 1;
        }
        i += 1;
    }
    proof {
        assert(plan@.take(n as int) =~= plan@);
    }
    count
}

/// One step of the deploy phase; applications are named by their index
/// in the pipeline.
#[derive(Debug, PartialEq, Eq, Structural)]
pub enum DeployAction {
    /// Build one application's image locally.
    BuildImage(usize),
    /// Ship one application's image to the target host.
    TransferImage(usize),
    /// Write the rendered orchestration manifest to the deploy
    /// directory.
    WriteManifest,
    /// Write the rendered proxy configuration to the deploy directory.
    WriteProxyConfig,
    /// Ship one application's environment file.
    TransferEnvFile(usize),
    /// Tear the old stack down, tolerating that nothing runs, and bring
    /// the new one up.
    RestartStack,
    /// Gate on the stack's health before declaring success.
    AwaitHealthy,
    /// Show the stack's state.
    ShowStatus,
}

pub open spec fn spec_build_steps(n: nat) -> Seq<DeployAction>
    decreases n,
{
    if n == 0 {
        Seq::<DeployAction>::empty()
    } else {
        spec_build_steps((n - 1) as nat).push(DeployAction::BuildImage((n - 1) as usize))
    }
}

pub open spec fn spec_transfer_steps(n: nat) -> Seq<DeployAction>
    decreases n,
{
    if n == 0 {
        Seq::<DeployAction>::empty()
    } else {
        spec_transfer_steps((n - 1) as nat).push(DeployAction::TransferImage((n - 1) as usize))
    }
}

/// One environment-file transfer per application that declares one.
pub open spec fn spec_env_steps(apps: Seq<App>) -> Seq<DeployAction>
    decreases apps.len(),
{
    if apps.len() == 0 {
        Seq::<DeployAction>::empty()
    } else {
        spec_env_steps(apps.drop_last()) + (if apps.last().env_file is Some {
            seq![DeployAction::TransferEnvFile((apps.len() - 1) as usize)]
        } else {
            Seq::<DeployAction>::empty()
        })
    }
}

/// The whole deploy phase, in order: builds unless skipped, image
/// transfers, both rendered documents, the declared environment files,
/// the restart, the health gate, and the status report.
pub open spec fn spec_deploy_plan(apps: Seq<App>, skip_build: bool) -> Seq<DeployAction> {
    (if skip_build {
        Seq::<DeployAction>::empty()
    } else {
        spec_build_steps(apps.len())
    }) + spec_transfer_steps(apps.len()) + seq![
        DeployAction::WriteManifest,
        DeployAction::WriteProxyConfig,
    ] + spec_env_steps(apps) + seq![
        DeployAction::RestartStack,
        DeployAction::AwaitHealthy,
        DeployAction::ShowStatus,
    ]
}

impl Pipeline {
    /// Plan the deploy phase.
    pub fn deploy_plan(&self, skip_build: bool) -> (r: Vec<DeployAction>)
        ensures
            r@ == spec_deploy_plan(self.apps@, skip_build),
    {
        let n = self.apps.len();
        let mut plan: Vec<DeployAction> = Vec::new();
        if !skip_build {
            let mut i: usize = 0;
            while i < n
                invariant
                    0 <= i <= n,
                    plan@ == spec_build_steps(i as nat),
                decreases n - i,
            {
                plan.push(DeployAction::BuildImage(i));
                i += 1;
            }
        }
        let ghost after_builds = if skip_build {
            Seq::<DeployAction>::empty()
        } else {
            spec_build_steps(self.apps@.len())
        };
        proof {
            assert(plan@ =~= after_builds);
        }
        let mut i: usize = 0;
        while i < n
            invariant
                0 <= i <= n,
                n == self.apps@.len(),
                plan@ == after_builds + spec_transfer_steps(i as nat),
            decreases n - i,
        {
            let ghost before = plan@;
            plan.push(DeployAction::TransferImage(i));
            proof {
                assert(plan@ =~= before.push(DeployAction::TransferImage(i)));
                assert(plan@ =~= after_builds + spec_transfer_steps((i + 1) as nat));
            }
            i += 1;
        }
        plan.push(DeployAction::WriteManifest);
        plan.push(DeployAction::WriteProxyConfig);
        let ghost mid = after_builds + spec_transfer_steps(self.apps@.len()) + seq![
            DeployAction::WriteManifest,
            DeployAction::WriteProxyConfig,
        ];
        proof {
            assert(plan@ =~= mid);
        }
        let mut i: usize = 0;
        while i < n
            invariant
                0 <= i <= n,
                n == self.apps@.len(),
                plan@ == mid + spec_env_steps(self.apps@.take(i as int)),
            decreases n - i,
        {
            let ghost before = plan@;
            if self.apps[i].env_file.is_some() {
                plan.push(DeployAction::TransferEnvFile(i));
            }
            proof {
                assert(self.apps@.take(i + 1).drop_last() =~= self.apps@.take(i as int));
                assert(self.apps@.take(i + 1).last() == self.apps@[i as int]);
                assert(self.apps@.take(i + 1).len() == i + 1);
                if self.apps@[i as int].env_file is Some {
                    assert(plan@ =~= before.push(DeployAction::TransferEnvFile(i)));
                }
                assert(plan@ =~= mid + spec_env_steps(self.apps@.take(i + 1)));
            }
            i += 1;
        }
        proof {
            assert(self.apps@.take(n as int) =~= self.apps@);
        }
        plan.push(DeployAction::RestartStack);
        plan.push(DeployAction::AwaitHealthy);
        plan.push(DeployAction::ShowStatus);
        proof {
            assert(plan@ =~= spec_deploy_plan(self.apps@, skip_build));
        }
        plan
    }
}

/// Destruction is gated on the exact affirmative token, surrounding
/// whitespace ignored; anything else aborts with no side effect.
pub fn destroy_confirmed(input: &str) -> (r: bool)
    ensures
        r == (spec_trim(input@) == "yes"@),
{
    let t = trim_str(input);
    str_eq(t.as_str(), "yes")
}

/// One step of the destroy phase.
#[derive(Debug, PartialEq, Eq, Structural)]
pub enum DestroyAction {
    /// Destroy the server.
    DestroyServer,
    /// Remove the domain's address record.
    DeleteDnsRecord,
}

/// Plan the destroy phase: nothing at all without confirmation; with
/// it, the server goes first and the address record follows when a DNS
/// backend and a domain are both configured.
pub fn destroy_plan(confirmed: bool, dns_configured: bool, domain_given: bool) -> (r: Vec<
    DestroyAction,
>)
    ensures
        !confirmed ==> r@ == Seq::<DestroyAction>::empty(),
        confirmed && dns_configured && domain_given ==> r@ == seq![
            DestroyAction::DestroyServer,
            DestroyAction::DeleteDnsRecord,
        ],
        confirmed && !(dns_configured && domain_given) ==> r@ == seq![
            DestroyAction::DestroyServer,
        ],
{
    let mut plan: Vec<DestroyAction> = Vec::new();
    if confirmed {
        plan.push(DestroyAction::DestroyServer);
        if dns_configured && domain_given {
            plan.push(DestroyAction::DeleteDnsRecord);
            proof {
                assert(plan@ =~= seq![
                    DestroyAction::DestroyServer,
                    DestroyAction::DeleteDnsRecord,
                ]);
            }
        } else {
            proof {
                assert(plan@ =~= seq![DestroyAction::DestroyServer]);
            }
        }
    } else {
        proof {
            assert(plan@ =~= Seq::<DestroyAction>::empty());
        }
    }
    plan
}

} // verus!
