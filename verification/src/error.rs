//! The failure taxonomy of the pipeline. Every variant carries the
//! resource it concerns, and `message` renders the human-readable form the
//! command-line surface prints.

use vstd::prelude::*;

use crate::text::spec_dec;
use crate::text::push_dec;

verus! {

/// Everything that can go wrong while provisioning, updating DNS or
/// deploying.
#[derive(Debug)]
pub enum DeployError {
    /// An external command exited with a failure status.
    CommandFailed { command: String, status_code: Option<i32> },
    /// The external binary itself could not be located.
    CommandNotFound(String),
    /// A remote shell connection could not be established.
    SshFailed(String),
    /// A required local or remote tool or credential is absent.
    PrerequisiteMissing(String),
    /// A referenced server does not exist.
    ServerNotFound(String),
    /// The DNS backend reported a failure.
    DnsError(String),
    /// A required environment variable is not set.
    EnvMissing(String),
    /// A local file the descriptor promised does not exist.
    FileNotFound(String),
    /// A container never reported healthy within the attempt budget;
    /// carries the application name and the attempt count used.
    HealthcheckTimeout(String, u32),
    /// Any other failure, described in full by its message.
    Other(String),
    /// An I/O failure, already rendered to text at the edge.
    Io(String),
    /// A JSON decoding failure, already rendered to text at the edge.
    Json(String),
}

/// A result whose error side is the pipeline's failure taxonomy.
pub type DeployResult<T> = Result<T, DeployError>;

/// The human-readable message for each failure.
pub open spec fn spec_message(e: &DeployError) -> Seq<char> {
    match e {
        DeployError::CommandFailed { command, .. } => "command failed: "@ + command@,
        DeployError::CommandNotFound(name) => "command not found: "@ + name@,
        DeployError::SshFailed(what) => "SSH connection failed: "@ + what@,
        DeployError::PrerequisiteMissing(what) => "prerequisite missing: "@ + what@,
        DeployError::ServerNotFound(name) => "server not found: "@ + name@,
        DeployError::DnsError(what) => "DNS error: "@ + what@,
        DeployError::EnvMissing(name) => "environment variable missing: "@ + name@,
        DeployError::FileNotFound(path) => "file not found: "@ + path@,
        DeployError::HealthcheckTimeout(name, attempts) => "container '"@ + name@
            + "' did not become healthy after "@ + spec_dec(*attempts as nat) + " attempts"@,
        DeployError::Other(msg) => msg@,
        DeployError::Io(msg) => msg@,
        DeployError::Json(msg) => msg@,
    }
}

impl DeployError {
    /// Render the failure as the text a person sees.
    pub fn message(&self) -> (r: String)
        ensures
            r@ == spec_message(self),
    {
        match self {
            DeployError::CommandFailed { command, .. } => {
                let mut out = String::from_str("command failed: ");
                out.append(command.as_str());
                out
            },
            DeployError::CommandNotFound(name) => {
                let mut out = String::from_str("command not found: ");
                out.append(name.as_str());
                out
            },
            DeployError::SshFailed(what) => {
                let mut out = String::from_str("SSH connection failed: ");
                out.append(what.as_str());
                out
            },
            DeployError::PrerequisiteMissing(what) => {
                let mut out = String::from_str("prerequisite missing: ");
                out.append(what.as_str());
                out
            },
            DeployError::ServerNotFound(name) => {
                let mut out = String::from_str("server not found: ");
                out.append(name.as_str());
                out
            },
            DeployError::DnsError(what) => {
                let mut out = String::from_str("DNS error: ");
                out.append(what.as_str());
                out
            },
            DeployError::EnvMissing(name) => {
                let mut out = String::from_str("environment variable missing: ");
                out.append(name.as_str());
                out
            },
            DeployError::FileNotFound(path) => {
                let mut out = String::from_str("file not found: ");
                out.append(path.as_str());
                out
            },
            DeployError::HealthcheckTimeout(name, attempts) => {
                let mut out = String::from_str("container '");
                out.append(name.as_str());
                out.append("' did not become healthy after ");
                push_dec(&mut out, *attempts as u64);
                out.append(" attempts");
                out
            },
            DeployError::Other(msg) => msg.clone(),
            DeployError::Io(msg) => msg.clone(),
            DeployError::Json(msg) => msg.clone(),
        }
    }
}

} // verus!
