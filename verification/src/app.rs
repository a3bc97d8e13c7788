//! The application descriptor: an immutable description of one deployable
//! container, built once through chained constructors and then consumed by
//! the renderers and the pipeline.

use vstd::prelude::*;

use crate::text::spec_dec;
use crate::text::dec_string;

verus! {

/// A resolved upstream address: container name plus port.
///
/// Produced by [`App::upstream`] and [`App::upstream_port`] so that the
/// proxy configuration can only reference ports an application really
/// exposes.
#[derive(Clone)]
pub struct Upstream {
    pub name: String,
    pub port: u16,
}

/// The textual form of an upstream, `name:port`.
pub open spec fn spec_upstream_addr(name: Seq<char>, port: u16) -> Seq<char> {
    name + seq![':'] + spec_dec(port as nat)
}

impl Upstream {
    /// The `name:port` form used inside rendered configuration.
    pub fn address(&self) -> (r: String)
        ensures
            r@ == spec_upstream_addr(self.name@, self.port),
    {
        proof {
            reveal_strlit(":");
        }
        let mut out = self.name.clone();
        out.append(":");
        let d = dec_string(self.port as u64);
        out.append(d.as_str());
        proof {
            assert(out@ =~= spec_upstream_addr(self.name@, self.port));
        }
        out
    }
}

/// Describes the application container: image source, environment,
/// volumes, health check, and exposed ports.
#[derive(Clone)]
pub struct App {
    pub name: String,
    pub dockerfile: String,
    pub platform: String,
    pub build_args: Vec<(String, String)>,
    pub env: Vec<(String, String)>,
    pub env_file: Option<String>,
    pub volumes: Vec<(String, String)>,
    pub expose: Vec<u16>,
    pub ports: Vec<(u16, u16)>,
    pub healthcheck: Option<String>,
    pub context: Option<String>,
    pub source: Option<(String, String)>,
    pub cache_source: bool,
    pub build_cmd: Option<String>,
    pub build_dir: Option<String>,
}

impl App {
    /// A fresh descriptor with the given name and the default build
    /// settings.
    pub fn new(name: &str) -> (r: Self)
        ensures
            r.name@ == name@,
            r.dockerfile@ == "Dockerfile"@,
            r.platform@ == "linux/amd64"@,
            r.build_args@.len() == 0,
            r.env@.len() == 0,
            r.env_file is None,
            r.volumes@.len() == 0,
            r.expose@.len() == 0,
            r.ports@.len() == 0,
            r.healthcheck is None,
            r.context is None,
            r.source is None,
            r.cache_source == false,
            r.build_cmd is None,
            r.build_dir is None,
    {
        App {
            name: name.to_owned(),
            dockerfile: String::from_str("Dockerfile"),
            platform: String::from_str("linux/amd64"),
            build_args: Vec::new(),
            env: Vec::new(),
            env_file: None,
            volumes: Vec::new(),
            expose: Vec::new(),
            ports: Vec::new(),
            healthcheck: None,
            context: None,
            source: None,
            cache_source: false,
            build_cmd: None,
            build_dir: None,
        }
    }

    /// Replace the Dockerfile path.
    pub fn dockerfile(self, path: &str) -> (r: Self)
        ensures
            r.dockerfile@ == path@,
            r == (App { dockerfile: r.dockerfile, ..self }),
    {
        App { dockerfile: path.to_owned(), ..self }
    }

    /// Replace the build platform.
    pub fn platform(self, platform: &str) -> (r: Self)
        ensures
            r.platform@ == platform@,
            r == (App { platform: r.platform, ..self }),
    {
        App { platform: platform.to_owned(), ..self }
    }

    /// Append one build argument; order of addition is kept.
    pub fn build_arg(self, key: &str, value: &str) -> (r: Self)
        ensures
            r.build_args.deep_view() == self.build_args.deep_view().push((key@, value@)),
            r == (App { build_args: r.build_args, ..self }),
    {
        let mut s = self;
        let ghost old_dv = s.build_args.deep_view();
        s.build_args.push((key.to_owned(), value.to_owned()));
        proof {
            assert(s.build_args.deep_view() =~~= old_dv.push((key@, value@)));
        }
        s
    }

    /// Append one environment variable; order of addition is kept.
    pub fn env(self, key: &str, value: &str) -> (r: Self)
        ensures
            r.env.deep_view() == self.env.deep_view().push((key@, value@)),
            r == (App { env: r.env, ..self }),
    {
        let mut s = self;
        let ghost old_dv = s.env.deep_view();
        s.env.push((key.to_owned(), value.to_owned()));
        proof {
            assert(s.env.deep_view() =~~= old_dv.push((key@, value@)));
        }
        s
    }

    /// Set the environment file; a second call replaces the first.
    pub fn env_file(self, path: &str) -> (r: Self)
        ensures
            r.env_file is Some,
            r.env_file->0@ == path@,
            r == (App { env_file: r.env_file, ..self }),
    {
        App { env_file: Some(path.to_owned()), ..self }
    }

    /// Append one named volume and its mount path.
    pub fn volume(self, name: &str, mount: &str) -> (r: Self)
        ensures
            r.volumes.deep_view() == self.volumes.deep_view().push((name@, mount@)),
            r == (App { volumes: r.volumes, ..self }),
    {
        let mut s = self;
        let ghost old_dv = s.volumes.deep_view();
        s.volumes.push((name.to_owned(), mount.to_owned()));
        proof {
            assert(s.volumes.deep_view() =~~= old_dv.push((name@, mount@)));
        }
        s
    }

    /// Expose one container port inside the shared network.
    pub fn expose(self, port: u16) -> (r: Self)
        ensures
            r.expose@ == self.expose@.push(port),
            r == (App { expose: r.expose, ..self }),
    {
        let mut s = self;
        s.expose.push(port);
        s
    }

    /// Map a host port to a container port, published outside the shared
    /// network.
    pub fn port(self, host: u16, container: u16) -> (r: Self)
        ensures
            r.ports@ == self.ports@.push((host, container)),
            r == (App { ports: r.ports, ..self }),
    {
        let mut s = self;
        s.ports.push((host, container));
        s
    }

    /// Set the build context directory.
    pub fn context(self, path: &str) -> (r: Self)
        ensures
            r.context is Some,
            r.context->0@ == path@,
            r == (App { context: r.context, ..self }),
    {
        App { context: Some(path.to_owned()), ..self }
    }

    /// Set the health-check command.
    pub fn healthcheck(self, cmd: &str) -> (r: Self)
        ensures
            r.healthcheck is Some,
            r.healthcheck->0@ == cmd@,
            r == (App { healthcheck: r.healthcheck, ..self }),
    {
        App { healthcheck: Some(cmd.to_owned()), ..self }
    }

    /// Build from a remote source repository at the given ref.
    pub fn source(self, url: &str, git_ref: &str) -> (r: Self)
        ensures
            r.source is Some,
            (r.source->0).0@ == url@,
            (r.source->0).1@ == git_ref@,
            r == (App { source: r.source, ..self }),
    {
        App { source: Some((url.to_owned(), git_ref.to_owned())), ..self }
    }

    /// Keep the cloned source between runs.
    pub fn cache_source(self) -> (r: Self)
        ensures
            r.cache_source == true,
            r == (App { cache_source: true, ..self }),
    {
        App { cache_source: true, ..self }
    }

    /// Set the build command for static-site deployers.
    pub fn build_cmd(self, cmd: &str) -> (r: Self)
        ensures
            r.build_cmd is Some,
            r.build_cmd->0@ == cmd@,
            r == (App { build_cmd: r.build_cmd, ..self }),
    {
        App { build_cmd: Some(cmd.to_owned()), ..self }
    }

    /// Set the build output directory for static-site deployers.
    pub fn build_dir(self, dir: &str) -> (r: Self)
        ensures
            r.build_dir is Some,
            r.build_dir->0@ == dir@,
            r == (App { build_dir: r.build_dir, ..self }),
    {
        App { build_dir: Some(dir.to_owned()), ..self }
    }

    /// The upstream on the first exposed port. Resolution with no exposed
    /// port is a configuration mistake, ruled out before any remote action.
    pub fn upstream(&self) -> (r: Upstream)
        requires
            self.expose@.len() > 0,
        ensures
            r.name@ == self.name@,
            r.port == self.expose@[0],
    {
        Upstream { name: self.name.clone(), port: self.expose[0] }
    }

    /// The upstream on a specific port, which must have been exposed.
    pub fn upstream_port(&self, port: u16) -> (r: Upstream)
        requires
            self.expose@.contains(port),
        ensures
            r.name@ == self.name@,
            r.port == port,
    {
        Upstream { name: self.name.clone(), port }
    }

    /// The upstream on the first exposed port, or nothing when no port is
    /// exposed.
    pub fn try_upstream(&self) -> (r: Option<Upstream>)
        ensures
            r is Some <==> self.expose@.len() > 0,
            self.expose@.len() > 0 ==> r->0.name@ == self.name@ && r->0.port == self.expose@[0],
    {
        if self.expose.len() > 0 {
            Some(Upstream { name: self.name.clone(), port: self.expose[0] })
        } else {
            None
        }
    }

    /// The upstream on a specific port, or nothing when that port was
    /// never exposed.
    pub fn try_upstream_port(&self, port: u16) -> (r: Option<Upstream>)
        ensures
            r is Some <==> self.expose@.contains(port),
            self.expose@.contains(port) ==> r->0.name@ == self.name@ && r->0.port == port,
    {
        let n = self.expose.len();
        let mut i: usize = 0;
        while i < n
            invariant
                0 <= i <= n,
                n == self.expose@.len(),
                forall|j: int| 0 <= j < i ==> self.expose@[j] != port,
            decreases n - i,
        {
            if self.expose[i] == port {
                return Some(Upstream { name: self.name.clone(), port });
            }
            i += 1;
        }
        None
    }
}

} // verus!
