//! The proxy descriptor: reverse-proxy behaviour for one or more
//! applications — authentication, routing, compression, headers and extra
//! configuration — built once and consumed by both renderers.

use vstd::prelude::*;

use crate::app::Upstream;

verus! {

/// Configuration for the reverse-proxy container.
#[derive(Clone)]
pub struct Caddy {
    pub basic_auth: Option<(String, String)>,
    pub reverse_proxy: Option<String>,
    /// Path-based routes for multi-service setups, each `(path pattern,
    /// upstream)`. When non-empty they render as scoped blocks and the
    /// single default upstream is ignored.
    pub routes: Vec<(String, String)>,
    pub gzip: bool,
    pub security_headers: bool,
    pub extra_directives: Vec<String>,
    /// Extra volumes mounted into the proxy container, each
    /// `(host path or name, container path)`.
    pub volumes: Vec<(String, String)>,
}

/// The proxy is materialised only when something stands behind it.
pub open spec fn spec_has_upstreams(c: &Caddy) -> bool {
    c.reverse_proxy is Some || c.routes@.len() > 0
}

impl Caddy {
    /// An empty proxy configuration.
    pub fn new() -> (r: Self)
        ensures
            r.basic_auth is None,
            r.reverse_proxy is None,
            r.routes@.len() == 0,
            r.gzip == false,
            r.security_headers == false,
            r.extra_directives@.len() == 0,
            r.volumes@.len() == 0,
    {
        Caddy {
            basic_auth: None,
            reverse_proxy: None,
            routes: Vec::new(),
            gzip: false,
            security_headers: false,
            extra_directives: Vec::new(),
            volumes: Vec::new(),
        }
    }

    /// Set the basic-auth credential pair; a second call replaces the
    /// first. The hash is an opaque password hash, never a plaintext
    /// password.
    pub fn basic_auth(self, user: &str, password_hash: &str) -> (r: Self)
        ensures
            r.basic_auth is Some,
            (r.basic_auth->0).0@ == user@,
            (r.basic_auth->0).1@ == password_hash@,
            r == (Caddy { basic_auth: r.basic_auth, ..self }),
    {
        Caddy { basic_auth: Some((user.to_owned(), password_hash.to_owned())), ..self }
    }

    /// Set the single default upstream; a second call replaces the first.
    pub fn reverse_proxy(self, upstream: Upstream) -> (r: Self)
        ensures
            r.reverse_proxy is Some,
            r.reverse_proxy->0@ == crate::app::spec_upstream_addr(upstream.name@, upstream.port),
            r == (Caddy { reverse_proxy: r.reverse_proxy, ..self }),
    {
        Caddy { reverse_proxy: Some(upstream.address()), ..self }
    }

    /// Enable response compression.
    pub fn gzip(self) -> (r: Self)
        ensures
            r.gzip == true,
            r == (Caddy { gzip: true, ..self }),
    {
        Caddy { gzip: true, ..self }
    }

    /// Enable the fixed security-header block.
    pub fn security_headers(self) -> (r: Self)
        ensures
            r.security_headers == true,
            r == (Caddy { security_headers: true, ..self }),
    {
        Caddy { security_headers: true, ..self }
    }

    /// Append one path-based route. An empty path pattern is the
    /// catch-all; routes keep their declaration order.
    pub fn route(self, path: &str, upstream: Upstream) -> (r: Self)
        ensures
            r.routes.deep_view() == self.routes.deep_view().push(
                (path@, crate::app::spec_upstream_addr(upstream.name@, upstream.port)),
            ),
            r == (Caddy { routes: r.routes, ..self }),
    {
        let mut s = self;
        let ghost old_dv = s.routes.deep_view();
        let addr = upstream.address();
        let ghost addr_view = addr@;
        s.routes.push((path.to_owned(), addr));
        proof {
            assert(s.routes.deep_view() =~~= old_dv.push((path@, addr_view)));
        }
        s
    }

    /// Whether the proxy should appear in the rendered stack at all.
    pub fn has_upstreams(&self) -> (r: bool)
        ensures
            r == spec_has_upstreams(self),
    {
        self.reverse_proxy.is_some() || self.routes.len() > 0
    }

    /// Append one raw passthrough configuration line.
    pub fn directive(self, raw: &str) -> (r: Self)
        ensures
            r.extra_directives.deep_view() == self.extra_directives.deep_view().push(raw@),
            r == (Caddy { extra_directives: r.extra_directives, ..self }),
    {
        let mut s = self;
        let ghost old_dv = s.extra_directives.deep_view();
        s.extra_directives.push(raw.to_owned());
        proof {
            assert(s.extra_directives.deep_view() =~~= old_dv.push(raw@));
        }
        s
    }

    /// Mount a volume into the proxy container. Host paths that start
    /// with `./` or `/` stay service-level bind mounts; bare names are
    /// also registered as top-level named volumes.
    pub fn volume(self, host: &str, container: &str) -> (r: Self)
        ensures
            r.volumes.deep_view() == self.volumes.deep_view().push((host@, container@)),
            r == (Caddy { volumes: r.volumes, ..self }),
    {
        let mut s = self;
        let ghost old_dv = s.volumes.deep_view();
        s.volumes.push((host.to_owned(), container.to_owned()));
        proof {
            assert(s.volumes.deep_view() =~~= old_dv.push((host@, container@)));
        }
        s
    }
}

} // verus!
