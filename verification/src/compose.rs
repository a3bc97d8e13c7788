//! Renders the multi-service orchestration manifest: a proxy service when
//! something stands behind the proxy, one service per application, the
//! named volumes they declare, and one shared network named after the
//! first application.
//!
//! The document is specified line by line, and a structural parser
//! recovers the service, volume and network names from the rendered text,
//! so the round-trip law is proved over the same line sequences the
//! renderer emits.

use vstd::prelude::*;

use crate::app::App;
use crate::caddy::Caddy;
use crate::caddy::spec_has_upstreams;
use crate::text::spec_dec;
use crate::text::digit_char;
use crate::text::spec_basename;
use crate::text::nl_free;
use crate::text::spec_push_unique;
use crate::text::spec_join_term;
use crate::text::join_lines_term;
use crate::text::push_dec;
use crate::text::basename_of;
use crate::text::push_unique;
use crate::text::str_starts_with;
use vstd::slice::slice_index_get;

verus! {

// ---------------------------------------------------------------------
// Names
// ---------------------------------------------------------------------

/// The shared network is named after the first application.
pub open spec fn spec_network_name(apps: Seq<App>) -> Seq<char>
    recommends
        apps.len() > 0,
{
    apps[0].name@ + "-network"@
}

/// The application names, in declaration order.
pub open spec fn app_names(apps: Seq<App>) -> Seq<Seq<char>>
    decreases apps.len(),
{
    if apps.len() == 0 {
        Seq::<Seq<char>>::empty()
    } else {
        app_names(apps.drop_last()).push(apps.last().name@)
    }
}

/// The service names of the manifest: the proxy first when it is
/// materialised, then every application.
pub open spec fn spec_service_names(apps: Seq<App>, has_up: bool) -> Seq<Seq<char>> {
    if has_up {
        seq!["caddy"@] + app_names(apps)
    } else {
        app_names(apps)
    }
}

/// One application's volume names folded into an accumulator, first
/// occurrence kept.
pub open spec fn vols_after(acc: Seq<Seq<char>>, vols: Seq<(Seq<char>, Seq<char>)>) -> Seq<
    Seq<char>,
>
    decreases vols.len(),
{
    if vols.len() == 0 {
        acc
    } else {
        spec_push_unique(vols_after(acc, vols.drop_last()), vols.last().0)
    }
}

/// Every application's volume names, in declaration order, duplicates
/// collapsed to their first occurrence.
pub open spec fn apps_vols(acc: Seq<Seq<char>>, apps: Seq<App>) -> Seq<Seq<char>>
    decreases apps.len(),
{
    if apps.len() == 0 {
        acc
    } else {
        vols_after(apps_vols(acc, apps.drop_last()), apps.last().volumes.deep_view())
    }
}

/// A proxy volume source that names a host path rather than a named
/// volume: it must not be registered at the top level.
pub open spec fn is_bind_source(h: Seq<char>) -> bool {
    (h.len() >= 2 && h[0] == '.' && h[1] == '/') || (h.len() >= 1 && h[0] == '/')
}

/// The proxy's caller-declared named volumes folded into an accumulator;
/// bind-mount sources are left out.
pub open spec fn named_cvols_after(acc: Seq<Seq<char>>, cvols: Seq<(Seq<char>, Seq<char>)>) -> Seq<
    Seq<char>,
>
    decreases cvols.len(),
{
    if cvols.len() == 0 {
        acc
    } else {
        let front = named_cvols_after(acc, cvols.drop_last());
        if is_bind_source(cvols.last().0) {
            front
        } else {
            spec_push_unique(front, cvols.last().0)
        }
    }
}

/// Every top-level named volume of the manifest, in order: the
/// applications' volumes, then the proxy's two fixed state volumes and
/// its caller-declared named volumes when the proxy is present.
pub open spec fn spec_volume_names(
    apps: Seq<App>,
    has_up: bool,
    cvols: Seq<(Seq<char>, Seq<char>)>,
) -> Seq<Seq<char>> {
    let base = apps_vols(Seq::<Seq<char>>::empty(), apps);
    if has_up {
        named_cvols_after(
            spec_push_unique(spec_push_unique(base, "caddy-data"@), "caddy-config"@),
            cvols,
        )
    } else {
        base
    }
}

// ---------------------------------------------------------------------
// Lines
// ---------------------------------------------------------------------

pub open spec fn svc_name_line(name: Seq<char>) -> Seq<char> {
    "  "@ + name + ":"@
}

pub open spec fn cvol_mount_lines(cvols: Seq<(Seq<char>, Seq<char>)>) -> Seq<Seq<char>>
    decreases cvols.len(),
{
    if cvols.len() == 0 {
        Seq::<Seq<char>>::empty()
    } else {
        cvol_mount_lines(cvols.drop_last()).push(
            "    - "@ + cvols.last().0 + ":"@ + cvols.last().1,
        )
    }
}

/// The proxy's conditional dependency edges: every application must reach
/// a healthy state before the proxy starts.
pub open spec fn depends_lines(names: Seq<Seq<char>>) -> Seq<Seq<char>>
    decreases names.len(),
{
    if names.len() == 0 {
        Seq::<Seq<char>>::empty()
    } else {
        depends_lines(names.drop_last()) + seq![
            "      "@ + names.last() + ":"@,
            "        condition: service_healthy"@,
        ]
    }
}

/// The body of the proxy service: fixed image, published web ports, the
/// read-only configuration mount plus the two state volumes, the caller's
/// extra mounts, the health-conditioned dependencies, and the shared
/// network.
pub open spec fn caddy_body_lines(
    first_name: Seq<char>,
    names: Seq<Seq<char>>,
    cvols: Seq<(Seq<char>, Seq<char>)>,
    net: Seq<char>,
) -> Seq<Seq<char>> {
    seq![
        "    image: caddy:2-alpine"@,
        "    container_name: "@ + first_name + "-caddy"@,
        "    restart: unless-stopped"@,
        "    ports:"@,
        "    - 80:80"@,
        "    - 443:443"@,
        "    volumes:"@,
        "    - ./Caddyfile:/etc/caddy/Caddyfile:ro"@,
        "    - caddy-data:/data"@,
        "    - caddy-config:/config"@,
    ] + cvol_mount_lines(cvols) + seq!["    depends_on:"@] + depends_lines(names) + seq![
        "    networks:"@,
        "    - "@ + net,
    ]
}

pub open spec fn port_lines(ps: Seq<(u16, u16)>) -> Seq<Seq<char>>
    decreases ps.len(),
{
    if ps.len() == 0 {
        Seq::<Seq<char>>::empty()
    } else {
        port_lines(ps.drop_last()).push(
            "    - "@ + spec_dec(ps.last().0 as nat) + ":"@ + spec_dec(ps.last().1 as nat),
        )
    }
}

pub open spec fn expose_lines(es: Seq<u16>) -> Seq<Seq<char>>
    decreases es.len(),
{
    if es.len() == 0 {
        Seq::<Seq<char>>::empty()
    } else {
        expose_lines(es.drop_last()).push("    - '"@ + spec_dec(es.last() as nat) + "'"@)
    }
}

pub open spec fn env_lines(es: Seq<(Seq<char>, Seq<char>)>) -> Seq<Seq<char>>
    decreases es.len(),
{
    if es.len() == 0 {
        Seq::<Seq<char>>::empty()
    } else {
        env_lines(es.drop_last()).push("    - "@ + es.last().0 + "="@ + es.last().1)
    }
}

pub open spec fn vol_mount_lines(vs: Seq<(Seq<char>, Seq<char>)>) -> Seq<Seq<char>>
    decreases vs.len(),
{
    if vs.len() == 0 {
        Seq::<Seq<char>>::empty()
    } else {
        vol_mount_lines(vs.drop_last()).push("    - "@ + vs.last().0 + ":"@ + vs.last().1)
    }
}

/// The health-check block: the declared command under a fixed polling
/// policy — 30s interval, 10s timeout, 3 retries, 10s start grace.
pub open spec fn healthcheck_lines(cmd: Seq<char>) -> Seq<Seq<char>> {
    seq![
        "    healthcheck:"@,
        "      test:"@,
        "      - CMD"@,
        "      - sh"@,
        "      - -c"@,
        "      - "@ + cmd,
        "      interval: 30s"@,
        "      timeout: 10s"@,
        "      retries: 3"@,
        "      start_period: 10s"@,
    ]
}

/// The identity and port lines of one application service: image and
/// container name from the application name, restart policy, host port
/// mappings under `ports`, internal ports under `expose`, and the
/// environment pairs in declaration order.
pub open spec fn app_body_head(app: App) -> Seq<Seq<char>> {
    seq![
        "    image: "@ + app.name@ + ":latest"@,
        "    container_name: "@ + app.name@,
        "    restart: unless-stopped"@,
    ] + (if app.ports@.len() > 0 {
        seq!["    ports:"@] + port_lines(app.ports@)
    } else {
        Seq::<Seq<char>>::empty()
    }) + (if app.expose@.len() > 0 {
        seq!["    expose:"@] + expose_lines(app.expose@)
    } else {
        Seq::<Seq<char>>::empty()
    }) + (if app.env@.len() > 0 {
        seq!["    environment:"@] + env_lines(app.env.deep_view())
    } else {
        Seq::<Seq<char>>::empty()
    })
}

/// The closing lines of one application service: the environment file by
/// basename only, the volume mounts, the health-check block when a
/// command was declared, and the shared network.
pub open spec fn app_body_tail(app: App, net: Seq<char>) -> Seq<Seq<char>> {
    (match app.env_file {
        Some(ef) => seq!["    env_file: "@ + spec_basename(ef@)],
        None => Seq::<Seq<char>>::empty(),
    }) + (if app.volumes@.len() > 0 {
        seq!["    volumes:"@] + vol_mount_lines(app.volumes.deep_view())
    } else {
        Seq::<Seq<char>>::empty()
    }) + (match app.healthcheck {
        Some(cmd) => healthcheck_lines(cmd@),
        None => Seq::<Seq<char>>::empty(),
    }) + seq!["    networks:"@, "    - "@ + net]
}

/// The body of one application service. Internal ports go under
/// `expose`, host mappings under `ports`, the environment file keeps only
/// its basename, and a health-check block appears only when a command was
/// declared.
pub open spec fn app_body_lines(app: App, net: Seq<char>) -> Seq<Seq<char>> {
    app_body_head(app) + app_body_tail(app, net)
}

pub open spec fn apps_service_lines(apps: Seq<App>, net: Seq<char>) -> Seq<Seq<char>>
    decreases apps.len(),
{
    if apps.len() == 0 {
        Seq::<Seq<char>>::empty()
    } else {
        apps_service_lines(apps.drop_last(), net) + seq![svc_name_line(apps.last().name@)]
            + app_body_lines(apps.last(), net)
    }
}

/// The whole `services` section.
pub open spec fn services_lines(
    apps: Seq<App>,
    has_up: bool,
    cvols: Seq<(Seq<char>, Seq<char>)>,
    net: Seq<char>,
) -> Seq<Seq<char>>
    recommends
        apps.len() > 0,
{
    seq!["services:"@] + (if has_up {
        seq![svc_name_line("caddy"@)] + caddy_body_lines(apps[0].name@, app_names(apps), cvols, net)
    } else {
        Seq::<Seq<char>>::empty()
    }) + apps_service_lines(apps, net)
}

pub open spec fn vol_decl_lines(names: Seq<Seq<char>>) -> Seq<Seq<char>>
    decreases names.len(),
{
    if names.len() == 0 {
        Seq::<Seq<char>>::empty()
    } else {
        vol_decl_lines(names.drop_last()) + seq![
            "  "@ + names.last() + ":"@,
            "    driver: local"@,
        ]
    }
}

/// The `volumes` section, left out entirely when no named volume exists.
pub open spec fn volumes_section_lines(names: Seq<Seq<char>>) -> Seq<Seq<char>> {
    if names.len() == 0 {
        Seq::<Seq<char>>::empty()
    } else {
        seq!["volumes:"@] + vol_decl_lines(names)
    }
}

/// The `networks` section: the one shared bridge network.
pub open spec fn networks_section_lines(net: Seq<char>) -> Seq<Seq<char>> {
    seq!["networks:"@, "  "@ + net + ":"@, "    driver: bridge"@]
}

/// Every line of the manifest, in order.
pub open spec fn spec_manifest_lines(
    apps: Seq<App>,
    has_up: bool,
    cvols: Seq<(Seq<char>, Seq<char>)>,
) -> Seq<Seq<char>>
    recommends
        apps.len() > 0,
{
    let net = spec_network_name(apps);
    services_lines(apps, has_up, cvols, net) + volumes_section_lines(
        spec_volume_names(apps, has_up, cvols),
    ) + networks_section_lines(net)
}

/// The manifest text an application list and proxy descriptor render to.
pub open spec fn spec_compose(apps: Seq<App>, caddy: &Caddy) -> Seq<char>
    recommends
        apps.len() > 0,
{
    spec_join_term(
        spec_manifest_lines(apps, spec_has_upstreams(caddy), caddy.volumes.deep_view()),
    )
}

// ---------------------------------------------------------------------
// Rendering
// ---------------------------------------------------------------------

/// Append `"    - "` + a + ":" + b as one line.
fn push_pair_line(lines: &mut Vec<String>, a: &str, b: &str)
    ensures
        final(lines).deep_view() == old(lines).deep_view().push("    - "@ + a@ + ":"@ + b@),
{
    let ghost old_dv = lines.deep_view();
    let mut l = String::from_str("    - ");
    l.append(a);
    l.append(":");
    l.append(b);
    proof {
        assert(l@ =~= "    - "@ + a@ + ":"@ + b@);
    }
    lines.push(l);
    proof {
        assert(lines.deep_view() =~~= old_dv.push("    - "@ + a@ + ":"@ + b@));
    }
}

fn push_lit_line(lines: &mut Vec<String>, lit: &str)
    ensures
        final(lines).deep_view() == old(lines).deep_view().push(lit@),
{
    let ghost old_dv = lines.deep_view();
    lines.push(lit.to_owned());
    proof {
        assert(lines.deep_view() =~~= old_dv.push(lit@));
    }
}

/// Append the opening lines of one application service.
#[verifier::rlimit(100)]
fn push_app_head(lines: &mut Vec<String>, app: &App)
    ensures
        final(lines).deep_view() == old(lines).deep_view() + app_body_head(*app),
{
    let ghost base = lines.deep_view();

    let mut img = String::from_str("    image: ");
    img.append(app.name.as_str());
    img.append(":latest");
    proof {
        assert(img@ =~= "    image: "@ + app.name@ + ":latest"@);
    }
    lines.push(img);
    let mut cn = String::from_str("    container_name: ");
    cn.append(app.name.as_str());
    lines.push(cn);
    push_lit_line(lines, "    restart: unless-stopped");
    let ghost acc = base + seq![
        "    image: "@ + app.name@ + ":latest"@,
        "    container_name: "@ + app.name@,
        "    restart: unless-stopped"@,
    ];
    proof {
        assert(lines.deep_view() =~~= acc);
    }

    if app.ports.len() > 0 {
        push_lit_line(lines, "    ports:");
        let ghost mid = lines.deep_view();
        let n = app.ports.len();
        let mut i: usize = 0;
        while i < n
            invariant
                0 <= i <= n,
                n == app.ports@.len(),
                lines.deep_view() == mid + port_lines(app.ports@.take(i as int)),
            decreases n - i,
        {
            let (h, c) = app.ports[i];
            let ghost ldv = lines.deep_view();
            let mut l = String::from_str("    - ");
            push_dec(&mut l, h as u64);
            l.append(":");
            push_dec(&mut l, c as u64);
            proof {
                assert(l@ =~= "    - "@ + spec_dec(h as nat) + ":"@ + spec_dec(c as nat));
            }
            lines.push(l);
            proof {
                assert(app.ports@.take(i + 1).drop_last() =~= app.ports@.take(i as int));
                assert(app.ports@.take(i + 1).last() == app.ports@[i as int]);
                assert(lines.deep_view() =~~= ldv.push(
                    "    - "@ + spec_dec(app.ports@[i as int].0 as nat) + ":"@ + spec_dec(
                        app.ports@[i as int].1 as nat,
                    ),
                ));
                assert(lines.deep_view() =~~= mid + port_lines(app.ports@.take(i + 1)));
            }
            i += 1;
        }
        proof {
            assert(app.ports@.take(n as int) =~= app.ports@);
        }
    }
    let ghost acc = acc + (if app.ports@.len() > 0 {
        seq!["    ports:"@] + port_lines(app.ports@)
    } else {
        Seq::<Seq<char>>::empty()
    });
    proof {
        assert(lines.deep_view() =~~= acc);
    }

    if app.expose.len() > 0 {
        push_lit_line(lines, "    expose:");
        let ghost mid = lines.deep_view();
        let n = app.expose.len();
        let mut i: usize = 0;
        while i < n
            invariant
                0 <= i <= n,
                n == app.expose@.len(),
                lines.deep_view() == mid + expose_lines(app.expose@.take(i as int)),
            decreases n - i,
        {
            let p = app.expose[i];
            let ghost ldv = lines.deep_view();
            let mut l = String::from_str("    - '");
            push_dec(&mut l, p as u64);
            l.append("'");
            proof {
                assert(l@ =~= "    - '"@ + spec_dec(p as nat) + "'"@);
            }
            lines.push(l);
            proof {
                assert(app.expose@.take(i + 1).drop_last() =~= app.expose@.take(i as int));
                assert(app.expose@.take(i + 1).last() == app.expose@[i as int]);
                assert(lines.deep_view() =~~= ldv.push(
                    "    - '"@ + spec_dec(app.expose@[i as int] as nat) + "'"@,
                ));
                assert(lines.deep_view() =~~= mid + expose_lines(app.expose@.take(i + 1)));
            }
            i += 1;
        }
        proof {
            assert(app.expose@.take(n as int) =~= app.expose@);
        }
    }
    let ghost acc = acc + (if app.expose@.len() > 0 {
        seq!["    expose:"@] + expose_lines(app.expose@)
    } else {
        Seq::<Seq<char>>::empty()
    });
    proof {
        assert(lines.deep_view() =~~= acc);
    }

    if app.env.len() > 0 {
        push_lit_line(lines, "    environment:");
        let ghost mid = lines.deep_view();
        let ghost env_dv = app.env.deep_view();
        let n = app.env.len();
        let mut i: usize = 0;
        while i < n
            invariant
                0 <= i <= n,
                n == env_dv.len(),
                env_dv == app.env.deep_view(),
                lines.deep_view() == mid + env_lines(env_dv.take(i as int)),
            decreases n - i,
        {
            let kv = &app.env[i];
            proof {
                assert(env_dv[i as int] == (kv.0@, kv.1@));
            }
            let ghost ldv = lines.deep_view();
            let mut l = String::from_str("    - ");
            l.append(kv.0.as_str());
            l.append("=");
            l.append(kv.1.as_str());
            proof {
                assert(l@ =~= "    - "@ + kv.0@ + "="@ + kv.1@);
            }
            lines.push(l);
            proof {
                assert(env_dv.take(i + 1).drop_last() =~~= env_dv.take(i as int));
                assert(env_dv.take(i + 1).last() == env_dv[i as int]);
                assert(lines.deep_view() =~~= ldv.push("    - "@ + kv.0@ + "="@ + kv.1@));
                assert(lines.deep_view() =~~= mid + env_lines(env_dv.take(i + 1)));
            }
            i += 1;
        }
        proof {
            assert(env_dv.take(n as int) =~~= env_dv);
        }
    }
    proof {
        assert(lines.deep_view() =~~= acc + (if app.env@.len() > 0 {
            seq!["    environment:"@] + env_lines(app.env.deep_view())
        } else {
            Seq::<Seq<char>>::empty()
        }));
        assert(lines.deep_view() =~~= base + app_body_head(*app));
    }
}

/// Append the closing lines of one application service.
#[verifier::rlimit(100)]
fn push_app_tail(lines: &mut Vec<String>, app: &App, net: &str)
    ensures
        final(lines).deep_view() == old(lines).deep_view() + app_body_tail(*app, net@),
{
    let ghost base = lines.deep_view();

    if let Some(ef) = &app.env_file {
        let bn = basename_of(ef.as_str());
        let ghost ldv = lines.deep_view();
        let mut l = String::from_str("    env_file: ");
        l.append(bn.as_str());
        proof {
            assert(l@ =~= "    env_file: "@ + spec_basename(ef@));
        }
        lines.push(l);
        proof {
            assert(lines.deep_view() =~~= ldv.push("    env_file: "@ + spec_basename(ef@)));
        }
    }
    let ghost acc = base + (match &app.env_file {
        Some(ef) => seq!["    env_file: "@ + spec_basename(ef@)],
        None => Seq::<Seq<char>>::empty(),
    });
    proof {
        assert(lines.deep_view() =~~= acc);
    }

    if app.volumes.len() > 0 {
        push_lit_line(lines, "    volumes:");
        let ghost mid = lines.deep_view();
        let ghost vol_dv = app.volumes.deep_view();
        let n = app.volumes.len();
        let mut i: usize = 0;
        while i < n
            invariant
                0 <= i <= n,
                n == vol_dv.len(),
                vol_dv == app.volumes.deep_view(),
                lines.deep_view() == mid + vol_mount_lines(vol_dv.take(i as int)),
            decreases n - i,
        {
            let nm = &app.volumes[i];
            proof {
                assert(vol_dv[i as int] == (nm.0@, nm.1@));
            }
            push_pair_line(lines, nm.0.as_str(), nm.1.as_str());
            proof {
                assert(vol_dv.take(i + 1).drop_last() =~~= vol_dv.take(i as int));
                assert(vol_dv.take(i + 1).last() == vol_dv[i as int]);
                assert(lines.deep_view() =~~= mid + vol_mount_lines(vol_dv.take(i + 1)));
            }
            i += 1;
        }
        proof {
            assert(vol_dv.take(n as int) =~~= vol_dv);
        }
    }
    let ghost acc = acc + (if app.volumes@.len() > 0 {
        seq!["    volumes:"@] + vol_mount_lines(app.volumes.deep_view())
    } else {
        Seq::<Seq<char>>::empty()
    });
    proof {
        assert(lines.deep_view() =~~= acc);
    }

    if let Some(cmd) = &app.healthcheck {
        push_lit_line(lines, "    healthcheck:");
        push_lit_line(lines, "      test:");
        push_lit_line(lines, "      - CMD");
        push_lit_line(lines, "      - sh");
        push_lit_line(lines, "      - -c");
        let ghost ldv = lines.deep_view();
        let mut l = String::from_str("      - ");
        l.append(cmd.as_str());
        lines.push(l);
        proof {
            assert(lines.deep_view() =~~= ldv.push("      - "@ + cmd@));
        }
        push_lit_line(lines, "      interval: 30s");
        push_lit_line(lines, "      timeout: 10s");
        push_lit_line(lines, "      retries: 3");
        push_lit_line(lines, "      start_period: 10s");
        proof {
            assert(lines.deep_view() =~~= acc + healthcheck_lines(cmd@));
        }
    }
    let ghost acc = acc + (match &app.healthcheck {
        Some(cmd) => healthcheck_lines(cmd@),
        None => Seq::<Seq<char>>::empty(),
    });
    proof {
        assert(lines.deep_view() =~~= acc);
    }

    push_lit_line(lines, "    networks:");
    let ghost ldv = lines.deep_view();
    let mut nl = String::from_str("    - ");
    nl.append(net);
    lines.push(nl);
    proof {
        assert(lines.deep_view() =~~= ldv.push("    - "@ + net@));
        assert(lines.deep_view() =~~= base + app_body_tail(*app, net@));
    }
}

/// Append the body of one application service.
fn push_app_body(lines: &mut Vec<String>, app: &App, net: &str)
    ensures
        final(lines).deep_view() == old(lines).deep_view() + app_body_lines(*app, net@),
{
    let ghost base = lines.deep_view();
    push_app_head(lines, app);
    push_app_tail(lines, app, net);
    proof {
        assert(lines.deep_view() =~~= base + app_body_lines(*app, net@));
    }
}

/// Collect the manifest's top-level volume names.
fn collect_volume_names(apps: &[App], caddy: &Caddy, has_up: bool) -> (r: Vec<String>)
    requires
        has_up == spec_has_upstreams(caddy),
    ensures
        r.deep_view() == spec_volume_names(apps@, has_up, caddy.volumes.deep_view()),
{
    let mut names: Vec<String> = Vec::new();
    let n = apps.len();
    let mut i: usize = 0;
    proof {
        assert(names.deep_view() =~~= apps_vols(Seq::<Seq<char>>::empty(), apps@.take(0)));
    }
    while i < n
        invariant
            0 <= i <= n,
            n == apps@.len(),
            names.deep_view() == apps_vols(Seq::<Seq<char>>::empty(), apps@.take(i as int)),
        decreases n - i,
    {
        let app = slice_index_get(apps, i);
        let ghost before = names.deep_view();
        let ghost vol_dv = app.volumes.deep_view();
        let vn = app.volumes.len();
        let mut j: usize = 0;
        while j < vn
            invariant
                0 <= j <= vn,
                vn == vol_dv.len(),
                vol_dv == app.volumes.deep_view(),
                names.deep_view() == vols_after(before, vol_dv.take(j as int)),
            decreases vn - j,
        {
            proof {
                assert(vol_dv[j as int] == (app.volumes@[j as int].0@, app.volumes@[j as int].1@));
            }
            push_unique(&mut names, app.volumes[j].0.clone());
            proof {
                assert(vol_dv.take(j + 1).drop_last() =~~= vol_dv.take(j as int));
                assert(vol_dv.take(j + 1).last() == vol_dv[j as int]);
            }
            j += 1;
        }
        proof {
            assert(vol_dv.take(vn as int) =~~= vol_dv);
            assert(apps@.take(i + 1).drop_last() =~= apps@.take(i as int));
            assert(apps@.take(i + 1).last() == apps@[i as int]);
            assert(names.deep_view() == apps_vols(Seq::<Seq<char>>::empty(), apps@.take(i + 1)));
        }
        i += 1;
    }
    proof {
        assert(apps@.take(n as int) =~= apps@);
    }
    if has_up {
        push_unique(&mut names, String::from_str("caddy-data"));
        push_unique(&mut names, String::from_str("caddy-config"));
        let ghost with_fixed = names.deep_view();
        let ghost cvol_dv = caddy.volumes.deep_view();
        let cn = caddy.volumes.len();
        let mut k: usize = 0;
        while k < cn
            invariant
                0 <= k <= cn,
                cn == cvol_dv.len(),
                cvol_dv == caddy.volumes.deep_view(),
                names.deep_view() == named_cvols_after(with_fixed, cvol_dv.take(k as int)),
            decreases cn - k,
        {
            let entry = &caddy.volumes[k];
            proof {
                assert(cvol_dv[k as int] == (entry.0@, entry.1@));
            }
            let bind = str_starts_with(entry.0.as_str(), "./") || str_starts_with(
                entry.0.as_str(),
                "/",
            );
            proof {
                reveal_strlit("./");
                reveal_strlit("/");
                assert("./"@ =~= seq!['.', '/']);
                assert("/"@ =~= seq!['/']);
                let h = entry.0@;
                if is_bind_source(h) {
                    if h.len() >= 2 && h[0] == '.' && h[1] == '/' {
                        assert("./"@ =~= h.subrange(0, 2));
                    } else {
                        assert("/"@ =~= h.subrange(0, 1));
                    }
                }
                if "./"@.is_prefix_of(h) {
                    assert(h.subrange(0, 2)[0] == h[0]);
                    assert(h.subrange(0, 2)[1] == h[1]);
                }
                if "/"@.is_prefix_of(h) {
                    assert(h.subrange(0, 1)[0] == h[0]);
                }
                assert(bind == is_bind_source(entry.0@));
            }
            if !bind {
                push_unique(&mut names, entry.0.clone());
            }
            proof {
                assert(cvol_dv.take(k + 1).drop_last() =~~= cvol_dv.take(k as int));
                assert(cvol_dv.take(k + 1).last() == cvol_dv[k as int]);
            }
            k += 1;
        }
        proof {
            assert(cvol_dv.take(cn as int) =~~= cvol_dv);
        }
    }
    names
}

/// Render a complete orchestration manifest for the applications behind
/// the given proxy descriptor.
#[verifier::rlimit(100)]
pub fn render(apps: &[App], caddy: &Caddy) -> (r: String)
    requires
        apps@.len() > 0,
    ensures
        r@ == spec_compose(apps@, caddy),
{
    let has_up = caddy.has_upstreams();
    let ghost cvols = caddy.volumes.deep_view();

    // The shared network name, from the first application.
    let mut net = slice_index_get(apps, 0).name.clone();
    net.append("-network");
    proof {
        assert(net@ =~= spec_network_name(apps@));
    }

    let mut lines: Vec<String> = Vec::new();
    push_lit_line(&mut lines, "services:");

    // Application names, needed for the proxy's dependency edges.
    let mut names: Vec<String> = Vec::new();
    let n = apps.len();
    let mut i: usize = 0;
    while i < n
        invariant
            0 <= i <= n,
            n == apps@.len(),
            names.deep_view() == app_names(apps@.take(i as int)),
        decreases n - i,
    {
        let ghost before = names.deep_view();
        names.push(slice_index_get(apps, i).name.clone());
        proof {
            assert(apps@.take(i + 1).drop_last() =~= apps@.take(i as int));
            assert(apps@.take(i + 1).last() == apps@[i as int]);
            assert(names.deep_view() =~~= before.push(apps@[i as int].name@));
        }
        i += 1;
    }
    proof {
        assert(apps@.take(n as int) =~= apps@);
    }

    if has_up {
        let ghost before = lines.deep_view();
        let ghost body = caddy_body_lines(apps@[0].name@, app_names(apps@), cvols, net@);
        push_lit_line(&mut lines, "  caddy:");
        proof {
            reveal_strlit("caddy");
            reveal_strlit("  caddy:");
            reveal_strlit("  ");
            reveal_strlit(":");
            assert("  caddy:"@ =~= svc_name_line("caddy"@));
        }
        push_lit_line(&mut lines, "    image: caddy:2-alpine");
        let ghost ldv0 = lines.deep_view();
        let mut cn0 = String::from_str("    container_name: ");
        cn0.append(slice_index_get(apps, 0).name.as_str());
        cn0.append("-caddy");
        proof {
            assert(cn0@ =~= "    container_name: "@ + apps@[0].name@ + "-caddy"@);
        }
        lines.push(cn0);
        proof {
            assert(lines.deep_view() =~~= ldv0.push(
                "    container_name: "@ + apps@[0].name@ + "-caddy"@,
            ));
        }
        push_lit_line(&mut lines, "    restart: unless-stopped");
        push_lit_line(&mut lines, "    ports:");
        push_lit_line(&mut lines, "    - 80:80");
        push_lit_line(&mut lines, "    - 443:443");
        push_lit_line(&mut lines, "    volumes:");
        push_lit_line(&mut lines, "    - ./Caddyfile:/etc/caddy/Caddyfile:ro");
        push_lit_line(&mut lines, "    - caddy-data:/data");
        push_lit_line(&mut lines, "    - caddy-config:/config");
        let ghost fixed_head = lines.deep_view();

        let ghost cvn = caddy.volumes.len() as int;
        let cvlen = caddy.volumes.len();
        let mut k: usize = 0;
        while k < cvlen
            invariant
                0 <= k <= cvlen,
                cvlen == cvols.len(),
                cvols == caddy.volumes.deep_view(),
                lines.deep_view() == fixed_head + cvol_mount_lines(cvols.take(k as int)),
            decreases cvlen - k,
        {
            let entry = &caddy.volumes[k];
            proof {
                assert(cvols[k as int] == (entry.0@, entry.1@));
            }
            push_pair_line(&mut lines, entry.0.as_str(), entry.1.as_str());
            proof {
                assert(cvols.take(k + 1).drop_last() =~~= cvols.take(k as int));
                assert(cvols.take(k + 1).last() == cvols[k as int]);
                assert(lines.deep_view() =~~= fixed_head + cvol_mount_lines(cvols.take(k + 1)));
            }
            k += 1;
        }
        proof {
            assert(cvols.take(cvlen as int) =~~= cvols);
        }

        push_lit_line(&mut lines, "    depends_on:");
        let ghost dep_base = lines.deep_view();
        let ghost names_dv = names.deep_view();
        let nn = names.len();
        let mut t: usize = 0;
        while t < nn
            invariant
                0 <= t <= nn,
                nn == names_dv.len(),
                names.deep_view() == names_dv,
                lines.deep_view() == dep_base + depends_lines(names_dv.take(t as int)),
            decreases nn - t,
        {
            let ghost ldv = lines.deep_view();
            let mut dl = String::from_str("      ");
            dl.append(names[t].as_str());
            dl.append(":");
            proof {
                assert(dl@ =~= "      "@ + names_dv[t as int] + ":"@);
            }
            lines.push(dl);
            proof {
                assert(lines.deep_view() =~~= ldv.push("      "@ + names_dv[t as int] + ":"@));
            }
            let ghost mid_dv = lines.deep_view();
            push_lit_line(&mut lines, "        condition: service_healthy");
            proof {
                assert(names_dv.take(t + 1).drop_last() =~~= names_dv.take(t as int));
                assert(names_dv.take(t + 1).last() == names_dv[t as int]);
                assert(lines.deep_view() =~~= mid_dv.push("        condition: service_healthy"@));
                assert(depends_lines(names_dv.take(t + 1)) =~~= depends_lines(
                    names_dv.take(t as int),
                ) + seq![
                    "      "@ + names_dv[t as int] + ":"@,
                    "        condition: service_healthy"@,
                ]);
                assert(lines.deep_view() =~~= dep_base + depends_lines(names_dv.take(t + 1)));
            }
            t += 1;
        }
        proof {
            assert(names_dv.take(nn as int) =~~= names_dv);
        }

        push_lit_line(&mut lines, "    networks:");
        let ghost ldv1 = lines.deep_view();
        let mut nline = String::from_str("    - ");
        nline.append(net.as_str());
        lines.push(nline);
        proof {
            assert(lines.deep_view() =~~= ldv1.push("    - "@ + net@));
            assert(lines.deep_view() =~~= before + seq![svc_name_line("caddy"@)] + body);
        }
    }
    let ghost after_caddy = seq!["services:"@] + (if has_up {
        seq![svc_name_line("caddy"@)] + caddy_body_lines(apps@[0].name@, app_names(apps@), cvols,
            net@)
    } else {
        Seq::<Seq<char>>::empty()
    });
    proof {
        assert(lines.deep_view() =~~= after_caddy);
    }

    let mut a: usize = 0;
    while a < n
        invariant
            0 <= a <= n,
            n == apps@.len(),
            net@ == spec_network_name(apps@),
            lines.deep_view() == after_caddy + apps_service_lines(apps@.take(a as int), net@),
        decreases n - a,
    {
        let app = slice_index_get(apps, a);
        let ghost ldv = lines.deep_view();
        let mut snl = String::from_str("  ");
        snl.append(app.name.as_str());
        snl.append(":");
        proof {
            assert(snl@ =~= svc_name_line(app.name@));
        }
        lines.push(snl);
        proof {
            assert(lines.deep_view() =~~= ldv.push(svc_name_line(app.name@)));
        }
        push_app_body(&mut lines, app, net.as_str());
        proof {
            assert(apps@.take(a + 1).drop_last() =~= apps@.take(a as int));
            assert(apps@.take(a + 1).last() == apps@[a as int]);
            assert(lines.deep_view() =~~= after_caddy + apps_service_lines(
                apps@.take(a + 1),
                net@,
            ));
        }
        a += 1;
    }
    proof {
        assert(apps@.take(n as int) =~= apps@);
        assert(lines.deep_view() =~~= after_caddy + apps_service_lines(apps@, net@));
    }
    let ghost with_services = services_lines(apps@, has_up, cvols, net@);
    proof {
        assert(lines.deep_view() =~~= with_services);
    }

    // Top-level named volumes.
    let vol_names = collect_volume_names(apps, caddy, has_up);
    let ghost vnames = vol_names.deep_view();
    if vol_names.len() > 0 {
        push_lit_line(&mut lines, "volumes:");
        let ghost vbase = lines.deep_view();
        let vn = vol_names.len();
        let mut v: usize = 0;
        while v < vn
            invariant
                0 <= v <= vn,
                vn == vnames.len(),
                vol_names.deep_view() == vnames,
                lines.deep_view() == vbase + vol_decl_lines(vnames.take(v as int)),
            decreases vn - v,
        {
            let ghost ldv = lines.deep_view();
            let mut dl = String::from_str("  ");
            dl.append(vol_names[v].as_str());
            dl.append(":");
            proof {
                assert(dl@ =~= "  "@ + vnames[v as int] + ":"@);
            }
            lines.push(dl);
            proof {
                assert(lines.deep_view() =~~= ldv.push("  "@ + vnames[v as int] + ":"@));
            }
            let ghost mid_dv = lines.deep_view();
            push_lit_line(&mut lines, "    driver: local");
            proof {
                assert(vnames.take(v + 1).drop_last() =~~= vnames.take(v as int));
                assert(vnames.take(v + 1).last() == vnames[v as int]);
                assert(lines.deep_view() =~~= mid_dv.push("    driver: local"@));
                assert(vol_decl_lines(vnames.take(v + 1)) =~~= vol_decl_lines(
                    vnames.take(v as int),
                ) + seq!["  "@ + vnames[v as int] + ":"@, "    driver: local"@]);
                assert(lines.deep_view() =~~= vbase + vol_decl_lines(vnames.take(v + 1)));
            }
            v += 1;
        }
        proof {
            assert(vnames.take(vn as int) =~~= vnames);
        }
    }
    proof {
        assert(lines.deep_view() =~~= with_services + volumes_section_lines(vnames));
    }

    // The shared network.
    push_lit_line(&mut lines, "networks:");
    let ghost ldv2 = lines.deep_view();
    let mut nd = String::from_str("  ");
    nd.append(net.as_str());
    nd.append(":");
    proof {
        assert(nd@ =~= "  "@ + net@ + ":"@);
    }
    lines.push(nd);
    proof {
        assert(lines.deep_view() =~~= ldv2.push("  "@ + net@ + ":"@));
    }
    push_lit_line(&mut lines, "    driver: bridge");
    proof {
        assert(lines.deep_view() =~~= spec_manifest_lines(apps@, has_up, cvols));
    }
    join_lines_term(&lines)
}



// ---------------------------------------------------------------------
// Well-formed descriptors
// ---------------------------------------------------------------------

/// A string that can stand inside a single line of the document.
pub open spec fn wf_token(s: Seq<char>) -> bool {
    s.len() > 0 && s[0] != ' ' && nl_free(s)
}

/// A descriptor whose strings cannot break the line structure of the
/// manifest: names and volume names are single-line tokens, values and
/// commands are single-line text.
pub open spec fn wf_app(app: App) -> bool {
    &&& wf_token(app.name@)
    &&& forall|i: int|
        0 <= i < app.volumes.deep_view().len() ==> wf_token(
            (#[trigger] app.volumes.deep_view()[i]).0,
        ) && nl_free(app.volumes.deep_view()[i].1)
    &&& forall|i: int|
        0 <= i < app.env.deep_view().len() ==> nl_free((#[trigger] app.env.deep_view()[i]).0)
            && nl_free(app.env.deep_view()[i].1)
    &&& (app.env_file is Some ==> nl_free(app.env_file->0@))
    &&& (app.healthcheck is Some ==> nl_free(app.healthcheck->0@))
}

pub open spec fn wf_apps(apps: Seq<App>) -> bool {
    apps.len() > 0 && forall|i: int| 0 <= i < apps.len() ==> wf_app(#[trigger] apps[i])
}

/// The proxy's extra volume entries as single-line tokens.
pub open spec fn wf_proxy_vols(cvols: Seq<(Seq<char>, Seq<char>)>) -> bool {
    forall|i: int|
        0 <= i < cvols.len() ==> wf_token((#[trigger] cvols[i]).0) && nl_free(cvols[i].1)
}

// ---------------------------------------------------------------------
// Structural parsing: recover service, volume and network names
// ---------------------------------------------------------------------

/// A line that declares a name inside a top-level section: exactly two
/// spaces of indent, then the name, then a colon.
pub open spec fn is_name_line(l: Seq<char>) -> bool {
    l.len() >= 4 && l[0] == ' ' && l[1] == ' ' && l[2] != ' ' && l.last() == ':'
}

pub open spec fn name_of_line(l: Seq<char>) -> Seq<char> {
    l.subrange(2, l.len() - 1)
}

/// The parser's fold over the document's lines: track the current
/// top-level section (0 none, 1 services, 2 volumes, 3 networks) and
/// collect the names each section declares.
pub open spec fn parse_state(
    lines: Seq<Seq<char>>,
    sect: int,
    sv: Seq<Seq<char>>,
    vo: Seq<Seq<char>>,
    ne: Seq<Seq<char>>,
) -> (int, Seq<Seq<char>>, Seq<Seq<char>>, Seq<Seq<char>>)
    decreases lines.len(),
{
    if lines.len() == 0 {
        (sect, sv, vo, ne)
    } else {
        let l = lines[0];
        let rest = lines.drop_first();
        if l == "services:"@ {
            parse_state(rest, 1, sv, vo, ne)
        } else if l == "volumes:"@ {
            parse_state(rest, 2, sv, vo, ne)
        } else if l == "networks:"@ {
            parse_state(rest, 3, sv, vo, ne)
        } else if is_name_line(l) && sect == 1 {
            parse_state(rest, sect, sv.push(name_of_line(l)), vo, ne)
        } else if is_name_line(l) && sect == 2 {
            parse_state(rest, sect, sv, vo.push(name_of_line(l)), ne)
        } else if is_name_line(l) && sect == 3 {
            parse_state(rest, sect, sv, vo, ne.push(name_of_line(l)))
        } else {
            parse_state(rest, sect, sv, vo, ne)
        }
    }
}

/// The names a manifest text declares, section by section.
pub open spec fn spec_parse_names(s: Seq<char>) -> (Seq<Seq<char>>, Seq<Seq<char>>, Seq<Seq<char>>) {
    let r = parse_state(
        crate::text::spec_lines(s),
        0,
        Seq::<Seq<char>>::empty(),
        Seq::<Seq<char>>::empty(),
        Seq::<Seq<char>>::empty(),
    );
    (r.1, r.2, r.3)
}

/// Parse a manifest text back into its service, volume and network
/// names, in declaration order.
pub fn parse_names(s: &str) -> (r: (Vec<String>, Vec<String>, Vec<String>))
    ensures
        (r.0.deep_view(), r.1.deep_view(), r.2.deep_view()) == spec_parse_names(s@),
{
    let lines = crate::text::lines_of(s);
    let ghost all = lines.deep_view();
    let mut sv: Vec<String> = Vec::new();
    let mut vo: Vec<String> = Vec::new();
    let mut ne: Vec<String> = Vec::new();
    let mut sect: u8 = 0;
    let n = lines.len();
    let mut i: usize = 0;
    proof {
        assert(all.skip(0) =~~= all);
        assert(sv.deep_view() =~~= Seq::<Seq<char>>::empty());
        assert(vo.deep_view() =~~= Seq::<Seq<char>>::empty());
        assert(ne.deep_view() =~~= Seq::<Seq<char>>::empty());
    }
    while i < n
        invariant
            0 <= i <= n,
            n == all.len(),
            lines.deep_view() == all,
            0 <= sect <= 3,
            parse_state(
                all,
                0,
                Seq::<Seq<char>>::empty(),
                Seq::<Seq<char>>::empty(),
                Seq::<Seq<char>>::empty(),
            ) == parse_state(
                all.skip(i as int),
                sect as int,
                sv.deep_view(),
                vo.deep_view(),
                ne.deep_view(),
            ),
        decreases n - i,
    {
        let line = &lines[i];
        proof {
            assert(all.skip(i as int)[0] == all[i as int]);
            assert(all.skip(i as int).drop_first() =~~= all.skip(i + 1));
            assert(line@ == all[i as int]);
        }
        let llen = line.as_str().unicode_len();
        if crate::text::str_eq(line.as_str(), "services:") {
            sect = 1;
        } else if crate::text::str_eq(line.as_str(), "volumes:") {
            sect = 2;
        } else if crate::text::str_eq(line.as_str(), "networks:") {
            sect = 3;
        } else if llen >= 4 && line.as_str().get_char(0) == ' ' && line.as_str().get_char(1) == ' '
            && line.as_str().get_char(2) != ' ' && line.as_str().get_char(llen - 1) == ':' {
            let name = String::from_str(line.as_str().substring_char(2, llen - 1));
            proof {
                assert(is_name_line(line@));
                assert(name@ == name_of_line(line@));
            }
            if sect == 1 {
                let ghost old_dv = sv.deep_view();
                sv.push(name);
                proof {
                    assert(sv.deep_view() =~~= old_dv.push(name_of_line(all[i as int])));
                }
            } else if sect == 2 {
                let ghost old_dv = vo.deep_view();
                vo.push(name);
                proof {
                    assert(vo.deep_view() =~~= old_dv.push(name_of_line(all[i as int])));
                }
            } else if sect == 3 {
                let ghost old_dv = ne.deep_view();
                ne.push(name);
                proof {
                    assert(ne.deep_view() =~~= old_dv.push(name_of_line(all[i as int])));
                }
            }
        } else {
            proof {
                assert(!is_name_line(line@));
            }
        }
        i += 1;
    }
    proof {
        assert(all.skip(n as int) =~~= Seq::<Seq<char>>::empty());
    }
    (sv, vo, ne)
}

// ---------------------------------------------------------------------
// The round-trip law: parsing a rendered manifest recovers its names
// ---------------------------------------------------------------------

pub open spec fn all_nl_free(lines: Seq<Seq<char>>) -> bool {
    forall|i: int| 0 <= i < lines.len() ==> nl_free(#[trigger] lines[i])
}

/// A line that cannot declare a name or open a section: at least three
/// spaces of indent.
pub open spec fn inert_line(l: Seq<char>) -> bool {
    l.len() >= 3 && l[0] == ' ' && l[1] == ' ' && l[2] == ' '
}

pub open spec fn all_inert(lines: Seq<Seq<char>>) -> bool {
    forall|i: int| 0 <= i < lines.len() ==> inert_line(#[trigger] lines[i]) && nl_free(lines[i])
}

proof fn lemma_nl_free_concat(a: Seq<char>, b: Seq<char>)
    requires
        nl_free(a),
        nl_free(b),
    ensures
        nl_free(a + b),
{
    assert forall|i: int| 0 <= i < (a + b).len() implies (a + b)[i] != '\n' && (a + b)[i]
        != '\r' by {
        if i < a.len() {
            assert((a + b)[i] == a[i]);
        } else {
            assert((a + b)[i] == b[i - a.len()]);
        }
    }
    assert(!(a + b).contains('\n'));
    assert(!(a + b).contains('\r'));
}

proof fn lemma_dec_nl_free(n: nat)
    ensures
        nl_free(spec_dec(n)),
    decreases n,
{
    if n < 10 {
        assert(!spec_dec(n).contains('\n'));
        assert(!spec_dec(n).contains('\r'));
    } else {
        lemma_dec_nl_free(n / 10);
        let p = spec_dec(n / 10);
        let d = digit_char((n % 10) as int);
        assert forall|i: int| 0 <= i < p.push(d).len() implies p.push(d)[i] != '\n' && p.push(
            d,
        )[i] != '\r' by {
            if i < p.len() {
                assert(p.push(d)[i] == p[i]);
            }
        }
        assert(!spec_dec(n).contains('\n'));
        assert(!spec_dec(n).contains('\r'));
    }
}

/// A prefix of at least three spaces, fit to open an inert line.
pub open spec fn sp3(pre: Seq<char>) -> bool {
    pre.len() >= 3 && pre[0] == ' ' && pre[1] == ' ' && pre[2] == ' '
}

/// A line made of a deeply indented prefix and single-line text is inert.
proof fn lemma_prefixed_inert(pre: Seq<char>, rest: Seq<char>)
    requires
        sp3(pre),
        nl_free(pre),
        nl_free(rest),
    ensures
        inert_line(pre + rest),
        nl_free(pre + rest),
{
    lemma_nl_free_concat(pre, rest);
    assert((pre + rest)[0] == pre[0]);
    assert((pre + rest)[1] == pre[1]);
    assert((pre + rest)[2] == pre[2]);
}

proof fn lemma_all_inert_concat(a: Seq<Seq<char>>, b: Seq<Seq<char>>)
    requires
        all_inert(a),
        all_inert(b),
    ensures
        all_inert(a + b),
{
    assert forall|i: int| 0 <= i < (a + b).len() implies inert_line(#[trigger] (a + b)[i])
        && nl_free((a + b)[i]) by {
        if i < a.len() {
            assert((a + b)[i] == a[i]);
        } else {
            assert((a + b)[i] == b[i - a.len()]);
        }
    }
}

/// The facts about the fixed lines and tokens of the manifest text that
/// the structural proofs lean on.
proof fn lemma_manifest_text_facts()
    ensures
        "services:"@.len() > 0 && "services:"@[0] == 's' && nl_free("services:"@),
        "volumes:"@.len() > 0 && "volumes:"@[0] == 'v' && nl_free("volumes:"@),
        "networks:"@.len() > 0 && "networks:"@[0] == 'n' && nl_free("networks:"@),
        wf_token("caddy"@),
        wf_token("caddy-data"@),
        wf_token("caddy-config"@),
        nl_free("-network"@),
        nl_free("  "@) && "  "@.len() == 2 && "  "@[0] == ' ' && "  "@[1] == ' ',
        nl_free(":"@) && ":"@.len() == 1 && ":"@[0] == ':',
        nl_free("    - "@) && sp3("    - "@),
        nl_free("      "@) && sp3("      "@),
        nl_free("    image: "@) && sp3("    image: "@),
        nl_free(":latest"@),
        nl_free("    container_name: "@) && sp3("    container_name: "@),
        nl_free("-caddy"@),
        nl_free("    env_file: "@) && sp3("    env_file: "@),
        nl_free("      - "@) && sp3("      - "@),
        nl_free("="@),
        nl_free("'"@),
        nl_free("    - '"@) && sp3("    - '"@),
        nl_free("    ports:"@) && inert_line("    ports:"@),
        nl_free("    expose:"@) && inert_line("    expose:"@),
        nl_free("    environment:"@) && inert_line("    environment:"@),
        nl_free("    volumes:"@) && inert_line("    volumes:"@),
        nl_free("    networks:"@) && inert_line("    networks:"@),
        nl_free("    image: caddy:2-alpine"@) && inert_line("    image: caddy:2-alpine"@),
        nl_free("    restart: unless-stopped"@) && inert_line("    restart: unless-stopped"@),
        nl_free("    - 80:80"@) && inert_line("    - 80:80"@),
        nl_free("    - 443:443"@) && inert_line("    - 443:443"@),
        nl_free("    - ./Caddyfile:/etc/caddy/Caddyfile:ro"@) && inert_line(
            "    - ./Caddyfile:/etc/caddy/Caddyfile:ro"@,
        ),
        nl_free("    - caddy-data:/data"@) && inert_line("    - caddy-data:/data"@),
        nl_free("    - caddy-config:/config"@) && inert_line("    - caddy-config:/config"@),
        nl_free("    depends_on:"@) && inert_line("    depends_on:"@),
        nl_free("        condition: service_healthy"@) && inert_line(
            "        condition: service_healthy"@,
        ),
        nl_free("    healthcheck:"@) && inert_line("    healthcheck:"@),
        nl_free("      test:"@) && inert_line("      test:"@),
        nl_free("      - CMD"@) && inert_line("      - CMD"@),
        nl_free("      - sh"@) && inert_line("      - sh"@),
        nl_free("      - -c"@) && inert_line("      - -c"@),
        nl_free("      interval: 30s"@) && inert_line("      interval: 30s"@),
        nl_free("      timeout: 10s"@) && inert_line("      timeout: 10s"@),
        nl_free("      retries: 3"@) && inert_line("      retries: 3"@),
        nl_free("      start_period: 10s"@) && inert_line("      start_period: 10s"@),
        nl_free("    driver: local"@) && inert_line("    driver: local"@),
        nl_free("    driver: bridge"@) && inert_line("    driver: bridge"@),
{
    reveal_strlit("services:");
    reveal_strlit("volumes:");
    reveal_strlit("networks:");
    reveal_strlit("caddy");
    reveal_strlit("caddy-data");
    reveal_strlit("caddy-config");
    reveal_strlit("-network");
    reveal_strlit("  ");
    reveal_strlit(":");
    reveal_strlit("    - ");
    reveal_strlit("      ");
    reveal_strlit("    image: ");
    reveal_strlit(":latest");
    reveal_strlit("    container_name: ");
    reveal_strlit("-caddy");
    reveal_strlit("    env_file: ");
    reveal_strlit("      - ");
    reveal_strlit("=");
    reveal_strlit("'");
    reveal_strlit("    - '");
    reveal_strlit("    ports:");
    reveal_strlit("    expose:");
    reveal_strlit("    environment:");
    reveal_strlit("    volumes:");
    reveal_strlit("    networks:");
    reveal_strlit("    image: caddy:2-alpine");
    reveal_strlit("    restart: unless-stopped");
    reveal_strlit("    - 80:80");
    reveal_strlit("    - 443:443");
    reveal_strlit("    - ./Caddyfile:/etc/caddy/Caddyfile:ro");
    reveal_strlit("    - caddy-data:/data");
    reveal_strlit("    - caddy-config:/config");
    reveal_strlit("    depends_on:");
    reveal_strlit("        condition: service_healthy");
    reveal_strlit("    healthcheck:");
    reveal_strlit("      test:");
    reveal_strlit("      - CMD");
    reveal_strlit("      - sh");
    reveal_strlit("      - -c");
    reveal_strlit("      interval: 30s");
    reveal_strlit("      timeout: 10s");
    reveal_strlit("      retries: 3");
    reveal_strlit("      start_period: 10s");
    reveal_strlit("    driver: local");
    reveal_strlit("    driver: bridge");
}

proof fn lemma_port_lines_inert(ps: Seq<(u16, u16)>)
    ensures
        all_inert(port_lines(ps)),
    decreases ps.len(),
{
    lemma_manifest_text_facts();
    if ps.len() > 0 {
        lemma_port_lines_inert(ps.drop_last());
        lemma_dec_nl_free(ps.last().0 as nat);
        lemma_dec_nl_free(ps.last().1 as nat);
        let l = "    - "@ + spec_dec(ps.last().0 as nat) + ":"@ + spec_dec(ps.last().1 as nat);
        let rest = spec_dec(ps.last().0 as nat) + ":"@ + spec_dec(ps.last().1 as nat);
        lemma_nl_free_concat(spec_dec(ps.last().0 as nat), ":"@);
        lemma_nl_free_concat(spec_dec(ps.last().0 as nat) + ":"@, spec_dec(ps.last().1 as nat));
        lemma_prefixed_inert("    - "@, rest);
        assert(l =~= "    - "@ + rest);
        assert(inert_line(l) && nl_free(l));
        assert forall|i: int| 0 <= i < port_lines(ps).len() implies inert_line(
            #[trigger] port_lines(ps)[i],
        ) && nl_free(port_lines(ps)[i]) by {
            if i < port_lines(ps.drop_last()).len() {
                assert(port_lines(ps)[i] == port_lines(ps.drop_last())[i]);
            } else {
                assert(port_lines(ps)[i] == l);
            }
        }
    }
}

proof fn lemma_expose_lines_inert(es: Seq<u16>)
    ensures
        all_inert(expose_lines(es)),
    decreases es.len(),
{
    lemma_manifest_text_facts();
    if es.len() > 0 {
        lemma_expose_lines_inert(es.drop_last());
        lemma_dec_nl_free(es.last() as nat);
        let l = "    - '"@ + spec_dec(es.last() as nat) + "'"@;
        let rest = spec_dec(es.last() as nat) + "'"@;
        lemma_nl_free_concat(spec_dec(es.last() as nat), "'"@);
        lemma_prefixed_inert("    - '"@, rest);
        assert(l =~= "    - '"@ + rest);
        assert(inert_line(l) && nl_free(l));
        assert forall|i: int| 0 <= i < expose_lines(es).len() implies inert_line(
            #[trigger] expose_lines(es)[i],
        ) && nl_free(expose_lines(es)[i]) by {
            if i < expose_lines(es.drop_last()).len() {
                assert(expose_lines(es)[i] == expose_lines(es.drop_last())[i]);
            } else {
                assert(expose_lines(es)[i] == l);
            }
        }
    }
}

proof fn lemma_env_lines_inert(es: Seq<(Seq<char>, Seq<char>)>)
    requires
        forall|i: int|
            0 <= i < es.len() ==> nl_free((#[trigger] es[i]).0) && nl_free(es[i].1),
    ensures
        all_inert(env_lines(es)),
    decreases es.len(),
{
    lemma_manifest_text_facts();
    if es.len() > 0 {
        lemma_env_lines_inert(es.drop_last());
        let l = "    - "@ + es.last().0 + "="@ + es.last().1;
        let rest = es.last().0 + "="@ + es.last().1;
        lemma_nl_free_concat(es.last().0, "="@);
        lemma_nl_free_concat(es.last().0 + "="@, es.last().1);
        lemma_prefixed_inert("    - "@, rest);
        assert(l =~= "    - "@ + rest);
        assert(inert_line(l) && nl_free(l));
        assert forall|i: int| 0 <= i < env_lines(es).len() implies inert_line(
            #[trigger] env_lines(es)[i],
        ) && nl_free(env_lines(es)[i]) by {
            if i < env_lines(es.drop_last()).len() {
                assert(env_lines(es)[i] == env_lines(es.drop_last())[i]);
            } else {
                assert(env_lines(es)[i] == l);
            }
        }
    }
}

proof fn lemma_pair_mount_inert(vs: Seq<(Seq<char>, Seq<char>)>)
    requires
        forall|i: int|
            0 <= i < vs.len() ==> nl_free((#[trigger] vs[i]).0) && nl_free(vs[i].1),
    ensures
        all_inert(vol_mount_lines(vs)),
        all_inert(cvol_mount_lines(vs)),
    decreases vs.len(),
{
    lemma_manifest_text_facts();
    if vs.len() > 0 {
        lemma_pair_mount_inert(vs.drop_last());
        let l = "    - "@ + vs.last().0 + ":"@ + vs.last().1;
        let rest = vs.last().0 + ":"@ + vs.last().1;
        lemma_nl_free_concat(vs.last().0, ":"@);
        lemma_nl_free_concat(vs.last().0 + ":"@, vs.last().1);
        lemma_prefixed_inert("    - "@, rest);
        assert(l =~= "    - "@ + rest);
        assert(inert_line(l) && nl_free(l));
        assert forall|i: int| 0 <= i < vol_mount_lines(vs).len() implies inert_line(
            #[trigger] vol_mount_lines(vs)[i],
        ) && nl_free(vol_mount_lines(vs)[i]) by {
            if i < vol_mount_lines(vs.drop_last()).len() {
                assert(vol_mount_lines(vs)[i] == vol_mount_lines(vs.drop_last())[i]);
            } else {
                assert(vol_mount_lines(vs)[i] == l);
            }
        }
        assert forall|i: int| 0 <= i < cvol_mount_lines(vs).len() implies inert_line(
            #[trigger] cvol_mount_lines(vs)[i],
        ) && nl_free(cvol_mount_lines(vs)[i]) by {
            if i < cvol_mount_lines(vs.drop_last()).len() {
                assert(cvol_mount_lines(vs)[i] == cvol_mount_lines(vs.drop_last())[i]);
            } else {
                assert(cvol_mount_lines(vs)[i] == l);
            }
        }
    }
}

proof fn lemma_depends_lines_inert(names: Seq<Seq<char>>)
    requires
        all_nl_free(names),
    ensures
        all_inert(depends_lines(names)),
    decreases names.len(),
{
    lemma_manifest_text_facts();
    if names.len() > 0 {
        assert(nl_free(names.last()));
        lemma_depends_lines_inert(names.drop_last());
        let l1 = "      "@ + names.last() + ":"@;
        let rest = names.last() + ":"@;
        lemma_nl_free_concat(names.last(), ":"@);
        lemma_prefixed_inert("      "@, rest);
        assert(l1 =~= "      "@ + rest);
        assert(inert_line(l1) && nl_free(l1));
        let l2 = "        condition: service_healthy"@;
        let tailpair = seq![l1, l2];
        assert(all_inert(tailpair)) by {
            assert(tailpair[0] == l1);
            assert(tailpair[1] == l2);
        }
        lemma_all_inert_concat(depends_lines(names.drop_last()), tailpair);
    }
}

proof fn lemma_healthcheck_lines_inert(cmd: Seq<char>)
    requires
        nl_free(cmd),
    ensures
        all_inert(healthcheck_lines(cmd)),
{
    lemma_manifest_text_facts();
    let l = "      - "@ + cmd;
    lemma_prefixed_inert("      - "@, cmd);
    assert(inert_line(l) && nl_free(l));
    let hl = healthcheck_lines(cmd);
    assert forall|i: int| 0 <= i < hl.len() implies inert_line(#[trigger] hl[i]) && nl_free(
        hl[i],
    ) by {
        if i == 5 {
            assert(hl[i] == l);
        }
    }
}

proof fn lemma_app_body_inert(app: App, net: Seq<char>)
    requires
        wf_app(app),
        nl_free(net),
    ensures
        all_inert(app_body_lines(app, net)),
{
    lemma_manifest_text_facts();
    let img = "    image: "@ + app.name@ + ":latest"@;
    lemma_nl_free_concat(app.name@, ":latest"@);
    lemma_prefixed_inert("    image: "@, app.name@ + ":latest"@);
    assert(img =~= "    image: "@ + (app.name@ + ":latest"@));
    let cn = "    container_name: "@ + app.name@;
    lemma_prefixed_inert("    container_name: "@, app.name@);
    let head3 = seq![img, cn, "    restart: unless-stopped"@];
    assert(all_inert(head3)) by {
        assert(head3[0] == img);
        assert(head3[1] == cn);
        assert(head3[2] == "    restart: unless-stopped"@);
    }
    lemma_port_lines_inert(app.ports@);
    let ports_part = if app.ports@.len() > 0 {
        seq!["    ports:"@] + port_lines(app.ports@)
    } else {
        Seq::<Seq<char>>::empty()
    };
    assert(all_inert(ports_part)) by {
        if app.ports@.len() > 0 {
            assert(all_inert(seq!["    ports:"@])) by {
                assert(seq!["    ports:"@][0] == "    ports:"@);
            }
            lemma_all_inert_concat(seq!["    ports:"@], port_lines(app.ports@));
        }
    }
    lemma_expose_lines_inert(app.expose@);
    let expose_part = if app.expose@.len() > 0 {
        seq!["    expose:"@] + expose_lines(app.expose@)
    } else {
        Seq::<Seq<char>>::empty()
    };
    assert(all_inert(expose_part)) by {
        if app.expose@.len() > 0 {
            assert(all_inert(seq!["    expose:"@])) by {
                assert(seq!["    expose:"@][0] == "    expose:"@);
            }
            lemma_all_inert_concat(seq!["    expose:"@], expose_lines(app.expose@));
        }
    }
    lemma_env_lines_inert(app.env.deep_view());
    let env_part = if app.env@.len() > 0 {
        seq!["    environment:"@] + env_lines(app.env.deep_view())
    } else {
        Seq::<Seq<char>>::empty()
    };
    assert(all_inert(env_part)) by {
        if app.env@.len() > 0 {
            assert(all_inert(seq!["    environment:"@])) by {
                assert(seq!["    environment:"@][0] == "    environment:"@);
            }
            lemma_all_inert_concat(seq!["    environment:"@], env_lines(app.env.deep_view()));
        }
    }
    lemma_all_inert_concat(head3, ports_part);
    lemma_all_inert_concat(head3 + ports_part, expose_part);
    lemma_all_inert_concat(head3 + ports_part + expose_part, env_part);
    assert(app_body_head(app) == head3 + ports_part + expose_part + env_part);

    let ef_part = match app.env_file {
        Some(ef) => seq!["    env_file: "@ + spec_basename(ef@)],
        None => Seq::<Seq<char>>::empty(),
    };
    assert(all_inert(ef_part)) by {
        if app.env_file is Some {
            let ef = app.env_file->0;
            crate::text::lemma_basename_nl_free(ef@);
            let l = "    env_file: "@ + spec_basename(ef@);
            lemma_prefixed_inert("    env_file: "@, spec_basename(ef@));
            assert(ef_part[0] == l);
        }
    }
    lemma_pair_mount_inert(app.volumes.deep_view());
    let vol_part = if app.volumes@.len() > 0 {
        seq!["    volumes:"@] + vol_mount_lines(app.volumes.deep_view())
    } else {
        Seq::<Seq<char>>::empty()
    };
    assert(all_inert(vol_part)) by {
        if app.volumes@.len() > 0 {
            assert(all_inert(seq!["    volumes:"@])) by {
                assert(seq!["    volumes:"@][0] == "    volumes:"@);
            }
            lemma_all_inert_concat(
                seq!["    volumes:"@],
                vol_mount_lines(app.volumes.deep_view()),
            );
        }
    }
    let hc_part = match app.healthcheck {
        Some(cmd) => healthcheck_lines(cmd@),
        None => Seq::<Seq<char>>::empty(),
    };
    assert(all_inert(hc_part)) by {
        if app.healthcheck is Some {
            lemma_healthcheck_lines_inert(app.healthcheck->0@);
        }
    }
    let net_line = "    - "@ + net;
    lemma_prefixed_inert("    - "@, net);
    let net_part = seq!["    networks:"@, net_line];
    assert(all_inert(net_part)) by {
        assert(net_part[0] == "    networks:"@);
        assert(net_part[1] == net_line);
    }
    lemma_all_inert_concat(ef_part, vol_part);
    lemma_all_inert_concat(ef_part + vol_part, hc_part);
    lemma_all_inert_concat(ef_part + vol_part + hc_part, net_part);
    assert(app_body_tail(app, net) == ef_part + vol_part + hc_part + net_part);
    lemma_all_inert_concat(app_body_head(app), app_body_tail(app, net));
}

proof fn lemma_caddy_body_inert(
    first_name: Seq<char>,
    names: Seq<Seq<char>>,
    cvols: Seq<(Seq<char>, Seq<char>)>,
    net: Seq<char>,
)
    requires
        nl_free(first_name),
        all_nl_free(names),
        wf_proxy_vols(cvols),
        nl_free(net),
    ensures
        all_inert(caddy_body_lines(first_name, names, cvols, net)),
{
    lemma_manifest_text_facts();
    let cn = "    container_name: "@ + first_name + "-caddy"@;
    lemma_nl_free_concat(first_name, "-caddy"@);
    lemma_prefixed_inert("    container_name: "@, first_name + "-caddy"@);
    assert(cn =~= "    container_name: "@ + (first_name + "-caddy"@));
    let head = seq![
        "    image: caddy:2-alpine"@,
        cn,
        "    restart: unless-stopped"@,
        "    ports:"@,
        "    - 80:80"@,
        "    - 443:443"@,
        "    volumes:"@,
        "    - ./Caddyfile:/etc/caddy/Caddyfile:ro"@,
        "    - caddy-data:/data"@,
        "    - caddy-config:/config"@,
    ];
    assert(all_inert(head)) by {
        assert forall|i: int| 0 <= i < head.len() implies inert_line(#[trigger] head[i])
            && nl_free(head[i]) by {
            if i == 1 {
                assert(head[i] == cn);
            }
        }
    }
    assert forall|i: int| 0 <= i < cvols.len() implies nl_free((#[trigger] cvols[i]).0)
        && nl_free(cvols[i].1) by {}
    lemma_pair_mount_inert(cvols);
    lemma_depends_lines_inert(names);
    let net_line = "    - "@ + net;
    lemma_prefixed_inert("    - "@, net);
    let dep_hdr = seq!["    depends_on:"@];
    assert(all_inert(dep_hdr)) by {
        assert(dep_hdr[0] == "    depends_on:"@);
    }
    let net_part = seq!["    networks:"@, net_line];
    assert(all_inert(net_part)) by {
        assert(net_part[0] == "    networks:"@);
        assert(net_part[1] == net_line);
    }
    lemma_all_inert_concat(head, cvol_mount_lines(cvols));
    lemma_all_inert_concat(head + cvol_mount_lines(cvols), dep_hdr);
    lemma_all_inert_concat(head + cvol_mount_lines(cvols) + dep_hdr, depends_lines(names));
    lemma_all_inert_concat(
        head + cvol_mount_lines(cvols) + dep_hdr + depends_lines(names),
        net_part,
    );
    assert(caddy_body_lines(first_name, names, cvols, net) == head + cvol_mount_lines(cvols)
        + dep_hdr + depends_lines(names) + net_part);
}

/// A section-name line behaves as one: it declares exactly its name, and
/// it is no section header.
proof fn lemma_name_line_props(name: Seq<char>)
    requires
        wf_token(name),
    ensures
        is_name_line(svc_name_line(name)),
        name_of_line(svc_name_line(name)) == name,
        nl_free(svc_name_line(name)),
        svc_name_line(name)[0] == ' ',
        svc_name_line(name) != "services:"@,
        svc_name_line(name) != "volumes:"@,
        svc_name_line(name) != "networks:"@,
{
    lemma_manifest_text_facts();
    let l = svc_name_line(name);
    assert(("  "@ + name).len() == 2 + name.len());
    assert(l[0] == ("  "@ + name)[0]);
    assert(l[1] == ("  "@ + name)[1]);
    assert(l[2] == ("  "@ + name)[2]);
    assert(("  "@ + name)[2] == name[0]);
    assert(l[l.len() - 1] == ":"@[0]);
    assert(l.len() >= 4);
    assert(name_of_line(l) =~= name);
    lemma_nl_free_concat("  "@, name);
    lemma_nl_free_concat("  "@ + name, ":"@);
    assert(l != "services:"@) by {
        assert("services:"@[0] != ' ');
    }
    assert(l != "volumes:"@) by {
        assert("volumes:"@[0] != ' ');
    }
    assert(l != "networks:"@) by {
        assert("networks:"@[0] != ' ');
    }
}

/// Parsing distributes over concatenation of line blocks.
proof fn lemma_parse_concat(
    a: Seq<Seq<char>>,
    b: Seq<Seq<char>>,
    sect: int,
    sv: Seq<Seq<char>>,
    vo: Seq<Seq<char>>,
    ne: Seq<Seq<char>>,
)
    ensures
        parse_state(a + b, sect, sv, vo, ne) == ({
            let m = parse_state(a, sect, sv, vo, ne);
            parse_state(b, m.0, m.1, m.2, m.3)
        }),
    decreases a.len(),
{
    if a.len() == 0 {
        assert(a + b =~~= b);
    } else {
        assert((a + b)[0] == a[0]);
        assert((a + b).drop_first() =~~= a.drop_first() + b);
        lemma_parse_concat(a.drop_first(), b, sect, sv, vo, ne);
        let l = a[0];
        if l == "services:"@ {
            lemma_parse_concat(a.drop_first(), b, 1, sv, vo, ne);
        } else if l == "volumes:"@ {
            lemma_parse_concat(a.drop_first(), b, 2, sv, vo, ne);
        } else if l == "networks:"@ {
            lemma_parse_concat(a.drop_first(), b, 3, sv, vo, ne);
        } else if is_name_line(l) && sect == 1 {
            lemma_parse_concat(a.drop_first(), b, sect, sv.push(name_of_line(l)), vo, ne);
        } else if is_name_line(l) && sect == 2 {
            lemma_parse_concat(a.drop_first(), b, sect, sv, vo.push(name_of_line(l)), ne);
        } else if is_name_line(l) && sect == 3 {
            lemma_parse_concat(a.drop_first(), b, sect, sv, vo, ne.push(name_of_line(l)));
        }
    }
}

/// Inert lines change nothing: no section switch, no name.
proof fn lemma_inert_parse(
    lines: Seq<Seq<char>>,
    sect: int,
    sv: Seq<Seq<char>>,
    vo: Seq<Seq<char>>,
    ne: Seq<Seq<char>>,
)
    requires
        all_inert(lines),
    ensures
        parse_state(lines, sect, sv, vo, ne) == (sect, sv, vo, ne),
    decreases lines.len(),
{
    lemma_manifest_text_facts();
    if lines.len() > 0 {
        let l = lines[0];
        assert(inert_line(l));
        assert(l != "services:"@) by {
            assert(l[0] == ' ');
        }
        assert(l != "volumes:"@) by {
            assert(l[0] == ' ');
        }
        assert(l != "networks:"@) by {
            assert(l[0] == ' ');
        }
        assert(!is_name_line(l));
        assert forall|i: int| 0 <= i < lines.drop_first().len() implies inert_line(
            #[trigger] lines.drop_first()[i],
        ) && nl_free(lines.drop_first()[i]) by {
            assert(lines.drop_first()[i] == lines[i + 1]);
        }
        lemma_inert_parse(lines.drop_first(), sect, sv, vo, ne);
    }
}

/// One application block: its name line declares the service, its body
/// declares nothing.
proof fn lemma_parse_app_block(
    app: App,
    net: Seq<char>,
    sv: Seq<Seq<char>>,
    vo: Seq<Seq<char>>,
    ne: Seq<Seq<char>>,
)
    requires
        wf_app(app),
        nl_free(net),
    ensures
        parse_state(seq![svc_name_line(app.name@)] + app_body_lines(app, net), 1, sv, vo, ne)
            == (1int, sv.push(app.name@), vo, ne),
{
    lemma_name_line_props(app.name@);
    let block = seq![svc_name_line(app.name@)] + app_body_lines(app, net);
    assert(block[0] == svc_name_line(app.name@));
    assert(block.drop_first() =~~= app_body_lines(app, net));
    lemma_app_body_inert(app, net);
    lemma_inert_parse(app_body_lines(app, net), 1, sv.push(app.name@), vo, ne);
}

proof fn lemma_parse_apps(
    apps: Seq<App>,
    net: Seq<char>,
    sv: Seq<Seq<char>>,
    vo: Seq<Seq<char>>,
    ne: Seq<Seq<char>>,
)
    requires
        forall|i: int| 0 <= i < apps.len() ==> wf_app(#[trigger] apps[i]),
        nl_free(net),
    ensures
        parse_state(apps_service_lines(apps, net), 1, sv, vo, ne) == (
            1int,
            sv + app_names(apps),
            vo,
            ne,
        ),
    decreases apps.len(),
{
    if apps.len() == 0 {
        assert(sv + app_names(apps) =~~= sv);
    } else {
        let front = apps_service_lines(apps.drop_last(), net);
        let block = seq![svc_name_line(apps.last().name@)] + app_body_lines(apps.last(), net);
        assert(apps_service_lines(apps, net) =~~= front + block);
        assert forall|i: int| 0 <= i < apps.drop_last().len() implies wf_app(
            #[trigger] apps.drop_last()[i],
        ) by {
            assert(apps.drop_last()[i] == apps[i]);
        }
        lemma_parse_apps(apps.drop_last(), net, sv, vo, ne);
        lemma_parse_concat(front, block, 1, sv, vo, ne);
        lemma_parse_app_block(apps.last(), net, sv + app_names(apps.drop_last()), vo, ne);
        assert((sv + app_names(apps.drop_last())).push(apps.last().name@) =~~= sv + app_names(
            apps,
        ));
    }
}

/// Volume declarations: each name line declares its volume, each driver
/// line is inert.
proof fn lemma_parse_vol_decls(
    names: Seq<Seq<char>>,
    sv: Seq<Seq<char>>,
    vo: Seq<Seq<char>>,
    ne: Seq<Seq<char>>,
)
    requires
        forall|i: int| 0 <= i < names.len() ==> wf_token(#[trigger] names[i]),
    ensures
        parse_state(vol_decl_lines(names), 2, sv, vo, ne) == (2int, sv, vo + names, ne),
    decreases names.len(),
{
    lemma_manifest_text_facts();
    if names.len() == 0 {
        assert(vo + names =~~= vo);
    } else {
        let front = vol_decl_lines(names.drop_last());
        let pair = seq!["  "@ + names.last() + ":"@, "    driver: local"@];
        assert(vol_decl_lines(names) =~~= front + pair);
        assert forall|i: int| 0 <= i < names.drop_last().len() implies wf_token(
            #[trigger] names.drop_last()[i],
        ) by {
            assert(names.drop_last()[i] == names[i]);
        }
        lemma_parse_vol_decls(names.drop_last(), sv, vo, ne);
        lemma_parse_concat(front, pair, 2, sv, vo, ne);
        lemma_name_line_props(names.last());
        assert(pair[0] == svc_name_line(names.last()));
        assert(pair.drop_first() =~~= seq!["    driver: local"@]);
        assert(all_inert(seq!["    driver: local"@])) by {
            assert(seq!["    driver: local"@][0] == "    driver: local"@);
        }
        lemma_inert_parse(
            seq!["    driver: local"@],
            2,
            sv,
            (vo + names.drop_last()).push(names.last()),
            ne,
        );
        assert((vo + names.drop_last()).push(names.last()) =~~= vo + names);
    }
}

proof fn lemma_push_unique_wf(v: Seq<Seq<char>>, x: Seq<char>)
    requires
        forall|i: int| 0 <= i < v.len() ==> wf_token(#[trigger] v[i]),
        wf_token(x),
    ensures
        forall|i: int|
            0 <= i < spec_push_unique(v, x).len() ==> wf_token(#[trigger] spec_push_unique(v, x)[i]),
{
    if !v.contains(x) {
        assert forall|i: int| 0 <= i < v.push(x).len() implies wf_token(
            #[trigger] v.push(x)[i],
        ) by {
            if i < v.len() {
                assert(v.push(x)[i] == v[i]);
            }
        }
    }
}

proof fn lemma_vols_after_wf(acc: Seq<Seq<char>>, vols: Seq<(Seq<char>, Seq<char>)>)
    requires
        forall|i: int| 0 <= i < acc.len() ==> wf_token(#[trigger] acc[i]),
        forall|i: int| 0 <= i < vols.len() ==> wf_token((#[trigger] vols[i]).0),
    ensures
        forall|i: int|
            0 <= i < vols_after(acc, vols).len() ==> wf_token(#[trigger] vols_after(acc, vols)[i]),
    decreases vols.len(),
{
    if vols.len() > 0 {
        assert forall|i: int| 0 <= i < vols.drop_last().len() implies wf_token(
            (#[trigger] vols.drop_last()[i]).0,
        ) by {
            assert(vols.drop_last()[i] == vols[i]);
        }
        lemma_vols_after_wf(acc, vols.drop_last());
        lemma_push_unique_wf(vols_after(acc, vols.drop_last()), vols.last().0);
    }
}

proof fn lemma_apps_vols_wf(acc: Seq<Seq<char>>, apps: Seq<App>)
    requires
        forall|i: int| 0 <= i < acc.len() ==> wf_token(#[trigger] acc[i]),
        forall|i: int| 0 <= i < apps.len() ==> wf_app(#[trigger] apps[i]),
    ensures
        forall|i: int|
            0 <= i < apps_vols(acc, apps).len() ==> wf_token(#[trigger] apps_vols(acc, apps)[i]),
    decreases apps.len(),
{
    if apps.len() > 0 {
        assert forall|i: int| 0 <= i < apps.drop_last().len() implies wf_app(
            #[trigger] apps.drop_last()[i],
        ) by {
            assert(apps.drop_last()[i] == apps[i]);
        }
        lemma_apps_vols_wf(acc, apps.drop_last());
        assert(wf_app(apps.last()));
        lemma_vols_after_wf(apps_vols(acc, apps.drop_last()), apps.last().volumes.deep_view());
    }
}

proof fn lemma_named_cvols_wf(acc: Seq<Seq<char>>, cvols: Seq<(Seq<char>, Seq<char>)>)
    requires
        forall|i: int| 0 <= i < acc.len() ==> wf_token(#[trigger] acc[i]),
        wf_proxy_vols(cvols),
    ensures
        forall|i: int|
            0 <= i < named_cvols_after(acc, cvols).len() ==> wf_token(
                #[trigger] named_cvols_after(acc, cvols)[i],
            ),
    decreases cvols.len(),
{
    if cvols.len() > 0 {
        assert forall|i: int| 0 <= i < cvols.drop_last().len() implies wf_token(
            (#[trigger] cvols.drop_last()[i]).0,
        ) && nl_free(cvols.drop_last()[i].1) by {
            assert(cvols.drop_last()[i] == cvols[i]);
        }
        lemma_named_cvols_wf(acc, cvols.drop_last());
        if !is_bind_source(cvols.last().0) {
            lemma_push_unique_wf(named_cvols_after(acc, cvols.drop_last()), cvols.last().0);
        }
    }
}

/// Every top-level volume name of a well-formed manifest is a single-line
/// token.
proof fn lemma_volume_names_wf(apps: Seq<App>, has_up: bool, cvols: Seq<(Seq<char>, Seq<char>)>)
    requires
        forall|i: int| 0 <= i < apps.len() ==> wf_app(#[trigger] apps[i]),
        wf_proxy_vols(cvols),
    ensures
        forall|i: int|
            0 <= i < spec_volume_names(apps, has_up, cvols).len() ==> wf_token(
                #[trigger] spec_volume_names(apps, has_up, cvols)[i],
            ),
{
    lemma_manifest_text_facts();
    lemma_apps_vols_wf(Seq::<Seq<char>>::empty(), apps);
    let base = apps_vols(Seq::<Seq<char>>::empty(), apps);
    if has_up {
        lemma_push_unique_wf(base, "caddy-data"@);
        lemma_push_unique_wf(spec_push_unique(base, "caddy-data"@), "caddy-config"@);
        lemma_named_cvols_wf(
            spec_push_unique(spec_push_unique(base, "caddy-data"@), "caddy-config"@),
            cvols,
        );
    }
}

proof fn lemma_app_names_nl_free(apps: Seq<App>)
    requires
        forall|i: int| 0 <= i < apps.len() ==> wf_app(#[trigger] apps[i]),
    ensures
        all_nl_free(app_names(apps)),
    decreases apps.len(),
{
    if apps.len() > 0 {
        assert forall|i: int| 0 <= i < apps.drop_last().len() implies wf_app(
            #[trigger] apps.drop_last()[i],
        ) by {
            assert(apps.drop_last()[i] == apps[i]);
        }
        lemma_app_names_nl_free(apps.drop_last());
        assert(wf_app(apps.last()));
        assert forall|i: int| 0 <= i < app_names(apps).len() implies nl_free(
            #[trigger] app_names(apps)[i],
        ) by {
            if i < app_names(apps.drop_last()).len() {
                assert(app_names(apps)[i] == app_names(apps.drop_last())[i]);
            } else {
                assert(app_names(apps)[i] == apps.last().name@);
            }
        }
    }
}

/// Every line of the rendered manifest is single-line text.
#[verifier::rlimit(100)]
proof fn lemma_manifest_lines_nl_free(apps: Seq<App>, has_up: bool, cvols: Seq<(Seq<char>, Seq<char>)>)
    requires
        wf_apps(apps),
        wf_proxy_vols(cvols),
    ensures
        all_nl_free(spec_manifest_lines(apps, has_up, cvols)),
{
    lemma_manifest_text_facts();
    let net = spec_network_name(apps);
    let lines = spec_manifest_lines(apps, has_up, cvols);
    let vnames = spec_volume_names(apps, has_up, cvols);
    assert(wf_app(apps[0]));
    assert(wf_token(net)) by {
        lemma_nl_free_concat(apps[0].name@, "-network"@);
        assert(net[0] == apps[0].name@[0]);
    }
    lemma_app_names_nl_free(apps);
    let svc_block: Seq<Seq<char>> = if has_up {
        seq![svc_name_line("caddy"@)] + caddy_body_lines(apps[0].name@, app_names(apps), cvols, net)
    } else {
        Seq::<Seq<char>>::empty()
    };
    assert(all_nl_free(svc_block)) by {
        if has_up {
            lemma_name_line_props("caddy"@);
            lemma_caddy_body_inert(apps[0].name@, app_names(apps), cvols, net);
            let body = caddy_body_lines(apps[0].name@, app_names(apps), cvols, net);
            assert forall|i: int| 0 <= i < svc_block.len() implies nl_free(
                #[trigger] svc_block[i],
            ) by {
                if i == 0 {
                    assert(svc_block[i] == svc_name_line("caddy"@));
                } else {
                    assert(svc_block[i] == body[i - 1]);
                }
            }
        }
    }
    lemma_apps_service_lines_nl_free(apps, net);
    lemma_volume_names_wf(apps, has_up, cvols);
    lemma_vol_decl_lines_nl_free(vnames);
    let vol_sec = volumes_section_lines(vnames);
    assert(all_nl_free(vol_sec)) by {
        if vnames.len() > 0 {
            assert forall|i: int| 0 <= i < vol_sec.len() implies nl_free(
                #[trigger] vol_sec[i],
            ) by {
                if i >= 1 {
                    assert(vol_sec[i] == vol_decl_lines(vnames)[i - 1]);
                } else {
                    assert(vol_sec[i] == "volumes:"@);
                }
            }
        }
    }
    let net_sec = networks_section_lines(net);
    lemma_name_line_props(net);
    assert(all_nl_free(net_sec)) by {
        assert forall|i: int| 0 <= i < net_sec.len() implies nl_free(#[trigger] net_sec[i]) by {
            if i == 0 {
                assert(net_sec[i] == "networks:"@);
            } else if i == 1 {
                assert(net_sec[i] == svc_name_line(net));
            } else {
                assert(net_sec[i] == "    driver: bridge"@);
            }
        }
    }
    let svc_sec = services_lines(apps, has_up, cvols, net);
    assert(svc_sec == seq!["services:"@] + svc_block + apps_service_lines(apps, net));
    assert(all_nl_free(svc_sec)) by {
        assert forall|i: int| 0 <= i < svc_sec.len() implies nl_free(#[trigger] svc_sec[i]) by {
            if i == 0 {
                assert(svc_sec[i] == "services:"@);
            } else if i < 1 + svc_block.len() {
                assert(svc_sec[i] == svc_block[i - 1]);
            } else {
                assert(svc_sec[i] == apps_service_lines(apps, net)[i - 1 - svc_block.len()]);
            }
        }
    }
    assert(lines == svc_sec + vol_sec + net_sec);
    assert forall|i: int| 0 <= i < lines.len() implies nl_free(#[trigger] lines[i]) by {
        if i < svc_sec.len() {
            assert(lines[i] == svc_sec[i]);
        } else if i < svc_sec.len() + vol_sec.len() {
            assert(lines[i] == vol_sec[i - svc_sec.len()]);
        } else {
            assert(lines[i] == net_sec[i - svc_sec.len() - vol_sec.len()]);
        }
    }
}

/// The services section declares the proxy (when present) and then every
/// application, and nothing else.
#[verifier::rlimit(100)]
proof fn lemma_parse_services(apps: Seq<App>, has_up: bool, cvols: Seq<(Seq<char>, Seq<char>)>)
    requires
        wf_apps(apps),
        wf_proxy_vols(cvols),
    ensures
        parse_state(
            services_lines(apps, has_up, cvols, spec_network_name(apps)),
            0,
            Seq::<Seq<char>>::empty(),
            Seq::<Seq<char>>::empty(),
            Seq::<Seq<char>>::empty(),
        ) == (
            1int,
            spec_service_names(apps, has_up),
            Seq::<Seq<char>>::empty(),
            Seq::<Seq<char>>::empty(),
        ),
{
    lemma_manifest_text_facts();
    let net = spec_network_name(apps);
    assert(wf_app(apps[0]));
    assert(wf_token(net)) by {
        lemma_nl_free_concat(apps[0].name@, "-network"@);
        assert(net[0] == apps[0].name@[0]);
    }
    lemma_app_names_nl_free(apps);
    let svc_block: Seq<Seq<char>> = if has_up {
        seq![svc_name_line("caddy"@)] + caddy_body_lines(apps[0].name@, app_names(apps), cvols, net)
    } else {
        Seq::<Seq<char>>::empty()
    };
    let svc_sec = services_lines(apps, has_up, cvols, net);
    let e = Seq::<Seq<char>>::empty();
    assert(svc_sec[0] == "services:"@);
    assert(svc_sec.drop_first() =~~= svc_block + apps_service_lines(apps, net));
    lemma_parse_concat(svc_block, apps_service_lines(apps, net), 1, e, e, e);
    let after_caddy: Seq<Seq<char>> = if has_up {
        seq!["caddy"@]
    } else {
        e
    };
    assert(parse_state(svc_block, 1, e, e, e) == (1int, after_caddy, e, e)) by {
        if has_up {
            lemma_name_line_props("caddy"@);
            let body = caddy_body_lines(apps[0].name@, app_names(apps), cvols, net);
            assert(svc_block[0] == svc_name_line("caddy"@));
            assert(svc_block.drop_first() =~~= body);
            lemma_caddy_body_inert(apps[0].name@, app_names(apps), cvols, net);
            lemma_inert_parse(body, 1, e.push("caddy"@), e, e);
            assert(e.push("caddy"@) =~~= seq!["caddy"@]);
        }
    }
    lemma_parse_apps(apps, net, after_caddy, e, e);
    assert(after_caddy + app_names(apps) =~~= spec_service_names(apps, has_up)) by {
        if !has_up {
            assert(e + app_names(apps) =~~= app_names(apps));
        }
    }
    assert(parse_state(svc_sec, 0, e, e, e) == parse_state(
        svc_block + apps_service_lines(apps, net),
        1,
        e,
        e,
        e,
    ));
    assert(parse_state(svc_sec, 0, e, e, e) == (1int, after_caddy + app_names(apps), e, e));
}

/// Folding the parser over the manifest's lines yields exactly the
/// rendered names.
#[verifier::rlimit(100)]
proof fn lemma_parse_manifest(apps: Seq<App>, has_up: bool, cvols: Seq<(Seq<char>, Seq<char>)>)
    requires
        wf_apps(apps),
        wf_proxy_vols(cvols),
    ensures
        parse_state(
            spec_manifest_lines(apps, has_up, cvols),
            0,
            Seq::<Seq<char>>::empty(),
            Seq::<Seq<char>>::empty(),
            Seq::<Seq<char>>::empty(),
        ) == (
            3int,
            spec_service_names(apps, has_up),
            spec_volume_names(apps, has_up, cvols),
            seq![spec_network_name(apps)],
        ),
{
    lemma_manifest_text_facts();
    let net = spec_network_name(apps);
    let lines = spec_manifest_lines(apps, has_up, cvols);
    let vnames = spec_volume_names(apps, has_up, cvols);
    assert(wf_app(apps[0]));
    assert(wf_token(net)) by {
        lemma_nl_free_concat(apps[0].name@, "-network"@);
        assert(net[0] == apps[0].name@[0]);
    }
    lemma_volume_names_wf(apps, has_up, cvols);
    let vol_sec = volumes_section_lines(vnames);
    let net_sec = networks_section_lines(net);
    let svc_sec = services_lines(apps, has_up, cvols, net);
    let e = Seq::<Seq<char>>::empty();
    assert(lines =~~= svc_sec + (vol_sec + net_sec));
    lemma_parse_concat(svc_sec, vol_sec + net_sec, 0, e, e, e);
    lemma_parse_services(apps, has_up, cvols);
    let sv1 = spec_service_names(apps, has_up);
    assert(parse_state(lines, 0, e, e, e) == parse_state(vol_sec + net_sec, 1, sv1, e, e));
    lemma_parse_concat(vol_sec, net_sec, 1, sv1, e, e);
    assert(parse_state(vol_sec, 1, sv1, e, e) == (
        if vnames.len() > 0 {
            2int
        } else {
            1int
        },
        sv1,
        vnames,
        e,
    )) by {
        if vnames.len() > 0 {
            assert(vol_sec[0] == "volumes:"@);
            assert(vol_sec.drop_first() =~~= vol_decl_lines(vnames));
            lemma_parse_vol_decls(vnames, sv1, e, e);
            assert(e + vnames =~~= vnames);
        } else {
            assert(vol_sec =~~= e);
            assert(vnames =~~= e);
        }
    }
    let sect2: int = if vnames.len() > 0 {
        2int
    } else {
        1int
    };
    assert(net_sec[0] == "networks:"@);
    assert(net_sec.drop_first() =~~= seq![svc_name_line(net), "    driver: bridge"@]);
    lemma_name_line_props(net);
    assert(seq![svc_name_line(net), "    driver: bridge"@][0] == svc_name_line(net));
    assert(seq![svc_name_line(net), "    driver: bridge"@].drop_first() =~~= seq![
        "    driver: bridge"@,
    ]);
    assert(all_inert(seq!["    driver: bridge"@])) by {
        assert(seq!["    driver: bridge"@][0] == "    driver: bridge"@);
    }
    lemma_inert_parse(seq!["    driver: bridge"@], 3, sv1, vnames, e.push(net));
    let tail2 = seq![svc_name_line(net), "    driver: bridge"@];
    assert(parse_state(net_sec, sect2, sv1, vnames, e) == parse_state(tail2, 3, sv1, vnames, e));
    assert(name_of_line(svc_name_line(net)) == net);
    assert(parse_state(tail2, 3, sv1, vnames, e) == parse_state(
        seq!["    driver: bridge"@],
        3,
        sv1,
        vnames,
        e.push(net),
    ));
    assert(parse_state(net_sec, sect2, sv1, vnames, e) == (3int, sv1, vnames, e.push(net)));
    assert(e.push(net) =~~= seq![net]);
    assert(parse_state(vol_sec + net_sec, 1, sv1, e, e) == parse_state(
        net_sec,
        sect2,
        sv1,
        vnames,
        e,
    ));
    assert(parse_state(lines, 0, e, e, e) == (3int, sv1, vnames, seq![net]));
}

/// Parsing a rendered manifest recovers exactly the service names, the
/// top-level volume names, and the one network name it was built from.
pub proof fn lemma_manifest_round_trip(apps: Seq<App>, caddy: &Caddy)
    requires
        wf_apps(apps),
        wf_proxy_vols(caddy.volumes.deep_view()),
    ensures
        spec_parse_names(spec_compose(apps, caddy)).0 == spec_service_names(
            apps,
            spec_has_upstreams(caddy),
        ),
        spec_parse_names(spec_compose(apps, caddy)).1 == spec_volume_names(
            apps,
            spec_has_upstreams(caddy),
            caddy.volumes.deep_view(),
        ),
        spec_parse_names(spec_compose(apps, caddy)).2 == seq![spec_network_name(apps)],
{
    let has_up = spec_has_upstreams(caddy);
    let cvols = caddy.volumes.deep_view();
    let lines = spec_manifest_lines(apps, has_up, cvols);
    lemma_manifest_lines_nl_free(apps, has_up, cvols);
    crate::text::lemma_lines_round_trip(lines);
    assert(crate::text::spec_lines(spec_compose(apps, caddy)) == lines);
    lemma_parse_manifest(apps, has_up, cvols);
}

proof fn lemma_apps_service_lines_nl_free(apps: Seq<App>, net: Seq<char>)
    requires
        forall|i: int| 0 <= i < apps.len() ==> wf_app(#[trigger] apps[i]),
        nl_free(net),
    ensures
        all_nl_free(apps_service_lines(apps, net)),
    decreases apps.len(),
{
    if apps.len() > 0 {
        assert forall|i: int| 0 <= i < apps.drop_last().len() implies wf_app(
            #[trigger] apps.drop_last()[i],
        ) by {
            assert(apps.drop_last()[i] == apps[i]);
        }
        lemma_apps_service_lines_nl_free(apps.drop_last(), net);
        assert(wf_app(apps.last()));
        lemma_name_line_props(apps.last().name@);
        lemma_app_body_inert(apps.last(), net);
        let front = apps_service_lines(apps.drop_last(), net);
        let body = app_body_lines(apps.last(), net);
        assert forall|i: int| 0 <= i < apps_service_lines(apps, net).len() implies nl_free(
            #[trigger] apps_service_lines(apps, net)[i],
        ) by {
            if i < front.len() {
                assert(apps_service_lines(apps, net)[i] == front[i]);
            } else if i == front.len() {
                assert(apps_service_lines(apps, net)[i] == svc_name_line(apps.last().name@));
            } else {
                assert(apps_service_lines(apps, net)[i] == body[i - front.len() - 1]);
            }
        }
    }
}

proof fn lemma_vol_decl_lines_nl_free(names: Seq<Seq<char>>)
    requires
        forall|i: int| 0 <= i < names.len() ==> wf_token(#[trigger] names[i]),
    ensures
        all_nl_free(vol_decl_lines(names)),
    decreases names.len(),
{
    lemma_manifest_text_facts();
    if names.len() > 0 {
        assert forall|i: int| 0 <= i < names.drop_last().len() implies wf_token(
            #[trigger] names.drop_last()[i],
        ) by {
            assert(names.drop_last()[i] == names[i]);
        }
        lemma_vol_decl_lines_nl_free(names.drop_last());
        lemma_name_line_props(names.last());
        let front = vol_decl_lines(names.drop_last());
        assert forall|i: int| 0 <= i < vol_decl_lines(names).len() implies nl_free(
            #[trigger] vol_decl_lines(names)[i],
        ) by {
            lemma_manifest_text_facts();
            lemma_name_line_props(names.last());
            if i < front.len() {
                assert(vol_decl_lines(names)[i] == front[i]);
            } else if i == front.len() {
                assert(vol_decl_lines(names)[i] == "  "@ + names.last() + ":"@);
            } else {
                assert(vol_decl_lines(names)[i] == "    driver: local"@);
            }
        }
    }
}

/// When nothing stands behind the proxy, the manifest carries no proxy
/// service, no proxy volumes, and no proxy dependency block: the services
/// are exactly the applications and the volumes exactly theirs.
pub proof fn lemma_no_upstreams_no_proxy(apps: Seq<App>, caddy: &Caddy)
    requires
        apps.len() > 0,
        !spec_has_upstreams(caddy),
    ensures
        spec_service_names(apps, spec_has_upstreams(caddy)) == app_names(apps),
        spec_volume_names(apps, spec_has_upstreams(caddy), caddy.volumes.deep_view())
            == apps_vols(Seq::<Seq<char>>::empty(), apps),
        services_lines(apps, spec_has_upstreams(caddy), caddy.volumes.deep_view(),
            spec_network_name(apps)) == seq!["services:"@] + apps_service_lines(
            apps,
            spec_network_name(apps),
        ),
        (forall|i: int| 0 <= i < apps.len() ==> (#[trigger] apps[i]).name@ != "caddy"@)
            ==> !spec_service_names(apps, spec_has_upstreams(caddy)).contains("caddy"@),
{
    let net = spec_network_name(apps);
    assert(seq!["services:"@] + Seq::<Seq<char>>::empty() + apps_service_lines(apps, net)
        =~~= seq!["services:"@] + apps_service_lines(apps, net));
    if forall|i: int| 0 <= i < apps.len() ==> (#[trigger] apps[i]).name@ != "caddy"@ {
        lemma_app_names_distinct(apps);
        assert(!app_names(apps).contains("caddy"@));
    }
}

proof fn lemma_app_names_distinct(apps: Seq<App>)
    requires
        forall|i: int| 0 <= i < apps.len() ==> (#[trigger] apps[i]).name@ != "caddy"@,
    ensures
        !app_names(apps).contains("caddy"@),
    decreases apps.len(),
{
    if apps.len() > 0 {
        assert forall|i: int| 0 <= i < apps.drop_last().len() implies (
        #[trigger] apps.drop_last()[i]).name@ != "caddy"@ by {
            assert(apps.drop_last()[i] == apps[i]);
        }
        lemma_app_names_distinct(apps.drop_last());
        assert forall|i: int| 0 <= i < app_names(apps).len() implies app_names(apps)[i]
            != "caddy"@ by {
            if i < app_names(apps.drop_last()).len() {
                assert(app_names(apps)[i] == app_names(apps.drop_last())[i]);
                assert(!app_names(apps.drop_last()).contains("caddy"@));
            } else {
                assert(app_names(apps)[i] == apps.last().name@);
            }
        }
    }
}

} // verus!
