//! Renders the reverse-proxy configuration document: one site block keyed
//! by the public domain, tab-indented directives, nested blocks in braces,
//! and a blank line around every directive that carries a block.
//!
//! The emission is specified line by line, so the laws about the document
//! — the auth gate always excludes the certificate-challenge path, a
//! catch-all route always renders unscoped, routes silence the single
//! default upstream — are proved over the very sequence of lines the
//! renderer produces.

use vstd::prelude::*;

use crate::caddy::Caddy;
use crate::text::spec_join_term;
use crate::text::join_lines_term;

verus! {

/// The named matcher that keeps the ACME challenge path outside the auth
/// gate, so certificate issuance keeps working while the site is gated.
pub open spec fn acme_matcher_line() -> Seq<char> {
    "\t@protected not path /.well-known/acme-challenge/*"@
}

pub open spec fn auth_open_line() -> Seq<char> {
    "\tbasic_auth @protected {"@
}

pub open spec fn cred_line(user: Seq<char>, hash: Seq<char>) -> Seq<char> {
    "\t\t"@ + user + " "@ + hash
}

pub open spec fn block_close_line() -> Seq<char> {
    "\t}"@
}

/// The opening line of the unscoped catch-all block.
pub open spec fn catch_all_open_line() -> Seq<char> {
    "\thandle {"@
}

pub open spec fn route_open_line(path: Seq<char>) -> Seq<char> {
    if path.len() == 0 {
        catch_all_open_line()
    } else {
        "\thandle "@ + path + " {"@
    }
}

pub open spec fn proxy_line(upstream: Seq<char>) -> Seq<char> {
    "\treverse_proxy "@ + upstream
}

pub open spec fn route_proxy_line(upstream: Seq<char>) -> Seq<char> {
    "\t\treverse_proxy "@ + upstream
}

pub open spec fn gzip_line() -> Seq<char> {
    "\tencode gzip"@
}

pub open spec fn header_block_lines() -> Seq<Seq<char>> {
    seq![
        "\theader {"@,
        "\t\tX-Content-Type-Options \"nosniff\""@,
        "\t\tX-Frame-Options \"DENY\""@,
        "\t\tX-XSS-Protection \"1; mode=block\""@,
        "\t\tReferrer-Policy \"strict-origin-when-cross-origin\""@,
        "\t}"@,
    ]
}

/// One rendered directive: whether it carries a block, and its lines.
pub open spec fn auth_items(auth: Option<(Seq<char>, Seq<char>)>) -> Seq<(bool, Seq<Seq<char>>)> {
    match auth {
        None => Seq::<(bool, Seq<Seq<char>>)>::empty(),
        Some(cred) => seq![
            (false, seq![acme_matcher_line()]),
            (true, seq![auth_open_line(), cred_line(cred.0, cred.1), block_close_line()]),
        ],
    }
}

/// The scoped (or catch-all) block one route renders to.
pub open spec fn route_item(rt: (Seq<char>, Seq<char>)) -> (bool, Seq<Seq<char>>) {
    (true, seq![route_open_line(rt.0), route_proxy_line(rt.1), block_close_line()])
}

pub open spec fn route_items(rs: Seq<(Seq<char>, Seq<char>)>) -> Seq<(bool, Seq<Seq<char>>)>
    decreases rs.len(),
{
    if rs.len() == 0 {
        Seq::<(bool, Seq<Seq<char>>)>::empty()
    } else {
        route_items(rs.drop_last()).push(route_item(rs.last()))
    }
}

/// Routes, when declared, take precedence over the single default
/// upstream: the default is not consulted at all.
pub open spec fn proxy_items(
    proxy: Option<Seq<char>>,
    routes: Seq<(Seq<char>, Seq<char>)>,
) -> Seq<(bool, Seq<Seq<char>>)> {
    if routes.len() > 0 {
        route_items(routes)
    } else {
        match proxy {
            Some(up) => seq![(false, seq![proxy_line(up)])],
            None => Seq::<(bool, Seq<Seq<char>>)>::empty(),
        }
    }
}

pub open spec fn directive_items(ds: Seq<Seq<char>>) -> Seq<(bool, Seq<Seq<char>>)>
    decreases ds.len(),
{
    if ds.len() == 0 {
        Seq::<(bool, Seq<Seq<char>>)>::empty()
    } else {
        directive_items(ds.drop_last()).push((false, seq!["\t"@ + ds.last()]))
    }
}

/// Every directive of the site body, in rendering order: auth gate,
/// routing, compression, headers, raw passthrough lines.
pub open spec fn caddy_items(
    auth: Option<(Seq<char>, Seq<char>)>,
    proxy: Option<Seq<char>>,
    routes: Seq<(Seq<char>, Seq<char>)>,
    gzip: bool,
    headers: bool,
    dirs: Seq<Seq<char>>,
) -> Seq<(bool, Seq<Seq<char>>)> {
    auth_items(auth) + proxy_items(proxy, routes) + (if gzip {
        seq![(false, seq![gzip_line()])]
    } else {
        Seq::<(bool, Seq<Seq<char>>)>::empty()
    }) + (if headers {
        seq![(true, header_block_lines())]
    } else {
        Seq::<(bool, Seq<Seq<char>>)>::empty()
    }) + directive_items(dirs)
}

/// The body lines, with a blank line before each directive that carries a
/// block and after each one that did.
pub open spec fn spaced_lines(items: Seq<(bool, Seq<Seq<char>>)>) -> Seq<Seq<char>>
    decreases items.len(),
{
    if items.len() == 0 {
        Seq::<Seq<char>>::empty()
    } else {
        let front = spaced_lines(items.drop_last());
        let it = items.last();
        if items.len() > 1 && (it.0 || items[items.len() - 2].0) {
            front + seq![Seq::<char>::empty()] + it.1
        } else {
            front + it.1
        }
    }
}

pub open spec fn site_open_line(domain: Seq<char>) -> Seq<char> {
    domain + " {"@
}

/// Every line of the rendered document, in order.
pub open spec fn caddyfile_lines(
    auth: Option<(Seq<char>, Seq<char>)>,
    proxy: Option<Seq<char>>,
    routes: Seq<(Seq<char>, Seq<char>)>,
    gzip: bool,
    headers: bool,
    dirs: Seq<Seq<char>>,
    domain: Seq<char>,
) -> Seq<Seq<char>> {
    seq![site_open_line(domain)] + spaced_lines(
        caddy_items(auth, proxy, routes, gzip, headers, dirs),
    ) + seq!["}"@]
}

/// The lines the given descriptor renders to, for the given domain.
pub open spec fn spec_caddy_lines(c: &Caddy, domain: Seq<char>) -> Seq<Seq<char>> {
    caddyfile_lines(
        c.basic_auth.deep_view(),
        c.reverse_proxy.deep_view(),
        c.routes.deep_view(),
        c.gzip,
        c.security_headers,
        c.extra_directives.deep_view(),
        domain,
    )
}

/// The full document text: every line followed by a newline.
pub open spec fn spec_caddyfile(c: &Caddy, domain: Seq<char>) -> Seq<char> {
    spec_join_term(spec_caddy_lines(c, domain))
}

/// Render a complete proxy-configuration document from the descriptor.
#[verifier::rlimit(100)]
pub fn render(caddy: &Caddy, domain: &str) -> (r: String)
    ensures
        r@ == spec_caddyfile(caddy, domain@),
{
    let ghost auth_dv = caddy.basic_auth.deep_view();
    let ghost proxy_dv = caddy.reverse_proxy.deep_view();
    let ghost routes_dv = caddy.routes.deep_view();
    let ghost dirs_dv = caddy.extra_directives.deep_view();

    let mut items: Vec<(bool, Vec<String>)> = Vec::new();

    if let Some(cred) = &caddy.basic_auth {
        let mut matcher: Vec<String> = Vec::new();
        matcher.push(String::from_str("\t@protected not path /.well-known/acme-challenge/*"));
        items.push((false, matcher));
        let mut block: Vec<String> = Vec::new();
        block.push(String::from_str("\tbasic_auth @protected {"));
        let mut cl = String::from_str("\t\t");
        cl.append(cred.0.as_str());
        cl.append(" ");
        cl.append(cred.1.as_str());
        proof {
            assert(cl@ =~= cred_line(cred.0@, cred.1@));
        }
        block.push(cl);
        block.push(String::from_str("\t}"));
        items.push((true, block));
    }
    proof {
        assert(items.deep_view() =~~= auth_items(auth_dv));
    }

    if caddy.routes.len() > 0 {
        let n = caddy.routes.len();
        let mut i: usize = 0;
        while i < n
            invariant
                0 <= i <= n,
                n == routes_dv.len(),
                routes_dv == caddy.routes.deep_view(),
                items.deep_view() == auth_items(auth_dv) + route_items(
                    routes_dv.take(i as int),
                ),
            decreases n - i,
        {
            let rt = &caddy.routes[i];
            proof {
                assert(routes_dv[i as int] == (rt.0@, rt.1@));
            }
            let open_line: String = if rt.0.as_str().unicode_len() == 0 {
                String::from_str("\thandle {")
            } else {
                let mut o = String::from_str("\thandle ");
                o.append(rt.0.as_str());
                o.append(" {");
                proof {
                    assert(o@ =~= route_open_line(rt.0@));
                }
                o
            };
            let mut mid = String::from_str("\t\treverse_proxy ");
            mid.append(rt.1.as_str());
            let mut block: Vec<String> = Vec::new();
            block.push(open_line);
            block.push(mid);
            block.push(String::from_str("\t}"));
            let ghost old_dv = items.deep_view();
            items.push((true, block));
            proof {
                assert(routes_dv.take(i + 1).drop_last() =~~= routes_dv.take(i as int));
                assert(routes_dv.take(i + 1).last() == routes_dv[i as int]);
                assert(items.deep_view() =~~= old_dv.push(route_item(routes_dv[i as int])));
            }
            i += 1;
        }
        proof {
            assert(routes_dv.take(n as int) =~~= routes_dv);
            assert(items.deep_view() =~~= auth_items(auth_dv) + proxy_items(
                proxy_dv,
                routes_dv,
            ));
        }
    } else if let Some(up) = &caddy.reverse_proxy {
        let mut line = String::from_str("\treverse_proxy ");
        line.append(up.as_str());
        let mut single: Vec<String> = Vec::new();
        single.push(line);
        items.push((false, single));
        proof {
            assert(items.deep_view() =~~= auth_items(auth_dv) + proxy_items(
                proxy_dv,
                routes_dv,
            ));
        }
    } else {
        proof {
            assert(items.deep_view() =~~= auth_items(auth_dv) + proxy_items(
                proxy_dv,
                routes_dv,
            ));
        }
    }

    if caddy.gzip {
        let mut gz: Vec<String> = Vec::new();
        gz.push(String::from_str("\tencode gzip"));
        items.push((false, gz));
    }
    if caddy.security_headers {
        let mut hd: Vec<String> = Vec::new();
        hd.push(String::from_str("\theader {"));
        hd.push(String::from_str("\t\tX-Content-Type-Options \"nosniff\""));
        hd.push(String::from_str("\t\tX-Frame-Options \"DENY\""));
        hd.push(String::from_str("\t\tX-XSS-Protection \"1; mode=block\""));
        hd.push(String::from_str("\t\tReferrer-Policy \"strict-origin-when-cross-origin\""));
        hd.push(String::from_str("\t}"));
        items.push((true, hd));
    }
    let ghost base_dv = auth_items(auth_dv) + proxy_items(proxy_dv, routes_dv) + (
    if caddy.gzip {
        seq![(false, seq![gzip_line()])]
    } else {
        Seq::<(bool, Seq<Seq<char>>)>::empty()
    }) + (if caddy.security_headers {
        seq![(true, header_block_lines())]
    } else {
        Seq::<(bool, Seq<Seq<char>>)>::empty()
    });
    proof {
        assert(items.deep_view() =~~= base_dv);
    }

    let dn = caddy.extra_directives.len();
    let mut k: usize = 0;
    while k < dn
        invariant
            0 <= k <= dn,
            dn == dirs_dv.len(),
            dirs_dv == caddy.extra_directives.deep_view(),
            items.deep_view() == base_dv + directive_items(dirs_dv.take(k as int)),
        decreases dn - k,
    {
        let mut line = String::from_str("\t");
        line.append(caddy.extra_directives[k].as_str());
        let mut one: Vec<String> = Vec::new();
        one.push(line);
        let ghost old_dv = items.deep_view();
        items.push((false, one));
        proof {
            assert(dirs_dv.take(k + 1).drop_last() =~~= dirs_dv.take(k as int));
            assert(dirs_dv.take(k + 1).last() == dirs_dv[k as int]);
            assert(items.deep_view() =~~= old_dv.push((false, seq!["\t"@ + dirs_dv[k as int]])));
        }
        k += 1;
    }
    proof {
        assert(dirs_dv.take(dn as int) =~~= dirs_dv);
        assert(items.deep_view() =~~= caddy_items(
            auth_dv,
            proxy_dv,
            routes_dv,
            caddy.gzip,
            caddy.security_headers,
            dirs_dv,
        ));
    }
    let ghost items_dv = items.deep_view();

    // Emit the body with blank lines around directives that carry blocks.
    let mut lines: Vec<String> = Vec::new();
    let mut site_open = domain.to_owned();
    site_open.append(" {");
    lines.push(site_open);
    proof {
        assert(lines.deep_view() =~~= seq![site_open_line(domain@)] + spaced_lines(
            items_dv.take(0),
        ));
    }

    let m = items.len();
    let mut t: usize = 0;
    let mut prev_had_block = false;
    while t < m
        invariant
            0 <= t <= m,
            m == items_dv.len(),
            items.deep_view() == items_dv,
            lines.deep_view() == seq![site_open_line(domain@)] + spaced_lines(
                items_dv.take(t as int),
            ),
            prev_had_block == (t > 0 && items_dv[t as int - 1].0),
        decreases m - t,
    {
        let has_block = items[t].0;
        proof {
            assert(items_dv[t as int].0 == has_block);
        }
        let ghost before_dv = lines.deep_view();
        let ghost blank: Seq<Seq<char>> = if t > 0 && (has_block || items_dv[t as int - 1].0) {
            seq![Seq::<char>::empty()]
        } else {
            Seq::<Seq<char>>::empty()
        };
        if t > 0 && (has_block || prev_had_block) {
            lines.push(String::new());
        }
        proof {
            assert(lines.deep_view() =~~= before_dv + blank);
        }
        let ghost mid_dv = lines.deep_view();
        let bl = items[t].1.len();
        let mut j: usize = 0;
        while j < bl
            invariant
                0 <= j <= bl,
                t < m,
                m == items_dv.len(),
                items.deep_view() == items_dv,
                bl == items_dv[t as int].1.len(),
                lines.deep_view() == mid_dv + items_dv[t as int].1.take(j as int),
            decreases bl - j,
        {
            let ghost ldv = lines.deep_view();
            lines.push(items[t].1[j].clone());
            proof {
                assert(items_dv[t as int].1.take(j + 1) =~~= items_dv[t as int].1.take(
                    j as int,
                ).push(items_dv[t as int].1[j as int]));
                assert(lines.deep_view() =~~= ldv.push(items_dv[t as int].1[j as int]));
            }
            j += 1;
        }
        proof {
            assert(items_dv[t as int].1.take(bl as int) =~~= items_dv[t as int].1);
            assert(items_dv.take(t + 1).drop_last() =~~= items_dv.take(t as int));
            assert(items_dv.take(t + 1).last() == items_dv[t as int]);
            if t > 0 {
                assert(items_dv.take(t + 1)[t - 1] == items_dv[t as int - 1]);
            }
            assert(lines.deep_view() =~~= seq![site_open_line(domain@)] + spaced_lines(
                items_dv.take(t + 1),
            ));
        }
        prev_had_block = has_block;
        t += 1;
    }
    lines.push(String::from_str("}"));
    proof {
        assert(items_dv.take(m as int) =~~= items_dv);
        assert(lines.deep_view() =~~= spec_caddy_lines(caddy, domain@));
    }
    join_lines_term(&lines)
}


proof fn lemma_route_items_len(rs: Seq<(Seq<char>, Seq<char>)>)
    ensures
        route_items(rs).len() == rs.len(),
    decreases rs.len(),
{
    if rs.len() > 0 {
        lemma_route_items_len(rs.drop_last());
    }
}

proof fn lemma_route_items_index(rs: Seq<(Seq<char>, Seq<char>)>, i: int)
    requires
        0 <= i < rs.len(),
    ensures
        route_items(rs).len() == rs.len(),
        route_items(rs)[i] == route_item(rs[i]),
    decreases rs.len(),
{
    lemma_route_items_len(rs);
    if i < rs.len() - 1 {
        lemma_route_items_index(rs.drop_last(), i);
        assert(rs.drop_last()[i] == rs[i]);
    }
}

/// Every line of every rendered directive stands somewhere in the spaced
/// body.
proof fn lemma_spaced_lines_contain(items: Seq<(bool, Seq<Seq<char>>)>, i: int, j: int)
    requires
        0 <= i < items.len(),
        0 <= j < items[i].1.len(),
    ensures
        spaced_lines(items).contains(items[i].1[j]),
    decreases items.len(),
{
    let front = spaced_lines(items.drop_last());
    let x = items[i].1[j];
    if i == items.len() - 1 {
        if items.len() > 1 && (items.last().0 || items[items.len() - 2].0) {
            let full = front + seq![Seq::<char>::empty()] + items.last().1;
            assert(full[front.len() + 1 + j] == x);
            assert(spaced_lines(items).contains(x));
        } else {
            let full = front + items.last().1;
            assert(full[front.len() + j] == x);
            assert(spaced_lines(items).contains(x));
        }
    } else {
        lemma_spaced_lines_contain(items.drop_last(), i, j);
        assert(items.drop_last()[i] == items[i]);
        let k = choose|k: int| 0 <= k < front.len() && front[k] == x;
        if items.len() > 1 && (items.last().0 || items[items.len() - 2].0) {
            assert((front + seq![Seq::<char>::empty()] + items.last().1)[k] == x);
        } else {
            assert((front + items.last().1)[k] == x);
        }
        assert(spaced_lines(items).contains(x));
    }
}

/// Rendering is a function of the descriptor's content alone: two
/// descriptors that agree field for field render to the same document.
pub proof fn lemma_render_deterministic(a: &Caddy, b: &Caddy, domain: Seq<char>)
    requires
        a.basic_auth.deep_view() == b.basic_auth.deep_view(),
        a.reverse_proxy.deep_view() == b.reverse_proxy.deep_view(),
        a.routes.deep_view() == b.routes.deep_view(),
        a.gzip == b.gzip,
        a.security_headers == b.security_headers,
        a.extra_directives.deep_view() == b.extra_directives.deep_view(),
    ensures
        spec_caddyfile(a, domain) == spec_caddyfile(b, domain),
{
}

/// When basic auth is configured, the rendered document always carries the
/// matcher that exempts the ACME challenge path from the auth gate.
pub proof fn lemma_auth_gate_excludes_acme(c: &Caddy, domain: Seq<char>)
    requires
        c.basic_auth is Some,
    ensures
        spec_caddy_lines(c, domain).contains(acme_matcher_line()),
{
    let items = caddy_items(
        c.basic_auth.deep_view(),
        c.reverse_proxy.deep_view(),
        c.routes.deep_view(),
        c.gzip,
        c.security_headers,
        c.extra_directives.deep_view(),
    );
    assert(items[0] == (false, seq![acme_matcher_line()]));
    lemma_spaced_lines_contain(items, 0, 0);
    let sp = spaced_lines(items);
    let k = choose|k: int| 0 <= k < sp.len() && sp[k] == acme_matcher_line();
    assert(spec_caddy_lines(c, domain)[1 + k] == acme_matcher_line());
    assert(spec_caddy_lines(c, domain).contains(acme_matcher_line()));
}

/// A route with an empty path pattern renders as the unscoped catch-all
/// block, wherever it stands among the routes: its opening line carries no
/// path matcher, and that line stands in the rendered document.
pub proof fn lemma_catch_all_route_unscoped(c: &Caddy, domain: Seq<char>, i: int)
    requires
        0 <= i < c.routes.deep_view().len(),
        c.routes.deep_view()[i].0 == Seq::<char>::empty(),
    ensures
        route_item(c.routes.deep_view()[i]).1 == seq![
            catch_all_open_line(),
            route_proxy_line(c.routes.deep_view()[i].1),
            block_close_line(),
        ],
        spec_caddy_lines(c, domain).contains(catch_all_open_line()),
{
    let routes = c.routes.deep_view();
    let auth = auth_items(c.basic_auth.deep_view());
    let items = caddy_items(
        c.basic_auth.deep_view(),
        c.reverse_proxy.deep_view(),
        routes,
        c.gzip,
        c.security_headers,
        c.extra_directives.deep_view(),
    );
    lemma_route_items_index(routes, i);
    assert(items[auth.len() + i] == route_item(routes[i]));
    assert(route_item(routes[i]).1[0] == catch_all_open_line());
    lemma_spaced_lines_contain(items, auth.len() + i, 0);
    let sp = spaced_lines(items);
    let k = choose|k: int| 0 <= k < sp.len() && sp[k] == catch_all_open_line();
    assert(spec_caddy_lines(c, domain)[1 + k] == catch_all_open_line());
    assert(spec_caddy_lines(c, domain).contains(catch_all_open_line()));
}

/// When routes are declared, the single default upstream leaves no trace:
/// the document equals the one rendered with no default upstream at all.
pub proof fn lemma_routes_silence_default_upstream(c: &Caddy, domain: Seq<char>)
    requires
        c.routes.deep_view().len() > 0,
    ensures
        spec_caddyfile(c, domain) == spec_join_term(
            caddyfile_lines(
                c.basic_auth.deep_view(),
                None,
                c.routes.deep_view(),
                c.gzip,
                c.security_headers,
                c.extra_directives.deep_view(),
                domain,
            ),
        ),
{
    assert(proxy_items(c.reverse_proxy.deep_view(), c.routes.deep_view()) == proxy_items(
        None,
        c.routes.deep_view(),
    ));
}

} // verus!
