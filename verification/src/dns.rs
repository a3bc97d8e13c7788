//! Splitting fully-qualified domain names into the zone the DNS backend
//! manages and the record name inside it.

pub mod cloudflare;
pub mod ovh;

use vstd::prelude::*;

use crate::text::spec_split;
use crate::text::spec_join_sep;
use crate::text::split_char;
use crate::text::join_with;

verus! {

/// The registrable zone of a fully-qualified name: its last two labels,
/// or the whole name when it has no subdomain.
pub open spec fn spec_zone(s: Seq<char>) -> Seq<char> {
    let p = spec_split(s, '.');
    if p.len() <= 2 {
        s
    } else {
        p[p.len() - 2] + seq!['.'] + p[p.len() - 1]
    }
}

/// The record name in front of the zone, empty when the name is bare.
pub open spec fn spec_subdomain(s: Seq<char>) -> Seq<char> {
    let p = spec_split(s, '.');
    if p.len() <= 2 {
        Seq::<char>::empty()
    } else {
        spec_join_sep(p.take(p.len() - 2), seq!['.'])
    }
}

/// Split a fully-qualified domain name into `(zone, subdomain)`:
/// `app.example.com` becomes `("example.com", "app")`, and a bare
/// `example.com` keeps an empty subdomain.
pub fn split_domain(fqdn: &str) -> (r: (String, String))
    ensures
        r.0@ == spec_zone(fqdn@),
        r.1@ == spec_subdomain(fqdn@),
{
    proof {
        reveal_strlit(".");
        assert("."@ =~= seq!['.']);
    }
    let parts = split_char(fqdn, '.');
    let n = parts.len();
    if n <= 2 {
        return (fqdn.to_owned(), String::new());
    }
    let mut zone = parts[n - 2].clone();
    zone.append(".");
    zone.append(parts[n - 1].as_str());
    proof {
        assert(zone@ =~= spec_zone(fqdn@));
    }
    let ghost pdv = parts.deep_view();
    let mut head: Vec<String> = Vec::new();
    let mut i: usize = 0;
    while i < n - 2
        invariant
            0 <= i <= n - 2,
            n == pdv.len(),
            n > 2,
            parts.deep_view() == pdv,
            head.deep_view() == pdv.take(n - 2).take(i as int),
        decreases n - 2 - i,
    {
        let ghost before = head.deep_view();
        head.push(parts[i].clone());
        proof {
            assert(pdv.take(n - 2).take(i + 1) =~~= pdv.take(n - 2).take(i as int).push(
                pdv[i as int],
            ));
            assert(head.deep_view() =~~= before.push(pdv[i as int]));
        }
        i += 1;
    }
    proof {
        assert(head.deep_view() =~~= pdv.take(n - 2));
    }
    let sub = join_with(&head, ".");
    (zone, sub)
}

} // verus!
