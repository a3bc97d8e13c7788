//! What provisioning produces and shares: the server description, the
//! SSH client-configuration blocks the pipeline writes for convenience,
//! and the removal of such a block from existing configuration text.

pub mod digitalocean;
pub mod libvirt;

use vstd::prelude::*;

use crate::text::spec_trim;
use crate::text::spec_lines;
use crate::text::spec_join_nl;
use crate::text::spec_cap_nl;
use crate::text::trim_str;
use crate::text::lines_of;
use crate::text::str_eq;
use crate::text::join_lines;
use crate::text::collapse_blank_lines;

verus! {

/// What provisioning a server yields: its name, address, location, and
/// the local key that reaches it.
#[derive(Clone)]
pub struct ServerInfo {
    pub name: String,
    pub ip: String,
    pub region: String,
    pub ssh_key_id: String,
    pub ssh_key_file: String,
}

/// The fold that drops one `Host` block: skip from the matching header
/// until the next line that starts a new top-level entry.
pub open spec fn spec_keep_lines(
    lines: Seq<Seq<char>>,
    header: Seq<char>,
    skip: bool,
) -> Seq<Seq<char>>
    decreases lines.len(),
{
    if lines.len() == 0 {
        Seq::<Seq<char>>::empty()
    } else {
        let l = lines[0];
        let rest = lines.drop_first();
        if spec_trim(l) == header {
            spec_keep_lines(rest, header, true)
        } else if skip {
            if l.len() > 0 && l[0] != ' ' && l[0] != '\t' {
                seq![l] + spec_keep_lines(rest, header, false)
            } else {
                spec_keep_lines(rest, header, true)
            }
        } else {
            seq![l] + spec_keep_lines(rest, header, false)
        }
    }
}

/// The text that remains when one host's block is removed and runs of
/// blank lines are shortened.
pub open spec fn spec_remove_host(content: Seq<char>, host: Seq<char>) -> Seq<char> {
    spec_cap_nl(
        spec_join_nl(spec_keep_lines(spec_lines(content), "Host "@ + host, false)),
    )
}

/// Remove one `Host` block from SSH client-configuration text: drop the
/// matching header and its indented body, keep everything else, and
/// collapse the blank lines left behind.
pub fn remove_ssh_host_entry(content: &str, host: &str) -> (r: String)
    ensures
        r@ == spec_remove_host(content@, host@),
{
    let mut header = String::from_str("Host ");
    header.append(host);
    let ghost hd = header@;
    proof {
        assert(hd == "Host "@ + host@);
    }
    let lines = lines_of(content);
    let ghost all = lines.deep_view();
    let mut kept: Vec<String> = Vec::new();
    let mut skip = false;
    let n = lines.len();
    let mut i: usize = 0;
    proof {
        assert(all.skip(0) =~~= all);
        assert(kept.deep_view() + spec_keep_lines(all, hd, false) =~~= spec_keep_lines(
            all,
            hd,
            false,
        ));
    }
    while i < n
        invariant
            0 <= i <= n,
            n == all.len(),
            lines.deep_view() == all,
            header@ == hd,
            all == spec_lines(content@),
            hd == "Host "@ + host@,
            spec_keep_lines(all, hd, false) == kept.deep_view() + spec_keep_lines(
                all.skip(i as int),
                hd,
                skip,
            ),
        decreases n - i,
    {
        proof {
            assert(all.skip(i as int)[0] == all[i as int]);
            assert(all.skip(i as int).drop_first() =~~= all.skip(i + 1));
            assert(all[i as int] == lines@[i as int]@);
        }
        let line = &lines[i];
        let trimmed = trim_str(line.as_str());
        let llen = line.as_str().unicode_len();
        let top_level = llen > 0 && line.as_str().get_char(0) != ' ' && line.as_str().get_char(0)
            != '\t';
        if str_eq(trimmed.as_str(), header.as_str()) {
            skip = true;
        } else if skip {
            if top_level {
                skip = false;
                let ghost before = kept.deep_view();
                kept.push(line.clone());
                proof {
                    assert(kept.deep_view() =~~= before.push(all[i as int]));
                    assert(before.push(all[i as int]) + spec_keep_lines(all.skip(i + 1), hd, false)
                        =~~= before + (seq![all[i as int]] + spec_keep_lines(
                        all.skip(i + 1),
                        hd,
                        false,
                    )));
                }
            }
        } else {
            let ghost before = kept.deep_view();
            kept.push(line.clone());
            proof {
                assert(kept.deep_view() =~~= before.push(all[i as int]));
                assert(before.push(all[i as int]) + spec_keep_lines(all.skip(i + 1), hd, false)
                    =~~= before + (seq![all[i as int]] + spec_keep_lines(
                    all.skip(i + 1),
                    hd,
                    false,
                )));
            }
        }
        i += 1;
    }
    proof {
        assert(all.skip(n as int) =~~= Seq::<Seq<char>>::empty());
        assert(kept.deep_view() + Seq::<Seq<char>>::empty() =~~= kept.deep_view());
    }
    let joined = join_lines(&kept);
    collapse_blank_lines(joined.as_str())
}

/// The client-configuration block one provisioned server gets.
pub fn ssh_config_entry(host_alias: &str, ip: &str, key_file: &str) -> (r: String)
    ensures
        r@ == "\nHost "@ + host_alias@ + "\n    HostName "@ + ip@ + "\n    User root\n    IdentityFile "@
            + key_file@ + "\n    StrictHostKeyChecking no\n"@,
{
    let mut out = String::from_str("\nHost ");
    out.append(host_alias);
    out.append("\n    HostName ");
    out.append(ip);
    out.append("\n    User root\n    IdentityFile ");
    out.append(key_file);
    out.append("\n    StrictHostKeyChecking no\n");
    out
}

} // verus!
