//! The cloud provisioner's descriptor and its text decisions: which
//! droplet size, region and image to ask for, and how to read the
//! listings the control tool prints. The tool itself runs outside the
//! library.

use vstd::prelude::*;

use crate::error::DeployError;
use crate::error::DeployResult;
use crate::text::spec_lines;
use crate::text::spec_split_ws;
use crate::text::lines_of;
use crate::text::split_whitespace_of;
use crate::text::str_eq;
use crate::text::str_starts_with;
use crate::text::strip_suffix_str;

pub use crate::provision::remove_ssh_host_entry;

verus! {

/// Droplet parameters: size, region and base image.
pub struct DigitalOcean {
    pub size: String,
    pub region: String,
    pub image: String,
}

impl DigitalOcean {
    /// The defaults: a small droplet in `fra1` on current Ubuntu.
    pub fn new() -> (r: Self)
        ensures
            r.size@ == "s-1vcpu-1gb"@,
            r.region@ == "fra1"@,
            r.image@ == "ubuntu-24-04-x64"@,
    {
        DigitalOcean {
            size: String::from_str("s-1vcpu-1gb"),
            region: String::from_str("fra1"),
            image: String::from_str("ubuntu-24-04-x64"),
        }
    }

    /// Replace the droplet size.
    pub fn size(self, size: &str) -> (r: Self)
        ensures
            r.size@ == size@,
            r == (DigitalOcean { size: r.size, ..self }),
    {
        DigitalOcean { size: size.to_owned(), ..self }
    }

    /// Replace the region.
    pub fn region(self, region: &str) -> (r: Self)
        ensures
            r.region@ == region@,
            r == (DigitalOcean { region: r.region, ..self }),
    {
        DigitalOcean { region: region.to_owned(), ..self }
    }

    /// Replace the base image.
    pub fn image(self, image: &str) -> (r: Self)
        ensures
            r.image@ == image@,
            r == (DigitalOcean { image: r.image, ..self }),
    {
        DigitalOcean { image: image.to_owned(), ..self }
    }
}

/// Read the first registered key from a key listing: its identifier and
/// fingerprint stand in the first two columns of the first line.
pub fn parse_ssh_key_list(output: &str) -> (r: DeployResult<(String, String)>)
    ensures
        spec_lines(output@).len() == 0 ==> (r matches Err(DeployError::PrerequisiteMissing(m))
            && m@ == "no SSH keys found in DigitalOcean"@),
        spec_lines(output@).len() > 0 ==> ({
            let fs = spec_split_ws(spec_lines(output@)[0]);
            &&& (fs.len() < 2 ==> (r matches Err(DeployError::PrerequisiteMissing(m)) && m@
                == "unexpected doctl ssh-key list format"@))
            &&& (fs.len() >= 2 ==> (r matches Ok(p) && p.0@ == fs[0] && p.1@ == fs[1]))
        }),
{
    let lines = lines_of(output);
    if lines.len() == 0 {
        return Err(
            DeployError::PrerequisiteMissing(String::from_str("no SSH keys found in DigitalOcean")),
        );
    }
    proof {
        assert(lines@[0]@ == spec_lines(output@)[0]);
    }
    let fields = split_whitespace_of(lines[0].as_str());
    if fields.len() < 2 {
        return Err(
            DeployError::PrerequisiteMissing(
                String::from_str("unexpected doctl ssh-key list format"),
            ),
        );
    }
    proof {
        assert(fields@[0]@ == spec_split_ws(spec_lines(output@)[0])[0]);
        assert(fields@[1]@ == spec_split_ws(spec_lines(output@)[0])[1]);
    }
    Ok((fields[0].clone(), fields[1].clone()))
}

/// Scan a droplet listing for a name; the address stands in the second
/// column of the matching line.
pub open spec fn spec_droplet_ip(lines: Seq<Seq<char>>, name: Seq<char>) -> Option<Seq<char>>
    decreases lines.len(),
{
    if lines.len() == 0 {
        None
    } else {
        let fs = spec_split_ws(lines[0]);
        if fs.len() >= 2 && fs[0] == name {
            Some(fs[1])
        } else {
            spec_droplet_ip(lines.drop_first(), name)
        }
    }
}

/// The address of the named droplet in a listing, or a not-found
/// failure naming the droplet.
pub fn droplet_ip_of(output: &str, name: &str) -> (r: DeployResult<String>)
    ensures
        spec_droplet_ip(spec_lines(output@), name@) matches Some(ip) ==> (r matches Ok(s) && s@
            == ip),
        spec_droplet_ip(spec_lines(output@), name@) is None ==> (r matches Err(
            DeployError::ServerNotFound(m),
        ) && m@ == name@),
{
    let lines = lines_of(output);
    let ghost all = lines.deep_view();
    let n = lines.len();
    let mut i: usize = 0;
    proof {
        assert(all.skip(0) =~~= all);
    }
    while i < n
        invariant
            0 <= i <= n,
            n == all.len(),
            lines.deep_view() == all,
            all == spec_lines(output@),
            spec_droplet_ip(all, name@) == spec_droplet_ip(all.skip(i as int), name@),
        decreases n - i,
    {
        proof {
            assert(all.skip(i as int)[0] == all[i as int]);
            assert(all.skip(i as int).drop_first() =~~= all.skip(i + 1));
            assert(all[i as int] == lines@[i as int]@);
        }
        let fields = split_whitespace_of(lines[i].as_str());
        if fields.len() >= 2 && str_eq(fields[0].as_str(), name) {
            proof {
                assert(fields@[0]@ == spec_split_ws(all[i as int])[0]);
                assert(fields@[1]@ == spec_split_ws(all[i as int])[1]);
            }
            return Ok(fields[1].clone());
        }
        proof {
            if fields.len() >= 2 {
                assert(fields@[0]@ == spec_split_ws(all[i as int])[0]);
            }
        }
        i += 1;
    }
    proof {
        assert(all.skip(n as int) =~~= Seq::<Seq<char>>::empty());
    }
    Err(DeployError::ServerNotFound(name.to_owned()))
}

/// Scan a droplet listing for a name; address and region stand in the
/// second and third columns.
pub open spec fn spec_droplet_entry(lines: Seq<Seq<char>>, name: Seq<char>) -> Option<
    (Seq<char>, Seq<char>),
>
    decreases lines.len(),
{
    if lines.len() == 0 {
        None
    } else {
        let fs = spec_split_ws(lines[0]);
        if fs.len() >= 3 && fs[0] == name {
            Some((fs[1], fs[2]))
        } else {
            spec_droplet_entry(lines.drop_first(), name)
        }
    }
}

/// The address and region of the named droplet in a listing, when it is
/// there.
pub fn droplet_entry_of(output: &str, name: &str) -> (r: Option<(String, String)>)
    ensures
        r is Some <==> spec_droplet_entry(spec_lines(output@), name@) is Some,
        r matches Some(p) ==> p.0@ == (spec_droplet_entry(spec_lines(output@), name@)->0).0
            && p.1@ == (spec_droplet_entry(spec_lines(output@), name@)->0).1,
{
    let lines = lines_of(output);
    let ghost all = lines.deep_view();
    let n = lines.len();
    let mut i: usize = 0;
    proof {
        assert(all.skip(0) =~~= all);
    }
    while i < n
        invariant
            0 <= i <= n,
            n == all.len(),
            lines.deep_view() == all,
            all == spec_lines(output@),
            spec_droplet_entry(all, name@) == spec_droplet_entry(all.skip(i as int), name@),
        decreases n - i,
    {
        proof {
            assert(all.skip(i as int)[0] == all[i as int]);
            assert(all.skip(i as int).drop_first() =~~= all.skip(i + 1));
            assert(all[i as int] == lines@[i as int]@);
        }
        let fields = split_whitespace_of(lines[i].as_str());
        if fields.len() >= 3 && str_eq(fields[0].as_str(), name) {
            proof {
                assert(fields@[0]@ == spec_split_ws(all[i as int])[0]);
                assert(fields@[1]@ == spec_split_ws(all[i as int])[1]);
                assert(fields@[2]@ == spec_split_ws(all[i as int])[2]);
            }
            return Some((fields[1].clone(), fields[2].clone()));
        }
        proof {
            if fields.len() >= 3 {
                assert(fields@[0]@ == spec_split_ws(all[i as int])[0]);
            }
        }
        i += 1;
    }
    proof {
        assert(all.skip(n as int) =~~= Seq::<Seq<char>>::empty());
    }
    None
}

/// Scan a name-and-identifier listing; the identifier stands in the
/// second column of the matching line.
pub open spec fn spec_droplet_id(lines: Seq<Seq<char>>, name: Seq<char>) -> Option<Seq<char>>
    decreases lines.len(),
{
    if lines.len() == 0 {
        None
    } else {
        let fs = spec_split_ws(lines[0]);
        if fs.len() >= 2 && fs[0] == name {
            Some(fs[1])
        } else {
            spec_droplet_id(lines.drop_first(), name)
        }
    }
}

/// The identifier of the named droplet in a listing, when it is there.
pub fn droplet_id_of(output: &str, name: &str) -> (r: Option<String>)
    ensures
        r is Some <==> spec_droplet_id(spec_lines(output@), name@) is Some,
        r matches Some(s) ==> s@ == spec_droplet_id(spec_lines(output@), name@)->0,
{
    let lines = lines_of(output);
    let ghost all = lines.deep_view();
    let n = lines.len();
    let mut i: usize = 0;
    proof {
        assert(all.skip(0) =~~= all);
    }
    while i < n
        invariant
            0 <= i <= n,
            n == all.len(),
            lines.deep_view() == all,
            all == spec_lines(output@),
            spec_droplet_id(all, name@) == spec_droplet_id(all.skip(i as int), name@),
        decreases n - i,
    {
        proof {
            assert(all.skip(i as int)[0] == all[i as int]);
            assert(all.skip(i as int).drop_first() =~~= all.skip(i + 1));
            assert(all[i as int] == lines@[i as int]@);
        }
        let fields = split_whitespace_of(lines[i].as_str());
        if fields.len() >= 2 && str_eq(fields[0].as_str(), name) {
            proof {
                assert(fields@[0]@ == spec_split_ws(all[i as int])[0]);
                assert(fields@[1]@ == spec_split_ws(all[i as int])[1]);
            }
            return Some(fields[1].clone());
        }
        proof {
            if fields.len() >= 2 {
                assert(fields@[0]@ == spec_split_ws(all[i as int])[0]);
            }
        }
        i += 1;
    }
    proof {
        assert(all.skip(n as int) =~~= Seq::<Seq<char>>::empty());
    }
    None
}

/// The fingerprint a key-inspection line reports: its second column,
/// with the digest-name prefix removed; empty when the line has no such
/// column or prefix.
pub fn fingerprint_of(fp_output: &str) -> (r: String)
    ensures
        ({
            let fs = spec_split_ws(fp_output@);
            if fs.len() >= 2 && "MD5:"@.is_prefix_of(fs[1]) {
                r@ == fs[1].skip("MD5:"@.len() as int)
            } else {
                r@ == Seq::<char>::empty()
            }
        }),
{
    let fields = split_whitespace_of(fp_output);
    if fields.len() >= 2 {
        proof {
            assert(fields@[1]@ == spec_split_ws(fp_output@)[1]);
        }
        if str_starts_with(fields[1].as_str(), "MD5:") {
            let f = &fields[1];
            let flen = f.as_str().unicode_len();
            proof {
                reveal_strlit("MD5:");
            }
            let tail = String::from_str(f.as_str().substring_char(4, flen));
            proof {
                assert(f@.subrange(4, flen as int) =~= f@.skip("MD5:"@.len() as int));
            }
            return tail;
        }
    }
    String::new()
}

/// A public-key path without its `.pub` ending; any other path is kept.
pub fn strip_pub_suffix(path: &str) -> (r: String)
    ensures
        ".pub"@.is_suffix_of(path@) ==> r@ == path@.take(path@.len() - ".pub"@.len()),
        !".pub"@.is_suffix_of(path@) ==> r@ == path@,
{
    match strip_suffix_str(path, ".pub") {
        Some(head) => head,
        None => path.to_owned(),
    }
}

} // verus!
