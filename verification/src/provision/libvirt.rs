//! The hypervisor provisioner's descriptor and its text decisions: the
//! virtual-machine parameters, the first-boot configuration files, the
//! exact hypervisor commands, and the reading of the address-listing
//! output. Every remote call runs outside the library.

use vstd::prelude::*;

use crate::text::spec_lines;
use crate::text::spec_trim;
use crate::text::spec_split;
use crate::text::spec_split_ws;
use crate::text::spec_dec;
use crate::text::lines_of;
use crate::text::trim_str;
use crate::text::split_whitespace_of;
use crate::text::str_eq;
use crate::text::str_starts_with;
use crate::text::find_char;
use crate::text::push_dec;
use crate::text::lemma_split_first_at;
use crate::text::lemma_split_first_none;

verus! {

/// How the virtual machine reaches the network.
pub enum NetworkMode {
    /// Attach to an existing host bridge; the machine gets an address on
    /// the local network.
    Bridged(String),
    /// Use the default address-translated network; the machine is reachable only
    /// from the hypervisor.
    Nat,
}

/// Parameters of one hypervisor-managed virtual machine.
pub struct Libvirt {
    pub hypervisor_host: String,
    pub hypervisor_user: String,
    pub hypervisor_key: Option<String>,
    pub vcpus: u32,
    pub memory_mib: u32,
    pub disk_gib: u32,
    pub image_url: String,
    pub network: NetworkMode,
    pub storage_dir: String,
    pub vm_ssh_key: String,
    pub os_variant: String,
}

impl Libvirt {
    /// A machine on the given hypervisor, reached with the given key's
    /// public sibling, with the default sizing and image.
    pub fn new(hypervisor_host: &str, vm_ssh_key: &str) -> (r: Self)
        ensures
            r.hypervisor_host@ == hypervisor_host@,
            r.hypervisor_user@ == "root"@,
            r.hypervisor_key is None,
            r.vcpus == 2,
            r.memory_mib == 2048,
            r.disk_gib == 20,
            r.image_url@
                == "https://cloud-images.ubuntu.com/releases/24.04/release/ubuntu-24.04-server-cloudimg-amd64.img"@,
            r.network is Nat,
            r.storage_dir@ == "/var/lib/libvirt/images"@,
            r.vm_ssh_key@ == vm_ssh_key@,
            r.os_variant@ == "ubuntu24.04"@,
    {
        Libvirt {
            hypervisor_host: hypervisor_host.to_owned(),
            hypervisor_user: String::from_str("root"),
            hypervisor_key: None,
            vcpus: 2,
            memory_mib: 2048,
            disk_gib: 20,
            image_url: String::from_str(
                "https://cloud-images.ubuntu.com/releases/24.04/release/ubuntu-24.04-server-cloudimg-amd64.img",
            ),
            network: NetworkMode::Nat,
            storage_dir: String::from_str("/var/lib/libvirt/images"),
            vm_ssh_key: vm_ssh_key.to_owned(),
            os_variant: String::from_str("ubuntu24.04"),
        }
    }

    /// Replace the hypervisor user.
    pub fn hypervisor_user(self, user: &str) -> (r: Self)
        ensures
            r.hypervisor_user@ == user@,
            r == (Libvirt { hypervisor_user: r.hypervisor_user, ..self }),
    {
        Libvirt { hypervisor_user: user.to_owned(), ..self }
    }

    /// Set the key for the hypervisor connection.
    pub fn hypervisor_key(self, key: &str) -> (r: Self)
        ensures
            r.hypervisor_key is Some,
            r.hypervisor_key->0@ == key@,
            r == (Libvirt { hypervisor_key: r.hypervisor_key, ..self }),
    {
        Libvirt { hypervisor_key: Some(key.to_owned()), ..self }
    }

    /// Set the processor count.
    pub fn vcpus(self, n: u32) -> (r: Self)
        ensures
            r.vcpus == n,
            r == (Libvirt { vcpus: n, ..self }),
    {
        Libvirt { vcpus: n, ..self }
    }

    /// Set the memory size in mebibytes.
    pub fn memory_mib(self, mib: u32) -> (r: Self)
        ensures
            r.memory_mib == mib,
            r == (Libvirt { memory_mib: mib, ..self }),
    {
        Libvirt { memory_mib: mib, ..self }
    }

    /// Set the disk size in gibibytes.
    pub fn disk_gib(self, gib: u32) -> (r: Self)
        ensures
            r.disk_gib == gib,
            r == (Libvirt { disk_gib: gib, ..self }),
    {
        Libvirt { disk_gib: gib, ..self }
    }

    /// Set the cloud-image URL.
    pub fn image_url(self, url: &str) -> (r: Self)
        ensures
            r.image_url@ == url@,
            r == (Libvirt { image_url: r.image_url, ..self }),
    {
        Libvirt { image_url: url.to_owned(), ..self }
    }

    /// Set the network mode.
    pub fn network(self, mode: NetworkMode) -> (r: Self)
        ensures
            r == (Libvirt { network: r.network, ..self }),
            match mode {
                NetworkMode::Bridged(b) => r.network matches NetworkMode::Bridged(rb) && rb == b,
                NetworkMode::Nat => r.network is Nat,
            },
    {
        Libvirt { network: mode, ..self }
    }

    /// Set the image-storage directory on the hypervisor.
    pub fn storage_dir(self, dir: &str) -> (r: Self)
        ensures
            r.storage_dir@ == dir@,
            r == (Libvirt { storage_dir: r.storage_dir, ..self }),
    {
        Libvirt { storage_dir: dir.to_owned(), ..self }
    }

    /// Set the installer's operating-system variant.
    pub fn os_variant(self, variant: &str) -> (r: Self)
        ensures
            r.os_variant@ == variant@,
            r == (Libvirt { os_variant: r.os_variant, ..self }),
    {
        Libvirt { os_variant: variant.to_owned(), ..self }
    }

    /// The installer's network argument for the chosen mode.
    pub fn network_args(&self) -> (r: String)
        ensures
            match self.network {
                NetworkMode::Bridged(b) => r@ == "bridge="@ + b@,
                NetworkMode::Nat => r@ == "network=default"@,
            },
    {
        match &self.network {
            NetworkMode::Bridged(bridge) => {
                let mut out = String::from_str("bridge=");
                out.append(bridge.as_str());
                out
            },
            NetworkMode::Nat => String::from_str("network=default"),
        }
    }

    /// The path of one machine's disk image.
    pub fn disk_path(&self, name: &str) -> (r: String)
        ensures
            r@ == self.storage_dir@ + "/"@ + name@ + ".qcow2"@,
    {
        let mut out = self.storage_dir.clone();
        out.append("/");
        out.append(name);
        out.append(".qcow2");
        out
    }

    /// The path of one machine's first-boot seed image.
    pub fn seed_iso_path(&self, name: &str) -> (r: String)
        ensures
            r@ == self.storage_dir@ + "/"@ + name@ + "-seed.iso"@,
    {
        let mut out = self.storage_dir.clone();
        out.append("/");
        out.append(name);
        out.append("-seed.iso");
        out
    }

    /// The path of the cached base cloud image.
    pub fn cached_image_path(&self) -> (r: String)
        ensures
            r@ == self.storage_dir@ + "/cloud-base.img"@,
    {
        let mut out = self.storage_dir.clone();
        out.append("/cloud-base.img");
        out
    }

    /// The command that grows a fresh disk to the configured size.
    pub fn resize_command(&self, disk_path: &str) -> (r: String)
        ensures
            r@ == "qemu-img resize "@ + disk_path@ + " "@ + spec_dec(self.disk_gib as nat) + "G"@,
    {
        let mut out = String::from_str("qemu-img resize ");
        out.append(disk_path);
        out.append(" ");
        push_dec(&mut out, self.disk_gib as u64);
        out.append("G");
        out
    }

    /// The installer invocation for one machine.
    pub fn virt_install_command(&self, name: &str, disk_path: &str, seed_iso: &str) -> (r: String)
        ensures
            r@ == "virt-install --name "@ + name@ + " --vcpus "@ + spec_dec(self.vcpus as nat)
                + " --memory "@ + spec_dec(self.memory_mib as nat) + " --disk path="@ + disk_path@
                + ",format=qcow2 --disk path="@ + seed_iso@ + ",device=cdrom --os-variant "@
                + self.os_variant@ + " --network "@ + (match self.network {
                NetworkMode::Bridged(b) => "bridge="@ + b@,
                NetworkMode::Nat => "network=default"@,
            }) + " --graphics none --noautoconsole --import"@,
    {
        let net_arg = self.network_args();
        let mut out = String::from_str("virt-install --name ");
        out.append(name);
        out.append(" --vcpus ");
        push_dec(&mut out, self.vcpus as u64);
        out.append(" --memory ");
        push_dec(&mut out, self.memory_mib as u64);
        out.append(" --disk path=");
        out.append(disk_path);
        out.append(",format=qcow2 --disk path=");
        out.append(seed_iso);
        out.append(",device=cdrom --os-variant ");
        out.append(self.os_variant.as_str());
        out.append(" --network ");
        out.append(net_arg.as_str());
        out.append(" --graphics none --noautoconsole --import");
        out
    }
}

/// The first-boot user configuration: the public key is injected for the
/// root user, password logins stay off.
pub fn cloud_init_user_data(pub_key: &str) -> (r: String)
    ensures
        r@ == "#cloud-config\nusers:\n  - name: root\n    ssh_authorized_keys:\n      - "@
            + pub_key@ + "\nssh_pwauth: false\npackage_update: false\n"@,
{
    let mut out = String::from_str(
        "#cloud-config\nusers:\n  - name: root\n    ssh_authorized_keys:\n      - ",
    );
    out.append(pub_key);
    out.append("\nssh_pwauth: false\npackage_update: false\n");
    out
}

/// The first-boot instance identity.
pub fn cloud_init_meta_data(name: &str) -> (r: String)
    ensures
        r@ == "instance-id: "@ + name@ + "\nlocal-hostname: "@ + name@ + "\n"@,
{
    let mut out = String::from_str("instance-id: ");
    out.append(name);
    out.append("\nlocal-hostname: ");
    out.append(name);
    out.append("\n");
    out
}

/// The working directory for one machine's seed files.
pub fn seed_dir(name: &str) -> (r: String)
    ensures
        r@ == "/tmp/cloud-init-"@ + name@,
{
    let mut out = String::from_str("/tmp/cloud-init-");
    out.append(name);
    out
}

/// Scan address-listing output: skip the heading and separator, and take
/// the fourth column of the first line whose protocol column reads
/// `ipv4`, without any size suffix after a slash.
pub open spec fn spec_domifaddr_lines(lines: Seq<Seq<char>>) -> Option<Seq<char>>
    decreases lines.len(),
{
    if lines.len() == 0 {
        None
    } else {
        let t = spec_trim(lines[0]);
        let rest = lines.drop_first();
        if t.len() == 0 || "Name"@.is_prefix_of(t) || t[0] == '-' {
            spec_domifaddr_lines(rest)
        } else {
            let fs = spec_split_ws(t);
            if fs.len() >= 4 && fs[2] == "ipv4"@ {
                let ip = spec_split(fs[3], '/')[0];
                if ip.len() > 0 {
                    Some(ip)
                } else {
                    spec_domifaddr_lines(rest)
                }
            } else {
                spec_domifaddr_lines(rest)
            }
        }
    }
}

/// What address-listing output reports, if anything.
pub open spec fn spec_domifaddr(output: Seq<char>) -> Option<Seq<char>> {
    spec_domifaddr_lines(spec_lines(output))
}

/// Read the machine's address out of address-listing output.
pub fn parse_domifaddr(output: &str) -> (r: Option<String>)
    ensures
        r is Some <==> spec_domifaddr(output@) is Some,
        r matches Some(s) ==> s@ == spec_domifaddr(output@)->0,
{
    let lines = lines_of(output);
    let ghost all = lines.deep_view();
    let n = lines.len();
    let mut i: usize = 0;
    proof {
        assert(all.skip(0) =~~= all);
    }
    while i < n
        invariant
            0 <= i <= n,
            n == all.len(),
            lines.deep_view() == all,
            all == spec_lines(output@),
            spec_domifaddr_lines(all) == spec_domifaddr_lines(all.skip(i as int)),
        decreases n - i,
    {
        proof {
            assert(all.skip(i as int)[0] == all[i as int]);
            assert(all.skip(i as int).drop_first() =~~= all.skip(i + 1));
            assert(all[i as int] == lines@[i as int]@);
        }
        let trimmed = trim_str(lines[i].as_str());
        let tlen = trimmed.as_str().unicode_len();
        let skip_line = tlen == 0 || str_starts_with(trimmed.as_str(), "Name") || trimmed.as_str()
            .get_char(0) == '-';
        if !skip_line {
            let fields = split_whitespace_of(trimmed.as_str());
            if fields.len() >= 4 && str_eq(fields[2].as_str(), "ipv4") {
                proof {
                    assert(fields@[2]@ == spec_split_ws(trimmed@)[2]);
                    assert(fields@[3]@ == spec_split_ws(trimmed@)[3]);
                }
                let addr = &fields[3];
                let alen = addr.as_str().unicode_len();
                let ip: String = match find_char(addr.as_str(), '/') {
                    Some(idx) => {
                        proof {
                            lemma_split_first_at(addr@, idx as int, '/');
                            assert(addr@.subrange(0, idx as int) =~= addr@.take(idx as int));
                        }
                        String::from_str(addr.as_str().substring_char(0, idx))
                    },
                    None => {
                        proof {
                            lemma_split_first_none(addr@, '/');
                        }
                        addr.clone()
                    },
                };
                if ip.as_str().unicode_len() > 0 {
                    return Some(ip);
                }
            } else {
                proof {
                    if fields.len() >= 4 {
                        assert(fields@[2]@ == spec_split_ws(trimmed@)[2]);
                    }
                }
            }
        }
        i += 1;
    }
    proof {
        assert(all.skip(n as int) =~~= Seq::<Seq<char>>::empty());
    }
    None
}

} // verus!
