//! The remote-shell session descriptor: host, user and key, and the
//! exact argument lists handed to the `ssh` and `scp` binaries. Running
//! those binaries happens outside the library.

use vstd::prelude::*;

verus! {

/// One remote host, the user to reach it as, and an optional private
/// key.
pub struct SshSession {
    pub host: String,
    pub user: String,
    pub key: Option<String>,
}

/// `user@host`, the destination both binaries take.
pub open spec fn spec_destination(user: Seq<char>, host: Seq<char>) -> Seq<char> {
    user + "@"@ + host
}

/// The fixed options every remote-shell call carries, plus the key when
/// one was given.
pub open spec fn spec_ssh_base_args(key: Option<Seq<char>>) -> Seq<Seq<char>> {
    seq!["-o"@, "StrictHostKeyChecking=accept-new"@, "-o"@, "ConnectTimeout=10"@] + (match key {
        Some(k) => seq!["-i"@, k],
        None => Seq::<Seq<char>>::empty(),
    })
}

/// The fixed options every file copy carries, plus the key when one was
/// given.
pub open spec fn spec_scp_base_args(key: Option<Seq<char>>) -> Seq<Seq<char>> {
    seq!["-o"@, "StrictHostKeyChecking=accept-new"@] + (match key {
        Some(k) => seq!["-i"@, k],
        None => Seq::<Seq<char>>::empty(),
    })
}

/// The full argument list of one remote command execution.
pub open spec fn spec_ssh_args(
    user: Seq<char>,
    host: Seq<char>,
    key: Option<Seq<char>>,
    command: Seq<char>,
) -> Seq<Seq<char>> {
    spec_ssh_base_args(key) + seq![spec_destination(user, host), command]
}

impl SshSession {
    /// A session for the given host and user, with no explicit key.
    pub fn new(host: &str, user: &str) -> (r: Self)
        ensures
            r.host@ == host@,
            r.user@ == user@,
            r.key is None,
    {
        SshSession { host: host.to_owned(), user: user.to_owned(), key: None }
    }

    /// The same session with an explicit private-key path.
    pub fn with_key(self, key_path: &str) -> (r: Self)
        ensures
            r.key is Some,
            r.key->0@ == key_path@,
            r == (SshSession { key: r.key, ..self }),
    {
        SshSession { key: Some(key_path.to_owned()), ..self }
    }

    /// The `user@host` destination.
    pub fn destination(&self) -> (r: String)
        ensures
            r@ == spec_destination(self.user@, self.host@),
    {
        let mut out = self.user.clone();
        out.append("@");
        out.append(self.host.as_str());
        proof {
            assert(out@ =~= spec_destination(self.user@, self.host@));
        }
        out
    }

    /// The fixed `ssh` options, with the key when one was given.
    pub fn ssh_base_args(&self) -> (r: Vec<String>)
        ensures
            r.deep_view() == spec_ssh_base_args(self.key.deep_view()),
    {
        let mut args: Vec<String> = Vec::new();
        args.push(String::from_str("-o"));
        args.push(String::from_str("StrictHostKeyChecking=accept-new"));
        args.push(String::from_str("-o"));
        args.push(String::from_str("ConnectTimeout=10"));
        if let Some(k) = &self.key {
            args.push(String::from_str("-i"));
            args.push(k.clone());
        }
        proof {
            assert(args.deep_view() =~~= spec_ssh_base_args(self.key.deep_view()));
        }
        args
    }

    /// The fixed `scp` options, with the key when one was given.
    pub fn scp_base_args(&self) -> (r: Vec<String>)
        ensures
            r.deep_view() == spec_scp_base_args(self.key.deep_view()),
    {
        let mut args: Vec<String> = Vec::new();
        args.push(String::from_str("-o"));
        args.push(String::from_str("StrictHostKeyChecking=accept-new"));
        if let Some(k) = &self.key {
            args.push(String::from_str("-i"));
            args.push(k.clone());
        }
        proof {
            assert(args.deep_view() =~~= spec_scp_base_args(self.key.deep_view()));
        }
        args
    }

    /// The whole argument list that runs one command on the remote host.
    pub fn build_ssh_args(&self, command: &str) -> (r: Vec<String>)
        ensures
            r.deep_view() == spec_ssh_args(self.user@, self.host@, self.key.deep_view(), command@),
    {
        let mut args = self.ssh_base_args();
        args.push(self.destination());
        args.push(command.to_owned());
        proof {
            assert(args.deep_view() =~~= spec_ssh_args(
                self.user@,
                self.host@,
                self.key.deep_view(),
                command@,
            ));
        }
        args
    }

    /// The remote command that writes a stream to a file.
    pub fn write_file_command(remote_path: &str) -> (r: String)
        ensures
            r@ == "cat > "@ + remote_path@,
    {
        let mut out = String::from_str("cat > ");
        out.append(remote_path);
        out
    }

    /// The `host:path` target of a file copy.
    pub fn scp_destination(&self, remote_path: &str) -> (r: String)
        ensures
            r@ == spec_destination(self.user@, self.host@) + ":"@ + remote_path@,
    {
        let mut out = self.destination();
        out.append(":");
        out.append(remote_path);
        proof {
            assert(out@ =~= spec_destination(self.user@, self.host@) + ":"@ + remote_path@);
        }
        out
    }
}

} // verus!
