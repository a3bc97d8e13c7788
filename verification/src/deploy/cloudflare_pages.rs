//! The static-site deployment strategy: publish a built directory to a
//! hosted project. It needs no remote shell; the publisher tool runs
//! outside the library.

use vstd::prelude::*;

verus! {

/// The hosted project a static site publishes to.
pub struct CloudflarePages {
    pub project: String,
}

impl CloudflarePages {
    /// Publish to the given project.
    pub fn new(project: &str) -> (r: Self)
        ensures
            r.project@ == project@,
    {
        CloudflarePages { project: project.to_owned() }
    }

    /// This strategy never reaches a remote host over a shell.
    pub fn is_remote(&self) -> (r: bool)
        ensures
            r == false,
    {
        false
    }

    /// The alias target the pipeline can point a domain at.
    pub fn cname_target(&self) -> (r: Option<String>)
        ensures
            r is Some,
            r->0@ == self.project@ + ".pages.dev"@,
    {
        let mut out = self.project.clone();
        out.append(".pages.dev");
        Some(out)
    }

    /// The publisher invocation for one build directory.
    pub fn deploy_args(&self, build_dir: &str) -> (r: Vec<String>)
        ensures
            r.deep_view() == seq![
                "pages"@,
                "deploy"@,
                build_dir@,
                "--project-name"@,
                self.project@,
            ],
    {
        let mut args: Vec<String> = Vec::new();
        args.push(String::from_str("pages"));
        args.push(String::from_str("deploy"));
        args.push(build_dir.to_owned());
        args.push(String::from_str("--project-name"));
        args.push(self.project.clone());
        proof {
            assert(args.deep_view() =~~= seq![
                "pages"@,
                "deploy"@,
                build_dir@,
                "--project-name"@,
                self.project@,
            ]);
        }
        args
    }
}

/// The directory a static build lands in when none was declared.
pub fn build_dir_or_default(declared: &Option<String>) -> (r: String)
    ensures
        declared matches Some(d) ==> r@ == d@,
        declared is None ==> r@ == "dist"@,
{
    match declared {
        Some(d) => d.clone(),
        None => String::from_str("dist"),
    }
}

} // verus!
