//! The Cloudflare DNS backend's descriptor: which fully-qualified name it
//! manages, and the decision of updating an existing record against
//! creating a fresh one. The HTTP client lives outside the library.

use vstd::prelude::*;

verus! {

/// The fully-qualified domain a Cloudflare-managed zone serves.
pub struct Cloudflare {
    pub domain: String,
}

impl Cloudflare {
    /// Manage the given fully-qualified domain name.
    pub fn new(domain: &str) -> (r: Self)
        ensures
            r.domain@ == domain@,
    {
        Cloudflare { domain: domain.to_owned() }
    }

    /// The managed domain name.
    pub fn domain_name(&self) -> (r: &str)
        ensures
            r@ == self.domain@,
    {
        self.domain.as_str()
    }
}

/// Whether an upsert should update the record found, or create one.
pub fn should_update(existing_record: &Option<String>) -> (r: bool)
    ensures
        r == (existing_record is Some),
{
    existing_record.is_some()
}

} // verus!
