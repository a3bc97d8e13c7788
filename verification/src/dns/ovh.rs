//! The OVH DNS backend's decision core: reading the credential file's
//! INI shape, choosing the API base for an endpoint, and building the
//! exact request paths, bodies and signature input the REST calls need.
//! The process edges — reading the file and driving `curl` — live outside
//! the library and consume these strings.

use vstd::prelude::*;

use crate::error::DeployError;
use crate::error::DeployResult;
use crate::text::spec_trim;
use crate::text::spec_lines;
use crate::text::spec_dec;
use crate::text::first_at;
use crate::text::lemma_first_at_some;
use crate::text::lemma_first_at_none;
use crate::text::trim_str;
use crate::text::lines_of;
use crate::text::str_eq;
use crate::text::find_char;
use crate::text::push_dec;

verus! {

/// The fully-qualified domain an OVH-managed zone serves.
pub struct Ovh {
    pub domain: String,
}

/// Credentials as the `ovhcloud` tool writes them.
pub struct OvhCredentials {
    pub endpoint: String,
    pub application_key: String,
    pub application_secret: String,
    pub consumer_key: String,
}

impl Ovh {
    /// Manage the given fully-qualified domain name.
    pub fn new(domain: &str) -> (r: Self)
        ensures
            r.domain@ == domain@,
    {
        Ovh { domain: domain.to_owned() }
    }

    /// The API base URL for an endpoint name.
    pub fn api_base(creds: &OvhCredentials) -> (r: String)
        ensures
            r@ == spec_api_base(creds.endpoint@),
    {
        if str_eq(creds.endpoint.as_str(), "ovh-eu") {
            String::from_str("https://eu.api.ovh.com/1.0")
        } else if str_eq(creds.endpoint.as_str(), "ovh-us") {
            String::from_str("https://api.us.ovhcloud.com/1.0")
        } else if str_eq(creds.endpoint.as_str(), "ovh-ca") {
            String::from_str("https://ca.api.ovh.com/1.0")
        } else {
            let mut out = String::from_str("https://");
            out.append(creds.endpoint.as_str());
            out.append(".api.ovh.com/1.0");
            proof {
                assert(out@ =~= "https://"@ + creds.endpoint@ + ".api.ovh.com/1.0"@);
            }
            out
        }
    }
}

/// Endpoint names map to fixed API bases; an unknown endpoint is tried
/// as a regional subdomain.
pub open spec fn spec_api_base(ep: Seq<char>) -> Seq<char> {
    if ep == "ovh-eu"@ {
        "https://eu.api.ovh.com/1.0"@
    } else if ep == "ovh-us"@ {
        "https://api.us.ovhcloud.com/1.0"@
    } else if ep == "ovh-ca"@ {
        "https://ca.api.ovh.com/1.0"@
    } else {
        "https://"@ + ep + ".api.ovh.com/1.0"@
    }
}

/// The INI lookup: find `[section]`, then the first `key = value` line
/// before the next section header.
pub open spec fn spec_ini_find(
    lines: Seq<Seq<char>>,
    header: Seq<char>,
    key: Seq<char>,
    in_section: bool,
) -> Option<Seq<char>>
    decreases lines.len(),
{
    if lines.len() == 0 {
        None
    } else {
        let t = spec_trim(lines[0]);
        let rest = lines.drop_first();
        if t == header {
            spec_ini_find(rest, header, key, true)
        } else if t.len() > 0 && t[0] == '[' {
            if in_section {
                None
            } else {
                spec_ini_find(rest, header, key, false)
            }
        } else if in_section && first_at(t, '=') >= 0 && spec_trim(t.take(first_at(t, '=')))
            == key {
            Some(spec_trim(t.skip(first_at(t, '=') + 1)))
        } else {
            spec_ini_find(rest, header, key, in_section)
        }
    }
}

/// What `parse_ini_value` returns for a whole file.
pub open spec fn spec_ini(content: Seq<char>, section: Seq<char>, key: Seq<char>) -> Option<
    Seq<char>,
> {
    spec_ini_find(spec_lines(content), seq!['['] + section + seq![']'], key, false)
}

/// Extract a value from INI-style text: enter `[section]`, and return
/// the trimmed value of the first matching `key = value` line before the
/// next section starts.
pub fn parse_ini_value(content: &str, section: &str, key: &str) -> (r: Option<String>)
    ensures
        r is Some <==> spec_ini(content@, section@, key@) is Some,
        r is Some ==> r->0@ == spec_ini(content@, section@, key@)->0,
{
    proof {
        reveal_strlit("[");
        reveal_strlit("]");
        assert("["@ =~= seq!['[']);
        assert("]"@ =~= seq![']']);
    }
    let mut header = String::from_str("[");
    header.append(section);
    header.append("]");
    proof {
        assert(header@ =~= seq!['['] + section@ + seq![']']);
    }
    let lines = lines_of(content);
    let ghost all = lines.deep_view();
    let ghost hd = header@;
    let mut in_section = false;
    let n = lines.len();
    let mut i: usize = 0;
    proof {
        assert(all.skip(0) =~~= all);
    }
    while i < n
        invariant
            0 <= i <= n,
            n == all.len(),
            lines.deep_view() == all,
            header@ == hd,
            all == spec_lines(content@),
            hd == seq!['['] + section@ + seq![']'],
            spec_ini_find(all, hd, key@, false) == spec_ini_find(
                all.skip(i as int),
                hd,
                key@,
                in_section,
            ),
        decreases n - i,
    {
        proof {
            assert(all.skip(i as int)[0] == all[i as int]);
            assert(all.skip(i as int).drop_first() =~~= all.skip(i + 1));
            assert(all[i as int] == lines@[i as int]@);
        }
        let trimmed = trim_str(lines[i].as_str());
        proof {
            assert(trimmed@ == spec_trim(all[i as int]));
        }
        if str_eq(trimmed.as_str(), header.as_str()) {
            in_section = true;
            proof {
                assert(spec_ini_find(all.skip(i as int), hd, key@, false) == spec_ini_find(
                    all.skip(i + 1),
                    hd,
                    key@,
                    true,
                ));
            }
        } else if trimmed.as_str().unicode_len() > 0 && trimmed.as_str().get_char(0) == '[' {
            if in_section {
                proof {
                    assert(spec_ini_find(all.skip(i as int), hd, key@, true) == None::<
                        Seq<char>,
                    >);
                }
                return None;
            }
        } else if in_section {
            if let Some(eq) = find_char(trimmed.as_str(), '=') {
                proof {
                    lemma_first_at_some(trimmed@, '=', eq as int);
                }
                let k = trim_str(trimmed.as_str().substring_char(0, eq));
                proof {
                    assert(trimmed@.subrange(0, eq as int) =~= trimmed@.take(eq as int));
                }
                if str_eq(k.as_str(), key) {
                    let tlen = trimmed.as_str().unicode_len();
                    let v = trim_str(trimmed.as_str().substring_char(eq + 1, tlen));
                    proof {
                        assert(trimmed@.subrange(eq + 1, tlen as int) =~= trimmed@.skip(eq + 1));
                        assert(spec_ini_find(all.skip(i as int), hd, key@, true) == Some(
                            spec_trim(trimmed@.skip(eq + 1)),
                        ));
                        assert(v@ == spec_trim(trimmed@.skip(eq + 1)));
                    }
                    return Some(v);
                }
            } else {
                proof {
                    lemma_first_at_none(trimmed@, '=');
                }
            }
        }
        i += 1;
    }
    proof {
        assert(all.skip(n as int) =~~= Seq::<Seq<char>>::empty());
        assert(spec_ini_find(all.skip(n as int), hd, key@, in_section) == None::<Seq<char>>);
    }
    None
}

/// Read the four credential values from the credential file's text,
/// naming the first missing one.
pub fn credentials_from_conf(content: &str) -> (r: DeployResult<OvhCredentials>)
    ensures
        spec_ini(content@, "default"@, "endpoint"@) is None ==> (r matches Err(
            DeployError::Other(m),
        ) && m@ == "missing endpoint in ~/.ovh.conf"@),
        spec_ini(content@, "default"@, "endpoint"@) matches Some(ep) ==> ({
            let ak = spec_ini(content@, ep, "application_key"@);
            let sec = spec_ini(content@, ep, "application_secret"@);
            let ck = spec_ini(content@, ep, "consumer_key"@);
            &&& (ak is None ==> (r matches Err(DeployError::Other(m)) && m@
                == "missing application_key in ~/.ovh.conf"@))
            &&& (ak is Some && sec is None ==> (r matches Err(DeployError::Other(m)) && m@
                == "missing application_secret in ~/.ovh.conf"@))
            &&& (ak is Some && sec is Some && ck is None ==> (r matches Err(
                DeployError::Other(m),
            ) && m@ == "missing consumer_key in ~/.ovh.conf"@))
            &&& (ak is Some && sec is Some && ck is Some ==> (r matches Ok(c) && c.endpoint@ == ep
                && c.application_key@ == ak->0 && c.application_secret@ == sec->0
                && c.consumer_key@ == ck->0))
        }),
{
    let endpoint = match parse_ini_value(content, "default", "endpoint") {
        Some(ep) => ep,
        None => {
            return Err(DeployError::Other(String::from_str("missing endpoint in ~/.ovh.conf")));
        },
    };
    let ak = match parse_ini_value(content, endpoint.as_str(), "application_key") {
        Some(v) => v,
        None => {
            return Err(
                DeployError::Other(String::from_str("missing application_key in ~/.ovh.conf")),
            );
        },
    };
    let sec = match parse_ini_value(content, endpoint.as_str(), "application_secret") {
        Some(v) => v,
        None => {
            return Err(
                DeployError::Other(String::from_str("missing application_secret in ~/.ovh.conf")),
            );
        },
    };
    let ck = match parse_ini_value(content, endpoint.as_str(), "consumer_key") {
        Some(v) => v,
        None => {
            return Err(
                DeployError::Other(String::from_str("missing consumer_key in ~/.ovh.conf")),
            );
        },
    };
    Ok(
        OvhCredentials {
            endpoint,
            application_key: ak,
            application_secret: sec,
            consumer_key: ck,
        },
    )
}

/// The request-signing input: secret, consumer key, method, URL, body and
/// timestamp joined with `+`.
pub fn signature_data(
    app_secret: &str,
    consumer_key: &str,
    method: &str,
    url: &str,
    body: &str,
    timestamp: &str,
) -> (r: String)
    ensures
        r@ == app_secret@ + "+"@ + consumer_key@ + "+"@ + method@ + "+"@ + url@ + "+"@ + body@
            + "+"@ + timestamp@,
{
    let mut out = app_secret.to_owned();
    out.append("+");
    out.append(consumer_key);
    out.append("+");
    out.append(method);
    out.append("+");
    out.append(url);
    out.append("+");
    out.append(body);
    out.append("+");
    out.append(timestamp);
    out
}

/// The signature header value around a hex digest.
pub fn signature_of(sha1_hex: &str) -> (r: String)
    ensures
        r@ == "$1$"@ + sha1_hex@,
{
    let mut out = String::from_str("$1$");
    out.append(sha1_hex);
    out
}

/// The query that lists a zone's A records for one record name.
pub fn record_query_path(zone: &str, subdomain: &str) -> (r: String)
    ensures
        r@ == "/domain/zone/"@ + zone@ + "/record?fieldType=A&subDomain="@ + subdomain@,
{
    let mut out = String::from_str("/domain/zone/");
    out.append(zone);
    out.append("/record?fieldType=A&subDomain=");
    out.append(subdomain);
    out
}

/// The path of one record by its identifier.
pub fn record_update_path(zone: &str, record_id: u64) -> (r: String)
    ensures
        r@ == "/domain/zone/"@ + zone@ + "/record/"@ + spec_dec(record_id as nat),
{
    let mut out = String::from_str("/domain/zone/");
    out.append(zone);
    out.append("/record/");
    push_dec(&mut out, record_id);
    out
}

/// The path that creates a record in a zone.
pub fn record_create_path(zone: &str) -> (r: String)
    ensures
        r@ == "/domain/zone/"@ + zone@ + "/record"@,
{
    let mut out = String::from_str("/domain/zone/");
    out.append(zone);
    out.append("/record");
    out
}

/// The path that refreshes a zone after record changes.
pub fn zone_refresh_path(zone: &str) -> (r: String)
    ensures
        r@ == "/domain/zone/"@ + zone@ + "/refresh"@,
{
    let mut out = String::from_str("/domain/zone/");
    out.append(zone);
    out.append("/refresh");
    out
}

/// The body that points an existing record at a new address.
pub fn update_record_body(ip: &str) -> (r: String)
    ensures
        r@ == "{\"target\":\""@ + ip@ + "\",\"ttl\":300}"@,
{
    let mut out = String::from_str("{\"target\":\"");
    out.append(ip);
    out.append("\",\"ttl\":300}");
    out
}

/// The body that creates a fresh A record.
pub fn create_record_body(subdomain: &str, ip: &str) -> (r: String)
    ensures
        r@ == "{\"fieldType\":\"A\",\"subDomain\":\""@ + subdomain@ + "\",\"target\":\""@ + ip@
            + "\",\"ttl\":300}"@,
{
    let mut out = String::from_str("{\"fieldType\":\"A\",\"subDomain\":\"");
    out.append(subdomain);
    out.append("\",\"target\":\"");
    out.append(ip);
    out.append("\",\"ttl\":300}");
    out
}

/// The record identifiers a record-list response decodes to; any text
/// that is not a JSON list of integers decodes to the empty list.
pub uninterp spec fn record_ids_of(s: Seq<char>) -> Seq<u64>;

/// Relies on serde_json::from_str: decoding a JSON integer list depends
/// on the text alone, and undecodable text falls back to the empty list.
#[verifier::external_body]
fn decode_record_ids(s: &str) -> (r: Vec<u64>)
    ensures
        r@ == record_ids_of(s@),
{
    serde_json::from_str::<Vec<u64>>(s).unwrap_or_default()
}

/// The record an upsert should update: the first one listed, when any.
pub fn first_record_id(ids: &Vec<u64>) -> (r: Option<u64>)
    ensures
        ids@.len() > 0 ==> r == Some(ids@[0]),
        ids@.len() == 0 ==> r is None,
{
    if ids.len() > 0 {
        Some(ids[0])
    } else {
        None
    }
}

/// Decode a record-list response and pick the record an upsert should
/// update, or nothing when a fresh record must be created.
pub fn upsert_target(response: &str) -> (r: Option<u64>)
    ensures
        record_ids_of(response@).len() > 0 ==> r == Some(record_ids_of(response@)[0]),
        record_ids_of(response@).len() == 0 ==> r is None,
{
    let ids = decode_record_ids(response);
    first_record_id(&ids)
}

} // verus!
