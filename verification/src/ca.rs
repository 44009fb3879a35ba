//! The certificate authority's decisions: when the root CA key and
//! certificate are written (the recovery matrix), when a leaf certificate
//! is reissued (the time-based renewal rule), the validity window of a
//! leaf, and the file names everything is kept under. The filesystem reads
//! and the signing itself happen outside this crate; they hand plain
//! values in and carry the decisions out.

use vstd::prelude::*;

verus! {

use vstd::string::StringExecFns;
use crate::config::ProxyConfig;
use crate::strutil::string_copy;
use crate::table::DomainMap;

/// The on-disk file pair of one issued leaf certificate.
pub struct IssuedCert {
    pub cert_path: String,
    pub key_path: String,
}

/// What provisioning hands the TLS listener: the root CA certificate path,
/// whether the root CA was (re)created on this boot, and the leaf file
/// pair per domain.
pub struct TlsAssets {
    pub ca_cert_path: String,
    pub ca_created: bool,
    pub certs: DomainMap<IssuedCert>,
}

/// What to do about the root CA, given which of its two files exist.
pub struct CaPlan {
    /// Generate a fresh keypair (otherwise the existing key file is
    /// parsed and reused).
    pub generate_key: bool,
    /// Write the key file.
    pub write_key: bool,
    /// Write the certificate file (the certificate itself is always
    /// rebuilt in memory from the key and the configured parameters).
    pub write_cert: bool,
    /// The root CA counts as created on this boot, which alone triggers
    /// the trust-store installation.
    pub created: bool,
}

/// The root CA recovery matrix. A missing key means a fresh keypair,
/// written next to a fresh certificate. An existing key is authoritative:
/// it is reused, and a missing certificate is regenerated from it and
/// written. Only when both files exist is nothing written. `created` is
/// true iff the key file or the certificate file was missing.
pub fn plan_ca(key_exists: bool, cert_exists: bool) -> (r: CaPlan)
    ensures
        r.created == (!key_exists || !cert_exists),
        r.generate_key == !key_exists,
        r.write_key == !key_exists,
        r.write_cert == r.created,
{
    CaPlan {
        generate_key: !key_exists,
        write_key: !key_exists,
        write_cert: !key_exists || !cert_exists,
        created: !key_exists || !cert_exists,
    }
}

/// The renewal rule: a leaf is reissued iff its certificate file is
/// missing, or the renewal window `valid_days - renew_before_days` is
/// empty, or the file's age is unreadable, or the file is at least that
/// many days old.
pub open spec fn spec_should_reissue(
    cert_exists: bool,
    age_secs: Option<u64>,
    valid_days: u32,
    renew_before_days: u32,
) -> bool {
    ||| !cert_exists
    ||| valid_days <= renew_before_days
    ||| age_secs is None
    ||| age_secs->Some_0 >= (valid_days - renew_before_days) as u64 * 86400
}

/// Whether a leaf certificate is due for reissue. `age_secs` is the age of
/// the certificate file in seconds, or nothing when the file's
/// modification time cannot be read (which reissues, to stay safe).
pub fn should_reissue(
    cert_exists: bool,
    age_secs: Option<u64>,
    valid_days: u32,
    renew_before_days: u32,
) -> (r: bool)
    ensures
        r == spec_should_reissue(cert_exists, age_secs, valid_days, renew_before_days),
{
    if !cert_exists {
        return true;
    }
    if valid_days <= renew_before_days {
        return true;
    }
    match age_secs {
        None => true,
        Some(age) => {
            let renew_after_days = valid_days - renew_before_days;
            age >= (renew_after_days as u64) * 86400
        },
    }
}

/// The validity window of a fresh leaf: from one day before `now` to
/// `valid_days` after it, in Unix seconds. The bounds on `now_unix` only
/// keep the arithmetic inside `i64`.
pub fn leaf_validity_window(now_unix: i64, valid_days: u32) -> (r: (i64, i64))
    requires
        -1000000000000 <= now_unix <= 1000000000000,
    ensures
        r.0 == now_unix - 86400,
        r.1 == now_unix + valid_days as i64 * 86400,
{
    (now_unix - 86400, now_unix + (valid_days as i64) * 86400)
}

/// The root CA file names under `ca_dir`: the certificate and the key.
pub fn ca_paths(ca_dir: &str) -> (r: (String, String))
    ensures
        r.0@ == ca_dir@ + "/rootCA.pem"@,
        r.1@ == ca_dir@ + "/rootCA-key.pem"@,
{
    let mut cert = string_copy(ca_dir);
    cert.append("/rootCA.pem");
    let mut key = string_copy(ca_dir);
    key.append("/rootCA-key.pem");
    (cert, key)
}

/// The leaf file names of one domain under `cert_dir`: `<domain>.pem` and
/// `<domain>.key`.
pub fn leaf_paths(cert_dir: &str, domain: &str) -> (r: IssuedCert)
    ensures
        r.cert_path@ == cert_dir@ + "/"@ + domain@ + ".pem"@,
        r.key_path@ == cert_dir@ + "/"@ + domain@ + ".key"@,
{
    let mut cert = string_copy(cert_dir);
    cert.append("/");
    cert.append(domain);
    cert.append(".pem");
    let mut key = string_copy(cert_dir);
    key.append("/");
    key.append(domain);
    key.append(".key");
    IssuedCert { cert_path: cert, key_path: key }
}

/// What provisioning decided for one proxy domain.
pub struct CertDecision {
    pub domain: String,
    pub cert: IssuedCert,
    /// Issue a fresh leaf; when false, the files on disk are reused.
    pub reissue: bool,
}

/// Decides every proxy domain at once: the leaf paths under `cert_dir`,
/// and reissue by the renewal rule over the probed state of each
/// certificate file (whether it exists, and its age in seconds when
/// readable), probed in the same order as the proxies.
pub fn plan_certificates(
    proxies: &Vec<ProxyConfig>,
    cert_dir: &str,
    probes: &Vec<(bool, Option<u64>)>,
    valid_days: u32,
    renew_before_days: u32,
) -> (r: Vec<CertDecision>)
    requires
        probes@.len() == proxies@.len(),
    ensures
        r@.len() == proxies@.len(),
        forall|i: int|
            0 <= i < proxies@.len() ==> {
                &&& (#[trigger] r@[i]).domain@ == proxies@[i].domain@
                &&& r@[i].cert.cert_path@ == cert_dir@ + "/"@ + proxies@[i].domain@ + ".pem"@
                &&& r@[i].cert.key_path@ == cert_dir@ + "/"@ + proxies@[i].domain@ + ".key"@
                &&& r@[i].reissue == spec_should_reissue(
                    probes@[i].0,
                    probes@[i].1,
                    valid_days,
                    renew_before_days,
                )
            },
{
    let mut out: Vec<CertDecision> = Vec::new();
    let n = proxies.len();
    let mut i: usize = 0;
    while i < n
        invariant
            0 <= i <= n == proxies@.len(),
            probes@.len() == proxies@.len(),
            out@.len() == i,
            forall|t: int|
                0 <= t < i ==> {
                    &&& (#[trigger] out@[t]).domain@ == proxies@[t].domain@
                    &&& out@[t].cert.cert_path@ == cert_dir@ + "/"@ + proxies@[t].domain@
                        + ".pem"@
                    &&& out@[t].cert.key_path@ == cert_dir@ + "/"@ + proxies@[t].domain@ + ".key"@
                    &&& out@[t].reissue == spec_should_reissue(
                        probes@[t].0,
                        probes@[t].1,
                        valid_days,
                        renew_before_days,
                    )
                },
        decreases n - i,
    {
        let p = &proxies[i];
        let probe = &probes[i];
        out.push(
            CertDecision {
                domain: string_copy(p.domain.as_str()),
                cert: leaf_paths(cert_dir, p.domain.as_str()),
                reissue: should_reissue(probe.0, probe.1, valid_days, renew_before_days),
            },
        );
        i += 1;
    }
    out
}

/// Gathers the decisions into the assets handed to the TLS listener: the
/// leaf map keyed by domain, in decision order, under the given root CA
/// certificate path and created flag.
pub fn assets_from_decisions(
    ca_cert_path: String,
    ca_created: bool,
    decisions: &Vec<CertDecision>,
) -> (r: TlsAssets)
    requires
        forall|i: int, j: int|
            0 <= i < j < decisions@.len() ==> decisions@[i].domain@ != decisions@[j].domain@,
    ensures
        r.ca_cert_path == ca_cert_path,
        r.ca_created == ca_created,
        r.certs.wf(),
        r.certs.spec_entries().len() == decisions@.len(),
        forall|i: int|
            0 <= i < decisions@.len() ==> {
                &&& (#[trigger] r.certs.spec_entries()[i]).0@ == decisions@[i].domain@
                &&& r.certs.spec_entries()[i].1.cert_path@ == decisions@[i].cert.cert_path@
                &&& r.certs.spec_entries()[i].1.key_path@ == decisions@[i].cert.key_path@
            },
{
    let mut certs: DomainMap<IssuedCert> = DomainMap::new();
    let n = decisions.len();
    let mut i: usize = 0;
    while i < n
        invariant
            0 <= i <= n == decisions@.len(),
            forall|t1: int, t2: int|
                0 <= t1 < t2 < decisions@.len() ==> decisions@[t1].domain@
                    != decisions@[t2].domain@,
            certs.wf(),
            certs.spec_entries().len() == i,
            forall|t: int|
                0 <= t < i ==> {
                    &&& (#[trigger] certs.spec_entries()[t]).0@ == decisions@[t].domain@
                    &&& certs.spec_entries()[t].1.cert_path@ == decisions@[t].cert.cert_path@
                    &&& certs.spec_entries()[t].1.key_path@ == decisions@[t].cert.key_path@
                },
        decreases n - i,
    {
        let d = &decisions[i];
        let ghost ents = certs.spec_entries();
        if certs.contains_key(d.domain.as_str()) {
            proof {
                crate::table::lemma_seq_get_some_is_key(ents, d.domain@);
                let t = choose|t: int| 0 <= t < ents.len() && ents[t].0@ == d.domain@;
                assert(decisions@[t].domain@ == decisions@[i as int].domain@);
                assert(false);
            }
        }
        let inserted = certs.insert(
            string_copy(d.domain.as_str()),
            IssuedCert {
                cert_path: string_copy(d.cert.cert_path.as_str()),
                key_path: string_copy(d.cert.key_path.as_str()),
            },
        );
        assert(inserted);
        proof {
            assert forall|t: int| 0 <= t < i + 1 implies {
                &&& (#[trigger] certs.spec_entries()[t]).0@ == decisions@[t].domain@
                &&& certs.spec_entries()[t].1.cert_path@ == decisions@[t].cert.cert_path@
                &&& certs.spec_entries()[t].1.key_path@ == decisions@[t].cert.key_path@
            } by {
                if t < i as int {
                    assert(certs.spec_entries()[t] == ents[t]);
                }
            }
        }
        i += 1;
    }
    TlsAssets { ca_cert_path, ca_created, certs }
}

} // verus!
