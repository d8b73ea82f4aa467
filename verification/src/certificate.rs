//! The TLS certificate cache: reuse a DER certificate/key pair from the
//! per-application data directory when both files are present, regenerate
//! and re-persist when either is missing, and fall back to a purely
//! ephemeral pair when the directory is undeterminable or a read fails for
//! any other reason. No path here ever aborts serving: persistence failures
//! only downgrade to ephemeral use.
//!
//! The decisions are a pure state machine over probe results; the file
//! system probes and writes themselves are the caller's.

use vstd::prelude::*;

verus! {

/// A DER-encoded certificate and its matching DER-encoded private key.
pub struct Certificate {
    pub certificate: Vec<u8>,
    pub private_key: Vec<u8>,
}

/// What a probe of one cache file observed.
pub enum ReadOutcome {
    /// The file was present and readable, with these bytes.
    Found(Vec<u8>),
    /// The file does not exist.
    NotFound,
    /// The file exists but could not be read.
    Failed,
}

/// What a probe of the certificate cache observed.
pub enum CacheProbe {
    /// No per-application data directory could be determined.
    NoDirectory,
    /// The two cache files were probed in the data directory.
    Dir { certificate: ReadOutcome, private_key: ReadOutcome },
}

/// What to do about the probed cache.
pub enum CertPlan {
    /// Both files were readable: reuse the cached pair.
    Reuse(Certificate),
    /// A file was missing: generate a fresh pair and try to persist it.
    GenerateAndPersist,
    /// The cache is unusable: generate a fresh pair, in memory only.
    GenerateEphemeral,
}

/// Terminal states of one certificate acquisition.
#[derive(Clone, Copy, PartialEq, Eq, Structural, Debug)]
pub enum CertOutcome {
    /// The cached pair was served again.
    Reused,
    /// A fresh pair was generated and both files were written back.
    GeneratedAndCached,
    /// A fresh pair was generated and kept only in memory.
    GeneratedEphemeral,
}

/// Certificate generation failed; serving cannot start over HTTPS.
#[derive(Debug)]
pub struct CertError {
    pub message: String,
}

/// The cache decision: the certificate file's outcome is consulted first,
/// and a missing file asks for regeneration with persistence while any
/// other read failure forbids touching the cache again.
pub open spec fn spec_plan(probe: CacheProbe) -> CertPlan {
    match probe {
        CacheProbe::NoDirectory => CertPlan::GenerateEphemeral,
        CacheProbe::Dir { certificate, private_key } => match certificate {
            ReadOutcome::Failed => CertPlan::GenerateEphemeral,
            ReadOutcome::NotFound => CertPlan::GenerateAndPersist,
            ReadOutcome::Found(c) => match private_key {
                ReadOutcome::Failed => CertPlan::GenerateEphemeral,
                ReadOutcome::NotFound => CertPlan::GenerateAndPersist,
                ReadOutcome::Found(k) => CertPlan::Reuse(
                    Certificate { certificate: c, private_key: k },
                ),
            },
        },
    }
}

/// Decide what to do about the probed cache.
pub fn certificate_plan(probe: CacheProbe) -> (r: CertPlan)
    ensures
        r == spec_plan(probe),
{
    match probe {
        CacheProbe::NoDirectory => CertPlan::GenerateEphemeral,
        CacheProbe::Dir { certificate, private_key } => match certificate {
            ReadOutcome::Failed => CertPlan::GenerateEphemeral,
            ReadOutcome::NotFound => CertPlan::GenerateAndPersist,
            ReadOutcome::Found(c) => match private_key {
                ReadOutcome::Failed => CertPlan::GenerateEphemeral,
                ReadOutcome::NotFound => CertPlan::GenerateAndPersist,
                ReadOutcome::Found(k) => CertPlan::Reuse(
                    Certificate { certificate: c, private_key: k },
                ),
            },
        },
    }
}

/// The terminal state reached, given the plan that was executed and, for a
/// persisting plan, whether the directory was created and both files were
/// written.
pub fn terminal_state(plan: &CertPlan, persist_succeeded: bool) -> (r: CertOutcome)
    ensures
        r == match plan {
            CertPlan::Reuse(_) => CertOutcome::Reused,
            CertPlan::GenerateAndPersist => if persist_succeeded {
                CertOutcome::GeneratedAndCached
            } else {
                CertOutcome::GeneratedEphemeral
            },
            CertPlan::GenerateEphemeral => CertOutcome::GeneratedEphemeral,
        },
{
    match plan {
        CertPlan::Reuse(_) => CertOutcome::Reused,
        CertPlan::GenerateAndPersist => if persist_succeeded {
            CertOutcome::GeneratedAndCached
        } else {
            CertOutcome::GeneratedEphemeral
        },
        CertPlan::GenerateEphemeral => CertOutcome::GeneratedEphemeral,
    }
}

/// Relies on `rcgen::generate_simple_self_signed`: a fresh self-signed
/// certificate for the single subject name `localhost`, returned as
/// DER-encoded certificate bytes (`Certificate::der`) and the DER-encoded
/// private key (`KeyPair::serialize_der`). The key material is random, so
/// nothing is promised of the bytes.
#[verifier::external_body]
fn generate_self_signed_localhost() -> (r: Result<Certificate, CertError>) {
    match rcgen::generate_simple_self_signed(vec![String::from("localhost")]) {
        Ok(pair) => Ok(
            Certificate {
                certificate: pair.cert.der().to_vec(),
                private_key: pair.signing_key.serialize_der(),
            },
        ),
        Err(error) => Err(CertError { message: format!("{}", error) }),
    }
}

/// Generate a fresh certificate/key pair, kept in memory.
pub fn generate() -> (r: Result<Certificate, CertError>) {
    generate_self_signed_localhost()
}

/// Obtain a certificate for the probed cache state. Returns the pair to
/// serve with, and whether the caller should persist it to the cache
/// directory. Reuse of a cached pair never fails; only fresh generation
/// can.
pub fn certificate(probe: CacheProbe) -> (r: Result<(Certificate, bool), CertError>)
    ensures
        match spec_plan(probe) {
            CertPlan::Reuse(c) => r matches Ok(p) && p.0 == c && p.1 == false,
            CertPlan::GenerateAndPersist => r matches Ok(p) ==> p.1 == true,
            CertPlan::GenerateEphemeral => r matches Ok(p) ==> p.1 == false,
        },
{
    match certificate_plan(probe) {
        CertPlan::Reuse(c) => Ok((c, false)),
        CertPlan::GenerateAndPersist => match generate() {
            Ok(c) => Ok((c, true)),
            Err(e) => Err(e),
        },
        CertPlan::GenerateEphemeral => match generate() {
            Ok(c) => Ok((c, false)),
            Err(e) => Err(e),
        },
    }
}

/// Re-probing a cache that holds exactly the bytes a previous call served
/// resolves to reuse of those same bytes: the second of two acquisitions
/// against the same intact cache yields an identical pair.
pub proof fn lemma_cache_reuse(cert_bytes: Vec<u8>, key_bytes: Vec<u8>)
    ensures
        spec_plan(
            CacheProbe::Dir {
                certificate: ReadOutcome::Found(cert_bytes),
                private_key: ReadOutcome::Found(key_bytes),
            },
        ) == CertPlan::Reuse(Certificate { certificate: cert_bytes, private_key: key_bytes }),
{
}

} // verus!
