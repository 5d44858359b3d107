//! Pushing a binary to a bootstrapper: a request carries the payload with
//! its SHA-256 digest, and the bootstrapper deploys only a payload whose
//! digest matches.

use sha2::{Digest, Sha256};
use vstd::prelude::*;

verus! {

/// The SHA-256 digest of `data`.
pub uninterp spec fn sha256_digest(data: Seq<u8>) -> Seq<u8>;

/// `sha2::Sha256::digest`: the SHA-256 digest of `data`, which depends on
/// `data` alone. What the digest is, beyond that, is not stated.
#[verifier::external_body]
fn sha256(data: &[u8]) -> (r: [u8; 32])
    ensures
        r@ == sha256_digest(data@),
{
    Sha256::digest(data).into()
}

/// A binary to deploy, the digest it should have, the arguments to launch
/// it with, and what to feed its standard input.
pub struct PushBinaryRequest {
    pub sha256: [u8; 32],
    pub payload: Vec<u8>,
    pub run_args: Vec<String>,
    pub stdin_payload: Vec<u8>,
}

impl PushBinaryRequest {
    /// A request for `payload`, carrying its digest.
    pub fn for_payload(payload: Vec<u8>, run_args: Vec<String>, stdin_payload: Vec<u8>) -> (r:
        PushBinaryRequest)
        ensures
            r.sha256@ == sha256_digest(payload@),
            r.payload == payload,
            r.run_args == run_args,
            r.stdin_payload == stdin_payload,
    {
        let sha256 = sha256(payload.as_slice());
        PushBinaryRequest { sha256, payload, run_args, stdin_payload }
    }
}

/// Whether two digests are the same bytes.
fn same_digest(a: &[u8; 32], b: &[u8; 32]) -> (r: bool)
    ensures
        r == (a@ == b@),
{
    let mut i: usize = 0;
    while i < 32
        invariant
            0 <= i <= 32,
            a@.len() == 32,
            b@.len() == 32,
            forall|k: int| 0 <= k < i ==> a@[k] == b@[k],
        decreases 32 - i,
    {
        if a[i] != b[i] {
            return false;
        }
        i = i + 1;
    }
    assert(a@ =~= b@);
    true
}

/// Check a push before deploying it: the payload must have the digest the
/// request carries.
pub fn verify_push(request: &PushBinaryRequest) -> (r: Result<(), String>)
    ensures
        r is Ok <==> sha256_digest(request.payload@) == request.sha256@,
        r matches Err(e) ==> e@ == "SHA-256 mismatch"@,
{
    let computed = sha256(request.payload.as_slice());
    if same_digest(&computed, &request.sha256) {
        Ok(())
    } else {
        Err(String::from_str("SHA-256 mismatch"))
    }
}

/// What the bootstrapper answers once the binary is up, with the status
/// line the binary printed.
pub fn deployed_message(confirmation: &str) -> (r: String)
    ensures
        r@ == "Deployed successfully: "@ + confirmation@,
{
    let mut m = String::from_str("Deployed successfully: ");
    m.append(confirmation);
    m
}

} // verus!
