use vstd::prelude::*;
use vstd::string::StringExecFns;

verus! {

use crate::text::trim_end_string;
use crate::text::trimmed_end;

/// Where the served endpoints' bearer token comes from: a token file
/// path, or nothing when authentication is switched off.
#[derive(Debug, PartialEq, Clone)]
pub struct BearerConfig {
    pub path: Option<String>,
}

impl Default for BearerConfig {
    /// Without configuration, authentication is off.
    fn default() -> (r: Self)
        ensures
            r.path is None,
    {
        BearerConfig { path: None }
    }
}

/// Why a request was turned away, or why it could not be checked.
#[derive(Debug, Clone, Copy, PartialEq, Eq, Structural)]
pub enum BearerResponseError {
    ConfigRead,
    ConfigMissing,
    MissingAuthHeader,
    BearerMissmatch,
}

impl BearerResponseError {
    /// The HTTP status served for this failure: configuration
    /// troubles are the server's fault, the rest is unauthorized.
    pub fn status_code(&self) -> (r: u16)
        ensures
            match self {
                BearerResponseError::ConfigMissing => r == 500,
                BearerResponseError::ConfigRead => r == 500,
                BearerResponseError::MissingAuthHeader => r == 401,
                BearerResponseError::BearerMissmatch => r == 401,
            },
    {
        match self {
            BearerResponseError::ConfigMissing => 500,
            BearerResponseError::ConfigRead => 500,
            BearerResponseError::MissingAuthHeader => 401,
            BearerResponseError::BearerMissmatch => 401,
        }
    }
}

/// Proof that a request carried the configured bearer token.
#[derive(Debug, PartialEq)]
pub struct Bearer;

/// The Authorization value a token file's contents demand: the
/// literal `Bearer ` prefix, then the contents, with trailing
/// whitespace trimmed.
pub fn token_header(contents: &str) -> (r: String)
    ensures
        r@ == trimmed_end("Bearer "@ + contents@),
{
    let mut s: String = "Bearer ".to_owned();
    s.append(contents);
    trim_end_string(s.as_str())
}

impl Bearer {
    /// Checks a request's Authorization header against the expected
    /// value: a missing header and a mismatch are both turned away.
    /// The caller reads the token file and extracts the header.
    #[verifier::loop_isolation(false)]
    pub fn check(expected: &String, header: Option<&Vec<u8>>) -> (r: Result<
        Bearer,
        BearerResponseError,
    >)
        ensures
            match header {
                None => r == Err::<Bearer, BearerResponseError>(
                    BearerResponseError::MissingAuthHeader,
                ),
                Some(h) => if h@ == vstd::utf8::encode_utf8(expected@) {
                    r == Ok::<Bearer, BearerResponseError>(Bearer)
                } else {
                    r == Err::<Bearer, BearerResponseError>(
                        BearerResponseError::BearerMissmatch,
                    )
                },
            },
    {
        let h = match header {
            None => {
                return Err(BearerResponseError::MissingAuthHeader);
            },
            Some(h) => h,
        };
        let expected_bytes: &[u8] = expected.as_str().as_bytes();
        if h.len() != expected_bytes.len() {
            return Err(BearerResponseError::BearerMissmatch);
        }
        let n = h.len();
        let mut i: usize = 0;
        while i < n
            invariant
                0 <= i <= n,
                n == h@.len(),
                n == expected_bytes@.len(),
                expected_bytes@ == vstd::utf8::encode_utf8(expected@),
                forall|j: int| 0 <= j < i ==> h@[j] == expected_bytes@[j],
            decreases n - i,
        {
            if h[i] != expected_bytes[i] {
                return Err(BearerResponseError::BearerMissmatch);
            }
            i = i + 1;
        }
        proof {
            assert(h@ =~= expected_bytes@);
        }
        Ok(Bearer)
    }
}

} // verus!
