//! Credential records handed to the upstream fetch collaborator. The
//! rendering core never reads them; they only travel from the caller's
//! secret storage to the API client that fetches posts.

use vstd::prelude::*;

verus! {

/// The API credentials for the upstream service.
#[derive(Clone, Debug, PartialEq, Eq)]
pub struct TwitterSecrets {
    pub api_key: String,
    pub api_key_secret: String,
    pub bearer_token: String,
}

/// The full secret record: upstream credentials and a marker key whose
/// presence shows that decryption of the secret store worked.
#[derive(Clone, Debug, PartialEq, Eq)]
pub struct Secrets {
    pub twitter: TwitterSecrets,
    pub test_key: String,
}

} // verus!
