use vstd::prelude::*;

verus! {

/// Kind of a signed token.
#[derive(Debug, Clone, Copy, PartialEq, Eq, Structural)]
pub enum TokenType {
    /// Key management token of the bootstrap credential.
    Bootstrap,
    /// Short-lived token for ordinary requests.
    Access,
    /// Long-lived token that can be traded for a new access token.
    Refresh,
}

/// The claims that a signed token carries.
#[derive(Debug, Clone)]
pub struct Claims {
    /// Which service or user the credential belongs to.
    pub owner: String,
    /// Identity id of the credential; `-1` is the bootstrap credential.
    pub key_id: i32,
    /// Permission scopes, each of the form `category:verb`.
    pub scopes: Vec<String>,
    pub token_type: TokenType,
    /// Expiry, in seconds since the Unix epoch.
    pub exp: u64,
    /// Issue time, in seconds since the Unix epoch.
    pub iat: u64,
}

/// What a token request answers.
#[derive(Debug, Clone)]
pub struct TokenResponse {
    pub access_token: String,
    pub refresh_token: Option<String>,
    pub token_type: String,
    /// Lifetime of the access token, in seconds.
    pub expires_in: u64,
}

/// A stored credential. Only the hash of the secret is kept.
#[derive(Debug, Clone)]
pub struct ApiKey {
    pub id: i32,
    pub hashed_key: String,
    /// Lookup prefix of the key; several keys may share one.
    pub key_prefix: String,
    pub owner: String,
    pub scopes: Vec<String>,
    /// Creation time, in seconds since the Unix epoch.
    pub created_at: i64,
}

/// A credential about to be stored.
#[derive(Debug, Clone)]
pub struct NewApiKey {
    pub hashed_key: String,
    pub key_prefix: String,
    pub owner: String,
    pub scopes: Vec<String>,
}

/// Body of a key creation request.
#[derive(Debug, Clone)]
pub struct CreateKeyRequest {
    pub owner: String,
    pub scopes: Vec<String>,
}

/// Answer to a key creation request: the raw key, shown once.
#[derive(Debug, Clone)]
pub struct CreateKeyResponse {
    pub api_key: String,
    pub scopes: Vec<String>,
}

/// Body of a key revocation request.
#[derive(Debug, Clone)]
pub struct RevokeKeyRequest {
    pub api_key: String,
}

/// Body of a refresh request.
#[derive(Debug, Clone)]
pub struct RefreshRequest {
    pub refresh_token: String,
}

/// The characters of each scope.
pub open spec fn scopes_view(v: Seq<String>) -> Seq<Seq<char>> {
    v.map_values(|s: String| s@)
}

} // verus!
