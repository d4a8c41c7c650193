//! The authorization gate: bearer tokens with revocation and scope checks,
//! raw keys against stored hashes, and the key management requests.

use vstd::prelude::*;

use crate::api_key::{
    argon2_verdict, extract_prefix, generate_key, hash_key, in_charset, is_key_prefix, lemma_key_prefix_unique,
    verify_key, KEY_LEN, KEY_TAG, PREFIX_LEN,
};
use crate::error::KohakuError;
use crate::jwt::{
    has_scope, issued_token, kind_rules_hold, now_secs, now_timestamp, revocation_expiry, revoked_at, revoked_with, JWTService, ACCESS_SECS, BOOTSTRAP_SECS,
    MANAGE_SCOPE, REFRESH_SECS,
};
use crate::models::{
    scopes_view, ApiKey, Claims, CreateKeyRequest, CreateKeyResponse, NewApiKey, TokenResponse,
    TokenType,
};
use crate::text::{chars_of, clone_strings, count_char, starts_with, str_eq, str_starts_with, string_of_range};

verus! {

/// The token of an `Authorization` header value of the form `Bearer <token>`.
pub open spec fn bearer_of(h: Seq<char>) -> Option<Seq<char>> {
    if starts_with(h, "Bearer "@) {
        Some(h.subrange("Bearer "@.len() as int, h.len() as int))
    } else {
        None
    }
}

/// Every required scope is held.
pub open spec fn scopes_cover(have: Seq<Seq<char>>, required: Seq<Seq<char>>) -> bool {
    forall|i: int| 0 <= i < required.len() ==> have.contains(#[trigger] required[i])
}

/// The required scopes, where some are asked for, are all held.
pub open spec fn scopes_allowed(have: Seq<Seq<char>>, required: Option<Seq<String>>) -> bool {
    match required {
        Some(req) => scopes_cover(have, scopes_view(req)),
        None => true,
    }
}

/// The token that an `Authorization` header value carries.
pub fn bearer_token(header: &str) -> (r: Option<String>)
    ensures
        r matches Some(t) ==> bearer_of(header@) == Some(t@),
        r is None ==> bearer_of(header@) is None,
{
    if !str_starts_with(header, "Bearer ") {
        return None;
    }
    let v = chars_of(header);
    let p = chars_of("Bearer ");
    Some(string_of_range(&v, p.len(), v.len()))
}

/// Whether `have` holds every scope of `required`.
pub fn check_scopes(have: &Vec<String>, required: &Vec<String>) -> (r: bool)
    ensures
        r == scopes_cover(scopes_view(have@), scopes_view(required@)),
{
    let ghost rv = scopes_view(required@);
    let mut i: usize = 0;
    while i < required.len()
        invariant
            rv == scopes_view(required@),
            i <= required@.len(),
            forall|j: int| 0 <= j < i ==> scopes_view(have@).contains(#[trigger] rv[j]),
        decreases required.len() - i,
    {
        if !has_scope(have, required[i].as_str()) {
            assert(rv[i as int] == required@[i as int]@);
            return false;
        }
        i = i + 1;
    }
    true
}

/// Admits validated claims: refused when their identity is revoked or when a
/// required scope is missing.
pub fn authorize_claims(claims: Claims, revoked: bool, required_scopes: Option<&Vec<String>>) -> (r:
    Result<Claims, KohakuError>)
    ensures
        r is Ok <==> !revoked && scopes_allowed(
            scopes_view(claims.scopes@),
            match required_scopes {
                Some(v) => Some(v@),
                None => None,
            },
        ),
        r matches Ok(c) ==> c == claims,
        r matches Err(e) ==> e is Unauthorized,
{
    if revoked {
        return Err(KohakuError::Unauthorized(String::from_str("API Key is blacklisted / was revoked!")));
    }
    match required_scopes {
        Some(req) => {
            if !check_scopes(&claims.scopes, req) {
                return Err(
                    KohakuError::Unauthorized(String::from_str("API Key has not the required permissions!")),
                );
            }
        },
        None => {},
    }
    Ok(claims)
}

/// Authorizes a request by the bearer token in its `Authorization` header,
/// at `now`: the token must validate, its identity must not be revoked at
/// `now`, and it must hold every required scope. Every failure is
/// `Unauthorized`. Revocations expired at `now` are dropped.
pub fn check_authorization_at(
    service: &mut JWTService,
    auth_header: Option<&str>,
    required_scopes: Option<&Vec<String>>,
    now: u64,
) -> (r: Result<Claims, KohakuError>)
    requires
        old(service).wf(),
    ensures
        final(service).wf(),
        final(service).secret() == old(service).secret(),
        auth_header is None ==> r is Err,
        auth_header matches Some(h) && bearer_of(h@) is None ==> r is Err,
        r matches Ok(c) ==> scopes_allowed(
            scopes_view(c.scopes@),
            match required_scopes {
                Some(v) => Some(v@),
                None => None,
            },
        ) && !revoked_at(old(service).entries(), c.key_id, now),
        r is Ok ==> final(service).entries() == old(service).entries().filter(|e: (i32, u64)| e.1 >= now),
        r matches Err(e) ==> e is Unauthorized,
{
    let header = match auth_header {
        Some(h) => h,
        None => return Err(KohakuError::Unauthorized(String::from_str("Missing token"))),
    };
    let token = match bearer_token(header) {
        Some(t) => t,
        None => return Err(KohakuError::Unauthorized(String::from_str("Missing token"))),
    };
    let claims = match service.validate_token(token.as_str()) {
        Ok(c) => c,
        Err(_) => return Err(KohakuError::Unauthorized(String::from_str("Invalid token"))),
    };
    let revoked = service.is_blacklisted_at(claims.key_id, now);
    authorize_claims(claims, revoked, required_scopes)
}

/// Authorizes a request by its bearer token now; see
/// [`check_authorization_at`].
pub fn check_authorization(
    service: &mut JWTService,
    auth_header: Option<&str>,
    required_scopes: Option<&Vec<String>>,
) -> (r: Result<Claims, KohakuError>)
    requires
        old(service).wf(),
    ensures
        final(service).wf(),
        final(service).secret() == old(service).secret(),
        auth_header is None ==> r is Err,
        auth_header matches Some(h) && bearer_of(h@) is None ==> r is Err,
        r matches Ok(c) ==> scopes_allowed(
            scopes_view(c.scopes@),
            match required_scopes {
                Some(v) => Some(v@),
                None => None,
            },
        ) && exists|now: u64|
            #![trigger revoked_at(old(service).entries(), c.key_id, now)]
            !revoked_at(old(service).entries(), c.key_id, now) && final(service).entries() == old(
                service,
            ).entries().filter(|e: (i32, u64)| e.1 >= now),
        r matches Err(e) ==> e is Unauthorized,
{
    let t = now_timestamp();
    let now: u64 = if t < 0 {
        0
    } else {
        t as u64
    };
    check_authorization_at(service, auth_header, required_scopes, now)
}

/// An identity whose raw key has been verified.
#[derive(Debug, Clone)]
pub struct Credential {
    pub id: i32,
    pub owner: String,
    pub scopes: Vec<String>,
}

/// The identity id of the bootstrap credential.
pub const BOOTSTRAP_ID: i32 = -1;

/// A stored credential that the raw key `raw` opens: same lookup prefix, and
/// the hash verifies.
pub open spec fn key_opens(raw: Seq<char>, c: ApiKey) -> bool {
    is_key_prefix(raw, c.key_prefix@) && argon2_verdict(raw, c.hashed_key@) == Some(true)
}

/// Index of the first candidate that `raw` opens.
pub open spec fn first_opened(raw: Seq<char>, cands: Seq<ApiKey>, k: int) -> bool {
    &&& 0 <= k < cands.len()
    &&& key_opens(raw, cands[k])
    &&& forall|j: int| 0 <= j < k ==> !key_opens(raw, #[trigger] cands[j])
}

/// Some candidate is opened by `raw`.
pub open spec fn opens_some(raw: Seq<char>, cands: Seq<ApiKey>) -> bool {
    exists|k: int| first_opened(raw, cands, k)
}

/// Verifies a raw key. The configured bootstrap secret is the bootstrap
/// identity; any other key must have a lookup prefix, and the first stored
/// candidate that it opens is the identity.
pub fn check_authorization_key(raw_key: &str, bootstrap_key: &str, candidates: &Vec<ApiKey>) -> (r:
    Result<Credential, KohakuError>)
    ensures
        raw_key@ == bootstrap_key@ ==> (r matches Ok(c) && c.id == BOOTSTRAP_ID && c.owner@ == "system"@
            && scopes_view(c.scopes@) == seq![MANAGE_SCOPE@]),
        raw_key@ != bootstrap_key@ && count_char(raw_key@, '_') != 2 ==> (r matches Err(e)
            && e is ValidationError),
        raw_key@ != bootstrap_key@ && count_char(raw_key@, '_') == 2 ==> (r is Ok <==> exists|k: int|
            first_opened(raw_key@, candidates@, k)),
        raw_key@ != bootstrap_key@ ==> (r matches Ok(c) ==> exists|k: int|
            first_opened(raw_key@, candidates@, k) && c.id == candidates@[k].id && c.owner
                == candidates@[k].owner && c.scopes@ == candidates@[k].scopes@),
        raw_key@ != bootstrap_key@ && count_char(raw_key@, '_') == 2 ==> (r matches Err(e)
            ==> e is Unauthorized),
{
    if str_eq(raw_key, bootstrap_key) {
        let scopes = vec![String::from_str(MANAGE_SCOPE)];
        proof {
            assert(scopes_view(scopes@) =~= seq![MANAGE_SCOPE@]);
            reveal_strlit("system");
        }
        return Ok(Credential { id: BOOTSTRAP_ID, owner: String::from_str("system"), scopes });
    }
    let prefix = match extract_prefix(raw_key) {
        Ok(p) => p,
        Err(e) => return Err(e),
    };
    let mut k: usize = 0;
    while k < candidates.len()
        invariant
            is_key_prefix(raw_key@, prefix@),
            raw_key@ != bootstrap_key@,
            count_char(raw_key@, '_') == 2,
            k <= candidates@.len(),
            forall|j: int| 0 <= j < k ==> !key_opens(raw_key@, #[trigger] candidates@[j]),
        decreases candidates.len() - k,
    {
        let cand = &candidates[k];
        proof {
            if is_key_prefix(raw_key@, cand.key_prefix@) {
                lemma_key_prefix_unique(raw_key@, prefix@, cand.key_prefix@);
            }
        }
        if str_eq(cand.key_prefix.as_str(), prefix.as_str()) {
            match verify_key(raw_key, cand.hashed_key.as_str()) {
                Ok(true) => {
                    assert(first_opened(raw_key@, candidates@, k as int));
                    return Ok(
                        Credential {
                            id: cand.id,
                            owner: cand.owner.clone(),
                            scopes: clone_strings(&cand.scopes),
                        },
                    );
                },
                _ => {},
            }
        }
        k = k + 1;
    }
    Err(KohakuError::Unauthorized(String::from_str("Invalid API key")))
}

/// At most one candidate is the first that a key opens.
pub proof fn lemma_first_opened_unique(raw: Seq<char>, cands: Seq<ApiKey>, i: int, j: int)
    requires
        first_opened(raw, cands, i),
        first_opened(raw, cands, j),
    ensures
        i == j,
{
    if i < j {
        assert(!key_opens(raw, cands[i]));
    } else if j < i {
        assert(!key_opens(raw, cands[j]));
    }
}

/// What a login answers for the stored key `cand` at `now`: refused when
/// its identity is revoked, refused when its claims break the rules of an
/// access token, and otherwise an access and a refresh token for its owner,
/// identity and scopes.
pub open spec fn login_decided(
    r: Result<TokenResponse, KohakuError>,
    secret: Seq<u8>,
    cand: ApiKey,
    entries: Seq<(i32, u64)>,
    now: u64,
) -> bool {
    if revoked_at(entries, cand.id, now) {
        r matches Err(e) && e is Unauthorized
    } else if !kind_rules_hold(cand.id as int, scopes_view(cand.scopes@), TokenType::Access) {
        r matches Err(e) && e is ValidationError
    } else {
        r matches Ok(resp) && resp.expires_in == ACCESS_SECS && resp.token_type@ == "Bearer"@
            && resp.access_token@ == issued_token(
            secret,
            cand.owner@,
            cand.id as int,
            scopes_view(cand.scopes@),
            TokenType::Access,
            now as nat,
        ) && (resp.refresh_token matches Some(rt) && rt@ == issued_token(
            secret,
            cand.owner@,
            cand.id as int,
            scopes_view(cand.scopes@),
            TokenType::Refresh,
            now as nat,
        ))
    }
}

/// What a login with the `X-API-Key` value `api_key` answers at `now`.
pub open spec fn login_outcome(
    r: Result<TokenResponse, KohakuError>,
    api_key: Option<&str>,
    bootstrap_key: Seq<char>,
    cands: Seq<ApiKey>,
    secret: Seq<u8>,
    entries: Seq<(i32, u64)>,
    now: u64,
) -> bool {
    match api_key {
        None => r matches Err(e) && e is ValidationError,
        Some(k) => if k@ == bootstrap_key {
            r matches Ok(resp) && resp.refresh_token is None && resp.expires_in == BOOTSTRAP_SECS
                && resp.access_token@ == issued_token(
                secret,
                "system"@,
                -1,
                seq![MANAGE_SCOPE@],
                TokenType::Bootstrap,
                now as nat,
            )
        } else if count_char(k@, '_') != 2 {
            r matches Err(e) && e is ValidationError
        } else if !opens_some(k@, cands) {
            r matches Err(e) && e is Unauthorized
        } else {
            forall|i: int| #[trigger] first_opened(k@, cands, i) ==> login_decided(r, secret, cands[i], entries, now)
        },
    }
}

/// Trades a raw key for tokens at `now`: the bootstrap secret gets a
/// bootstrap token alone; a stored key that is not revoked gets an access
/// and a refresh token for its identity, owner and scopes.
pub fn login_at(
    service: &mut JWTService,
    api_key: Option<&str>,
    bootstrap_key: &str,
    candidates: &Vec<ApiKey>,
    now: u64,
) -> (r: Result<TokenResponse, KohakuError>)
    requires
        old(service).wf(),
        now + REFRESH_SECS <= u64::MAX,
    ensures
        final(service).wf(),
        final(service).secret() == old(service).secret(),
        login_outcome(r, api_key, bootstrap_key@, candidates@, old(service).secret(), old(service).entries(), now),
{
    let key = match api_key {
        Some(k) => k,
        None => return Err(KohakuError::ValidationError(String::from_str("Missing X-API-Key header"))),
    };
    let cred = match check_authorization_key(key, bootstrap_key, candidates) {
        Ok(c) => c,
        Err(e) => return Err(e),
    };
    if str_eq(key, bootstrap_key) {
        return service.create_bootstrap_token_at(now);
    }
    let ghost k = choose|k: int|
        first_opened(key@, candidates@, k) && cred.id == candidates@[k].id && cred.owner == candidates@[k].owner
            && cred.scopes@ == candidates@[k].scopes@;
    proof {
        assert forall|i: int| #[trigger] first_opened(key@, candidates@, i) implies i == k by {
            lemma_first_opened_unique(key@, candidates@, i, k);
        }
        assert(scopes_view(cred.scopes@) == scopes_view(candidates@[k].scopes@));
    }
    if service.is_blacklisted_at(cred.id, now) {
        return Err(
            KohakuError::Unauthorized(
                String::from_str("API key previously revoked. Please request a new API key!"),
            ),
        );
    }
    service.create_tokens_at(cred.id, cred.owner.as_str(), cred.scopes, now)
}

/// Trades a raw key for tokens now; only a clock outside the supported
/// range adds a failure to those of [`login_at`].
pub fn login(
    service: &mut JWTService,
    api_key: Option<&str>,
    bootstrap_key: &str,
    candidates: &Vec<ApiKey>,
) -> (r: Result<TokenResponse, KohakuError>)
    requires
        old(service).wf(),
    ensures
        final(service).wf(),
        final(service).secret() == old(service).secret(),
        (r matches Err(e) && e is InternalServerError) || exists|now: u64|
            #[trigger] login_outcome(
                r,
                api_key,
                bootstrap_key@,
                candidates@,
                old(service).secret(),
                old(service).entries(),
                now,
            ),
{
    let now = match now_secs() {
        Ok(n) => n,
        Err(e) => return Err(e),
    };
    login_at(service, api_key, bootstrap_key, candidates, now)
}

/// What a refresh answers for validated claims at `now`: only a refresh
/// token is traded, for an access token with the same owner, identity and
/// scopes.
pub open spec fn refresh_outcome(r: Result<TokenResponse, KohakuError>, claims: Claims, secret: Seq<u8>, now: u64) -> bool {
    if claims.token_type != TokenType::Refresh || !kind_rules_hold(
        claims.key_id as int,
        scopes_view(claims.scopes@),
        TokenType::Access,
    ) {
        r matches Err(e) && e is ValidationError
    } else {
        r matches Ok(resp) && resp.refresh_token is None && resp.expires_in == ACCESS_SECS && resp.token_type@
            == "Bearer"@ && resp.access_token@ == issued_token(
            secret,
            claims.owner@,
            claims.key_id as int,
            scopes_view(claims.scopes@),
            TokenType::Access,
            now as nat,
        )
    }
}

/// Trades validated claims of a refresh token for an access token issued at
/// `now`.
pub fn refresh_claims_at(service: &JWTService, claims: Claims, now: u64) -> (r: Result<TokenResponse, KohakuError>)
    requires
        now + REFRESH_SECS <= u64::MAX,
    ensures
        refresh_outcome(r, claims, service.secret(), now),
{
    proof {
        reveal_strlit("Bearer");
    }
    match claims.token_type {
        TokenType::Refresh => {},
        _ => return Err(KohakuError::ValidationError(String::from_str("Invalid token type"))),
    }
    let token = match service.create_token_at(claims.owner, claims.key_id, claims.scopes, TokenType::Access, now) {
        Ok(t) => t,
        Err(e) => return Err(e),
    };
    Ok(
        TokenResponse {
            access_token: token,
            refresh_token: None,
            token_type: String::from_str("Bearer"),
            expires_in: ACCESS_SECS,
        },
    )
}

/// Trades a valid refresh token in an `Authorization` header for a new
/// access token.
pub fn refresh(service: &mut JWTService, auth_header: Option<&str>) -> (r: Result<TokenResponse, KohakuError>)
    requires
        old(service).wf(),
    ensures
        final(service).wf(),
        final(service).secret() == old(service).secret(),
        auth_header is None ==> r is Err,
        r is Ok ==> exists|c: Claims, now: u64|
            c.token_type == TokenType::Refresh && #[trigger] refresh_outcome(r, c, old(service).secret(), now),
{
    let claims = match check_authorization(service, auth_header, None) {
        Ok(c) => c,
        Err(e) => return Err(e),
    };
    let now = match now_secs() {
        Ok(n) => n,
        Err(e) => return Err(e),
    };
    let ghost c = claims;
    let r = refresh_claims_at(service, claims, now);
    assert(r is Ok ==> c.token_type == TokenType::Refresh);
    r
}

/// Whether some scope belongs to the reserved `keys` category.
pub open spec fn has_reserved_scope(scopes: Seq<Seq<char>>) -> bool {
    exists|i: int| 0 <= i < scopes.len() && starts_with(#[trigger] scopes[i], "keys"@)
}

/// Refuses scopes of the reserved `keys` category for a stored key.
pub fn check_key_scopes(scopes: &Vec<String>) -> (r: Result<(), KohakuError>)
    ensures
        r is Err <==> has_reserved_scope(scopes_view(scopes@)),
        r matches Err(e) ==> e is ValidationError,
{
    let ghost sv = scopes_view(scopes@);
    let mut i: usize = 0;
    while i < scopes.len()
        invariant
            sv == scopes_view(scopes@),
            i <= scopes@.len(),
            forall|j: int| 0 <= j < i ==> !starts_with(#[trigger] sv[j], "keys"@),
        decreases scopes.len() - i,
    {
        if str_starts_with(scopes[i].as_str(), "keys") {
            assert(sv[i as int] == scopes@[i as int]@);
            return Err(
                KohakuError::ValidationError(
                    String::from_str(
                        "Illegal Argument: Any scope of the category `key` is not allowed for general API keys!",
                    ),
                ),
            );
        }
        i = i + 1;
    }
    Ok(())
}

/// A lookup of stored keys names an id, a prefix, or both.
pub fn check_key_filter(id: Option<i32>, key_prefix: Option<&str>) -> (r: Result<(), KohakuError>)
    ensures
        r is Err <==> id is None && key_prefix is None,
        r matches Err(e) ==> e is ValidationError,
{
    if id.is_none() && key_prefix.is_none() {
        return Err(
            KohakuError::ValidationError(
                String::from_str(
                    "Illegal Argument: At least one of the parameters - `id` and/or `key_prefix` must be set!",
                ),
            ),
        );
    }
    Ok(())
}

/// Creates a key for a request authorized with the management scope: the
/// raw key for the caller, and the record to store, which holds its hash.
pub fn create_key(service: &mut JWTService, auth_header: Option<&str>, body: &CreateKeyRequest) -> (r:
    Result<(CreateKeyResponse, NewApiKey), KohakuError>)
    requires
        old(service).wf(),
    ensures
        final(service).wf(),
        final(service).secret() == old(service).secret(),
        auth_header is None ==> r is Err,
        r matches Ok((resp, rec)) ==> {
            &&& is_key_prefix(resp.api_key@, rec.key_prefix@)
            &&& resp.api_key@.len() == KEY_LEN
            &&& rec.hashed_key@ != resp.api_key@
            &&& rec.key_prefix@.len() == PREFIX_LEN
            &&& resp.api_key@.subrange(0, 4) == KEY_TAG@
            &&& count_char(resp.api_key@, '_') == 2
            &&& forall|i: int| 4 <= i < KEY_LEN && i != PREFIX_LEN ==> in_charset(#[trigger] resp.api_key@[i])
            &&& argon2_verdict(resp.api_key@, rec.hashed_key@) == Some(true)
            &&& rec.owner == body.owner
            &&& rec.scopes@ == body.scopes@
            &&& resp.scopes@ == body.scopes@
            &&& !has_reserved_scope(scopes_view(body.scopes@))
        },
{
    let required = vec![String::from_str(MANAGE_SCOPE)];
    match check_authorization(service, auth_header, Some(&required)) {
        Ok(_) => {},
        Err(e) => return Err(e),
    }
    if has_scope(&body.scopes, MANAGE_SCOPE) {
        return Err(
            KohakuError::ValidationError(
                String::from_str("Invalid key scope: keys:manage is bootstrap key exclusive!"),
            ),
        );
    }
    match check_key_scopes(&body.scopes) {
        Ok(()) => {},
        Err(e) => return Err(e),
    }
    let (key, prefix) = generate_key();
    let hashed_key = match hash_key(key.as_str()) {
        Ok(h) => h,
        Err(e) => return Err(e),
    };
    proof {
        crate::api_key::lemma_charset_facts();
        assert(key@[0] == KEY_TAG@[0]);
        assert(hashed_key@[0] != key@[0]);
    }
    let rec = NewApiKey {
        hashed_key,
        key_prefix: prefix,
        owner: body.owner.clone(),
        scopes: clone_strings(&body.scopes),
    };
    let resp = CreateKeyResponse { api_key: key, scopes: clone_strings(&body.scopes) };
    Ok((resp, rec))
}

/// Revokes, at `now`, the stored key that `api_key` opens: its identity is
/// blacklisted for the default duration and its id is returned so that the
/// record can be deleted. A key without a lookup prefix is a validation
/// error; a key that opens no candidate is `NotFound`, and nothing changes.
pub fn revoke_matching_at(service: &mut JWTService, api_key: &str, candidates: &Vec<ApiKey>, now: u64) -> (r: Result<
    i32,
    KohakuError,
>)
    requires
        old(service).wf(),
    ensures
        final(service).wf(),
        final(service).secret() == old(service).secret(),
        count_char(api_key@, '_') != 2 ==> (r matches Err(e) && e is ValidationError) && final(service).entries()
            == old(service).entries(),
        count_char(api_key@, '_') == 2 && !opens_some(api_key@, candidates@) ==> (r matches Err(e) && e is NotFound)
            && final(service).entries() == old(service).entries(),
        forall|i: int| #[trigger] first_opened(api_key@, candidates@, i) && count_char(api_key@, '_') == 2 ==> r == Ok::<
            i32,
            KohakuError,
        >(candidates@[i].id)
            && revoked_with(old(service).entries(), final(service).entries(), candidates@[i].id, revocation_expiry(None, now)),
{
    let prefix = match extract_prefix(api_key) {
        Ok(p) => p,
        Err(e) => return Err(e),
    };
    let mut k: usize = 0;
    while k < candidates.len()
        invariant
            is_key_prefix(api_key@, prefix@),
            count_char(api_key@, '_') == 2,
            k <= candidates@.len(),
            forall|j: int| 0 <= j < k ==> !key_opens(api_key@, #[trigger] candidates@[j]),
            *service == *old(service),
            service.wf(),
        decreases candidates.len() - k,
    {
        let cand = &candidates[k];
        proof {
            if is_key_prefix(api_key@, cand.key_prefix@) {
                lemma_key_prefix_unique(api_key@, prefix@, cand.key_prefix@);
            }
        }
        if str_eq(cand.key_prefix.as_str(), prefix.as_str()) {
            match verify_key(api_key, cand.hashed_key.as_str()) {
                Ok(true) => {
                    assert(first_opened(api_key@, candidates@, k as int));
                    proof {
                        assert forall|i: int| #[trigger] first_opened(api_key@, candidates@, i) implies i == k by {
                            lemma_first_opened_unique(api_key@, candidates@, i, k as int);
                        }
                    }
                    let id = cand.id;
                    service.blacklist_key_at(id, None, now);
                    return Ok(id);
                },
                _ => {},
            }
        }
        k = k + 1;
    }
    proof {
        assert forall|i: int| !#[trigger] first_opened(api_key@, candidates@, i) by {
            if first_opened(api_key@, candidates@, i) {
                assert(!key_opens(api_key@, candidates@[i]));
            }
        }
    }
    Err(KohakuError::NotFound(String::from_str("API key could not be found!")))
}

/// Revokes the stored key that `api_key` opens, for a request authorized with
/// the management scope; see [`revoke_matching_at`].
pub fn revoke_key(
    service: &mut JWTService,
    auth_header: Option<&str>,
    api_key: &str,
    candidates: &Vec<ApiKey>,
) -> (r: Result<i32, KohakuError>)
    requires
        old(service).wf(),
    ensures
        final(service).wf(),
        final(service).secret() == old(service).secret(),
        auth_header is None ==> r is Err,
        r matches Err(e) && e is NotFound ==> !opens_some(api_key@, candidates@),
        r matches Ok(id) ==> exists|k: int|
            first_opened(api_key@, candidates@, k) && #[trigger] candidates@[k].id == id,
        r matches Ok(id) ==> final(service).entries().map_values(|e: (i32, u64)| e.0).contains(id),
{
    let required = vec![String::from_str(MANAGE_SCOPE)];
    match check_authorization(service, auth_header, Some(&required)) {
        Ok(_) => {},
        Err(e) => return Err(e),
    }
    let t = now_timestamp();
    if t < 0 {
        return Err(KohakuError::InternalServerError(String::from_str("System clock out of range")));
    }
    let ghost before = service.entries();
    let r = revoke_matching_at(service, api_key, candidates, t as u64);
    proof {
        if let Ok(id) = r {
            if count_char(api_key@, '_') == 2 && opens_some(api_key@, candidates@) {
                let k = choose|k: int| first_opened(api_key@, candidates@, k);
                let ids = service.entries().map_values(|e: (i32, u64)| e.0);
                let e = (id, revocation_expiry(None, t as u64));
                assert(service.entries().contains(e));
                let m = choose|m: int| 0 <= m < service.entries().len() && service.entries()[m] == e;
                assert(ids[m] == id);
            }
        }
    }
    r
}

} // verus!
