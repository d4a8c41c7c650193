//! Issuing and validating signed tokens, and the revocation list.

use vstd::prelude::*;

use crate::error::KohakuError;
use crate::models::{scopes_view, Claims, TokenResponse, TokenType};
use crate::payload::{claims_json, claims_text, parse_claims, payload_of, render_claims, same_claims};
use crate::text::{chars_of, clone_strings, str_eq};

verus! {

broadcast use vstd::seq_lib::group_filter_ensures, Seq::lemma_filter_contains_rev;

/// The scope that only the bootstrap credential holds.
pub const MANAGE_SCOPE: &'static str = "keys:manage";

/// Lifetime of a bootstrap token, in seconds.
pub const BOOTSTRAP_SECS: u64 = 600;

/// Lifetime of an access token, in seconds.
pub const ACCESS_SECS: u64 = 900;

/// Lifetime of a refresh token, in seconds.
pub const REFRESH_SECS: u64 = 2592000;

/// How long a revocation lasts when no duration is given, in seconds.
pub const DEFAULT_REVOCATION_SECS: u64 = 1800;

/// Lifetime of a token of kind `t`.
pub open spec fn lifetime(t: TokenType) -> nat {
    match t {
        TokenType::Bootstrap => BOOTSTRAP_SECS as nat,
        TokenType::Access => ACCESS_SECS as nat,
        TokenType::Refresh => REFRESH_SECS as nat,
    }
}

/// The rules that claims of each kind obey: the bootstrap kind belongs to
/// identity `-1` with exactly the management scope; every other kind belongs
/// to an identity `>= 0` without it.
pub open spec fn kind_rules_hold(key_id: int, scopes: Seq<Seq<char>>, t: TokenType) -> bool {
    match t {
        TokenType::Bootstrap => key_id == -1 && scopes.len() > 0 && forall|i: int|
            0 <= i < scopes.len() ==> #[trigger] scopes[i] == MANAGE_SCOPE@,
        _ => key_id >= 0 && !scopes.contains(MANAGE_SCOPE@),
    }
}

/// The token that HS256 signing with `secret`, under the default header,
/// gives for the payload text `payload`.
pub uninterp spec fn hs256_token(secret: Seq<u8>, payload: Seq<char>) -> Seq<char>;

/// The token signed with `secret` for claims of kind `t` issued at `now`.
pub open spec fn issued_token(
    secret: Seq<u8>,
    owner: Seq<char>,
    key_id: int,
    scopes: Seq<Seq<char>>,
    t: TokenType,
    now: nat,
) -> Seq<char> {
    hs256_token(secret, claims_text(owner, key_id, scopes, t, now + lifetime(t), now))
}

/// Whether `p` is the payload text of some claims; such a text is valid
/// JSON.
pub open spec fn is_claims_text(p: Seq<char>) -> bool {
    exists|c: Claims| #[trigger] claims_json(c) == p
}

/// Relies on `jsonwebtoken::encode` with the default header (HS256) and
/// `EncodingKey::from_secret`; the payload goes in as raw JSON text
/// (`serde_json::value::RawValue`), so the signed payload is that text.
/// `RawValue::from_string` accepts valid JSON, and HS256 signing with a
/// secret key does not fail.
#[verifier::external_body]
fn jwt_sign(secret: &Vec<u8>, payload: &str) -> (r: Result<String, String>)
    requires
        is_claims_text(payload@),
    ensures
        r is Ok,
        r matches Ok(t) ==> t@ == hs256_token(secret@, payload@),
{
    let raw = serde_json::value::RawValue::from_string(payload.to_string()).map_err(|e| e.to_string())?;
    let key = jsonwebtoken::EncodingKey::from_secret(secret.as_slice());
    jsonwebtoken::encode(&jsonwebtoken::Header::default(), &raw, &key).map_err(|e| e.to_string())
}

/// Relies on `jsonwebtoken::decode` with `Validation::default()` (HS256,
/// expiry checked against the clock) and `DecodingKey::from_secret`: the
/// payload text of a token whose signature and expiry hold.
#[verifier::external_body]
fn jwt_open(secret: &Vec<u8>, token: &str) -> (r: Result<String, String>) {
    let key = jsonwebtoken::DecodingKey::from_secret(secret.as_slice());
    jsonwebtoken::decode::<Box<serde_json::value::RawValue>>(token, &key, &jsonwebtoken::Validation::default())
        .map(|data| data.claims.get().to_string())
        .map_err(|e| e.to_string())
}

/// Relies on `chrono::Utc::now`: the current time in seconds since the Unix
/// epoch. Nothing is known of the value.
#[verifier::external_body]
pub fn now_timestamp() -> (r: i64) {
    chrono::Utc::now().timestamp()
}

/// The current time as an unsigned count of seconds, where the clock gives
/// one that leaves room for the longest token lifetime.
pub fn now_secs() -> (r: Result<u64, KohakuError>)
    ensures
        r matches Ok(n) ==> n + REFRESH_SECS <= u64::MAX,
        r matches Err(e) ==> e is InternalServerError,
{
    let t = now_timestamp();
    if t < 0 || t as u64 > u64::MAX - REFRESH_SECS {
        Err(KohakuError::InternalServerError(String::from_str("System clock out of range")))
    } else {
        Ok(t as u64)
    }
}

/// Whether `scopes` holds `scope`.
pub fn has_scope(scopes: &Vec<String>, scope: &str) -> (r: bool)
    ensures
        r == scopes_view(scopes@).contains(scope@),
{
    let ghost sv = scopes_view(scopes@);
    let mut i: usize = 0;
    while i < scopes.len()
        invariant
            sv == scopes_view(scopes@),
            i <= scopes@.len(),
            forall|j: int| 0 <= j < i ==> sv[j] != scope@,
        decreases scopes.len() - i,
    {
        if str_eq(scopes[i].as_str(), scope) {
            assert(sv[i as int] == scope@);
            return true;
        }
        i = i + 1;
    }
    false
}

/// Whether claims of kind `t` obey the rules of their kind.
pub fn check_kind_rules(key_id: i32, scopes: &Vec<String>, t: TokenType) -> (r: bool)
    ensures
        r == kind_rules_hold(key_id as int, scopes_view(scopes@), t),
{
    let ghost sv = scopes_view(scopes@);
    match t {
        TokenType::Bootstrap => {
            if key_id != -1 || scopes.len() == 0 {
                return false;
            }
            let mut k: usize = 0;
            while k < scopes.len()
                invariant
                    sv == scopes_view(scopes@),
                    t == TokenType::Bootstrap,
                    key_id == -1,
                    sv.len() > 0,
                    k <= scopes@.len(),
                    forall|j: int| 0 <= j < k ==> #[trigger] sv[j] == MANAGE_SCOPE@,
                decreases scopes.len() - k,
            {
                if !str_eq(scopes[k].as_str(), MANAGE_SCOPE) {
                    assert(sv[k as int] == scopes@[k as int]@);
                    return false;
                }
                k = k + 1;
            }
            true
        },
        _ => key_id >= 0 && !has_scope(scopes, MANAGE_SCOPE),
    }
}

/// The lifetime of a token of kind `t`.
pub fn token_lifetime(t: TokenType) -> (r: u64)
    ensures
        r == lifetime(t),
{
    match t {
        TokenType::Bootstrap => BOOTSTRAP_SECS,
        TokenType::Access => ACCESS_SECS,
        TokenType::Refresh => REFRESH_SECS,
    }
}

/// No two revocation entries name the same identity.
pub open spec fn unique_ids(s: Seq<(i32, u64)>) -> bool {
    forall|i: int, j: int| 0 <= i < j < s.len() ==> #[trigger] s[i].0 != #[trigger] s[j].0
}

/// Whether `s` holds a revocation of `id` that is still in force at `now`.
pub open spec fn revoked_at(s: Seq<(i32, u64)>, id: i32, now: u64) -> bool {
    exists|i: int| 0 <= i < s.len() && #[trigger] s[i].0 == id && s[i].1 >= now
}

/// Issues and validates signed tokens, and keeps the revocation list: an
/// expiry time for each revoked identity.
pub struct JWTService {
    secret: Vec<u8>,
    blacklist: Vec<(i32, u64)>,
}

impl JWTService {
    /// The signing secret.
    pub closed spec fn secret(&self) -> Seq<u8> {
        self.secret@
    }

    /// The revocation entries: identity id and expiry.
    pub closed spec fn entries(&self) -> Seq<(i32, u64)> {
        self.blacklist@
    }

    pub open spec fn wf(&self) -> bool {
        unique_ids(self.entries())
    }

    /// A service that signs with `encryption_key` and has revoked nothing.
    pub fn new(encryption_key: &[u8]) -> (r: Self)
        ensures
            r.secret() == encryption_key@,
            r.entries().len() == 0,
            r.wf(),
    {
        let mut secret: Vec<u8> = Vec::new();
        let mut i: usize = 0;
        while i < encryption_key.len()
            invariant
                i <= encryption_key@.len(),
                secret@ == encryption_key@.subrange(0, i as int),
            decreases encryption_key.len() - i,
        {
            secret.push(encryption_key[i]);
            i = i + 1;
            assert(secret@ =~= encryption_key@.subrange(0, i as int));
        }
        assert(secret@ =~= encryption_key@);
        JWTService { secret, blacklist: Vec::new() }
    }

    /// Signs claims of kind `token_type` issued at `now`. Claims that break
    /// the rules of their kind are refused before anything is signed; all
    /// others are signed.
    pub fn create_token_at(
        &self,
        owner: String,
        key_id: i32,
        scopes: Vec<String>,
        token_type: TokenType,
        now: u64,
    ) -> (r: Result<String, KohakuError>)
        requires
            now + REFRESH_SECS <= u64::MAX,
        ensures
            !kind_rules_hold(key_id as int, scopes_view(scopes@), token_type) ==> (r matches Err(e)
                && e is ValidationError),
            kind_rules_hold(key_id as int, scopes_view(scopes@), token_type) ==> (r matches Ok(t) && t@
                == issued_token(self.secret(), owner@, key_id as int, scopes_view(scopes@), token_type, now as nat)),
    {
        if !check_kind_rules(key_id, &scopes, token_type) {
            return Err(
                KohakuError::ValidationError(
                    String::from_str(
                        "Claims break the rules of their token kind: `keys:manage` belongs to the bootstrap identity alone",
                    ),
                ),
            );
        }
        let claims = Claims {
            owner,
            key_id,
            scopes,
            token_type,
            exp: now + token_lifetime(token_type),
            iat: now,
        };
        let payload = render_claims(&claims);
        assert(claims_json(claims) == payload@);
        match jwt_sign(&self.secret, payload.as_str()) {
            Ok(t) => Ok(t),
            Err(msg) => Err(KohakuError::InternalServerError(msg)),
        }
    }

    /// Signs claims of kind `token_type` issued now. Besides the rules of the
    /// kind, only a clock outside the supported range makes it fail.
    pub fn create_token(
        &self,
        owner: String,
        key_id: i32,
        scopes: Vec<String>,
        token_type: TokenType,
    ) -> (r: Result<String, KohakuError>)
        ensures
            !kind_rules_hold(key_id as int, scopes_view(scopes@), token_type) ==> r is Err,
            kind_rules_hold(key_id as int, scopes_view(scopes@), token_type) ==> (r is Ok || (r matches Err(e)
                && e is InternalServerError)),
            r matches Ok(t) ==> exists|now: u64|
                t@ == #[trigger] issued_token(self.secret(), owner@, key_id as int, scopes_view(scopes@), token_type, now as nat),
    {
        let now = match now_secs() {
            Ok(n) => n,
            Err(e) => return Err(e),
        };
        self.create_token_at(owner, key_id, scopes, token_type, now)
    }

    /// The bootstrap token issued at `now`: owner `system`, identity `-1`,
    /// the management scope alone; no refresh token.
    pub fn create_bootstrap_token_at(&self, now: u64) -> (r: Result<TokenResponse, KohakuError>)
        requires
            now + REFRESH_SECS <= u64::MAX,
        ensures
            r matches Ok(resp) && resp.refresh_token is None && resp.expires_in == BOOTSTRAP_SECS
                && resp.token_type@ == "Bearer"@ && resp.access_token@ == issued_token(
                self.secret(),
                "system"@,
                -1,
                seq![MANAGE_SCOPE@],
                TokenType::Bootstrap,
                now as nat,
            ),
    {
        let owner = String::from_str("system");
        let scopes = vec![String::from_str(MANAGE_SCOPE)];
        proof {
            reveal_strlit("keys:manage");
            assert(scopes_view(scopes@) =~= seq![MANAGE_SCOPE@]);
            assert(kind_rules_hold(-1, scopes_view(scopes@), TokenType::Bootstrap));
        }
        let t = match self.create_token_at(owner, -1, scopes, TokenType::Bootstrap, now) {
            Ok(t) => t,
            Err(e) => return Err(e),
        };
        proof {
            reveal_strlit("Bearer");
        }
        Ok(
            TokenResponse {
                access_token: t,
                refresh_token: None,
                token_type: String::from_str("Bearer"),
                expires_in: BOOTSTRAP_SECS,
            },
        )
    }

    /// The bootstrap token issued now.
    pub fn create_bootstrap_token(&self) -> (r: Result<TokenResponse, KohakuError>)
        ensures
            r is Err ==> (r matches Err(e) && e is InternalServerError),
            r matches Ok(resp) ==> resp.refresh_token is None && resp.expires_in == BOOTSTRAP_SECS
                && resp.token_type@ == "Bearer"@ && exists|now: u64|
                resp.access_token@ == #[trigger] issued_token(
                    self.secret(),
                    "system"@,
                    -1,
                    seq![MANAGE_SCOPE@],
                    TokenType::Bootstrap,
                    now as nat,
                ),
    {
        let now = match now_secs() {
            Ok(n) => n,
            Err(e) => return Err(e),
        };
        self.create_bootstrap_token_at(now)
    }

    /// An access token and a refresh token for the same owner, identity and
    /// scopes, both issued at `now`.
    pub fn create_tokens_at(&self, key_id: i32, owner: &str, scopes: Vec<String>, now: u64) -> (r:
        Result<TokenResponse, KohakuError>)
        requires
            now + REFRESH_SECS <= u64::MAX,
        ensures
            !kind_rules_hold(key_id as int, scopes_view(scopes@), TokenType::Access) ==> (r matches Err(e)
                && e is ValidationError),
            kind_rules_hold(key_id as int, scopes_view(scopes@), TokenType::Access) ==> (r matches Ok(resp) && {
                &&& resp.expires_in == ACCESS_SECS
                &&& resp.token_type@ == "Bearer"@
                &&& resp.access_token@ == issued_token(self.secret(), owner@, key_id as int, scopes_view(scopes@), TokenType::Access, now as nat)
                &&& resp.refresh_token matches Some(rt) && rt@ == issued_token(self.secret(), owner@, key_id as int, scopes_view(scopes@), TokenType::Refresh, now as nat)
            }),
    {
        proof {
            reveal_strlit("Bearer");
        }
        let access_token = match self.create_token_at(
            String::from_str(owner),
            key_id,
            clone_strings(&scopes),
            TokenType::Access,
            now,
        ) {
            Ok(t) => t,
            Err(e) => return Err(e),
        };
        let refresh_token = match self.create_token_at(
            String::from_str(owner),
            key_id,
            clone_strings(&scopes),
            TokenType::Refresh,
            now,
        ) {
            Ok(t) => t,
            Err(e) => return Err(e),
        };
        Ok(
            TokenResponse {
                access_token,
                refresh_token: Some(refresh_token),
                token_type: String::from_str("Bearer"),
                expires_in: ACCESS_SECS,
            },
        )
    }

    /// An access token and a refresh token issued now.
    pub fn create_tokens(&self, key_id: i32, owner: &str, scopes: Vec<String>) -> (r: Result<
        TokenResponse,
        KohakuError,
    >)
        ensures
            !kind_rules_hold(key_id as int, scopes_view(scopes@), TokenType::Access) ==> (r matches Err(e)
                && e is ValidationError),
            kind_rules_hold(key_id as int, scopes_view(scopes@), TokenType::Access) ==> (r is Ok || (r matches Err(e)
                && e is InternalServerError)),
            r matches Ok(resp) ==> resp.expires_in == ACCESS_SECS && resp.token_type@ == "Bearer"@ && exists|now: u64|
                resp.access_token@ == #[trigger] issued_token(
                    self.secret(),
                    owner@,
                    key_id as int,
                    scopes_view(scopes@),
                    TokenType::Access,
                    now as nat,
                ) && (resp.refresh_token matches Some(rt) && rt@ == issued_token(
                    self.secret(),
                    owner@,
                    key_id as int,
                    scopes_view(scopes@),
                    TokenType::Refresh,
                    now as nat,
                )),
    {
        let now = match now_secs() {
            Ok(n) => n,
            Err(e) => {
                if !check_kind_rules(key_id, &scopes, TokenType::Access) {
                    return Err(
                        KohakuError::ValidationError(
                            String::from_str(
                                "Claims break the rules of their token kind: `keys:manage` belongs to the bootstrap identity alone",
                            ),
                        ),
                    );
                }
                return Err(e);
            },
        };
        self.create_tokens_at(key_id, owner, scopes, now)
    }

    /// Reads the claims of a token: its signature and expiry are checked, and
    /// its payload must be the text of claims. Every failure is the same
    /// validation error.
    pub fn validate_token(&self, token: &str) -> (r: Result<Claims, KohakuError>)
        ensures
            r matches Err(e) ==> e is ValidationError,
    {
        match jwt_open(&self.secret, token) {
            Ok(payload) => claims_from_payload(payload.as_str()),
            Err(msg) => Err(KohakuError::ValidationError(msg)),
        }
    }

    /// Revokes `key_id` until `now` plus `duration` (thirty minutes when none
    /// is given). A second revocation of the same id replaces the first.
    pub fn blacklist_key_at(&mut self, key_id: i32, duration: Option<u64>, now: u64)
        requires
            old(self).wf(),
        ensures
            final(self).wf(),
            final(self).secret() == old(self).secret(),
            revoked_with(old(self).entries(), final(self).entries(), key_id, revocation_expiry(duration, now)),
            final(self).entries().len() == old(self).entries().len() + if old(self).entries().map_values(
                |e: (i32, u64)| e.0,
            ).contains(key_id) {
                0int
            } else {
                1int
            },
    {
        let d = match duration {
            Some(d) => d,
            None => DEFAULT_REVOCATION_SECS,
        };
        let expiry = now.saturating_add(d);
        let ghost s = self.blacklist@;
        let ghost sec = self.secret@;
        let ghost ids = s.map_values(|e: (i32, u64)| e.0);
        let mut i: usize = 0;
        while i < self.blacklist.len()
            invariant
                self.blacklist@ == s,
                self.secret@ == sec,
                sec == old(self).secret@,
                s == old(self).blacklist@,
                expiry == revocation_expiry(duration, now),
                unique_ids(s),
                ids == s.map_values(|e: (i32, u64)| e.0),
                i <= s.len(),
                forall|j: int| 0 <= j < i ==> #[trigger] s[j].0 != key_id,
            decreases self.blacklist.len() - i,
        {
            if self.blacklist[i].0 == key_id {
                self.blacklist.set(i, (key_id, expiry));
                proof {
                    let t = self.blacklist@;
                    assert(t =~= s.update(i as int, (key_id, expiry)));
                    assert(ids[i as int] == key_id);
                    assert forall|e: (i32, u64)| #[trigger]
                        t.contains(e) <==> (e == (key_id, expiry) || (s.contains(e) && e.0 != key_id)) by {
                        if t.contains(e) {
                            let k = choose|k: int| 0 <= k < t.len() && t[k] == e;
                            if k != i {
                                assert(s[k] == e);
                                assert(s.contains(e));
                                assert(s[k].0 != s[i as int].0);
                            }
                        }
                        if e == (key_id, expiry) {
                            assert(t[i as int] == e);
                        }
                        if s.contains(e) && e.0 != key_id {
                            let k = choose|k: int| 0 <= k < s.len() && s[k] == e;
                            assert(k != i);
                            assert(t[k] == e);
                        }
                    }
                }
                return;
            }
            i = i + 1;
        }
        self.blacklist.push((key_id, expiry));
        proof {
            let t = self.blacklist@;
            assert(!ids.contains(key_id)) by {
                if ids.contains(key_id) {
                    let k = choose|k: int| 0 <= k < ids.len() && ids[k] == key_id;
                    assert(s[k].0 == key_id);
                }
            }
            assert forall|e: (i32, u64)| #[trigger]
                t.contains(e) <==> (e == (key_id, expiry) || (s.contains(e) && e.0 != key_id)) by {
                if t.contains(e) {
                    let k = choose|k: int| 0 <= k < t.len() && t[k] == e;
                    if k < s.len() {
                        assert(s[k] == e);
                    }
                }
                if e == (key_id, expiry) {
                    assert(t[s.len() as int] == e);
                }
                if s.contains(e) && e.0 != key_id {
                    let k = choose|k: int| 0 <= k < s.len() && s[k] == e;
                    assert(t[k] == e);
                }
            }
        }
    }

    /// Revokes `key_id` from now on, for `duration` seconds or thirty minutes.
    pub fn blacklist_key(&mut self, key_id: i32, duration: Option<u64>) -> (r: Result<(), KohakuError>)
        requires
            old(self).wf(),
        ensures
            final(self).wf(),
            final(self).secret() == old(self).secret(),
            r is Ok ==> exists|now: u64|
                #[trigger] revoked_with(old(self).entries(), final(self).entries(), key_id, revocation_expiry(duration, now)),
            r is Err ==> final(self).entries() == old(self).entries(),
    {
        let t = now_timestamp();
        if t < 0 {
            return Err(KohakuError::InternalServerError(String::from_str("System clock out of range")));
        }
        self.blacklist_key_at(key_id, duration, t as u64);
        Ok(())
    }

    /// Drops every revocation whose expiry lies before `now`.
    pub fn cleanup_expired_at(&mut self, now: u64)
        requires
            old(self).wf(),
        ensures
            final(self).wf(),
            final(self).secret() == old(self).secret(),
            final(self).entries() == old(self).entries().filter(|e: (i32, u64)| e.1 >= now),
    {
        let ghost s = self.blacklist@;
        let mut kept: Vec<(i32, u64)> = Vec::new();
        let mut i: usize = 0;
        while i < self.blacklist.len()
            invariant
                self.blacklist@ == s,
                unique_ids(s),
                i <= s.len(),
                kept@ == s.subrange(0, i as int).filter(|e: (i32, u64)| e.1 >= now),
            decreases self.blacklist.len() - i,
        {
            let e = self.blacklist[i];
            proof {
                reveal(Seq::filter);
                assert(s.subrange(0, i + 1).drop_last() =~= s.subrange(0, i as int));
                assert(s.subrange(0, i + 1).last() == e);
            }
            if e.1 >= now {
                kept.push(e);
            }
            i = i + 1;
        }
        assert(s.subrange(0, s.len() as int) =~= s);
        proof {
            lemma_filter_unique(s, now);
        }
        self.blacklist = kept;
    }

    /// Drops expired revocations as of now.
    pub fn cleanup_expired(&mut self)
        requires
            old(self).wf(),
        ensures
            final(self).wf(),
            final(self).secret() == old(self).secret(),
    {
        let t = now_timestamp();
        if t >= 0 {
            self.cleanup_expired_at(t as u64);
        }
    }

    /// Whether `key_id` is revoked at `now`; expired revocations are dropped
    /// first.
    pub fn is_blacklisted_at(&mut self, key_id: i32, now: u64) -> (r: bool)
        requires
            old(self).wf(),
        ensures
            final(self).wf(),
            final(self).secret() == old(self).secret(),
            final(self).entries() == old(self).entries().filter(|e: (i32, u64)| e.1 >= now),
            r == revoked_at(old(self).entries(), key_id, now),
    {
        let ghost s = self.blacklist@;
        let ghost sec = self.secret@;
        self.cleanup_expired_at(now);
        let ghost f = self.blacklist@;
        let mut i: usize = 0;
        while i < self.blacklist.len()
            invariant
                self.blacklist@ == f,
                self.secret@ == sec,
                sec == old(self).secret@,
                s == old(self).blacklist@,
                unique_ids(f),
                f == s.filter(|e: (i32, u64)| e.1 >= now),
                i <= f.len(),
                forall|j: int| 0 <= j < i ==> #[trigger] f[j].0 != key_id,
            decreases self.blacklist.len() - i,
        {
            if self.blacklist[i].0 == key_id {
                proof {
                    assert(f.contains(f[i as int]));
                    assert(s.contains(f[i as int]) && f[i as int].1 >= now);
                    let k = choose|k: int| 0 <= k < s.len() && s[k] == f[i as int];
                    assert(s[k].0 == key_id);
                }
                return true;
            }
            i = i + 1;
        }
        proof {
            if revoked_at(s, key_id, now) {
                let k = choose|k: int| 0 <= k < s.len() && #[trigger] s[k].0 == key_id && s[k].1 >= now;
                assert(s.contains(s[k]));
                assert(f.contains(s[k]));
                let m = choose|m: int| 0 <= m < f.len() && f[m] == s[k];
                assert(f[m].0 == key_id);
            }
        }
        false
    }

    /// Whether `key_id` is revoked now.
    pub fn is_blacklisted(&mut self, key_id: i32) -> (r: bool)
        requires
            old(self).wf(),
        ensures
            final(self).wf(),
            final(self).secret() == old(self).secret(),
            exists|now: u64|
                #![trigger revoked_at(old(self).entries(), key_id, now)]
                r == revoked_at(old(self).entries(), key_id, now) && final(self).entries() == old(
                    self,
                ).entries().filter(|e: (i32, u64)| e.1 >= now),
    {
        let t = now_timestamp();
        let now: u64 = if t < 0 { 0 } else { t as u64 };
        self.is_blacklisted_at(key_id, now)
    }

    /// Number of revocation entries.
    pub fn blacklist_size(&self) -> (r: usize)
        ensures
            r == self.entries().len(),
    {
        self.blacklist.len()
    }
}

/// `after` is `before` with `id` revoked until `expiry`, replacing any
/// earlier revocation of `id`.
pub open spec fn revoked_with(before: Seq<(i32, u64)>, after: Seq<(i32, u64)>, id: i32, expiry: u64) -> bool {
    forall|e: (i32, u64)| #[trigger]
        after.contains(e) <==> (e == (id, expiry) || (before.contains(e) && e.0 != id))
}

/// Expiry of a revocation made at `now`.
pub open spec fn revocation_expiry(duration: Option<u64>, now: u64) -> u64 {
    let d = match duration {
        Some(d) => d,
        None => DEFAULT_REVOCATION_SECS,
    };
    if now + d > u64::MAX {
        u64::MAX
    } else {
        (now + d) as u64
    }
}

proof fn lemma_filter_unique(s: Seq<(i32, u64)>, now: u64)
    requires
        unique_ids(s),
    ensures
        unique_ids(s.filter(|e: (i32, u64)| e.1 >= now)),
{
    let f = s.filter(|e: (i32, u64)| e.1 >= now);
    assert forall|i: int, j: int| 0 <= i < j < f.len() implies #[trigger] f[i].0 != #[trigger] f[j].0 by {
        lemma_filter_index(s, now, i, j);
    }
}

proof fn lemma_filter_index(s: Seq<(i32, u64)>, now: u64, i: int, j: int)
    requires
        unique_ids(s),
        0 <= i < j < s.filter(|e: (i32, u64)| e.1 >= now).len(),
    ensures
        s.filter(|e: (i32, u64)| e.1 >= now)[i].0 != s.filter(|e: (i32, u64)| e.1 >= now)[j].0,
    decreases s.len(),
{
    let f = s.filter(|e: (i32, u64)| e.1 >= now);
    let g = s.drop_last().filter(|e: (i32, u64)| e.1 >= now);
    reveal(Seq::filter);
    assert(s.len() > 0);
    assert(unique_ids(s.drop_last()));
    if s.last().1 >= now {
        assert(f == g.push(s.last()));
        if j < g.len() {
            lemma_filter_index(s.drop_last(), now, i, j);
        } else {
            assert(g.contains(g[i]));
            s.drop_last().lemma_filter_contains_rev(|e: (i32, u64)| e.1 >= now, g[i]);
            let k = choose|k: int| 0 <= k < s.drop_last().len() && s.drop_last()[k] == g[i];
            assert(s[k] == g[i]);
            assert(s[s.len() - 1] == s.last());
        }
    } else {
        assert(f == g);
        lemma_filter_index(s.drop_last(), now, i, j);
    }
}

/// Reads claims from the payload text of a token whose signature and expiry
/// have been checked. The text that any claims render to is read back
/// as the same claims.
pub fn claims_from_payload(payload: &str) -> (r: Result<Claims, KohakuError>)
    ensures
        r matches Ok(c) ==> claims_json(c) == payload@,
        forall|c: Claims| #[trigger] payload_of(payload@, c) ==> (r matches Ok(d) && same_claims(d, c)),
        r matches Err(e) ==> e is ValidationError,
{
    match parse_claims(payload) {
        Some(c) => Ok(c),
        None => Err(KohakuError::ValidationError(String::from_str("Malformed token payload"))),
    }
}

} // verus!

verus! {

/// Puts a new service in `slot`, once: a second initialisation fails and
/// leaves the first service in place.
pub fn init_jwtservice(slot: &mut Option<JWTService>, encryption_key: &[u8]) -> (r: Result<(), KohakuError>)
    ensures
        (*old(slot)) is Some ==> r is Err && *final(slot) == *old(slot),
        (*old(slot)) is None ==> r is Ok && ((*final(slot)) matches Some(s) && s.secret() == encryption_key@
            && s.entries().len() == 0 && s.wf()),
        r matches Err(e) ==> e is InternalServerError,
{
    if slot.is_some() {
        return Err(KohakuError::InternalServerError(String::from_str("JWTService already initialized")));
    }
    *slot = Some(JWTService::new(encryption_key));
    Ok(())
}

/// The service in `slot`, where one was put.
pub fn get_jwtservice(slot: &Option<JWTService>) -> (r: Result<&JWTService, KohakuError>)
    ensures
        slot matches Some(s) ==> (r matches Ok(t) && *t == s),
        slot is None ==> (r matches Err(e) && e is InternalServerError),
{
    match slot {
        Some(s) => Ok(s),
        None => Err(
            KohakuError::InternalServerError(
                String::from_str("JWTService not initialized - call init_jwtservice first!"),
            ),
        ),
    }
}

} // verus!

verus! {

/// Bootstrap claims are issued only to identity `-1` with exactly the
/// management scope; ordinary claims never go to identity `-1` nor carry
/// that scope; identities below `-1` never get a token.
pub proof fn lemma_kind_rules(key_id: int, scopes: Seq<Seq<char>>, t: TokenType)
    ensures
        t == TokenType::Bootstrap && (key_id != -1 || scopes.to_set() != set![MANAGE_SCOPE@]) ==> !kind_rules_hold(key_id,
            scopes,
            t,
        ),
        t != TokenType::Bootstrap && (key_id == -1 || scopes.contains(MANAGE_SCOPE@)) ==> !kind_rules_hold(key_id,
            scopes,
            t,
        ),
        key_id < -1 ==> !kind_rules_hold(key_id, scopes, t),
{
    if t == TokenType::Bootstrap && key_id == -1 && kind_rules_hold(key_id, scopes, t) {
        assert(scopes.to_set() =~= set![MANAGE_SCOPE@]) by {
            assert(scopes.contains(scopes[0]));
            assert forall|x: Seq<char>| scopes.to_set().contains(x) implies x == MANAGE_SCOPE@ by {
                let k = choose|k: int| 0 <= k < scopes.len() && scopes[k] == x;
            }
        }
    }
}

/// A revocation holds from the moment it is made until its expiry, and
/// after the expiry it neither holds nor survives a cleanup.
pub proof fn lemma_revocation_window(
    before: Seq<(i32, u64)>,
    after: Seq<(i32, u64)>,
    id: i32,
    duration: Option<u64>,
    now: u64,
    later: u64,
)
    requires
        revoked_with(before, after, id, revocation_expiry(duration, now)),
        unique_ids(after),
    ensures
        revoked_at(after, id, now),
        now <= later <= revocation_expiry(duration, now) ==> revoked_at(after, id, later),
        later > revocation_expiry(duration, now) ==> !revoked_at(after, id, later),
        later > revocation_expiry(duration, now) ==> !crate::manager::ids_of(
            after.filter(|e: (i32, u64)| e.1 >= later),
        ).contains(id),
{
    let exp = revocation_expiry(duration, now);
    assert(after.contains((id, exp)));
    let k = choose|k: int| 0 <= k < after.len() && after[k] == (id, exp);
    assert(revoked_at(after, id, now)) by {
        assert(after[k].0 == id);
    }
    if now <= later <= exp {
        assert(after[k].0 == id && after[k].1 >= later);
    }
    if later > exp {
        assert forall|i: int| 0 <= i < after.len() && #[trigger] after[i].0 == id implies after[i].1 < later by {
            if i != k {
                assert(after[i].0 != after[k].0);
            }
        }
        let f = after.filter(|e: (i32, u64)| e.1 >= later);
        let ids = crate::manager::ids_of(f);
        if ids.contains(id) {
            let m = choose|m: int| 0 <= m < ids.len() && ids[m] == id;
            assert(f.contains(f[m]));
            let i = choose|i: int| 0 <= i < after.len() && after[i] == f[m];
            assert(after[i].0 == id);
        }
    }
}

} // verus!

verus! {

} // verus!
