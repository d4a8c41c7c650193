use std::time::{SystemTime, UNIX_EPOCH};

use kohaku::auth::check_authorization;
use kohaku::error::KohakuError;
use kohaku::jwt::{
    claims_from_payload, get_jwtservice, init_jwtservice, JWTService, ACCESS_SECS, BOOTSTRAP_SECS,
    REFRESH_SECS,
};
use kohaku::models::{Claims, TokenType};
use kohaku::payload::{parse_claims, render_claims};

fn now() -> u64 {
    SystemTime::now().duration_since(UNIX_EPOCH).unwrap().as_secs()
}

fn strings(v: &[&str]) -> Vec<String> {
    v.iter().map(|s| s.to_string()).collect()
}

fn service() -> JWTService {
    JWTService::new("encryption_key".as_bytes())
}

fn round_trip(key_id: i32, scopes: &[&str], token_type: TokenType, duration: u64) {
    let svc = service();
    let t = now();
    let token = svc
        .create_token_at("test-suite".to_string(), key_id, strings(scopes), token_type, t)
        .unwrap();
    let cl = svc.validate_token(&token).unwrap();
    assert_eq!(cl.key_id, key_id);
    assert_eq!(cl.owner, "test-suite");
    assert_eq!(cl.scopes, strings(scopes));
    assert_eq!(cl.token_type, token_type);
    assert_eq!(cl.iat, t);
    assert_eq!(cl.exp, t + duration);
}

#[test]
fn test_create_token_valid_bootstrap() {
    round_trip(-1, &["keys:manage"], TokenType::Bootstrap, 600);
}

#[test]
fn test_create_token_valid_access() {
    round_trip(22, &["events:subscribe"], TokenType::Access, 900);
    round_trip(127654, &["events:subscribe", "tests:run"], TokenType::Access, 900);
}

#[test]
fn test_create_token_valid_refresh() {
    round_trip(487, &["events:subscribe", "tests:run"], TokenType::Refresh, 2592000);
    round_trip(3, &["events:subscribe"], TokenType::Refresh, 2592000);
}

#[test]
fn test_create_token_now_close_to_clock() {
    let svc = service();
    let before = now();
    let token = svc
        .create_token("test-suite".to_string(), 5, strings(&["events:subscribe"]), TokenType::Access)
        .unwrap();
    let cl = svc.validate_token(&token).unwrap();
    assert!(cl.iat >= before && cl.iat - before < 2);
    assert_eq!(cl.exp - cl.iat, ACCESS_SECS);
}

fn rejected(key_id: i32, scopes: &[&str], token_type: TokenType) {
    let val = service().create_token("test-suite".to_string(), key_id, strings(scopes), token_type);
    assert!(matches!(val, Err(KohakuError::ValidationError(_))));
}

#[test]
fn test_create_token_invalid_wrong_id() {
    rejected(-1, &["events:subscribe"], TokenType::Access);
    rejected(-1, &["events:subscribe"], TokenType::Refresh);
    rejected(12, &["keys:manage"], TokenType::Bootstrap);
}

#[test]
fn test_create_token_invalid_wrong_scope() {
    rejected(0, &["keys:manage"], TokenType::Access);
    rejected(0, &["keys:manage"], TokenType::Refresh);
    rejected(-1, &["events:subscribe"], TokenType::Bootstrap);
    rejected(0, &["keys:manage", "events:subscribe"], TokenType::Access);
    rejected(0, &["keys:manage", "events:subscribe"], TokenType::Refresh);
    rejected(-1, &["keys:manage", "events:subscribe"], TokenType::Bootstrap);
    rejected(-1, &[], TokenType::Bootstrap);
}

#[test]
fn test_create_token_invalid_id() {
    rejected(-2, &["keys:manage"], TokenType::Bootstrap);
    rejected(-5, &["events:subscribe"], TokenType::Access);
    rejected(-10, &["events:subscribe"], TokenType::Refresh);
}

#[test]
fn test_create_token_keeps_quotes_and_controls() {
    let svc = service();
    let owner = "a\"b\\c\nd\u{1}".to_string();
    let scopes = vec!["x:\"y\"".to_string(), "tab\there".to_string()];
    let token = svc
        .create_token(owner.clone(), 0, scopes.clone(), TokenType::Access)
        .unwrap();
    let cl = svc.validate_token(&token).unwrap();
    assert_eq!(cl.owner, owner);
    assert_eq!(cl.scopes, scopes);
}

#[test]
fn test_payload_escapes_text() {
    let c = Claims {
        owner: "q\"b\\\u{1f}".to_string(),
        key_id: 1,
        scopes: vec![],
        token_type: TokenType::Access,
        exp: 2,
        iat: 1,
    };
    let text = render_claims(&c);
    assert_eq!(
        text,
        "{\"owner\":\"q\\u0022b\\\\\\u001f\",\"key_id\":1,\"scopes\":[],\"token_type\":\"access\",\"exp\":2,\"iat\":1}"
    );
    assert_eq!(parse_claims(&text).unwrap().owner, c.owner);
}

#[test]
fn test_create_token_deterministic() {
    let svc = service();
    let a = svc.create_token_at("o".to_string(), 1, strings(&["x:y"]), TokenType::Access, 1_000_000).unwrap();
    let b = svc.create_token_at("o".to_string(), 1, strings(&["x:y"]), TokenType::Access, 1_000_000).unwrap();
    assert_eq!(a, b);
    assert_eq!(a.split('.').count(), 3);
}

#[test]
fn test_validate_token_invalid_other_key() {
    let other = JWTService::new("another_encryption_key".as_bytes());
    let token = other
        .create_token_at("test-suite".to_string(), 0, strings(&["events:subscribe"]), TokenType::Access, now())
        .unwrap();
    let val = service().validate_token(&token);
    assert!(matches!(val, Err(KohakuError::ValidationError(_))));
}

#[test]
fn test_validate_token_expired() {
    let svc = service();
    let token = svc
        .create_token_at("test-suite".to_string(), 0, strings(&["events:subscribe"]), TokenType::Access, now() - 7200)
        .unwrap();
    assert!(svc.validate_token(&token).is_err());
}

#[test]
fn test_validate_token_garbage() {
    assert!(service().validate_token("not.a.token").is_err());
    assert!(service().validate_token("").is_err());
}

#[test]
fn test_payload_text_exact() {
    let c = Claims {
        owner: "bot".to_string(),
        key_id: -1,
        scopes: strings(&["keys:manage"]),
        token_type: TokenType::Bootstrap,
        exp: 1600,
        iat: 1000,
    };
    let text = render_claims(&c);
    assert_eq!(
        text,
        "{\"owner\":\"bot\",\"key_id\":-1,\"scopes\":[\"keys:manage\"],\"token_type\":\"bootstrap\",\"exp\":1600,\"iat\":1000}"
    );
    let back = parse_claims(&text).unwrap();
    assert_eq!(back.owner, "bot");
    assert_eq!(back.key_id, -1);
    assert_eq!(back.scopes, strings(&["keys:manage"]));
    assert_eq!(back.token_type, TokenType::Bootstrap);
    assert_eq!(back.exp, 1600);
    assert_eq!(back.iat, 1000);
}

#[test]
fn test_payload_round_trip_empty_scopes_and_large_numbers() {
    let c = Claims {
        owner: String::new(),
        key_id: 2147483647,
        scopes: vec![],
        token_type: TokenType::Refresh,
        exp: u64::MAX,
        iat: 0,
    };
    let back = parse_claims(&render_claims(&c)).unwrap();
    assert_eq!(back.key_id, 2147483647);
    assert!(back.scopes.is_empty());
    assert_eq!(back.exp, u64::MAX);
    assert_eq!(back.iat, 0);
}

#[test]
fn test_payload_rejects_other_layouts() {
    assert!(claims_from_payload("{\"key_id\":1,\"owner\":\"a\",\"scopes\":[],\"token_type\":\"access\",\"exp\":1,\"iat\":1}").is_err());
    assert!(claims_from_payload("{\"owner\":\"a\",\"key_id\":01,\"scopes\":[],\"token_type\":\"access\",\"exp\":1,\"iat\":1}").is_err());
    assert!(claims_from_payload("{\"owner\":\"a\",\"key_id\":1,\"scopes\":[],\"token_type\":\"other\",\"exp\":1,\"iat\":1}").is_err());
}

#[test]
fn test_bootstrap_token_response() {
    let svc = service();
    let resp = svc.create_bootstrap_token().unwrap();
    assert!(resp.refresh_token.is_none());
    assert_eq!(resp.expires_in, BOOTSTRAP_SECS);
    assert_eq!(resp.token_type, "Bearer");
    let cl = svc.validate_token(&resp.access_token).unwrap();
    assert_eq!(cl.key_id, -1);
    assert_eq!(cl.owner, "system");
    assert_eq!(cl.token_type, TokenType::Bootstrap);
}

#[test]
fn test_create_tokens_pair() {
    let svc = service();
    let resp = svc.create_tokens(7, "bot", strings(&["events:subscribe"])).unwrap();
    assert_eq!(resp.expires_in, 900);
    let access = svc.validate_token(&resp.access_token).unwrap();
    let refresh = svc.validate_token(resp.refresh_token.as_ref().unwrap()).unwrap();
    assert_eq!(access.token_type, TokenType::Access);
    assert_eq!(refresh.token_type, TokenType::Refresh);
    assert_eq!(refresh.exp - refresh.iat, REFRESH_SECS);
    assert_eq!(access.key_id, 7);
    assert_eq!(refresh.owner, "bot");
}

#[test]
fn test_blacklist_key() {
    let key_id = 12;
    let mut service = service();

    assert_eq!(service.blacklist_size(), 0);

    let val = service.blacklist_key(key_id, None);
    assert!(val.is_ok());
    assert_eq!(service.blacklist_size(), 1);

    let val = service.blacklist_key(key_id, None);
    assert!(val.is_ok());
    assert_eq!(service.blacklist_size(), 1);
}

#[test]
fn test_is_blacklisted() {
    let key_id = 13;
    let key_id_no = 455;
    let mut service = service();
    let t = now();

    assert!(!service.is_blacklisted_at(key_id, t));
    assert!(!service.is_blacklisted_at(key_id_no, t));

    service.blacklist_key_at(key_id, Some(2), t);

    assert!(service.is_blacklisted_at(key_id, t));
    assert!(!service.is_blacklisted_at(key_id_no, t));
    assert!(service.is_blacklisted_at(key_id, t + 2));

    assert!(!service.is_blacklisted_at(key_id, t + 3));
    assert!(!service.is_blacklisted_at(key_id_no, t + 3));
    assert_eq!(service.blacklist_size(), 0);
}

#[test]
fn test_blacklist_default_is_thirty_minutes() {
    let mut service = service();
    service.blacklist_key_at(5, None, 1000);
    assert!(service.is_blacklisted_at(5, 2800));
    assert!(!service.is_blacklisted_at(5, 2801));
}

#[test]
fn test_blacklist_is_immediate_with_clock() {
    let mut service = service();
    service.blacklist_key(9, None).unwrap();
    assert!(service.is_blacklisted(9));
    assert!(!service.is_blacklisted(10));
}

#[test]
fn test_init_jwtservice_once() {
    let mut slot = None;
    assert!(get_jwtservice(&slot).is_err());
    assert!(init_jwtservice(&mut slot, b"k").is_ok());
    assert!(matches!(init_jwtservice(&mut slot, b"k"), Err(KohakuError::InternalServerError(_))));
    assert!(get_jwtservice(&slot).is_ok());
}

#[test]
fn test_check_authorization_paths() {
    let mut svc = service();
    let token = svc
        .create_token("bot".to_string(), 4, strings(&["events:subscribe"]), TokenType::Access)
        .unwrap();
    let header = format!("Bearer {}", token);
    let required = strings(&["events:subscribe"]);
    let cl = check_authorization(&mut svc, Some(&header), Some(&required)).unwrap();
    assert_eq!(cl.key_id, 4);

    let more = strings(&["events:subscribe", "keys:manage"]);
    assert!(matches!(
        check_authorization(&mut svc, Some(&header), Some(&more)),
        Err(KohakuError::Unauthorized(_))
    ));
    assert!(matches!(check_authorization(&mut svc, None, None), Err(KohakuError::Unauthorized(_))));
    assert!(matches!(
        check_authorization(&mut svc, Some(&token), None),
        Err(KohakuError::Unauthorized(_))
    ));
    assert!(matches!(
        check_authorization(&mut svc, Some("Bearer nonsense"), None),
        Err(KohakuError::Unauthorized(_))
    ));

    svc.blacklist_key(4, None).unwrap();
    assert!(matches!(
        check_authorization(&mut svc, Some(&header), Some(&required)),
        Err(KohakuError::Unauthorized(_))
    ));
}
