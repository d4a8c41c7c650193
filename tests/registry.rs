use kohaku::api_key::extract_prefix;
use kohaku::auth::{
    check_authorization, check_authorization_key, create_key, login, login_at, refresh, refresh_claims_at, revoke_key,
    revoke_matching_at,
};
use kohaku::connection::{
    SessionAction, SessionEvent, SessionState, WsClientInfo, HEARTBEAT_MAX_MISSED,
};
use kohaku::error::KohakuError;
use kohaku::jwt::JWTService;
use kohaku::manager::{get_manager, init_manager, WsConnectionManager};
use kohaku::models::{ApiKey, CreateKeyRequest, TokenType};

fn info(client_id: u128, key_id: i32) -> WsClientInfo {
    WsClientInfo { client_id, owner: "test-suite".to_string(), key_id }
}

#[test]
fn test_add_connection_refuses_second_session() {
    let mut m = WsConnectionManager::new();
    let first = m.add_connection(info(1, 7));
    assert!(first.is_some());
    assert!(m.add_connection(info(2, 7)).is_none());
    assert_eq!(m.connection_count(), 1);
    assert!(m.add_connection(info(3, 8)).is_some());
    m.remove_connection(8);
    assert!(m.add_connection(info(4, 7)).is_none());
    m.remove_connection(7);
    assert!(!m.is_connected(7));
    assert!(m.add_connection(info(5, 7)).is_some());
}

#[test]
fn test_remove_connection_idempotent() {
    let mut m = WsConnectionManager::new();
    let _c = m.add_connection(info(1, 1));
    m.remove_connection(1);
    m.remove_connection(1);
    m.remove_connection(99);
    assert_eq!(m.connection_count(), 0);
}

#[test]
fn test_send_to_client() {
    let mut m = WsConnectionManager::new();
    let mut conn = m.add_connection(info(1, 3)).unwrap();
    assert!(m.send_to_client("hello", 3).is_ok());
    assert_eq!(conn.server_rx.try_recv().unwrap(), "hello");
    assert!(matches!(m.send_to_client("hello", 4), Err(KohakuError::NotFound(_))));
    drop(conn);
    assert!(matches!(m.send_to_client("hello", 3), Err(KohakuError::WebsocketError(_))));
}

#[test]
fn test_broadcast_partial_failure() {
    let mut m = WsConnectionManager::new();
    let mut live: Vec<_> = Vec::new();
    for id in 0..5 {
        let conn = m.add_connection(info(id as u128, id)).unwrap();
        if id % 2 == 0 {
            live.push(conn);
        }
    }
    let (ok, mut failed) = m.broadcast("event", None);
    failed.sort();
    assert_eq!(ok, 3);
    assert_eq!(failed, vec![1, 3]);
    assert_eq!(m.connection_count(), 3);
    assert!(!m.is_connected(1));
    assert!(!m.is_connected(3));
    for conn in live.iter_mut() {
        assert_eq!(conn.server_rx.try_recv().unwrap(), "event");
    }
}

#[test]
fn test_broadcast_to_given_ids() {
    let mut m = WsConnectionManager::new();
    let mut a = m.add_connection(info(1, 1)).unwrap();
    let mut b = m.add_connection(info(2, 2)).unwrap();
    let (ok, failed) = m.broadcast("only-one", Some(vec![2, 42]));
    assert_eq!(ok, 1);
    assert_eq!(failed, vec![42]);
    assert!(a.server_rx.try_recv().is_err());
    assert_eq!(b.server_rx.try_recv().unwrap(), "only-one");
    assert_eq!(m.connection_count(), 2);
}

#[test]
fn test_broadcast_empty_registry() {
    let mut m = WsConnectionManager::new();
    let (ok, failed) = m.broadcast("x", None);
    assert_eq!(ok, 0);
    assert!(failed.is_empty());
}

#[test]
fn test_silent_session_terminates_and_deregisters() {
    let mut m = WsConnectionManager::new();
    let mut conn = m.add_connection(info(1, 11)).unwrap();
    assert_eq!(conn.current_state(), SessionState::Connecting);
    assert_eq!(conn.step(SessionEvent::Tick), SessionAction::Nothing);
    conn.start();
    assert_eq!(conn.current_state(), SessionState::Active);
    for k in 1..=HEARTBEAT_MAX_MISSED {
        assert_eq!(conn.step(SessionEvent::Tick), SessionAction::SendProbe);
        assert_eq!(conn.missed_probes(), k);
    }
    assert_eq!(conn.step(SessionEvent::Tick), SessionAction::Terminate);
    assert_eq!(conn.current_state(), SessionState::Closing);
    assert_eq!(conn.step(SessionEvent::Tick), SessionAction::Nothing);
    m.end_session(&mut conn);
    assert_eq!(conn.current_state(), SessionState::Closed);
    assert!(!m.is_connected(11));
}

#[test]
fn test_ack_resets_heartbeat() {
    let mut m = WsConnectionManager::new();
    let mut conn = m.add_connection(info(1, 1)).unwrap();
    conn.start();
    conn.step(SessionEvent::Tick);
    conn.step(SessionEvent::Tick);
    assert_eq!(conn.step(SessionEvent::Ack), SessionAction::Nothing);
    assert_eq!(conn.missed_probes(), 0);
    for _ in 0..3 {
        assert_eq!(conn.step(SessionEvent::Tick), SessionAction::SendProbe);
    }
    assert_eq!(conn.step(SessionEvent::OtherFrame), SessionAction::Nothing);
    assert_eq!(conn.step(SessionEvent::Ping), SessionAction::SendPong);
    assert_eq!(conn.step(SessionEvent::CloseFrame), SessionAction::Terminate);
    assert_eq!(conn.step(SessionEvent::Ack), SessionAction::Nothing);
    assert_eq!(conn.current_state(), SessionState::Closing);
}

#[test]
fn test_write_failure_terminates() {
    let mut m = WsConnectionManager::new();
    let mut conn = m.add_connection(info(1, 1)).unwrap();
    conn.start();
    assert_eq!(conn.step(SessionEvent::WriteFailed), SessionAction::Terminate);
}

#[test]
fn test_init_manager_once() {
    let mut slot = None;
    assert!(get_manager(&slot).is_err());
    assert!(init_manager(&mut slot).is_ok());
    assert!(init_manager(&mut slot).is_err());
    assert!(get_manager(&slot).is_ok());
}

#[test]
fn test_end_to_end_key_lifecycle() {
    let mut service = JWTService::new(b"end-to-end-secret");
    let bootstrap_key = "the-bootstrap-secret";
    let no_candidates: Vec<ApiKey> = vec![];

    let boot = login(&mut service, Some(bootstrap_key), bootstrap_key, &no_candidates).unwrap();
    assert!(boot.refresh_token.is_none());
    let boot_header = format!("Bearer {}", boot.access_token);

    let body = CreateKeyRequest { owner: "bot".to_string(), scopes: vec!["events:subscribe".to_string()] };
    let (created, record) = create_key(&mut service, Some(&boot_header), &body).unwrap();
    assert_eq!(created.scopes, vec!["events:subscribe".to_string()]);
    assert_eq!(extract_prefix(&created.api_key).unwrap(), record.key_prefix);
    let stored = ApiKey {
        id: 1,
        hashed_key: record.hashed_key.clone(),
        key_prefix: record.key_prefix.clone(),
        owner: record.owner.clone(),
        scopes: record.scopes.clone(),
        created_at: 0,
    };
    let candidates = vec![stored];

    let pair = login(&mut service, Some(&created.api_key), bootstrap_key, &candidates).unwrap();
    assert!(pair.refresh_token.is_some());
    assert_eq!(pair.expires_in, 900);
    let access_header = format!("Bearer {}", pair.access_token);

    let refresh_header = format!("Bearer {}", pair.refresh_token.clone().unwrap());
    let renewed = refresh(&mut service, Some(&refresh_header)).unwrap();
    assert!(renewed.refresh_token.is_none());
    assert!(matches!(refresh(&mut service, Some(&access_header)), Err(KohakuError::ValidationError(_))));

    let cred = check_authorization_key(&created.api_key, bootstrap_key, &candidates).unwrap();
    assert_eq!(cred.id, 1);
    let mut registry = WsConnectionManager::new();
    assert!(registry.add_connection(WsClientInfo { client_id: 10, owner: cred.owner.clone(), key_id: cred.id }).is_some());
    assert!(registry.add_connection(WsClientInfo { client_id: 11, owner: cred.owner.clone(), key_id: cred.id }).is_none());

    let required = vec!["events:subscribe".to_string()];
    assert!(check_authorization(&mut service, Some(&access_header), Some(&required)).is_ok());

    let revoked = revoke_key(&mut service, Some(&boot_header), &created.api_key, &candidates).unwrap();
    assert_eq!(revoked, 1);

    assert!(matches!(
        check_authorization(&mut service, Some(&access_header), Some(&required)),
        Err(KohakuError::Unauthorized(_))
    ));
    assert!(matches!(
        login(&mut service, Some(&created.api_key), bootstrap_key, &candidates),
        Err(KohakuError::Unauthorized(_))
    ));
    let remaining: Vec<ApiKey> = vec![];
    assert!(matches!(
        revoke_key(&mut service, Some(&boot_header), &created.api_key, &remaining),
        Err(KohakuError::NotFound(_))
    ));
}

#[test]
fn test_login_failures() {
    let mut service = JWTService::new(b"s");
    let none: Vec<ApiKey> = vec![];
    assert!(matches!(login(&mut service, None, "boot", &none), Err(KohakuError::ValidationError(_))));
    assert!(matches!(login(&mut service, Some("nounderscore"), "boot", &none), Err(KohakuError::ValidationError(_))));
    assert!(matches!(login(&mut service, Some("khk_abcdef_zzz"), "boot", &none), Err(KohakuError::Unauthorized(_))));
}

#[test]
fn test_create_key_requires_manage_scope() {
    let mut service = JWTService::new(b"s");
    let token = service
        .create_token("bot".to_string(), 3, vec!["events:subscribe".to_string()], TokenType::Access)
        .unwrap();
    let header = format!("Bearer {}", token);
    let body = CreateKeyRequest { owner: "x".to_string(), scopes: vec![] };
    assert!(matches!(create_key(&mut service, Some(&header), &body), Err(KohakuError::Unauthorized(_))));
    let boot = service.create_bootstrap_token().unwrap();
    let boot_header = format!("Bearer {}", boot.access_token);
    let bad = CreateKeyRequest { owner: "x".to_string(), scopes: vec!["keys:manage".to_string()] };
    assert!(matches!(create_key(&mut service, Some(&boot_header), &bad), Err(KohakuError::ValidationError(_))));
    let reserved = CreateKeyRequest { owner: "x".to_string(), scopes: vec!["keys:list".to_string()] };
    assert!(matches!(create_key(&mut service, Some(&boot_header), &reserved), Err(KohakuError::ValidationError(_))));
}

#[test]
fn test_settle_outcomes() {
    let mut m = WsConnectionManager::new();
    let _a = m.add_connection(info(1, 1));
    let _b = m.add_connection(info(2, 2));
    let _c = m.add_connection(info(3, 3));
    let (ok, failed) = m.settle(&vec![1, 2, 3], &vec![true, false, true]);
    assert_eq!(ok, 2);
    assert_eq!(failed, vec![2]);
    assert!(!m.is_connected(2));
    assert!(m.is_connected(1) && m.is_connected(3));
}

#[test]
fn test_login_at_and_revoke_at() {
    let mut service = JWTService::new(b"timed");
    let boot = service.create_bootstrap_token_at(1_000_000).unwrap();
    let cl = service.validate_token(&boot.access_token);
    assert!(cl.is_err());
    let now = std::time::SystemTime::now().duration_since(std::time::UNIX_EPOCH).unwrap().as_secs();
    let boot = service.create_bootstrap_token_at(now).unwrap();
    let header = format!("Bearer {}", boot.access_token);
    let body = CreateKeyRequest { owner: "o\"w".to_string(), scopes: vec!["events:subscribe".to_string()] };
    let (created, record) = create_key(&mut service, Some(&header), &body).unwrap();
    let stored = vec![ApiKey {
        id: 5,
        hashed_key: record.hashed_key.clone(),
        key_prefix: record.key_prefix.clone(),
        owner: record.owner.clone(),
        scopes: record.scopes.clone(),
        created_at: 0,
    }];
    let pair = login_at(&mut service, Some(&created.api_key), "boot", &stored, now).unwrap();
    let access = service.validate_token(&pair.access_token).unwrap();
    assert_eq!(access.owner, "o\"w");
    assert_eq!(access.key_id, 5);
    assert_eq!(access.iat, now);
    let refresh_claims = service.validate_token(pair.refresh_token.as_ref().unwrap()).unwrap();
    let renewed = refresh_claims_at(&service, refresh_claims, now).unwrap();
    assert_eq!(service.validate_token(&renewed.access_token).unwrap().token_type, TokenType::Access);
    assert!(matches!(refresh_claims_at(&service, access, now), Err(KohakuError::ValidationError(_))));
    assert_eq!(revoke_matching_at(&mut service, &created.api_key, &stored, now), Ok(5));
    assert!(matches!(
        login_at(&mut service, Some(&created.api_key), "boot", &stored, now + 10),
        Err(KohakuError::Unauthorized(_))
    ));
    assert!(login_at(&mut service, Some(&created.api_key), "boot", &stored, now + 1801).is_ok());
    assert!(matches!(revoke_matching_at(&mut service, "khk_abcdef_nothing", &stored, now), Err(KohakuError::NotFound(_))));
}
