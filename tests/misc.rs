use kohaku::auth::{bearer_token, check_key_filter, check_key_scopes, check_scopes};
use kohaku::config::{get_config, init_config, parse_port, Config, LogLevel};
use kohaku::error::KohakuError;
use kohaku::notifications::{
    build_notification_data, build_payload, check_subscription_filter, compose_message, NotificationTarget,
};
use kohaku::tasks::Task;
use kohaku::ws::{
    envelope_step, open_envelope, sign_payload, timestamp_fresh, EnvelopeAction, EnvelopeKind, RateLimiter,
};

#[test]
fn test_rate_limiter_allows_messages_within_limit() {
    let mut limiter = RateLimiter::new(3, 10);

    assert!(limiter.check_and_add());
    assert!(limiter.check_and_add());
    assert!(limiter.check_and_add());
    assert!(!limiter.check_and_add());
}

#[test]
fn test_rate_limiter_resets_after_window() {
    let mut limiter = RateLimiter::new(2, 1);

    assert!(limiter.check_and_add_at(100));
    assert!(limiter.check_and_add_at(100));
    assert!(!limiter.check_and_add_at(100));

    assert!(limiter.check_and_add_at(102));
}

fn base_message() -> String {
    "{\"timestamp\":1234567890,\"message_id\":\"fixed-id-123\",\"message\":{\"type\":\"ping\",\"id\":\"test-ping\"}}"
        .to_string()
}

#[test]
fn test_message_signature_same_if_same_data() {
    let secret = "test-secret".to_string().into_bytes();
    assert_eq!(sign_payload(&base_message(), &secret), sign_payload(&base_message(), &secret));
}

#[test]
fn test_message_verification_valid_signature() {
    let secret = "test-secret".to_string().into_bytes();
    let signed = sign_payload(&base_message(), &secret);
    assert!(signed.starts_with(&base_message()));
    assert_eq!(signed.len(), base_message().len() + 1 + 64);
    assert_eq!(open_envelope(&signed, &secret).unwrap(), base_message());
}

#[test]
fn test_message_verification_invalid_signature() {
    let secret = "test-secret".to_string().into_bytes();
    let signed = sign_payload(&base_message(), &secret);
    let other = b"other-secret".to_vec();
    assert!(open_envelope(&signed, &other).is_err());
    let mut tampered = signed.clone();
    tampered.pop();
    tampered.push('x');
    assert!(open_envelope(&tampered, &secret).is_err());
    assert!(open_envelope("no-dot-here", &secret).is_err());
    assert!(open_envelope("a.b.c", &secret).is_err());
    let with_dot_after = format!("{}x", signed);
    assert!(open_envelope(&with_dot_after, &secret).is_err());
}

#[test]
fn test_message_hmac_known_value() {
    let signed = sign_payload("", &b"key".to_vec());
    assert_eq!(signed, ".5d5d139563c95b5967b9bd9a8c9b233a9dedb45072794cd232dc1b74832607d0");
}

#[test]
fn test_timestamp_window() {
    assert!(timestamp_fresh(1000, 1030));
    assert!(timestamp_fresh(1030, 1000));
    assert!(!timestamp_fresh(1000, 1031));
    assert!(!timestamp_fresh(1031, 1000));
}

#[test]
fn test_config_defaults() {
    let c = Config::new(
        None,
        None,
        None,
        Some("some_url/db".to_string()),
        Some("boot".to_string()),
        Some("enc".to_string()),
    )
    .unwrap();
    assert_eq!(c.server_addr, "127.0.0.1");
    assert_eq!(c.server_port, 8080);
    assert_eq!(c.logging_level, LogLevel::Info);
    assert_eq!(c.encryption_key, b"enc".to_vec());
}

#[test]
fn test_config_with_env_vars() {
    let c = Config::new(
        Some("localhost".to_string()),
        Some("9000".to_string()),
        Some("debug".to_string()),
        Some("some_url/db".to_string()),
        Some("1234".to_string()),
        Some("localhost2".to_string()),
    )
    .unwrap();
    assert_eq!(c.server_addr, "localhost");
    assert_eq!(c.server_port, 9000);
    assert_eq!(c.logging_level, LogLevel::Debug);
    assert_eq!(c.database_url, "some_url/db");
    assert_eq!(c.bootstrap_key, "1234");
}

#[test]
fn test_config_missing_required_value() {
    let c = Config::new(None, None, None, None, Some("b".to_string()), Some("e".to_string()));
    assert!(c.is_err());
    let c = Config::new(None, Some("70000".to_string()), None, Some("d".to_string()), Some("b".to_string()), Some("e".to_string()));
    assert!(c.is_err());
}

#[test]
fn test_config_singleton() {
    let mut slot = None;
    let c = Config::new(None, None, None, Some("d".to_string()), Some("b".to_string()), Some("e".to_string())).unwrap();
    assert!(init_config(&mut slot, c).is_ok());
    let c2 = Config::new(None, None, None, Some("d2".to_string()), Some("b".to_string()), Some("e".to_string())).unwrap();
    assert!(init_config(&mut slot, c2).is_err());
    assert_eq!(get_config(&slot).database_url, "d");
}

#[test]
fn test_parse_port_values() {
    assert_eq!(parse_port("0"), Some(0));
    assert_eq!(parse_port("65535"), Some(65535));
    assert_eq!(parse_port("65536"), None);
    assert_eq!(parse_port(""), None);
    assert_eq!(parse_port("80a"), None);
    assert_eq!(parse_port("+8080"), Some(8080));
    assert_eq!(parse_port("+"), None);
    assert_eq!(parse_port("-1"), None);
    assert_eq!(parse_port("99999999999999999999999"), None);
}

#[test]
fn test_error_details() {
    assert_eq!(KohakuError::NotFound("gone".to_string()).details(), ("gone".to_string(), 404));
    assert_eq!(KohakuError::ValidationError("bad".to_string()).details(), ("bad".to_string(), 400));
    assert_eq!(KohakuError::Unauthorized("no".to_string()).details(), ("no".to_string(), 401));
    assert_eq!(
        KohakuError::ExternalServiceError("x".to_string()).details(),
        ("External service error".to_string(), 502)
    );
    assert_eq!(
        KohakuError::DatabaseConnectionError("x".to_string()).details(),
        ("Service temporarily unavailable".to_string(), 500)
    );
    assert_eq!(
        KohakuError::InternalServerError("secret cause".to_string()).details(),
        ("Internal server error".to_string(), 500)
    );
    assert_eq!(KohakuError::WebsocketError("x".to_string()).status_code(), 500);
}

#[test]
fn test_bearer_and_scopes() {
    assert_eq!(bearer_token("Bearer abc"), Some("abc".to_string()));
    assert_eq!(bearer_token("bearer abc"), None);
    assert_eq!(bearer_token("Bearer "), Some(String::new()));
    let have = vec!["a:b".to_string(), "c:d".to_string()];
    assert!(check_scopes(&have, &vec!["c:d".to_string()]));
    assert!(check_scopes(&have, &vec![]));
    assert!(!check_scopes(&have, &vec!["a:b".to_string(), "e:f".to_string()]));
    assert!(check_key_scopes(&vec!["events:subscribe".to_string()]).is_ok());
    assert!(check_key_scopes(&vec!["keys:anything".to_string()]).is_err());
    assert!(check_key_filter(None, None).is_err());
    assert!(check_key_filter(Some(1), None).is_ok());
    assert!(check_key_filter(None, Some("khk_abcdef")).is_ok());
}

fn target(channel_id: i64, format: Option<&str>) -> NotificationTarget {
    NotificationTarget {
        id: 1,
        created_at: 0,
        code: "news".to_string(),
        channel_id,
        guild_id: 9,
        format: format.map(|f| f.to_string()),
    }
}

#[test]
fn test_compose_message() {
    let fmt = Some("<@role> {message}!".to_string());
    let msg = Some("hello".to_string());
    assert_eq!(compose_message(&fmt, &msg), Some("<@role> hello!".to_string()));
    assert_eq!(compose_message(&fmt, &None), fmt.clone());
    assert_eq!(compose_message(&None, &msg), msg.clone());
    assert_eq!(compose_message(&None, &None), None);
}

#[test]
fn test_build_notification_data() {
    let targets = vec![target(1, None), target(2, Some("[{message}]"))];
    let data = build_notification_data(&targets, "scraper", &None, &None);
    assert_eq!(data.len(), 1);
    assert_eq!(data[0].channel_id, 2);
    assert_eq!(data[0].message, Some("[{message}]".to_string()));
    let data = build_notification_data(&targets, "scraper", &None, &Some("m".to_string()));
    assert_eq!(data.len(), 2);
    assert_eq!(data[0].message, Some("m".to_string()));
    assert_eq!(data[1].message, Some("[m]".to_string()));
    assert_eq!(data[1].triggering_event, "scraper");
    let payload = build_payload("news", 77, &targets, "scraper", &None, &None);
    assert_eq!(payload.code, "news");
    assert_eq!(payload.timestamp, 77);
    assert_eq!(payload.data.len(), 1);
    assert!(check_subscription_filter(None, None, None).is_err());
    assert!(check_subscription_filter(None, Some(1), None).is_ok());
}

#[test]
fn test_task_new() {
    let t = Task::new("Example", "0,30 * * * * *", true);
    assert_eq!(t.name, "Example");
    assert_eq!(t.cron, "0,30 * * * * *");
    assert!(t.run_once);
}

#[test]
fn test_error_kinds() {
    assert_eq!(KohakuError::Unauthorized("x".to_string()).kind(), "Unauthorized");
    assert_eq!(KohakuError::DatabaseError("x".to_string()).kind(), "InternalError");
    assert_eq!(KohakuError::WebsocketError("x".to_string()).kind(), "ConnectionError");
}

#[test]
fn test_envelope_session_decisions() {
    assert_eq!(envelope_step(false, true, EnvelopeKind::Notification), (false, EnvelopeAction::Close));
    assert_eq!(envelope_step(false, true, EnvelopeKind::Authorization), (true, EnvelopeAction::Authenticate));
    assert_eq!(envelope_step(true, true, EnvelopeKind::Notification), (true, EnvelopeAction::Process));
    assert_eq!(envelope_step(true, false, EnvelopeKind::Notification), (true, EnvelopeAction::Close));
    assert_eq!(envelope_step(false, true, EnvelopeKind::Invalid), (false, EnvelopeAction::Ignore));
    assert_eq!(envelope_step(true, true, EnvelopeKind::Pong), (true, EnvelopeAction::Ignore));
}

#[test]
fn test_config_level_names() {
    let make = |l: &str| {
        Config::new(None, None, Some(l.to_string()), Some("d".to_string()), Some("b".to_string()), Some("e".to_string()))
    };
    assert_eq!(make("WaRn").unwrap().logging_level, LogLevel::Warn);
    assert_eq!(make("5").unwrap().logging_level, LogLevel::Trace);
    assert_eq!(make("1").unwrap().logging_level, LogLevel::Error);
    assert!(make("verbose").is_err());
}
