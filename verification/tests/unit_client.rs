use transdb::client::{
    classify_delete_response, classify_get_response, classify_put_response, format_etag,
    parse_etag_text, strong_get_filter, Client, ClientConfig, GetResult, HttpReply, Topology,
};
use transdb::errors::TranDbError;
use transdb::{MAX_KEY_SIZE, MAX_VALUE_SIZE};

// Helper: a client pointed at localhost:8080 for tests that never actually
// connect.
fn localhost_client() -> Client {
    Client::new(ClientConfig {
        topology: Topology { primary_addr: "127.0.0.1:8080".to_string(), replica_addr: None },
    })
}

fn reply(status: u16, etag: Option<&str>, x_expired: Option<&str>, body: &[u8]) -> HttpReply {
    HttpReply {
        status,
        etag: etag.map(|s| s.to_string()),
        x_expired: x_expired.map(|s| s.to_string()),
        body: Ok(body.to_vec()),
        error_message: None,
    }
}

#[test]
fn test_client_config_custom() {
    let config = ClientConfig {
        topology: Topology { primary_addr: "localhost:9000".to_string(), replica_addr: None },
    };
    assert_eq!(config.topology.primary_addr, "localhost:9000");
}

#[test]
fn test_client_creation_with_config() {
    let config = ClientConfig {
        topology: Topology { primary_addr: "example.com:3000".to_string(), replica_addr: None },
    };
    let client = Client::new(config);
    assert_eq!(client.config.topology.primary_addr, "example.com:3000");
}

#[test]
fn test_build_key_url() {
    let client = localhost_client();
    assert_eq!(
        client.build_key_url("test_key"),
        "http://127.0.0.1:8080/keys/test_key"
    );
}

#[test]
fn test_build_key_url_with_custom_base() {
    let config = ClientConfig {
        topology: Topology { primary_addr: "localhost:9000".to_string(), replica_addr: None },
    };
    let client = Client::new(config);
    assert_eq!(
        client.build_key_url("my_key"),
        "http://localhost:9000/keys/my_key"
    );
}

#[test]
fn test_build_key_url_empty_key() {
    let client = localhost_client();
    assert_eq!(
        client.build_key_url(""),
        "http://127.0.0.1:8080/keys/"
    );
}

#[test]
fn test_build_key_url_special_characters() {
    let client = localhost_client();
    let url = client.build_key_url("key-with-dashes");
    assert_eq!(url, "http://127.0.0.1:8080/keys/key-with-dashes");
}

// --- set_target ---

#[test]
fn test_set_target_changes_url() {
    let config = ClientConfig {
        topology: Topology {
            primary_addr: "127.0.0.1:3000".to_string(),
            replica_addr: Some("127.0.0.1:3001".to_string()),
        },
    };
    let mut client = Client::new(config);
    // Initially routes to primary
    assert_eq!(client.build_key_url("k"), "http://127.0.0.1:3000/keys/k");

    // After set_target, routes to replica
    client.set_target("127.0.0.1:3001");
    assert_eq!(client.build_key_url("k"), "http://127.0.0.1:3001/keys/k");

    // Resetting to primary restores the original URL
    client.set_target("127.0.0.1:3000");
    assert_eq!(client.build_key_url("k"), "http://127.0.0.1:3000/keys/k");
}

// --- ETag parsing and rendering ---

#[test]
fn test_parse_etag_text_cases() {
    assert_eq!(parse_etag_text("\"5\""), Some(5));
    assert_eq!(parse_etag_text("5"), Some(5));
    assert_eq!(parse_etag_text("\"18446744073709551615\""), Some(u64::MAX));
    assert_eq!(parse_etag_text("\"18446744073709551616\""), None); // overflow
    assert_eq!(parse_etag_text("\"\""), None);
    assert_eq!(parse_etag_text(""), None);
    assert_eq!(parse_etag_text("\"abc\""), None);
    assert_eq!(parse_etag_text("\"-1\""), None);
}

#[test]
fn test_format_etag_round_trips() {
    for v in [0u64, 1, 7, 42, 1024, u64::MAX] {
        let text = format_etag(v);
        assert_eq!(parse_etag_text(&text), Some(v));
    }
    assert_eq!(format_etag(3), "\"3\"");
}

// --- Reply classification: GET ---

#[test]
fn test_classify_get_404_as_key_not_found() {
    let r = classify_get_response(&"missing_key".to_string(), reply(404, None, None, b""));
    assert!(matches!(r, Err(TranDbError::KeyNotFound(k)) if k == "missing_key"));
}

#[test]
fn test_classify_get_returns_bytes_and_version() {
    let r = classify_get_response(&"my_key".to_string(), reply(200, Some("\"5\""), None, b"hello"));
    let g = r.unwrap();
    assert_eq!(g.value, b"hello");
    assert_eq!(g.version, 5);
    assert!(!g.expired);
}

#[test]
fn test_classify_get_missing_etag() {
    let r = classify_get_response(&"my_key".to_string(), reply(200, None, None, b"hello"));
    assert!(matches!(r, Err(TranDbError::MissingETag)));

    let r = classify_get_response(
        &"my_key".to_string(),
        reply(200, Some("nonsense"), None, b"hello"),
    );
    assert!(matches!(r, Err(TranDbError::MissingETag)));
}

#[test]
fn test_classify_get_http_error_with_message() {
    let r = classify_get_response(
        &"my_key".to_string(),
        HttpReply {
            status: 400,
            etag: None,
            x_expired: None,
            body: Ok(vec![]),
            error_message: Some("Key exceeds maximum size of 1024 bytes".to_string()),
        },
    );
    assert!(matches!(
        r,
        Err(TranDbError::HttpError(400, ref msg)) if msg == "Key exceeds maximum size of 1024 bytes"
    ));
}

#[test]
fn test_classify_get_http_error_default_message() {
    let r = classify_get_response(&"k".to_string(), reply(503, None, None, b""));
    assert!(matches!(
        r,
        Err(TranDbError::HttpError(503, ref msg)) if msg == "Server returned status: 503"
    ));
}

#[test]
fn test_classify_get_network_error_while_reading_body() {
    let r = classify_get_response(
        &"k".to_string(),
        HttpReply {
            status: 200,
            etag: Some("\"1\"".to_string()),
            x_expired: None,
            body: Err("connection reset".to_string()),
            error_message: None,
        },
    );
    assert!(matches!(r, Err(TranDbError::NetworkError(ref d)) if d == "connection reset"));
}

// --- Strong vs. expired-allowing reads ---

#[test]
fn test_expired_entry_strong_and_soft_reads() {
    let key = "my_key".to_string();
    let soft = classify_get_response(&key, reply(200, Some("\"1\""), Some("true"), b"stale"));
    let soft = soft.unwrap();
    assert!(soft.expired);
    assert_eq!(soft.value, b"stale");
    assert_eq!(soft.version, 1);

    let strong = strong_get_filter(&key, Ok(soft));
    assert!(matches!(strong, Err(TranDbError::KeyNotFound(k)) if k == "my_key"));
}

#[test]
fn test_live_entry_strong_and_soft_reads() {
    let key = "my_key".to_string();
    let soft = classify_get_response(&key, reply(200, Some("\"1\""), None, b"fresh")).unwrap();
    assert!(!soft.expired);

    let strong = strong_get_filter(&key, Ok(soft)).unwrap();
    assert_eq!(strong.value, b"fresh");
    assert!(!strong.expired);
}

#[test]
fn test_x_expired_must_be_literally_true() {
    let key = "k".to_string();
    let soft = classify_get_response(&key, reply(200, Some("\"1\""), Some("TRUE"), b"v")).unwrap();
    assert!(!soft.expired);
    let soft = classify_get_response(&key, reply(200, Some("\"1\""), Some("1"), b"v")).unwrap();
    assert!(!soft.expired);
}

// --- Reply classification: PUT and DELETE ---

#[test]
fn test_classify_put_returns_version_from_etag() {
    let r = classify_put_response(&"my_key".to_string(), reply(200, Some("\"3\""), None, b""));
    assert_eq!(r.unwrap(), 3);
}

#[test]
fn test_classify_put_missing_etag() {
    let r = classify_put_response(&"my_key".to_string(), reply(200, None, None, b""));
    assert!(matches!(r, Err(TranDbError::MissingETag)));
}

#[test]
fn test_classify_put_http_error_on_503() {
    let r = classify_put_response(&"my_key".to_string(), reply(503, None, None, b""));
    assert!(matches!(r, Err(TranDbError::HttpError(503, _))));
}

#[test]
fn test_classify_delete_none_on_204() {
    // 204 means the key was absent or already tombstoned — no version issued.
    let r = classify_delete_response(&"my_key".to_string(), reply(204, None, None, b""));
    assert_eq!(r.unwrap(), None);
}

#[test]
fn test_classify_delete_some_version_on_200() {
    // 200 means a tombstone was written — the version is in the ETag.
    let r = classify_delete_response(&"my_key".to_string(), reply(200, Some("\"7\""), None, b""));
    assert_eq!(r.unwrap(), Some(7));
}

#[test]
fn test_classify_delete_missing_etag_on_200_without_etag() {
    let r = classify_delete_response(&"my_key".to_string(), reply(200, None, None, b""));
    assert!(matches!(r, Err(TranDbError::MissingETag)));
}

#[test]
fn test_classify_replica_405_surfaced_as_http_error() {
    let r = classify_get_response(
        &"k".to_string(),
        HttpReply {
            status: 405,
            etag: None,
            x_expired: None,
            body: Ok(vec![]),
            error_message: Some("Replica does not accept key operations".to_string()),
        },
    );
    assert!(matches!(
        r,
        Err(TranDbError::HttpError(405, ref msg)) if msg == "Replica does not accept key operations"
    ));
}

// --- Pre-flight size validation: fires before any network contact ---

#[test]
fn test_plan_get_rejects_oversized_key() {
    // The target is unreachable, but the size error must win: the plan fails
    // before any request could be sent.
    let client = localhost_client();
    let key = "a".repeat(MAX_KEY_SIZE + 1);
    assert!(matches!(client.plan_get(&key), Err(TranDbError::KeyTooLarge(n)) if n == MAX_KEY_SIZE));
}

#[test]
fn test_plan_put_rejects_oversized_key() {
    let client = localhost_client();
    let key = "a".repeat(MAX_KEY_SIZE + 1);
    let result = client.plan_put(&key, b"hello", None);
    assert!(matches!(result, Err(TranDbError::KeyTooLarge(_))));
}

#[test]
fn test_plan_put_rejects_oversized_value() {
    let client = localhost_client();
    let value = vec![0u8; MAX_VALUE_SIZE + 1];
    let result = client.plan_put("my_key", &value, None);
    assert!(matches!(result, Err(TranDbError::ValueTooLarge(_))));
}

#[test]
fn test_plan_delete_rejects_oversized_key() {
    let client = localhost_client();
    let key = "a".repeat(MAX_KEY_SIZE + 1);
    let result = client.plan_delete(&key);
    assert!(matches!(result, Err(TranDbError::KeyTooLarge(_))));
}

#[test]
fn test_plan_put_accepts_boundary_sizes_and_renders_headers() {
    let client = localhost_client();
    let key = "a".repeat(MAX_KEY_SIZE);
    let value = vec![0u8; MAX_VALUE_SIZE];
    let plan = client.plan_put(&key, &value, Some(9999)).unwrap();
    assert_eq!(plan.url, format!("http://127.0.0.1:8080/keys/{}", key));
    assert_eq!(plan.ttl_header.as_deref(), Some("9999"));
    assert_eq!(plan.token.len(), 36);

    let plan2 = client.plan_put("k", b"v", None).unwrap();
    assert!(plan2.ttl_header.is_none());
}

#[test]
fn test_plan_tokens_are_fresh_per_call() {
    let client = localhost_client();
    let p1 = client.plan_put("k", b"v", None).unwrap();
    let p2 = client.plan_put("k", b"v", None).unwrap();
    assert_ne!(p1.token, p2.token, "each call must generate a fresh idempotency token");
}
