use transdb::client::{classify_get_response, format_etag, strong_get_filter, HttpReply};
use transdb::engine::{delete_op, get_op, put_op, ApiResponse, NodeRole};
use transdb::errors::TranDbError;
use transdb::store::{assoc_get, DbState, Entry, TOMBSTONE_TTL_SECS};
use transdb::{MAX_KEY_SIZE, MAX_VALUE_SIZE};

const NOW: u64 = 10_000;

fn primary() -> NodeRole {
    NodeRole::Primary
}

fn put_raw(
    db: &mut DbState,
    key: &str,
    value: &[u8],
    ttl: Option<&str>,
    tok: Option<&str>,
) -> ApiResponse {
    put_op(
        db,
        &primary(),
        key.to_string(),
        value.to_vec(),
        ttl.map(|t| t.to_string()),
        tok.map(|t| t.to_string()),
        NOW,
    )
}

/// Issue a PUT and return the stored version.
fn put_key(db: &mut DbState, key: &str, value: &[u8], tok: &str) -> u64 {
    match put_raw(db, key, value, None, Some(tok)) {
        ApiResponse::Mutated { version } => version,
        r => panic!("unexpected PUT status: {}", r.status()),
    }
}

/// Issue a DELETE and return `Some(version)` for a live-key tombstone or
/// `None` for a no-op.
fn delete_key(db: &mut DbState, key: &str, tok: &str) -> Option<u64> {
    let response = delete_op(db, &primary(), key.to_string(), Some(tok.to_string()), NOW);
    match response {
        ApiResponse::Mutated { version } => Some(version),
        ApiResponse::NoContent => None,
        r => panic!("unexpected DELETE status: {}", r.status()),
    }
}

/// Assert the result of a GET: `None` asserts 404, `Some(value)` asserts 200
/// with a matching body.
fn assert_get(db: &DbState, key: &str, expected: Option<&[u8]>) {
    let response = get_op(db, &primary(), &key.to_string(), NOW);
    match expected {
        None => assert_eq!(response.status(), 404),
        Some(value) => match response {
            ApiResponse::Value { body, .. } => assert_eq!(body, value.to_vec()),
            r => panic!("unexpected GET status: {}", r.status()),
        },
    }
}

fn stored_entry(db: &DbState, key: &str) -> Option<Entry> {
    assoc_get(&db.store, &key.to_string()).map(|e| Entry {
        value: e.value.clone(),
        version: e.version,
        expires_at: e.expires_at,
    })
}

fn error_message_of(response: ApiResponse) -> String {
    match response {
        ApiResponse::Error { message, .. } => message,
        r => panic!("expected an error response, got status {}", r.status()),
    }
}

// --- GET ---

#[test]
fn test_get_returns_404_for_missing_key() {
    let db = DbState::new();
    let response = get_op(&db, &primary(), &"missing".to_string(), NOW);
    assert_eq!(response.status(), 404);
    assert_eq!(error_message_of(response), "Key not found: missing");
}

#[test]
fn test_get_returns_value_and_etag() {
    let mut db = DbState::new();
    let v = put_key(&mut db, "k", b"hello", "tok-1");
    let response = get_op(&db, &primary(), &"k".to_string(), NOW);
    match response {
        ApiResponse::Value { version, expired, body } => {
            assert_eq!(version, v);
            assert!(!expired);
            assert_eq!(body, b"hello".to_vec());
        },
        r => panic!("unexpected GET status: {}", r.status()),
    }
}

// --- PUT ---

#[test]
fn test_put_stores_value() {
    let mut db = DbState::new();
    let v = put_key(&mut db, "k", b"hello", "tok-1");
    assert!(v > 0, "ETag must be a positive version");
    let entry = stored_entry(&db, "k").unwrap();
    assert_eq!(entry.value.as_deref().unwrap(), b"hello");
}

/// Two successive PUTs to the same key must produce strictly increasing
/// versions, and GET must reflect the latest one.
#[test]
fn test_put_version_is_monotonic() {
    let mut db = DbState::new();
    let v1 = put_key(&mut db, "k", b"v1", "tok-1");
    let v2 = put_key(&mut db, "k", b"v2", "tok-2");
    assert!(v2 > v1, "second PUT must produce a higher version");

    let response = get_op(&db, &primary(), &"k".to_string(), NOW);
    assert!(matches!(response, ApiResponse::Value { version, .. } if version == v2));
}

/// PUTs to different keys must each consume a unique, monotonically
/// increasing version from the global counter.
#[test]
fn test_put_versions_are_globally_unique() {
    let mut db = DbState::new();
    let va = put_key(&mut db, "a", b"1", "tok-a");
    let vb = put_key(&mut db, "b", b"2", "tok-b");
    assert_ne!(va, vb, "versions across different keys must be unique");
    assert!(vb > va, "later PUT must have higher version regardless of key");
}

// --- DELETE ---

/// DELETE on a live key writes a tombstone: 200 with an ETag, value None,
/// expires_at = now + TOMBSTONE_TTL_SECS.
#[test]
fn test_delete_live_key_writes_tombstone() {
    let mut db = DbState::new();
    let v_put = put_key(&mut db, "k", b"v", "tok-1");
    let v_del = delete_key(&mut db, "k", "tok-del").expect("DELETE on live key must return an ETag");

    assert!(v_del > v_put, "tombstone version must be higher than the preceding PUT");

    let entry = stored_entry(&db, "k").unwrap();
    assert_eq!(entry.value, None, "tombstone value must be None");
    assert_eq!(entry.expires_at, Some(NOW + TOMBSTONE_TTL_SECS), "tombstone must expire in 1 hour");

    // GET on a tombstoned key returns 404.
    assert_get(&db, "k", None);
}

/// DELETE on a missing key is a no-op: 204, store and next_version unchanged.
#[test]
fn test_delete_absent_key_is_noop() {
    let mut db = DbState::new();
    let result = delete_key(&mut db, "missing", "tok-del");
    assert!(result.is_none(), "DELETE on absent key must return 204 No Content");
    assert!(stored_entry(&db, "missing").is_none());
    assert_eq!(db.next_version, 0, "next_version must not advance");
}

/// DELETE on an already-tombstoned key is a no-op: 204, tombstone unchanged.
#[test]
fn test_delete_tombstoned_key_is_noop() {
    let mut db = DbState::new();
    put_key(&mut db, "k", b"v", "tok-put");
    let v_del = delete_key(&mut db, "k", "tok-del1").unwrap();

    let result = delete_key(&mut db, "k", "tok-del2");
    assert!(result.is_none(), "DELETE on tombstone must return 204 No Content");

    let entry = stored_entry(&db, "k").unwrap();
    assert_eq!(entry.version, v_del, "tombstone version must be unchanged");
    assert_eq!(db.next_version, v_del, "next_version must not advance");
}

/// PUT after DELETE must produce a version strictly greater than the
/// tombstone's.
#[test]
fn test_put_after_delete_has_higher_version() {
    let mut db = DbState::new();
    put_key(&mut db, "k", b"v1", "tok-1");
    let v_del = delete_key(&mut db, "k", "tok-del").unwrap();
    let v_put2 = put_key(&mut db, "k", b"v2", "tok-2");
    assert!(v_put2 > v_del, "re-PUT after DELETE must have a higher version than the tombstone");
}

/// DELETE must only affect the specified key; unrelated keys are untouched.
#[test]
fn test_delete_affects_only_specified_key() {
    let mut db = DbState::new();
    put_key(&mut db, "a", b"aaa", "tok-a");
    put_key(&mut db, "b", b"bbb", "tok-b");
    delete_key(&mut db, "a", "tok-del");

    assert_get(&db, "a", None); // tombstoned → 404
    assert_get(&db, "b", Some(b"bbb")); // untouched
}

// --- Idempotency-Key validation ---

#[test]
fn test_put_missing_idempotency_key_returns_400() {
    let mut db = DbState::new();
    let response = put_raw(&mut db, "k", b"hello", None, None);
    assert_eq!(response.status(), 400);
    assert_eq!(error_message_of(response), "Idempotency-Key header is required");
}

#[test]
fn test_delete_missing_idempotency_key_returns_400() {
    let mut db = DbState::new();
    let response = delete_op(&mut db, &primary(), "k".to_string(), None, NOW);
    assert_eq!(response.status(), 400);
    assert_eq!(error_message_of(response), "Idempotency-Key header is required");
}

// --- Idempotency replay ---

/// Replaying a PUT returns the same ETag and does not advance next_version.
#[test]
fn test_put_idempotency_replay() {
    let mut db = DbState::new();
    let v1 = put_key(&mut db, "k", b"v", "replay-tok");
    let version_before_replay = db.next_version;

    let v2 = put_key(&mut db, "k", b"v", "replay-tok");

    assert_eq!(v1, v2, "replayed PUT must return same ETag");
    assert_eq!(db.next_version, version_before_replay, "replay must not advance next_version");
}

/// Replaying a live-key DELETE returns the same 200 + ETag.
#[test]
fn test_delete_live_key_idempotency_replay() {
    let mut db = DbState::new();
    put_key(&mut db, "k", b"v", "tok-put");
    let v_del = delete_key(&mut db, "k", "tok-del").unwrap();

    let replay = delete_op(&mut db, &primary(), "k".to_string(), Some("tok-del".to_string()), NOW);
    assert!(matches!(replay, ApiResponse::Mutated { version } if version == v_del));
}

/// Replaying a live-key DELETE after the key has been re-PUT returns the
/// cached response but does NOT affect the current live entry.
#[test]
fn test_delete_idempotency_replay_does_not_affect_recreated_key() {
    let mut db = DbState::new();
    put_key(&mut db, "k", b"v1", "tok-put-1");
    delete_key(&mut db, "k", "tok-del").unwrap();

    // Recreate the key.
    let v_new = put_key(&mut db, "k", b"v2", "tok-put-2");

    // Replay the original DELETE — must return its cached 200 + ETag but NOT
    // re-delete.
    let replay = delete_op(&mut db, &primary(), "k".to_string(), Some("tok-del".to_string()), NOW);
    assert_eq!(replay.status(), 200);

    // The re-PUT key must still be live.
    assert_get(&db, "k", Some(b"v2"));
    let current_v = stored_entry(&db, "k").unwrap().version;
    assert_eq!(current_v, v_new, "re-PUT version must be unchanged after idempotency replay");
}

// --- Idempotency mismatch (422) ---

#[test]
fn test_put_idempotency_mismatch_different_key_returns_422() {
    let mut db = DbState::new();
    put_key(&mut db, "key_a", b"v", "shared-tok");

    let r2 = put_raw(&mut db, "key_b", b"v", None, Some("shared-tok"));
    assert_eq!(r2.status(), 422);
    assert_eq!(
        error_message_of(r2),
        "Idempotency-Key was already used for a different method or key path"
    );
}

/// PUT with a token previously used for a DELETE (live key) must return 422.
#[test]
fn test_put_idempotency_mismatch_method_returns_422() {
    let mut db = DbState::new();
    put_key(&mut db, "k", b"v", "put-tok");
    delete_key(&mut db, "k", "mixed-tok").unwrap();

    let r2 = put_raw(&mut db, "k", b"v", None, Some("mixed-tok"));
    assert_eq!(r2.status(), 422);
}

/// DELETE with a token previously used for a PUT must return 422.
#[test]
fn test_delete_idempotency_mismatch_method_returns_422() {
    let mut db = DbState::new();
    put_key(&mut db, "k", b"v", "mixed-tok");

    let r2 = delete_op(&mut db, &primary(), "k".to_string(), Some("mixed-tok".to_string()), NOW);
    assert_eq!(r2.status(), 422);
}

/// DELETE with a token previously used for a different key's DELETE must
/// return 422.
#[test]
fn test_delete_idempotency_mismatch_key_returns_422() {
    let mut db = DbState::new();
    put_key(&mut db, "key_a", b"v", "put-tok");
    delete_key(&mut db, "key_a", "shared-tok").unwrap();

    let r2 = delete_op(&mut db, &primary(), "key_b".to_string(), Some("shared-tok".to_string()), NOW);
    assert_eq!(r2.status(), 422);
}

// --- Key size validation ---

#[test]
fn test_get_rejects_key_over_limit() {
    let db = DbState::new();
    let key = "a".repeat(MAX_KEY_SIZE + 1);
    let response = get_op(&db, &primary(), &key, NOW);
    assert_eq!(response.status(), 400);
}

#[test]
fn test_get_accepts_key_at_limit() {
    let db = DbState::new();
    let key = "a".repeat(MAX_KEY_SIZE);
    // Key doesn't exist but size is valid — expect 404, not 400.
    let response = get_op(&db, &primary(), &key, NOW);
    assert_eq!(response.status(), 404);
}

#[test]
fn test_put_rejects_key_over_limit() {
    let mut db = DbState::new();
    let key = "a".repeat(MAX_KEY_SIZE + 1);
    let response = put_raw(&mut db, &key, b"hello", None, Some("tok-1"));
    assert_eq!(response.status(), 400);
}

#[test]
fn test_put_accepts_key_at_limit() {
    let mut db = DbState::new();
    let key = "a".repeat(MAX_KEY_SIZE);
    let response = put_raw(&mut db, &key, b"hello", None, Some("tok-1"));
    assert_eq!(response.status(), 200);
}

#[test]
fn test_put_rejects_value_over_limit() {
    let mut db = DbState::new();
    let body = vec![0u8; MAX_VALUE_SIZE + 1];
    let response = put_raw(&mut db, "k", &body, None, Some("tok-1"));
    assert_eq!(response.status(), 400);
    assert_eq!(error_message_of(response), "Value exceeds maximum size of 4194304 bytes");
}

#[test]
fn test_put_accepts_value_at_limit() {
    let mut db = DbState::new();
    let body = vec![0u8; MAX_VALUE_SIZE];
    let response = put_raw(&mut db, "k", &body, None, Some("tok-1"));
    assert_eq!(response.status(), 200);
}

#[test]
fn test_delete_rejects_key_over_limit() {
    let mut db = DbState::new();
    let key = "a".repeat(MAX_KEY_SIZE + 1);
    let response = delete_op(&mut db, &primary(), key, Some("tok-1".to_string()), NOW);
    assert_eq!(response.status(), 400);
}

#[test]
fn test_delete_accepts_key_at_limit() {
    let mut db = DbState::new();
    let key = "a".repeat(MAX_KEY_SIZE);
    // Absent key → 204 No Content.
    let response = delete_op(&mut db, &primary(), key, Some("tok-1".to_string()), NOW);
    assert_eq!(response.status(), 204);
}

// Key size check must fire before the Idempotency-Key check: the status is
// 400 either way, but the message must be the size message.
#[test]
fn test_put_key_size_checked_before_idempotency_key() {
    let mut db = DbState::new();
    let key = "a".repeat(MAX_KEY_SIZE + 1);
    let response = put_raw(&mut db, &key, b"hello", None, None);
    assert_eq!(response.status(), 400);
    assert_eq!(error_message_of(response), "Key exceeds maximum size of 1024 bytes");
}

#[test]
fn test_delete_key_size_checked_before_idempotency_key() {
    let mut db = DbState::new();
    let key = "a".repeat(MAX_KEY_SIZE + 1);
    let response = delete_op(&mut db, &primary(), key, None, NOW);
    assert_eq!(response.status(), 400);
    assert_eq!(error_message_of(response), "Key exceeds maximum size of 1024 bytes");
}

// --- Entry::is_expired ---

#[test]
fn test_entry_is_expired() {
    assert!(!Entry { value: None, version: 1, expires_at: None }.is_expired(NOW));
    assert!(!Entry { value: None, version: 1, expires_at: Some(NOW + 1) }.is_expired(NOW));
    assert!(Entry { value: None, version: 1, expires_at: Some(NOW) }.is_expired(NOW)); // boundary: now == ttl
    assert!(Entry { value: None, version: 1, expires_at: Some(NOW - 1) }.is_expired(NOW)); // past
}

// --- PUT with X-TTL ---

#[test]
fn test_put_stores_expires_at() {
    let mut db = DbState::new();

    // Future TTL is stored.
    let future = (NOW + 1_000).to_string();
    put_raw(&mut db, "k", b"v", Some(&future), Some("tok-1"));
    assert_eq!(stored_entry(&db, "k").unwrap().expires_at, Some(NOW + 1_000));

    // Past TTL is accepted and stored (no rejection at write time).
    let past = (NOW - 1_000).to_string();
    let response = put_raw(&mut db, "k", b"v", Some(&past), Some("tok-2"));
    assert_eq!(response.status(), 200);
    assert_eq!(stored_entry(&db, "k").unwrap().expires_at, Some(NOW - 1_000));
}

#[test]
fn test_put_with_invalid_ttl_returns_400() {
    let mut db = DbState::new();

    let r1 = put_raw(&mut db, "k", b"v", Some("not-a-number"), Some("tok-1"));
    assert_eq!(r1.status(), 400);
    assert_eq!(error_message_of(r1), "X-TTL must be a non-negative integer");

    let r2 = put_raw(&mut db, "k", b"v", Some("-1"), Some("tok-2"));
    assert_eq!(r2.status(), 400);
    assert_eq!(error_message_of(r2), "X-TTL must be a non-negative integer");
}

#[test]
fn test_put_without_ttl_clears_previous_expires_at() {
    let mut db = DbState::new();

    let t1 = (NOW + 9_000).to_string();
    put_raw(&mut db, "k", b"v1", Some(&t1), Some("tok-1"));
    assert_eq!(stored_entry(&db, "k").unwrap().expires_at, Some(NOW + 9_000));

    let t2 = (NOW + 5_000).to_string();
    put_raw(&mut db, "k", b"v2", Some(&t2), Some("tok-2"));
    assert_eq!(stored_entry(&db, "k").unwrap().expires_at, Some(NOW + 5_000));

    put_raw(&mut db, "k", b"v3", None, Some("tok-3"));
    assert_eq!(stored_entry(&db, "k").unwrap().expires_at, None);
}

#[test]
fn test_put_idempotency_replay_does_not_modify_ttl() {
    let mut db = DbState::new();

    let t1 = (NOW + 9_000).to_string();
    put_raw(&mut db, "k", b"v", Some(&t1), Some("replay-tok"));
    assert_eq!(stored_entry(&db, "k").unwrap().expires_at, Some(NOW + 9_000));

    let t2 = (NOW - 1_000).to_string();
    let r2 = put_raw(&mut db, "k", b"v", Some(&t2), Some("replay-tok"));
    assert_eq!(r2.status(), 200);
    assert_eq!(stored_entry(&db, "k").unwrap().expires_at, Some(NOW + 9_000));
}

// --- GET with X-Expired ---

#[test]
fn test_get_expired_entry() {
    // Past TTL (expires_at < NOW) and boundary (expires_at == NOW) both
    // mark the response as expired; body and ETag are still returned.
    let mut db = DbState::new();
    let past = (NOW - 1_000).to_string();
    put_raw(&mut db, "k", b"stale", Some(&past), Some("tok-1"));
    let response = get_op(&db, &primary(), &"k".to_string(), NOW);
    match response {
        ApiResponse::Value { version, expired, body } => {
            assert_eq!(version, 1);
            assert!(expired);
            assert_eq!(body, b"stale".to_vec());
        },
        r => panic!("unexpected GET status: {}", r.status()),
    }

    let mut db2 = DbState::new();
    let boundary = NOW.to_string();
    put_raw(&mut db2, "k", b"", Some(&boundary), Some("tok-1"));
    let response2 = get_op(&db2, &primary(), &"k".to_string(), NOW);
    assert!(matches!(response2, ApiResponse::Value { expired: true, .. }));
}

#[test]
fn test_get_no_x_expired_for_live_entry() {
    // Future TTL → not expired.
    let mut db = DbState::new();
    let future = (NOW + 1_000).to_string();
    put_raw(&mut db, "k", b"fresh", Some(&future), Some("tok-1"));
    let response = get_op(&db, &primary(), &"k".to_string(), NOW);
    assert!(matches!(response, ApiResponse::Value { expired: false, .. }));

    // No TTL → not expired.
    let mut db2 = DbState::new();
    put_key(&mut db2, "k", b"hello", "tok-1");
    let response2 = get_op(&db2, &primary(), &"k".to_string(), NOW);
    assert!(matches!(response2, ApiResponse::Value { expired: false, .. }));
}

// --- Replica role enforcement ---

#[test]
fn test_replica_rejects_all_key_operations_with_405() {
    let mut db = DbState::new();
    let replica = NodeRole::Replica;

    let get_resp = get_op(&db, &replica, &"k".to_string(), NOW);
    assert_eq!(get_resp.status(), 405);
    assert_eq!(error_message_of(get_resp), "Replica does not accept key operations");

    let put_resp = put_op(
        &mut db,
        &replica,
        "k".to_string(),
        b"v".to_vec(),
        None,
        Some("tok-1".to_string()),
        NOW,
    );
    assert_eq!(put_resp.status(), 405);

    let del_resp = delete_op(&mut db, &replica, "k".to_string(), Some("tok-1".to_string()), NOW);
    assert_eq!(del_resp.status(), 405);
}

// --- End-to-end scenarios ---

/// Basic round-trip: the first PUT takes version 1 and a GET returns the
/// same bytes under that version.
#[test]
fn test_basic_round_trip() {
    let mut db = DbState::new();
    let v = put_key(&mut db, "my_key", b"hello world", "tok-1");
    assert_eq!(v, 1);
    assert_eq!(transdb::client::format_etag(v), "\"1\"");

    let response = get_op(&db, &primary(), &"my_key".to_string(), NOW);
    match response {
        ApiResponse::Value { version, body, .. } => {
            assert_eq!(version, 1);
            assert_eq!(body, b"hello world".to_vec());
        },
        r => panic!("unexpected GET status: {}", r.status()),
    }
}

/// Delete and recreate: versions 1 (PUT), 2 (tombstone), 3 (re-PUT).
#[test]
fn test_delete_and_recreate() {
    let mut db = DbState::new();
    assert_eq!(put_key(&mut db, "k", b"a", "tok-1"), 1);
    assert_eq!(delete_key(&mut db, "k", "tok-2"), Some(2));
    assert_get(&db, "k", None);
    assert_eq!(put_key(&mut db, "k", b"b", "tok-3"), 3);
    assert_get(&db, "k", Some(b"b"));
}

/// Idempotent replay: an identical repeat returns ETag 1 and the counter
/// stays at 1, the store still holding the first write.
#[test]
fn test_idempotent_replay_scenario() {
    let mut db = DbState::new();
    assert_eq!(put_key(&mut db, "k", b"x", "T"), 1);
    assert_eq!(put_key(&mut db, "k", b"x", "T"), 1);
    assert_eq!(db.next_version, 1);
    assert_get(&db, "k", Some(b"x"));
}

/// Idempotency mismatch: the same token on a different key is a 422.
#[test]
fn test_idempotency_mismatch_scenario() {
    let mut db = DbState::new();
    put_key(&mut db, "a", b"v", "T");
    let r2 = put_raw(&mut db, "b", b"v", None, Some("T"));
    assert_eq!(r2.status(), 422);
}

/// Expired entry, end to end: at wall time 10000, a PUT with X-TTL 1 is
/// stored; a GET still serves the value and version but marks it expired.
/// Rendered onto HTTP and classified by the client, the strong read reports
/// the key missing while the expired-allowing read returns the stale value.
#[test]
fn test_expired_entry_scenario() {
    let mut db = DbState::new();
    let r = put_raw(&mut db, "k", b"stale", Some("1"), Some("tok-1"));
    assert!(matches!(r, ApiResponse::Mutated { version: 1 }));

    // The server's response at wall time 10000.
    let response = get_op(&db, &primary(), &"k".to_string(), NOW);
    let (version, expired, body) = match response {
        ApiResponse::Value { version, expired, body } => (version, expired, body),
        r => panic!("unexpected GET status: {}", r.status()),
    };
    assert_eq!(version, 1);
    assert!(expired);
    assert_eq!(body, b"stale".to_vec());

    // The same response as the HTTP layer sends it, classified client-side.
    let reply = HttpReply {
        status: 200,
        etag: Some(format_etag(version)),
        x_expired: Some("true".to_string()),
        body: Ok(body),
        error_message: None,
    };
    let key = "k".to_string();
    let soft = classify_get_response(&key, reply).unwrap();
    assert_eq!(soft.version, 1);
    assert!(soft.expired);
    assert_eq!(soft.value, b"stale");

    let strong = strong_get_filter(&key, Ok(soft));
    assert!(matches!(strong, Err(TranDbError::KeyNotFound(k)) if k == "k"));
}
