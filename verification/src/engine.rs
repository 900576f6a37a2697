//! The request engine: the state machine behind `GET|PUT|DELETE /keys/{key}`.
//!
//! Each handler is a pure function from the store's state and the request's
//! plain values to the response (and, for mutations, the next state). The
//! transition of each operation is stated once as a spec function and the
//! executable body is proved to implement it exactly.

use vstd::prelude::*;
use vstd::utf8::encode_utf8;
use crate::decimal::spec_parse_u64;
use crate::decimal::parse_u64_str;
use crate::errors::{error_message, TranDbError};
use crate::store::{
    assoc_get, assoc_set, clone_bytes, db_inv, spec_is_expired, DbModel, DbState, Entry,
    EntryModel, HttpMethod, IdemModel, IdempotencyRecord, TOMBSTONE_TTL_SECS,
};
use crate::{MAX_KEY_SIZE, MAX_VALUE_SIZE};

verus! {

/// Role this process plays in the cluster.
#[derive(Debug, Clone, PartialEq, Eq, Structural)]
pub enum NodeRole {
    Primary,
    Replica,
}

/// The mathematical value of an `ApiResponse`.
pub ghost enum RespModel {
    Value { version: int, expired: bool, body: Seq<u8> },
    Mutated { version: int },
    NoContent,
    Error { status: int, message: Seq<char> },
}

/// What a handler answers, as plain values: the HTTP layer maps `Value` to
/// `200` with an `ETag` (and `X-Expired: true` when `expired` holds),
/// `Mutated` to `200` with an `ETag`, `NoContent` to `204`, and `Error` to
/// its status with the message in a JSON error body.
pub enum ApiResponse {
    Value { version: u64, expired: bool, body: Vec<u8> },
    Mutated { version: u64 },
    NoContent,
    Error { status: u16, message: String },
}

impl View for ApiResponse {
    type V = RespModel;

    open spec fn view(&self) -> RespModel {
        match self {
            ApiResponse::Value { version, expired, body } => RespModel::Value {
                version: *version as int,
                expired: *expired,
                body: body@,
            },
            ApiResponse::Mutated { version } => RespModel::Mutated { version: *version as int },
            ApiResponse::NoContent => RespModel::NoContent,
            ApiResponse::Error { status, message } => RespModel::Error {
                status: *status as int,
                message: message@,
            },
        }
    }
}

/// The HTTP status of a response model.
pub open spec fn spec_status(r: RespModel) -> int {
    match r {
        RespModel::Value { .. } => 200,
        RespModel::Mutated { .. } => 200,
        RespModel::NoContent => 204,
        RespModel::Error { status, .. } => status,
    }
}

impl ApiResponse {
    /// The HTTP status this response is sent with.
    pub fn status(&self) -> (r: u16)
        ensures
            r as int == spec_status(self@),
    {
        match self {
            ApiResponse::Value { .. } => 200,
            ApiResponse::Mutated { .. } => 200,
            ApiResponse::NoContent => 204,
            ApiResponse::Error { status, .. } => *status,
        }
    }
}

/// The UTF-8 byte length of a string value; sizes are validated in bytes.
pub open spec fn byte_len(s: Seq<char>) -> int {
    encode_utf8(s).len() as int
}

pub open spec fn replica_message() -> Seq<char> {
    "Replica does not accept key operations"@
}

pub open spec fn key_size_message() -> Seq<char> {
    error_message(TranDbError::KeyTooLarge(MAX_KEY_SIZE))
}

pub open spec fn value_size_message() -> Seq<char> {
    error_message(TranDbError::ValueTooLarge(MAX_VALUE_SIZE))
}

pub open spec fn ttl_message() -> Seq<char> {
    "X-TTL must be a non-negative integer"@
}

pub open spec fn idem_required_message() -> Seq<char> {
    "Idempotency-Key header is required"@
}

pub open spec fn idem_conflict_message() -> Seq<char> {
    "Idempotency-Key was already used for a different method or key path"@
}

pub open spec fn not_found_message(key: Seq<char>) -> Seq<char> {
    "Key not found: "@ + key
}

pub open spec fn err_resp(status: int, message: Seq<char>) -> RespModel {
    RespModel::Error { status, message }
}

/// The view of an optional header value.
pub open spec fn opt_str_view(o: Option<String>) -> Option<Seq<char>> {
    match o {
        Some(s) => Some(s@),
        None => None,
    }
}

/// The `GET` state machine: role gate, key size, then lookup. An absent key
/// and a tombstone are both `404`; an expired entry is still returned, only
/// marked.
pub open spec fn get_spec(m: DbModel, role: NodeRole, key: Seq<char>, now: u64) -> RespModel {
    if role is Replica {
        err_resp(405, replica_message())
    } else if byte_len(key) > MAX_KEY_SIZE {
        err_resp(400, key_size_message())
    } else if !m.store.contains_key(key) || m.store[key].value is None {
        err_resp(404, not_found_message(key))
    } else {
        RespModel::Value {
            version: m.store[key].version,
            expired: spec_is_expired(m.store[key], now),
            body: m.store[key].value->0,
        }
    }
}

/// The `PUT` state machine: the preamble in its exact order (role, key size,
/// body size, TTL parse, token required), then the idempotency cache, then
/// the write, which advances the counter by one and replaces the entry and
/// records the token.
pub open spec fn put_spec(
    m: DbModel,
    role: NodeRole,
    key: Seq<char>,
    body: Seq<u8>,
    ttl_header: Option<Seq<char>>,
    idem_key: Option<Seq<char>>,
    now: u64,
) -> (DbModel, RespModel) {
    if role is Replica {
        (m, err_resp(405, replica_message()))
    } else if byte_len(key) > MAX_KEY_SIZE {
        (m, err_resp(400, key_size_message()))
    } else if body.len() > MAX_VALUE_SIZE {
        (m, err_resp(400, value_size_message()))
    } else if ttl_header matches Some(h) && spec_parse_u64(h) is None {
        (m, err_resp(400, ttl_message()))
    } else if idem_key is None {
        (m, err_resp(400, idem_required_message()))
    } else {
        let token = idem_key->0;
        let expires_at: Option<int> = match ttl_header {
            Some(h) => Some(spec_parse_u64(h)->0 as int),
            None => None,
        };
        if m.idempotency.contains_key(token) {
            let rec = m.idempotency[token];
            if rec.method == HttpMethod::Put && rec.key_path == key {
                (m, RespModel::Mutated { version: rec.etag->0 })
            } else {
                (m, err_resp(422, idem_conflict_message()))
            }
        } else {
            let v = m.next_version + 1;
            let m2 = DbModel {
                store: m.store.insert(
                    key,
                    EntryModel { value: Some(body), version: v, expires_at },
                ),
                idempotency: m.idempotency.insert(
                    token,
                    IdemModel {
                        method: HttpMethod::Put,
                        key_path: key,
                        status_code: 200,
                        etag: Some(v),
                        created_at: now as int,
                    },
                ),
                next_version: v,
            };
            (m2, RespModel::Mutated { version: v })
        }
    }
}

/// The `DELETE` state machine: preamble (role, key size, token required),
/// then the idempotency cache, then either a `204` no-op on an absent or
/// tombstoned key (not recorded), or a tombstone write that advances the
/// counter and is recorded under the token.
pub open spec fn delete_spec(
    m: DbModel,
    role: NodeRole,
    key: Seq<char>,
    idem_key: Option<Seq<char>>,
    now: u64,
) -> (DbModel, RespModel) {
    if role is Replica {
        (m, err_resp(405, replica_message()))
    } else if byte_len(key) > MAX_KEY_SIZE {
        (m, err_resp(400, key_size_message()))
    } else if idem_key is None {
        (m, err_resp(400, idem_required_message()))
    } else {
        let token = idem_key->0;
        if m.idempotency.contains_key(token) {
            let rec = m.idempotency[token];
            if rec.method == HttpMethod::Delete && rec.key_path == key {
                (m, RespModel::Mutated { version: rec.etag->0 })
            } else {
                (m, err_resp(422, idem_conflict_message()))
            }
        } else if !m.store.contains_key(key) || m.store[key].value is None {
            (m, RespModel::NoContent)
        } else {
            let v = m.next_version + 1;
            let m2 = DbModel {
                store: m.store.insert(
                    key,
                    EntryModel {
                        value: None,
                        version: v,
                        expires_at: Some(now + TOMBSTONE_TTL_SECS),
                    },
                ),
                idempotency: m.idempotency.insert(
                    token,
                    IdemModel {
                        method: HttpMethod::Delete,
                        key_path: key,
                        status_code: 200,
                        etag: Some(v),
                        created_at: now as int,
                    },
                ),
                next_version: v,
            };
            (m2, RespModel::Mutated { version: v })
        }
    }
}

/// Build an error response.
fn error_response(status: u16, message: String) -> (r: ApiResponse)
    ensures
        r@ == err_resp(status as int, message@),
{
    ApiResponse::Error { status, message }
}

/// Handle `GET /keys/{key}`.
pub fn get_op(db: &DbState, role: &NodeRole, key: &String, now: u64) -> (r: ApiResponse)
    requires
        db.well_formed(),
        byte_len(key@) <= usize::MAX,
    ensures
        r@ == get_spec(db@, *role, key@, now),
{
    if let NodeRole::Replica = role {
        return error_response(405, String::from_str("Replica does not accept key operations"));
    }
    if key.as_str().len() > MAX_KEY_SIZE {
        return error_response(400, TranDbError::KeyTooLarge(MAX_KEY_SIZE).to_string());
    }
    match assoc_get(&db.store, key) {
        None => error_response(404, TranDbError::KeyNotFound(key.clone()).to_string()),
        Some(entry) => match &entry.value {
            None => error_response(404, TranDbError::KeyNotFound(key.clone()).to_string()),
            Some(bytes) => {
                let expired = entry.is_expired(now);
                ApiResponse::Value { version: entry.version, expired, body: clone_bytes(bytes) }
            },
        },
    }
}

/// Handle `PUT /keys/{key}` with the request body and the raw `X-TTL` and
/// `Idempotency-Key` header values (`None` when absent or unreadable).
pub fn put_op(
    db: &mut DbState,
    role: &NodeRole,
    key: String,
    body: Vec<u8>,
    ttl_header: Option<String>,
    idem_key: Option<String>,
    now: u64,
) -> (r: ApiResponse)
    requires
        old(db).well_formed(),
        old(db).next_version < u64::MAX,
        byte_len(key@) <= usize::MAX,
    ensures
        final(db).well_formed(),
        ({
            let (m2, resp) = put_spec(
                old(db)@,
                *role,
                key@,
                body@,
                opt_str_view(ttl_header),
                opt_str_view(idem_key),
                now,
            );
            final(db)@ == m2 && r@ == resp
        }),
{
    if let NodeRole::Replica = role {
        return error_response(405, String::from_str("Replica does not accept key operations"));
    }
    if key.as_str().len() > MAX_KEY_SIZE {
        return error_response(400, TranDbError::KeyTooLarge(MAX_KEY_SIZE).to_string());
    }
    if body.len() > MAX_VALUE_SIZE {
        return error_response(400, TranDbError::ValueTooLarge(MAX_VALUE_SIZE).to_string());
    }
    let expires_at: Option<u64> = match &ttl_header {
        None => None,
        Some(h) => match parse_u64_str(h.as_str()) {
            Some(ts) => Some(ts),
            None => {
                return error_response(400, String::from_str("X-TTL must be a non-negative integer"));
            },
        },
    };
    let token = match idem_key {
        Some(t) => t,
        None => {
            return error_response(400, String::from_str("Idempotency-Key header is required"));
        },
    };
    match assoc_get(&db.idempotency_cache, &token) {
        Some(rec) => {
            if matches!(rec.method, HttpMethod::Put) && rec.key_path.eq(&key) {
                let version = match rec.etag {
                    Some(v) => v,
                    None => {
                        // Unreachable: the store invariant gives every cached
                        // record an ETag.
                        proof {
                            assert(false);
                        }
                        0
                    },
                };
                return ApiResponse::Mutated { version };
            }
            return error_response(
                422,
                String::from_str(
                    "Idempotency-Key was already used for a different method or key path",
                ),
            );
        },
        None => {},
    }
    let version = db.next_version + 1;
    db.next_version = version;
    let entry = Entry { value: Some(body), version, expires_at };
    let ghost m_before = old(db)@;
    assoc_set(&mut db.store, key.clone(), entry);
    let record = IdempotencyRecord {
        method: HttpMethod::Put,
        key_path: key,
        status_code: 200,
        etag: Some(version),
        created_at: now,
    };
    assoc_set(&mut db.idempotency_cache, token, record);
    proof {
        let m2 = db@;
        assert(db_inv(m2)) by {
            assert forall|k: Seq<char>| m2.store.contains_key(k) implies {
                let e = #[trigger] m2.store[k];
                &&& 1 <= e.version <= m2.next_version
                &&& (e.value is None ==> e.expires_at is Some)
            } by {
                if k != key@ {
                    assert(m_before.store.contains_key(k) && m2.store[k] == m_before.store[k]);
                }
            }
            assert forall|k1: Seq<char>, k2: Seq<char>|
                m2.store.contains_key(k1) && m2.store.contains_key(k2) && k1 != k2 implies (
            #[trigger] m2.store[k1]).version != (#[trigger] m2.store[k2]).version by {
                if k1 != key@ && k2 != key@ {
                    assert(m_before.store.contains_key(k1) && m_before.store.contains_key(k2));
                } else if k1 == key@ {
                    assert(m_before.store.contains_key(k2)
                        && m_before.store[k2].version <= m_before.next_version);
                } else {
                    assert(m_before.store.contains_key(k1)
                        && m_before.store[k1].version <= m_before.next_version);
                }
            }
            assert forall|t: Seq<char>| m2.idempotency.contains_key(t) implies {
                let r2 = #[trigger] m2.idempotency[t];
                &&& r2.status_code == 200
                &&& r2.etag matches Some(v) && 1 <= v <= m2.next_version
            } by {
                if t != record.key_path@ {
                }
            }
        }
    }
    ApiResponse::Mutated { version }
}

/// Handle `DELETE /keys/{key}` with the raw `Idempotency-Key` header value
/// (`None` when absent or unreadable).
pub fn delete_op(
    db: &mut DbState,
    role: &NodeRole,
    key: String,
    idem_key: Option<String>,
    now: u64,
) -> (r: ApiResponse)
    requires
        old(db).well_formed(),
        old(db).next_version < u64::MAX,
        now <= u64::MAX - TOMBSTONE_TTL_SECS,
        byte_len(key@) <= usize::MAX,
    ensures
        final(db).well_formed(),
        ({
            let (m2, resp) = delete_spec(old(db)@, *role, key@, opt_str_view(idem_key), now);
            final(db)@ == m2 && r@ == resp
        }),
{
    if let NodeRole::Replica = role {
        return error_response(405, String::from_str("Replica does not accept key operations"));
    }
    if key.as_str().len() > MAX_KEY_SIZE {
        return error_response(400, TranDbError::KeyTooLarge(MAX_KEY_SIZE).to_string());
    }
    let token = match idem_key {
        Some(t) => t,
        None => {
            return error_response(400, String::from_str("Idempotency-Key header is required"));
        },
    };
    match assoc_get(&db.idempotency_cache, &token) {
        Some(rec) => {
            if matches!(rec.method, HttpMethod::Delete) && rec.key_path.eq(&key) {
                let version = match rec.etag {
                    Some(v) => v,
                    None => {
                        // Unreachable: the store invariant gives every cached
                        // record an ETag.
                        proof {
                            assert(false);
                        }
                        0
                    },
                };
                return ApiResponse::Mutated { version };
            }
            return error_response(
                422,
                String::from_str(
                    "Idempotency-Key was already used for a different method or key path",
                ),
            );
        },
        None => {},
    }
    match assoc_get(&db.store, &key) {
        None => {
            return ApiResponse::NoContent;
        },
        Some(entry) => {
            if entry.value.is_none() {
                return ApiResponse::NoContent;
            }
        },
    }
    let version = db.next_version + 1;
    db.next_version = version;
    let entry = Entry { value: None, version, expires_at: Some(now + TOMBSTONE_TTL_SECS) };
    let ghost m_before = old(db)@;
    assoc_set(&mut db.store, key.clone(), entry);
    let record = IdempotencyRecord {
        method: HttpMethod::Delete,
        key_path: key,
        status_code: 200,
        etag: Some(version),
        created_at: now,
    };
    assoc_set(&mut db.idempotency_cache, token, record);
    proof {
        let m2 = db@;
        assert(db_inv(m2)) by {
            assert forall|k: Seq<char>| m2.store.contains_key(k) implies {
                let e = #[trigger] m2.store[k];
                &&& 1 <= e.version <= m2.next_version
                &&& (e.value is None ==> e.expires_at is Some)
            } by {
                if k != key@ {
                    assert(m_before.store.contains_key(k) && m2.store[k] == m_before.store[k]);
                }
            }
            assert forall|k1: Seq<char>, k2: Seq<char>|
                m2.store.contains_key(k1) && m2.store.contains_key(k2) && k1 != k2 implies (
            #[trigger] m2.store[k1]).version != (#[trigger] m2.store[k2]).version by {
                if k1 != key@ && k2 != key@ {
                    assert(m_before.store.contains_key(k1) && m_before.store.contains_key(k2));
                } else if k1 == key@ {
                    assert(m_before.store.contains_key(k2)
                        && m_before.store[k2].version <= m_before.next_version);
                } else {
                    assert(m_before.store.contains_key(k1)
                        && m_before.store[k1].version <= m_before.next_version);
                }
            }
            assert forall|t: Seq<char>| m2.idempotency.contains_key(t) implies {
                let r2 = #[trigger] m2.idempotency[t];
                &&& r2.status_code == 200
                &&& r2.etag matches Some(v) && 1 <= v <= m2.next_version
            } by {}
        }
    }
    ApiResponse::Mutated { version }
}

} // verus!
