//! The store's guarantees, stated and proved over the engine's transition
//! specs: version assignment, idempotent replay, read-your-writes, tombstone
//! behaviour, preamble ordering and the exact size limits.

use vstd::prelude::*;
use crate::client::{
    classify_get_spec, quoted, spec_parse_etag, strong_get_spec, trim_leading_quotes,
    trim_trailing_quotes, GetResultModel, ReplyModel,
};
use crate::decimal::{
    dec_rep, is_dec_digit, lemma_dec_rep_digits, lemma_dec_value_of_rep, spec_digits,
    spec_parse_u64,
};
use crate::engine::{
    byte_len, delete_spec, err_resp, get_spec, idem_required_message, key_size_message,
    not_found_message, put_spec, replica_message, spec_status, ttl_message, value_size_message,
    NodeRole, RespModel,
};
use crate::errors::ErrModel;
use crate::history::{
    classify_get_record, index_find, index_has, is_write, latest_newer, spec_check, spec_index,
    violation_of, violations_from, write_entry_of, write_version, RecordModel, ViolationModel,
    WriteEntryModel,
};
use crate::store::{spec_is_expired, DbModel, EntryModel};
use crate::{MAX_KEY_SIZE, MAX_VALUE_SIZE};

verus! {

/// Every successful write is assigned exactly `counter + 1` as its version,
/// the counter advances to that version, and no request ever moves the
/// counter backwards: mutations drive it strictly upward.
pub proof fn lemma_put_version_assignment(
    m: DbModel,
    role: NodeRole,
    key: Seq<char>,
    body: Seq<u8>,
    ttl_header: Option<Seq<char>>,
    idem_key: Option<Seq<char>>,
    now: u64,
)
    ensures
        ({
            let (m2, resp) = put_spec(m, role, key, body, ttl_header, idem_key, now);
            &&& m2.next_version >= m.next_version
            &&& (m2 != m ==> {
                &&& resp == RespModel::Mutated { version: m.next_version + 1 }
                &&& m2.next_version == m.next_version + 1
                &&& m2.store.contains_key(key) && m2.store[key].version == m.next_version + 1
            })
        }),
{
}

/// The `DELETE` counterpart of `lemma_put_version_assignment`: a tombstone
/// write takes `counter + 1` and advances the counter; every other outcome
/// leaves the state untouched.
pub proof fn lemma_delete_version_assignment(
    m: DbModel,
    role: NodeRole,
    key: Seq<char>,
    idem_key: Option<Seq<char>>,
    now: u64,
)
    ensures
        ({
            let (m2, resp) = delete_spec(m, role, key, idem_key, now);
            &&& m2.next_version >= m.next_version
            &&& (m2 != m ==> {
                &&& resp == RespModel::Mutated { version: m.next_version + 1 }
                &&& m2.next_version == m.next_version + 1
                &&& m2.store.contains_key(key) && m2.store[key].version == m.next_version + 1
                &&& m2.store[key].value is None
            })
        }),
{
}

/// Replaying a successful `PUT`'s idempotency token on the same key returns
/// the same `ETag` and leaves the whole state — the counter included —
/// unchanged.
pub proof fn lemma_put_replay(
    m: DbModel,
    role: NodeRole,
    key: Seq<char>,
    body1: Seq<u8>,
    ttl1: Option<Seq<char>>,
    body2: Seq<u8>,
    ttl2: Option<Seq<char>>,
    token: Seq<char>,
    now1: u64,
    now2: u64,
)
    requires
        ({
            let (m1, r1) = put_spec(m, role, key, body1, ttl1, Some(token), now1);
            r1 is Mutated
        }),
        body2.len() <= MAX_VALUE_SIZE,
        ttl2 matches Some(h) ==> spec_parse_u64(h) is Some,
    ensures
        ({
            let (m1, r1) = put_spec(m, role, key, body1, ttl1, Some(token), now1);
            let (m2, r2) = put_spec(m1, role, key, body2, ttl2, Some(token), now2);
            &&& r2 == r1
            &&& m2 == m1
        }),
{
}

/// A `GET` after a fresh successful `PUT` returns exactly the bytes that
/// were written, under exactly the version the `PUT` answered as its `ETag`.
pub proof fn lemma_get_returns_what_put_wrote(
    m: DbModel,
    key: Seq<char>,
    body: Seq<u8>,
    ttl_header: Option<Seq<char>>,
    token: Seq<char>,
    now: u64,
    now2: u64,
)
    requires
        ({
            let (m1, r1) = put_spec(m, NodeRole::Primary, key, body, ttl_header, Some(token), now);
            m1 != m
        }),
    ensures
        ({
            let (m1, r1) = put_spec(m, NodeRole::Primary, key, body, ttl_header, Some(token), now);
            get_spec(m1, NodeRole::Primary, key, now2) == (RespModel::Value {
                version: r1->Mutated_version,
                expired: spec_is_expired(m1.store[key], now2),
                body: body,
            })
        }),
{
}

/// After a `DELETE` writes a tombstone, an immediate `GET` of the key
/// answers `404`.
pub proof fn lemma_delete_then_get(
    m: DbModel,
    key: Seq<char>,
    token: Seq<char>,
    now: u64,
    now2: u64,
)
    requires
        ({
            let (m1, r1) = delete_spec(m, NodeRole::Primary, key, Some(token), now);
            m1 != m
        }),
    ensures
        ({
            let (m1, r1) = delete_spec(m, NodeRole::Primary, key, Some(token), now);
            get_spec(m1, NodeRole::Primary, key, now2) == err_resp(404, not_found_message(key))
        }),
{
}

/// After a `DELETE` writes a tombstone, a second `DELETE` of the same key
/// under a token not seen before is a `204` no-op that changes nothing.
pub proof fn lemma_delete_then_delete_noop(
    m: DbModel,
    key: Seq<char>,
    token: Seq<char>,
    token2: Seq<char>,
    now: u64,
    now2: u64,
)
    requires
        ({
            let (m1, r1) = delete_spec(m, NodeRole::Primary, key, Some(token), now);
            m1 != m
        }),
        !m.idempotency.contains_key(token2),
        token2 != token,
    ensures
        ({
            let (m1, r1) = delete_spec(m, NodeRole::Primary, key, Some(token), now);
            delete_spec(m1, NodeRole::Primary, key, Some(token2), now2) == (m1, RespModel::NoContent)
        }),
{
    let (m1, r1) = delete_spec(m, NodeRole::Primary, key, Some(token), now);
    assert(m1.idempotency == m.idempotency.insert(token, m1.idempotency[token]));
    assert(!m1.idempotency.contains_key(token2));
}

/// A `PUT` that recreates a deleted key is assigned a version strictly
/// greater than the tombstone's.
pub proof fn lemma_reput_after_delete_version_increases(
    m: DbModel,
    key: Seq<char>,
    token: Seq<char>,
    now: u64,
    body: Seq<u8>,
    ttl_header: Option<Seq<char>>,
    token2: Seq<char>,
    now2: u64,
)
    requires
        ({
            let (m1, r1) = delete_spec(m, NodeRole::Primary, key, Some(token), now);
            m1 != m
        }),
        !m.idempotency.contains_key(token2),
        token2 != token,
        body.len() <= MAX_VALUE_SIZE,
        ttl_header matches Some(h) ==> spec_parse_u64(h) is Some,
    ensures
        ({
            let (m1, r1) = delete_spec(m, NodeRole::Primary, key, Some(token), now);
            let (m2, r2) = put_spec(
                m1,
                NodeRole::Primary,
                key,
                body,
                ttl_header,
                Some(token2),
                now2,
            );
            &&& r2 is Mutated
            &&& r2->Mutated_version > r1->Mutated_version
        }),
{
    let (m1, r1) = delete_spec(m, NodeRole::Primary, key, Some(token), now);
    assert(m1.idempotency == m.idempotency.insert(token, m1.idempotency[token]));
    assert(!m1.idempotency.contains_key(token2));
}

/// The `PUT` preamble checks the key's size before it checks for the
/// `Idempotency-Key` header: an oversized key without a token is answered
/// with the size message, and that message is not the missing-token message.
pub proof fn lemma_put_key_size_checked_before_token(
    m: DbModel,
    key: Seq<char>,
    body: Seq<u8>,
    ttl_header: Option<Seq<char>>,
    now: u64,
)
    requires
        byte_len(key) > MAX_KEY_SIZE,
    ensures
        put_spec(m, NodeRole::Primary, key, body, ttl_header, None, now) == (
            m,
            err_resp(400, key_size_message()),
        ),
        key_size_message() != idem_required_message(),
{
    assert(key_size_message() != idem_required_message()) by {
        reveal_strlit("Key exceeds maximum size of ");
        reveal_strlit(" bytes");
        reveal_strlit("Idempotency-Key header is required");
        assert(crate::decimal::dec_rep(1024) == crate::decimal::dec_rep(102).push(
            crate::decimal::dec_digit(4),
        ));
        assert(crate::decimal::dec_rep(102) == crate::decimal::dec_rep(10).push(
            crate::decimal::dec_digit(2),
        ));
        assert(crate::decimal::dec_rep(10) == crate::decimal::dec_rep(1).push(
            crate::decimal::dec_digit(0),
        ));
        assert(crate::decimal::dec_rep(1) == seq![crate::decimal::dec_digit(1)]);
        assert(crate::decimal::dec_rep(1024).len() == 4);
        assert(key_size_message().len() == 28 + 4 + 6);
        assert(idem_required_message().len() == 34);
    }
}

/// Sizes exactly at the limits are accepted; exactly one byte over is
/// rejected with `400` and the matching size message.
pub proof fn lemma_size_limits_are_exact(
    m: DbModel,
    key: Seq<char>,
    body: Seq<u8>,
    ttl_header: Option<Seq<char>>,
    token: Seq<char>,
    now: u64,
)
    requires
        !m.idempotency.contains_key(token),
        ttl_header matches Some(h) ==> spec_parse_u64(h) is Some,
    ensures
        ({
            let (m2, resp) = put_spec(m, NodeRole::Primary, key, body, ttl_header, Some(token), now);
            &&& (byte_len(key) == MAX_KEY_SIZE && body.len() <= MAX_VALUE_SIZE ==> resp is Mutated)
            &&& (byte_len(key) == MAX_KEY_SIZE + 1 ==> resp == err_resp(400, key_size_message())
                && m2 == m)
            &&& (byte_len(key) <= MAX_KEY_SIZE && body.len() == MAX_VALUE_SIZE ==> resp is Mutated)
            &&& (byte_len(key) <= MAX_KEY_SIZE && body.len() == MAX_VALUE_SIZE + 1 ==> resp
                == err_resp(400, value_size_message()) && m2 == m)
        }),
{
}

/// The key-size limit is exact for reads and deletes too: a key at the limit
/// is never rejected for its size, one byte over always is.
pub proof fn lemma_key_size_boundary_on_reads_and_deletes(
    m: DbModel,
    key: Seq<char>,
    token: Seq<char>,
    now: u64,
    now2: u64,
)
    requires
        !m.idempotency.contains_key(token),
    ensures
        byte_len(key) == MAX_KEY_SIZE + 1 ==> {
            &&& get_spec(m, NodeRole::Primary, key, now) == err_resp(400, key_size_message())
            &&& delete_spec(m, NodeRole::Primary, key, Some(token), now2) == (
                m,
                err_resp(400, key_size_message()),
            )
        },
        byte_len(key) == MAX_KEY_SIZE ==> {
            &&& spec_status(get_spec(m, NodeRole::Primary, key, now)) != 400
            &&& ({
                let (m2, resp) = delete_spec(m, NodeRole::Primary, key, Some(token), now2);
                resp is NoContent || resp is Mutated
            })
        },
{
}

/// Each write fully replaces the entry's expiration timestamp: a `PUT` with
/// an `X-TTL` header stores its parsed value, and a `PUT` without the header
/// clears any previous one.
pub proof fn lemma_put_replaces_ttl(
    m: DbModel,
    key: Seq<char>,
    body: Seq<u8>,
    ttl_header: Option<Seq<char>>,
    token: Seq<char>,
    now: u64,
)
    requires
        ({
            let (m1, r1) = put_spec(m, NodeRole::Primary, key, body, ttl_header, Some(token), now);
            m1 != m
        }),
    ensures
        ({
            let (m1, r1) = put_spec(m, NodeRole::Primary, key, body, ttl_header, Some(token), now);
            &&& (ttl_header is None ==> m1.store[key].expires_at is None)
            &&& (ttl_header matches Some(h) ==> m1.store[key].expires_at == Some(
                spec_parse_u64(h)->0 as int,
            ))
        }),
{
}

/// The expiration boundary is inclusive: at the instant equal to
/// `expires_at` the entry is already expired.
pub proof fn lemma_expiry_boundary_is_inclusive(e: EntryModel, now: u64)
    requires
        e.expires_at == Some(now as int),
    ensures
        spec_is_expired(e, now),
{
}

/// A replica answers every one of the three key operations with `405` and
/// the replica message, and never changes any state.
pub proof fn lemma_replica_rejects_all_operations(
    m: DbModel,
    key: Seq<char>,
    body: Seq<u8>,
    ttl_header: Option<Seq<char>>,
    idem_key: Option<Seq<char>>,
    now: u64,
)
    ensures
        get_spec(m, NodeRole::Replica, key, now) == err_resp(405, replica_message()),
        put_spec(m, NodeRole::Replica, key, body, ttl_header, idem_key, now) == (
            m,
            err_resp(405, replica_message()),
        ),
        delete_spec(m, NodeRole::Replica, key, idem_key, now) == (
            m,
            err_resp(405, replica_message()),
        ),
        spec_status(err_resp(405, replica_message())) == 405,
{
}

/// An `X-TTL` header that does not parse as an unsigned 64-bit integer —
/// a negative number and non-numeric text included — is rejected with `400`
/// before the idempotency token is even considered.
pub proof fn lemma_bad_ttl_rejected(
    m: DbModel,
    key: Seq<char>,
    body: Seq<u8>,
    ttl_value: Seq<char>,
    idem_key: Option<Seq<char>>,
    now: u64,
)
    requires
        byte_len(key) <= MAX_KEY_SIZE,
        body.len() <= MAX_VALUE_SIZE,
        spec_parse_u64(ttl_value) is None,
    ensures
        put_spec(m, NodeRole::Primary, key, body, Some(ttl_value), idem_key, now) == (
            m,
            err_resp(400, ttl_message()),
        ),
{
}

// --- The wire: how the HTTP layer renders a response, and what the client
// --- makes of it.

/// The faithful HTTP rendering of an engine response: `Value` and `Mutated`
/// are `200` with the version as a quoted-decimal `ETag` (and
/// `X-Expired: true` when marked), `NoContent` is a bare `204`, and an error
/// carries its message in the error body.
pub open spec fn encode_response(r: RespModel) -> ReplyModel {
    match r {
        RespModel::Value { version, expired, body } => ReplyModel {
            status: 200,
            etag: Some(quoted(dec_rep(version))),
            x_expired: if expired {
                Some("true"@)
            } else {
                None
            },
            body: Ok(body),
            error_message: None,
        },
        RespModel::Mutated { version } => ReplyModel {
            status: 200,
            etag: Some(quoted(dec_rep(version))),
            x_expired: None,
            body: Ok(Seq::empty()),
            error_message: None,
        },
        RespModel::NoContent => ReplyModel {
            status: 204,
            etag: None,
            x_expired: None,
            body: Ok(Seq::empty()),
            error_message: None,
        },
        RespModel::Error { status, message } => ReplyModel {
            status,
            etag: None,
            x_expired: None,
            body: Ok(Seq::empty()),
            error_message: Some(message),
        },
    }
}

/// Parsing inverts rendering for `ETag`s: the quoted decimal of any version
/// parses back to that version.
pub proof fn lemma_etag_round_trip(version: int)
    requires
        0 <= version <= u64::MAX,
    ensures
        spec_parse_etag(quoted(dec_rep(version))) == Some(version as u64),
{
    let d = dec_rep(version);
    let q = quoted(d);
    lemma_dec_rep_digits(version);
    assert(is_dec_digit(d[0]));
    assert(d[0] != '"' && d[0] != '+');
    assert(q[0] == '"');
    assert(q.skip(1) =~= d + seq!['"']);
    assert((d + seq!['"'])[0] == d[0]);
    assert(trim_leading_quotes(d + seq!['"']) == d + seq!['"']);
    assert(trim_leading_quotes(q) == trim_leading_quotes(q.skip(1)));
    assert(trim_leading_quotes(q) == d + seq!['"']);
    assert((d + seq!['"']).last() == '"');
    assert((d + seq!['"']).drop_last() =~= d);
    assert(d.last() != '"');
    assert(trim_trailing_quotes(d + seq!['"']) == trim_trailing_quotes(d));
    assert(trim_trailing_quotes(d) == d);
    assert(spec_digits(d) == d);
    lemma_dec_value_of_rep(version);
    assert(spec_parse_u64(d) == Some(version as u64));
}

/// Read-your-writes over the wire: after a fresh successful `PUT`, a read of
/// the key — the server's response rendered onto HTTP and classified by the
/// client — yields exactly the bytes written, under the `PUT`'s `ETag`
/// version.
pub proof fn lemma_client_reads_its_write(
    m: DbModel,
    key: Seq<char>,
    body: Seq<u8>,
    ttl_header: Option<Seq<char>>,
    token: Seq<char>,
    now: u64,
    now2: u64,
)
    requires
        0 <= m.next_version < u64::MAX,
        ({
            let (m1, r1) = put_spec(m, NodeRole::Primary, key, body, ttl_header, Some(token), now);
            m1 != m
        }),
    ensures
        ({
            let (m1, r1) = put_spec(m, NodeRole::Primary, key, body, ttl_header, Some(token), now);
            let reply = encode_response(get_spec(m1, NodeRole::Primary, key, now2));
            classify_get_spec(key, reply) == Ok::<GetResultModel, ErrModel>(
                GetResultModel {
                    value: body,
                    version: r1->Mutated_version,
                    expired: spec_is_expired(m1.store[key], now2),
                },
            )
        }),
{
    let (m1, r1) = put_spec(m, NodeRole::Primary, key, body, ttl_header, Some(token), now);
    let v = m.next_version + 1;
    lemma_etag_round_trip(v);
}

/// An entry written with a TTL already elapsed is still served, but marked:
/// the expired-allowing read returns the value with `expired` set, while the
/// strong read reports the key as not found.
pub proof fn lemma_expired_entry_reads(
    m: DbModel,
    key: Seq<char>,
    body: Seq<u8>,
    ttl_value: Seq<char>,
    token: Seq<char>,
    now: u64,
    now2: u64,
)
    requires
        0 <= m.next_version < u64::MAX,
        ({
            let (m1, r1) = put_spec(
                m,
                NodeRole::Primary,
                key,
                body,
                Some(ttl_value),
                Some(token),
                now,
            );
            m1 != m
        }),
        spec_parse_u64(ttl_value) matches Some(ts) && ts <= now2,
    ensures
        ({
            let (m1, r1) = put_spec(
                m,
                NodeRole::Primary,
                key,
                body,
                Some(ttl_value),
                Some(token),
                now,
            );
            let reply = encode_response(get_spec(m1, NodeRole::Primary, key, now2));
            let soft = classify_get_spec(key, reply);
            &&& soft == Ok::<GetResultModel, ErrModel>(
                GetResultModel { value: body, version: r1->Mutated_version, expired: true },
            )
            &&& strong_get_spec(key, soft) == Err::<GetResultModel, ErrModel>(
                ErrModel::KeyNotFound(key),
            )
        }),
{
    let (m1, r1) = put_spec(m, NodeRole::Primary, key, body, Some(ttl_value), Some(token), now);
    let v = m.next_version + 1;
    lemma_etag_round_trip(v);
    assert(spec_is_expired(m1.store[key], now2));
}

// --- The checker is order-independent ---

/// Globally unique write versions: no two distinct records of a history are
/// writes of the same `(key, version)`.
pub open spec fn unique_write_versions(h: Seq<RecordModel>) -> bool {
    forall|i: int, j: int| #![trigger h[i], h[j]]
        0 <= i < j < h.len() && is_write(h[i]) && is_write(h[j]) ==> !(h[i].key == h[j].key
            && write_version(h[i]) == write_version(h[j]))
}

/// No two entries of an index share a `(key, version)`.
pub open spec fn index_kv_distinct(ix: Seq<WriteEntryModel>) -> bool {
    forall|i: int, j: int| #![trigger ix[i], ix[j]]
        0 <= i < j < ix.len() ==> !(ix[i].key == ix[j].key && ix[i].version == ix[j].version)
}

/// Whether an index holds exactly this entry.
pub open spec fn index_entry_in(ix: Seq<WriteEntryModel>, e: WriteEntryModel) -> bool {
    exists|i: int| 0 <= i < ix.len() && ix[i] == e
}

/// The write index never holds two entries for one `(key, version)`.
proof fn lemma_spec_index_kv_distinct(h: Seq<RecordModel>)
    ensures
        index_kv_distinct(spec_index(h)),
    decreases h.len(),
{
    if h.len() > 0 {
        lemma_spec_index_kv_distinct(h.drop_last());
        let prior = spec_index(h.drop_last());
        let r = h.last();
        if is_write(r) && !index_has(prior, r.key, write_version(r)) {
            let ix = spec_index(h);
            assert forall|i: int, j: int|
                0 <= i < j < ix.len() implies !((#[trigger] ix[i]).key == (#[trigger] ix[j]).key
                && ix[i].version == ix[j].version) by {
                if j < prior.len() {
                    assert(ix[i] == prior[i] && ix[j] == prior[j]);
                } else {
                    assert(ix[j] == write_entry_of(r));
                    assert(ix[i] == prior[i]);
                    if prior[i].key == r.key && prior[i].version == write_version(r) {
                        assert(index_has(prior, r.key, write_version(r)));
                    }
                }
            }
        }
    }
}

/// Under unique write versions, an entry is in a history's index exactly when
/// some record of the history is a write with that entry.
proof fn lemma_index_entry_iff(h: Seq<RecordModel>, e: WriteEntryModel)
    requires
        unique_write_versions(h),
    ensures
        index_entry_in(spec_index(h), e) <==> exists|i: int|
            0 <= i < h.len() && is_write(#[trigger] h[i]) && write_entry_of(h[i]) == e,
    decreases h.len(),
{
    if h.len() > 0 {
        let hp = h.drop_last();
        assert(unique_write_versions(hp)) by {
            assert(forall|i: int, j: int| #![trigger hp[i], hp[j]]
                0 <= i < j < hp.len() ==> hp[i] == h[i] && hp[j] == h[j]);
        }
        lemma_index_entry_iff(hp, e);
        let prior = spec_index(hp);
        let r = h.last();
        let ix = spec_index(h);
        if is_write(r) && !index_has(prior, r.key, write_version(r)) {
            // ix == prior.push(write_entry_of(r))
            if index_entry_in(ix, e) {
                let i = choose|i: int| 0 <= i < ix.len() && ix[i] == e;
                if i < prior.len() {
                    assert(prior[i] == e);
                    assert(index_entry_in(prior, e));
                    let k = choose|k: int|
                        0 <= k < hp.len() && is_write(#[trigger] hp[k]) && write_entry_of(hp[k])
                            == e;
                    assert(h[k] == hp[k]);
                } else {
                    assert(e == write_entry_of(r));
                    assert(h[h.len() - 1] == r);
                }
            }
            if exists|i: int| 0 <= i < h.len() && is_write(#[trigger] h[i]) && write_entry_of(h[i])
                == e {
                let i = choose|i: int|
                    0 <= i < h.len() && is_write(#[trigger] h[i]) && write_entry_of(h[i]) == e;
                if i < h.len() - 1 {
                    assert(hp[i] == h[i]);
                    assert(index_entry_in(prior, e));
                    let k = choose|k: int| 0 <= k < prior.len() && prior[k] == e;
                    assert(ix[k] == e);
                } else {
                    assert(ix[ix.len() - 1] == e);
                }
            }
        } else {
            // ix == prior; a write at the last position would collide with an
            // earlier one, which uniqueness forbids.
            if is_write(r) {
                assert(index_has(prior, r.key, write_version(r)));
                let k = choose|k: int|
                    0 <= k < prior.len() && (#[trigger] prior[k]).key == r.key && prior[k].version
                        == write_version(r);
                assert(index_entry_in(prior, prior[k]));
                lemma_index_entry_iff(hp, prior[k]);
                let w = choose|w: int|
                    0 <= w < hp.len() && is_write(#[trigger] hp[w]) && write_entry_of(hp[w])
                        == prior[k];
                assert(h[w] == hp[w]);
                assert(is_write(h[w]) && h[w].key == r.key && write_version(h[w])
                    == write_version(r));
                assert(h[h.len() - 1] == r);
                assert(false);
            }
            if index_entry_in(ix, e) {
                let k = choose|k: int| 0 <= k < prior.len() && prior[k] == e;
                let w = choose|w: int|
                    0 <= w < hp.len() && is_write(#[trigger] hp[w]) && write_entry_of(hp[w]) == e;
                assert(h[w] == hp[w]);
            }
            if exists|i: int| 0 <= i < h.len() && is_write(#[trigger] h[i]) && write_entry_of(h[i])
                == e {
                let i = choose|i: int|
                    0 <= i < h.len() && is_write(#[trigger] h[i]) && write_entry_of(h[i]) == e;
                assert(i < h.len() - 1);
                assert(hp[i] == h[i]);
            }
        }
    }
}

/// What `index_find` answers, characterized by the index's entries alone.
proof fn lemma_index_find_characterize(ix: Seq<WriteEntryModel>, k: Seq<char>, v: int)
    ensures
        (index_find(ix, k, v) matches Some(e) ==> index_entry_in(ix, e) && e.key == k && e.version
            == v),
        (index_find(ix, k, v) is None ==> forall|i: int|
            0 <= i < ix.len() ==> !((#[trigger] ix[i]).key == k && ix[i].version == v)),
    decreases ix.len(),
{
    if ix.len() > 0 {
        let rest = ix.drop_first();
        lemma_index_find_characterize(rest, k, v);
        if ix.first().key == k && ix.first().version == v {
            assert(ix[0] == ix.first());
        } else {
            match index_find(rest, k, v) {
                Some(e) => {
                    let i = choose|i: int| 0 <= i < rest.len() && rest[i] == e;
                    assert(ix[i + 1] == e);
                },
                None => {
                    assert forall|i: int|
                        0 <= i < ix.len() implies !((#[trigger] ix[i]).key == k && ix[i].version
                        == v) by {
                        if i > 0 {
                            assert(rest[i - 1] == ix[i]);
                        }
                    }
                },
            }
        }
    }
}

/// An index entry qualifies as newer for a read when it is a strictly newer
/// write of the key, acknowledged before the read started.
pub open spec fn qualifies_newer(e: WriteEntryModel, k: Seq<char>, v: int, t: int) -> bool {
    e.key == k && e.version > v && e.ack < t
}

/// What `latest_newer` answers, characterized by the index's entries alone:
/// `None` when no entry qualifies, else the greatest qualifying version.
proof fn lemma_latest_newer_characterize(ix: Seq<WriteEntryModel>, k: Seq<char>, v: int, t: int)
    ensures
        (latest_newer(ix, k, v, t) is None ==> forall|i: int|
            0 <= i < ix.len() ==> !qualifies_newer(#[trigger] ix[i], k, v, t)),
        (latest_newer(ix, k, v, t) matches Some(m) ==> (exists|i: int|
            0 <= i < ix.len() && qualifies_newer(#[trigger] ix[i], k, v, t) && ix[i].version == m)
            && forall|i: int|
            0 <= i < ix.len() && qualifies_newer(#[trigger] ix[i], k, v, t) ==> ix[i].version
                <= m),
    decreases ix.len(),
{
    if ix.len() > 0 {
        let prior = ix.drop_last();
        lemma_latest_newer_characterize(prior, k, v, t);
        let e = ix.last();
        assert(ix[ix.len() - 1] == e);
        assert(forall|i: int| 0 <= i < prior.len() ==> (#[trigger] prior[i]) == ix[i]);
        match latest_newer(ix, k, v, t) {
            None => {
                assert(!qualifies_newer(e, k, v, t) && latest_newer(prior, k, v, t) is None);
                assert forall|i: int|
                    0 <= i < ix.len() implies !qualifies_newer(#[trigger] ix[i], k, v, t) by {
                    if i < prior.len() {
                        assert(ix[i] == prior[i]);
                        assert(!qualifies_newer(prior[i], k, v, t));
                    }
                }
            },
            Some(m) => {
                if qualifies_newer(e, k, v, t) {
                    match latest_newer(prior, k, v, t) {
                        None => {
                            assert(m == e.version);
                            assert forall|i: int|
                                0 <= i < ix.len() && qualifies_newer(
                                #[trigger] ix[i], k, v, t) implies ix[i].version <= m by {
                                if i < prior.len() {
                                    assert(ix[i] == prior[i]);
                                    assert(!qualifies_newer(prior[i], k, v, t));
                                }
                            }
                        },
                        Some(mp) => {
                            assert(m == if mp >= e.version { mp } else { e.version });
                            let i = choose|i: int|
                                0 <= i < prior.len() && qualifies_newer(
                                    #[trigger] prior[i],
                                    k,
                                    v,
                                    t,
                                ) && prior[i].version == mp;
                            assert(ix[i] == prior[i]);
                            if mp >= e.version {
                                assert(qualifies_newer(ix[i], k, v, t) && ix[i].version == m);
                            } else {
                                assert(qualifies_newer(ix[ix.len() - 1], k, v, t)
                                    && ix[ix.len() - 1].version == m);
                            }
                            assert forall|j: int|
                                0 <= j < ix.len() && qualifies_newer(
                                #[trigger] ix[j], k, v, t) implies ix[j].version <= m by {
                                if j < prior.len() {
                                    assert(ix[j] == prior[j]);
                                    assert(prior[j].version <= mp);
                                }
                            }
                        },
                    }
                } else {
                    assert(latest_newer(prior, k, v, t) == Some(m));
                    let i = choose|i: int|
                        0 <= i < prior.len() && qualifies_newer(#[trigger] prior[i], k, v, t)
                            && prior[i].version == m;
                    assert(ix[i] == prior[i]);
                    assert(qualifies_newer(ix[i], k, v, t) && ix[i].version == m);
                    assert forall|j: int|
                        0 <= j < ix.len() && qualifies_newer(
                        #[trigger] ix[j], k, v, t) implies ix[j].version <= m by {
                        if j < prior.len() {
                            assert(ix[j] == prior[j]);
                            assert(prior[j].version <= m);
                        }
                    }
                }
            },
        }
    }
}

/// Two indexes holding the same entries classify every read alike.
proof fn lemma_classify_same(
    ixa: Seq<WriteEntryModel>,
    ixb: Seq<WriteEntryModel>,
    k: Seq<char>,
    v: int,
    value: Seq<u8>,
    start: int,
    ack: int,
)
    requires
        index_kv_distinct(ixa),
        index_kv_distinct(ixb),
        forall|e: WriteEntryModel| #[trigger]
            index_entry_in(ixa, e) <==> #[trigger] index_entry_in(ixb, e),
    ensures
        classify_get_record(ixa, k, v, value, start, ack) == classify_get_record(
            ixb,
            k,
            v,
            value,
            start,
            ack,
        ),
{
    lemma_index_find_characterize(ixa, k, v);
    lemma_index_find_characterize(ixb, k, v);
    // The lookups agree.
    assert(index_find(ixa, k, v) == index_find(ixb, k, v)) by {
        match index_find(ixa, k, v) {
            Some(e) => {
                assert(index_entry_in(ixb, e));
                match index_find(ixb, k, v) {
                    Some(e2) => {
                        // Both match (k, v); entries of one index with one
                        // (k, v) are equal by distinctness.
                        assert(index_entry_in(ixb, e2));
                        let i = choose|i: int| 0 <= i < ixb.len() && ixb[i] == e;
                        let j = choose|j: int| 0 <= j < ixb.len() && ixb[j] == e2;
                        if i != j {
                            assert(false);
                        }
                    },
                    None => {
                        let i = choose|i: int| 0 <= i < ixb.len() && ixb[i] == e;
                        assert(false);
                    },
                }
            },
            None => {
                match index_find(ixb, k, v) {
                    Some(e2) => {
                        assert(index_entry_in(ixa, e2));
                        let i = choose|i: int| 0 <= i < ixa.len() && ixa[i] == e2;
                        assert(false);
                    },
                    None => {
                    },
                }
            },
        }
    }
    // The newest-acknowledged-newer-version scans agree.
    lemma_latest_newer_characterize(ixa, k, v, start);
    lemma_latest_newer_characterize(ixb, k, v, start);
    assert(latest_newer(ixa, k, v, start) == latest_newer(ixb, k, v, start)) by {
        match latest_newer(ixa, k, v, start) {
            Some(ma) => {
                let i = choose|i: int|
                    0 <= i < ixa.len() && qualifies_newer(#[trigger] ixa[i], k, v, start)
                        && ixa[i].version == ma;
                assert(index_entry_in(ixa, ixa[i]));
                assert(index_entry_in(ixb, ixa[i]));
                match latest_newer(ixb, k, v, start) {
                    Some(mb) => {
                        let j = choose|j: int|
                            0 <= j < ixb.len() && qualifies_newer(#[trigger] ixb[j], k, v, start)
                                && ixb[j].version == mb;
                        assert(index_entry_in(ixb, ixb[j]));
                        assert(index_entry_in(ixa, ixb[j]));
                        let ia = choose|ia: int| 0 <= ia < ixa.len() && ixa[ia] == ixb[j];
                        let jb = choose|jb: int| 0 <= jb < ixb.len() && ixb[jb] == ixa[i];
                        assert(ma <= mb && mb <= ma);
                    },
                    None => {
                        let jb = choose|jb: int| 0 <= jb < ixb.len() && ixb[jb] == ixa[i];
                        assert(false);
                    },
                }
            },
            None => {
                match latest_newer(ixb, k, v, start) {
                    Some(mb) => {
                        let j = choose|j: int|
                            0 <= j < ixb.len() && qualifies_newer(#[trigger] ixb[j], k, v, start)
                                && ixb[j].version == mb;
                        assert(index_entry_in(ixb, ixb[j]));
                        assert(index_entry_in(ixa, ixb[j]));
                        let ia = choose|ia: int| 0 <= ia < ixa.len() && ixa[ia] == ixb[j];
                        assert(false);
                    },
                    None => {
                    },
                }
            },
        }
    }
}

/// A violation is among a history's violations exactly when one of its
/// records contributes it.
proof fn lemma_violations_contain(
    ix: Seq<WriteEntryModel>,
    h: Seq<RecordModel>,
    x: ViolationModel,
)
    ensures
        violations_from(ix, h).contains(x) <==> exists|i: int|
            0 <= i < h.len() && violation_of(ix, #[trigger] h[i]) == Some(x),
    decreases h.len(),
{
    if h.len() > 0 {
        let hp = h.drop_last();
        lemma_violations_contain(ix, hp, x);
        assert(forall|i: int| 0 <= i < hp.len() ==> (#[trigger] hp[i]) == h[i]);
        let prior = violations_from(ix, hp);
        let r = h.last();
        assert(h[h.len() - 1] == r);
        match violation_of(ix, r) {
            Some(v) => {
                // violations_from(ix, h) == prior.push(v)
                if violations_from(ix, h).contains(x) {
                    let k = choose|k: int|
                        0 <= k < prior.push(v).len() && prior.push(v)[k] == x;
                    if k < prior.len() {
                        assert(prior[k] == x);
                        assert(prior.contains(x));
                    } else {
                        assert(x == v);
                    }
                }
                if exists|i: int| 0 <= i < h.len() && violation_of(ix, #[trigger] h[i]) == Some(x) {
                    let i = choose|i: int|
                        0 <= i < h.len() && violation_of(ix, #[trigger] h[i]) == Some(x);
                    if i < h.len() - 1 {
                        assert(violation_of(ix, hp[i]) == Some(x));
                        assert(prior.contains(x));
                        let k = choose|k: int| 0 <= k < prior.len() && prior[k] == x;
                        assert(prior.push(v)[k] == x);
                    } else {
                        assert(x == v);
                        assert(prior.push(v)[prior.len() as int] == v);
                    }
                    assert(violations_from(ix, h).contains(x));
                }
            },
            None => {
                if exists|i: int| 0 <= i < h.len() && violation_of(ix, #[trigger] h[i]) == Some(x) {
                    let i = choose|i: int|
                        0 <= i < h.len() && violation_of(ix, #[trigger] h[i]) == Some(x);
                    assert(i < h.len() - 1);
                    assert(violation_of(ix, hp[i]) == Some(x));
                }
            },
        }
    }
}

/// A record contained in one of two multiset-equal histories is contained in
/// the other.
proof fn lemma_contains_transfer(a: Seq<RecordModel>, b: Seq<RecordModel>, r: RecordModel)
    requires
        a.to_multiset() == b.to_multiset(),
        a.contains(r),
    ensures
        b.contains(r),
{
    broadcast use vstd::seq_lib::group_to_multiset_ensures;

    assert(a.to_multiset().count(r) > 0);
    assert(b.to_multiset().count(r) > 0);
}

/// A permutation of a history keeps its write versions unique.
proof fn lemma_permutation_keeps_uniqueness(a: Seq<RecordModel>, b: Seq<RecordModel>)
    requires
        a.to_multiset() == b.to_multiset(),
        unique_write_versions(a),
    ensures
        unique_write_versions(b),
{
    broadcast use vstd::seq_lib::group_to_multiset_ensures;

    assert forall|i: int, j: int| #![trigger b[i], b[j]]
        0 <= i < j < b.len() && is_write(b[i]) && is_write(b[j]) implies !(b[i].key == b[j].key
        && write_version(b[i]) == write_version(b[j])) by {
        if b[i].key == b[j].key && write_version(b[i]) == write_version(b[j]) {
            let r1 = b[i];
            let r2 = b[j];
            if r1 == r2 {
                // The record occurs twice in b, hence twice in a, hence at
                // two positions of a.
                assert(b.remove(i).to_multiset() == b.to_multiset().remove(r1));
                assert(b.remove(i)[j - 1] == r1);
                assert(b.remove(i).contains(r1));
                assert(b.remove(i).to_multiset().count(r1) > 0);
                assert(b.to_multiset().count(r1) >= 2);
                assert(a.to_multiset().count(r1) >= 2);
                assert(a.contains(r1));
                let p = choose|p: int| 0 <= p < a.len() && a[p] == r1;
                assert(a.remove(p).to_multiset() == a.to_multiset().remove(r1));
                assert(a.remove(p).to_multiset().count(r1) > 0);
                assert(a.remove(p).contains(r1));
                let q0 = choose|q0: int| 0 <= q0 < a.remove(p).len() && a.remove(p)[q0] == r1;
                let q = if q0 < p { q0 } else { q0 + 1 };
                assert(a[q] == r1 && q != p);
                if p < q {
                    assert(false);
                } else {
                    assert(false);
                }
            } else {
                assert(b.contains(r1) && b.contains(r2));
                lemma_contains_transfer(b, a, r1);
                lemma_contains_transfer(b, a, r2);
                assert(a.contains(r1) && a.contains(r2));
                let p = choose|p: int| 0 <= p < a.len() && a[p] == r1;
                let q = choose|q: int| 0 <= q < a.len() && a[q] == r2;
                assert(p != q);
                if p < q {
                    assert(false);
                } else {
                    assert(false);
                }
            }
        }
    }
}

/// The checker is order-independent on its input: two histories holding the
/// same records — a shuffle of one another — with globally unique write
/// versions yield the same set of violations.
pub proof fn lemma_checker_order_independent(a: Seq<RecordModel>, b: Seq<RecordModel>)
    requires
        a.to_multiset() == b.to_multiset(),
        unique_write_versions(a),
    ensures
        spec_check(a).to_set() == spec_check(b).to_set(),
{
    broadcast use vstd::seq_lib::group_to_multiset_ensures;

    lemma_permutation_keeps_uniqueness(a, b);
    let ixa = spec_index(a);
    let ixb = spec_index(b);
    lemma_spec_index_kv_distinct(a);
    lemma_spec_index_kv_distinct(b);
    assert forall|e: WriteEntryModel| #[trigger]
        index_entry_in(ixa, e) <==> #[trigger] index_entry_in(ixb, e) by {
        lemma_index_entry_iff(a, e);
        lemma_index_entry_iff(b, e);
        if index_entry_in(ixa, e) {
            let i = choose|i: int|
                0 <= i < a.len() && is_write(#[trigger] a[i]) && write_entry_of(a[i]) == e;
            assert(a.contains(a[i]));
            lemma_contains_transfer(a, b, a[i]);
            let j = choose|j: int| 0 <= j < b.len() && b[j] == a[i];
        }
        if index_entry_in(ixb, e) {
            let i = choose|i: int|
                0 <= i < b.len() && is_write(#[trigger] b[i]) && write_entry_of(b[i]) == e;
            assert(b.contains(b[i]));
            lemma_contains_transfer(b, a, b[i]);
            let j = choose|j: int| 0 <= j < a.len() && a[j] == b[i];
        }
    }
    assert forall|x: ViolationModel|
        spec_check(a).to_set().contains(x) <==> spec_check(b).to_set().contains(x) by {
        lemma_violations_contain(ixa, a, x);
        lemma_violations_contain(ixb, b, x);
        if spec_check(a).contains(x) {
            let i = choose|i: int| 0 <= i < a.len() && violation_of(ixa, #[trigger] a[i]) == Some(x);
            let r = a[i];
            assert(a.contains(r));
            lemma_contains_transfer(a, b, r);
            let j = choose|j: int| 0 <= j < b.len() && b[j] == r;
            match r.outcome {
                crate::history::OutcomeModel::GetOk { version, value } => {
                    lemma_classify_same(ixa, ixb, r.key, version, value, r.start, r.ack);
                },
                _ => {},
            }
            assert(violation_of(ixb, b[j]) == Some(x));
        }
        if spec_check(b).contains(x) {
            let i = choose|i: int| 0 <= i < b.len() && violation_of(ixb, #[trigger] b[i]) == Some(x);
            let r = b[i];
            assert(b.contains(r));
            lemma_contains_transfer(b, a, r);
            let j = choose|j: int| 0 <= j < a.len() && a[j] == r;
            match r.outcome {
                crate::history::OutcomeModel::GetOk { version, value } => {
                    lemma_classify_same(ixa, ixb, r.key, version, value, r.start, r.ack);
                },
                _ => {},
            }
            assert(violation_of(ixa, a[j]) == Some(x));
        }
    }
    assert(spec_check(a).to_set() =~= spec_check(b).to_set());
}


} // verus!
