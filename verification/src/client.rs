//! The client's request contract: pre-flight size validation, URL and header
//! construction, `ETag` parsing, and the classification of every HTTP reply
//! into a typed result.
//!
//! The HTTP transport itself stays outside the library; it hands each reply
//! back as plain values (`HttpReply`) and performs a request only when the
//! pre-flight plan succeeded.

use vstd::prelude::*;
use crate::decimal::{dec_rep, spec_parse_u64, parse_u64_str, u64_to_string};
use crate::engine::byte_len;
use crate::errors::{ErrModel, TranDbError};
use crate::{MAX_KEY_SIZE, MAX_VALUE_SIZE};

verus! {

/// The cluster's addresses: the primary and an optional replica.
#[derive(Debug, Clone, PartialEq, Eq)]
pub struct Topology {
    pub primary_addr: String,
    pub replica_addr: Option<String>,
}

/// Client configuration.
#[derive(Debug, Clone)]
pub struct ClientConfig {
    pub topology: Topology,
}

/// The mathematical value of a `GetResult`.
pub ghost struct GetResultModel {
    pub value: Seq<u8>,
    pub version: int,
    pub expired: bool,
}

/// What a successful read returns: the bytes, the version from the `ETag`,
/// and whether the server marked the entry as expired.
#[derive(Debug, Clone, PartialEq, Eq)]
pub struct GetResult {
    pub value: Vec<u8>,
    pub version: u64,
    /// `true` when the server answered `X-Expired: true`.
    pub expired: bool,
}

impl View for GetResult {
    type V = GetResultModel;

    open spec fn view(&self) -> GetResultModel {
        GetResultModel { value: self.value@, version: self.version as int, expired: self.expired }
    }
}

/// The URL of a key operation against a target address.
pub open spec fn url_of(target: Seq<char>, key: Seq<char>) -> Seq<char> {
    "http://"@ + target + "/keys/"@ + key
}

/// The typed client: a configuration and the address requests currently go
/// to. The HTTP connection itself lives outside the library.
pub struct Client {
    pub config: ClientConfig,
    /// The address requests currently go to; defaults to the primary.
    pub target: String,
}

impl Client {
    /// The address requests are currently sent to.
    pub open spec fn spec_target(&self) -> Seq<char> {
        self.target@
    }

    /// A client initially routes every request to the primary.
    pub fn new(config: ClientConfig) -> (r: Client)
        ensures
            r.spec_target() == config.topology.primary_addr@,
            r.config == config,
    {
        let target = config.topology.primary_addr.clone();
        Client { config, target }
    }

    /// Reroute all subsequent requests to a bare `host:port` address.
    pub fn set_target(&mut self, addr: &str)
        ensures
            final(self).spec_target() == addr@,
            final(self).config == old(self).config,
    {
        self.target = addr.to_owned();
    }

    /// Build the URL for a key operation against the current target.
    pub fn build_key_url(&self, key: &str) -> (r: String)
        ensures
            r@ == url_of(self.spec_target(), key@),
    {
        let mut url = String::from_str("http://");
        url.append(self.target.as_str());
        url.append("/keys/");
        url.append(key);
        url
    }
}

/// A quoted decimal, as the `ETag` header carries it.
pub open spec fn quoted(s: Seq<char>) -> Seq<char> {
    seq!['"'] + s + seq!['"']
}

/// Render a version as its `ETag` header value: the quoted decimal.
pub fn format_etag(version: u64) -> (r: String)
    ensures
        r@ == quoted(dec_rep(version as int)),
{
    let mut s = String::from_str("\"");
    let digits = u64_to_string(version);
    s.append(digits.as_str());
    s.append("\"");
    proof {
        reveal_strlit("\"");
        assert(s@ =~= quoted(dec_rep(version as int)));
    }
    s
}

/// A string with every leading `"` removed.
pub open spec fn trim_leading_quotes(s: Seq<char>) -> Seq<char>
    decreases s.len(),
{
    if s.len() > 0 && s[0] == '"' {
        trim_leading_quotes(s.skip(1))
    } else {
        s
    }
}

/// A string with every trailing `"` removed.
pub open spec fn trim_trailing_quotes(s: Seq<char>) -> Seq<char>
    decreases s.len(),
{
    if s.len() > 0 && s.last() == '"' {
        trim_trailing_quotes(s.drop_last())
    } else {
        s
    }
}

/// What parsing an `ETag` header text yields: surrounding quotes stripped,
/// then read as a decimal `u64`.
pub open spec fn spec_parse_etag(s: Seq<char>) -> Option<u64> {
    spec_parse_u64(trim_trailing_quotes(trim_leading_quotes(s)))
}

/// Parse an `ETag` header text as a version: strip surrounding quotes and
/// parse the decimal, `None` if that fails.
pub fn parse_etag_text(s: &str) -> (r: Option<u64>)
    ensures
        r == spec_parse_etag(s@),
{
    let len = s.unicode_len();
    let mut lo: usize = 0;
    let mut hi: usize = len;
    proof {
        assert(s@.subrange(0, len as int) =~= s@);
    }
    while lo < len && s.get_char(lo) == '"'
        invariant
            0 <= lo <= len,
            len == s@.len(),
            trim_leading_quotes(s@) == trim_leading_quotes(s@.subrange(lo as int, len as int)),
        decreases len - lo,
    {
        proof {
            assert(s@.subrange(lo as int, len as int).skip(1) =~= s@.subrange(
                lo as int + 1,
                len as int,
            ));
        }
        lo = lo + 1;
    }
    proof {
        // The loop stopped at the end or on a non-quote, so the leading trim
        // is done.
        assert(trim_leading_quotes(s@.subrange(lo as int, len as int)) == s@.subrange(
            lo as int,
            len as int,
        ));
    }
    let ghost mid: Seq<char> = s@.subrange(lo as int, len as int);
    while hi > lo && s.get_char(hi - 1) == '"'
        invariant
            0 <= lo <= hi <= len,
            len == s@.len(),
            mid == s@.subrange(lo as int, len as int),
            trim_leading_quotes(s@) == mid,
            trim_trailing_quotes(mid) == trim_trailing_quotes(s@.subrange(lo as int, hi as int)),
        decreases hi - lo,
    {
        proof {
            assert(s@.subrange(lo as int, hi as int).drop_last() =~= s@.subrange(
                lo as int,
                hi as int - 1,
            ));
        }
        hi = hi - 1;
    }
    proof {
        assert(trim_trailing_quotes(s@.subrange(lo as int, hi as int)) == s@.subrange(
            lo as int,
            hi as int,
        ));
    }
    let core = s.substring_char(lo, hi);
    parse_u64_str(core)
}

/// The mathematical value of an `HttpReply`.
pub ghost struct ReplyModel {
    pub status: int,
    pub etag: Option<Seq<char>>,
    pub x_expired: Option<Seq<char>>,
    pub body: Result<Seq<u8>, Seq<char>>,
    pub error_message: Option<Seq<char>>,
}

/// One HTTP reply, as plain values handed in by the transport:
/// the status, the raw `ETag` and `X-Expired` header texts, the body bytes
/// (or the transport failure met while reading them), and the message parsed
/// out of a JSON error body when the status was not a success.
pub struct HttpReply {
    pub status: u16,
    pub etag: Option<String>,
    pub x_expired: Option<String>,
    pub body: Result<Vec<u8>, String>,
    pub error_message: Option<String>,
}

impl View for HttpReply {
    type V = ReplyModel;

    open spec fn view(&self) -> ReplyModel {
        ReplyModel {
            status: self.status as int,
            etag: match self.etag {
                Some(s) => Some(s@),
                None => None,
            },
            x_expired: match self.x_expired {
                Some(s) => Some(s@),
                None => None,
            },
            body: match self.body {
                Ok(b) => Ok(b@),
                Err(d) => Err(d@),
            },
            error_message: match self.error_message {
                Some(s) => Some(s@),
                None => None,
            },
        }
    }
}

pub open spec fn is_success_status(status: int) -> bool {
    200 <= status < 300
}

/// The default message when a non-success reply carried no parseable error
/// body.
pub open spec fn default_status_message(status: int) -> Seq<char> {
    "Server returned status: "@ + dec_rep(status)
}

/// How a non-success reply maps to an error: `404` means the key was not
/// found; anything else carries the server's message, or the default one.
pub open spec fn classify_error_spec(
    key: Seq<char>,
    status: int,
    error_message: Option<Seq<char>>,
) -> ErrModel {
    if status == 404 {
        ErrModel::KeyNotFound(key)
    } else {
        ErrModel::HttpError(
            status,
            match error_message {
                Some(m) => m,
                None => default_status_message(status),
            },
        )
    }
}

/// The classification of a `GET` reply: non-success becomes an error; a
/// success must carry a parseable `ETag` (else `MissingETag`); the entry is
/// expired exactly when `X-Expired` is literally `true`; a body that could
/// not be read is a network error.
pub open spec fn classify_get_spec(key: Seq<char>, r: ReplyModel) -> Result<
    GetResultModel,
    ErrModel,
> {
    if !is_success_status(r.status) {
        Err(classify_error_spec(key, r.status, r.error_message))
    } else {
        let version = match r.etag {
            Some(t) => spec_parse_etag(t),
            None => None,
        };
        if version is None {
            Err(ErrModel::MissingETag)
        } else {
            let expired = r.x_expired == Some("true"@);
            match r.body {
                Err(d) => Err(ErrModel::NetworkError(d)),
                Ok(b) => Ok(
                    GetResultModel { value: b, version: version->0 as int, expired },
                ),
            }
        }
    }
}

/// The classification of a mutation reply: non-success becomes an error; a
/// success must carry a parseable `ETag`, which is the assigned version.
pub open spec fn classify_put_spec(key: Seq<char>, r: ReplyModel) -> Result<int, ErrModel> {
    if !is_success_status(r.status) {
        Err(classify_error_spec(key, r.status, r.error_message))
    } else {
        match r.etag {
            Some(t) => match spec_parse_etag(t) {
                Some(v) => Ok(v as int),
                None => Err(ErrModel::MissingETag),
            },
            None => Err(ErrModel::MissingETag),
        }
    }
}

/// The classification of a `DELETE` reply: `204` means no tombstone was
/// written; any other success must carry the tombstone's version as its
/// `ETag`.
pub open spec fn classify_delete_spec(key: Seq<char>, r: ReplyModel) -> Result<
    Option<int>,
    ErrModel,
> {
    if !is_success_status(r.status) {
        Err(classify_error_spec(key, r.status, r.error_message))
    } else if r.status == 204 {
        Ok(None)
    } else {
        match r.etag {
            Some(t) => match spec_parse_etag(t) {
                Some(v) => Ok(Some(v as int)),
                None => Err(ErrModel::MissingETag),
            },
            None => Err(ErrModel::MissingETag),
        }
    }
}

/// The view of a read result.
pub open spec fn get_result_view(r: Result<GetResult, TranDbError>) -> Result<
    GetResultModel,
    ErrModel,
> {
    match r {
        Ok(g) => Ok(g@),
        Err(e) => Err(e@),
    }
}

/// The view of a mutation result.
pub open spec fn put_result_view(r: Result<u64, TranDbError>) -> Result<int, ErrModel> {
    match r {
        Ok(v) => Ok(v as int),
        Err(e) => Err(e@),
    }
}

/// The view of a delete result.
pub open spec fn delete_result_view(r: Result<Option<u64>, TranDbError>) -> Result<
    Option<int>,
    ErrModel,
> {
    match r {
        Ok(Some(v)) => Ok(Some(v as int)),
        Ok(None) => Ok(None),
        Err(e) => Err(e@),
    }
}

fn classify_error_response(key: &String, status: u16, error_message: Option<String>) -> (r:
    TranDbError)
    ensures
        r@ == classify_error_spec(
            key@,
            status as int,
            match error_message {
                Some(m) => Some(m@),
                None => None,
            },
        ),
{
    if status == 404 {
        return TranDbError::KeyNotFound(key.clone());
    }
    let message = match error_message {
        Some(m) => m,
        None => {
            let mut m = String::from_str("Server returned status: ");
            let digits = u64_to_string(status as u64);
            m.append(digits.as_str());
            m
        },
    };
    TranDbError::HttpError(status, message)
}

/// Classify a `GET` reply into a typed result.
pub fn classify_get_response(key: &String, reply: HttpReply) -> (r: Result<GetResult, TranDbError>)
    ensures
        get_result_view(r) == classify_get_spec(key@, reply@),
{
    if reply.status < 200 || reply.status >= 300 {
        return Err(classify_error_response(key, reply.status, reply.error_message));
    }
    let version = match &reply.etag {
        Some(t) => match parse_etag_text(t.as_str()) {
            Some(v) => v,
            None => {
                return Err(TranDbError::MissingETag);
            },
        },
        None => {
            return Err(TranDbError::MissingETag);
        },
    };
    let true_text = String::from_str("true");
    let expired = match &reply.x_expired {
        Some(s) => s.eq(&true_text),
        None => false,
    };
    match reply.body {
        Err(d) => Err(TranDbError::NetworkError(d)),
        Ok(b) => Ok(GetResult { value: b, version, expired }),
    }
}

/// The strong-read rule: a result the server marked expired is reported as
/// `KeyNotFound`.
pub open spec fn strong_get_spec(key: Seq<char>, r: Result<GetResultModel, ErrModel>) -> Result<
    GetResultModel,
    ErrModel,
> {
    match r {
        Ok(g) => if g.expired {
            Err(ErrModel::KeyNotFound(key))
        } else {
            Ok(g)
        },
        Err(e) => Err(e),
    }
}

/// Apply the strong-read rule to a soft read's result.
pub fn strong_get_filter(key: &String, r: Result<GetResult, TranDbError>) -> (out: Result<
    GetResult,
    TranDbError,
>)
    ensures
        get_result_view(out) == strong_get_spec(key@, get_result_view(r)),
{
    match r {
        Ok(g) => {
            if g.expired {
                Err(TranDbError::KeyNotFound(key.clone()))
            } else {
                Ok(g)
            }
        },
        Err(e) => Err(e),
    }
}

/// Classify a `PUT` reply into the assigned version.
pub fn classify_put_response(key: &String, reply: HttpReply) -> (r: Result<u64, TranDbError>)
    ensures
        put_result_view(r) == classify_put_spec(key@, reply@),
{
    if reply.status < 200 || reply.status >= 300 {
        return Err(classify_error_response(key, reply.status, reply.error_message));
    }
    match &reply.etag {
        Some(t) => match parse_etag_text(t.as_str()) {
            Some(v) => Ok(v),
            None => Err(TranDbError::MissingETag),
        },
        None => Err(TranDbError::MissingETag),
    }
}

/// Classify a `DELETE` reply: `Ok(None)` on a no-op, `Ok(Some(version))`
/// when a tombstone was written.
pub fn classify_delete_response(key: &String, reply: HttpReply) -> (r: Result<
    Option<u64>,
    TranDbError,
>)
    ensures
        delete_result_view(r) == classify_delete_spec(key@, reply@),
{
    if reply.status < 200 || reply.status >= 300 {
        return Err(classify_error_response(key, reply.status, reply.error_message));
    }
    if reply.status == 204 {
        return Ok(None);
    }
    match &reply.etag {
        Some(t) => match parse_etag_text(t.as_str()) {
            Some(v) => Ok(Some(v)),
            None => Err(TranDbError::MissingETag),
        },
        None => Err(TranDbError::MissingETag),
    }
}

/// Relies on `uuid::Uuid::new_v4` and its hyphenated `Display` form: a
/// freshly generated token rendered as 36 ASCII characters.
#[verifier::external_body]
fn fresh_idempotency_token() -> (r: String)
    ensures
        r@.len() == 36,
{
    uuid::Uuid::new_v4().to_string()
}

/// Everything the transport needs to send a `PUT`: the URL, a fresh
/// idempotency token, and the rendered `X-TTL` header when one was asked
/// for.
#[derive(Debug)]
pub struct PutPlan {
    pub url: String,
    pub token: String,
    pub ttl_header: Option<String>,
}

/// Everything the transport needs to send a `DELETE`.
#[derive(Debug)]
pub struct DeletePlan {
    pub url: String,
    pub token: String,
}

impl Client {
    /// Pre-flight for a read: reject an oversized key without any network
    /// contact, else give the URL to fetch.
    pub fn plan_get(&self, key: &str) -> (r: Result<String, TranDbError>)
        requires
            byte_len(key@) <= usize::MAX,
        ensures
            byte_len(key@) > MAX_KEY_SIZE ==> (r matches Err(e) && e@ == ErrModel::KeyTooLarge(
                MAX_KEY_SIZE as int,
            )),
            byte_len(key@) <= MAX_KEY_SIZE ==> (r matches Ok(url) && url@ == url_of(
                self.spec_target(),
                key@,
            )),
    {
        if key.len() > MAX_KEY_SIZE {
            return Err(TranDbError::KeyTooLarge(MAX_KEY_SIZE));
        }
        Ok(self.build_key_url(key))
    }

    /// Pre-flight for a write: key size first, then value size, both without
    /// any network contact; else the URL, a fresh token, and the rendered
    /// TTL header.
    pub fn plan_put(&self, key: &str, value: &[u8], ttl: Option<u64>) -> (r: Result<
        PutPlan,
        TranDbError,
    >)
        requires
            byte_len(key@) <= usize::MAX,
        ensures
            byte_len(key@) > MAX_KEY_SIZE ==> (r matches Err(e) && e@ == ErrModel::KeyTooLarge(
                MAX_KEY_SIZE as int,
            )),
            byte_len(key@) <= MAX_KEY_SIZE && value@.len() > MAX_VALUE_SIZE ==> (r matches Err(e)
                && e@ == ErrModel::ValueTooLarge(MAX_VALUE_SIZE as int)),
            byte_len(key@) <= MAX_KEY_SIZE && value@.len() <= MAX_VALUE_SIZE ==> (r matches Ok(plan)
                && {
                &&& plan.url@ == url_of(self.spec_target(), key@)
                &&& plan.token@.len() == 36
                &&& (match ttl {
                    Some(t) => plan.ttl_header matches Some(h) && h@ == dec_rep(t as int),
                    None => plan.ttl_header is None,
                })
            }),
    {
        if key.len() > MAX_KEY_SIZE {
            return Err(TranDbError::KeyTooLarge(MAX_KEY_SIZE));
        }
        if value.len() > MAX_VALUE_SIZE {
            return Err(TranDbError::ValueTooLarge(MAX_VALUE_SIZE));
        }
        let url = self.build_key_url(key);
        let token = fresh_idempotency_token();
        let ttl_header = match ttl {
            Some(t) => Some(u64_to_string(t)),
            None => None,
        };
        Ok(PutPlan { url, token, ttl_header })
    }

    /// Pre-flight for a delete: reject an oversized key without any network
    /// contact, else the URL and a fresh token.
    pub fn plan_delete(&self, key: &str) -> (r: Result<DeletePlan, TranDbError>)
        requires
            byte_len(key@) <= usize::MAX,
        ensures
            byte_len(key@) > MAX_KEY_SIZE ==> (r matches Err(e) && e@ == ErrModel::KeyTooLarge(
                MAX_KEY_SIZE as int,
            )),
            byte_len(key@) <= MAX_KEY_SIZE ==> (r matches Ok(plan) && {
                &&& plan.url@ == url_of(self.spec_target(), key@)
                &&& plan.token@.len() == 36
            }),
    {
        if key.len() > MAX_KEY_SIZE {
            return Err(TranDbError::KeyTooLarge(MAX_KEY_SIZE));
        }
        let url = self.build_key_url(key);
        let token = fresh_idempotency_token();
        Ok(DeletePlan { url, token })
    }
}

} // verus!
