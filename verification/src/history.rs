//! The off-line history checker: classifies every observed `GET` against an
//! index of acknowledged writes and reports hard (safety) and soft
//! (staleness) violations.
//!
//! Timestamps are instants of one monotonic clock, as plain numbers; only
//! their order matters.

use vstd::prelude::*;
use crate::store::clone_bytes;

verus! {

/// Which operation a record describes.
#[derive(Debug, Clone, PartialEq, Eq, Structural)]
pub enum OpKind {
    Put,
    Get,
    GetAllowingExpired,
    Delete,
}

/// The mathematical value of an `OpOutcome`.
pub ghost enum OutcomeModel {
    PutOk { version: int, value: Seq<u8> },
    GetOk { version: int, value: Seq<u8> },
    NotFound,
    DeleteOk { version: int },
    Error,
}

/// What the client observed for one operation. A `DELETE` that answered
/// `204` (no-op) is recorded as `NotFound`, not `DeleteOk`.
#[derive(Debug, Clone)]
pub enum OpOutcome {
    /// The `PUT` succeeded; `value` is what was written.
    PutOk { version: u64, value: Vec<u8> },
    GetOk { version: u64, value: Vec<u8> },
    NotFound,
    /// A tombstone was written (the client saw `200` with an `ETag`).
    DeleteOk { version: u64 },
    /// 5xx or a transport failure; not checked.
    Error,
}

impl View for OpOutcome {
    type V = OutcomeModel;

    open spec fn view(&self) -> OutcomeModel {
        match self {
            OpOutcome::PutOk { version, value } => OutcomeModel::PutOk {
                version: *version as int,
                value: value@,
            },
            OpOutcome::GetOk { version, value } => OutcomeModel::GetOk {
                version: *version as int,
                value: value@,
            },
            OpOutcome::NotFound => OutcomeModel::NotFound,
            OpOutcome::DeleteOk { version } => OutcomeModel::DeleteOk {
                version: *version as int,
            },
            OpOutcome::Error => OutcomeModel::Error,
        }
    }
}

/// The mathematical value of an `OpRecord`.
pub ghost struct RecordModel {
    pub start: int,
    pub ack: int,
    pub key: Seq<char>,
    pub kind: OpKind,
    pub outcome: OutcomeModel,
}

/// One observed operation: when the client sent it, when the response
/// arrived, and what came back.
#[derive(Debug, Clone)]
pub struct OpRecord {
    /// When the client sent the request.
    pub client_start_ts: u64,
    /// When the client received the response (the ACK).
    pub client_ack_ts: u64,
    pub key: String,
    pub kind: OpKind,
    pub outcome: OpOutcome,
}

impl View for OpRecord {
    type V = RecordModel;

    open spec fn view(&self) -> RecordModel {
        RecordModel {
            start: self.client_start_ts as int,
            ack: self.client_ack_ts as int,
            key: self.key@,
            kind: self.kind,
            outcome: self.outcome@,
        }
    }
}

/// A recorded operation history.
pub struct History(pub Vec<OpRecord>);

impl View for History {
    type V = Seq<RecordModel>;

    open spec fn view(&self) -> Seq<RecordModel> {
        self.0@.map_values(|r: OpRecord| r@)
    }
}

/// The mathematical value of a `ViolationKind`.
pub ghost enum ViolationKindModel {
    VersionNotFound { actual: Seq<u8> },
    ReadBeforeWriteStart { put_start: int, get_ack: int },
    ValueMismatch { expected: Seq<u8>, actual: Seq<u8> },
    StaleDataReturned { latest: int },
}

/// Why a `GET` is inconsistent with the write history.
#[derive(Debug, Clone)]
pub enum ViolationKind {
    /// No write ever produced this `(key, version)`, or a data payload was
    /// returned for a version a tombstone occupies.
    VersionNotFound { actual: Vec<u8> },
    /// The `GET` fully completed before the write producing its version even
    /// started — causally impossible.
    ReadBeforeWriteStart { put_start_ts: u64, get_ack_ts: u64 },
    /// The right version, but the bytes differ from what was written.
    ValueMismatch { expected: Vec<u8>, actual: Vec<u8> },
    /// A strictly newer write for the key was already acknowledged before the
    /// `GET` started, yet the older version was returned. Soft: reported,
    /// not counted as a safety error.
    StaleDataReturned { latest_known_version: u64 },
}

impl View for ViolationKind {
    type V = ViolationKindModel;

    open spec fn view(&self) -> ViolationKindModel {
        match self {
            ViolationKind::VersionNotFound { actual } => ViolationKindModel::VersionNotFound {
                actual: actual@,
            },
            ViolationKind::ReadBeforeWriteStart { put_start_ts, get_ack_ts } =>
                ViolationKindModel::ReadBeforeWriteStart {
                put_start: *put_start_ts as int,
                get_ack: *get_ack_ts as int,
            },
            ViolationKind::ValueMismatch { expected, actual } => ViolationKindModel::ValueMismatch {
                expected: expected@,
                actual: actual@,
            },
            ViolationKind::StaleDataReturned { latest_known_version } =>
                ViolationKindModel::StaleDataReturned { latest: *latest_known_version as int },
        }
    }
}

/// The mathematical value of a `Violation`.
pub ghost struct ViolationModel {
    pub key: Seq<char>,
    pub version: int,
    pub kind: ViolationKindModel,
}

/// One inconsistent `GET`.
#[derive(Debug, Clone)]
pub struct Violation {
    pub key: String,
    pub version: u64,
    pub kind: ViolationKind,
}

impl View for Violation {
    type V = ViolationModel;

    open spec fn view(&self) -> ViolationModel {
        ViolationModel { key: self.key@, version: self.version as int, kind: self.kind@ }
    }
}

// --- The write index ---

/// The mathematical value of a write-index entry.
pub ghost struct WriteEntryModel {
    pub key: Seq<char>,
    pub version: int,
    /// `None` when the write was a tombstone (a `DeleteOk`).
    pub payload: Option<Seq<u8>>,
    pub start: int,
    pub ack: int,
}

/// One `(key, version)` of the write index, with the write's payload and
/// time window.
pub struct WriteEntry {
    pub key: String,
    pub version: u64,
    pub payload: Option<Vec<u8>>,
    pub start_ts: u64,
    pub ack_ts: u64,
}

impl View for WriteEntry {
    type V = WriteEntryModel;

    open spec fn view(&self) -> WriteEntryModel {
        WriteEntryModel {
            key: self.key@,
            version: self.version as int,
            payload: match self.payload {
                Some(p) => Some(p@),
                None => None,
            },
            start: self.start_ts as int,
            ack: self.ack_ts as int,
        }
    }
}

/// Whether a record is a write: a successful `PUT` or a tombstone-writing
/// `DELETE`.
pub open spec fn is_write(r: RecordModel) -> bool {
    r.outcome is PutOk || r.outcome is DeleteOk
}

pub open spec fn write_version(r: RecordModel) -> int {
    match r.outcome {
        OutcomeModel::PutOk { version, .. } => version,
        OutcomeModel::DeleteOk { version } => version,
        _ => 0,
    }
}

pub open spec fn write_payload(r: RecordModel) -> Option<Seq<u8>> {
    match r.outcome {
        OutcomeModel::PutOk { value, .. } => Some(value),
        _ => None,
    }
}

pub open spec fn write_entry_of(r: RecordModel) -> WriteEntryModel {
    WriteEntryModel {
        key: r.key,
        version: write_version(r),
        payload: write_payload(r),
        start: r.start,
        ack: r.ack,
    }
}

/// Whether the index holds an entry for `(key, version)`.
pub open spec fn index_has(ix: Seq<WriteEntryModel>, key: Seq<char>, version: int) -> bool {
    exists|i: int| 0 <= i < ix.len() && (#[trigger] ix[i]).key == key && ix[i].version == version
}

/// The write index of a history: one entry per distinct `(key, version)`
/// among the writes, the first write winning, in order of first appearance.
pub open spec fn spec_index(h: Seq<RecordModel>) -> Seq<WriteEntryModel>
    decreases h.len(),
{
    if h.len() == 0 {
        Seq::empty()
    } else {
        let prior = spec_index(h.drop_last());
        let r = h.last();
        if is_write(r) && !index_has(prior, r.key, write_version(r)) {
            prior.push(write_entry_of(r))
        } else {
            prior
        }
    }
}

/// The first index entry for `(key, version)`.
pub open spec fn index_find(ix: Seq<WriteEntryModel>, key: Seq<char>, version: int) -> Option<
    WriteEntryModel,
>
    decreases ix.len(),
{
    if ix.len() == 0 {
        None
    } else if ix.first().key == key && ix.first().version == version {
        Some(ix.first())
    } else {
        index_find(ix.drop_first(), key, version)
    }
}

/// The greatest version above `version` for `key` among index entries
/// acknowledged strictly before `t`, if any.
pub open spec fn latest_newer(
    ix: Seq<WriteEntryModel>,
    key: Seq<char>,
    version: int,
    t: int,
) -> Option<int>
    decreases ix.len(),
{
    if ix.len() == 0 {
        None
    } else {
        let rest = latest_newer(ix.drop_last(), key, version, t);
        let e = ix.last();
        if e.key == key && e.version > version && e.ack < t {
            match rest {
                None => Some(e.version),
                Some(m) => Some(if m >= e.version {
                    m
                } else {
                    e.version
                }),
            }
        } else {
            rest
        }
    }
}

/// The classification of one `GetOk` against the write index, as spec.
///
/// In order: an unindexed version is a hard `VersionNotFound`; a write that
/// started only after the `GET` was fully acknowledged is a hard
/// `ReadBeforeWriteStart`; a write definitively acknowledged before the
/// `GET` started must be a data write with the same bytes, and is checked
/// for a newer acknowledged write (soft staleness); an overlapping window is
/// ambiguous and no violation.
pub open spec fn classify_get_record(
    ix: Seq<WriteEntryModel>,
    key: Seq<char>,
    version: int,
    value: Seq<u8>,
    start: int,
    ack: int,
) -> Option<ViolationKindModel> {
    match index_find(ix, key, version) {
        None => Some(ViolationKindModel::VersionNotFound { actual: value }),
        Some(w) => {
            if w.start > ack {
                Some(ViolationKindModel::ReadBeforeWriteStart { put_start: w.start, get_ack: ack })
            } else if w.ack <= start {
                if w.payload is None {
                    Some(ViolationKindModel::VersionNotFound { actual: value })
                } else if w.payload->0 != value {
                    Some(
                        ViolationKindModel::ValueMismatch { expected: w.payload->0, actual: value },
                    )
                } else {
                    match latest_newer(ix, key, version, start) {
                        Some(m) => Some(ViolationKindModel::StaleDataReturned { latest: m }),
                        None => None,
                    }
                }
            } else {
                None
            }
        },
    }
}

/// The violation a record contributes, if any: only `GetOk` records are
/// checked.
pub open spec fn violation_of(ix: Seq<WriteEntryModel>, r: RecordModel) -> Option<ViolationModel> {
    match r.outcome {
        OutcomeModel::GetOk { version, value } => match classify_get_record(
            ix,
            r.key,
            version,
            value,
            r.start,
            r.ack,
        ) {
            Some(kind) => Some(ViolationModel { key: r.key, version, kind }),
            None => None,
        },
        _ => None,
    }
}

/// All violations of a history's records against an index, in record order.
pub open spec fn violations_from(ix: Seq<WriteEntryModel>, h: Seq<RecordModel>) -> Seq<
    ViolationModel,
>
    decreases h.len(),
{
    if h.len() == 0 {
        Seq::empty()
    } else {
        let prior = violations_from(ix, h.drop_last());
        match violation_of(ix, h.last()) {
            Some(v) => prior.push(v),
            None => prior,
        }
    }
}

/// The checker's full specification: classify every `GetOk` of the history
/// against the history's own write index.
pub open spec fn spec_check(h: Seq<RecordModel>) -> Seq<ViolationModel> {
    violations_from(spec_index(h), h)
}

/// The view of a violation list.
pub open spec fn violations_view(s: Seq<Violation>) -> Seq<ViolationModel> {
    s.map_values(|v: Violation| v@)
}

// --- Executable checker ---

fn index_lookup<'a>(ix: &'a Vec<WriteEntry>, key: &String, version: u64) -> (r: Option<
    &'a WriteEntry,
>)
    ensures
        match r {
            Some(e) => index_find(ix@.map_values(|w: WriteEntry| w@), key@, version as int)
                == Some(e@),
            None => index_find(ix@.map_values(|w: WriteEntry| w@), key@, version as int) is None,
        },
{
    let ghost ixm = ix@.map_values(|w: WriteEntry| w@);
    let n = ix.len();
    let mut i: usize = 0;
    proof {
        assert(ixm.skip(0) =~= ixm);
    }
    while i < n
        invariant
            0 <= i <= n,
            n == ix@.len(),
            ixm == ix@.map_values(|w: WriteEntry| w@),
            index_find(ixm, key@, version as int) == index_find(
                ixm.skip(i as int),
                key@,
                version as int,
            ),
        decreases n - i,
    {
        proof {
            assert(ixm.skip(i as int).first() == ixm[i as int]);
            assert(ixm.skip(i as int).drop_first() =~= ixm.skip(i as int + 1));
        }
        if ix[i].key.eq(key) && ix[i].version == version {
            return Some(&ix[i]);
        }
        i = i + 1;
    }
    proof {
        assert(ixm.skip(n as int).len() == 0);
    }
    None
}

fn index_latest_newer(ix: &Vec<WriteEntry>, key: &String, version: u64, t: u64) -> (r: Option<u64>)
    ensures
        ({
            let spec = latest_newer(ix@.map_values(|w: WriteEntry| w@), key@, version as int, t as int);
            match r {
                Some(m) => spec == Some(m as int),
                None => spec is None,
            }
        }),
{
    let ghost ixm = ix@.map_values(|w: WriteEntry| w@);
    let n = ix.len();
    let mut best: Option<u64> = None;
    let mut i: usize = 0;
    while i < n
        invariant
            0 <= i <= n,
            n == ix@.len(),
            ixm == ix@.map_values(|w: WriteEntry| w@),
            ({
                let spec = latest_newer(ixm.take(i as int), key@, version as int, t as int);
                match best {
                    Some(m) => spec == Some(m as int),
                    None => spec is None,
                }
            }),
        decreases n - i,
    {
        proof {
            assert(ixm.take(i as int + 1).drop_last() =~= ixm.take(i as int));
            assert(ixm.take(i as int + 1).last() == ixm[i as int]);
        }
        if ix[i].key.eq(key) && ix[i].version > version && ix[i].ack_ts < t {
            best = match best {
                None => Some(ix[i].version),
                Some(m) => if m >= ix[i].version {
                    Some(m)
                } else {
                    Some(ix[i].version)
                },
            };
        }
        i = i + 1;
    }
    proof {
        assert(ixm.take(n as int) =~= ixm);
    }
    best
}

fn clone_opt_bytes(v: &Option<Vec<u8>>) -> (r: Option<Vec<u8>>)
    ensures
        match (r, v) {
            (Some(a), Some(b)) => a@ == b@,
            (None, None) => true,
            _ => false,
        },
{
    match v {
        Some(b) => Some(clone_bytes(b)),
        None => None,
    }
}

fn bytes_eq(a: &Vec<u8>, b: &Vec<u8>) -> (r: bool)
    ensures
        r == (a@ == b@),
{
    let n = a.len();
    if n != b.len() {
        proof {
            assert(a@ != b@) by {
                assert(a@.len() != b@.len());
            }
        }
        return false;
    }
    let mut i: usize = 0;
    while i < n
        invariant
            0 <= i <= n,
            n == a@.len(),
            n == b@.len(),
            forall|j: int| 0 <= j < i ==> a@[j] == b@[j],
        decreases n - i,
    {
        if a[i] != b[i] {
            return false;
        }
        i = i + 1;
    }
    proof {
        assert(a@ =~= b@);
    }
    true
}

impl History {
    /// Check every successful `GET` against the write index built from this
    /// history. Returns one `Violation` per inconsistent `GET`, in record
    /// order, exactly as `spec_check` states.
    pub fn check_correctness(&self) -> (r: Vec<Violation>)
        ensures
            violations_view(r@) == spec_check(self@),
    {
        let ghost h = self@;
        let records = &self.0;
        let n = records.len();

        // Build the write index: one entry per distinct (key, version), the
        // first write winning.
        let mut index: Vec<WriteEntry> = Vec::new();
        let mut i: usize = 0;
        proof {
            assert(h.take(0) =~= Seq::<RecordModel>::empty());
            assert(index@.map_values(|w: WriteEntry| w@) =~= spec_index(h.take(0)));
        }
        while i < n
            invariant
                0 <= i <= n,
                n == records@.len(),
                h == records@.map_values(|r: OpRecord| r@),
                index@.map_values(|w: WriteEntry| w@) == spec_index(h.take(i as int)),
            decreases n - i,
        {
            let ghost ixm = index@.map_values(|w: WriteEntry| w@);
            proof {
                assert(h.take(i as int + 1).drop_last() =~= h.take(i as int));
                assert(h.take(i as int + 1).last() == h[i as int]);
                assert(h[i as int] == records@[i as int]@);
            }
            let rec = &records[i];
            let write: Option<(u64, Option<Vec<u8>>)> = match &rec.outcome {
                OpOutcome::PutOk { version, value } => Some((*version, Some(clone_bytes(value)))),
                OpOutcome::DeleteOk { version } => Some((*version, None)),
                _ => None,
            };
            match write {
                Some((version, payload)) => {
                    let seen = index_lookup(&index, &rec.key, version);
                    let is_new = seen.is_none();
                    proof {
                        let find = index_find(ixm, rec.key@, version as int);
                        lemma_index_find_has(ixm, rec.key@, version as int);
                        assert(is_new == !index_has(ixm, rec.key@, version as int));
                    }
                    if is_new {
                        let entry = WriteEntry {
                            key: rec.key.clone(),
                            version,
                            payload,
                            start_ts: rec.client_start_ts,
                            ack_ts: rec.client_ack_ts,
                        };
                        proof {
                            assert(entry@ == write_entry_of(h[i as int]));
                        }
                        index.push(entry);
                        proof {
                            assert(index@.map_values(|w: WriteEntry| w@) =~= ixm.push(
                                write_entry_of(h[i as int]),
                            ));
                        }
                    }
                },
                None => {
                    proof {
                        assert(!is_write(h[i as int]));
                    }
                },
            }
            i = i + 1;
        }
        proof {
            assert(h.take(n as int) =~= h);
        }
        let ghost ixm = index@.map_values(|w: WriteEntry| w@);

        // Classify every GetOk against the index.
        let mut out: Vec<Violation> = Vec::new();
        let mut j: usize = 0;
        proof {
            assert(h.take(0) =~= Seq::<RecordModel>::empty());
            assert(violations_view(out@) =~= violations_from(ixm, h.take(0)));
        }
        while j < n
            invariant
                0 <= j <= n,
                n == records@.len(),
                h == records@.map_values(|r: OpRecord| r@),
                ixm == spec_index(h),
                index@.map_values(|w: WriteEntry| w@) == ixm,
                violations_view(out@) == violations_from(ixm, h.take(j as int)),
            decreases n - j,
        {
            proof {
                assert(h.take(j as int + 1).drop_last() =~= h.take(j as int));
                assert(h.take(j as int + 1).last() == h[j as int]);
                assert(h[j as int] == records@[j as int]@);
            }
            let rec = &records[j];
            match &rec.outcome {
                OpOutcome::GetOk { version, value } => {
                    let kind = classify_get(
                        &index,
                        &rec.key,
                        *version,
                        value,
                        rec.client_start_ts,
                        rec.client_ack_ts,
                    );
                    match kind {
                        Some(k) => {
                            let v = Violation { key: rec.key.clone(), version: *version, kind: k };
                            proof {
                                assert(violation_of(ixm, h[j as int]) == Some(v@));
                            }
                            out.push(v);
                            proof {
                                assert(violations_view(out@) =~= violations_from(
                                    ixm,
                                    h.take(j as int),
                                ).push(v@));
                            }
                        },
                        None => {
                            proof {
                                assert(violation_of(ixm, h[j as int]) is None);
                            }
                        },
                    }
                },
                _ => {
                    proof {
                        assert(violation_of(ixm, h[j as int]) is None);
                    }
                },
            }
            j = j + 1;
        }
        proof {
            assert(h.take(n as int) =~= h);
        }
        out
    }
}

/// `index_find` succeeds exactly when the index has the `(key, version)`.
proof fn lemma_index_find_has(ix: Seq<WriteEntryModel>, key: Seq<char>, version: int)
    ensures
        index_find(ix, key, version) is Some <==> index_has(ix, key, version),
    decreases ix.len(),
{
    if ix.len() > 0 {
        lemma_index_find_has(ix.drop_first(), key, version);
        if ix.first().key == key && ix.first().version == version {
            assert(ix[0].key == key && ix[0].version == version);
        } else {
            if index_has(ix.drop_first(), key, version) {
                let i = choose|i: int|
                    0 <= i < ix.drop_first().len() && (#[trigger] ix.drop_first()[i]).key == key
                        && ix.drop_first()[i].version == version;
                assert(ix[i + 1].key == key && ix[i + 1].version == version);
            }
            if index_has(ix, key, version) {
                let i = choose|i: int|
                    0 <= i < ix.len() && (#[trigger] ix[i]).key == key && ix[i].version == version;
                assert(i != 0);
                assert(ix.drop_first()[i - 1].key == key && ix.drop_first()[i - 1].version
                    == version);
            }
        }
    }
}

/// Classify one `GetOk` against the write index.
fn classify_get(
    index: &Vec<WriteEntry>,
    key: &String,
    version: u64,
    value: &Vec<u8>,
    get_start: u64,
    get_ack: u64,
) -> (r: Option<ViolationKind>)
    ensures
        ({
            let spec = classify_get_record(
                index@.map_values(|w: WriteEntry| w@),
                key@,
                version as int,
                value@,
                get_start as int,
                get_ack as int,
            );
            match r {
                Some(k) => spec == Some(k@),
                None => spec is None,
            }
        }),
{
    let entry = match index_lookup(index, key, version) {
        None => {
            return Some(ViolationKind::VersionNotFound { actual: clone_bytes(value) });
        },
        Some(e) => e,
    };
    if entry.start_ts > get_ack {
        return Some(ViolationKind::ReadBeforeWriteStart {
            put_start_ts: entry.start_ts,
            get_ack_ts: get_ack,
        });
    }
    if entry.ack_ts <= get_start {
        let payload = match &entry.payload {
            None => {
                return Some(ViolationKind::VersionNotFound { actual: clone_bytes(value) });
            },
            Some(p) => p,
        };
        if !bytes_eq(payload, value) {
            return Some(ViolationKind::ValueMismatch {
                expected: clone_bytes(payload),
                actual: clone_bytes(value),
            });
        }
        match index_latest_newer(index, key, version, get_start) {
            Some(latest) => {
                return Some(ViolationKind::StaleDataReturned { latest_known_version: latest });
            },
            None => {
                return None;
            },
        }
    }
    None
}

/// Whether an outcome is a server-side error (5xx or transport failure).
pub fn is_error(outcome: &OpOutcome) -> (r: bool)
    ensures
        r == (outcome@ is Error),
{
    matches!(outcome, OpOutcome::Error)
}

} // verus!
