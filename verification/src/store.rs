//! The store's data model: per-key entries, the idempotency cache and the
//! shared `DbState`, together with its well-formedness invariant.
//!
//! Both maps are kept as key-ordered-by-insertion association lists with
//! distinct keys, abstracted to `Map` views for specification.

use vstd::prelude::*;

verus! {

/// How long a tombstone entry lives before the TTL mechanism may expire it,
/// in seconds.
pub const TOMBSTONE_TTL_SECS: u64 = 3600;

/// The mathematical value of an `Entry`.
pub ghost struct EntryModel {
    /// `None` marks a tombstone.
    pub value: Option<Seq<u8>>,
    pub version: int,
    pub expires_at: Option<int>,
}

/// Per-key record: a byte value or a tombstone, the version that wrote it,
/// and an optional absolute expiration timestamp (Unix epoch seconds).
pub struct Entry {
    /// `None` marks a tombstone.
    pub value: Option<Vec<u8>>,
    pub version: u64,
    pub expires_at: Option<u64>,
}

impl View for Entry {
    type V = EntryModel;

    open spec fn view(&self) -> EntryModel {
        EntryModel {
            value: match self.value {
                Some(v) => Some(v@),
                None => None,
            },
            version: self.version as int,
            expires_at: match self.expires_at {
                Some(t) => Some(t as int),
                None => None,
            },
        }
    }
}

/// An entry is expired at `now` when it has an expiration timestamp and `now`
/// is at or past it: the instant equal to `expires_at` is already expired.
pub open spec fn spec_is_expired(e: EntryModel, now: u64) -> bool {
    e.expires_at matches Some(ts) && now >= ts
}

impl Entry {
    /// Whether the entry has a TTL and `now` is at or past it.
    pub fn is_expired(&self, now: u64) -> (r: bool)
        ensures
            r == spec_is_expired(self@, now),
    {
        match self.expires_at {
            None => false,
            Some(ts) => now >= ts,
        }
    }
}

/// The HTTP method recorded with an idempotency token.
#[derive(Clone, Debug, PartialEq, Eq, Structural)]
pub enum HttpMethod {
    Put,
    Delete,
}

/// The mathematical value of an `IdempotencyRecord`.
pub ghost struct IdemModel {
    pub method: HttpMethod,
    pub key_path: Seq<char>,
    pub status_code: int,
    pub etag: Option<int>,
    pub created_at: int,
}

/// What was answered the first time an idempotency token was seen on a
/// successful mutation; replayed verbatim on every later use of the token.
pub struct IdempotencyRecord {
    pub method: HttpMethod,
    pub key_path: String,
    pub status_code: u16,
    pub etag: Option<u64>,
    /// When the record was created (Unix epoch seconds).
    pub created_at: u64,
}

impl View for IdempotencyRecord {
    type V = IdemModel;

    open spec fn view(&self) -> IdemModel {
        IdemModel {
            method: self.method,
            key_path: self.key_path@,
            status_code: self.status_code as int,
            etag: match self.etag {
                Some(v) => Some(v as int),
                None => None,
            },
            created_at: self.created_at as int,
        }
    }
}

/// The map abstraction of an association list.
pub open spec fn assoc_view<V: View>(s: Seq<(String, V)>) -> Map<Seq<char>, V::V>
    decreases s.len(),
{
    if s.len() == 0 {
        Map::empty()
    } else {
        assoc_view(s.drop_last()).insert(s.last().0@, s.last().1@)
    }
}

/// No two pairs of the association list share a key.
pub open spec fn assoc_keys_distinct<V>(s: Seq<(String, V)>) -> bool {
    forall|i: int, j: int| 0 <= i < j < s.len() ==> (#[trigger] s[i]).0@ != (#[trigger] s[j]).0@
}

/// A key is in the map view exactly when some pair of the list holds it.
pub proof fn lemma_assoc_view_contains<V: View>(s: Seq<(String, V)>, k: Seq<char>)
    ensures
        assoc_view(s).contains_key(k) <==> exists|i: int| 0 <= i < s.len() && (#[trigger] s[i]).0@ == k,
    decreases s.len(),
{
    if s.len() > 0 {
        lemma_assoc_view_contains(s.drop_last(), k);
        if s.last().0@ == k {
            assert((s[s.len() - 1]).0@ == k);
        } else if assoc_view(s).contains_key(k) {
            let i = choose|i: int| 0 <= i < s.drop_last().len() && (#[trigger] s.drop_last()[i]).0@ == k;
            assert((s[i]).0@ == k);
        } else {
            assert forall|i: int| 0 <= i < s.len() implies (#[trigger] s[i]).0@ != k by {
                if i < s.len() - 1 {
                    assert(s.drop_last()[i] == s[i]);
                }
            }
        }
    }
}

/// With distinct keys, the map view at a pair's key is that pair's value.
pub proof fn lemma_assoc_view_at<V: View>(s: Seq<(String, V)>, i: int)
    requires
        assoc_keys_distinct(s),
        0 <= i < s.len(),
    ensures
        assoc_view(s).contains_key((s[i]).0@),
        assoc_view(s)[(s[i]).0@] == (s[i]).1@,
    decreases s.len(),
{
    lemma_assoc_view_contains(s, (s[i]).0@);
    if i == s.len() - 1 {
    } else {
        assert(assoc_keys_distinct(s.drop_last())) by {
            assert(forall|a: int, b: int|
                0 <= a < b < s.len() - 1 ==> s.drop_last()[a] == s[a] && s.drop_last()[b] == s[b]);
        }
        assert(s.drop_last()[i] == s[i]);
        lemma_assoc_view_at(s.drop_last(), i);
        assert((s[i]).0@ != s.last().0@);
    }
}

/// Replacing the pair that holds a key updates the map view at that key.
pub proof fn lemma_assoc_view_update<V: View>(s: Seq<(String, V)>, i: int, p: (String, V))
    requires
        assoc_keys_distinct(s),
        0 <= i < s.len(),
        p.0@ == (s[i]).0@,
    ensures
        assoc_view(s.update(i, p)) == assoc_view(s).insert(p.0@, p.1@),
        assoc_keys_distinct(s.update(i, p)),
    decreases s.len(),
{
    let t = s.update(i, p);
    assert(assoc_keys_distinct(t)) by {
        assert forall|a: int, b: int| 0 <= a < b < t.len() implies (#[trigger] t[a]).0@ != (
        #[trigger] t[b]).0@ by {
            assert((s[a]).0@ != (s[b]).0@);
        }
    }
    if i == s.len() - 1 {
        assert(t.drop_last() =~= s.drop_last());
        assert(assoc_view(t) =~= assoc_view(s).insert(p.0@, p.1@));
    } else {
        assert(assoc_keys_distinct(s.drop_last())) by {
            assert(forall|a: int, b: int|
                0 <= a < b < s.len() - 1 ==> s.drop_last()[a] == s[a] && s.drop_last()[b] == s[b]);
        }
        assert(t.drop_last() =~= s.drop_last().update(i, p));
        assert(s.drop_last()[i] == s[i]);
        lemma_assoc_view_update(s.drop_last(), i, p);
        assert(t.last() == s.last());
        // The updated key differs from the last pair's key, so the two
        // inserts commute.
        assert((s[i]).0@ != s.last().0@);
        assert(assoc_view(t) =~= assoc_view(s).insert(p.0@, p.1@));
    }
}

/// Appending a pair with a fresh key inserts it into the map view.
pub proof fn lemma_assoc_view_push<V: View>(s: Seq<(String, V)>, p: (String, V))
    requires
        assoc_keys_distinct(s),
        forall|i: int| 0 <= i < s.len() ==> (#[trigger] s[i]).0@ != p.0@,
    ensures
        assoc_view(s.push(p)) == assoc_view(s).insert(p.0@, p.1@),
        assoc_keys_distinct(s.push(p)),
{
    assert(s.push(p).drop_last() =~= s);
    assert(s.push(p).last() == p);
    assert(assoc_keys_distinct(s.push(p))) by {
        assert forall|a: int, b: int| 0 <= a < b < s.push(p).len() implies (#[trigger] s.push(p)[a]).0@
            != (#[trigger] s.push(p)[b]).0@ by {
            if b < s.len() {
                assert((s[a]).0@ != (s[b]).0@);
            } else {
                assert((s[a]).0@ != p.0@);
            }
        }
    }
}

/// Look a key up in an association list with distinct keys.
pub fn assoc_get<'a, V: View>(pairs: &'a Vec<(String, V)>, key: &String) -> (r: Option<&'a V>)
    requires
        assoc_keys_distinct(pairs@),
    ensures
        match r {
            Some(v) => assoc_view(pairs@).contains_key(key@) && v@ == assoc_view(pairs@)[key@],
            None => !assoc_view(pairs@).contains_key(key@),
        },
{
    let n = pairs.len();
    let mut i: usize = 0;
    while i < n
        invariant
            0 <= i <= n,
            n == pairs@.len(),
            assoc_keys_distinct(pairs@),
            forall|j: int| 0 <= j < i ==> (#[trigger] pairs@[j]).0@ != key@,
        decreases n - i,
    {
        if pairs[i].0.eq(key) {
            proof {
                lemma_assoc_view_at(pairs@, i as int);
            }
            return Some(&pairs[i].1);
        }
        i = i + 1;
    }
    proof {
        lemma_assoc_view_contains(pairs@, key@);
    }
    None
}

/// Insert or replace a key's pair, keeping keys distinct.
pub fn assoc_set<V: View>(pairs: &mut Vec<(String, V)>, key: String, value: V)
    requires
        assoc_keys_distinct(old(pairs)@),
    ensures
        assoc_keys_distinct(final(pairs)@),
        assoc_view(final(pairs)@) == assoc_view(old(pairs)@).insert(key@, value@),
{
    let n = pairs.len();
    let mut i: usize = 0;
    while i < n
        invariant
            0 <= i <= n,
            n == pairs@.len(),
            assoc_keys_distinct(pairs@),
            pairs@ == old(pairs)@,
            forall|j: int| 0 <= j < i ==> (#[trigger] pairs@[j]).0@ != key@,
        decreases n - i,
    {
        if pairs[i].0.eq(&key) {
            proof {
                lemma_assoc_view_update(pairs@, i as int, (key, value));
            }
            pairs.set(i, (key, value));
            return;
        }
        i = i + 1;
    }
    proof {
        lemma_assoc_view_push(pairs@, (key, value));
    }
    pairs.push((key, value));
}

/// The mathematical value of the whole store.
pub ghost struct DbModel {
    pub store: Map<Seq<char>, EntryModel>,
    pub idempotency: Map<Seq<char>, IdemModel>,
    pub next_version: int,
}

/// The single shared unit of mutable state: the key-value store, the
/// idempotency cache and the global version counter.
pub struct DbState {
    pub store: Vec<(String, Entry)>,
    pub idempotency_cache: Vec<(String, IdempotencyRecord)>,
    pub next_version: u64,
}

impl View for DbState {
    type V = DbModel;

    open spec fn view(&self) -> DbModel {
        DbModel {
            store: assoc_view(self.store@),
            idempotency: assoc_view(self.idempotency_cache@),
            next_version: self.next_version as int,
        }
    }
}

/// The store's semantic invariant, over its mathematical value:
/// - every entry was written by a positive version no later than the counter;
/// - no two entries share a version (versions are globally unique);
/// - a tombstone always carries an expiration timestamp;
/// - every cached idempotency record holds a `200` response with an `ETag`
///   no later than the counter.
pub open spec fn db_inv(m: DbModel) -> bool {
    &&& forall|k: Seq<char>| m.store.contains_key(k) ==> {
        let e = #[trigger] m.store[k];
        &&& 1 <= e.version <= m.next_version
        &&& (e.value is None ==> e.expires_at is Some)
    }
    &&& forall|k1: Seq<char>, k2: Seq<char>|
        m.store.contains_key(k1) && m.store.contains_key(k2) && k1 != k2
            ==> (#[trigger] m.store[k1]).version != (#[trigger] m.store[k2]).version
    &&& forall|t: Seq<char>| m.idempotency.contains_key(t) ==> {
        let r = #[trigger] m.idempotency[t];
        &&& r.status_code == 200
        &&& r.etag matches Some(v) && 1 <= v <= m.next_version
    }
}

impl DbState {
    /// Representation invariant plus the semantic invariant of the value.
    pub open spec fn well_formed(&self) -> bool {
        &&& assoc_keys_distinct(self.store@)
        &&& assoc_keys_distinct(self.idempotency_cache@)
        &&& db_inv(self@)
    }

    /// The empty store: nothing stored, no tokens seen, counter at zero.
    pub fn new() -> (r: DbState)
        ensures
            r.well_formed(),
            r@.store == Map::<Seq<char>, EntryModel>::empty(),
            r@.idempotency == Map::<Seq<char>, IdemModel>::empty(),
            r@.next_version == 0,
    {
        DbState { store: Vec::new(), idempotency_cache: Vec::new(), next_version: 0 }
    }
}

/// An element-by-element copy of a byte vector.
pub fn clone_bytes(v: &Vec<u8>) -> (r: Vec<u8>)
    ensures
        r@ == v@,
{
    let mut r: Vec<u8> = Vec::new();
    let n = v.len();
    let mut i: usize = 0;
    while i < n
        invariant
            0 <= i <= n,
            n == v@.len(),
            r@ =~= v@.take(i as int),
        decreases n - i,
    {
        r.push(v[i]);
        i = i + 1;
    }
    proof {
        assert(v@.take(n as int) =~= v@);
    }
    r
}

} // verus!
