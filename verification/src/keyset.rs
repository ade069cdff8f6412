//! The authority's published signing keys, and the cache that decides when
//! they are fetched again.
//!
//! The cache does no I/O. It says when a fetch is due and who performs it;
//! whoever holds the cache performs the fetch and hands the outcome back.

use vstd::prelude::*;
use vstd::slice::slice_to_vec;

use crate::base64url::{decode, spec_decode};
use crate::errors::AuthError;
use crate::json_object::same_bytes;

verus! {

/// Signature algorithm of a published key.
#[derive(Clone, Copy, Debug, PartialEq, Eq, Structural)]
pub enum Algorithm {
    /// Ed25519, with a 32-byte public key.
    Ed25519,
}

/// One published verification key.
#[derive(Debug, PartialEq, Eq)]
pub struct Key {
    /// The key id that tokens name.
    pub id: Vec<u8>,
    pub algorithm: Algorithm,
    /// The public key material.
    pub material: Vec<u8>,
}

/// The mathematical form of a [`Key`].
pub struct KeyView {
    pub id: Seq<u8>,
    pub algorithm: Algorithm,
    pub material: Seq<u8>,
}

impl View for Key {
    type V = KeyView;

    open spec fn view(&self) -> KeyView {
        KeyView { id: self.id@, algorithm: self.algorithm, material: self.material@ }
    }
}

impl Clone for Key {
    fn clone(&self) -> (copy: Key)
        ensures
            copy@ == self@,
    {
        Key {
            id: slice_to_vec(self.id.as_slice()),
            algorithm: self.algorithm,
            material: slice_to_vec(self.material.as_slice()),
        }
    }
}

/// The keys of a list, each in its mathematical form.
pub open spec fn keys_view(keys: Seq<Key>) -> Seq<KeyView> {
    keys.map_values(|k: Key| k@)
}

/// The first key of `keys` whose id is `id`.
pub open spec fn spec_find_key(keys: Seq<KeyView>, id: Seq<u8>) -> Option<KeyView>
    decreases keys.len(),
{
    if keys.len() == 0 {
        None
    } else if keys[0].id == id {
        Some(keys[0])
    } else {
        spec_find_key(keys.skip(1), id)
    }
}

/// Finds the first key whose id is `id`.
pub fn find_key<'a>(keys: &'a Vec<Key>, id: &[u8]) -> (r: Option<&'a Key>)
    ensures
        match r {
            Some(key) => spec_find_key(keys_view(keys@), id@) == Some(key@),
            None => spec_find_key(keys_view(keys@), id@) is None,
        },
{
    let ghost all = keys_view(keys@);
    let mut i: usize = 0;
    assert(all.skip(0) =~= all);
    while i < keys.len()
        invariant
            i <= keys@.len(),
            all == keys_view(keys@),
            spec_find_key(all, id@) == spec_find_key(all.skip(i as int), id@),
        decreases keys@.len() - i,
    {
        assert(all.skip(i as int)[0] == keys@[i as int]@);
        assert(all.skip(i as int).skip(1) =~= all.skip(i + 1));
        if same_bytes(keys[i].id.as_slice(), id) {
            return Some(&keys[i]);
        }
        i = i + 1;
    }
    None
}

/// A key that was looked for is one of the set and has the id asked for.
pub proof fn found_key_is_in_set(keys: Seq<KeyView>, id: Seq<u8>)
    ensures
        match spec_find_key(keys, id) {
            Some(key) => key.id == id && keys.contains(key),
            None => forall|i: int| 0 <= i < keys.len() ==> (#[trigger] keys[i]).id != id,
        },
    decreases keys.len(),
{
    if keys.len() > 0 && keys[0].id != id {
        let rest = keys.skip(1);
        found_key_is_in_set(rest, id);
        match spec_find_key(rest, id) {
            Some(key) => {
                let i = choose|i: int| 0 <= i < rest.len() && rest[i] == key;
                assert(keys[i + 1] == key);
            },
            None => {
                assert forall|i: int| 0 <= i < keys.len() implies (#[trigger] keys[i]).id != id by {
                    if i > 0 {
                        assert(rest[i - 1] == keys[i]);
                    }
                }
            },
        }
    }
}

/// One entry of a published key set, as it is written: the key id, the key
/// type, the curve, and the public key in base64url.
#[derive(Clone, Debug, PartialEq, Eq)]
pub struct PublishedEntry {
    pub kid: Vec<u8>,
    pub kty: Vec<u8>,
    pub crv: Vec<u8>,
    pub x: Vec<u8>,
}

/// The mathematical form of a [`PublishedEntry`].
pub struct EntryView {
    pub kid: Seq<u8>,
    pub kty: Seq<u8>,
    pub crv: Seq<u8>,
    pub x: Seq<u8>,
}

impl View for PublishedEntry {
    type V = EntryView;

    open spec fn view(&self) -> EntryView {
        EntryView { kid: self.kid@, kty: self.kty@, crv: self.crv@, x: self.x@ }
    }
}

/// The entries of a list, each in its mathematical form.
pub open spec fn entries_view(entries: Seq<PublishedEntry>) -> Seq<EntryView> {
    entries.map_values(|e: PublishedEntry| e@)
}

/// Bytes of an Ed25519 public key.
pub const ED25519_KEY_LENGTH: usize = 32;

/// The key type of an Ed25519 key: `OKP`.
pub open spec fn type_okp() -> Seq<u8> {
    seq![0x4fu8, 0x4b, 0x50]
}

/// The curve of an Ed25519 key: `Ed25519`.
pub open spec fn curve_ed25519() -> Seq<u8> {
    seq![0x45u8, 0x64, 0x32, 0x35, 0x35, 0x31, 0x39]
}

/// The key that an entry publishes: an Ed25519 key where the entry names
/// that type and curve and holds 32 bytes in base64url; none otherwise.
pub open spec fn spec_published_key(entry: EntryView) -> Option<KeyView> {
    if entry.kty == type_okp() && entry.crv == curve_ed25519() {
        match spec_decode(entry.x) {
            Some(material) => if material.len() == ED25519_KEY_LENGTH {
                Some(KeyView { id: entry.kid, algorithm: Algorithm::Ed25519, material })
            } else {
                None
            },
            None => None,
        }
    } else {
        None
    }
}

/// The keys that a list of entries publishes, in the order of the entries;
/// entries that publish no usable key are passed over.
pub open spec fn spec_published_keys(entries: Seq<EntryView>) -> Seq<KeyView>
    decreases entries.len(),
{
    if entries.len() == 0 {
        Seq::empty()
    } else {
        let before = spec_published_keys(entries.drop_last());
        match spec_published_key(entries.last()) {
            Some(key) => before.push(key),
            None => before,
        }
    }
}

/// Reads the key that an entry publishes.
pub fn published_key(entry: &PublishedEntry) -> (key: Option<Key>)
    ensures
        match key {
            Some(k) => spec_published_key(entry@) == Some(k@),
            None => spec_published_key(entry@) is None,
        },
{
    let okp = vec![0x4fu8, 0x4b, 0x50];
    let ed25519 = vec![0x45u8, 0x64, 0x32, 0x35, 0x35, 0x31, 0x39];
    assert(okp@ =~= type_okp());
    assert(ed25519@ =~= curve_ed25519());
    if !same_bytes(entry.kty.as_slice(), okp.as_slice()) || !same_bytes(
        entry.crv.as_slice(),
        ed25519.as_slice(),
    ) {
        return None;
    }
    match decode(entry.x.as_slice()) {
        Some(material) => {
            if material.len() == ED25519_KEY_LENGTH {
                Some(
                    Key {
                        id: slice_to_vec(entry.kid.as_slice()),
                        algorithm: Algorithm::Ed25519,
                        material,
                    },
                )
            } else {
                None
            }
        },
        None => None,
    }
}

/// Reads the keys that a list of entries publishes.
pub fn published_keys(entries: &Vec<PublishedEntry>) -> (keys: Vec<Key>)
    ensures
        keys_view(keys@) == spec_published_keys(entries_view(entries@)),
{
    let ghost all = entries_view(entries@);
    let mut keys: Vec<Key> = Vec::new();
    let mut i: usize = 0;
    assert(keys_view(keys@) =~= Seq::<KeyView>::empty());
    while i < entries.len()
        invariant
            i <= entries@.len(),
            all == entries_view(entries@),
            keys_view(keys@) == spec_published_keys(all.take(i as int)),
        decreases entries@.len() - i,
    {
        let ghost before = keys_view(keys@);
        proof {
            assert(all.take(i + 1).drop_last() =~= all.take(i as int));
            assert(all.take(i + 1).last() == entries@[i as int]@);
        }
        match published_key(&entries[i]) {
            Some(key) => {
                let ghost k = key@;
                keys.push(key);
                assert(keys_view(keys@) =~= before.push(k));
            },
            None => {},
        }
        i = i + 1;
    }
    assert(all.take(i as int) =~= all);
    keys
}

/// What a cache holds, as a mathematical value.
pub struct CacheView {
    /// The set that was last stored; empty until one is.
    pub keys: Seq<KeyView>,
    /// Whether a set was ever stored.
    pub loaded: bool,
    /// When the set was stored, in seconds.
    pub fetched_at: i64,
    /// Seconds for which a stored set is served without asking again.
    pub ttl: u64,
    /// Seconds past the TTL for which a stored set is still served when a
    /// fetch has failed.
    pub grace: u64,
    /// Whether a fetch is under way.
    pub fetching: bool,
    /// Whether the fetch that ended last stored a set.
    pub refreshed: bool,
}

/// What a fetch of the key set brought.
pub enum Fetched {
    /// The fetch failed: no answer, or one that could not be read.
    Failed,
    /// The keys that the authority publishes.
    Keys(Seq<KeyView>),
}

impl CacheView {
    /// A cache holds a set exactly when the set is not empty.
    pub open spec fn wf(self) -> bool {
        self.loaded == (self.keys.len() > 0)
    }

    /// A cache that has fetched nothing yet.
    pub open spec fn initial(ttl: u64, grace: u64) -> CacheView {
        CacheView {
            keys: Seq::empty(),
            loaded: false,
            fetched_at: 0,
            ttl,
            grace,
            fetching: false,
            refreshed: false,
        }
    }

    /// Seconds since the set was stored; none where the clock stands before
    /// that time.
    pub open spec fn age(self, now: i64) -> int {
        if now >= self.fetched_at {
            now - self.fetched_at
        } else {
            0
        }
    }

    /// Whether a set is held and its age is within the TTL.
    pub open spec fn fresh(self, now: i64) -> bool {
        self.loaded && self.age(now) <= self.ttl
    }

    /// Whether a set is held and its age is within the TTL and the grace
    /// window together.
    pub open spec fn servable_stale(self, now: i64) -> bool {
        self.loaded && self.age(now) <= self.ttl + self.grace
    }

    /// The key that is served without a fetch: held in a fresh set.
    pub open spec fn lookup(self, id: Seq<u8>, now: i64) -> Option<KeyView> {
        if self.fresh(now) {
            spec_find_key(self.keys, id)
        } else {
            None
        }
    }

    /// Claiming the fetch: granted to the one caller that finds none under
    /// way, and from then on one is.
    pub open spec fn begin_refresh(self) -> (CacheView, bool) {
        if self.fetching {
            (self, false)
        } else {
            (CacheView { fetching: true, ..self }, true)
        }
    }

    /// Whether a fetch brought a set that can be stored: at least one key.
    pub open spec fn usable(fetched: Fetched) -> bool {
        match fetched {
            Fetched::Failed => false,
            Fetched::Keys(keys) => keys.len() > 0,
        }
    }

    /// The cache after a fetch has ended: a usable set replaces the old one
    /// and is dated `now`; otherwise what was held stays. Either way no
    /// fetch is under way any more.
    pub open spec fn complete_refresh(self, fetched: Fetched, now: i64) -> CacheView {
        match fetched {
            Fetched::Keys(keys) => if keys.len() > 0 {
                CacheView {
                    keys,
                    loaded: true,
                    fetched_at: now,
                    fetching: false,
                    refreshed: true,
                    ..self
                }
            } else {
                CacheView { fetching: false, refreshed: false, ..self }
            },
            Fetched::Failed => CacheView { fetching: false, refreshed: false, ..self },
        }
    }

    /// The answer to a lookup once the refresh that it waited for has ended.
    ///
    /// After a fetch that stored a set, the key is in it or it is not found.
    /// After a failed fetch, the old set answers while it is within the
    /// grace window and holds the key; else the fetch has failed.
    pub open spec fn resolve(self, id: Seq<u8>, now: i64, refreshed: bool) -> Result<
        KeyView,
        AuthError,
    > {
        if refreshed {
            match spec_find_key(self.keys, id) {
                Some(key) => Ok(key),
                None => Err(AuthError::KeyNotFound),
            }
        } else if self.servable_stale(now) {
            match spec_find_key(self.keys, id) {
                Some(key) => Ok(key),
                None => Err(AuthError::FetchFailed),
            }
        } else {
            Err(AuthError::FetchFailed)
        }
    }

    /// A whole lookup by the caller that performs the fetch: a fresh hit is
    /// served as it is; otherwise the outcome of one fetch is stored and
    /// decides.
    pub open spec fn get_key(self, id: Seq<u8>, now: i64, fetched: Fetched) -> (
        CacheView,
        Result<KeyView, AuthError>,
    ) {
        match self.lookup(id, now) {
            Some(key) => (self, Ok(key)),
            None => {
                let after = self.complete_refresh(fetched, now);
                (after, after.resolve(id, now, Self::usable(fetched)))
            },
        }
    }

    /// The answer to a caller that waited for somebody else's fetch to end:
    /// a fresh hit, or what the fetch that has just ended decides.
    pub open spec fn settle(self, id: Seq<u8>, now: i64) -> Result<KeyView, AuthError> {
        match self.lookup(id, now) {
            Some(key) => Ok(key),
            None => self.resolve(id, now, self.refreshed),
        }
    }

    /// How many of `n` callers in a row are granted the fetch.
    pub open spec fn grants(self, n: nat) -> nat
        decreases n,
    {
        if n == 0 {
            0
        } else {
            let (after, granted) = self.begin_refresh();
            (if granted {
                1nat
            } else {
                0nat
            }) + after.grants((n - 1) as nat)
        }
    }
}

/// The cache of the published key set.
pub struct KeySetCache {
    keys: Vec<Key>,
    loaded: bool,
    fetched_at: i64,
    ttl: u64,
    grace: u64,
    fetching: bool,
    refreshed: bool,
}

/// What a fetch handed over, as a mathematical value.
pub open spec fn fetched_view(fetched: Option<Vec<Key>>) -> Fetched {
    match fetched {
        Some(keys) => Fetched::Keys(keys_view(keys@)),
        None => Fetched::Failed,
    }
}

/// An answer of the cache, as a mathematical value.
pub open spec fn answer_view(answer: Result<Key, AuthError>) -> Result<KeyView, AuthError> {
    match answer {
        Ok(key) => Ok(key@),
        Err(e) => Err(e),
    }
}

impl KeySetCache {
    #[verifier::type_invariant]
    spec fn holds_no_empty_set(&self) -> bool {
        self.loaded == (self.keys@.len() > 0)
    }

    /// What the cache holds.
    pub closed spec fn view(&self) -> CacheView {
        CacheView {
            keys: keys_view(self.keys@),
            loaded: self.loaded,
            fetched_at: self.fetched_at,
            ttl: self.ttl,
            grace: self.grace,
            fetching: self.fetching,
            refreshed: self.refreshed,
        }
    }

    /// A cache that has fetched nothing yet.
    pub fn new(ttl: u64, grace: u64) -> (cache: KeySetCache)
        ensures
            cache@ == CacheView::initial(ttl, grace),
            cache@.wf(),
    {
        let cache = KeySetCache {
            keys: Vec::new(),
            loaded: false,
            fetched_at: 0,
            ttl,
            grace,
            fetching: false,
            refreshed: false,
        };
        assert(keys_view(cache.keys@) =~= Seq::<KeyView>::empty());
        cache
    }

    fn age(&self, now: i64) -> (age: u64)
        ensures
            age == self@.age(now),
    {
        if now >= self.fetched_at {
            (now as i128 - self.fetched_at as i128) as u64
        } else {
            0
        }
    }

    /// Whether a fetch is under way.
    pub fn is_fetching(&self) -> (fetching: bool)
        ensures
            fetching == self@.fetching,
    {
        self.fetching
    }

    /// Whether a set is held and still within its TTL at `now`.
    pub fn is_fresh(&self, now: i64) -> (fresh: bool)
        ensures
            fresh == self@.fresh(now),
            self@.wf(),
    {
        proof {
            use_type_invariant(self);
        }
        self.loaded && self.age(now) <= self.ttl
    }

    /// Serves `key_id` out of a fresh set, without a fetch.
    pub fn lookup(&self, key_id: &[u8], now: i64) -> (found: Option<Key>)
        ensures
            match found {
                Some(key) => self@.lookup(key_id@, now) == Some(key@),
                None => self@.lookup(key_id@, now) is None,
            },
            self@.wf(),
    {
        if self.is_fresh(now) {
            match find_key(&self.keys, key_id) {
                Some(key) => Some(key.clone()),
                None => None,
            }
        } else {
            None
        }
    }

    /// Claims the fetch. Only the caller that gets `true` performs it; a
    /// caller that gets `false` waits for that fetch to end.
    pub fn begin_refresh(&mut self) -> (granted: bool)
        ensures
            (final(self)@, granted) == old(self)@.begin_refresh(),
            final(self)@.wf(),
    {
        proof {
            use_type_invariant(&*self);
        }
        if self.fetching {
            false
        } else {
            self.fetching = true;
            true
        }
    }

    /// Ends the fetch with what it brought: `Some` with the keys that were
    /// read, `None` where the fetch failed. Says whether a set was stored.
    pub fn complete_refresh(&mut self, fetched: Option<Vec<Key>>, now: i64) -> (stored: bool)
        ensures
            final(self)@ == old(self)@.complete_refresh(fetched_view(fetched), now),
            stored == CacheView::usable(fetched_view(fetched)),
            final(self)@.wf(),
    {
        proof {
            use_type_invariant(&*self);
        }
        self.fetching = false;
        self.refreshed = false;
        match fetched {
            Some(keys) => {
                if keys.len() > 0 {
                    *self = KeySetCache {
                        keys,
                        loaded: true,
                        fetched_at: now,
                        ttl: self.ttl,
                        grace: self.grace,
                        fetching: false,
                        refreshed: true,
                    };
                    true
                } else {
                    false
                }
            },
            None => false,
        }
    }

    /// Answers a lookup after the refresh that it waited for has ended;
    /// `refreshed` says whether that refresh stored a set.
    pub fn resolve(&self, key_id: &[u8], now: i64, refreshed: bool) -> (answer: Result<
        Key,
        AuthError,
    >)
        ensures
            answer_view(answer) == self@.resolve(key_id@, now, refreshed),
            self@.wf(),
    {
        proof {
            use_type_invariant(self);
        }
        if refreshed {
            match find_key(&self.keys, key_id) {
                Some(key) => Ok(key.clone()),
                None => Err(AuthError::KeyNotFound),
            }
        } else if self.loaded && (self.age(now) <= self.ttl || self.age(now) - self.ttl
            <= self.grace) {
            match find_key(&self.keys, key_id) {
                Some(key) => Ok(key.clone()),
                None => Err(AuthError::FetchFailed),
            }
        } else {
            Err(AuthError::FetchFailed)
        }
    }

    /// Answers a caller that was not granted the fetch and has waited for it
    /// to end.
    pub fn settle(&self, key_id: &[u8], now: i64) -> (answer: Result<Key, AuthError>)
        ensures
            answer_view(answer) == self@.settle(key_id@, now),
            self@.wf(),
    {
        match self.lookup(key_id, now) {
            Some(key) => Ok(key),
            None => self.resolve(key_id, now, self.refreshed),
        }
    }

    /// Answers a lookup with what one fetch brought, where the key is not
    /// served out of a fresh set.
    pub fn get_key_after(&mut self, key_id: &[u8], now: i64, fetched: Option<Vec<Key>>) -> (answer:
        Result<Key, AuthError>)
        ensures
            (final(self)@, answer_view(answer)) == old(self)@.get_key(
                key_id@,
                now,
                fetched_view(fetched),
            ),
            final(self)@.wf(),
    {
        proof {
            use_type_invariant(&*self);
        }
        match self.lookup(key_id, now) {
            Some(key) => Ok(key),
            None => {
                let stored = self.complete_refresh(fetched, now);
                self.resolve(key_id, now, stored)
            },
        }
    }

    /// Looks `key_id` up, calling `fetch` once where it is not served out of
    /// a fresh set. `fetch` gives the published keys, or `None` where they
    /// could not be had.
    pub fn get_key<F: FnOnce() -> Option<Vec<Key>>>(
        &mut self,
        key_id: &[u8],
        now: i64,
        fetch: F,
    ) -> (answer: Result<Key, AuthError>)
        requires
            fetch.requires(()),
        ensures
            final(self)@.wf(),
            match old(self)@.lookup(key_id@, now) {
                Some(key) => final(self)@ == old(self)@ && answer_view(answer) == Ok::<
                    KeyView,
                    AuthError,
                >(key),
                None => exists|fetched: Option<Vec<Key>>|
                    fetch.ensures((), fetched) && #[trigger] old(self)@.get_key(
                        key_id@,
                        now,
                        fetched_view(fetched),
                    ) == (final(self)@, answer_view(answer)),
            },
    {
        proof {
            use_type_invariant(&*self);
        }
        match self.lookup(key_id, now) {
            Some(key) => Ok(key),
            None => {
                let fetched = fetch();
                let ghost brought = fetched;
                let stored = self.complete_refresh(fetched, now);
                let answer = self.resolve(key_id, now, stored);
                assert(old(self)@.get_key(key_id@, now, fetched_view(brought)) == (
                    self@,
                    answer_view(answer),
                ));
                answer
            },
        }
    }
}

/// However many callers find the cache cold at the same time, exactly one of
/// them is granted the fetch; the others wait for it.
pub proof fn one_fetch_for_many_callers(cache: CacheView, n: nat)
    requires
        !cache.fetching,
        n >= 1,
    ensures
        cache.grants(n) == 1,
{
    let (after, granted) = cache.begin_refresh();
    assert(granted && after.fetching);
    no_fetch_while_one_runs(after, (n - 1) as nat);
}

/// While a fetch is under way nobody else is granted one.
pub proof fn no_fetch_while_one_runs(cache: CacheView, n: nat)
    requires
        cache.fetching,
    ensures
        cache.grants(n) == 0,
    decreases n,
{
    if n > 0 {
        no_fetch_while_one_runs(cache.begin_refresh().0, (n - 1) as nat);
    }
}

/// A caller that waited for a fetch gets the answer that the caller who
/// performed it gets.
pub proof fn waiting_callers_get_the_same_answer(cache: CacheView, id: Seq<u8>, now: i64, fetched: Fetched)
    requires
        cache.lookup(id, now) is None,
    ensures
        cache.complete_refresh(fetched, now).settle(id, now) == cache.get_key(id, now, fetched).1,
        cache.complete_refresh(fetched, now) == cache.get_key(id, now, fetched).0,
{
}

/// Every step keeps the cache well-formed: it never holds an empty set as
/// loaded.
pub proof fn steps_keep_cache_well_formed(cache: CacheView, fetched: Fetched, now: i64)
    requires
        cache.wf(),
    ensures
        CacheView::initial(cache.ttl, cache.grace).wf(),
        cache.begin_refresh().0.wf(),
        cache.complete_refresh(fetched, now).wf(),
{
}

/// A key is served only out of a set that is held, so never out of an empty
/// one; and a fetch that stored a set is never answered with `FetchFailed`,
/// nor a failed one with `KeyNotFound`.
pub proof fn answers_come_from_a_held_set(cache: CacheView, id: Seq<u8>, now: i64, refreshed: bool)
    requires
        cache.wf(),
    ensures
        cache.lookup(id, now) is Some ==> cache.keys.len() > 0,
        cache.resolve(id, now, refreshed) is Ok ==> cache.keys.len() > 0,
        refreshed ==> cache.resolve(id, now, refreshed) != Err::<KeyView, AuthError>(
            AuthError::FetchFailed,
        ),
        !refreshed ==> cache.resolve(id, now, refreshed) != Err::<KeyView, AuthError>(
            AuthError::KeyNotFound,
        ),
{
    found_key_is_in_set(cache.keys, id);
}

} // verus!
