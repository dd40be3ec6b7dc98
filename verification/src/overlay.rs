//! Copy-on-write overlays.
//!
//! An overlay stands in front of a durable backend. It keeps every write in
//! a log of its own and never changes the backend. A read is served from
//! the log; for what the log does not hold, the overlay either sends the
//! reader on to the backend or, once that is switched off, reports that
//! there is nothing.

use vstd::prelude::*;

verus! {

/// What an overlay store is, as the contracts see it.
pub struct OverlayState {
    /// The blobs written through the overlay, by key.
    pub log: Map<Seq<char>, Seq<u8>>,
    /// Whether a read that the log cannot serve goes on to the backend.
    pub fallback: bool,
    /// Whether writes are refused.
    pub readonly: bool,
}

/// The answer of an overlay store to a read, as the contracts see it.
pub enum Answer {
    /// The log holds the blob.
    Found(Seq<u8>),
    /// The log does not hold the key; the backend is to be asked.
    AskBackend,
    /// The log does not hold the key and the backend is out of reach.
    NotFound,
}

impl OverlayState {
    /// A fresh overlay: nothing written, backend in reach, writes accepted.
    pub open spec fn fresh() -> OverlayState {
        OverlayState { log: Map::empty(), fallback: true, readonly: false }
    }

    pub open spec fn get(self, key: Seq<char>) -> Answer {
        if self.log.contains_key(key) {
            Answer::Found(self.log[key])
        } else if self.fallback {
            Answer::AskBackend
        } else {
            Answer::NotFound
        }
    }

    pub open spec fn put(self, key: Seq<char>, value: Seq<u8>) -> OverlayState {
        if self.readonly {
            self
        } else {
            OverlayState { log: self.log.insert(key, value), ..self }
        }
    }

    pub open spec fn disable_backend_access(self) -> OverlayState {
        OverlayState { fallback: false, ..self }
    }

    pub open spec fn make_readonly(self) -> OverlayState {
        OverlayState { readonly: true, ..self }
    }

    /// The overlay after the writes `writes`, first to last.
    pub open spec fn put_all(self, writes: Seq<(Seq<char>, Seq<u8>)>) -> OverlayState
        decreases writes.len(),
    {
        if writes.len() == 0 {
            self
        } else {
            self.put_all(writes.drop_last()).put(writes.last().0, writes.last().1)
        }
    }
}

/// A write that an overlay refused because it no longer accepts writes.
#[derive(Debug, PartialEq, Eq, Structural, Clone, Copy)]
pub struct ReadOnly {}

/// The answer of an overlay store to a read.
#[derive(Debug, PartialEq, Eq, Clone)]
pub enum Lookup {
    /// The log holds the blob.
    Found(Vec<u8>),
    /// The log does not hold the key; the backend is to be asked.
    AskBackend,
    /// The log does not hold the key and the backend is out of reach.
    NotFound,
}

impl Lookup {
    pub open spec fn view(&self) -> Answer {
        match self {
            Lookup::Found(b) => Answer::Found(b@),
            Lookup::AskBackend => Answer::AskBackend,
            Lookup::NotFound => Answer::NotFound,
        }
    }
}

/// The keys of `keys`, as the contracts see them.
pub open spec fn key_views(keys: Seq<String>) -> Seq<Seq<char>> {
    keys.map_values(|s: String| s@)
}

/// An in-memory copy-on-write layer over a content-addressed blob store.
pub struct OverlayStore {
    keys: Vec<String>,
    blobs: Vec<Vec<u8>>,
    fallback: bool,
    readonly: bool,
}

fn copy_bytes(bytes: &Vec<u8>) -> (r: Vec<u8>)
    ensures
        r@ == bytes@,
{
    let mut r: Vec<u8> = Vec::new();
    let mut i: usize = 0;
    while i < bytes.len()
        invariant
            i <= bytes@.len(),
            r@ == bytes@.subrange(0, i as int),
        decreases bytes@.len() - i,
    {
        r.push(bytes[i]);
        assert(r@ =~= bytes@.subrange(0, i + 1));
        i += 1;
    }
    assert(bytes@.subrange(0, bytes@.len() as int) =~= bytes@);
    r
}

impl OverlayStore {
    /// The log that the stored pairs spell out.
    spec fn log(&self) -> Map<Seq<char>, Seq<u8>> {
        Map::new(
            |k: Seq<char>| exists|i: int| 0 <= i < self.keys@.len() && #[trigger] self.keys@[i]@ == k,
            |k: Seq<char>|
                self.blobs@[choose|i: int| 0 <= i < self.keys@.len() && #[trigger] self.keys@[i]@ == k]@,
        )
    }

    pub closed spec fn view(&self) -> OverlayState {
        OverlayState { log: self.log(), fallback: self.fallback, readonly: self.readonly }
    }

    /// The overlay is consistent: the log holds each key once.
    pub closed spec fn wf(&self) -> bool {
        &&& self.keys@.len() == self.blobs@.len()
        &&& forall|i: int, j: int|
            0 <= i < j < self.keys@.len() ==> #[trigger] self.keys@[i]@ != #[trigger] self.keys@[j]@
    }

    proof fn lemma_log(&self)
        requires
            self.wf(),
        ensures
            forall|i: int|
                0 <= i < self.keys@.len() ==> self.log().contains_key(#[trigger] self.keys@[i]@)
                    && self.log()[self.keys@[i]@] == self.blobs@[i]@,
            self.log().dom() == key_views(self.keys@).to_set(),
            key_views(self.keys@).no_duplicates(),
            self.log().dom().finite(),
            self.log().dom().len() == self.keys@.len(),
    {
        let kv = key_views(self.keys@);
        assert forall|k: Seq<char>| self.log().dom().contains(k) <==> kv.to_set().contains(k) by {
            if self.log().dom().contains(k) {
                let i = choose|i: int| 0 <= i < self.keys@.len() && #[trigger] self.keys@[i]@ == k;
                assert(kv[i] == k);
            }
            if kv.to_set().contains(k) {
                let i = choose|i: int| 0 <= i < kv.len() && kv[i] == k;
                assert(self.keys@[i]@ == k);
            }
        }
        assert(self.log().dom() =~= kv.to_set());
        assert forall|i: int, j: int| 0 <= i < kv.len() && 0 <= j < kv.len() && i != j implies kv[i]
            != kv[j] by {
            if i < j {
                assert(self.keys@[i]@ != self.keys@[j]@);
            } else {
                assert(self.keys@[j]@ != self.keys@[i]@);
            }
        }
        kv.unique_seq_to_set();
    }

    /// A fresh overlay: nothing written, backend in reach, writes accepted.
    pub fn new() -> (s: OverlayStore)
        ensures
            s.wf(),
            s@ == OverlayState::fresh(),
    {
        let s = OverlayStore { keys: Vec::new(), blobs: Vec::new(), fallback: true, readonly: false };
        assert(s.log() =~= Map::<Seq<char>, Seq<u8>>::empty());
        s
    }

    /// Where `key` stands in the log, if it does.
    fn position(&self, key: &String) -> (r: Option<usize>)
        requires
            self.wf(),
        ensures
            r is Some <==> self@.log.contains_key(key@),
            r matches Some(i) ==> i < self.keys@.len() && self.keys@[i as int]@ == key@
                && self.blobs@[i as int]@ == self@.log[key@],
    {
        let mut i: usize = 0;
        while i < self.keys.len()
            invariant
                self.wf(),
                i <= self.keys@.len(),
                forall|j: int| 0 <= j < i ==> self.keys@[j]@ != key@,
            decreases self.keys@.len() - i,
        {
            if self.keys[i] == *key {
                proof {
                    self.lemma_log();
                    assert(self.log().contains_key(self.keys@[i as int]@));
                }
                return Some(i);
            }
            i += 1;
        }
        None
    }

    /// Reads `key`: from the log if the log holds it; else the reader is
    /// sent to the backend, or told that there is nothing once the backend
    /// is out of reach. What the backend answers is not kept.
    pub fn get(&self, key: &String) -> (r: Lookup)
        requires
            self.wf(),
        ensures
            r@ == self@.get(key@),
    {
        match self.position(key) {
            Some(i) => Lookup::Found(copy_bytes(&self.blobs[i])),
            None => if self.fallback {
                Lookup::AskBackend
            } else {
                Lookup::NotFound
            },
        }
    }

    /// Whether `key` was written through this overlay.
    pub fn contains(&self, key: &String) -> (b: bool)
        requires
            self.wf(),
        ensures
            b == self@.log.contains_key(key@),
    {
        self.position(key).is_some()
    }

    /// Writes `value` under `key` into the log. The backend is not touched.
    /// A read-only overlay refuses the write and stays as it is.
    pub fn put(&mut self, key: String, value: Vec<u8>) -> (r: Result<(), ReadOnly>)
        requires
            old(self).wf(),
        ensures
            final(self).wf(),
            final(self)@ == old(self)@.put(key@, value@),
            r is Err <==> old(self)@.readonly,
    {
        if self.readonly {
            return Err(ReadOnly {  });
        }
        let ghost before = self.log();
        let ghost target = before.insert(key@, value@);
        proof {
            self.lemma_log();
        }
        match self.position(&key) {
            Some(i) => {
                self.blobs.set(i, value);
                proof {
                    assert(self.keys@ == old(self).keys@);
                    self.lemma_log();
                    assert forall|k: Seq<char>| self.log().contains_key(k) <==> target.contains_key(
                        k,
                    ) by {
                        if k == key@ {
                            assert(self.keys@[i as int]@ == k);
                        }
                    }
                    assert forall|k: Seq<char>| self.log().contains_key(k) implies self.log()[k]
                        == target[k] by {
                        let j = choose|j: int|
                            0 <= j < self.keys@.len() && #[trigger] self.keys@[j]@ == k;
                        assert(self.log()[self.keys@[j]@] == self.blobs@[j]@);
                        if j != i {
                            assert(before[old(self).keys@[j]@] == old(self).blobs@[j]@);
                        }
                    }
                }
            },
            None => {
                self.keys.push(key);
                self.blobs.push(value);
                proof {
                    let n = old(self).keys@.len() as int;
                    assert(self.keys@[n]@ == key@);
                    assert forall|a: int, b: int| 0 <= a < b < self.keys@.len() implies #[trigger]
                        self.keys@[a]@ != #[trigger] self.keys@[b]@ by {
                        if b < n {
                            assert(old(self).keys@[a]@ != old(self).keys@[b]@);
                        } else {
                            assert(old(self).keys@[a]@ == self.keys@[a]@);
                            assert(!before.contains_key(key@));
                        }
                    }
                    self.lemma_log();
                    assert forall|k: Seq<char>| self.log().contains_key(k) <==> target.contains_key(
                        k,
                    ) by {
                        if self.log().contains_key(k) {
                            let j = choose|j: int|
                                0 <= j < self.keys@.len() && #[trigger] self.keys@[j]@ == k;
                            if j < n {
                                assert(old(self).keys@[j]@ == k);
                            }
                        }
                        if before.contains_key(k) {
                            let j = choose|j: int|
                                0 <= j < n && #[trigger] old(self).keys@[j]@ == k;
                            assert(self.keys@[j]@ == k);
                        }
                    }
                    assert forall|k: Seq<char>| self.log().contains_key(k) implies self.log()[k]
                        == target[k] by {
                        let j = choose|j: int|
                            0 <= j < self.keys@.len() && #[trigger] self.keys@[j]@ == k;
                        assert(self.log()[self.keys@[j]@] == self.blobs@[j]@);
                        if j < n {
                            assert(old(self).keys@[j]@ == k);
                            assert(before[old(self).keys@[j]@] == old(self).blobs@[j]@);
                        }
                    }
                }
            },
        }
        proof {
            assert(self.log() =~= target);
        }
        Ok(())
    }

    /// The number of keys written so far.
    pub fn len(&self) -> (n: usize)
        requires
            self.wf(),
        ensures
            self@.log.dom().finite(),
            n == self@.log.dom().len(),
    {
        proof {
            self.lemma_log();
        }
        self.keys.len()
    }

    /// The keys written so far, each once.
    pub fn keys(&self) -> (r: Vec<String>)
        requires
            self.wf(),
        ensures
            key_views(r@).no_duplicates(),
            key_views(r@).to_set() == self@.log.dom(),
    {
        proof {
            self.lemma_log();
        }
        let mut r: Vec<String> = Vec::new();
        let mut i: usize = 0;
        while i < self.keys.len()
            invariant
                i <= self.keys@.len(),
                r@ == self.keys@.subrange(0, i as int),
            decreases self.keys@.len() - i,
        {
            r.push(self.keys[i].clone());
            assert(r@ =~= self.keys@.subrange(0, i + 1));
            i += 1;
        }
        assert(self.keys@.subrange(0, self.keys@.len() as int) =~= self.keys@);
        r
    }

    /// From now on a read that the log cannot serve finds nothing, whatever
    /// the backend holds. Nothing switches this back.
    pub fn disable_backend_access(&mut self)
        requires
            old(self).wf(),
        ensures
            final(self).wf(),
            final(self)@ == old(self)@.disable_backend_access(),
    {
        self.fallback = false;
        assert(self.log() =~= old(self).log());
    }

    /// From now on writes are refused. Nothing switches this back.
    pub fn make_readonly(&mut self)
        requires
            old(self).wf(),
        ensures
            final(self).wf(),
            final(self)@ == old(self)@.make_readonly(),
    {
        self.readonly = true;
        assert(self.log() =~= old(self).log());
    }

    /// Whether a read that the log cannot serve goes on to the backend.
    pub fn fallback_enabled(&self) -> (b: bool)
        ensures
            b == self@.fallback,
    {
        self.fallback
    }

    /// Whether writes are refused.
    pub fn is_readonly(&self) -> (b: bool)
        ensures
            b == self@.readonly,
    {
        self.readonly
    }
}

/// What the writes `writes` leave under `key`: the value of the last of
/// them that went to `key`, if any did.
pub open spec fn written(writes: Seq<(Seq<char>, Seq<u8>)>, key: Seq<char>) -> Option<Seq<u8>>
    decreases writes.len(),
{
    if writes.len() == 0 {
        None
    } else if writes.last().0 == key {
        Some(writes.last().1)
    } else {
        written(writes.drop_last(), key)
    }
}

/// A run of writes changes nothing but the log, and leaves under each key
/// what was last written there, or else what the log held before.
pub proof fn lemma_put_all(s: OverlayState, writes: Seq<(Seq<char>, Seq<u8>)>)
    ensures
        s.put_all(writes).fallback == s.fallback,
        s.put_all(writes).readonly == s.readonly,
        s.readonly ==> s.put_all(writes) == s,
        !s.readonly ==> forall|k: Seq<char>|
            #![trigger s.put_all(writes).log.contains_key(k)]
            #![trigger s.put_all(writes).log[k]]
            (s.put_all(writes).log.contains_key(k) <==> s.log.contains_key(k) || written(
                writes,
                k,
            ) is Some) && s.put_all(writes).log[k] == (match written(writes, k) {
                Some(v) => v,
                None => s.log[k],
            }),
    decreases writes.len(),
{
    if writes.len() > 0 {
        lemma_put_all(s, writes.drop_last());
    }
}

/// Writing again what was written before changes nothing: the log holds the
/// same keys, each with the same blob, so the number of keys does not grow.
pub proof fn law_repeated_writes_change_nothing(s: OverlayState, writes: Seq<(Seq<char>, Seq<u8>)>)
    ensures
        s.put_all(writes).put_all(writes) == s.put_all(writes),
        s.put_all(writes).put_all(writes).log.dom() == s.put_all(writes).log.dom(),
{
    let once = s.put_all(writes);
    let twice = once.put_all(writes);
    lemma_put_all(s, writes);
    lemma_put_all(once, writes);
    if !s.readonly {
        assert(twice.log =~= once.log);
    }
}

/// A single write, repeated, changes nothing the second time.
pub proof fn law_put_is_idempotent(s: OverlayState, key: Seq<char>, value: Seq<u8>)
    ensures
        s.put(key, value).put(key, value) == s.put(key, value),
{
    if !s.readonly {
        assert(s.log.insert(key, value).insert(key, value) =~= s.log.insert(key, value));
    }
}

/// Once the backend is out of reach, a key that was never written through
/// the overlay is not found, whatever is written to other keys afterwards
/// and whatever the backend holds.
pub proof fn law_isolation(s: OverlayState, writes: Seq<(Seq<char>, Seq<u8>)>, key: Seq<char>)
    requires
        !s.log.contains_key(key),
        written(writes, key) is None,
    ensures
        s.disable_backend_access().put_all(writes).get(key) == Answer::NotFound,
        s.disable_backend_access().put_all(writes).make_readonly().get(key) == Answer::NotFound,
{
    lemma_put_all(s.disable_backend_access(), writes);
}

/// What was written through the overlay is read back from it, with the
/// backend in reach or not.
pub proof fn law_read_your_writes(s: OverlayState, key: Seq<char>, value: Seq<u8>)
    requires
        !s.readonly,
    ensures
        s.put(key, value).get(key) == Answer::Found(value),
        s.put(key, value).disable_backend_access().get(key) == Answer::Found(value),
{
}

} // verus!

