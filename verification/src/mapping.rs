//! The copy-on-write overlay over the mapping between commit identifiers
//! and their legacy-format counterparts.

use vstd::prelude::*;
use crate::ids::{ChangesetId, HgChangesetId};
use crate::overlay::ReadOnly;

verus! {

/// What an overlay mapping is, as the contracts see it.
pub struct MappingState {
    /// The pairs recorded through the overlay.
    pub log: Map<ChangesetId, HgChangesetId>,
    /// Whether the backend is out of reach for reads.
    pub no_access_to_inner: bool,
    /// Whether writes are refused.
    pub readonly: bool,
    /// Whether a write is recorded even where the pair is known already.
    pub save_noop_writes: bool,
}

/// The answer of an overlay mapping to a lookup.
#[derive(Debug, PartialEq, Eq, Structural, Clone, Copy)]
pub enum MappingLookup<T> {
    /// The overlay has recorded the counterpart.
    Found(T),
    /// The overlay has recorded none; the backend is to be asked.
    AskBackend,
    /// The overlay has recorded none and the backend is out of reach.
    NotFound,
}

impl MappingState {
    /// A fresh overlay: nothing recorded, backend in reach, writes accepted,
    /// writes of known pairs skipped.
    pub open spec fn fresh() -> MappingState {
        MappingState {
            log: Map::empty(),
            no_access_to_inner: false,
            readonly: false,
            save_noop_writes: false,
        }
    }

    pub open spec fn get_hg_from_bonsai(self, bonsai: ChangesetId) -> MappingLookup<HgChangesetId> {
        if self.log.contains_key(bonsai) {
            MappingLookup::Found(self.log[bonsai])
        } else if self.no_access_to_inner {
            MappingLookup::NotFound
        } else {
            MappingLookup::AskBackend
        }
    }

    /// What a lookup of `bonsai` through the overlay comes to, where
    /// `backend` is what the backend holds for it.
    pub open spec fn known(self, bonsai: ChangesetId, backend: Option<HgChangesetId>) -> Option<
        HgChangesetId,
    > {
        if self.log.contains_key(bonsai) {
            Some(self.log[bonsai])
        } else if self.no_access_to_inner {
            None
        } else {
            backend
        }
    }

    /// Whether a write of the pair is recorded.
    pub open spec fn records(
        self,
        bonsai: ChangesetId,
        hg: HgChangesetId,
        backend: Option<HgChangesetId>,
    ) -> bool {
        !self.readonly && (self.save_noop_writes || self.known(bonsai, backend) != Some(hg))
    }

    pub open spec fn add(
        self,
        bonsai: ChangesetId,
        hg: HgChangesetId,
        backend: Option<HgChangesetId>,
    ) -> MappingState {
        if self.records(bonsai, hg, backend) {
            MappingState { log: self.log.insert(bonsai, hg), ..self }
        } else {
            self
        }
    }
}

/// An in-memory copy-on-write layer over the mapping store.
pub struct OverlayMapping {
    bonsai: Vec<ChangesetId>,
    hg: Vec<HgChangesetId>,
    no_access_to_inner: bool,
    readonly: bool,
    save_noop_writes: bool,
}

impl OverlayMapping {
    spec fn log(&self) -> Map<ChangesetId, HgChangesetId> {
        Map::new(
            |k: ChangesetId| exists|i: int| 0 <= i < self.bonsai@.len() && #[trigger] self.bonsai@[i] == k,
            |k: ChangesetId|
                self.hg@[choose|i: int| 0 <= i < self.bonsai@.len() && #[trigger] self.bonsai@[i] == k],
        )
    }

    pub closed spec fn view(&self) -> MappingState {
        MappingState {
            log: self.log(),
            no_access_to_inner: self.no_access_to_inner,
            readonly: self.readonly,
            save_noop_writes: self.save_noop_writes,
        }
    }

    /// The overlay is consistent: it has recorded each commit once.
    pub closed spec fn wf(&self) -> bool {
        &&& self.bonsai@.len() == self.hg@.len()
        &&& forall|i: int, j: int|
            0 <= i < j < self.bonsai@.len() ==> self.bonsai@[i] != self.bonsai@[j]
    }

    proof fn lemma_log(&self)
        requires
            self.wf(),
        ensures
            forall|i: int|
                0 <= i < self.bonsai@.len() ==> self.log().contains_key(#[trigger] self.bonsai@[i])
                    && self.log()[self.bonsai@[i]] == self.hg@[i],
            self.log().dom() == self.bonsai@.to_set(),
            self.log().dom().finite(),
            self.log().dom().len() == self.bonsai@.len(),
    {
        assert(self.log().dom() =~= self.bonsai@.to_set());
        self.bonsai@.unique_seq_to_set();
    }

    /// A fresh overlay: nothing recorded, backend in reach, writes accepted,
    /// writes of known pairs skipped.
    pub fn new() -> (s: OverlayMapping)
        ensures
            s.wf(),
            s@ == MappingState::fresh(),
    {
        let s = OverlayMapping {
            bonsai: Vec::new(),
            hg: Vec::new(),
            no_access_to_inner: false,
            readonly: false,
            save_noop_writes: false,
        };
        assert(s.log() =~= Map::<ChangesetId, HgChangesetId>::empty());
        s
    }

    fn position(&self, bonsai: ChangesetId) -> (r: Option<usize>)
        requires
            self.wf(),
        ensures
            r is Some <==> self@.log.contains_key(bonsai),
            r matches Some(i) ==> i < self.bonsai@.len() && self.bonsai@[i as int] == bonsai
                && self.hg@[i as int] == self@.log[bonsai],
    {
        let mut i: usize = 0;
        while i < self.bonsai.len()
            invariant
                self.wf(),
                i <= self.bonsai@.len(),
                forall|j: int| 0 <= j < i ==> self.bonsai@[j] != bonsai,
            decreases self.bonsai@.len() - i,
        {
            if self.bonsai[i] == bonsai {
                proof {
                    self.lemma_log();
                }
                return Some(i);
            }
            i += 1;
        }
        None
    }

    /// Looks up the legacy counterpart of `bonsai`: from the overlay's own
    /// records if it has one; else the caller is sent to the backend, or
    /// told that there is none once the backend is out of reach.
    pub fn get_hg_from_bonsai(&self, bonsai: ChangesetId) -> (r: MappingLookup<HgChangesetId>)
        requires
            self.wf(),
        ensures
            r == self@.get_hg_from_bonsai(bonsai),
    {
        match self.position(bonsai) {
            Some(i) => MappingLookup::Found(self.hg[i]),
            None => if self.no_access_to_inner {
                MappingLookup::NotFound
            } else {
                MappingLookup::AskBackend
            },
        }
    }

    /// Looks up a commit whose legacy counterpart is `hg`: one that the
    /// overlay has recorded, if there is one; else the caller is sent to the
    /// backend, or told that there is none once the backend is out of reach.
    pub fn get_bonsai_from_hg(&self, hg: HgChangesetId) -> (r: MappingLookup<ChangesetId>)
        requires
            self.wf(),
        ensures
            r matches MappingLookup::Found(b) ==> self@.log.contains_key(b) && self@.log[b] == hg,
            r is Found <==> exists|b: ChangesetId| self@.log.contains_key(b) && #[trigger] self@.log[b] == hg,
            r is NotFound ==> self@.no_access_to_inner,
            r is AskBackend ==> !self@.no_access_to_inner,
    {
        proof {
            self.lemma_log();
        }
        let mut i: usize = 0;
        while i < self.hg.len()
            invariant
                self.wf(),
                i <= self.hg@.len(),
                forall|j: int| 0 <= j < i ==> self.hg@[j] != hg,
            decreases self.hg@.len() - i,
        {
            if self.hg[i] == hg {
                proof {
                    self.lemma_log();
                    assert(self@.log.contains_key(self.bonsai@[i as int]));
                    assert(self@.log[self.bonsai@[i as int]] == hg);
                }
                return MappingLookup::Found(self.bonsai[i]);
            }
            i += 1;
        }
        proof {
            assert forall|b: ChangesetId| self.log().contains_key(b) implies #[trigger] self.log()[b]
                != hg by {
                let j = choose|j: int| 0 <= j < self.bonsai@.len() && #[trigger] self.bonsai@[j] == b;
                assert(self.log()[self.bonsai@[j]] == self.hg@[j]);
            }
        }
        if self.no_access_to_inner {
            MappingLookup::NotFound
        } else {
            MappingLookup::AskBackend
        }
    }

    /// Records that `hg` is the legacy counterpart of `bonsai`, where
    /// `backend` is what the backend holds for `bonsai`.
    ///
    /// A read-only overlay refuses the write. Otherwise the pair is recorded,
    /// unless a lookup through the overlay gives this very pair already and
    /// writes of known pairs are skipped. The result says whether the pair
    /// was recorded.
    pub fn add(&mut self, bonsai: ChangesetId, hg: HgChangesetId, backend: Option<HgChangesetId>) -> (r:
        Result<bool, ReadOnly>)
        requires
            old(self).wf(),
        ensures
            final(self).wf(),
            final(self)@ == old(self)@.add(bonsai, hg, backend),
            r is Err <==> old(self)@.readonly,
            r matches Ok(recorded) ==> recorded == old(self)@.records(bonsai, hg, backend),
    {
        if self.readonly {
            return Err(ReadOnly {  });
        }
        let ghost before = self.log();
        let ghost target = before.insert(bonsai, hg);
        let pos = self.position(bonsai);
        let known = match pos {
            Some(i) => Some(self.hg[i]),
            None => if self.no_access_to_inner {
                None
            } else {
                backend
            },
        };
        let same = match known {
            Some(h) => h == hg,
            None => false,
        };
        if same && !self.save_noop_writes {
            return Ok(false);
        }
        proof {
            self.lemma_log();
        }
        match pos {
            Some(i) => {
                self.hg.set(i, hg);
                proof {
                    assert(self.bonsai@ == old(self).bonsai@);
                    self.lemma_log();
                    assert forall|k: ChangesetId| self.log().contains_key(k) implies self.log()[k]
                        == target[k] by {
                        let j = choose|j: int|
                            0 <= j < self.bonsai@.len() && #[trigger] self.bonsai@[j] == k;
                        assert(self.log()[self.bonsai@[j]] == self.hg@[j]);
                        if j != i {
                            assert(before[old(self).bonsai@[j]] == old(self).hg@[j]);
                        }
                    }
                    assert(self.log() =~= target);
                }
            },
            None => {
                self.bonsai.push(bonsai);
                self.hg.push(hg);
                proof {
                    let n = old(self).bonsai@.len() as int;
                    assert(self.bonsai@[n] == bonsai);
                    assert forall|a: int, b: int| 0 <= a < b < self.bonsai@.len() implies self.bonsai@[a]
                        != self.bonsai@[b] by {
                        if b >= n {
                            assert(old(self).bonsai@[a] == self.bonsai@[a]);
                        }
                    }
                    self.lemma_log();
                    assert forall|k: ChangesetId| self.log().contains_key(k) <==> target.contains_key(
                        k,
                    ) by {
                        if self.log().contains_key(k) {
                            let j = choose|j: int|
                                0 <= j < self.bonsai@.len() && #[trigger] self.bonsai@[j] == k;
                            if j < n {
                                assert(old(self).bonsai@[j] == k);
                            }
                        }
                        if before.contains_key(k) {
                            let j = choose|j: int|
                                0 <= j < n && #[trigger] old(self).bonsai@[j] == k;
                            assert(self.bonsai@[j] == k);
                        }
                    }
                    assert forall|k: ChangesetId| self.log().contains_key(k) implies self.log()[k]
                        == target[k] by {
                        let j = choose|j: int|
                            0 <= j < self.bonsai@.len() && #[trigger] self.bonsai@[j] == k;
                        assert(self.log()[self.bonsai@[j]] == self.hg@[j]);
                        if j < n {
                            assert(old(self).bonsai@[j] == k);
                            assert(before[old(self).bonsai@[j]] == old(self).hg@[j]);
                        }
                    }
                    assert(self.log() =~= target);
                }
            },
        }
        Ok(true)
    }

    /// The number of commits recorded so far.
    pub fn len(&self) -> (n: usize)
        requires
            self.wf(),
        ensures
            self@.log.dom().finite(),
            n == self@.log.dom().len(),
    {
        proof {
            self.lemma_log();
        }
        self.bonsai.len()
    }

    /// Whether a write is recorded even where the pair is known already.
    pub fn set_save_noop_writes(&mut self, save: bool)
        requires
            old(self).wf(),
        ensures
            final(self).wf(),
            final(self)@ == (MappingState { save_noop_writes: save, ..old(self)@ }),
    {
        self.save_noop_writes = save;
        assert(self.log() =~= old(self).log());
    }

    /// Puts the backend out of reach for reads, or back in reach.
    pub fn set_no_access_to_inner(&mut self, no_access: bool)
        requires
            old(self).wf(),
        ensures
            final(self).wf(),
            final(self)@ == (MappingState { no_access_to_inner: no_access, ..old(self)@ }),
    {
        self.no_access_to_inner = no_access;
        assert(self.log() =~= old(self).log());
    }

    /// Makes the overlay refuse writes, or accept them again.
    pub fn set_readonly(&mut self, readonly: bool)
        requires
            old(self).wf(),
        ensures
            final(self).wf(),
            final(self)@ == (MappingState { readonly, ..old(self)@ }),
    {
        self.readonly = readonly;
        assert(self.log() =~= old(self).log());
    }
}

/// With writes of known pairs recorded, every accepted write shows in the
/// overlay's own records, also where the backend holds the pair already.
pub proof fn law_recorded_writes_are_visible(
    s: MappingState,
    bonsai: ChangesetId,
    hg: HgChangesetId,
    backend: Option<HgChangesetId>,
)
    requires
        s.save_noop_writes,
        !s.readonly,
    ensures
        s.add(bonsai, hg, backend).log.contains_key(bonsai),
        s.add(bonsai, hg, backend).log[bonsai] == hg,
        (MappingState { no_access_to_inner: true, readonly: true, ..s.add(bonsai, hg, backend) }).get_hg_from_bonsai(bonsai)
            == MappingLookup::Found(hg),
{
}

/// Without that, a write of the pair that the backend holds leaves no trace
/// in the overlay, and is not found once the backend is out of reach.
pub proof fn law_skipped_writes_are_invisible(s: MappingState, bonsai: ChangesetId, hg: HgChangesetId)
    requires
        !s.save_noop_writes,
        !s.no_access_to_inner,
        !s.log.contains_key(bonsai),
    ensures
        s.add(bonsai, hg, Some(hg)) == s,
        (MappingState { no_access_to_inner: true, ..s.add(bonsai, hg, Some(hg)) }).get_hg_from_bonsai(bonsai)
            == MappingLookup::<HgChangesetId>::NotFound,
{
}

} // verus!
