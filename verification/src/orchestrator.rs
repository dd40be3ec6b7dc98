//! The validation of one chunk of commits, as a state machine.
//!
//! A chunk goes through four phases. In `Priming` a fresh pair of overlays
//! stands ready. In `Deriving` the commits are derived through the
//! overlays, which take the writes, and each result is held against the
//! result of the derivation on the durable storage. In `Verifying` the
//! overlays are locked: they take no writes and answer from their own logs
//! alone; the blobs that each commit introduced are looked for there. In
//! `Closed` nothing more is done. The first failure closes the chunk.

use vstd::prelude::*;
use crate::ids::{ChangesetId, HgChangesetId};
use crate::manifest::ManifestStore;
use crate::mapping::{MappingLookup, MappingState, OverlayMapping};
use crate::overlay::{Answer, Lookup, OverlayState, OverlayStore, ReadOnly};
use crate::validation::{
    check_is_derived, compare_derived, generated_data_checked, validate_generated_data,
    DerivedDataHandle, DerivedRoots, Outcome, ValidationError,
};

verus! {

/// Where the validation of a chunk stands.
#[derive(Debug, PartialEq, Eq, Structural, Clone, Copy)]
pub enum Phase {
    Priming,
    Deriving,
    Verifying,
    Closed,
}

/// The validation of one chunk of commits.
pub struct ChunkValidation {
    phase: Phase,
    store: OverlayStore,
    mapping: OverlayMapping,
}

impl ChunkValidation {
    /// The phase that the chunk is in.
    pub closed spec fn phase_view(&self) -> Phase {
        self.phase
    }

    /// The overlay over the blob store.
    pub closed spec fn store_view(&self) -> OverlayState {
        self.store@
    }

    /// The overlay over the mapping store.
    pub closed spec fn mapping_view(&self) -> MappingState {
        self.mapping@
    }

    /// The two overlays are consistent.
    pub closed spec fn overlays_wf(&self) -> bool {
        self.store.wf() && self.mapping.wf()
    }

    /// The overlays are set as the phase asks: open to writes and to the
    /// backend in `Priming` and in `Deriving`, and in `Deriving` with every
    /// write to the mapping recorded; closed to both in `Verifying`.
    pub open spec fn wf(&self) -> bool {
        &&& self.overlays_wf()
        &&& match self.phase_view() {
            Phase::Priming => {
                &&& self.store_view().fallback
                &&& !self.store_view().readonly
                &&& !self.mapping_view().no_access_to_inner
                &&& !self.mapping_view().readonly
            },
            Phase::Deriving => {
                &&& self.store_view().fallback
                &&& !self.store_view().readonly
                &&& !self.mapping_view().no_access_to_inner
                &&& !self.mapping_view().readonly
                &&& self.mapping_view().save_noop_writes
            },
            Phase::Verifying => {
                &&& !self.store_view().fallback
                &&& self.store_view().readonly
                &&& self.mapping_view().no_access_to_inner
                &&& self.mapping_view().readonly
            },
            Phase::Closed => true,
        }
    }

    /// A chunk in `Priming`, with a fresh pair of overlays.
    pub fn new() -> (c: ChunkValidation)
        ensures
            c.wf(),
            c.phase_view() == Phase::Priming,
            c.store_view() == OverlayState::fresh(),
            c.mapping_view() == MappingState::fresh(),
    {
        ChunkValidation { phase: Phase::Priming, store: OverlayStore::new(), mapping: OverlayMapping::new() }
    }

    /// The phase that the chunk is in.
    pub fn phase(&self) -> (p: Phase)
        ensures
            p == self.phase_view(),
    {
        self.phase
    }

    /// The overlay over the blob store.
    pub fn store(&self) -> (s: &OverlayStore)
        requires
            self.wf(),
        ensures
            s.wf(),
            s@ == self.store_view(),
    {
        &self.store
    }

    /// The overlay over the mapping store.
    pub fn mapping(&self) -> (m: &OverlayMapping)
        requires
            self.wf(),
        ensures
            m.wf(),
            m@ == self.mapping_view(),
    {
        &self.mapping
    }

    /// Goes from `Priming` to `Deriving`. From here on the mapping overlay
    /// records every write, also of pairs that the backend holds already.
    pub fn start_deriving(&mut self)
        requires
            old(self).wf(),
            old(self).phase_view() == Phase::Priming,
        ensures
            final(self).wf(),
            final(self).phase_view() == Phase::Deriving,
            final(self).store_view() == old(self).store_view(),
            final(self).mapping_view() == (MappingState {
                save_noop_writes: true,
                ..old(self).mapping_view()
            }),
    {
        self.mapping.set_save_noop_writes(true);
        self.phase = Phase::Deriving;
    }

    /// A read of the blob store by a derivation.
    pub fn get_blob(&self, key: &String) -> (r: Lookup)
        requires
            self.wf(),
        ensures
            r@ == self.store_view().get(key@),
    {
        self.store.get(key)
    }

    /// A write to the blob store by a derivation. It goes to the overlay's
    /// log, unless the overlay is locked.
    pub fn put_blob(&mut self, key: String, value: Vec<u8>) -> (r: Result<(), ReadOnly>)
        requires
            old(self).wf(),
        ensures
            final(self).wf(),
            final(self).phase_view() == old(self).phase_view(),
            final(self).store_view() == old(self).store_view().put(key@, value@),
            final(self).mapping_view() == old(self).mapping_view(),
            r is Err <==> old(self).store_view().readonly,
    {
        self.store.put(key, value)
    }

    /// A write to the mapping store by a derivation, where `backend` is
    /// what the backend holds for `bonsai`. It goes to the overlay's
    /// records, unless the overlay is locked.
    pub fn add_mapping(
        &mut self,
        bonsai: ChangesetId,
        hg: HgChangesetId,
        backend: Option<HgChangesetId>,
    ) -> (r: Result<bool, ReadOnly>)
        requires
            old(self).wf(),
        ensures
            final(self).wf(),
            final(self).phase_view() == old(self).phase_view(),
            final(self).store_view() == old(self).store_view(),
            final(self).mapping_view() == old(self).mapping_view().add(bonsai, hg, backend),
            r is Err <==> old(self).mapping_view().readonly,
            r matches Ok(recorded) ==> recorded == old(self).mapping_view().records(
                bonsai,
                hg,
                backend,
            ),
    {
        self.mapping.add(bonsai, hg, backend)
    }

    /// A lookup in the mapping store by a derivation.
    pub fn get_hg_from_bonsai(&self, bonsai: ChangesetId) -> (r: MappingLookup<HgChangesetId>)
        requires
            self.wf(),
        ensures
            r == self.mapping_view().get_hg_from_bonsai(bonsai),
    {
        self.mapping.get_hg_from_bonsai(bonsai)
    }

    /// Holds the two derivations of `commit` against each other. If they
    /// differ the chunk is closed.
    pub fn record_derivation(
        &mut self,
        commit: ChangesetId,
        stored: DerivedDataHandle,
        rederived: DerivedDataHandle,
    ) -> (r: Result<(), ValidationError>)
        requires
            old(self).wf(),
            old(self).phase_view() == Phase::Deriving,
        ensures
            final(self).wf(),
            r is Ok <==> stored.same_as(&rederived),
            r matches Err(e) ==> e == (ValidationError::Mismatch { commit, stored, rederived }),
            final(self).phase_view() == (if r is Ok {
                Phase::Deriving
            } else {
                Phase::Closed
            }),
            final(self).store_view() == old(self).store_view(),
            final(self).mapping_view() == old(self).mapping_view(),
    {
        let r = compare_derived(commit, stored, rederived);
        if r.is_err() {
            self.phase = Phase::Closed;
        }
        r
    }

    /// Goes from `Deriving` to `Verifying` and locks both overlays: they
    /// take no more writes, and what their logs do not hold is not found.
    /// The logs stay as they are.
    pub fn start_verifying(&mut self)
        requires
            old(self).wf(),
            old(self).phase_view() == Phase::Deriving,
        ensures
            final(self).wf(),
            final(self).phase_view() == Phase::Verifying,
            final(self).store_view() == old(self).store_view().disable_backend_access().make_readonly(),
            final(self).mapping_view() == (MappingState {
                no_access_to_inner: true,
                readonly: true,
                ..old(self).mapping_view()
            }),
    {
        self.mapping.set_no_access_to_inner(true);
        self.mapping.set_readonly(true);
        self.store.disable_backend_access();
        self.store.make_readonly();
        self.phase = Phase::Verifying;
    }

    /// Verifies one commit against the locked overlay. `is_derived` is the
    /// derivation framework's answer, given through the locked overlay, to
    /// whether the commit counts as derived; `manifests` holds the tree
    /// nodes read from the durable storage; `roots` are what the derivation
    /// on the durable storage gave for the commit and its parents.
    ///
    /// The commit fails if it does not count as derived, and else as the
    /// check of its blobs fails. A failure closes the chunk.
    pub fn verify_commit(
        &mut self,
        commit: ChangesetId,
        is_derived: bool,
        manifests: &ManifestStore,
        roots: &DerivedRoots,
    ) -> (r: Result<Outcome, ValidationError>)
        requires
            old(self).wf(),
            old(self).phase_view() == Phase::Verifying,
            manifests.wf(),
        ensures
            final(self).wf(),
            !is_derived ==> r == Err::<Outcome, ValidationError>(
                ValidationError::NotDerived { commit },
            ),
            is_derived ==> generated_data_checked(
                r,
                commit,
                manifests@,
                *roots,
                old(self).store_view().log,
            ),
            final(self).phase_view() == (if r is Ok {
                Phase::Verifying
            } else {
                Phase::Closed
            }),
            final(self).store_view() == old(self).store_view(),
            final(self).mapping_view() == old(self).mapping_view(),
    {
        let r = match check_is_derived(commit, is_derived) {
            Ok(()) => validate_generated_data(commit, manifests, roots, &self.store),
            Err(e) => Err(e),
        };
        if r.is_err() {
            self.phase = Phase::Closed;
        }
        r
    }

    /// Closes the chunk and discards what its overlays hold.
    pub fn close(&mut self)
        requires
            old(self).wf(),
        ensures
            final(self).wf(),
            final(self).phase_view() == Phase::Closed,
            final(self).store_view() == OverlayState::fresh(),
            final(self).mapping_view() == MappingState::fresh(),
    {
        self.store = OverlayStore::new();
        self.mapping = OverlayMapping::new();
        self.phase = Phase::Closed;
    }

    /// The number of blobs written through the overlay so far.
    pub fn blobs_created(&self) -> (n: usize)
        requires
            self.wf(),
        ensures
            self.store_view().log.dom().finite(),
            n == self.store_view().log.dom().len(),
    {
        self.store.len()
    }
}

impl ChunkValidation {
    /// While a chunk is verified, a read finds what the log holds and
    /// nothing else, whatever the backend holds, and a write changes
    /// nothing.
    pub proof fn law_verifying_is_isolated(&self, key: Seq<char>, value: Seq<u8>)
        requires
            self.wf(),
            self.phase_view() == Phase::Verifying,
        ensures
            !self.store_view().log.contains_key(key) ==> self.store_view().get(key)
                == Answer::NotFound,
            self.store_view().put(key, value) == self.store_view(),
            forall|bonsai: ChangesetId, hg: HgChangesetId, backend: Option<HgChangesetId>|
                #[trigger] self.mapping_view().add(bonsai, hg, backend) == self.mapping_view(),
            forall|bonsai: ChangesetId|
                !self.mapping_view().log.contains_key(bonsai) ==> #[trigger] self.mapping_view().get_hg_from_bonsai(
                    bonsai,
                ) == MappingLookup::<HgChangesetId>::NotFound,
    {
    }

    /// While a chunk is derived, every write to the mapping is recorded,
    /// also of a pair that the backend holds already.
    pub proof fn law_deriving_records_every_pair(
        &self,
        bonsai: ChangesetId,
        hg: HgChangesetId,
        backend: Option<HgChangesetId>,
    )
        requires
            self.wf(),
            self.phase_view() == Phase::Deriving,
        ensures
            self.mapping_view().records(bonsai, hg, backend),
            self.mapping_view().add(bonsai, hg, backend).log.contains_key(bonsai),
            self.mapping_view().add(bonsai, hg, backend).log[bonsai] == hg,
    {
    }
}

} // verus!

