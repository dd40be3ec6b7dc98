//! Checks on one commit: that two derivations agree, and that every blob
//! which the commit introduced was written through the overlay.

use vstd::prelude::*;
use vstd::string::*;
use crate::ids::{ChangesetId, ContentId, HgChangesetId};
use crate::keys::{blob_key, key_for};
use crate::manifest::{
    find_intersection_of_diffs, is_new, loaded_for, names, needs_tree, yields, Entry, ManifestStore,
};
use crate::overlay::OverlayStore;

verus! {

/// The kinds of derived data whose blobs can be checked, and one for all others.
#[derive(Debug, PartialEq, Eq, Structural, Clone, Copy, Hash)]
pub enum DerivedKind {
    /// Manifests with the flattened content of each directory.
    Fsnodes,
    /// Manifests that record which paths exist.
    SkeletonManifests,
    /// Manifests of content hashes, with a node for each file as well.
    Unodes,
    /// The mapping to commits in the legacy format, with their manifests.
    HgChangesets,
    /// Any other kind: its derivations are compared, its blobs are not checked.
    Unsupported,
}

impl DerivedKind {
    /// The kind that goes by the name `name`.
    pub open spec fn of_name(name: Seq<char>) -> DerivedKind {
        if name == "fsnodes"@ {
            DerivedKind::Fsnodes
        } else if name == "skeleton_manifests"@ {
            DerivedKind::SkeletonManifests
        } else if name == "unodes"@ {
            DerivedKind::Unodes
        } else if name == "hgchangesets"@ {
            DerivedKind::HgChangesets
        } else {
            DerivedKind::Unsupported
        }
    }

    /// The kind that goes by the name `name`.
    pub fn from_name(name: &String) -> (kind: DerivedKind)
        ensures
            kind == DerivedKind::of_name(name@),
    {
        if *name == String::from_str("fsnodes") {
            DerivedKind::Fsnodes
        } else if *name == String::from_str("skeleton_manifests") {
            DerivedKind::SkeletonManifests
        } else if *name == String::from_str("unodes") {
            DerivedKind::Unodes
        } else if *name == String::from_str("hgchangesets") {
            DerivedKind::HgChangesets
        } else {
            DerivedKind::Unsupported
        }
    }

    /// The prefix of the keys of this kind's tree nodes, if they have blobs.
    pub open spec fn tree_prefix(self) -> Option<Seq<char>> {
        match self {
            DerivedKind::Fsnodes => Some("fsnode.blake2."@),
            DerivedKind::SkeletonManifests => Some("skeletonmanifest.blake2."@),
            DerivedKind::Unodes => Some("manifestunode.blake2."@),
            DerivedKind::HgChangesets => Some("hgmanifest.sha1."@),
            DerivedKind::Unsupported => None,
        }
    }

    /// The prefix of the keys of this kind's leaves, if they have blobs.
    pub open spec fn leaf_prefix(self) -> Option<Seq<char>> {
        match self {
            DerivedKind::Unodes => Some("fileunode.blake2."@),
            DerivedKind::HgChangesets => Some("hgfilenode.sha1."@),
            _ => None,
        }
    }

    /// The key of the blob of `e`, if an entry like `e` has a blob in this kind.
    pub open spec fn entry_key(self, e: Entry) -> Option<Seq<char>> {
        match e {
            Entry::Tree(id) => match self.tree_prefix() {
                Some(p) => Some(key_for(p, id)),
                None => None,
            },
            Entry::Leaf(id) => match self.leaf_prefix() {
                Some(p) => Some(key_for(p, id)),
                None => None,
            },
        }
    }

    /// The key of the blob of `e`, if an entry like `e` has a blob in this kind.
    pub fn blob_key_of(self, e: Entry) -> (r: Option<String>)
        ensures
            r is Some <==> self.entry_key(e) is Some,
            r matches Some(k) ==> self.entry_key(e) == Some(k@),
    {
        match e {
            Entry::Tree(id) => match self {
                DerivedKind::Fsnodes => Some(blob_key("fsnode.blake2.", id)),
                DerivedKind::SkeletonManifests => Some(blob_key("skeletonmanifest.blake2.", id)),
                DerivedKind::Unodes => Some(blob_key("manifestunode.blake2.", id)),
                DerivedKind::HgChangesets => Some(blob_key("hgmanifest.sha1.", id)),
                DerivedKind::Unsupported => None,
            },
            Entry::Leaf(id) => match self {
                DerivedKind::Unodes => Some(blob_key("fileunode.blake2.", id)),
                DerivedKind::HgChangesets => Some(blob_key("hgfilenode.sha1.", id)),
                _ => None,
            },
        }
    }
}

/// The key of the blob of the legacy-format commit `id`.
pub open spec fn hg_changeset_key(id: HgChangesetId) -> Seq<char> {
    key_for("hgchangeset.sha1."@, id.0)
}

/// What a derivation hands back for one commit.
#[derive(Debug, PartialEq, Eq, Clone)]
pub enum DerivedDataHandle {
    /// The root of the commit's manifest of flattened content.
    Fsnode(ContentId),
    /// The root of the commit's manifest of existing paths.
    SkeletonManifest(ContentId),
    /// The root of the commit's manifest of content hashes.
    Unode(ContentId),
    /// The commit's counterpart in the legacy format.
    HgChangeset(HgChangesetId),
    /// The result of a derivation of another kind, by the kind's name.
    Other { name: String, id: ContentId },
}

impl DerivedDataHandle {
    /// The two handles are of one kind and have the same value.
    pub open spec fn same_as(&self, other: &DerivedDataHandle) -> bool {
        match (*self, *other) {
            (DerivedDataHandle::Fsnode(a), DerivedDataHandle::Fsnode(b)) => a == b,
            (DerivedDataHandle::SkeletonManifest(a), DerivedDataHandle::SkeletonManifest(b)) => a
                == b,
            (DerivedDataHandle::Unode(a), DerivedDataHandle::Unode(b)) => a == b,
            (DerivedDataHandle::HgChangeset(a), DerivedDataHandle::HgChangeset(b)) => a == b,
            (
                DerivedDataHandle::Other { name: n1, id: i1 },
                DerivedDataHandle::Other { name: n2, id: i2 },
            ) => n1@ == n2@ && i1 == i2,
            _ => false,
        }
    }

    /// Whether the two handles are of one kind and have the same value.
    pub fn equals(&self, other: &DerivedDataHandle) -> (b: bool)
        ensures
            b == self.same_as(other),
    {
        match self {
            DerivedDataHandle::Fsnode(a) => match other {
                DerivedDataHandle::Fsnode(b) => *a == *b,
                _ => false,
            },
            DerivedDataHandle::SkeletonManifest(a) => match other {
                DerivedDataHandle::SkeletonManifest(b) => *a == *b,
                _ => false,
            },
            DerivedDataHandle::Unode(a) => match other {
                DerivedDataHandle::Unode(b) => *a == *b,
                _ => false,
            },
            DerivedDataHandle::HgChangeset(a) => match other {
                DerivedDataHandle::HgChangeset(b) => *a == *b,
                _ => false,
            },
            DerivedDataHandle::Other { name: n1, id: i1 } => match other {
                DerivedDataHandle::Other { name: n2, id: i2 } => *n1 == *n2 && *i1 == *i2,
                _ => false,
            },
        }
    }

    /// The name of the handle's kind.
    pub open spec fn name_view(&self) -> Seq<char> {
        match self {
            DerivedDataHandle::Fsnode(_) => "fsnodes"@,
            DerivedDataHandle::SkeletonManifest(_) => "skeleton_manifests"@,
            DerivedDataHandle::Unode(_) => "unodes"@,
            DerivedDataHandle::HgChangeset(_) => "hgchangesets"@,
            DerivedDataHandle::Other { name, .. } => name@,
        }
    }

    /// The name of the handle's kind.
    pub fn name(&self) -> (n: String)
        ensures
            n@ == self.name_view(),
    {
        match self {
            DerivedDataHandle::Fsnode(_) => String::from_str("fsnodes"),
            DerivedDataHandle::SkeletonManifest(_) => String::from_str("skeleton_manifests"),
            DerivedDataHandle::Unode(_) => String::from_str("unodes"),
            DerivedDataHandle::HgChangeset(_) => String::from_str("hgchangesets"),
            DerivedDataHandle::Other { name, .. } => name.clone(),
        }
    }

    /// The root of the manifest that the handle stands for, where the handle
    /// itself names one.
    pub fn manifest_root(&self) -> (r: Option<ContentId>)
        ensures
            r == (match *self {
                DerivedDataHandle::Fsnode(id) => Some(id),
                DerivedDataHandle::SkeletonManifest(id) => Some(id),
                DerivedDataHandle::Unode(id) => Some(id),
                _ => None,
            }),
    {
        match self {
            DerivedDataHandle::Fsnode(id) => Some(*id),
            DerivedDataHandle::SkeletonManifest(id) => Some(*id),
            DerivedDataHandle::Unode(id) => Some(*id),
            _ => None,
        }
    }
}

/// Why a validation run stops.
#[derive(Debug, PartialEq, Eq, Clone)]
pub enum ValidationError {
    /// The durable storage was not opened read-only.
    StorageNotReadonly,
    /// The derivation through the overlay and the one against the durable
    /// storage disagree.
    Mismatch { commit: ChangesetId, stored: DerivedDataHandle, rederived: DerivedDataHandle },
    /// The commit does not count as derived after it was derived through the overlay.
    NotDerived { commit: ChangesetId },
    /// A blob that the commit introduced was not written through the overlay.
    MissingBlob { commit: ChangesetId, key: String },
    /// A tree node that the comparison of manifests had to read was not at hand.
    MissingTree { commit: ChangesetId, id: ContentId },
}

/// How the check of a commit's blobs ended, if it did not fail.
#[derive(Debug, PartialEq, Eq, Structural, Clone, Copy)]
pub enum Outcome {
    /// Every blob that the commit introduced is in the overlay's log.
    Verified,
    /// The kind has no check of blobs; none was made.
    Skipped,
}

/// Holds the two derivations of `commit` against each other.
pub fn compare_derived(
    commit: ChangesetId,
    stored: DerivedDataHandle,
    rederived: DerivedDataHandle,
) -> (r: Result<(), ValidationError>)
    ensures
        r is Ok <==> stored.same_as(&rederived),
        r matches Err(e) ==> e == (ValidationError::Mismatch { commit, stored, rederived }),
{
    if stored.equals(&rederived) {
        Ok(())
    } else {
        Err(ValidationError::Mismatch { commit, stored, rederived })
    }
}

/// Takes the answer of the derivation framework to whether `commit` counts
/// as derived.
pub fn check_is_derived(commit: ChangesetId, is_derived: bool) -> (r: Result<(), ValidationError>)
    ensures
        r is Ok <==> is_derived,
        r matches Err(e) ==> e == (ValidationError::NotDerived { commit }),
{
    if is_derived {
        Ok(())
    } else {
        Err(ValidationError::NotDerived { commit })
    }
}

/// Checks that `key` was written through the overlay. The backend is not
/// asked, whether it is in reach or not.
pub fn check_exists(commit: ChangesetId, overlay: &OverlayStore, key: String) -> (r: Result<
    (),
    ValidationError,
>)
    requires
        overlay.wf(),
    ensures
        r is Ok <==> overlay@.log.contains_key(key@),
        r matches Err(e) ==> e == (ValidationError::MissingBlob { commit, key }),
{
    if overlay.contains(&key) {
        Ok(())
    } else {
        Err(ValidationError::MissingBlob { commit, key })
    }
}

/// The log holds the blob of every new entry that has one.
pub open spec fn new_blobs_present(
    m: Map<ContentId, Map<Seq<char>, Entry>>,
    root: ContentId,
    parents: Seq<ContentId>,
    kind: DerivedKind,
    log: Map<Seq<char>, Seq<u8>>,
) -> bool {
    forall|q: Seq<Seq<char>>, e: Entry| #[trigger]
        is_new(m, root, parents, q, e) ==> (kind.entry_key(e) matches Some(k) ==> log.contains_key(
            k,
        ))
}

/// `key` is the key of a new entry's blob, and the log does not hold it.
pub open spec fn new_blob_missing(
    m: Map<ContentId, Map<Seq<char>, Entry>>,
    root: ContentId,
    parents: Seq<ContentId>,
    kind: DerivedKind,
    log: Map<Seq<char>, Seq<u8>>,
    key: Seq<char>,
) -> bool {
    !log.contains_key(key) && exists|q: Seq<Seq<char>>, e: Entry| #[trigger]
        is_new(m, root, parents, q, e) && kind.entry_key(e) == Some(key)
}

/// `r` is how the check of the new entries' blobs has to end.
pub open spec fn entries_checked(
    r: Result<(), ValidationError>,
    commit: ChangesetId,
    m: Map<ContentId, Map<Seq<char>, Entry>>,
    root: ContentId,
    parents: Seq<ContentId>,
    kind: DerivedKind,
    log: Map<Seq<char>, Seq<u8>>,
) -> bool {
    if !loaded_for(m, root, parents) {
        r matches Err(ValidationError::MissingTree { commit: c, id }) && c == commit && needs_tree(
            m,
            root,
            parents,
            id,
        ) && !m.contains_key(id)
    } else if !new_blobs_present(m, root, parents, kind, log) {
        r matches Err(ValidationError::MissingBlob { commit: c, key }) && c == commit
            && new_blob_missing(m, root, parents, kind, log, key@)
    } else {
        r is Ok
    }
}

/// Checks that every entry which the manifest of `root` has and none of
/// `parents` has at the same path is in the overlay's log, as far as entries
/// like it have blobs in `kind`.
///
/// The check fails with the tree node that could not be read, if the store
/// lacks one that the comparison needs, and else with the key of a blob
/// that the log lacks, if there is one.
pub fn validate_new_manifest_entries(
    commit: ChangesetId,
    store: &ManifestStore,
    root: ContentId,
    parents: &Vec<ContentId>,
    overlay: &OverlayStore,
    kind: DerivedKind,
) -> (r: Result<(), ValidationError>)
    requires
        store.wf(),
        overlay.wf(),
    ensures
        entries_checked(r, commit, store@, root, parents@, kind, overlay@.log),
{
    let ghost m = store@;
    let ghost log = overlay@.log;
    let entries = match find_intersection_of_diffs(store, root, parents) {
        Ok(v) => v,
        Err(missing) => {
            return Err(ValidationError::MissingTree { commit, id: missing.id });
        },
    };
    let mut i: usize = 0;
    while i < entries.len()
        invariant
            overlay.wf(),
            log == overlay@.log,
            m == store@,
            loaded_for(m, root, parents@),
            i <= entries@.len(),
            forall|q: Seq<Seq<char>>, e: Entry|
                #![trigger yields(entries@, q, e)]
                #![trigger is_new(m, root, parents@, q, e)]
                yields(entries@, q, e) <==> is_new(m, root, parents@, q, e),
            forall|j: int|
                0 <= j < i ==> (kind.entry_key(#[trigger] entries@[j].entry) matches Some(k)
                    ==> log.contains_key(k)),
        decreases entries@.len() - i,
    {
        let ghost q = names(entries@[i as int].path@);
        let ghost e = entries@[i as int].entry;
        assert(yields(entries@, q, e));
        match kind.blob_key_of(entries[i].entry) {
            Some(key) => {
                if !overlay.contains(&key) {
                    proof {
                        assert(is_new(m, root, parents@, q, e));
                        assert(kind.entry_key(e) == Some(key@));
                        assert(new_blob_missing(m, root, parents@, kind, log, key@));
                        assert(!new_blobs_present(m, root, parents@, kind, log));
                    }
                    return Err(ValidationError::MissingBlob { commit, key });
                }
            },
            None => {},
        }
        i += 1;
    }
    proof {
        assert forall|q: Seq<Seq<char>>, e: Entry| #[trigger]
            is_new(m, root, parents@, q, e) implies (kind.entry_key(e) matches Some(k)
            ==> log.contains_key(k)) by {
            assert(yields(entries@, q, e));
        }
    }
    Ok(())
}

/// Checks the blobs that a commit introduced to its manifest of flattened
/// content: those of tree nodes.
pub fn validate_fsnodes(
    commit: ChangesetId,
    store: &ManifestStore,
    root: ContentId,
    parents: &Vec<ContentId>,
    overlay: &OverlayStore,
) -> (r: Result<(), ValidationError>)
    requires
        store.wf(),
        overlay.wf(),
    ensures
        entries_checked(r, commit, store@, root, parents@, DerivedKind::Fsnodes, overlay@.log),
{
    validate_new_manifest_entries(commit, store, root, parents, overlay, DerivedKind::Fsnodes)
}

/// Checks the blobs that a commit introduced to its manifest of existing
/// paths: those of tree nodes.
pub fn validate_skeleton_manifests(
    commit: ChangesetId,
    store: &ManifestStore,
    root: ContentId,
    parents: &Vec<ContentId>,
    overlay: &OverlayStore,
) -> (r: Result<(), ValidationError>)
    requires
        store.wf(),
        overlay.wf(),
    ensures
        entries_checked(
            r,
            commit,
            store@,
            root,
            parents@,
            DerivedKind::SkeletonManifests,
            overlay@.log,
        ),
{
    validate_new_manifest_entries(
        commit,
        store,
        root,
        parents,
        overlay,
        DerivedKind::SkeletonManifests,
    )
}

/// Checks the blobs that a commit introduced to its manifest of content
/// hashes: those of tree nodes and those of leaves.
pub fn validate_unodes(
    commit: ChangesetId,
    store: &ManifestStore,
    root: ContentId,
    parents: &Vec<ContentId>,
    overlay: &OverlayStore,
) -> (r: Result<(), ValidationError>)
    requires
        store.wf(),
        overlay.wf(),
    ensures
        entries_checked(r, commit, store@, root, parents@, DerivedKind::Unodes, overlay@.log),
{
    validate_new_manifest_entries(commit, store, root, parents, overlay, DerivedKind::Unodes)
}

/// Checks the blobs that go with a commit's counterpart in the legacy
/// format: first the blob of that commit itself, then those of the tree
/// nodes and leaves that its manifest introduced.
pub fn validate_hgchangesets(
    commit: ChangesetId,
    store: &ManifestStore,
    changeset: HgChangesetId,
    manifest: ContentId,
    parent_manifests: &Vec<ContentId>,
    overlay: &OverlayStore,
) -> (r: Result<(), ValidationError>)
    requires
        store.wf(),
        overlay.wf(),
    ensures
        !overlay@.log.contains_key(hg_changeset_key(changeset)) ==> (r matches Err(
            ValidationError::MissingBlob { commit: c, key },
        ) && c == commit && key@ == hg_changeset_key(changeset)),
        overlay@.log.contains_key(hg_changeset_key(changeset)) ==> entries_checked(
            r,
            commit,
            store@,
            manifest,
            parent_manifests@,
            DerivedKind::HgChangesets,
            overlay@.log,
        ),
{
    match check_exists(commit, overlay, blob_key("hgchangeset.sha1.", changeset.0)) {
        Ok(()) => {},
        Err(e) => {
            return Err(e);
        },
    }
    validate_new_manifest_entries(
        commit,
        store,
        manifest,
        parent_manifests,
        overlay,
        DerivedKind::HgChangesets,
    )
}

/// The roots from which the blobs of one commit are checked: what the kind's
/// derivation gave for the commit and for each of its parents.
#[derive(Debug, PartialEq, Eq, Clone)]
pub enum DerivedRoots {
    Fsnodes { root: ContentId, parents: Vec<ContentId> },
    SkeletonManifests { root: ContentId, parents: Vec<ContentId> },
    Unodes { root: ContentId, parents: Vec<ContentId> },
    HgChangesets { changeset: HgChangesetId, manifest: ContentId, parent_manifests: Vec<ContentId> },
    /// A kind whose blobs are not checked.
    Unsupported,
}

/// The manifest roots that the handles `handles` name, if each names one
/// and all are of the kind `kind`.
pub open spec fn roots_named(kind: DerivedKind, handles: Seq<DerivedDataHandle>, roots: Seq<ContentId>) -> bool {
    roots.len() == handles.len() && forall|i: int|
        0 <= i < handles.len() ==> handle_names(kind, #[trigger] handles[i], roots[i])
}

/// The handle `h` is of the kind `kind` and names the manifest root `root`.
pub open spec fn handle_names(kind: DerivedKind, h: DerivedDataHandle, root: ContentId) -> bool {
    match kind {
        DerivedKind::Fsnodes => h == DerivedDataHandle::Fsnode(root),
        DerivedKind::SkeletonManifests => h == DerivedDataHandle::SkeletonManifest(root),
        DerivedKind::Unodes => h == DerivedDataHandle::Unode(root),
        _ => false,
    }
}

/// The handle `h` is of the kind `kind`, which is one whose handles name a
/// manifest root.
pub open spec fn names_root_of(kind: DerivedKind, h: DerivedDataHandle) -> bool {
    match kind {
        DerivedKind::Fsnodes => h is Fsnode,
        DerivedKind::SkeletonManifests => h is SkeletonManifest,
        DerivedKind::Unodes => h is Unode,
        _ => false,
    }
}

/// The kind of the handle `h`.
pub open spec fn kind_of(h: DerivedDataHandle) -> DerivedKind {
    match h {
        DerivedDataHandle::Fsnode(_) => DerivedKind::Fsnodes,
        DerivedDataHandle::SkeletonManifest(_) => DerivedKind::SkeletonManifests,
        DerivedDataHandle::Unode(_) => DerivedKind::Unodes,
        DerivedDataHandle::HgChangeset(_) => DerivedKind::HgChangesets,
        DerivedDataHandle::Other { .. } => DerivedKind::Unsupported,
    }
}

fn root_of_kind(kind: DerivedKind, h: &DerivedDataHandle) -> (r: Option<ContentId>)
    ensures
        r is Some <==> names_root_of(kind, *h),
        r matches Some(root) ==> handle_names(kind, *h, root),
{
    match kind {
        DerivedKind::Fsnodes => match h {
            DerivedDataHandle::Fsnode(id) => Some(*id),
            _ => None,
        },
        DerivedKind::SkeletonManifests => match h {
            DerivedDataHandle::SkeletonManifest(id) => Some(*id),
            _ => None,
        },
        DerivedKind::Unodes => match h {
            DerivedDataHandle::Unode(id) => Some(*id),
            _ => None,
        },
        _ => None,
    }
}

impl DerivedRoots {
    /// The roots for a commit whose derivation gave `derived`, and whose
    /// parents' derivations gave `parents`, in order.
    ///
    /// A handle of a kind without a check of blobs gives `Unsupported`. A
    /// handle that names a manifest root gives that root with the roots
    /// that the parents' handles name. There are no roots where a parent's
    /// handle is of another kind than the commit's, and none for the
    /// handle of a legacy commit, whose manifests have to be read first.
    pub fn from_handles(derived: &DerivedDataHandle, parents: &Vec<DerivedDataHandle>) -> (r: Option<
        DerivedRoots,
    >)
        ensures
            match kind_of(*derived) {
                DerivedKind::Unsupported => r == Some(DerivedRoots::Unsupported),
                DerivedKind::HgChangesets => r is None,
                kind => {
                    &&& r is Some <==> forall|i: int|
                        0 <= i < parents@.len() ==> names_root_of(kind, #[trigger] parents@[i])
                    &&& r matches Some(roots) ==> roots.kind_view() == kind && handle_names(
                        kind,
                        *derived,
                        roots.root_view(),
                    ) && roots_named(kind, parents@, roots.parents_view())
                },
            },
    {
        let kind = match derived {
            DerivedDataHandle::Fsnode(_) => DerivedKind::Fsnodes,
            DerivedDataHandle::SkeletonManifest(_) => DerivedKind::SkeletonManifests,
            DerivedDataHandle::Unode(_) => DerivedKind::Unodes,
            DerivedDataHandle::HgChangeset(_) => {
                return None;
            },
            DerivedDataHandle::Other { .. } => {
                return Some(DerivedRoots::Unsupported);
            },
        };
        let root = match root_of_kind(kind, derived) {
            Some(root) => root,
            None => {
                return None;
            },
        };
        let mut roots: Vec<ContentId> = Vec::new();
        let mut i: usize = 0;
        while i < parents.len()
            invariant
                kind == kind_of(*derived),
                kind != DerivedKind::Unsupported,
                kind != DerivedKind::HgChangesets,
                i <= parents@.len(),
                roots@.len() == i,
                forall|j: int|
                    0 <= j < i ==> handle_names(kind, #[trigger] parents@[j], roots@[j])
                        && names_root_of(kind, parents@[j]),
            decreases parents@.len() - i,
        {
            match root_of_kind(kind, &parents[i]) {
                Some(r) => {
                    roots.push(r);
                },
                None => {
                    assert(!names_root_of(kind, parents@[i as int]));
                    return None;
                },
            }
            i += 1;
        }
        match kind {
            DerivedKind::Fsnodes => Some(DerivedRoots::Fsnodes { root, parents: roots }),
            DerivedKind::SkeletonManifests => Some(
                DerivedRoots::SkeletonManifests { root, parents: roots },
            ),
            _ => Some(DerivedRoots::Unodes { root, parents: roots }),
        }
    }

    /// The root of the commit's manifest.
    pub open spec fn root_view(&self) -> ContentId {
        match *self {
            DerivedRoots::Fsnodes { root, .. } => root,
            DerivedRoots::SkeletonManifests { root, .. } => root,
            DerivedRoots::Unodes { root, .. } => root,
            DerivedRoots::HgChangesets { manifest, .. } => manifest,
            DerivedRoots::Unsupported => arbitrary(),
        }
    }

    /// The roots of the parents' manifests.
    pub open spec fn parents_view(&self) -> Seq<ContentId> {
        match *self {
            DerivedRoots::Fsnodes { parents, .. } => parents@,
            DerivedRoots::SkeletonManifests { parents, .. } => parents@,
            DerivedRoots::Unodes { parents, .. } => parents@,
            DerivedRoots::HgChangesets { parent_manifests, .. } => parent_manifests@,
            DerivedRoots::Unsupported => Seq::empty(),
        }
    }

    /// The kind that the roots belong to.
    pub open spec fn kind_view(&self) -> DerivedKind {
        match self {
            DerivedRoots::Fsnodes { .. } => DerivedKind::Fsnodes,
            DerivedRoots::SkeletonManifests { .. } => DerivedKind::SkeletonManifests,
            DerivedRoots::Unodes { .. } => DerivedKind::Unodes,
            DerivedRoots::HgChangesets { .. } => DerivedKind::HgChangesets,
            DerivedRoots::Unsupported => DerivedKind::Unsupported,
        }
    }

    /// The kind that the roots belong to.
    pub fn kind(&self) -> (k: DerivedKind)
        ensures
            k == self.kind_view(),
    {
        match self {
            DerivedRoots::Fsnodes { .. } => DerivedKind::Fsnodes,
            DerivedRoots::SkeletonManifests { .. } => DerivedKind::SkeletonManifests,
            DerivedRoots::Unodes { .. } => DerivedKind::Unodes,
            DerivedRoots::HgChangesets { .. } => DerivedKind::HgChangesets,
            DerivedRoots::Unsupported => DerivedKind::Unsupported,
        }
    }
}

/// `r` is how the check of one commit's blobs has to end.
pub open spec fn generated_data_checked(
    r: Result<Outcome, ValidationError>,
    commit: ChangesetId,
    m: Map<ContentId, Map<Seq<char>, Entry>>,
    roots: DerivedRoots,
    log: Map<Seq<char>, Seq<u8>>,
) -> bool {
    match roots {
        DerivedRoots::Unsupported => r == Ok::<Outcome, ValidationError>(Outcome::Skipped),
        DerivedRoots::Fsnodes { root, parents } => manifest_checked(
            r,
            commit,
            m,
            root,
            parents@,
            DerivedKind::Fsnodes,
            log,
        ),
        DerivedRoots::SkeletonManifests { root, parents } => manifest_checked(
            r,
            commit,
            m,
            root,
            parents@,
            DerivedKind::SkeletonManifests,
            log,
        ),
        DerivedRoots::Unodes { root, parents } => manifest_checked(
            r,
            commit,
            m,
            root,
            parents@,
            DerivedKind::Unodes,
            log,
        ),
        DerivedRoots::HgChangesets { changeset, manifest, parent_manifests } => if log.contains_key(
            hg_changeset_key(changeset),
        ) {
            manifest_checked(
                r,
                commit,
                m,
                manifest,
                parent_manifests@,
                DerivedKind::HgChangesets,
                log,
            )
        } else {
            r matches Err(ValidationError::MissingBlob { commit: c, key }) && c == commit && key@
                == hg_changeset_key(changeset)
        },
    }
}

/// `r` is `Verified` where the check of the new entries' blobs passes, and
/// that check's failure where it fails.
pub open spec fn manifest_checked(
    r: Result<Outcome, ValidationError>,
    commit: ChangesetId,
    m: Map<ContentId, Map<Seq<char>, Entry>>,
    root: ContentId,
    parents: Seq<ContentId>,
    kind: DerivedKind,
    log: Map<Seq<char>, Seq<u8>>,
) -> bool {
    match r {
        Ok(o) => o == Outcome::Verified && entries_checked(
            Ok(()),
            commit,
            m,
            root,
            parents,
            kind,
            log,
        ),
        Err(e) => entries_checked(Err(e), commit, m, root, parents, kind, log),
    }
}

fn verified(r: Result<(), ValidationError>) -> (o: Result<Outcome, ValidationError>)
    ensures
        o == (match r {
            Ok(_) => Ok::<Outcome, ValidationError>(Outcome::Verified),
            Err(e) => Err(e),
        }),
{
    match r {
        Ok(()) => Ok(Outcome::Verified),
        Err(e) => Err(e),
    }
}

/// Checks that the blobs which `commit` introduced to its derived data were
/// written through the overlay, in the way of the kind that `roots` belong
/// to. For a kind without such a check nothing is checked, and the result
/// says so.
pub fn validate_generated_data(
    commit: ChangesetId,
    store: &ManifestStore,
    roots: &DerivedRoots,
    overlay: &OverlayStore,
) -> (r: Result<Outcome, ValidationError>)
    requires
        store.wf(),
        overlay.wf(),
    ensures
        generated_data_checked(r, commit, store@, *roots, overlay@.log),
{
    match roots {
        DerivedRoots::Fsnodes { root, parents } => verified(
            validate_fsnodes(commit, store, *root, parents, overlay),
        ),
        DerivedRoots::SkeletonManifests { root, parents } => verified(
            validate_skeleton_manifests(commit, store, *root, parents, overlay),
        ),
        DerivedRoots::Unodes { root, parents } => verified(
            validate_unodes(commit, store, *root, parents, overlay),
        ),
        DerivedRoots::HgChangesets { changeset, manifest, parent_manifests } => verified(
            validate_hgchangesets(commit, store, *changeset, *manifest, parent_manifests, overlay),
        ),
        DerivedRoots::Unsupported => Ok(Outcome::Skipped),
    }
}

/// Where the check of the new entries' blobs passes, the log holds the key
/// of every new entry that has one: no blob that the commit introduced is
/// passed over.
pub proof fn law_passed_means_written(
    commit: ChangesetId,
    m: Map<ContentId, Map<Seq<char>, Entry>>,
    root: ContentId,
    parents: Seq<ContentId>,
    kind: DerivedKind,
    log: Map<Seq<char>, Seq<u8>>,
    path: Seq<Seq<char>>,
    e: Entry,
)
    requires
        entries_checked(Ok(()), commit, m, root, parents, kind, log),
        is_new(m, root, parents, path, e),
        kind.entry_key(e) is Some,
    ensures
        log.contains_key(kind.entry_key(e)->0),
{
}

/// The check of the new entries' blobs does not depend on whether the
/// backend is in reach, and a blob that was written later than the log
/// was taken does not help: only the log decides.
pub proof fn law_only_the_log_decides(
    r: Result<(), ValidationError>,
    commit: ChangesetId,
    m: Map<ContentId, Map<Seq<char>, Entry>>,
    root: ContentId,
    parents: Seq<ContentId>,
    kind: DerivedKind,
    log: Map<Seq<char>, Seq<u8>>,
    path: Seq<Seq<char>>,
    e: Entry,
)
    requires
        entries_checked(r, commit, m, root, parents, kind, log),
        loaded_for(m, root, parents),
        is_new(m, root, parents, path, e),
        kind.entry_key(e) matches Some(k) && !log.contains_key(k),
    ensures
        r is Err,
{
}

} // verus!

