use derived_validation::driver::{
    check_readonly_storage, split_into_chunks, RunStatus, ValidationRun, DEFAULT_CHUNK_SIZE,
    MAX_CONCURRENT_COMMITS,
};
use derived_validation::ids::{ChangesetId, ContentId, HgChangesetId};
use derived_validation::keys::blob_key;
use derived_validation::manifest::{Child, Entry, ManifestStore};
use derived_validation::mapping::MappingLookup;
use derived_validation::orchestrator::{ChunkValidation, Phase};
use derived_validation::overlay::{Lookup, OverlayStore, ReadOnly};
use derived_validation::validation::{
    check_exists, check_is_derived, compare_derived, validate_fsnodes, validate_generated_data,
    validate_hgchangesets, validate_new_manifest_entries, validate_skeleton_manifests,
    validate_unodes, DerivedDataHandle, DerivedKind, DerivedRoots, Outcome, ValidationError,
};

fn id(n: u128) -> ContentId {
    ContentId::from_low(n)
}

fn commit(n: u128) -> ChangesetId {
    ChangesetId(id(n))
}

fn child(name: &str, entry: Entry) -> Child {
    Child { name: name.to_string(), entry }
}

fn hex(n: u128) -> String {
    format!("{:064x}", n)
}

/// The manifests of the commit C0, which adds the files a and b, and of
/// its child C1, which modifies a.
fn manifests() -> ManifestStore {
    let mut store = ManifestStore::new();
    store
        .insert(id(100), vec![child("a", Entry::Leaf(id(1))), child("b", Entry::Leaf(id(2)))])
        .unwrap();
    store
        .insert(id(101), vec![child("a", Entry::Leaf(id(3))), child("b", Entry::Leaf(id(2)))])
        .unwrap();
    store
}

fn overlay_with(keys: &[String]) -> OverlayStore {
    let mut overlay = OverlayStore::new();
    for key in keys {
        overlay.put(key.clone(), vec![0]).unwrap();
    }
    overlay.disable_backend_access();
    overlay
}

#[test]
fn a_key_is_a_prefix_and_sixty_four_digits() {
    assert_eq!(blob_key("fsnode.blake2.", id(0)), format!("fsnode.blake2.{}", "0".repeat(64)));
    assert_eq!(blob_key("p.", id(0xab)), format!("p.{}ab", "0".repeat(62)));
    assert_eq!(
        blob_key("", ContentId { hi: 0x0123456789abcdef_fedcba9876543210, lo: 1 }),
        format!("0123456789abcdeffedcba9876543210{}1", "0".repeat(31))
    );
    assert_eq!(blob_key("x", ContentId { hi: u128::MAX, lo: u128::MAX }), format!("x{}", "f".repeat(64)));
    assert_ne!(blob_key("x", ContentId { hi: 1, lo: 0 }), blob_key("x", ContentId { hi: 0, lo: 1 }));
}

#[test]
fn kinds_go_by_their_names() {
    assert_eq!(DerivedKind::from_name(&"fsnodes".to_string()), DerivedKind::Fsnodes);
    assert_eq!(
        DerivedKind::from_name(&"skeleton_manifests".to_string()),
        DerivedKind::SkeletonManifests
    );
    assert_eq!(DerivedKind::from_name(&"unodes".to_string()), DerivedKind::Unodes);
    assert_eq!(DerivedKind::from_name(&"hgchangesets".to_string()), DerivedKind::HgChangesets);
    assert_eq!(DerivedKind::from_name(&"blame".to_string()), DerivedKind::Unsupported);
    assert_eq!(DerivedKind::from_name(&"".to_string()), DerivedKind::Unsupported);
    assert_eq!(DerivedDataHandle::Fsnode(id(1)).name(), "fsnodes");
    assert_eq!(DerivedDataHandle::SkeletonManifest(id(1)).name(), "skeleton_manifests");
    assert_eq!(DerivedDataHandle::Unode(id(1)).name(), "unodes");
    assert_eq!(DerivedDataHandle::HgChangeset(HgChangesetId(id(1))).name(), "hgchangesets");
    assert_eq!(DerivedDataHandle::Other { name: "blame".to_string(), id: id(1) }.name(), "blame");
}

#[test]
fn each_kind_has_its_keys() {
    let tree = Entry::Tree(id(0xa));
    let leaf = Entry::Leaf(id(0xb));
    assert_eq!(
        DerivedKind::Fsnodes.blob_key_of(tree),
        Some(format!("fsnode.blake2.{}", hex(0xa)))
    );
    assert_eq!(DerivedKind::Fsnodes.blob_key_of(leaf), None);
    assert_eq!(
        DerivedKind::SkeletonManifests.blob_key_of(tree),
        Some(format!("skeletonmanifest.blake2.{}", hex(0xa)))
    );
    assert_eq!(DerivedKind::SkeletonManifests.blob_key_of(leaf), None);
    assert_eq!(
        DerivedKind::Unodes.blob_key_of(tree),
        Some(format!("manifestunode.blake2.{}", hex(0xa)))
    );
    assert_eq!(
        DerivedKind::Unodes.blob_key_of(leaf),
        Some(format!("fileunode.blake2.{}", hex(0xb)))
    );
    assert_eq!(
        DerivedKind::HgChangesets.blob_key_of(tree),
        Some(format!("hgmanifest.sha1.{}", hex(0xa)))
    );
    assert_eq!(
        DerivedKind::HgChangesets.blob_key_of(leaf),
        Some(format!("hgfilenode.sha1.{}", hex(0xb)))
    );
    assert_eq!(DerivedKind::Unsupported.blob_key_of(tree), None);
    assert_eq!(DerivedKind::Unsupported.blob_key_of(leaf), None);
}

#[test]
fn handles_are_equal_by_kind_and_value() {
    let fsnode = DerivedDataHandle::Fsnode(id(1));
    assert!(fsnode.equals(&DerivedDataHandle::Fsnode(id(1))));
    assert!(!fsnode.equals(&DerivedDataHandle::Fsnode(id(2))));
    assert!(!fsnode.equals(&DerivedDataHandle::Unode(id(1))));
    assert!(!fsnode.equals(&DerivedDataHandle::SkeletonManifest(id(1))));
    let other = DerivedDataHandle::Other { name: "blame".to_string(), id: id(1) };
    assert!(other.equals(&DerivedDataHandle::Other { name: "blame".to_string(), id: id(1) }));
    assert!(!other.equals(&DerivedDataHandle::Other { name: "blame2".to_string(), id: id(1) }));
    assert!(!other.equals(&DerivedDataHandle::Other { name: "blame".to_string(), id: id(2) }));
    assert_eq!(fsnode.manifest_root(), Some(id(1)));
    assert_eq!(DerivedDataHandle::Unode(id(4)).manifest_root(), Some(id(4)));
    assert_eq!(DerivedDataHandle::SkeletonManifest(id(5)).manifest_root(), Some(id(5)));
    assert_eq!(DerivedDataHandle::HgChangeset(HgChangesetId(id(1))).manifest_root(), None);
    assert_eq!(other.manifest_root(), None);
}

#[test]
fn a_mismatch_names_the_commit_and_both_results() {
    // the derivation of C1 gives H1, the one through the overlay H2
    let h1 = DerivedDataHandle::Unode(id(0x11));
    let h2 = DerivedDataHandle::Unode(id(0x22));
    assert_eq!(
        compare_derived(commit(1), h1.clone(), h2.clone()),
        Err(ValidationError::Mismatch { commit: commit(1), stored: h1.clone(), rederived: h2 })
    );
    assert_eq!(compare_derived(commit(1), h1.clone(), h1), Ok(()));
}

#[test]
fn a_commit_that_is_not_derived_fails() {
    assert_eq!(check_is_derived(commit(4), true), Ok(()));
    assert_eq!(
        check_is_derived(commit(4), false),
        Err(ValidationError::NotDerived { commit: commit(4) })
    );
}

#[test]
fn a_blob_is_looked_for_in_the_log_alone() {
    let mut overlay = OverlayStore::new();
    overlay.put("there".to_string(), vec![1]).unwrap();
    // the backend is still in reach, and is not asked
    assert_eq!(check_exists(commit(1), &overlay, "there".to_string()), Ok(()));
    assert_eq!(
        check_exists(commit(1), &overlay, "elsewhere".to_string()),
        Err(ValidationError::MissingBlob { commit: commit(1), key: "elsewhere".to_string() })
    );
    overlay.disable_backend_access();
    assert_eq!(check_exists(commit(1), &overlay, "there".to_string()), Ok(()));
    assert_eq!(
        check_exists(commit(1), &overlay, "elsewhere".to_string()),
        Err(ValidationError::MissingBlob { commit: commit(1), key: "elsewhere".to_string() })
    );
}

#[test]
fn root_commit_with_all_blobs_written_passes() {
    // C0 adds a and b: the root tree and both leaves are new
    let store = manifests();
    let overlay = overlay_with(&[
        blob_key("manifestunode.blake2.", id(100)),
        blob_key("fileunode.blake2.", id(1)),
        blob_key("fileunode.blake2.", id(2)),
    ]);
    assert_eq!(validate_unodes(commit(0), &store, id(100), &vec![], &overlay), Ok(()));
}

#[test]
fn root_commit_with_a_blob_missing_fails() {
    let store = manifests();
    let overlay = overlay_with(&[
        blob_key("manifestunode.blake2.", id(100)),
        blob_key("fileunode.blake2.", id(1)),
    ]);
    assert_eq!(
        validate_unodes(commit(0), &store, id(100), &vec![], &overlay),
        Err(ValidationError::MissingBlob {
            commit: commit(0),
            key: blob_key("fileunode.blake2.", id(2)),
        })
    );
}

#[test]
fn a_child_commit_answers_only_for_what_it_changed() {
    // C1 modifies a: the blob of b need not be in the log
    let store = manifests();
    let overlay = overlay_with(&[
        blob_key("manifestunode.blake2.", id(101)),
        blob_key("fileunode.blake2.", id(3)),
    ]);
    assert_eq!(validate_unodes(commit(1), &store, id(101), &vec![id(100)], &overlay), Ok(()));
    // as a root commit it would answer for b as well
    assert_eq!(
        validate_unodes(commit(1), &store, id(101), &vec![], &overlay),
        Err(ValidationError::MissingBlob {
            commit: commit(1),
            key: blob_key("fileunode.blake2.", id(2)),
        })
    );
}

#[test]
fn manifests_without_leaf_blobs_need_their_trees_only() {
    let store = manifests();
    let fsnodes = overlay_with(&[blob_key("fsnode.blake2.", id(100))]);
    assert_eq!(validate_fsnodes(commit(0), &store, id(100), &vec![], &fsnodes), Ok(()));
    assert_eq!(
        validate_skeleton_manifests(commit(0), &store, id(100), &vec![], &fsnodes),
        Err(ValidationError::MissingBlob {
            commit: commit(0),
            key: blob_key("skeletonmanifest.blake2.", id(100)),
        })
    );
    let skeletons = overlay_with(&[blob_key("skeletonmanifest.blake2.", id(100))]);
    assert_eq!(validate_skeleton_manifests(commit(0), &store, id(100), &vec![], &skeletons), Ok(()));
    assert_eq!(
        validate_new_manifest_entries(commit(0), &store, id(100), &vec![], &skeletons, DerivedKind::Unsupported),
        Ok(())
    );
}

#[test]
fn a_tree_that_cannot_be_read_fails_the_commit() {
    let store = manifests();
    let overlay = overlay_with(&[]);
    assert_eq!(
        validate_fsnodes(commit(9), &store, id(555), &vec![], &overlay),
        Err(ValidationError::MissingTree { commit: commit(9), id: id(555) })
    );
}

#[test]
fn the_legacy_commit_itself_is_looked_for_first() {
    let store = manifests();
    let changeset = HgChangesetId(id(0xc5));
    let all = overlay_with(&[
        blob_key("hgchangeset.sha1.", id(0xc5)),
        blob_key("hgmanifest.sha1.", id(100)),
        blob_key("hgfilenode.sha1.", id(1)),
        blob_key("hgfilenode.sha1.", id(2)),
    ]);
    assert_eq!(validate_hgchangesets(commit(0), &store, changeset, id(100), &vec![], &all), Ok(()));
    let without_changeset = overlay_with(&[
        blob_key("hgmanifest.sha1.", id(100)),
        blob_key("hgfilenode.sha1.", id(1)),
        blob_key("hgfilenode.sha1.", id(2)),
    ]);
    assert_eq!(
        validate_hgchangesets(commit(0), &store, changeset, id(100), &vec![], &without_changeset),
        Err(ValidationError::MissingBlob {
            commit: commit(0),
            key: blob_key("hgchangeset.sha1.", id(0xc5)),
        })
    );
    let without_file = overlay_with(&[
        blob_key("hgchangeset.sha1.", id(0xc5)),
        blob_key("hgmanifest.sha1.", id(100)),
        blob_key("hgfilenode.sha1.", id(1)),
    ]);
    assert_eq!(
        validate_hgchangesets(commit(0), &store, changeset, id(100), &vec![], &without_file),
        Err(ValidationError::MissingBlob {
            commit: commit(0),
            key: blob_key("hgfilenode.sha1.", id(2)),
        })
    );
    // even the tree that cannot be read comes after the commit's own blob
    assert_eq!(
        validate_hgchangesets(commit(0), &store, changeset, id(555), &vec![], &without_changeset),
        Err(ValidationError::MissingBlob {
            commit: commit(0),
            key: blob_key("hgchangeset.sha1.", id(0xc5)),
        })
    );
}

#[test]
fn generated_data_is_checked_by_kind() {
    let store = manifests();
    let overlay = overlay_with(&[blob_key("fsnode.blake2.", id(100))]);
    assert_eq!(
        validate_generated_data(
            commit(0),
            &store,
            &DerivedRoots::Fsnodes { root: id(100), parents: vec![] },
            &overlay
        ),
        Ok(Outcome::Verified)
    );
    assert_eq!(
        validate_generated_data(
            commit(0),
            &store,
            &DerivedRoots::Unodes { root: id(100), parents: vec![] },
            &overlay
        ),
        Err(ValidationError::MissingBlob {
            commit: commit(0),
            key: blob_key("manifestunode.blake2.", id(100)),
        })
    );
    assert_eq!(
        validate_generated_data(
            commit(0),
            &store,
            &DerivedRoots::SkeletonManifests { root: id(100), parents: vec![id(100)] },
            &overlay
        ),
        Ok(Outcome::Verified)
    );
    assert_eq!(
        validate_generated_data(
            commit(0),
            &store,
            &DerivedRoots::HgChangesets {
                changeset: HgChangesetId(id(7)),
                manifest: id(100),
                parent_manifests: vec![],
            },
            &overlay
        ),
        Err(ValidationError::MissingBlob { commit: commit(0), key: blob_key("hgchangeset.sha1.", id(7)) })
    );
    assert_eq!(
        validate_generated_data(commit(0), &store, &DerivedRoots::Unsupported, &overlay),
        Ok(Outcome::Skipped)
    );
    assert_eq!(DerivedRoots::Unsupported.kind(), DerivedKind::Unsupported);
    assert_eq!(
        DerivedRoots::Unodes { root: id(1), parents: vec![] }.kind(),
        DerivedKind::Unodes
    );
}

#[test]
fn a_chunk_goes_through_its_phases() {
    let store = manifests();
    let mut chunk = ChunkValidation::new();
    assert_eq!(chunk.phase(), Phase::Priming);
    assert_eq!(chunk.blobs_created(), 0);
    chunk.start_deriving();
    assert_eq!(chunk.phase(), Phase::Deriving);

    // the derivation through the overlay reads and writes
    assert_eq!(chunk.get_blob(&"content".to_string()), Lookup::AskBackend);
    assert_eq!(chunk.put_blob(blob_key("fsnode.blake2.", id(100)), vec![1]), Ok(()));
    assert_eq!(chunk.put_blob(blob_key("fsnode.blake2.", id(101)), vec![2]), Ok(()));
    // with the pair in the backend already, the write is recorded all the same
    let hg = HgChangesetId(id(0x49));
    assert_eq!(chunk.get_hg_from_bonsai(commit(0)), MappingLookup::AskBackend);
    assert_eq!(chunk.add_mapping(commit(0), hg, Some(hg)), Ok(true));
    assert_eq!(chunk.get_hg_from_bonsai(commit(0)), MappingLookup::Found(hg));
    assert_eq!(chunk.blobs_created(), 2);

    let root0 = DerivedDataHandle::Fsnode(id(100));
    let root1 = DerivedDataHandle::Fsnode(id(101));
    assert_eq!(chunk.record_derivation(commit(0), root0.clone(), root0), Ok(()));
    assert_eq!(chunk.record_derivation(commit(1), root1.clone(), root1), Ok(()));
    assert_eq!(chunk.phase(), Phase::Deriving);

    chunk.start_verifying();
    assert_eq!(chunk.phase(), Phase::Verifying);
    assert!(!chunk.store().fallback_enabled());
    assert!(chunk.store().is_readonly());
    assert_eq!(chunk.put_blob("late".to_string(), vec![3]), Err(ReadOnly {}));
    assert_eq!(chunk.add_mapping(commit(5), hg, None), Err(ReadOnly {}));
    assert_eq!(chunk.get_blob(&"content".to_string()), Lookup::NotFound);
    assert_eq!(chunk.get_hg_from_bonsai(commit(5)), MappingLookup::NotFound);
    assert_eq!(chunk.mapping().len(), 1);

    assert_eq!(
        chunk.verify_commit(
            commit(0),
            true,
            &store,
            &DerivedRoots::Fsnodes { root: id(100), parents: vec![] }
        ),
        Ok(Outcome::Verified)
    );
    assert_eq!(
        chunk.verify_commit(
            commit(1),
            true,
            &store,
            &DerivedRoots::Fsnodes { root: id(101), parents: vec![id(100)] }
        ),
        Ok(Outcome::Verified)
    );
    assert_eq!(chunk.phase(), Phase::Verifying);
    chunk.close();
    assert_eq!(chunk.phase(), Phase::Closed);
    // what the overlays held is gone
    assert_eq!(chunk.blobs_created(), 0);
    assert_eq!(chunk.mapping().len(), 0);
}

#[test]
fn a_mismatch_closes_the_chunk() {
    let mut chunk = ChunkValidation::new();
    chunk.start_deriving();
    let h1 = DerivedDataHandle::Fsnode(id(1));
    let h2 = DerivedDataHandle::Fsnode(id(2));
    assert_eq!(
        chunk.record_derivation(commit(1), h1.clone(), h2.clone()),
        Err(ValidationError::Mismatch { commit: commit(1), stored: h1, rederived: h2 })
    );
    assert_eq!(chunk.phase(), Phase::Closed);
}

#[test]
fn a_failed_commit_closes_the_chunk() {
    let store = manifests();
    let roots = DerivedRoots::Fsnodes { root: id(100), parents: vec![] };

    let mut chunk = ChunkValidation::new();
    chunk.start_deriving();
    chunk.start_verifying();
    assert_eq!(
        chunk.verify_commit(commit(0), false, &store, &roots),
        Err(ValidationError::NotDerived { commit: commit(0) })
    );
    assert_eq!(chunk.phase(), Phase::Closed);

    let mut chunk = ChunkValidation::new();
    chunk.start_deriving();
    chunk.start_verifying();
    assert_eq!(
        chunk.verify_commit(commit(0), true, &store, &roots),
        Err(ValidationError::MissingBlob { commit: commit(0), key: blob_key("fsnode.blake2.", id(100)) })
    );
    assert_eq!(chunk.phase(), Phase::Closed);

    let mut chunk = ChunkValidation::new();
    chunk.start_deriving();
    chunk.start_verifying();
    assert_eq!(
        chunk.verify_commit(commit(0), true, &store, &DerivedRoots::Unsupported),
        Ok(Outcome::Skipped)
    );
    assert_eq!(chunk.phase(), Phase::Verifying);
}

#[test]
fn commits_are_split_into_chunks_in_order() {
    let commits: Vec<ChangesetId> = (0..7).map(commit).collect();
    assert_eq!(
        split_into_chunks(&commits, 3),
        vec![
            vec![commit(0), commit(1), commit(2)],
            vec![commit(3), commit(4), commit(5)],
            vec![commit(6)],
        ]
    );
    assert_eq!(split_into_chunks(&commits[..6].to_vec(), 3).len(), 2);
    assert_eq!(split_into_chunks(&commits, 7), vec![commits.clone()]);
    assert_eq!(split_into_chunks(&commits, 100), vec![commits.clone()]);
    assert_eq!(split_into_chunks(&commits, 1).len(), 7);
    assert_eq!(split_into_chunks(&vec![], 5), Vec::<Vec<ChangesetId>>::new());
    assert_eq!(split_into_chunks(&commits, usize::MAX), vec![commits]);
    assert_eq!(DEFAULT_CHUNK_SIZE, 10000);
    assert_eq!(MAX_CONCURRENT_COMMITS, 100);
}

#[test]
fn a_run_needs_readonly_storage() {
    assert_eq!(check_readonly_storage(true), Ok(()));
    assert_eq!(check_readonly_storage(false), Err(ValidationError::StorageNotReadonly));
    let commits: Vec<ChangesetId> = (0..3).map(commit).collect();
    assert!(matches!(
        ValidationRun::start(false, &commits, 2),
        Err(ValidationError::StorageNotReadonly)
    ));
    assert!(ValidationRun::start(true, &commits, 2).is_ok());
}

#[test]
fn a_run_takes_its_chunks_one_by_one() {
    let commits: Vec<ChangesetId> = (0..5).map(commit).collect();
    let mut run = ValidationRun::start(true, &commits, 2).ok().unwrap();
    assert_eq!(run.status(), &RunStatus::Pending);
    assert_eq!(run.next_chunk(), Some(&vec![commit(0), commit(1)]));
    // the chunk stays the next one until its result is in
    assert_eq!(run.next_chunk(), Some(&vec![commit(0), commit(1)]));
    run.finish_chunk(Ok(()));
    assert_eq!(run.next_chunk(), Some(&vec![commit(2), commit(3)]));
    run.finish_chunk(Ok(()));
    assert_eq!(run.next_chunk(), Some(&vec![commit(4)]));
    run.finish_chunk(Ok(()));
    assert_eq!(run.next_chunk(), None);
    assert_eq!(run.status(), &RunStatus::Passed);
}

#[test]
fn a_failed_chunk_stops_the_run() {
    let commits: Vec<ChangesetId> = (0..5).map(commit).collect();
    let mut run = ValidationRun::start(true, &commits, 2).ok().unwrap();
    run.finish_chunk(Ok(()));
    let failure = ValidationError::NotDerived { commit: commit(2) };
    run.finish_chunk(Err(failure.clone()));
    assert_eq!(run.next_chunk(), None);
    assert_eq!(run.status(), &RunStatus::Failed(failure));
}

#[test]
fn a_run_without_commits_has_passed() {
    let run = ValidationRun::start(true, &vec![], 10).ok().unwrap();
    assert_eq!(run.status(), &RunStatus::Passed);
    assert_eq!(run.next_chunk(), None);
}

#[test]
fn roots_are_taken_from_handles_of_one_kind() {
    let parents = vec![DerivedDataHandle::Fsnode(id(1)), DerivedDataHandle::Fsnode(id(2))];
    assert_eq!(
        DerivedRoots::from_handles(&DerivedDataHandle::Fsnode(id(9)), &parents),
        Some(DerivedRoots::Fsnodes { root: id(9), parents: vec![id(1), id(2)] })
    );
    assert_eq!(
        DerivedRoots::from_handles(&DerivedDataHandle::Unode(id(9)), &vec![]),
        Some(DerivedRoots::Unodes { root: id(9), parents: vec![] })
    );
    assert_eq!(
        DerivedRoots::from_handles(
            &DerivedDataHandle::SkeletonManifest(id(9)),
            &vec![DerivedDataHandle::SkeletonManifest(id(8))]
        ),
        Some(DerivedRoots::SkeletonManifests { root: id(9), parents: vec![id(8)] })
    );
    // a parent of another kind
    assert_eq!(DerivedRoots::from_handles(&DerivedDataHandle::Unode(id(9)), &parents), None);
    // the manifests of legacy commits have to be read first
    assert_eq!(
        DerivedRoots::from_handles(&DerivedDataHandle::HgChangeset(HgChangesetId(id(9))), &vec![]),
        None
    );
    assert_eq!(
        DerivedRoots::from_handles(
            &DerivedDataHandle::Other { name: "blame".to_string(), id: id(9) },
            &parents
        ),
        Some(DerivedRoots::Unsupported)
    );
}
