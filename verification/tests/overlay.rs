use derived_validation::ids::{ChangesetId, ContentId, HgChangesetId};
use derived_validation::mapping::{MappingLookup, OverlayMapping};
use derived_validation::overlay::{Lookup, OverlayStore, ReadOnly};

fn key(text: &str) -> String {
    text.to_string()
}

fn bonsai(n: u128) -> ChangesetId {
    ChangesetId(ContentId::from_low(n))
}

fn hg(n: u128) -> HgChangesetId {
    HgChangesetId(ContentId::from_low(n))
}

#[test]
fn a_fresh_overlay_sends_readers_to_the_backend() {
    let store = OverlayStore::new();
    assert_eq!(store.len(), 0);
    assert!(store.fallback_enabled());
    assert!(!store.is_readonly());
    assert_eq!(store.get(&key("k")), Lookup::AskBackend);
    assert!(!store.contains(&key("k")));
    assert_eq!(store.keys(), Vec::<String>::new());
}

#[test]
fn a_write_is_read_back() {
    let mut store = OverlayStore::new();
    assert_eq!(store.put(key("k"), vec![1, 2, 3]), Ok(()));
    assert_eq!(store.get(&key("k")), Lookup::Found(vec![1, 2, 3]));
    assert_eq!(store.get(&key("other")), Lookup::AskBackend);
    assert!(store.contains(&key("k")));
    assert_eq!(store.len(), 1);
    assert_eq!(store.put(key("l"), vec![]), Ok(()));
    assert_eq!(store.get(&key("l")), Lookup::Found(vec![]));
    assert_eq!(store.keys(), vec![key("k"), key("l")]);
}

#[test]
fn a_repeated_write_does_not_grow_the_log() {
    let mut store = OverlayStore::new();
    let writes = vec![("a", vec![1u8]), ("b", vec![2]), ("a", vec![1]), ("c", vec![3])];
    for (k, v) in &writes {
        assert_eq!(store.put(key(k), v.clone()), Ok(()));
    }
    assert_eq!(store.len(), 3);
    let keys = store.keys();
    for (k, v) in &writes {
        assert_eq!(store.put(key(k), v.clone()), Ok(()));
    }
    assert_eq!(store.len(), 3);
    assert_eq!(store.keys(), keys);
    assert_eq!(store.get(&key("a")), Lookup::Found(vec![1]));
    assert_eq!(store.get(&key("b")), Lookup::Found(vec![2]));
    assert_eq!(store.get(&key("c")), Lookup::Found(vec![3]));
}

#[test]
fn a_later_write_replaces_the_blob() {
    let mut store = OverlayStore::new();
    assert_eq!(store.put(key("a"), vec![1]), Ok(()));
    assert_eq!(store.put(key("a"), vec![2, 2]), Ok(()));
    assert_eq!(store.len(), 1);
    assert_eq!(store.get(&key("a")), Lookup::Found(vec![2, 2]));
}

#[test]
fn without_the_backend_an_unwritten_key_is_not_found() {
    let mut store = OverlayStore::new();
    assert_eq!(store.put(key("written"), vec![7]), Ok(()));
    store.disable_backend_access();
    assert!(!store.fallback_enabled());
    assert_eq!(store.get(&key("only in the backend")), Lookup::NotFound);
    assert_eq!(store.get(&key("written")), Lookup::Found(vec![7]));
    // writes are still taken, and other keys stay unfound
    assert_eq!(store.put(key("later"), vec![8]), Ok(()));
    assert_eq!(store.get(&key("later")), Lookup::Found(vec![8]));
    assert_eq!(store.get(&key("only in the backend")), Lookup::NotFound);
    store.make_readonly();
    assert_eq!(store.get(&key("only in the backend")), Lookup::NotFound);
}

#[test]
fn a_readonly_overlay_refuses_writes() {
    let mut store = OverlayStore::new();
    assert_eq!(store.put(key("a"), vec![1]), Ok(()));
    store.make_readonly();
    assert!(store.is_readonly());
    assert_eq!(store.put(key("b"), vec![2]), Err(ReadOnly {}));
    assert_eq!(store.put(key("a"), vec![3]), Err(ReadOnly {}));
    assert_eq!(store.len(), 1);
    assert_eq!(store.get(&key("a")), Lookup::Found(vec![1]));
    assert_eq!(store.get(&key("b")), Lookup::AskBackend);
}

#[test]
fn keys_are_told_apart_exactly() {
    let mut store = OverlayStore::new();
    assert_eq!(store.put(key("ab"), vec![1]), Ok(()));
    assert!(!store.contains(&key("a")));
    assert!(!store.contains(&key("abc")));
    assert!(!store.contains(&key("")));
    assert!(!store.contains(&key("AB")));
}

#[test]
fn a_fresh_mapping_sends_lookups_to_the_backend() {
    let mapping = OverlayMapping::new();
    assert_eq!(mapping.len(), 0);
    assert_eq!(mapping.get_hg_from_bonsai(bonsai(1)), MappingLookup::AskBackend);
    assert_eq!(mapping.get_bonsai_from_hg(hg(1)), MappingLookup::AskBackend);
}

#[test]
fn a_known_pair_is_skipped_unless_noop_writes_are_saved() {
    let mut mapping = OverlayMapping::new();
    // the backend holds the pair already
    assert_eq!(mapping.add(bonsai(1), hg(10), Some(hg(10))), Ok(false));
    assert_eq!(mapping.len(), 0);
    mapping.set_no_access_to_inner(true);
    assert_eq!(mapping.get_hg_from_bonsai(bonsai(1)), MappingLookup::NotFound);

    let mut mapping = OverlayMapping::new();
    mapping.set_save_noop_writes(true);
    assert_eq!(mapping.add(bonsai(1), hg(10), Some(hg(10))), Ok(true));
    assert_eq!(mapping.len(), 1);
    mapping.set_no_access_to_inner(true);
    mapping.set_readonly(true);
    assert_eq!(mapping.get_hg_from_bonsai(bonsai(1)), MappingLookup::Found(hg(10)));
    assert_eq!(mapping.get_bonsai_from_hg(hg(10)), MappingLookup::Found(bonsai(1)));
    assert_eq!(mapping.get_bonsai_from_hg(hg(11)), MappingLookup::NotFound);
}

#[test]
fn an_unknown_pair_is_recorded() {
    let mut mapping = OverlayMapping::new();
    assert_eq!(mapping.add(bonsai(1), hg(10), None), Ok(true));
    assert_eq!(mapping.get_hg_from_bonsai(bonsai(1)), MappingLookup::Found(hg(10)));
    // recorded by the overlay itself: the same pair again is skipped
    assert_eq!(mapping.add(bonsai(1), hg(10), None), Ok(false));
    // another counterpart than the backend's is recorded
    assert_eq!(mapping.add(bonsai(2), hg(20), Some(hg(21))), Ok(true));
    assert_eq!(mapping.get_hg_from_bonsai(bonsai(2)), MappingLookup::Found(hg(20)));
    assert_eq!(mapping.len(), 2);
    // with the backend out of reach, what it holds does not count
    mapping.set_no_access_to_inner(true);
    assert_eq!(mapping.add(bonsai(3), hg(30), Some(hg(30))), Ok(true));
    assert_eq!(mapping.len(), 3);
}

#[test]
fn a_readonly_mapping_refuses_writes() {
    let mut mapping = OverlayMapping::new();
    mapping.set_save_noop_writes(true);
    mapping.set_readonly(true);
    assert_eq!(mapping.add(bonsai(1), hg(10), None), Err(ReadOnly {}));
    assert_eq!(mapping.len(), 0);
    mapping.set_readonly(false);
    assert_eq!(mapping.add(bonsai(1), hg(10), None), Ok(true));
}
