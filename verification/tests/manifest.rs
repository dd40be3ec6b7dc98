use derived_validation::ids::ContentId;
use derived_validation::manifest::{
    find_intersection_of_diffs, Child, Entry, InsertError, ManifestStore, MissingTree, NewEntry,
};

fn id(n: u128) -> ContentId {
    ContentId::from_low(n)
}

fn tree(n: u128) -> Entry {
    Entry::Tree(id(n))
}

fn leaf(n: u128) -> Entry {
    Entry::Leaf(id(n))
}

fn child(name: &str, entry: Entry) -> Child {
    Child { name: name.to_string(), entry }
}

fn store(nodes: Vec<(u128, Vec<Child>)>) -> ManifestStore {
    let mut store = ManifestStore::new();
    for (n, lines) in nodes {
        assert_eq!(store.insert(id(n), lines), Ok(()));
    }
    store
}

/// The entries as pairs of path and entry, in the order of their paths.
fn sorted(entries: Vec<NewEntry>) -> Vec<(String, Entry)> {
    let mut pairs: Vec<(String, Entry)> =
        entries.into_iter().map(|e| (e.path.join("/"), e.entry)).collect();
    pairs.sort_by(|a, b| a.0.cmp(&b.0));
    pairs
}

fn pair(path: &str, entry: Entry) -> (String, Entry) {
    (path.to_string(), entry)
}

fn diff(store: &ManifestStore, root: u128, parents: &[u128]) -> Vec<(String, Entry)> {
    let parents: Vec<ContentId> = parents.iter().map(|p| id(*p)).collect();
    sorted(find_intersection_of_diffs(store, id(root), &parents).expect("a tree is missing"))
}

#[test]
fn root_commit_yields_every_entry() {
    // C0 adds the files a and b
    let store = store(vec![(100, vec![child("a", leaf(1)), child("b", leaf(2))])]);
    assert_eq!(diff(&store, 100, &[]), vec![pair("", tree(100)), pair("a", leaf(1)), pair("b", leaf(2))]);
}

#[test]
fn root_commit_yields_nested_entries() {
    let store = store(vec![
        (100, vec![child("dir", tree(110)), child("top", leaf(1))]),
        (110, vec![child("sub", tree(120)), child("x", leaf(2))]),
        (120, vec![child("y", leaf(3))]),
    ]);
    assert_eq!(
        diff(&store, 100, &[]),
        vec![
            pair("", tree(100)),
            pair("dir", tree(110)),
            pair("dir/sub", tree(120)),
            pair("dir/sub/y", leaf(3)),
            pair("dir/x", leaf(2)),
            pair("top", leaf(1)),
        ]
    );
}

#[test]
fn empty_root_commit_yields_its_root() {
    let store = store(vec![(100, vec![])]);
    assert_eq!(diff(&store, 100, &[]), vec![pair("", tree(100))]);
}

#[test]
fn one_parent_yields_only_what_changed() {
    // C1, with the parent C0, modifies only a
    let store = store(vec![
        (100, vec![child("a", leaf(1)), child("b", leaf(2))]),
        (101, vec![child("a", leaf(3)), child("b", leaf(2))]),
    ]);
    assert_eq!(diff(&store, 101, &[100]), vec![pair("", tree(101)), pair("a", leaf(3))]);
}

#[test]
fn one_parent_yields_changed_ancestors() {
    let store = store(vec![
        (100, vec![child("dir", tree(110)), child("other", tree(130))]),
        (110, vec![child("f", leaf(1)), child("g", leaf(2))]),
        (200, vec![child("dir", tree(210)), child("other", tree(130))]),
        (210, vec![child("f", leaf(9)), child("g", leaf(2))]),
    ]);
    // the tree 130 is the same on both sides: it is not read, and need not be stored
    assert!(!store.contains(id(130)));
    assert_eq!(
        diff(&store, 200, &[100]),
        vec![pair("", tree(200)), pair("dir", tree(210)), pair("dir/f", leaf(9))]
    );
}

#[test]
fn one_parent_added_removed_and_retyped() {
    let store = store(vec![
        (100, vec![child("gone", leaf(1)), child("kind", leaf(2)), child("was_dir", tree(110))]),
        (110, vec![child("inner", leaf(3))]),
        (200, vec![child("kind", tree(210)), child("new", leaf(5)), child("was_dir", leaf(6))]),
        (210, vec![child("k", leaf(2))]),
    ]);
    assert_eq!(
        diff(&store, 200, &[100]),
        vec![
            pair("", tree(200)),
            pair("kind", tree(210)),
            pair("kind/k", leaf(2)),
            pair("new", leaf(5)),
            pair("was_dir", leaf(6)),
        ]
    );
}

#[test]
fn a_leaf_and_a_tree_of_one_identifier_differ() {
    let store = store(vec![
        (100, vec![child("x", leaf(7))]),
        (200, vec![child("x", tree(7))]),
        (7, vec![]),
    ]);
    assert_eq!(diff(&store, 200, &[100]), vec![pair("", tree(200)), pair("x", tree(7))]);
}

#[test]
fn unchanged_commit_yields_nothing_and_reads_nothing() {
    let store = ManifestStore::new();
    assert_eq!(find_intersection_of_diffs(&store, id(100), &vec![id(100)]), Ok(vec![]));
    assert_eq!(find_intersection_of_diffs(&store, id(100), &vec![id(5), id(100)]), Ok(vec![]));
}

#[test]
fn merge_excludes_what_any_parent_has() {
    // M has the parents C1 and C2; its tree at x is the tree of C1 at x
    let store = store(vec![
        (101, vec![child("x", tree(110)), child("y", leaf(1))]),
        (102, vec![child("x", tree(120)), child("y", leaf(2))]),
        (120, vec![child("f", leaf(8))]),
        (300, vec![child("x", tree(110)), child("y", leaf(3))]),
    ]);
    assert_eq!(diff(&store, 300, &[101, 102]), vec![pair("", tree(300)), pair("y", leaf(3))]);
    assert_eq!(diff(&store, 300, &[102, 101]), vec![pair("", tree(300)), pair("y", leaf(3))]);
}

#[test]
fn merge_keeps_what_differs_from_every_parent() {
    let store = store(vec![
        (101, vec![child("a", leaf(1)), child("b", leaf(1)), child("c", leaf(1))]),
        (102, vec![child("a", leaf(2)), child("b", leaf(2)), child("c", leaf(1))]),
        (300, vec![child("a", leaf(1)), child("b", leaf(3)), child("c", leaf(1)), child("d", leaf(1))]),
    ]);
    // a is from the first parent, c from both, b and d from neither
    assert_eq!(
        diff(&store, 300, &[101, 102]),
        vec![pair("", tree(300)), pair("b", leaf(3)), pair("d", leaf(1))]
    );
}

#[test]
fn merge_goes_down_where_all_parents_differ() {
    let store = store(vec![
        (101, vec![child("d", tree(111))]),
        (111, vec![child("f", leaf(1)), child("g", leaf(1))]),
        (102, vec![child("d", tree(112))]),
        (112, vec![child("f", leaf(2)), child("g", leaf(2))]),
        (300, vec![child("d", tree(310))]),
        (310, vec![child("f", leaf(1)), child("g", leaf(3))]),
    ]);
    assert_eq!(
        diff(&store, 300, &[101, 102]),
        vec![pair("", tree(300)), pair("d", tree(310)), pair("d/g", leaf(3))]
    );
}

#[test]
fn a_tree_that_has_to_be_read_and_is_not_stored_is_named() {
    let empty = ManifestStore::new();
    assert_eq!(
        find_intersection_of_diffs(&empty, id(100), &vec![]),
        Err(MissingTree { id: id(100) })
    );
    let with_root = store(vec![(200, vec![child("dir", tree(210))])]);
    assert_eq!(
        find_intersection_of_diffs(&with_root, id(200), &vec![]),
        Err(MissingTree { id: id(210) })
    );
    // the parent's tree is read as well, to compare the children by name
    assert_eq!(
        find_intersection_of_diffs(&with_root, id(200), &vec![id(100)]),
        Err(MissingTree { id: id(100) })
    );
}

#[test]
fn trees_can_be_loaded_as_they_are_asked_for() {
    let all: Vec<(u128, Vec<Child>)> = vec![
        (200, vec![child("dir", tree(210)), child("same", tree(130))]),
        (210, vec![child("f", leaf(9))]),
        (100, vec![child("dir", tree(110)), child("same", tree(130))]),
        (110, vec![child("f", leaf(1))]),
        (130, vec![child("never", leaf(4))]),
    ];
    let mut store = ManifestStore::new();
    let parents = vec![id(100)];
    let mut loaded = Vec::new();
    let entries = loop {
        match find_intersection_of_diffs(&store, id(200), &parents) {
            Ok(entries) => break entries,
            Err(MissingTree { id: missing }) => {
                let (n, lines) = all.iter().find(|(n, _)| id(*n) == missing).unwrap();
                assert_eq!(store.insert(missing, lines.clone()), Ok(()));
                loaded.push(*n);
            }
        }
    };
    loaded.sort();
    assert_eq!(loaded, vec![100, 110, 200, 210]);
    assert_eq!(store.len(), 4);
    assert_eq!(
        sorted(entries),
        vec![pair("", tree(200)), pair("dir", tree(210)), pair("dir/f", leaf(9))]
    );
}

#[test]
fn store_refuses_a_second_node_for_an_identifier() {
    let mut store = store(vec![(1, vec![child("a", leaf(2))])]);
    assert_eq!(store.insert(id(1), vec![child("a", leaf(2))]), Err(InsertError::AlreadyStored));
    assert_eq!(store.insert(id(1), vec![]), Err(InsertError::AlreadyStored));
    assert_eq!(store.len(), 1);
    assert_eq!(store.get(id(1)), Some(&vec![child("a", leaf(2))]));
    assert_eq!(store.get(id(2)), None);
}

#[test]
fn store_refuses_a_name_twice() {
    let mut store = ManifestStore::new();
    assert_eq!(
        store.insert(id(1), vec![child("a", leaf(2)), child("b", leaf(3)), child("a", leaf(2))]),
        Err(InsertError::DuplicateName)
    );
    assert!(!store.contains(id(1)));
    assert_eq!(store.len(), 0);
}

#[test]
fn store_refuses_a_cycle() {
    let mut store = ManifestStore::new();
    assert_eq!(store.insert(id(1), vec![child("me", tree(1))]), Err(InsertError::Cycle));
    // parent first, child later: the child must not lead back to the parent
    assert_eq!(store.insert(id(1), vec![child("down", tree(2))]), Ok(()));
    assert_eq!(store.insert(id(2), vec![child("deeper", tree(3))]), Ok(()));
    assert_eq!(store.insert(id(3), vec![child("up", tree(1))]), Err(InsertError::Cycle));
    assert_eq!(store.insert(id(3), vec![child("up", leaf(1))]), Ok(()));
    // child first, parent later
    assert_eq!(store.insert(id(0), vec![child("a", tree(1)), child("b", tree(1))]), Ok(()));
    assert_eq!(store.len(), 4);
}

#[test]
fn store_takes_shared_subtrees() {
    let mut store = ManifestStore::new();
    assert_eq!(store.insert(id(1), vec![child("a", tree(2)), child("b", tree(3))]), Ok(()));
    assert_eq!(store.insert(id(3), vec![child("f", leaf(9))]), Ok(()));
    assert_eq!(store.insert(id(2), vec![child("d", tree(3))]), Ok(()));
    assert_eq!(
        diff(&store, 1, &[]),
        vec![
            pair("", tree(1)),
            pair("a", tree(2)),
            pair("a/d", tree(3)),
            pair("a/d/f", leaf(9)),
            pair("b", tree(3)),
            pair("b/f", leaf(9)),
        ]
    );
}

#[test]
fn an_identifier_has_two_halves() {
    assert_eq!(ContentId::from_low(5), ContentId { hi: 0, lo: 5 });
    assert_ne!(ContentId { hi: 1, lo: 5 }, ContentId { hi: 0, lo: 5 });
}
