//! Manifests and the multi-parent manifest diff.
//!
//! A manifest is a tree whose nodes are named by content hash. A tree node
//! lists its children by name; a child is another tree or a leaf. The
//! [`ManifestStore`] holds the tree nodes that have been loaded so far, and
//! [`find_intersection_of_diffs`] finds the entries of a commit's manifest
//! that none of its parents has at the same path.

use vstd::prelude::*;
use crate::ids::ContentId;

verus! {

/// A node of a manifest: a directory or a file.
#[derive(Debug, PartialEq, Eq, Structural, Clone, Copy, Hash)]
pub enum Entry {
    Tree(ContentId),
    Leaf(ContentId),
}

/// One line of a tree node's listing.
#[derive(Debug, PartialEq, Eq, Clone)]
pub struct Child {
    pub name: String,
    pub entry: Entry,
}

/// An entry together with the path at which it stands, root first.
#[derive(Debug, PartialEq, Eq, Clone)]
pub struct NewEntry {
    pub path: Vec<String>,
    pub entry: Entry,
}

/// A tree node that a traversal had to read and that is not in the store.
#[derive(Debug, PartialEq, Eq, Structural, Clone, Copy)]
pub struct MissingTree {
    pub id: ContentId,
}

/// The names of a path, as the contracts see them.
pub open spec fn names(path: Seq<String>) -> Seq<Seq<char>> {
    path.map_values(|s: String| s@)
}

/// What stands under `name` directly below `e`, as far as `m` knows.
pub open spec fn step(m: Map<ContentId, Map<Seq<char>, Entry>>, e: Entry, name: Seq<char>) -> Option<
    Entry,
> {
    match e {
        Entry::Tree(id) => if m.contains_key(id) && m[id].contains_key(name) {
            Some(m[id][name])
        } else {
            None
        },
        Entry::Leaf(_) => None,
    }
}

/// The entry reached from `from` by following `path`, one name per level.
pub open spec fn lookup(
    m: Map<ContentId, Map<Seq<char>, Entry>>,
    from: Entry,
    path: Seq<Seq<char>>,
) -> Option<Entry>
    decreases path.len(),
{
    if path.len() == 0 {
        Some(from)
    } else {
        match lookup(m, from, path.drop_last()) {
            Some(e) => step(m, e, path.last()),
            None => None,
        }
    }
}

/// The entry at `path` in the manifest rooted at the tree `root`.
pub open spec fn entry_at(
    m: Map<ContentId, Map<Seq<char>, Entry>>,
    root: ContentId,
    path: Seq<Seq<char>>,
) -> Option<Entry> {
    lookup(m, Entry::Tree(root), path)
}

/// `e` stands at `path` in the manifest of `root`, and no parent has the
/// same entry at that path.
pub open spec fn is_new(
    m: Map<ContentId, Map<Seq<char>, Entry>>,
    root: ContentId,
    parents: Seq<ContentId>,
    path: Seq<Seq<char>>,
    e: Entry,
) -> bool {
    &&& entry_at(m, root, path) == Some(e)
    &&& forall|i: int|
        0 <= i < parents.len() ==> entry_at(m, #[trigger] parents[i], path) != Some(e)
}

/// Some parent has the tree `id` at `path`.
pub open spec fn parent_has_tree(
    m: Map<ContentId, Map<Seq<char>, Entry>>,
    parents: Seq<ContentId>,
    path: Seq<Seq<char>>,
    id: ContentId,
) -> bool {
    exists|i: int|
        0 <= i < parents.len() && entry_at(m, #[trigger] parents[i], path) == Some(Entry::Tree(id))
}

/// Comparing the manifests at `path` reads the tree `id`: a new tree stands
/// at `path`, and `id` is that tree or the tree that a parent has there.
pub open spec fn reads_tree_at(
    m: Map<ContentId, Map<Seq<char>, Entry>>,
    root: ContentId,
    parents: Seq<ContentId>,
    path: Seq<Seq<char>>,
    id: ContentId,
) -> bool {
    match entry_at(m, root, path) {
        Some(Entry::Tree(t)) => is_new(m, root, parents, path, Entry::Tree(t)) && (t == id
            || parent_has_tree(m, parents, path, id)),
        _ => false,
    }
}

/// The comparison of `root` with `parents` reads the tree `id` somewhere.
pub open spec fn needs_tree(
    m: Map<ContentId, Map<Seq<char>, Entry>>,
    root: ContentId,
    parents: Seq<ContentId>,
    id: ContentId,
) -> bool {
    exists|path: Seq<Seq<char>>| #[trigger] reads_tree_at(m, root, parents, path, id)
}

/// Every tree that the comparison of `root` with `parents` reads is in `m`.
pub open spec fn loaded_for(
    m: Map<ContentId, Map<Seq<char>, Entry>>,
    root: ContentId,
    parents: Seq<ContentId>,
) -> bool {
    forall|id: ContentId| #[trigger] needs_tree(m, root, parents, id) ==> m.contains_key(id)
}

/// `out` holds the entry `e` at the path `path`.
pub open spec fn yields(out: Seq<NewEntry>, path: Seq<Seq<char>>, e: Entry) -> bool {
    exists|k: int| 0 <= k < out.len() && names(#[trigger] out[k].path@) == path && out[k].entry == e
}

/// `listing` is what the lines `lines` say: each line's entry under its
/// name, and nothing else.
pub open spec fn lists(lines: Seq<Child>, listing: Map<Seq<char>, Entry>) -> bool {
    &&& forall|k: int|
        0 <= k < lines.len() ==> listing.contains_key(#[trigger] lines[k].name@)
            && listing[lines[k].name@] == lines[k].entry
    &&& forall|n: Seq<char>| #[trigger]
        listing.contains_key(n) ==> exists|k: int| 0 <= k < lines.len() && #[trigger] lines[k].name@ == n
}

/// Why a tree node was not taken into the store.
#[derive(Debug, PartialEq, Eq, Structural, Clone, Copy)]
pub enum InsertError {
    /// A node with this identifier is stored already.
    AlreadyStored,
    /// Two lines of the listing have the same name.
    DuplicateName,
    /// With this node the stored nodes would hold a tree that is below itself.
    Cycle,
}

/// Some path of one name or more leads from `from` to the tree `target`.
pub open spec fn refers(
    m: Map<ContentId, Map<Seq<char>, Entry>>,
    from: Entry,
    target: ContentId,
) -> bool {
    exists|p: Seq<Seq<char>>| p.len() > 0 && #[trigger] lookup(m, from, p) == Some(Entry::Tree(target))
}

/// Two of `lines` have the same name.
pub open spec fn has_duplicate_name(lines: Seq<Child>) -> bool {
    exists|i: int, j: int|
        0 <= i < j < lines.len() && #[trigger] lines[i].name@ == #[trigger] lines[j].name@
}

/// One of `lines` is the tree `id` itself or a tree from which `m` leads
/// back to `id`.
pub open spec fn closes_cycle(
    m: Map<ContentId, Map<Seq<char>, Entry>>,
    id: ContentId,
    lines: Seq<Child>,
) -> bool {
    exists|k: int|
        0 <= k < lines.len() && (#[trigger] lines[k].entry matches Entry::Tree(c) && (c == id
            || refers(m, Entry::Tree(c), id)))
}

/// What becomes of the attempt to store the tree `id` with the listing `lines`.
pub open spec fn insert_verdict(
    m: Map<ContentId, Map<Seq<char>, Entry>>,
    id: ContentId,
    lines: Seq<Child>,
) -> Result<(), InsertError> {
    if m.contains_key(id) {
        Err(InsertError::AlreadyStored)
    } else if has_duplicate_name(lines) {
        Err(InsertError::DuplicateName)
    } else if closes_cycle(m, id, lines) {
        Err(InsertError::Cycle)
    } else {
        Ok(())
    }
}

/// The listing that `lines` spell out.
pub open spec fn listing_of(lines: Seq<Child>) -> Map<Seq<char>, Entry> {
    Map::new(
        |n: Seq<char>| exists|k: int| 0 <= k < lines.len() && #[trigger] lines[k].name@ == n,
        |n: Seq<char>| lines[choose|k: int| 0 <= k < lines.len() && #[trigger] lines[k].name@ == n].entry,
    )
}

/// Following a path is taking its first step and following the rest.
pub proof fn lemma_first_step(
    m: Map<ContentId, Map<Seq<char>, Entry>>,
    a: Entry,
    p: Seq<Seq<char>>,
)
    requires
        p.len() > 0,
    ensures
        lookup(m, a, p) == (match step(m, a, p[0]) {
            Some(e) => lookup(m, e, p.drop_first()),
            None => None,
        }),
    decreases p.len(),
{
    if p.len() == 1 {
        assert(p.drop_last() =~= Seq::<Seq<char>>::empty());
        assert(p.drop_first() =~= Seq::<Seq<char>>::empty());
    } else {
        lemma_first_step(m, a, p.drop_last());
        assert(p.drop_first().drop_last() =~= p.drop_last().drop_first());
        assert(p.drop_last()[0] == p[0]);
        assert(p.drop_first().last() == p.last());
    }
}

/// What refers to a child refers to all that the child refers to.
proof fn lemma_refers_through(
    m: Map<ContentId, Map<Seq<char>, Entry>>,
    a: Entry,
    n: Seq<char>,
    c: Entry,
    target: ContentId,
)
    requires
        step(m, a, n) == Some(c),
        refers(m, c, target) || c == Entry::Tree(target),
    ensures
        refers(m, a, target),
{
    if c == Entry::Tree(target) {
        let p = Seq::<Seq<char>>::empty().push(n);
        lemma_first_step(m, a, p);
        assert(p.drop_first() =~= Seq::<Seq<char>>::empty());
        assert(lookup(m, a, p) == Some(Entry::Tree(target)));
    } else {
        let rest = choose|p: Seq<Seq<char>>|
            p.len() > 0 && #[trigger] lookup(m, c, p) == Some(Entry::Tree(target));
        let p = Seq::<Seq<char>>::empty().push(n) + rest;
        lemma_first_step(m, a, p);
        assert(p.drop_first() =~= rest);
        assert(lookup(m, a, p) == Some(Entry::Tree(target)));
    }
}

/// The tree nodes loaded so far, by identifier.
pub struct ManifestStore {
    ids: Vec<ContentId>,
    dirs: Vec<Vec<Child>>,
    model: Ghost<Map<ContentId, Map<Seq<char>, Entry>>>,
    rank: Ghost<Map<ContentId, nat>>,
    bound: Ghost<nat>,
}

impl ManifestStore {
    /// The listings of the stored tree nodes.
    pub closed spec fn view(&self) -> Map<ContentId, Map<Seq<char>, Entry>> {
        self.model@
    }

    /// The store is consistent: one listing per identifier, and no tree
    /// node is below itself.
    pub closed spec fn wf(&self) -> bool {
        &&& self.ids@.len() == self.dirs@.len()
        &&& forall|i: int, j: int|
            0 <= i < j < self.ids@.len() ==> self.ids@[i] != self.ids@[j]
        &&& forall|i: int|
            0 <= i < self.ids@.len() ==> self.model@.contains_key(#[trigger] self.ids@[i]) && lists(
                self.dirs@[i]@,
                self.model@[self.ids@[i]],
            )
        &&& forall|id: ContentId| #[trigger]
            self.model@.contains_key(id) ==> exists|i: int|
                0 <= i < self.ids@.len() && #[trigger] self.ids@[i] == id
        &&& forall|id: ContentId, n: Seq<char>|
            self.model@.contains_key(id) && #[trigger] self.model@[id].contains_key(n) ==> (
            self.model@[id][n] matches Entry::Tree(c) ==> self.model@.contains_key(c)
                ==> self.rank@[c] < self.rank@[id])
        &&& forall|id: ContentId| #[trigger]
            self.model@.contains_key(id) ==> self.rank@[id] < self.bound@
        &&& forall|i: int|
            0 <= i < self.dirs@.len() ==> !has_duplicate_name((#[trigger] self.dirs@[i])@)
    }

    /// How far below `e` the store can still descend.
    pub closed spec fn height(&self, e: Entry) -> nat {
        match e {
            Entry::Tree(id) => if self.model@.contains_key(id) {
                self.rank@[id] + 1
            } else {
                0
            },
            Entry::Leaf(_) => 0,
        }
    }

    /// A store without tree nodes.
    pub fn new() -> (s: ManifestStore)
        ensures
            s.wf(),
            s@ == Map::<ContentId, Map<Seq<char>, Entry>>::empty(),
    {
        ManifestStore {
            ids: Vec::new(),
            dirs: Vec::new(),
            model: Ghost(Map::empty()),
            rank: Ghost(Map::empty()),
            bound: Ghost(0),
        }
    }

    /// The number of stored tree nodes.
    pub fn len(&self) -> (n: usize)
        requires
            self.wf(),
        ensures
            n == self@.dom().len(),
            self@.dom().finite(),
    {
        proof {
            self.lemma_dom();
        }
        self.ids.len()
    }

    proof fn lemma_dom(&self)
        requires
            self.wf(),
        ensures
            self@.dom() == self.ids@.to_set(),
            self@.dom().finite(),
            self@.dom().len() == self.ids@.len(),
    {
        assert(self.model@.dom() =~= self.ids@.to_set());
        self.ids@.unique_seq_to_set();
    }

    /// Where the tree `id` is stored, if it is.
    fn position(&self, id: ContentId) -> (r: Option<usize>)
        requires
            self.wf(),
        ensures
            r is Some <==> self@.contains_key(id),
            r matches Some(i) ==> i < self.ids@.len() && self.ids@[i as int] == id,
    {
        let mut i: usize = 0;
        while i < self.ids.len()
            invariant
                self.wf(),
                i <= self.ids@.len(),
                forall|j: int| 0 <= j < i ==> self.ids@[j] != id,
            decreases self.ids@.len() - i,
        {
            if self.ids[i] == id {
                return Some(i);
            }
            i += 1;
        }
        None
    }

    /// Whether the tree `id` is stored.
    pub fn contains(&self, id: ContentId) -> (b: bool)
        requires
            self.wf(),
        ensures
            b == self@.contains_key(id),
    {
        self.position(id).is_some()
    }

    /// The listing of the tree `id`, if it is stored.
    pub fn get(&self, id: ContentId) -> (r: Option<&Vec<Child>>)
        requires
            self.wf(),
        ensures
            r is Some <==> self@.contains_key(id),
            r matches Some(lines) ==> lists(lines@, self@[id]) && !has_duplicate_name(lines@),
    {
        match self.position(id) {
            Some(i) => Some(&self.dirs[i]),
            None => None,
        }
    }
}

impl ManifestStore {
    /// Whether the stored nodes lead from the tree `from` to the tree `target`.
    fn refers_to(&self, from: ContentId, target: ContentId) -> (b: bool)
        requires
            self.wf(),
        ensures
            b == refers(self@, Entry::Tree(from), target),
        decreases self.height(Entry::Tree(from)),
    {
        let ghost m = self@;
        let ghost a = Entry::Tree(from);
        let pos = match self.position(from) {
            Some(p) => p,
            None => {
                proof {
                    assert forall|p: Seq<Seq<char>>| p.len() > 0 implies #[trigger] lookup(m, a, p)
                        != Some(Entry::Tree(target)) by {
                        lemma_first_step(m, a, p);
                    }
                }
                return false;
            },
        };
        let lines = &self.dirs[pos];
        let mut k: usize = 0;
        while k < lines.len()
            invariant
                self.wf(),
                m == self@,
                a == Entry::Tree(from),
                pos < self.ids@.len(),
                self.ids@[pos as int] == from,
                lines@ == self.dirs@[pos as int]@,
                k <= lines@.len(),
                forall|j: int|
                    0 <= j < k ==> (#[trigger] lines@[j]).entry != Entry::Tree(target) && !refers(
                        m,
                        lines@[j].entry,
                        target,
                    ),
            decreases lines@.len() - k,
        {
            assert(lists(lines@, m[from]));
            assert(step(m, a, lines@[k as int].name@) == Some(lines@[k as int].entry));
            match lines[k].entry {
                Entry::Tree(c) => {
                    if c == target || self.refers_to(c, target) {
                        proof {
                            lemma_refers_through(
                                m,
                                a,
                                lines@[k as int].name@,
                                Entry::Tree(c),
                                target,
                            );
                        }
                        return true;
                    }
                },
                Entry::Leaf(l) => {
                    proof {
                        assert forall|p: Seq<Seq<char>>| p.len() > 0 implies #[trigger] lookup(
                            m,
                            Entry::Leaf(l),
                            p,
                        ) != Some(Entry::Tree(target)) by {
                            lemma_first_step(m, Entry::Leaf(l), p);
                        }
                    }
                },
            }
            k += 1;
        }
        proof {
            assert forall|p: Seq<Seq<char>>| p.len() > 0 implies #[trigger] lookup(m, a, p) != Some(
                Entry::Tree(target),
            ) by {
                lemma_first_step(m, a, p);
                if step(m, a, p[0]) is Some {
                    assert(m[from].contains_key(p[0]));
                    let j = choose|j: int| 0 <= j < lines@.len() && #[trigger] lines@[j].name@ == p[0];
                    let e = lines@[j].entry;
                    if p.len() == 1 {
                        assert(p.drop_first() =~= Seq::<Seq<char>>::empty());
                    } else {
                        assert(!refers(m, e, target));
                        assert(p.drop_first().len() > 0);
                    }
                }
            }
        }
        false
    }

    /// Whether two of `lines` have the same name.
    fn duplicate_name(lines: &Vec<Child>) -> (b: bool)
        ensures
            b == has_duplicate_name(lines@),
    {
        let mut j: usize = 0;
        while j < lines.len()
            invariant
                j <= lines@.len(),
                forall|a: int, b: int|
                    0 <= a < b < j ==> #[trigger] lines@[a].name@ != #[trigger] lines@[b].name@,
            decreases lines@.len() - j,
        {
            let mut i: usize = 0;
            while i < j
                invariant
                    i <= j < lines@.len(),
                    forall|a: int| 0 <= a < i ==> #[trigger] lines@[a].name@ != lines@[j as int].name@,
                decreases j - i,
            {
                if lines[i].name == lines[j].name {
                    return true;
                }
                i += 1;
            }
            j += 1;
        }
        false
    }

    /// Whether storing the tree `id` with `lines` would put a tree below itself.
    fn would_cycle(&self, id: ContentId, lines: &Vec<Child>) -> (b: bool)
        requires
            self.wf(),
        ensures
            b == closes_cycle(self@, id, lines@),
    {
        let mut k: usize = 0;
        while k < lines.len()
            invariant
                self.wf(),
                k <= lines@.len(),
                forall|j: int|
                    0 <= j < k ==> !(#[trigger] lines@[j].entry matches Entry::Tree(c) && (c == id
                        || refers(self@, Entry::Tree(c), id))),
            decreases lines@.len() - k,
        {
            match lines[k].entry {
                Entry::Tree(c) => {
                    if c == id || self.refers_to(c, id) {
                        return true;
                    }
                },
                Entry::Leaf(_) => {},
            }
            k += 1;
        }
        false
    }

    /// Stores the tree node `id` with the listing `lines`.
    ///
    /// The node is refused, and the store left as it was, if the identifier
    /// is stored already, if two lines share a name, or if the node would
    /// close a cycle among the stored nodes. Children need not be stored.
    pub fn insert(&mut self, id: ContentId, lines: Vec<Child>) -> (r: Result<(), InsertError>)
        requires
            old(self).wf(),
        ensures
            final(self).wf(),
            r == insert_verdict(old(self)@, id, lines@),
            r is Ok ==> final(self)@ == old(self)@.insert(id, listing_of(lines@)),
            r is Ok ==> lists(lines@, final(self)@[id]),
            r is Err ==> final(self)@ == old(self)@,
    {
        if self.position(id).is_some() {
            return Err(InsertError::AlreadyStored);
        }
        if Self::duplicate_name(&lines) {
            return Err(InsertError::DuplicateName);
        }
        if self.would_cycle(id, &lines) {
            return Err(InsertError::Cycle);
        }
        let ghost m = self@;
        let ghost listing = listing_of(lines@);
        let ghost old_rank = self.rank@;
        let ghost old_bound = self.bound@;
        let ghost new_rank = Map::new(
            |x: ContentId| true,
            |x: ContentId|
                if x == id {
                    old_bound
                } else if refers(m, Entry::Tree(x), id) {
                    (old_rank[x] + old_bound + 1) as nat
                } else {
                    old_rank[x]
                },
        );
        proof {
            assert(lists(lines@, listing));
            let m2 = m.insert(id, listing);
            assert forall|a: ContentId, n: Seq<char>|
                m2.contains_key(a) && #[trigger] m2[a].contains_key(n) implies (m2[a][n] matches Entry::Tree(c)
                ==> m2.contains_key(c) ==> new_rank[c] < new_rank[a]) by {
                if let Entry::Tree(c) = m2[a][n] {
                    if m2.contains_key(c) {
                        if a == id {
                            let k = choose|k: int| 0 <= k < lines@.len() && #[trigger] lines@[k].name@ == n;
                            assert(lines@[k].entry == Entry::Tree(c));
                            assert(c != id);
                            assert(!refers(m, Entry::Tree(c), id));
                            assert(m.contains_key(c));
                        } else {
                            assert(step(m, Entry::Tree(a), n) == Some(Entry::Tree(c)));
                            if c == id {
                                lemma_refers_through(m, Entry::Tree(a), n, Entry::Tree(c), id);
                            } else if refers(m, Entry::Tree(c), id) {
                                lemma_refers_through(m, Entry::Tree(a), n, Entry::Tree(c), id);
                            }
                        }
                    }
                }
            }
        }
        self.ids.push(id);
        self.dirs.push(lines);
        self.model = Ghost(m.insert(id, listing));
        self.rank = Ghost(new_rank);
        self.bound = Ghost((2 * old_bound + 2) as nat);
        proof {
            let n0 = old(self).ids@.len() as int;
            assert forall|i: int| 0 <= i < self.ids@.len() implies self.model@.contains_key(
                #[trigger] self.ids@[i],
            ) && lists(self.dirs@[i]@, self.model@[self.ids@[i]]) by {
                if i < n0 {
                    assert(self.ids@[i] == old(self).ids@[i]);
                    assert(self.dirs@[i] == old(self).dirs@[i]);
                }
            }
            assert forall|x: ContentId| #[trigger] self.model@.contains_key(x) implies exists|i: int|
                0 <= i < self.ids@.len() && #[trigger] self.ids@[i] == x by {
                if x == id {
                    assert(self.ids@[n0] == id);
                } else {
                    let i = choose|i: int| 0 <= i < n0 && #[trigger] old(self).ids@[i] == x;
                    assert(self.ids@[i] == x);
                }
            }
        }
        Ok(())
    }
}

/// The entry that `lines` gives under `name`.
fn find_child(lines: &Vec<Child>, name: &String) -> (r: Option<Entry>)
    ensures
        forall|listing: Map<Seq<char>, Entry>|
            lists(lines@, listing) ==> r == (if listing.contains_key(name@) {
                Some(listing[name@])
            } else {
                None
            }),
{
    let mut k: usize = 0;
    while k < lines.len()
        invariant
            k <= lines@.len(),
            forall|j: int| 0 <= j < k ==> lines@[j].name@ != name@,
        decreases lines@.len() - k,
    {
        if lines[k].name == *name {
            return Some(lines[k].entry);
        }
        k += 1;
    }
    None
}

/// Two manifests that hold the same entry at `p` agree at every path below `p`.
pub proof fn lemma_same_below(
    m: Map<ContentId, Map<Seq<char>, Entry>>,
    a: Entry,
    b: Entry,
    p: Seq<Seq<char>>,
    q: Seq<Seq<char>>,
)
    requires
        lookup(m, a, p) == lookup(m, b, p),
        p.is_prefix_of(q),
    ensures
        lookup(m, a, q) == lookup(m, b, q),
    decreases q.len(),
{
    if q.len() == p.len() {
        assert(q =~= p);
    } else {
        assert(p.is_prefix_of(q.drop_last()));
        lemma_same_below(m, a, b, p, q.drop_last());
    }
}

/// Nothing stands below a path that ends in a leaf, in a tree that is not
/// stored, or nowhere.
pub proof fn lemma_dead_end(
    m: Map<ContentId, Map<Seq<char>, Entry>>,
    a: Entry,
    p: Seq<Seq<char>>,
    q: Seq<Seq<char>>,
)
    requires
        p.is_prefix_of(q),
        p.len() < q.len(),
        match lookup(m, a, p) {
            Some(Entry::Tree(id)) => !m.contains_key(id),
            _ => true,
        },
    ensures
        lookup(m, a, q) is None,
    decreases q.len(),
{
    if q.len() == p.len() + 1 {
        assert(q.drop_last() =~= p);
    } else {
        assert(p.is_prefix_of(q.drop_last()));
        lemma_dead_end(m, a, p, q.drop_last());
    }
}

/// One level further down: the entry at `p` extended by `n`.
proof fn lemma_one_level(
    m: Map<ContentId, Map<Seq<char>, Entry>>,
    a: Entry,
    p: Seq<Seq<char>>,
    n: Seq<char>,
)
    ensures
        lookup(m, a, p.push(n)) == below(m, lookup(m, a, p), n),
{
    assert(p.push(n).drop_last() =~= p);
}

/// What stands under `name` directly below `o`, if `o` is an entry at all.
pub open spec fn below(
    m: Map<ContentId, Map<Seq<char>, Entry>>,
    o: Option<Entry>,
    name: Seq<char>,
) -> Option<Entry> {
    match o {
        Some(e) => step(m, e, name),
        None => None,
    }
}

/// `out` holds every new entry at or below `prefix`.
spec fn covered(
    m: Map<ContentId, Map<Seq<char>, Entry>>,
    root: ContentId,
    parents: Seq<ContentId>,
    out: Seq<NewEntry>,
    prefix: Seq<Seq<char>>,
) -> bool {
    forall|q: Seq<Seq<char>>, e: Entry|
        prefix.is_prefix_of(q) && #[trigger] is_new(m, root, parents, q, e) ==> yields(out, q, e)
}

/// Every tree that the comparison reads at or below `prefix` is stored.
spec fn loaded_below(
    m: Map<ContentId, Map<Seq<char>, Entry>>,
    root: ContentId,
    parents: Seq<ContentId>,
    prefix: Seq<Seq<char>>,
) -> bool {
    forall|q: Seq<Seq<char>>, id: ContentId|
        prefix.is_prefix_of(q) && #[trigger] reads_tree_at(m, root, parents, q, id)
            ==> m.contains_key(id)
}

proof fn lemma_covered_grows(
    m: Map<ContentId, Map<Seq<char>, Entry>>,
    root: ContentId,
    parents: Seq<ContentId>,
    out1: Seq<NewEntry>,
    out2: Seq<NewEntry>,
    prefix: Seq<Seq<char>>,
)
    requires
        covered(m, root, parents, out1, prefix),
        out1.is_prefix_of(out2),
    ensures
        covered(m, root, parents, out2, prefix),
{
    assert forall|q: Seq<Seq<char>>, e: Entry|
        prefix.is_prefix_of(q) && #[trigger] is_new(m, root, parents, q, e) implies yields(
        out2,
        q,
        e,
    ) by {
        assert(yields(out1, q, e));
        let k = choose|k: int|
            0 <= k < out1.len() && names(#[trigger] out1[k].path@) == q && out1[k].entry == e;
        assert(out2[k] == out1[k]);
    }
}

/// A copy of `path`.
fn clone_path(path: &Vec<String>) -> (r: Vec<String>)
    ensures
        r@ == path@,
{
    let mut r: Vec<String> = Vec::new();
    let mut i: usize = 0;
    while i < path.len()
        invariant
            i <= path@.len(),
            r@ == path@.subrange(0, i as int),
        decreases path@.len() - i,
    {
        r.push(path[i].clone());
        assert(r@ =~= path@.subrange(0, i + 1));
        i += 1;
    }
    assert(path@.subrange(0, path@.len() as int) =~= path@);
    r
}

/// Whether one of `others` is the entry `entry`.
fn agrees_with_one(entry: Entry, others: &Vec<Option<Entry>>) -> (r: Option<usize>)
    ensures
        r matches Some(i) ==> i < others@.len() && others@[i as int] == Some(entry),
        r is None ==> forall|j: int| 0 <= j < others@.len() ==> others@[j] != Some(entry),
{
    let mut i: usize = 0;
    while i < others.len()
        invariant
            i <= others@.len(),
            forall|j: int| 0 <= j < i ==> others@[j] != Some(entry),
        decreases others@.len() - i,
    {
        let same = match others[i] {
            Some(o) => o == entry,
            None => false,
        };
        if same {
            return Some(i);
        }
        i += 1;
    }
    None
}

proof fn lemma_prefix_index<A>(a: Seq<A>, b: Seq<A>, i: int)
    requires
        a.is_prefix_of(b),
        0 <= i < a.len(),
    ensures
        b[i] == a[i],
{
    assert(a[i] == b.subrange(0, a.len() as int)[i]);
}

proof fn lemma_prefix_trans<A>(a: Seq<A>, b: Seq<A>, c: Seq<A>)
    requires
        a.is_prefix_of(b),
        b.is_prefix_of(c),
    ensures
        a.is_prefix_of(c),
{
    assert forall|i: int| 0 <= i < a.len() implies a[i] == c[i] by {
        lemma_prefix_index(a, b, i);
        lemma_prefix_index(b, c, i);
    }
    assert(a =~= c.subrange(0, a.len() as int));
}

/// A path that leads somewhere leads there through a child of each of its
/// ancestors.
proof fn lemma_through_child(
    m: Map<ContentId, Map<Seq<char>, Entry>>,
    a: Entry,
    p: Seq<Seq<char>>,
    q: Seq<Seq<char>>,
)
    requires
        p.is_prefix_of(q),
        p.len() < q.len(),
        lookup(m, a, q) is Some,
    ensures
        p.push(q[p.len() as int]).is_prefix_of(q),
        lookup(m, a, p.push(q[p.len() as int])) is Some,
{
    let q1 = p.push(q[p.len() as int]);
    assert(q1 =~= q.subrange(0, q1.len() as int));
    if lookup(m, a, q1) is None {
        if q1.len() < q.len() {
            lemma_dead_end(m, a, q1, q);
        } else {
            assert(q =~= q1);
        }
    }
}

impl ManifestStore {
    /// `p` says where the tree `o` is stored, and says nothing where `o` is
    /// no tree.
    spec fn placed(&self, o: Option<Entry>, p: Option<usize>) -> bool {
        match o {
            Some(Entry::Tree(pid)) => p matches Some(idx) && idx < self.ids@.len()
                && self.ids@[idx as int] == pid,
            _ => p is None,
        }
    }

    /// For each of `others` that is a tree, where that tree is stored.
    fn parent_positions(&self, others: &Vec<Option<Entry>>) -> (r: Result<
        Vec<Option<usize>>,
        MissingTree,
    >)
        requires
            self.wf(),
        ensures
            r matches Ok(ps) ==> ps@.len() == others@.len() && forall|j: int|
                0 <= j < others@.len() ==> self.placed(others@[j], #[trigger] ps@[j]),
            r matches Err(e) ==> !self@.contains_key(e.id) && exists|j: int|
                0 <= j < others@.len() && #[trigger] others@[j] == Some(Entry::Tree(e.id)),
    {
        let mut ps: Vec<Option<usize>> = Vec::new();
        let mut i: usize = 0;
        while i < others.len()
            invariant
                self.wf(),
                i <= others@.len(),
                ps@.len() == i,
                forall|j: int| 0 <= j < i ==> self.placed(others@[j], #[trigger] ps@[j]),
            decreases others@.len() - i,
        {
            match others[i] {
                Some(Entry::Tree(pid)) => {
                    match self.position(pid) {
                        Some(p) => {
                            ps.push(Some(p));
                        },
                        None => {
                            assert(others@[i as int] == Some(Entry::Tree(pid)));
                            return Err(MissingTree { id: pid });
                        },
                    }
                },
                _ => {
                    ps.push(None);
                },
            }
            i += 1;
        }
        Ok(ps)
    }

    /// What each of `others` has under `name`.
    fn children_named(
        &self,
        positions: &Vec<Option<usize>>,
        name: &String,
        Ghost(others): Ghost<Seq<Option<Entry>>>,
    ) -> (r: Vec<Option<Entry>>)
        requires
            self.wf(),
            positions@.len() == others.len(),
            forall|j: int| 0 <= j < others.len() ==> self.placed(others[j], #[trigger] positions@[j]),
        ensures
            r@.len() == others.len(),
            forall|j: int| 0 <= j < others.len() ==> #[trigger] r@[j] == below(self@, others[j], name@),
    {
        let mut r: Vec<Option<Entry>> = Vec::new();
        let mut i: usize = 0;
        while i < positions.len()
            invariant
                self.wf(),
                positions@.len() == others.len(),
                forall|j: int|
                    0 <= j < others.len() ==> self.placed(others[j], #[trigger] positions@[j]),
                i <= positions@.len(),
                r@.len() == i,
                forall|j: int| 0 <= j < i ==> #[trigger] r@[j] == below(self@, others[j], name@),
            decreases positions@.len() - i,
        {
            assert(self.placed(others[i as int], positions@[i as int]));
            let o = match positions[i] {
                Some(p) => find_child(&self.dirs[p], name),
                None => None,
            };
            r.push(o);
            i += 1;
        }
        r
    }
}

/// The path `q` goes from `here` through one of the first `k` of `lines`.
spec fn goes_through(here: Seq<Seq<char>>, lines: Seq<Child>, k: int, q: Seq<Seq<char>>) -> bool {
    exists|j: int| 0 <= j < k && here.push(#[trigger] lines[j].name@).is_prefix_of(q)
}

/// No two of the entries of `out` from `from` on stand at the same path.
pub open spec fn distinct_paths(out: Seq<NewEntry>, from: int) -> bool {
    forall|a: int, b: int|
        from <= a < b < out.len() ==> names(#[trigger] out[a].path@) != names(
            #[trigger] out[b].path@,
        )
}

/// Paths that go through children of different names are different paths.
proof fn lemma_paths_part(
    here: Seq<Seq<char>>,
    n1: Seq<char>,
    n2: Seq<char>,
    q1: Seq<Seq<char>>,
    q2: Seq<Seq<char>>,
)
    requires
        here.push(n1).is_prefix_of(q1),
        here.push(n2).is_prefix_of(q2),
        n1 != n2,
    ensures
        q1 != q2,
{
    lemma_prefix_index(here.push(n1), q1, here.len() as int);
    lemma_prefix_index(here.push(n2), q2, here.len() as int);
}

/// Compares the manifest below `entry` with what the parents have at the
/// same place, and appends the new entries found there to `out`.
fn walk(
    store: &ManifestStore,
    entry: Entry,
    others: &Vec<Option<Entry>>,
    path: &Vec<String>,
    out: &mut Vec<NewEntry>,
    Ghost(root): Ghost<ContentId>,
    Ghost(parents): Ghost<Seq<ContentId>>,
) -> (r: Result<(), MissingTree>)
    requires
        store.wf(),
        entry_at(store@, root, names(path@)) == Some(entry),
        others@.len() == parents.len(),
        forall|i: int|
            0 <= i < parents.len() ==> others@[i] == entry_at(
                store@,
                #[trigger] parents[i],
                names(path@),
            ),
    ensures
        old(out)@.is_prefix_of(final(out)@),
        forall|k: int|
            old(out)@.len() <= k < final(out)@.len() ==> is_new(
                store@,
                root,
                parents,
                names(#[trigger] final(out)@[k].path@),
                final(out)@[k].entry,
            ),
        forall|k: int|
            old(out)@.len() <= k < final(out)@.len() ==> names(path@).is_prefix_of(
                names(#[trigger] final(out)@[k].path@),
            ),
        distinct_paths(final(out)@, old(out)@.len() as int),
        r is Ok ==> covered(store@, root, parents, final(out)@, names(path@)),
        r is Ok ==> loaded_below(store@, root, parents, names(path@)),
        r matches Err(e) ==> !store@.contains_key(e.id) && needs_tree(store@, root, parents, e.id),
    decreases store.height(entry),
{
    let ghost m = store@;
    let ghost here = names(path@);
    let ghost before = out@;
    match agrees_with_one(entry, others) {
        Some(i) => {
            proof {
                let pi = parents[i as int];
                assert(entry_at(m, pi, here) == Some(entry));
                assert forall|q: Seq<Seq<char>>, e: Entry|
                    here.is_prefix_of(q) && #[trigger] is_new(m, root, parents, q, e) implies yields(
                    out@,
                    q,
                    e,
                ) by {
                    lemma_same_below(m, Entry::Tree(root), Entry::Tree(pi), here, q);
                    assert(entry_at(m, parents[i as int], q) == Some(e));
                }
                assert forall|q: Seq<Seq<char>>, id: ContentId|
                    here.is_prefix_of(q) && #[trigger] reads_tree_at(
                        m,
                        root,
                        parents,
                        q,
                        id,
                    ) implies m.contains_key(id) by {
                    lemma_same_below(m, Entry::Tree(root), Entry::Tree(pi), here, q);
                    assert(entry_at(m, parents[i as int], q) == entry_at(m, root, q));
                }
            }
            return Ok(());
        },
        None => {},
    }
    proof {
        assert forall|i: int| 0 <= i < parents.len() implies entry_at(
            m,
            #[trigger] parents[i],
            here,
        ) != Some(entry) by {
            assert(others@[i] != Some(entry));
        }
        assert(is_new(m, root, parents, here, entry));
    }
    out.push(NewEntry { path: clone_path(path), entry });
    proof {
        assert(names(out@[before.len() as int].path@) == here);
        assert(yields(out@, here, entry));
    }
    match entry {
        Entry::Leaf(_) => {
            proof {
                assert forall|q: Seq<Seq<char>>, e: Entry|
                    here.is_prefix_of(q) && #[trigger] is_new(m, root, parents, q, e) implies yields(
                    out@,
                    q,
                    e,
                ) by {
                    if q.len() == here.len() {
                        assert(q =~= here);
                    } else {
                        lemma_dead_end(m, Entry::Tree(root), here, q);
                    }
                }
                assert forall|q: Seq<Seq<char>>, id: ContentId|
                    here.is_prefix_of(q) && #[trigger] reads_tree_at(
                        m,
                        root,
                        parents,
                        q,
                        id,
                    ) implies m.contains_key(id) by {
                    if q.len() == here.len() {
                        assert(q =~= here);
                    } else {
                        lemma_dead_end(m, Entry::Tree(root), here, q);
                    }
                }
            }
            Ok(())
        },
        Entry::Tree(id) => {
            let pos = match store.position(id) {
                Some(p) => p,
                None => {
                    proof {
                        assert(reads_tree_at(m, root, parents, here, id));
                    }
                    return Err(MissingTree { id });
                },
            };
            let positions = match store.parent_positions(others) {
                Ok(ps) => ps,
                Err(e) => {
                    proof {
                        let j = choose|j: int|
                            0 <= j < others@.len() && #[trigger] others@[j] == Some(
                                Entry::Tree(e.id),
                            );
                        assert(entry_at(m, parents[j], here) == Some(Entry::Tree(e.id)));
                        assert(parent_has_tree(m, parents, here, e.id));
                        assert(reads_tree_at(m, root, parents, here, e.id));
                    }
                    return Err(e);
                },
            };
            let lines = &store.dirs[pos];
            let mut k: usize = 0;
            while k < lines.len()
                invariant
                    store.wf(),
                    m == store@,
                    here == names(path@),
                    pos < store.ids@.len(),
                    store.ids@[pos as int] == id,
                    lines@ == store.dirs@[pos as int]@,
                    entry == Entry::Tree(id),
                    entry_at(m, root, here) == Some(entry),
                    others@.len() == parents.len(),
                    forall|i: int|
                        0 <= i < parents.len() ==> others@[i] == entry_at(
                            m,
                            #[trigger] parents[i],
                            here,
                        ),
                    positions@.len() == others@.len(),
                    forall|j: int|
                        0 <= j < others@.len() ==> store.placed(others@[j], #[trigger] positions@[j]),
                    k <= lines@.len(),
                    before == old(out)@,
                    before.is_prefix_of(out@),
                    before.len() < out@.len(),
                    names(out@[before.len() as int].path@) == here,
                    out@[before.len() as int].entry == entry,
                    forall|x: int|
                        before.len() <= x < out@.len() ==> is_new(
                            m,
                            root,
                            parents,
                            names(#[trigger] out@[x].path@),
                            out@[x].entry,
                        ),
                    !has_duplicate_name(lines@),
                    forall|x: int|
                        before.len() < x < out@.len() ==> goes_through(
                            here,
                            lines@,
                            k as int,
                            names(#[trigger] out@[x].path@),
                        ),
                    distinct_paths(out@, before.len() as int),
                    forall|j: int|
                        0 <= j < k ==> covered(
                            m,
                            root,
                            parents,
                            out@,
                            here.push(#[trigger] lines@[j].name@),
                        ),
                    forall|j: int|
                        0 <= j < k ==> loaded_below(
                            m,
                            root,
                            parents,
                            here.push(#[trigger] lines@[j].name@),
                        ),
                decreases lines@.len() - k,
            {
                let child = &lines[k];
                let child_others = store.children_named(&positions, &child.name, Ghost(others@));
                let mut child_path = clone_path(path);
                child_path.push(child.name.clone());
                proof {
                    let n = child.name@;
                    assert(names(child_path@) =~= here.push(n));
                    lemma_one_level(m, Entry::Tree(root), here, n);
                    assert(m.contains_key(id));
                    assert(lists(lines@, m[id]));
                    assert(m[id].contains_key(lines@[k as int].name@));
                    assert forall|i: int| 0 <= i < parents.len() implies child_others@[i]
                        == entry_at(m, #[trigger] parents[i], here.push(n)) by {
                        lemma_one_level(m, Entry::Tree(parents[i]), here, n);
                        assert(child_others@[i] == below(m, others@[i], n));
                    }
                }
                let ghost prev = out@;
                let r = walk(
                    store,
                    child.entry,
                    &child_others,
                    &child_path,
                    out,
                    Ghost(root),
                    Ghost(parents),
                );
                proof {
                    lemma_prefix_trans(before, prev, out@);
                    lemma_prefix_index(prev, out@, before.len() as int);
                    let cp = here.push(lines@[k as int].name@);
                    assert forall|x: int| before.len() < x < out@.len() implies goes_through(
                        here,
                        lines@,
                        k + 1,
                        names(#[trigger] out@[x].path@),
                    ) by {
                        if x < prev.len() {
                            lemma_prefix_index(prev, out@, x);
                            let j = choose|j: int|
                                0 <= j < k && here.push(#[trigger] lines@[j].name@).is_prefix_of(
                                    names(prev[x].path@),
                                );
                            assert(here.push(lines@[j].name@).is_prefix_of(names(out@[x].path@)));
                        } else {
                            assert(cp.is_prefix_of(names(out@[x].path@)));
                        }
                    }
                    assert forall|a: int, b: int| before.len() <= a < b < out@.len() implies names(
                        #[trigger] out@[a].path@,
                    ) != names(#[trigger] out@[b].path@) by {
                        if b < prev.len() {
                            lemma_prefix_index(prev, out@, a);
                            lemma_prefix_index(prev, out@, b);
                        } else if a >= prev.len() {
                        } else {
                            lemma_prefix_index(prev, out@, a);
                            assert(cp.is_prefix_of(names(out@[b].path@)));
                            if a == before.len() {
                                assert(names(out@[a].path@).len() == here.len());
                                assert(names(out@[b].path@).len() >= cp.len());
                            } else {
                                let j = choose|j: int|
                                    0 <= j < k && here.push(
                                        #[trigger] lines@[j].name@,
                                    ).is_prefix_of(names(prev[a].path@));
                                assert(lines@[j].name@ != lines@[k as int].name@);
                                lemma_paths_part(
                                    here,
                                    lines@[j].name@,
                                    lines@[k as int].name@,
                                    names(out@[a].path@),
                                    names(out@[b].path@),
                                );
                            }
                        }
                    }
                    assert forall|x: int| before.len() <= x < out@.len() implies is_new(
                        m,
                        root,
                        parents,
                        names(#[trigger] out@[x].path@),
                        out@[x].entry,
                    ) by {
                        if x < prev.len() {
                            lemma_prefix_index(prev, out@, x);
                        }
                    }
                    assert forall|j: int| 0 <= j < k implies covered(
                        m,
                        root,
                        parents,
                        out@,
                        here.push(#[trigger] lines@[j].name@),
                    ) by {
                        lemma_covered_grows(
                            m,
                            root,
                            parents,
                            prev,
                            out@,
                            here.push(lines@[j].name@),
                        );
                    }
                }
                match r {
                    Err(e) => {
                        return Err(e);
                    },
                    Ok(()) => {},
                }
                k += 1;
            }
            proof {
                assert forall|q: Seq<Seq<char>>, e: Entry|
                    here.is_prefix_of(q) && #[trigger] is_new(m, root, parents, q, e) implies yields(
                    out@,
                    q,
                    e,
                ) by {
                    if q.len() == here.len() {
                        assert(q =~= here);
                    } else {
                        let n = q[here.len() as int];
                        lemma_through_child(m, Entry::Tree(root), here, q);
                        lemma_one_level(m, Entry::Tree(root), here, n);
                        assert(m[id].contains_key(n));
                        let j = choose|j: int| 0 <= j < lines@.len() && #[trigger] lines@[j].name@ == n;
                        assert(covered(m, root, parents, out@, here.push(lines@[j].name@)));
                    }
                }
                assert forall|q: Seq<Seq<char>>, t: ContentId|
                    here.is_prefix_of(q) && #[trigger] reads_tree_at(
                        m,
                        root,
                        parents,
                        q,
                        t,
                    ) implies m.contains_key(t) by {
                    if q.len() == here.len() {
                        assert(q =~= here);
                        if t != id {
                            let i = choose|i: int|
                                0 <= i < parents.len() && entry_at(m, #[trigger] parents[i], here)
                                    == Some(Entry::Tree(t));
                            assert(store.placed(others@[i], positions@[i]));
                        }
                    } else {
                        let n = q[here.len() as int];
                        lemma_through_child(m, Entry::Tree(root), here, q);
                        lemma_one_level(m, Entry::Tree(root), here, n);
                        assert(m[id].contains_key(n));
                        let j = choose|j: int| 0 <= j < lines@.len() && #[trigger] lines@[j].name@ == n;
                        assert(loaded_below(m, root, parents, here.push(lines@[j].name@)));
                    }
                }
            }
            Ok(())
        },
    }
}

/// The entries of the manifest rooted at `root` that are new relative to
/// every one of `parents`: each entry of the manifest, with its path, that
/// no parent holds at the same path. The root tree itself stands at the
/// empty path. With no parents, every entry of the manifest is new.
///
/// Only trees that differ from every parent are read. The result is an
/// error as soon as one of them is not in the store.
pub fn find_intersection_of_diffs(
    store: &ManifestStore,
    root: ContentId,
    parents: &Vec<ContentId>,
) -> (r: Result<Vec<NewEntry>, MissingTree>)
    requires
        store.wf(),
    ensures
        r is Ok <==> loaded_for(store@, root, parents@),
        r matches Ok(v) ==> forall|q: Seq<Seq<char>>, e: Entry|
            #![trigger yields(v@, q, e)]
            #![trigger is_new(store@, root, parents@, q, e)]
            yields(v@, q, e) <==> is_new(store@, root, parents@, q, e),
        r matches Ok(v) ==> distinct_paths(v@, 0),
        r matches Err(e) ==> needs_tree(store@, root, parents@, e.id) && !store@.contains_key(e.id),
{
    let mut others: Vec<Option<Entry>> = Vec::new();
    let mut i: usize = 0;
    while i < parents.len()
        invariant
            i <= parents@.len(),
            others@.len() == i,
            forall|j: int| 0 <= j < i ==> #[trigger] others@[j] == Some(Entry::Tree(parents@[j])),
        decreases parents@.len() - i,
    {
        others.push(Some(Entry::Tree(parents[i])));
        i += 1;
    }
    let path: Vec<String> = Vec::new();
    let mut out: Vec<NewEntry> = Vec::new();
    let ghost m = store@;
    proof {
        assert(names(path@) =~= Seq::<Seq<char>>::empty());
    }
    let r = walk(store, Entry::Tree(root), &others, &path, &mut out, Ghost(root), Ghost(parents@));
    match r {
        Ok(()) => {
            proof {
                let none = Seq::<Seq<char>>::empty();
                assert forall|q: Seq<Seq<char>>, e: Entry| is_new(m, root, parents@, q, e) implies yields(
                    out@,
                    q,
                    e,
                ) by {
                    assert(none.is_prefix_of(q));
                }
                assert forall|id: ContentId| #[trigger]
                    needs_tree(m, root, parents@, id) implies m.contains_key(id) by {
                    let q = choose|q: Seq<Seq<char>>| #[trigger]
                        reads_tree_at(m, root, parents@, q, id);
                    assert(none.is_prefix_of(q));
                }
            }
            Ok(out)
        },
        Err(e) => Err(e),
    }
}

/// For a commit without parents, every entry of its manifest is new: the
/// root tree at the empty path, and whatever a path leads to.
pub proof fn law_without_parents_every_entry_is_new(
    m: Map<ContentId, Map<Seq<char>, Entry>>,
    root: ContentId,
    path: Seq<Seq<char>>,
    e: Entry,
)
    ensures
        is_new(m, root, Seq::empty(), path, e) <==> entry_at(m, root, path) == Some(e),
        is_new(m, root, Seq::empty(), Seq::empty(), Entry::Tree(root)),
{
}

/// For a commit with one parent, the new entries are exactly those that
/// the parent does not have at the same path.
pub proof fn law_one_parent_new_is_different(
    m: Map<ContentId, Map<Seq<char>, Entry>>,
    root: ContentId,
    parent: ContentId,
    path: Seq<Seq<char>>,
    e: Entry,
)
    ensures
        is_new(m, root, seq![parent], path, e) <==> (entry_at(m, root, path) == Some(e) && entry_at(
            m,
            parent,
            path,
        ) != Some(e)),
{
    let parents = seq![parent];
    assert(parents[0] == parent);
}

/// An entry that any one parent has at the same path is not new, however
/// it stands to the other parents.
pub proof fn law_entry_of_a_parent_is_not_new(
    m: Map<ContentId, Map<Seq<char>, Entry>>,
    root: ContentId,
    parents: Seq<ContentId>,
    i: int,
    path: Seq<Seq<char>>,
    e: Entry,
)
    requires
        0 <= i < parents.len(),
        entry_at(m, parents[i], path) == Some(e),
    ensures
        !is_new(m, root, parents, path, e),
{
}

/// Where the commit and one of its parents have the same entry, nothing at
/// or below that place is new and no tree there is read: the comparison
/// goes only into subtrees that differ from every parent.
pub proof fn law_shared_subtrees_are_skipped(
    m: Map<ContentId, Map<Seq<char>, Entry>>,
    root: ContentId,
    parents: Seq<ContentId>,
    i: int,
    shared: Seq<Seq<char>>,
    path: Seq<Seq<char>>,
)
    requires
        0 <= i < parents.len(),
        entry_at(m, root, shared) == entry_at(m, parents[i], shared),
        shared.is_prefix_of(path),
    ensures
        forall|e: Entry| !is_new(m, root, parents, path, e),
        forall|id: ContentId| !reads_tree_at(m, root, parents, path, id),
{
    lemma_same_below(m, Entry::Tree(root), Entry::Tree(parents[i]), shared, path);
}

/// A commit whose root tree is the root tree of one of its parents
/// introduces nothing, and comparing them reads no tree.
pub proof fn law_unchanged_root_introduces_nothing(
    m: Map<ContentId, Map<Seq<char>, Entry>>,
    root: ContentId,
    parents: Seq<ContentId>,
    i: int,
)
    requires
        0 <= i < parents.len(),
        parents[i] == root,
    ensures
        forall|path: Seq<Seq<char>>, e: Entry| !is_new(m, root, parents, path, e),
        loaded_for(m, root, parents),
{
    let none = Seq::<Seq<char>>::empty();
    assert forall|path: Seq<Seq<char>>, e: Entry| !is_new(m, root, parents, path, e) by {
        assert(none.is_prefix_of(path));
        law_shared_subtrees_are_skipped(m, root, parents, i, none, path);
    }
    assert forall|id: ContentId| #[trigger] needs_tree(m, root, parents, id) implies m.contains_key(
        id,
    ) by {
        let path = choose|path: Seq<Seq<char>>| #[trigger] reads_tree_at(m, root, parents, path, id);
        assert(none.is_prefix_of(path));
        law_shared_subtrees_are_skipped(m, root, parents, i, none, path);
    }
}

/// A further parent takes new entries away and adds none.
pub proof fn law_more_parents_fewer_new_entries(
    m: Map<ContentId, Map<Seq<char>, Entry>>,
    root: ContentId,
    parents: Seq<ContentId>,
    more: ContentId,
    path: Seq<Seq<char>>,
    e: Entry,
)
    requires
        is_new(m, root, parents.push(more), path, e),
    ensures
        is_new(m, root, parents, path, e),
{
    assert forall|i: int| 0 <= i < parents.len() implies entry_at(m, #[trigger] parents[i], path)
        != Some(e) by {
        assert(parents.push(more)[i] == parents[i]);
    }
}

} // verus!




