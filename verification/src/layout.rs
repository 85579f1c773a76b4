//! The shape of a layout tree: each node's children and parent, keyed by slot map keys.
//!
//! Nodes are named by the 64-bit form of their slot map key. Sizes and positions belong to the
//! layout engine; this tree decides which nodes a change reaches, walking from a node up through
//! its parents to the root.

use vstd::prelude::*;
use slotmap::{DefaultKey, KeyData, SlotMap};
use slotmap::Key as _;

verus! {

/// A slot map of node links, keyed by the slot map's default key type.
///
/// The map is kept behind this struct, whose field Verus does not see; what it holds is
/// `tree_links`, and the wrappers below are the only access to it.
#[verifier::external_body]
pub struct NodeSlots {
    map: SlotMap<DefaultKey, NodeLinks>,
}

/// The children and the parent of one node.
#[derive(Debug)]
pub struct NodeLinks {
    /// The children, in the order they were added.
    pub children: Vec<u64>,
    /// The parent, as it was given when the node was added to it.
    pub parent: Option<u64>,
}

/// What a slot map of node links holds: for each key (in its 64-bit form), the node's children
/// and parent.
pub uninterp spec fn tree_links(m: NodeSlots) -> Map<u64, (Seq<u64>, Option<u64>)>;

/// The key a 64-bit value names: the slot map reads the low half as the slot and the high half,
/// made odd, as the version, so values differing only in the lowest version bit name one key.
pub open spec fn slot_key(raw: u64) -> u64 {
    raw | 0x1_0000_0000
}

/// No nodes at all.
pub open spec fn no_links() -> Map<u64, (Seq<u64>, Option<u64>)> {
    Map::empty()
}

/// An empty slot map of node links with room for `capacity` nodes, by `SlotMap::with_capacity`.
#[verifier::external_body]
fn links_with_capacity(capacity: usize) -> (m: NodeSlots)
    ensures
        tree_links(m) == no_links(),
{
    NodeSlots { map: SlotMap::with_capacity(capacity) }
}

/// Removes every node, by `SlotMap::clear`.
#[verifier::external_body]
fn links_clear(m: &mut NodeSlots)
    ensures
        tree_links(*final(m)) == no_links(),
{
    m.map.clear()
}

/// Stores `links` under a new key, by `SlotMap::insert`, and returns the key in its 64-bit form
/// (`KeyData::as_ffi`).
///
/// Slot 0 of the map is a sentinel, so the map panics when it has no free slot and its slots
/// number `u32::MAX` already, that is when it holds `u32::MAX - 1` values; below that a free
/// slot is reused or a new one pushed. The new key is none of the keys in use, and its version
/// (the high half) is odd, as the version of an occupied slot always is.
#[verifier::external_body]
fn links_insert(m: &mut NodeSlots, links: NodeLinks) -> (key: u64)
    requires
        tree_links(*old(m)).dom().len() < u32::MAX - 1,
    ensures
        slot_key(key) == key,
        !tree_links(*old(m)).dom().contains(key),
        tree_links(*final(m)) == tree_links(*old(m)).insert(key, (links.children@, links.parent)),
{
    m.map.insert(links).data().as_ffi()
}

/// The links stored under the key `raw` names, by indexing with `KeyData::from_ffi(raw)`, which
/// panics for a key not in use.
#[verifier::external_body]
fn links_get(m: &NodeSlots, raw: u64) -> (links: &NodeLinks)
    requires
        tree_links(*m).dom().contains(slot_key(raw)),
    ensures
        (links.children@, links.parent) == tree_links(*m)[slot_key(raw)],
{
    &m.map[KeyData::from_ffi(raw).into()]
}

/// The links stored under the key `raw` names, to change, by mutable indexing with
/// `KeyData::from_ffi(raw)`, which panics for a key not in use. What is written through the
/// reference is what the map holds under that key afterwards; the other keys keep theirs.
#[verifier::external_body]
fn links_get_mut(m: &mut NodeSlots, raw: u64) -> (links: &mut NodeLinks)
    requires
        tree_links(*old(m)).dom().contains(slot_key(raw)),
    ensures
        (links.children@, links.parent) == tree_links(*old(m))[slot_key(raw)],
        tree_links(*final(m)) == tree_links(*old(m)).insert(
            slot_key(raw),
            (final(links).children@, final(links).parent),
        ),
{
    &mut m.map[KeyData::from_ffi(raw).into()]
}

/// Whether the key `raw` names is in use, by `SlotMap::contains_key` with
/// `KeyData::from_ffi(raw)`.
#[verifier::external_body]
fn links_contains(m: &NodeSlots, raw: u64) -> (r: bool)
    ensures
        r == tree_links(*m).dom().contains(slot_key(raw)),
{
    m.map.contains_key(KeyData::from_ffi(raw).into())
}

/// The path from a node up to a root: it starts at `k`, each next node is the parent of the one
/// before, and it ends at a node with no parent. Every node on it is in the tree.
pub open spec fn is_root_path(v: Map<u64, (Seq<u64>, Option<u64>)>, k: u64, path: Seq<u64>) -> bool {
    &&& path.len() > 0
    &&& path[0] == k
    &&& forall|i: int| 0 <= i < path.len() ==> v.dom().contains(#[trigger] path[i])
    &&& forall|i: int|
        0 <= i < path.len() - 1 ==> (#[trigger] v[path[i]]).1 is Some && slot_key(
            v[path[i]].1->0,
        ) == path[i + 1]
    &&& v[path.last()].1 is None
}

/// The nodes and links of a layout tree.
pub struct LayoutTree {
    links: NodeSlots,
    rank: Ghost<Map<u64, nat>>,
}

impl LayoutTree {
    /// For each node (by key), its children and its parent.
    pub closed spec fn view(&self) -> Map<u64, (Seq<u64>, Option<u64>)> {
        tree_links(self.links)
    }

    /// Finitely many nodes, each under its own key; every child and parent is a node; and the
    /// parent links lead up to a root from every node (each parent ranks below its child).
    pub closed spec fn wf(&self) -> bool {
        let v = tree_links(self.links);
        let rank = self.rank@;
        &&& v.dom().finite()
        &&& forall|k: u64| #[trigger] v.dom().contains(k) ==> slot_key(k) == k
        &&& forall|k: u64| #[trigger] v.dom().contains(k) ==> rank.dom().contains(k)
        &&& forall|k: u64|
            #[trigger] v.dom().contains(k) ==> forall|i: int|
                0 <= i < v[k].0.len() ==> v.dom().contains(slot_key(#[trigger] v[k].0[i]))
        &&& forall|k: u64|
            #[trigger] v.dom().contains(k) ==> (v[k].1 is Some ==> v.dom().contains(
                slot_key(v[k].1->0),
            ) && rank[slot_key(v[k].1->0)] < rank[k])
    }

    /// The path from node `k` up to its root.
    pub closed spec fn spec_ancestry(&self, k: u64) -> Seq<u64> {
        ancestry_of(tree_links(self.links), self.rank@, k)
    }

    /// An empty tree with room for 16 nodes.
    pub fn new() -> (t: Self)
        ensures
            t.wf(),
            t.view() == no_links(),
    {
        Self::with_capacity(16)
    }

    /// An empty tree with room for `capacity` nodes.
    pub fn with_capacity(capacity: usize) -> (t: Self)
        ensures
            t.wf(),
            t.view() == no_links(),
    {
        LayoutTree { links: links_with_capacity(capacity), rank: Ghost(Map::empty()) }
    }

    /// Remove every node.
    pub fn clear(&mut self)
        ensures
            final(self).wf(),
            final(self).view() == no_links(),
    {
        links_clear(&mut self.links);
        self.rank = Ghost(Map::empty());
    }

    /// Add a node with no children and no parent; returns its key.
    pub fn add_node(&mut self) -> (node: u64)
        requires
            old(self).wf(),
            old(self).view().dom().len() < u32::MAX - 1,
        ensures
            final(self).wf(),
            slot_key(node) == node,
            !old(self).view().dom().contains(node),
            final(self).view() == old(self).view().insert(node, (Seq::<u64>::empty(), None)),
    {
        let node = links_insert(&mut self.links, NodeLinks { children: Vec::new(), parent: None });
        self.rank = Ghost(self.rank@.insert(node, 0));
        node
    }

    /// Whether `node` names a node of the tree.
    pub fn contains(&self, node: u64) -> (r: bool)
        ensures
            r == self.view().dom().contains(slot_key(node)),
    {
        links_contains(&self.links, node)
    }

    /// The children of `node`, in the order they were added.
    pub fn children(&self, node: u64) -> (c: &[u64])
        requires
            self.view().dom().contains(slot_key(node)),
        ensures
            c@ == self.view()[slot_key(node)].0,
    {
        links_get(&self.links, node).children.as_slice()
    }

    /// A copy of the children of `node`.
    pub fn children_owned(&self, node: u64) -> (c: Vec<u64>)
        requires
            self.view().dom().contains(slot_key(node)),
        ensures
            c@ == self.view()[slot_key(node)].0,
    {
        let children = links_get(&self.links, node).children.as_slice();
        let mut out: Vec<u64> = Vec::new();
        let mut i: usize = 0;
        while i < children.len()
            invariant
                i <= children@.len(),
                out@ == children@.take(i as int),
            decreases children@.len() - i,
        {
            out.push(children[i]);
            i = i + 1;
            assert(out@ =~= children@.take(i as int));
        }
        assert(children@.take(i as int) =~= children@);
        out
    }

    /// The nodes from `node` up to its root: `node` itself, its parent, that node's parent, and
    /// so on. These are the nodes whose layout a change to `node` can affect.
    pub fn ancestry(&self, node: u64) -> (path: Vec<u64>)
        requires
            self.wf(),
            self.view().dom().contains(slot_key(node)),
        ensures
            path@ == self.spec_ancestry(slot_key(node)),
            is_root_path(self.view(), slot_key(node), path@),
    {
        let ghost v = tree_links(self.links);
        let ghost rank = self.rank@;
        let ghost start = slot_key(node);
        proof {
            lemma_ancestry_is_root_path(v, rank, start);
        }
        let mut path: Vec<u64> = Vec::new();
        let mut cur: u64 = node | 0x1_0000_0000;
        loop
            invariant_except_break
                path@ + ancestry_of(v, rank, cur) == ancestry_of(v, rank, start),
            invariant
                self.wf(),
                v == tree_links(self.links),
                rank == self.rank@,
                v.dom().contains(cur),
            ensures
                path@ == ancestry_of(v, rank, start),
            decreases rank[cur],
        {
            path.push(cur);
            let parent = links_get(&self.links, cur).parent;
            match parent {
                Some(p) => {
                    let next = p | 0x1_0000_0000;
                    proof {
                        assert(ancestry_of(v, rank, cur) == seq![cur] + ancestry_of(v, rank, next));
                        assert(path@ + ancestry_of(v, rank, next) =~= ancestry_of(v, rank, start));
                    }
                    cur = next;
                },
                None => {
                    proof {
                        assert(path@ =~= ancestry_of(v, rank, start));
                    }
                    break;
                },
            }
        }
        path
    }

    /// Whether `above` is `node` itself or one of its ancestors.
    pub fn reaches(&self, node: u64, above: u64) -> (r: bool)
        requires
            self.wf(),
            self.view().dom().contains(slot_key(node)),
        ensures
            r == self.spec_ancestry(slot_key(node)).contains(slot_key(above)),
    {
        let path = self.ancestry(node);
        let target = above | 0x1_0000_0000;
        let mut i: usize = 0;
        while i < path.len()
            invariant
                i <= path@.len(),
                target == slot_key(above),
                path@ == self.spec_ancestry(slot_key(node)),
                forall|j: int| 0 <= j < i ==> path@[j] != target,
            decreases path@.len() - i,
        {
            if path[i] == target {
                assert(path@[i as int] == target);
                return true;
            }
            i = i + 1;
        }
        false
    }

    /// Make `child` a child of `parent`: `child` records `parent` as its parent, and `parent`
    /// gets `child` after its other children. `child` may not be `parent` or one of its
    /// ancestors, as the walk up from `parent` would then never end.
    pub fn add_child_to_node(&mut self, parent: u64, child: u64)
        requires
            old(self).wf(),
            old(self).view().dom().contains(slot_key(parent)),
            old(self).view().dom().contains(slot_key(child)),
            !old(self).spec_ancestry(slot_key(parent)).contains(slot_key(child)),
        ensures
            final(self).wf(),
            final(self).view() == old(self).view().insert(
                slot_key(child),
                (old(self).view()[slot_key(child)].0, Some(parent)),
            ).insert(
                slot_key(parent),
                (old(self).view()[slot_key(parent)].0.push(child), old(self).view()[slot_key(
                    parent,
                )].1),
            ),
    {
        let ghost v = tree_links(self.links);
        let ghost rank = self.rank@;
        let ghost ck = slot_key(child);
        let ghost pk = slot_key(parent);
        proof {
            assert(ancestry_of(v, rank, pk)[0] == pk);
            assert(pk != ck);
        }
        let c = links_get_mut(&mut self.links, child);
        c.parent = Some(parent);
        let p = links_get_mut(&mut self.links, parent);
        p.children.push(child);
        let ghost shift = rank[pk] + 1;
        let ghost new_rank = Map::new(
            |m: u64| rank.dom().contains(m),
            |m: u64|
                if ancestry_of(v, rank, m).contains(ck) {
                    (rank[m] + shift) as nat
                } else {
                    rank[m]
                },
        );
        proof {
            let v2 = tree_links(self.links);
            assert(v2 == v.insert(ck, (v[ck].0, Some(parent))).insert(pk, (v[pk].0.push(child), v[pk].1)));
            assert(ancestry_of(v, rank, ck)[0] == ck);
            assert(new_rank[ck] == rank[ck] + shift);
            assert(new_rank[pk] == rank[pk]);
            assert forall|m: u64| v2.dom().contains(m) && #[trigger] v2[m].1 is Some implies v2.dom().contains(
                slot_key(v2[m].1->0),
            ) && new_rank[slot_key(v2[m].1->0)] < new_rank[m] by {
                if m != ck {
                    assert(v2[m].1 == v[m].1);
                    assert(v.dom().contains(m));
                    let q = slot_key(v[m].1->0);
                    assert(rank[q] < rank[m]);
                    assert(ancestry_of(v, rank, m) == seq![m] + ancestry_of(v, rank, q));
                    if ancestry_of(v, rank, q).contains(ck) {
                        let j = choose|j: int|
                            0 <= j < ancestry_of(v, rank, q).len() && ancestry_of(v, rank, q)[j]
                                == ck;
                        assert((seq![m] + ancestry_of(v, rank, q))[j + 1] == ck);
                    }
                    if ancestry_of(v, rank, m).contains(ck) {
                        let j = choose|j: int|
                            0 <= j < ancestry_of(v, rank, m).len() && ancestry_of(v, rank, m)[j]
                                == ck;
                        assert(j > 0);
                        assert(ancestry_of(v, rank, q)[j - 1] == ck);
                    }
                }
            }
            assert forall|m: u64| #[trigger] v2.dom().contains(m) implies forall|i: int|
                0 <= i < v2[m].0.len() ==> v2.dom().contains(slot_key(#[trigger] v2[m].0[i])) by {
                if m == pk {
                    assert forall|i: int| 0 <= i < v2[m].0.len() implies v2.dom().contains(
                        slot_key(#[trigger] v2[m].0[i]),
                    ) by {
                        if i < v[pk].0.len() {
                            assert(v2[m].0[i] == v[pk].0[i]);
                        }
                    }
                } else {
                    assert(v2[m].0 == v[m].0);
                }
            }
        }
        self.rank = Ghost(new_rank);
    }

    /// The parent of `node`, as it was given when `node` was added to it.
    pub fn parent(&self, node: u64) -> (p: Option<u64>)
        requires
            self.view().dom().contains(slot_key(node)),
        ensures
            p == self.view()[slot_key(node)].1,
    {
        links_get(&self.links, node).parent
    }
}

/// In a tree whose parents rank below their children, the path from a node is its root path.
proof fn lemma_ancestry_is_root_path(v: Map<u64, (Seq<u64>, Option<u64>)>, rank: Map<u64, nat>, k: u64)
    requires
        v.dom().contains(k),
        forall|m: u64|
            #[trigger] v.dom().contains(m) ==> (v[m].1 is Some ==> v.dom().contains(
                slot_key(v[m].1->0),
            ) && rank[slot_key(v[m].1->0)] < rank[m]),
    ensures
        is_root_path(v, k, ancestry_of(v, rank, k)),
    decreases rank[k],
{
    let path = ancestry_of(v, rank, k);
    if v[k].1 is Some {
        let p = slot_key(v[k].1->0);
        lemma_ancestry_is_root_path(v, rank, p);
        let rest = ancestry_of(v, rank, p);
        assert(path == seq![k] + rest);
        assert forall|i: int| 0 <= i < path.len() implies v.dom().contains(#[trigger] path[i]) by {
            if i > 0 {
                assert(path[i] == rest[i - 1]);
            }
        }
        assert forall|i: int| 0 <= i < path.len() - 1 implies (#[trigger] v[path[i]]).1 is Some
            && slot_key(v[path[i]].1->0) == path[i + 1] by {
            if i > 0 {
                assert(path[i] == rest[i - 1]);
                assert(path[i + 1] == rest[i]);
            }
        }
        assert(path.last() == rest.last());
    }
}

/// The path from node `k` up through its parents, as long as each parent ranks below its child.
spec fn ancestry_of(v: Map<u64, (Seq<u64>, Option<u64>)>, rank: Map<u64, nat>, k: u64) -> Seq<u64>
    decreases rank[k],
{
    if v[k].1 is Some && rank[slot_key(v[k].1->0)] < rank[k] {
        seq![k] + ancestry_of(v, rank, slot_key(v[k].1->0))
    } else {
        seq![k]
    }
}

/// A node has one path up to a root.
proof fn lemma_root_path_unique(v: Map<u64, (Seq<u64>, Option<u64>)>, k: u64, p1: Seq<u64>, p2: Seq<u64>)
    requires
        is_root_path(v, k, p1),
        is_root_path(v, k, p2),
    ensures
        p1 == p2,
    decreases p1.len(),
{
    if p1.len() == 1 {
        if p2.len() > 1 {
            assert(v[p2[0]].1 is Some);
        }
        assert(p1 =~= p2);
    } else {
        assert(v[p1[0]].1 is Some);
        if p2.len() == 1 {
            assert(v[p2.last()].1 is None);
        }
        let next = slot_key(v[k].1->0);
        let t1 = p1.drop_first();
        let t2 = p2.drop_first();
        assert(is_root_path(v, next, t1)) by {
            assert forall|i: int| 0 <= i < t1.len() - 1 implies (#[trigger] v[t1[i]]).1 is Some
                && slot_key(v[t1[i]].1->0) == t1[i + 1] by {
                assert(t1[i] == p1[i + 1]);
            }
            assert forall|i: int| 0 <= i < t1.len() implies v.dom().contains(#[trigger] t1[i]) by {
                assert(t1[i] == p1[i + 1]);
            }
        }
        assert(is_root_path(v, next, t2)) by {
            assert forall|i: int| 0 <= i < t2.len() - 1 implies (#[trigger] v[t2[i]]).1 is Some
                && slot_key(v[t2[i]].1->0) == t2[i + 1] by {
                assert(t2[i] == p2[i + 1]);
            }
            assert forall|i: int| 0 <= i < t2.len() implies v.dom().contains(#[trigger] t2[i]) by {
                assert(t2[i] == p2[i + 1]);
            }
        }
        lemma_root_path_unique(v, next, t1, t2);
        assert(p1 =~= seq![k] + t1);
        assert(p2 =~= seq![k] + t2);
    }
}

/// The path up from a node is its root path: the node, then the path up from its parent, or the
/// node alone when it has no parent.
pub proof fn lemma_ancestry_step(t: LayoutTree, k: u64)
    requires
        t.wf(),
        t.view().dom().contains(k),
    ensures
        is_root_path(t.view(), k, t.spec_ancestry(k)),
        t.view()[k].1 is None ==> t.spec_ancestry(k) == seq![k],
        t.view()[k].1 is Some ==> t.spec_ancestry(k) == seq![k] + t.spec_ancestry(
            slot_key(t.view()[k].1->0),
        ),
{
    lemma_ancestry_is_root_path(tree_links(t.links), t.rank@, k);
}

/// Adding `child` to `parent` leaves the path up from `parent` as it was, and the path up from
/// `child` becomes `child` followed by that path.
pub proof fn lemma_added_child_path(before: LayoutTree, after: LayoutTree, parent: u64, child: u64)
    requires
        before.wf(),
        after.wf(),
        before.view().dom().contains(slot_key(parent)),
        before.view().dom().contains(slot_key(child)),
        !before.spec_ancestry(slot_key(parent)).contains(slot_key(child)),
        after.view() == before.view().insert(
            slot_key(child),
            (before.view()[slot_key(child)].0, Some(parent)),
        ).insert(
            slot_key(parent),
            (before.view()[slot_key(parent)].0.push(child), before.view()[slot_key(parent)].1),
        ),
    ensures
        after.spec_ancestry(slot_key(parent)) == before.spec_ancestry(slot_key(parent)),
        after.spec_ancestry(slot_key(child)) == seq![slot_key(child)] + before.spec_ancestry(
            slot_key(parent),
        ),
{
    let v = before.view();
    let v2 = after.view();
    let pk = slot_key(parent);
    let ck = slot_key(child);
    let old_path = before.spec_ancestry(pk);
    lemma_ancestry_step(before, pk);
    lemma_ancestry_step(after, pk);
    lemma_ancestry_step(after, ck);
    assert(old_path[0] == pk);
    assert(is_root_path(v2, pk, old_path)) by {
        assert forall|i: int| 0 <= i < old_path.len() implies v2.dom().contains(
            #[trigger] old_path[i],
        ) by {
            assert(v.dom().contains(old_path[i]));
        }
        assert forall|i: int| 0 <= i < old_path.len() - 1 implies (#[trigger] v2[old_path[i]]).1
            is Some && slot_key(v2[old_path[i]].1->0) == old_path[i + 1] by {
            assert(old_path[i] != ck);
            assert(v2[old_path[i]].1 == v[old_path[i]].1);
        }
        assert(old_path.last() != ck) by {
            assert(old_path[old_path.len() - 1] == old_path.last());
        }
        assert(v2[old_path.last()].1 == v[old_path.last()].1);
    }
    lemma_root_path_unique(v2, pk, after.spec_ancestry(pk), old_path);
}

/// Along the path up from a node, each node ranks above the ones after it.
proof fn lemma_ancestry_ranks(v: Map<u64, (Seq<u64>, Option<u64>)>, rank: Map<u64, nat>, k: u64)
    ensures
        forall|i: int, j: int|
            0 <= i < j < ancestry_of(v, rank, k).len() ==> rank[#[trigger] ancestry_of(
                v,
                rank,
                k,
            )[i]] > rank[#[trigger] ancestry_of(v, rank, k)[j]],
    decreases rank[k],
{
    let path = ancestry_of(v, rank, k);
    if v[k].1 is Some && rank[slot_key(v[k].1->0)] < rank[k] {
        let p = slot_key(v[k].1->0);
        let rest = ancestry_of(v, rank, p);
        lemma_ancestry_ranks(v, rank, p);
        lemma_ancestry_ranks_head(v, rank, p);
        assert forall|i: int, j: int| 0 <= i < j < path.len() implies rank[#[trigger] path[i]]
            > rank[#[trigger] path[j]] by {
            assert(path == seq![k] + rest);
            if i == 0 {
                assert(path[j] == rest[j - 1]);
                assert(rank[rest[j - 1]] <= rank[p]);
            } else {
                assert(path[i] == rest[i - 1]);
                assert(path[j] == rest[j - 1]);
            }
        }
    }
}

/// Every node on the path up from `k` ranks no higher than `k`.
proof fn lemma_ancestry_ranks_head(v: Map<u64, (Seq<u64>, Option<u64>)>, rank: Map<u64, nat>, k: u64)
    ensures
        forall|j: int|
            0 <= j < ancestry_of(v, rank, k).len() ==> rank[#[trigger] ancestry_of(v, rank, k)[j]]
                <= rank[k],
    decreases rank[k],
{
    let path = ancestry_of(v, rank, k);
    if v[k].1 is Some && rank[slot_key(v[k].1->0)] < rank[k] {
        let p = slot_key(v[k].1->0);
        let rest = ancestry_of(v, rank, p);
        lemma_ancestry_ranks_head(v, rank, p);
        assert forall|j: int| 0 <= j < path.len() implies rank[#[trigger] path[j]] <= rank[k] by {
            assert(path == seq![k] + rest);
            if j > 0 {
                assert(path[j] == rest[j - 1]);
            }
        }
    }
}

/// The parent links never loop: the path up from a node never visits a node twice, so it is no
/// longer than the tree has nodes.
pub proof fn lemma_ancestry_no_cycle(t: LayoutTree, k: u64)
    requires
        t.wf(),
        t.view().dom().contains(k),
    ensures
        t.spec_ancestry(k).no_duplicates(),
        t.spec_ancestry(k).len() <= t.view().dom().len(),
{
    let path = t.spec_ancestry(k);
    lemma_ancestry_ranks(tree_links(t.links), t.rank@, k);
    lemma_ancestry_is_root_path(tree_links(t.links), t.rank@, k);
    assert forall|i: int, j: int| 0 <= i < path.len() && 0 <= j < path.len() && i != j implies path[i]
        != path[j] by {
        if i < j {
            assert(t.rank@[path[i]] > t.rank@[path[j]]);
        } else {
            assert(t.rank@[path[j]] > t.rank@[path[i]]);
        }
    }
    path.unique_seq_to_set();
    assert(path.to_set().subset_of(t.view().dom())) by {
        assert forall|x: u64| path.to_set().contains(x) implies t.view().dom().contains(x) by {
            let i = choose|i: int| 0 <= i < path.len() && path[i] == x;
            assert(t.view().dom().contains(path[i]));
        }
    }
    vstd::set_lib::lemma_len_subset(path.to_set(), t.view().dom());
}

} // verus!
