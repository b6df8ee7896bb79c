//! A binary Merkle tree of fixed height over field elements.
//!
//! The tree stands for a vector of `2^height` leaves. Only the nodes that differ from those of a
//! tree of default leaves are stored, one table per level; the node of a subtree of default
//! leaves is looked up in a list computed once.

use crate::field::hash2;
use crate::field::Fr;
use crate::field::Hasher;
use crate::table::table_get;
use crate::table::table_insert;
use crate::table::table_new;
use fnv::FnvHashMap;
use vstd::arithmetic::power2::lemma2_to64;
use vstd::arithmetic::power2::lemma_pow2_pos;
use vstd::arithmetic::power2::lemma_pow2_strictly_increases;
use vstd::arithmetic::power2::lemma_pow2_unfold;
use vstd::arithmetic::power2::pow2;
use vstd::prelude::*;

verus! {

/// The node at `idx` of the given level over a leaf vector: a leaf at level zero, above that the
/// hash of its two children.
pub open spec fn node_hash(leaves: Seq<Fr>, level: nat, idx: int) -> Fr
    decreases level,
{
    if level == 0 {
        leaves[idx]
    } else {
        hash2(
            node_hash(leaves, (level - 1) as nat, 2 * idx),
            node_hash(leaves, (level - 1) as nat, 2 * idx + 1),
        )
    }
}

/// The Merkle root of `2^height` leaves.
pub open spec fn merkle_root(leaves: Seq<Fr>, height: nat) -> Fr {
    node_hash(leaves, height, 0)
}

/// The vector of `2^height` leaves that are all the same.
pub open spec fn uniform_leaves(height: nat, leaf: Fr) -> Seq<Fr> {
    Seq::new(pow2(height), |i: int| leaf)
}

/// The node of a subtree of the given height whose leaves are all the same.
pub open spec fn uniform_node(leaf: Fr, level: nat) -> Fr
    decreases level,
{
    if level == 0 {
        leaf
    } else {
        hash2(uniform_node(leaf, (level - 1) as nat), uniform_node(leaf, (level - 1) as nat))
    }
}

/// The index of the ancestor of leaf `idx` at the given level.
pub open spec fn ancestor(idx: int, level: nat) -> int
    decreases level,
{
    if level == 0 {
        idx
    } else {
        ancestor(idx, (level - 1) as nat) / 2
    }
}

/// The index of the other child of a node's parent.
pub open spec fn sibling(idx: int) -> int {
    if idx % 2 == 0 {
        idx + 1
    } else {
        idx - 1
    }
}

/// The authentication path of leaf `idx`: for each level, from the leaves up, the sibling of
/// the leaf's ancestor at that level.
pub open spec fn path_of(leaves: Seq<Fr>, height: nat, idx: int) -> Seq<Fr> {
    Seq::new(height, |k: int| node_hash(leaves, k as nat, sibling(ancestor(idx, k as nat))))
}

/// The root that a leaf and an authentication path recombine to. The bits of `idx`, least
/// significant first, say on which side the path's element stands at each level.
pub open spec fn path_root(leaf: Fr, path: Seq<Fr>, idx: int) -> Fr
    decreases path.len(),
{
    if path.len() == 0 {
        leaf
    } else {
        let up = if idx % 2 == 0 {
            hash2(leaf, path[0])
        } else {
            hash2(path[0], leaf)
        };
        path_root(up, path.drop_first(), idx / 2)
    }
}

/// The elements of a path, each taken out of its one-element array.
pub open spec fn path_view(path: Seq<[Fr; 1]>) -> Seq<Fr> {
    Seq::new(path.len(), |i: int| path[i][0])
}

/// The ancestors of a leaf of a tree of height `height` lie inside their levels.
pub proof fn lemma_ancestor_range(idx: int, height: nat, level: nat)
    requires
        0 <= idx < pow2(height),
        level <= height,
    ensures
        0 <= ancestor(idx, level) < pow2((height - level) as nat),
    decreases level,
{
    if level > 0 {
        lemma_ancestor_range(idx, height, (level - 1) as nat);
        lemma_pow2_unfold((height - level + 1) as nat);
    }
}

/// All nodes of a level are the same where all leaves are the same.
pub proof fn lemma_uniform_nodes(height: nat, leaf: Fr, level: nat, idx: int)
    requires
        level <= height,
        0 <= idx < pow2((height - level) as nat),
    ensures
        node_hash(uniform_leaves(height, leaf), level, idx) == uniform_node(leaf, level),
    decreases level,
{
    if level == 0 {
    } else {
        lemma_pow2_unfold((height - level + 1) as nat);
        lemma_uniform_nodes(height, leaf, (level - 1) as nat, 2 * idx);
        lemma_uniform_nodes(height, leaf, (level - 1) as nat, 2 * idx + 1);
    }
}

/// A node changes with a leaf only if it is an ancestor of that leaf.
pub proof fn lemma_node_hash_update(
    leaves: Seq<Fr>,
    height: nat,
    idx: int,
    value: Fr,
    level: nat,
    j: int,
)
    requires
        leaves.len() == pow2(height),
        0 <= idx < pow2(height),
        level <= height,
        0 <= j < pow2((height - level) as nat),
        j != ancestor(idx, level),
    ensures
        node_hash(leaves.update(idx, value), level, j) == node_hash(leaves, level, j),
    decreases level,
{
    if level == 0 {
    } else {
        lemma_pow2_unfold((height - level + 1) as nat);
        lemma_node_hash_update(leaves, height, idx, value, (level - 1) as nat, 2 * j);
        lemma_node_hash_update(leaves, height, idx, value, (level - 1) as nat, 2 * j + 1);
    }
}

/// A leaf and the siblings of its ancestors from `level` upwards recombine to the root.
proof fn lemma_path_root_from(leaves: Seq<Fr>, height: nat, idx: int, level: nat)
    requires
        0 <= idx < pow2(height),
        level <= height,
    ensures
        path_root(
            node_hash(leaves, level, ancestor(idx, level)),
            path_of(leaves, height, idx).skip(level as int),
            ancestor(idx, level),
        ) == merkle_root(leaves, height),
    decreases height - level,
{
    let full = path_of(leaves, height, idx);
    let rest = full.skip(level as int);
    let a = ancestor(idx, level);
    lemma_ancestor_range(idx, height, level);
    if level == height {
        assert(pow2(0) == 1) by {
            lemma2_to64();
        }
        assert(rest.len() == 0);
    } else {
        lemma_path_root_from(leaves, height, idx, level + 1);
        assert(rest.drop_first() =~= full.skip(level as int + 1));
        assert(rest[0] == node_hash(leaves, level, sibling(a)));
        assert(ancestor(idx, level + 1) == a / 2);
    }
}

/// Proof soundness: a leaf and its authentication path recombine to the Merkle root.
pub proof fn lemma_path_root(leaves: Seq<Fr>, height: nat, idx: int)
    requires
        0 <= idx < pow2(height),
    ensures
        path_root(leaves[idx], path_of(leaves, height, idx), idx) == merkle_root(leaves, height),
{
    lemma_path_root_from(leaves, height, idx, 0);
    assert(path_of(leaves, height, idx).skip(0) =~= path_of(leaves, height, idx));
}

/// The authentication path of a leaf does not depend on the leaf's own value.
pub proof fn lemma_path_of_update(leaves: Seq<Fr>, height: nat, idx: int, value: Fr)
    requires
        leaves.len() == pow2(height),
        0 <= idx < pow2(height),
    ensures
        path_of(leaves.update(idx, value), height, idx) == path_of(leaves, height, idx),
{
    let a = path_of(leaves.update(idx, value), height, idx);
    let b = path_of(leaves, height, idx);
    assert forall|k: int| 0 <= k < height implies a[k] == b[k] by {
        lemma_ancestor_range(idx, height, k as nat);
        lemma_pow2_unfold((height - k) as nat);
        lemma_pow2_pos((height - k - 1) as nat);
        if k < height {
            lemma_ancestor_range(idx, height, (k + 1) as nat);
        }
        lemma_node_hash_update(leaves, height, idx, value, k as nat, sibling(ancestor(idx, k as nat)));
    }
    assert(a =~= b);
}

/// The indices of a tree of a height below 32 fit in a `u32`.
pub proof fn lemma_pow2_fits(e: nat)
    requires
        e < 32,
    ensures
        0 < pow2(e) <= 0x8000_0000,
{
    lemma2_to64();
    lemma_pow2_pos(e);
    if e < 31 {
        lemma_pow2_strictly_increases(e, 31);
    }
}

/// `2^e` as a machine integer.
pub fn pow2_u32(e: usize) -> (r: u32)
    requires
        e < 32,
    ensures
        r == pow2(e as nat),
{
    let mut r: u32 = 1;
    let mut i: usize = 0;
    proof {
        lemma2_to64();
    }
    while i < e
        invariant
            i <= e,
            e < 32,
            r == pow2(i as nat),
        decreases e - i,
    {
        proof {
            lemma_pow2_unfold((i + 1) as nat);
            lemma2_to64();
            if i + 1 < 31 {
                lemma_pow2_strictly_increases((i + 1) as nat, 31);
            }
        }
        r = r * 2;
        i = i + 1;
    }
    r
}

/// A leaf with its authentication path and the root that they belong to.
pub struct MerkleProof {
    pub root: Fr,
    pub leaf: Fr,
    pub path_elements: Vec<[Fr; 1]>,
}

/// A Merkle tree of fixed height. Its view is the vector of its `2^height` leaves.
pub struct Tree {
    height: usize,
    default_nodes: Vec<Fr>,
    data: Vec<FnvHashMap<u32, Fr>>,
}

impl View for Tree {
    type V = Seq<Fr>;

    closed spec fn view(&self) -> Seq<Fr> {
        Seq::new(pow2(self.height as nat), |i: int| self.stored(0, i))
    }
}

impl Tree {
    /// The node kept for `idx` at `level`: the stored one, or else the default of the level.
    closed spec fn stored(&self, level: int, idx: int) -> Fr {
        if self.data@[level]@.contains_key(idx as u32) {
            self.data@[level]@[idx as u32]
        } else {
            self.default_nodes@[level]
        }
    }

    /// The height of the tree.
    pub closed spec fn height_spec(&self) -> nat {
        self.height as nat
    }

    /// The leaf that the tree was made with.
    pub closed spec fn default_leaf(&self) -> Fr {
        self.default_nodes@[0]
    }

    /// Whether the tree has one table and one default node per level.
    closed spec fn shape(&self) -> bool {
        &&& self.height < 32
        &&& self.default_nodes@.len() == self.height + 1
        &&& self.data@.len() == self.height + 1
    }

    /// Every node kept is the node of the leaf vector.
    pub closed spec fn wf(&self) -> bool {
        &&& self.shape()
        &&& forall|l: int, j: int|
            0 <= l <= self.height && 0 <= j < pow2((self.height - l) as nat) ==> #[trigger] self.stored(
                l,
                j,
            ) == node_hash(self@, l as nat, j)
    }

    /// The root of the tree.
    pub open spec fn root_spec(&self) -> Fr {
        merkle_root(self@, self.height_spec())
    }

    /// A tree of the given height whose leaves all equal `default_leaf`.
    pub fn new(hasher: &Hasher, height: usize, default_leaf: Fr) -> (t: Tree)
        requires
            height < 32,
        ensures
            t.wf(),
            t.height_spec() == height,
            t.default_leaf() == default_leaf,
            t@ == uniform_leaves(height as nat, default_leaf),
    {
        let mut default_nodes: Vec<Fr> = Vec::new();
        default_nodes.push(default_leaf);
        let mut data: Vec<FnvHashMap<u32, Fr>> = Vec::new();
        data.push(table_new());
        let mut i: usize = 0;
        while i < height
            invariant
                i <= height,
                default_nodes@.len() == i + 1,
                data@.len() == i + 1,
                forall|l: int|
                    0 <= l <= i ==> #[trigger] default_nodes@[l] == uniform_node(
                        default_leaf,
                        l as nat,
                    ),
                forall|l: int| 0 <= l <= i ==> (#[trigger] data@[l])@.dom() == Set::<u32>::empty(),
            decreases height - i,
        {
            let d = default_nodes[i];
            let h = hasher.hash_pair(d, d);
            default_nodes.push(h);
            data.push(table_new());
            i = i + 1;
        }
        let t = Tree { height, default_nodes, data };
        proof {
            assert(t@ =~= uniform_leaves(height as nat, default_leaf));
            assert forall|l: int, j: int|
                0 <= l <= t.height && 0 <= j < pow2(
                    (t.height - l) as nat,
                ) implies #[trigger] t.stored(l, j) == node_hash(t@, l as nat, j) by {
                lemma_uniform_nodes(height as nat, default_leaf, l as nat, j);
            }
        }
        t
    }

    /// The number of leaves.
    pub fn max_leaf_num(&self) -> (n: u32)
        requires
            self.wf(),
        ensures
            n == pow2(self.height_spec()),
            n == self@.len(),
    {
        pow2_u32(self.height)
    }

    /// The height of the tree.
    pub fn height(&self) -> (h: usize)
        ensures
            h == self.height_spec(),
    {
        self.height
    }

    /// The node kept for `idx` at `level`.
    fn get_value(&self, level: usize, idx: u32) -> (r: Fr)
        requires
            self.shape(),
            level <= self.height,
        ensures
            r == self.stored(level as int, idx as int),
    {
        match table_get(&self.data[level], &idx) {
            Some(v) => *v,
            None => self.default_nodes[level],
        }
    }

    /// The leaf at `idx`.
    pub fn get_leaf(&self, idx: u32) -> (r: Fr)
        requires
            self.wf(),
            idx < pow2(self.height_spec()),
        ensures
            r == self@[idx as int],
    {
        self.get_value(0, idx)
    }

    /// The root of the tree.
    pub fn get_root(&self) -> (r: Fr)
        requires
            self.wf(),
        ensures
            r == self.root_spec(),
    {
        proof {
            lemma_pow2_pos(0);
            assert(self.stored(self.height as int, 0) == node_hash(self@, self.height as nat, 0));
        }
        self.get_value(self.height, 0)
    }

    /// Writes `value` at leaf `idx` and recomputes the nodes above it.
    pub fn set_value(&mut self, hasher: &Hasher, idx: u32, value: Fr)
        requires
            old(self).wf(),
            idx < pow2(old(self).height_spec()),
        ensures
            final(self).wf(),
            final(self).height_spec() == old(self).height_spec(),
            final(self).default_leaf() == old(self).default_leaf(),
            final(self)@ == old(self)@.update(idx as int, value),
    {
        let ghost before = *self;
        let ghost height = self.height as nat;
        let ghost leaves = self@.update(idx as int, value);
        if self.get_leaf(idx) == value {
            assert(self@ =~= leaves);
            return ;
        }
        proof {
            lemma2_to64();
            if height < 31 {
                lemma_pow2_strictly_increases(height, 31);
            }
        }
        table_insert(&mut self.data[0], idx, value);
        assert(self@ =~= leaves);
        let mut cur: u32 = idx;
        let mut i: usize = 1;
        while i <= self.height
            invariant
                1 <= i <= self.height + 1,
                self.shape(),
                self.height == height,
                before.wf(),
                before.height == height,
                idx < pow2(height),
                leaves == before@.update(idx as int, value),
                self.default_nodes == before.default_nodes,
                self@ == leaves,
                cur == ancestor(idx as int, (i - 1) as nat),
                forall|l: int, j: int|
                    0 <= l < i && 0 <= j < pow2((height - l) as nat) ==> #[trigger] self.stored(l, j)
                        == node_hash(leaves, l as nat, j),
                forall|l: int, j: int|
                    i <= l <= height && 0 <= j < pow2((height - l) as nat) ==> #[trigger] self.stored(
                        l,
                        j,
                    ) == before.stored(l, j),
            decreases self.height + 1 - i,
        {
            let ghost prev = *self;
            proof {
                lemma_ancestor_range(idx as int, height, (i - 1) as nat);
                lemma_ancestor_range(idx as int, height, i as nat);
                lemma_pow2_unfold((height - i + 1) as nat);
                lemma2_to64();
                if height - i + 1 < 32 {
                    lemma_pow2_strictly_increases((height - i + 1) as nat, 32);
                }
            }
            cur = cur / 2;
            let lhs = self.get_value(i - 1, cur * 2);
            let rhs = self.get_value(i - 1, cur * 2 + 1);
            let h = hasher.hash_pair(lhs, rhs);
            table_insert(&mut self.data[i], cur, h);
            proof {
                assert(self@ =~= leaves);
                assert forall|l: int, j: int|
                    0 <= l < i + 1 && 0 <= j < pow2((height - l) as nat) implies #[trigger] self.stored(
                    l,
                    j,
                ) == node_hash(leaves, l as nat, j) by {
                    if l < i {
                        assert(self.stored(l, j) == prev.stored(l, j));
                    } else if j == cur {
                        assert(prev.stored(i - 1, 2 * j) == node_hash(leaves, (i - 1) as nat, 2 * j));
                        assert(prev.stored(i - 1, 2 * j + 1) == node_hash(
                            leaves,
                            (i - 1) as nat,
                            2 * j + 1,
                        ));
                    } else {
                        assert(self.stored(l, j) == prev.stored(l, j));
                        assert(prev.stored(l, j) == before.stored(l, j));
                        lemma_node_hash_update(before@, height, idx as int, value, l as nat, j);
                    }
                }
                assert forall|l: int, j: int|
                    i + 1 <= l <= height && 0 <= j < pow2(
                        (height - l) as nat,
                    ) implies #[trigger] self.stored(l, j) == before.stored(l, j) by {
                    assert(self.stored(l, j) == prev.stored(l, j));
                }
            }
            i = i + 1;
        }
    }

    /// The leaf at `index` with its authentication path and the root.
    pub fn get_proof(&self, index: u32) -> (p: MerkleProof)
        requires
            self.wf(),
            index < pow2(self.height_spec()),
        ensures
            p.leaf == self@[index as int],
            p.root == self.root_spec(),
            path_view(p.path_elements@) == path_of(self@, self.height_spec(), index as int),
            path_root(p.leaf, path_view(p.path_elements@), index as int) == p.root,
    {
        let ghost height = self.height as nat;
        let leaf = self.get_leaf(index);
        let mut path_elements: Vec<[Fr; 1]> = Vec::new();
        let mut cur: u32 = index;
        let mut i: usize = 0;
        while i < self.height
            invariant
                i <= self.height,
                self.wf(),
                self.height == height,
                index < pow2(height),
                cur == ancestor(index as int, i as nat),
                path_elements@.len() == i,
                forall|k: int|
                    0 <= k < i ==> (#[trigger] path_elements@[k])[0] == node_hash(
                        self@,
                        k as nat,
                        sibling(ancestor(index as int, k as nat)),
                    ),
            decreases self.height - i,
        {
            proof {
                lemma_ancestor_range(index as int, height, i as nat);
                lemma_ancestor_range(index as int, height, (i + 1) as nat);
                lemma_pow2_unfold((height - i) as nat);
                lemma2_to64();
                if height - i < 32 {
                    lemma_pow2_strictly_increases((height - i) as nat, 32);
                }
            }
            let s: u32 = if cur % 2 == 1 {
                cur - 1
            } else {
                cur + 1
            };
            let v = self.get_value(i, s);
            assert(self.stored(i as int, s as int) == node_hash(self@, i as nat, s as int));
            path_elements.push([v]);
            cur = cur / 2;
            i = i + 1;
        }
        let root = self.get_root();
        proof {
            assert(path_view(path_elements@) =~= path_of(self@, height, index as int));
            lemma_path_root(self@, height, index as int);
        }
        MerkleProof { root, leaf, path_elements }
    }
}

/// The root of a tree of the given height whose leaves all equal `default_leaf`.
pub fn empty_tree_root(hasher: &Hasher, height: usize, default_leaf: Fr) -> (r: Fr)
    ensures
        r == uniform_node(default_leaf, height as nat),
        r == merkle_root(uniform_leaves(height as nat, default_leaf), height as nat),
{
    proof {
        lemma_pow2_pos(0);
        lemma_uniform_nodes(height as nat, default_leaf, height as nat, 0);
    }
    let mut r = default_leaf;
    let mut i: usize = 0;
    while i < height
        invariant
            i <= height,
            r == uniform_node(default_leaf, i as nat),
        decreases height - i,
    {
        r = hasher.hash_pair(r, r);
        i = i + 1;
    }
    r
}

/// The root that a leaf and an authentication path recombine to.
pub fn recover_root(hasher: &Hasher, leaf: Fr, path: &Vec<[Fr; 1]>, index: u32) -> (r: Fr)
    ensures
        r == path_root(leaf, path_view(path@), index as int),
{
    let ghost full = path_view(path@);
    let mut node = leaf;
    let mut cur: u32 = index;
    let mut i: usize = 0;
    assert(full.skip(0) =~= full);
    while i < path.len()
        invariant
            i <= path.len(),
            full == path_view(path@),
            path_root(node, full.skip(i as int), cur as int) == path_root(leaf, full, index as int),
        decreases path.len() - i,
    {
        let e = path[i][0];
        proof {
            assert(full.skip(i as int)[0] == e);
            assert(full.skip(i as int).drop_first() =~= full.skip(i + 1));
        }
        node = if cur % 2 == 0 {
            hasher.hash_pair(node, e)
        } else {
            hasher.hash_pair(e, node)
        };
        cur = cur / 2;
        i = i + 1;
    }
    assert(full.skip(i as int).len() == 0);
    node
}

} // verus!
