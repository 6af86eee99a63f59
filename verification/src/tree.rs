//! The tree of note commitments.
//!
//! An append-only binary Merkle tree of fixed depth. Leaves are filled from the left; a place that
//! is not filled yet holds the hash of zero. An inner node is the hash of its children.
use vstd::arithmetic::div_mod::lemma_div_denominator;
use vstd::prelude::*;

use crate::field::{modulus, values, Fr};
use crate::poseidon::{
    collide, hash2, hash2_spec, in_field, lemma_hash2_fixes, lemma_hash_in_field,
};

verus! {

/// The number of levels below the root.
pub const TREE_DEPTH: usize = 32;

/// The number of leaves below a node at the given level.
pub open spec fn width(level: nat) -> nat
    decreases level,
{
    if level == 0 {
        1
    } else {
        2 * width((level - 1) as nat)
    }
}

/// The number of leaves that the tree has room for.
pub open spec fn capacity() -> nat {
    0x1_0000_0000
}

/// What a place holds that is not filled yet: the hash of zero.
pub open spec fn empty_leaf() -> nat {
    hash2_spec(0, 0)
}

/// The node at a level, counted from the leaves, and at a place within it.
pub open spec fn node(leaves: Seq<nat>, level: nat, index: nat) -> nat
    decreases level,
{
    if level == 0 {
        if index < leaves.len() {
            leaves[index as int]
        } else {
            empty_leaf()
        }
    } else {
        hash2_spec(
            node(leaves, (level - 1) as nat, 2 * index),
            node(leaves, (level - 1) as nat, 2 * index + 1),
        )
    }
}

/// The root over the given leaves.
pub open spec fn root_spec(leaves: Seq<nat>) -> nat {
    node(leaves, TREE_DEPTH as nat, 0)
}

/// A node with nothing filled below it.
pub open spec fn empty_node(level: nat) -> nat
    decreases level,
{
    if level == 0 {
        empty_leaf()
    } else {
        hash2_spec(empty_node((level - 1) as nat), empty_node((level - 1) as nat))
    }
}

/// The node reached after `levels` steps from a leaf along a path. At each step the sibling stands
/// on the left where the direction is set, else on the right.
pub open spec fn climb(
    siblings: Seq<nat>,
    directions: Seq<bool>,
    leaf: nat,
    levels: nat,
) -> nat
    decreases levels,
{
    if levels == 0 {
        leaf
    } else {
        let below = climb(siblings, directions, leaf, (levels - 1) as nat);
        if directions[levels - 1] {
            hash2_spec(siblings[levels - 1], below)
        } else {
            hash2_spec(below, siblings[levels - 1])
        }
    }
}

/// The place of the other child of the parent.
pub open spec fn sibling_index(index: nat) -> nat {
    if index % 2 == 1 {
        (index - 1) as nat
    } else {
        index + 1
    }
}

/// Whether siblings and directions are those of the leaf at the given place.
pub open spec fn is_path(
    leaves: Seq<nat>,
    index: nat,
    siblings: Seq<nat>,
    directions: Seq<bool>,
) -> bool {
    &&& siblings.len() == TREE_DEPTH
    &&& directions.len() == TREE_DEPTH
    &&& forall|k: int|
        #![trigger siblings[k]]
        #![trigger directions[k]]
        0 <= k < TREE_DEPTH ==> {
            let at = index / width(k as nat);
            siblings[k] == node(leaves, k as nat, sibling_index(at)) && directions[k] == (at % 2
                == 1)
        }
}

/// The siblings of the leaf at the given place.
pub open spec fn path_siblings(leaves: Seq<nat>, index: nat) -> Seq<nat> {
    Seq::new(
        TREE_DEPTH as nat,
        |k: int| node(leaves, k as nat, sibling_index(index / width(k as nat))),
    )
}

/// The directions of the leaf at the given place.
pub open spec fn path_directions(index: nat) -> Seq<bool> {
    Seq::new(TREE_DEPTH as nat, |k: int| (index / width(k as nat)) % 2 == 1)
}

/// A leaf has one path.
pub proof fn lemma_path_unique(
    leaves: Seq<nat>,
    index: nat,
    siblings: Seq<nat>,
    directions: Seq<bool>,
)
    ensures
        is_path(leaves, index, siblings, directions) <==> siblings == path_siblings(leaves, index)
            && directions == path_directions(index),
{
    if is_path(leaves, index, siblings, directions) {
        assert(siblings =~= path_siblings(leaves, index));
        assert(directions =~= path_directions(index));
    }
}

/// Whether the path of the given place leads from a leaf to the root.
pub open spec fn included(leaves: Seq<nat>, index: nat, leaf: nat) -> bool {
    climb(path_siblings(leaves, index), path_directions(index), leaf, TREE_DEPTH as nat)
        == root_spec(leaves)
}

pub proof fn lemma_width_positive(level: nat)
    ensures
        width(level) > 0,
    decreases level,
{
    if level > 0 {
        lemma_width_positive((level - 1) as nat);
    }
}

pub proof fn lemma_width_of_root()
    ensures
        width(TREE_DEPTH as nat) == capacity(),
{
    reveal_with_fuel(width, 33);
}

/// The place of the parent is half the place of the child.
pub proof fn lemma_parent_index(index: nat, level: nat)
    ensures
        index / width(level + 1) == (index / width(level)) / 2,
{
    lemma_width_positive(level);
    lemma_div_denominator(index as int, width(level) as int, 2);
    assert(width(level + 1) == width(level) * 2);
}

/// Division by the width of a node.
proof fn lemma_div_width(n: nat, level: nat)
    ensures
        (n / width(level)) * width(level) <= n < (n / width(level) + 1) * width(level),
{
    lemma_width_positive(level);
    let w = width(level) as int;
    vstd::arithmetic::div_mod::lemma_fundamental_div_mod(n as int, w);
    vstd::arithmetic::div_mod::lemma_mod_bound(n as int, w);
    assert((n / width(level)) * width(level) == w * (n as int / w)) by (nonlinear_arith)
        requires
            w == width(level) as int,
    ;
    assert((n / width(level) + 1) * width(level) == w * (n as int / w) + w) by (nonlinear_arith)
        requires
            w == width(level) as int,
    ;
}

/// A node that starts at or after the last filled leaf is an empty node.
pub proof fn lemma_node_empty(leaves: Seq<nat>, level: nat, index: nat)
    requires
        index * width(level) >= leaves.len(),
    ensures
        node(leaves, level, index) == empty_node(level),
    decreases level,
{
    if level > 0 {
        let below = (level - 1) as nat;
        lemma_width_positive(below);
        let w = width(below);
        assert((2 * index) * w == index * (2 * w)) by (nonlinear_arith);
        assert((2 * index + 1) * w == index * (2 * w) + w) by (nonlinear_arith);
        lemma_node_empty(leaves, below, 2 * index);
        lemma_node_empty(leaves, below, 2 * index + 1);
    } else {
        assert(index * width(level) == index) by (nonlinear_arith)
            requires
                width(level) == 1,
        ;
    }
}

/// A node whose leaves are all filled never changes again.
pub proof fn law_filled_node_is_stable(leaves: Seq<nat>, leaf: nat, level: nat, index: nat)
    requires
        (index + 1) * width(level) <= leaves.len(),
    ensures
        node(leaves.push(leaf), level, index) == node(leaves, level, index),
    decreases level,
{
    if level > 0 {
        let below = (level - 1) as nat;
        lemma_width_positive(below);
        let w = width(below);
        assert((index + 1) * (2 * w) == (2 * index + 1 + 1) * w) by (nonlinear_arith);
        assert((2 * index + 1) * w <= (2 * index + 1 + 1) * w) by (nonlinear_arith);
        law_filled_node_is_stable(leaves, leaf, below, 2 * index);
        law_filled_node_is_stable(leaves, leaf, below, 2 * index + 1);
    } else {
        assert((index + 1) * width(level) == index + 1) by (nonlinear_arith)
            requires
                width(level) == 1,
        ;
    }
}

/// Every leaf is included at its place.
pub proof fn law_leaf_included(leaves: Seq<nat>, index: nat)
    requires
        leaves.len() <= capacity(),
        index < leaves.len(),
    ensures
        included(leaves, index, leaves[index as int]),
{
    let (siblings, directions) = (path_siblings(leaves, index), path_directions(index));
    lemma_path_unique(leaves, index, siblings, directions);
    law_path_leads_to_root(leaves, index, siblings, directions);
}

/// The path of a leaf leads to the root.
pub proof fn law_path_leads_to_root(
    leaves: Seq<nat>,
    index: nat,
    siblings: Seq<nat>,
    directions: Seq<bool>,
)
    requires
        leaves.len() <= capacity(),
        index < leaves.len(),
        is_path(leaves, index, siblings, directions),
    ensures
        climb(siblings, directions, leaves[index as int], TREE_DEPTH as nat) == root_spec(leaves),
{
    lemma_climb(leaves, index, siblings, directions, TREE_DEPTH as nat);
    lemma_width_of_root();
    lemma_div_width(index, TREE_DEPTH as nat);
    assert(index / width(TREE_DEPTH as nat) == 0) by (nonlinear_arith)
        requires
            width(TREE_DEPTH as nat) == 0x1_0000_0000nat,
            index < 0x1_0000_0000nat,
    ;
}

/// A place and its sibling are the two children of one parent.
proof fn lemma_siblings(at: nat)
    ensures
        at % 2 == 1 ==> at == 2 * (at / 2) + 1 && sibling_index(at) == 2 * (at / 2),
        at % 2 != 1 ==> at == 2 * (at / 2) && sibling_index(at) == 2 * (at / 2) + 1,
{
}

/// The path of a place, filled or not, leads through the nodes above it.
proof fn lemma_climb(
    leaves: Seq<nat>,
    index: nat,
    siblings: Seq<nat>,
    directions: Seq<bool>,
    levels: nat,
)
    requires
        is_path(leaves, index, siblings, directions),
        levels <= TREE_DEPTH,
    ensures
        climb(siblings, directions, node(leaves, 0, index), levels) == node(
            leaves,
            levels,
            index / width(levels),
        ),
    decreases levels,
{
    if levels == 0 {
        assert(index / width(levels) == index) by (nonlinear_arith)
            requires
                width(levels) == 1,
        ;
    } else {
        let k = (levels - 1) as nat;
        lemma_climb(leaves, index, siblings, directions, k);
        lemma_parent_index(index, k);
        let at = index / width(k);
        assert(siblings[k as int] == node(leaves, k, sibling_index(at)));
        assert(directions[k as int] == (at % 2 == 1));
        let parent = at / 2;
        lemma_siblings(at);
        assert(index / width(levels) == parent);
        assert(node(leaves, levels, parent) == hash2_spec(
            node(leaves, k, 2 * parent),
            node(leaves, k, 2 * parent + 1),
        ));
    }
}

/// Nodes are field elements where the leaves are.
pub proof fn lemma_node_in_field(leaves: Seq<nat>, level: nat, index: nat)
    requires
        in_field(leaves),
    ensures
        node(leaves, level, index) < modulus(),
    decreases level,
{
    if level == 0 {
        lemma_hash_in_field(0, 0, 0, 0);
    } else {
        lemma_hash_in_field(
            node(leaves, (level - 1) as nat, 2 * index),
            node(leaves, (level - 1) as nat, 2 * index + 1),
            0,
            0,
        );
    }
}

/// What a climb reaches is a field element.
pub proof fn lemma_climb_in_field(
    siblings: Seq<nat>,
    directions: Seq<bool>,
    leaf: nat,
    levels: nat,
)
    requires
        leaf < modulus(),
    ensures
        climb(siblings, directions, leaf, levels) < modulus(),
{
    if levels > 0 {
        let below = climb(siblings, directions, leaf, (levels - 1) as nat);
        lemma_hash_in_field(siblings[levels - 1], below, 0, 0);
        lemma_hash_in_field(below, siblings[levels - 1], 0, 0);
    }
}

/// The two nodes that are hashed at step `k` of a climb, the left one first.
pub open spec fn hashed_at(
    siblings: Seq<nat>,
    directions: Seq<bool>,
    leaf: nat,
    k: nat,
) -> Seq<nat> {
    let below = climb(siblings, directions, leaf, k);
    if directions[k as int] {
        seq![siblings[k as int], below]
    } else {
        seq![below, siblings[k as int]]
    }
}

/// Whether two climbs in the same directions hash different nodes to one at some step.
pub open spec fn climbs_collide(
    siblings1: Seq<nat>,
    siblings2: Seq<nat>,
    directions: Seq<bool>,
    leaf1: nat,
    leaf2: nat,
    levels: nat,
) -> bool {
    exists|k: nat|
        k < levels && collide(
            #[trigger] hashed_at(siblings1, directions, leaf1, k),
            hashed_at(siblings2, directions, leaf2, k),
        )
}

/// Climbs in the same directions that end at one node started at one leaf, and passed the same
/// siblings, unless they hash different nodes to one on the way.
pub proof fn law_root_fixes_path(
    siblings1: Seq<nat>,
    siblings2: Seq<nat>,
    directions: Seq<bool>,
    leaf1: nat,
    leaf2: nat,
    levels: nat,
)
    requires
        leaf1 < modulus(),
        leaf2 < modulus(),
        levels <= siblings1.len(),
        levels <= siblings2.len(),
        in_field(siblings1),
        in_field(siblings2),
        climb(siblings1, directions, leaf1, levels) == climb(
            siblings2,
            directions,
            leaf2,
            levels,
        ),
        !climbs_collide(siblings1, siblings2, directions, leaf1, leaf2, levels),
    ensures
        leaf1 == leaf2,
        forall|k: int| 0 <= k < levels ==> #[trigger] siblings1[k] == siblings2[k],
    decreases levels,
{
    if levels > 0 {
        let below = (levels - 1) as nat;
        let x = climb(siblings1, directions, leaf1, below);
        let y = climb(siblings2, directions, leaf2, below);
        lemma_climb_in_field(siblings1, directions, leaf1, below);
        lemma_climb_in_field(siblings2, directions, leaf2, below);
        let (a, b) = (siblings1[below as int], siblings2[below as int]);
        assert(!collide(
            hashed_at(siblings1, directions, leaf1, below),
            hashed_at(siblings2, directions, leaf2, below),
        ));
        assert(!climbs_collide(siblings1, siblings2, directions, leaf1, leaf2, below));
        if directions[below as int] {
            lemma_hash2_fixes(a, x, b, y);
        } else {
            lemma_hash2_fixes(x, a, y, b);
        }
        law_root_fixes_path(siblings1, siblings2, directions, leaf1, leaf2, below);
    }
}

/// The path of a place leads from another leaf than the one there to another root, unless the two
/// climbs hash different nodes to one on the way.
pub proof fn law_other_leaf_other_root(leaves: Seq<nat>, index: nat, leaf: nat)
    requires
        leaves.len() <= capacity(),
        index < leaves.len(),
        in_field(leaves),
        leaf < modulus(),
        leaf != leaves[index as int],
        !climbs_collide(
            path_siblings(leaves, index),
            path_siblings(leaves, index),
            path_directions(index),
            leaf,
            leaves[index as int],
            TREE_DEPTH as nat,
        ),
    ensures
        !included(leaves, index, leaf),
{
    let siblings = path_siblings(leaves, index);
    let directions = path_directions(index);
    law_leaf_included(leaves, index);
    lemma_path_in_field(leaves, index);
    if included(leaves, index, leaf) {
        law_root_fixes_path(
            siblings,
            siblings,
            directions,
            leaf,
            leaves[index as int],
            TREE_DEPTH as nat,
        );
    }
}

/// The siblings of a place are field elements where the leaves are.
pub proof fn lemma_path_in_field(leaves: Seq<nat>, index: nat)
    requires
        in_field(leaves),
    ensures
        in_field(path_siblings(leaves, index)),
{
    assert forall|k: int| 0 <= k < TREE_DEPTH implies #[trigger] path_siblings(leaves, index)[k]
        < modulus() by {
        lemma_node_in_field(leaves, k as nat, sibling_index(index / width(k as nat)));
    }
}

/// Appending a leaf changes the nodes above its place only.
proof fn lemma_append_elsewhere(leaves: Seq<nat>, leaf: nat, level: nat, index: nat)
    requires
        index != leaves.len() / width(level),
    ensures
        node(leaves.push(leaf), level, index) == node(leaves, level, index),
    decreases level,
{
    let n = leaves.len();
    if level == 0 {
        assert(n / width(level) == n) by (nonlinear_arith)
            requires
                width(level) == 1,
        ;
    } else {
        let below = (level - 1) as nat;
        lemma_parent_index(n, below);
        lemma_append_elsewhere(leaves, leaf, below, 2 * index);
        lemma_append_elsewhere(leaves, leaf, below, 2 * index + 1);
    }
}

/// Adding a leaf changes the root, unless the leaf is the hash of zero that stands for an empty
/// place, or different nodes above it have one hash.
pub proof fn law_append_changes_root(leaves: Seq<nat>, leaf: nat)
    requires
        leaves.len() < capacity(),
        in_field(leaves),
        leaf < modulus(),
        leaf != empty_leaf(),
        !climbs_collide(
            path_siblings(leaves, leaves.len()),
            path_siblings(leaves, leaves.len()),
            path_directions(leaves.len()),
            leaf,
            empty_leaf(),
            TREE_DEPTH as nat,
        ),
    ensures
        root_spec(leaves.push(leaf)) != root_spec(leaves),
{
    let n = leaves.len();
    let after = leaves.push(leaf);
    let directions = path_directions(n);
    let siblings = path_siblings(leaves, n);
    assert forall|k: int| 0 <= k < TREE_DEPTH implies #[trigger] path_siblings(after, n)[k]
        == siblings[k] by {
        let at = n / width(k as nat);
        assert(sibling_index(at) != at);
        lemma_append_elsewhere(leaves, leaf, k as nat, sibling_index(at));
    }
    assert(path_siblings(after, n) =~= siblings);
    lemma_path_unique(leaves, n, siblings, directions);
    lemma_path_unique(after, n, siblings, directions);
    lemma_climb(leaves, n, siblings, directions, TREE_DEPTH as nat);
    lemma_climb(after, n, siblings, directions, TREE_DEPTH as nat);
    lemma_width_of_root();
    assert(n / width(TREE_DEPTH as nat) == 0) by (nonlinear_arith)
        requires
            width(TREE_DEPTH as nat) == 0x1_0000_0000nat,
            n < 0x1_0000_0000nat,
    ;
    lemma_path_in_field(leaves, n);
    lemma_hash_in_field(0, 0, 0, 0);
    if root_spec(after) == root_spec(leaves) {
        law_root_fixes_path(
            siblings,
            siblings,
            directions,
            leaf,
            empty_leaf(),
            TREE_DEPTH as nat,
        );
    }
}

/// The empty node of every level, from the leaves to the root.
pub fn compute_empty_hashes() -> (empty: Vec<Fr>)
    ensures
        empty@.len() == TREE_DEPTH + 1,
        forall|k: int| 0 <= k <= TREE_DEPTH ==> (#[trigger] empty@[k])@ == empty_node(k as nat),
{
    let leaf = hash2(Fr::from(0), Fr::from(0));
    let mut empty: Vec<Fr> = vec![leaf];
    let mut i: usize = 1;
    while i <= TREE_DEPTH
        invariant
            1 <= i <= TREE_DEPTH + 1,
            empty@.len() == i,
            forall|k: int| 0 <= k < i ==> (#[trigger] empty@[k])@ == empty_node(k as nat),
        decreases TREE_DEPTH + 1 - i,
    {
        let next = hash2(empty[i - 1], empty[i - 1]);
        empty.push(next);
        i = i + 1;
    }
    empty
}

/// The way from a leaf to the root.
#[derive(Clone, Debug)]
pub struct MerklePath {
    /// The sibling at each level, from the leaf up.
    pub siblings: Vec<Fr>,
    /// For each level whether the node on the way is the right child.
    pub indices: Vec<bool>,
}

impl MerklePath {
    /// The root that the path leads to from a leaf.
    pub fn compute_root(&self, leaf: Fr) -> (root: Fr)
        requires
            self.siblings@.len() <= self.indices@.len(),
        ensures
            root@ == climb(
                values(self.siblings@),
                self.indices@,
                leaf@,
                self.siblings@.len(),
            ),
    {
        let mut current = leaf;
        let mut i: usize = 0;
        while i < self.siblings.len()
            invariant
                i <= self.siblings@.len() <= self.indices@.len(),
                current@ == climb(values(self.siblings@), self.indices@, leaf@, i as nat),
            decreases self.siblings@.len() - i,
        {
            assert(values(self.siblings@)[i as int] == self.siblings@[i as int]@);
            if self.indices[i] {
                current = hash2(self.siblings[i], current);
            } else {
                current = hash2(current, self.siblings[i]);
            }
            i = i + 1;
        }
        current
    }
}

/// The tree of note commitments.
pub struct IncrementalMerkleTree {
    /// The number of leaves.
    pub next_index: u64,
    /// At each level the last complete node that is a left child.
    frontier: Vec<Fr>,
    /// The empty node of each level.
    empty_hashes: Vec<Fr>,
    /// All leaves.
    leaves: Vec<Fr>,
}

impl View for IncrementalMerkleTree {
    type V = Seq<nat>;

    closed spec fn view(&self) -> Seq<nat> {
        values(self.leaves@)
    }
}

/// Of the first `count` places of a level, the last that is a left child.
spec fn last_left(count: nat) -> nat {
    (((count - 1) / 2) * 2) as nat
}

impl IncrementalMerkleTree {
    /// Whether the tree holds no more leaves than there is room for, and everything that is kept
    /// beside the leaves agrees with them.
    pub closed spec fn wf(&self) -> bool {
        &&& self.next_index == self@.len()
        &&& self@.len() <= capacity()
        &&& self.empty_hashes@.len() == TREE_DEPTH + 1
        &&& forall|k: int|
            0 <= k <= TREE_DEPTH ==> (#[trigger] self.empty_hashes@[k])@ == empty_node(k as nat)
        &&& self.frontier@.len() == TREE_DEPTH
        &&& forall|k: int|
            0 <= k < TREE_DEPTH ==> frontier_holds(
                self@,
                (#[trigger] self.frontier@[k])@,
                k as nat,
            )
    }

    /// A tree that is in order holds no more leaves than there is room for.
    pub proof fn lemma_fits(&self)
        requires
            self.wf(),
        ensures
            self@.len() <= capacity(),
    {
    }

    /// A tree without leaves.
    pub fn new() -> (tree: IncrementalMerkleTree)
        ensures
            tree.wf(),
            tree@ == Seq::<nat>::empty(),
    {
        let empty_hashes = compute_empty_hashes();
        let mut frontier: Vec<Fr> = Vec::new();
        let mut i: usize = 0;
        while i < TREE_DEPTH
            invariant
                i <= TREE_DEPTH,
                frontier@.len() == i,
            decreases TREE_DEPTH - i,
        {
            frontier.push(Fr::from(0));
            i = i + 1;
        }
        let tree = IncrementalMerkleTree {
            next_index: 0,
            frontier,
            empty_hashes,
            leaves: Vec::new(),
        };
        proof {
            assert(tree@ =~= Seq::<nat>::empty());
            assert forall|k: int| 0 <= k < TREE_DEPTH implies frontier_holds(
                tree@,
                (#[trigger] tree.frontier@[k])@,
                k as nat,
            ) by {
                lemma_width_positive(k as nat);
                assert(0nat / width(k as nat) == 0) by (nonlinear_arith)
                    requires
                        width(k as nat) > 0,
                ;
            }
        }
        tree
    }

    /// Appends a leaf and returns its place.
    pub fn append(&mut self, leaf: Fr) -> (index: u64)
        requires
            old(self).wf(),
            old(self)@.len() < capacity(),
        ensures
            final(self).wf(),
            final(self)@ == old(self)@.push(leaf@),
            index == old(self)@.len(),
    {
        let index: u64 = self.next_index;
        let ghost before = self@;
        let ghost n = before.len();
        let ghost after = before.push(leaf@);
        let ghost old_frontier = self.frontier@;
        self.leaves.push(leaf);
        assert(self@ =~= after);

        let mut current = leaf;
        let mut idx: u64 = index;
        let mut level: usize = 0;
        let mut stored = false;
        proof {
            assert((n + 1) == (idx as nat + 1) * width(0)) by {
                assert(width(0) == 1);
            }
            assert(n / 1 == n);
        }
        while level < TREE_DEPTH && !stored
            invariant
                level <= TREE_DEPTH,
                n == before.len(),
                n < capacity(),
                after == before.push(leaf@),
                self@ == after,
                self.next_index == index,
                index == n,
                self.empty_hashes@ == old(self).empty_hashes@,
                self.frontier@.len() == TREE_DEPTH,
                old_frontier.len() == TREE_DEPTH,
                forall|k: int|
                    0 <= k < TREE_DEPTH ==> frontier_holds(
                        before,
                        (#[trigger] old_frontier[k])@,
                        k as nat,
                    ),
                !stored ==> {
                    &&& self.frontier@ == old_frontier
                    &&& idx == n / width(level as nat)
                    &&& n + 1 == (idx + 1) * width(level as nat)
                    &&& current@ == node(after, level as nat, idx as nat)
                    &&& forall|k: int|
                        0 <= k < level ==> frontier_holds(
                            after,
                            (#[trigger] old_frontier[k])@,
                            k as nat,
                        )
                },
                stored ==> forall|k: int|
                    0 <= k < TREE_DEPTH ==> frontier_holds(
                        after,
                        (#[trigger] self.frontier@[k])@,
                        k as nat,
                    ),
            decreases TREE_DEPTH - level + (if stored {
                0int
            } else {
                1int
            }),
        {
            let ghost l = level as nat;
            let ghost w = width(l);
            proof {
                lemma_width_positive(l);
                assert((n + 1) / w == idx + 1) by (nonlinear_arith)
                    requires
                        n + 1 == (idx + 1) * w,
                        w > 0,
                ;
            }
            if idx % 2 == 0 {
                self.frontier.set(level, current);
                stored = true;
                proof {
                    assert forall|k: int| 0 <= k < TREE_DEPTH implies frontier_holds(
                        after,
                        (#[trigger] self.frontier@[k])@,
                        k as nat,
                    ) by {
                        if k == level {
                        } else if k < level {
                            assert(frontier_holds(after, old_frontier[k]@, k as nat));
                        } else {
                            assert(frontier_holds(before, old_frontier[k]@, k as nat));
                            lemma_frontier_unaffected(
                                before,
                                leaf@,
                                old_frontier[k]@,
                                l,
                                idx as nat,
                                k as nat,
                            );
                        }
                    }
                }
            } else {
                proof {
                    assert(frontier_holds(before, old_frontier[level as int]@, l));
                    assert(idx * w <= n) by (nonlinear_arith)
                        requires
                            n + 1 == (idx + 1) * w,
                            w > 0,
                    ;
                    law_filled_node_is_stable(before, leaf@, l, (idx - 1) as nat);
                    lemma_parent_index(n, l);
                    assert(n + 1 == (idx / 2 + 1) * (2 * w)) by (nonlinear_arith)
                        requires
                            n + 1 == (idx + 1) * w,
                            idx % 2 == 1,
                    ;
                    assert(2 * (idx as nat / 2) + 1 == idx);
                }
                current = hash2(self.frontier[level], current);
                idx = idx / 2;
                level = level + 1;
            }
        }
        self.next_index = self.next_index + 1;
        index
    }

    /// The root of the tree.
    pub fn root(&self) -> (root: Fr)
        requires
            self.wf(),
        ensures
            root@ == root_spec(self@),
    {
        let ghost all = self@;
        if self.next_index == 0 {
            proof {
                lemma_node_empty(all, TREE_DEPTH as nat, 0);
            }
            return self.empty_hashes[TREE_DEPTH];
        }
        let last: u64 = self.next_index - 1;
        let mut current = self.leaves[self.leaves.len() - 1];
        let mut idx: u64 = last;
        let mut level: usize = 0;
        proof {
            assert(width(0) == 1);
            assert(last as nat / 1 == last);
        }
        while level < TREE_DEPTH
            invariant
                level <= TREE_DEPTH,
                self.wf(),
                all == self@,
                last + 1 == all.len(),
                idx == last as nat / width(level as nat),
                current@ == node(all, level as nat, idx as nat),
            decreases TREE_DEPTH - level,
        {
            let ghost l = level as nat;
            let ghost w = width(l);
            proof {
                lemma_div_width(last as nat, l);
                lemma_div_width(all.len(), l);
                lemma_width_positive(l);
                lemma_parent_index(last as nat, l);
            }
            if idx % 2 == 0 {
                proof {
                    lemma_node_empty(all, l, (idx + 1) as nat);
                }
                current = hash2(current, self.empty_hashes[level]);
            } else {
                proof {
                    let c = all.len() / w;
                    assert(c == idx || c == idx + 1) by (nonlinear_arith)
                        requires
                            idx * w <= last < (idx + 1) * w,
                            c * w <= last + 1 < (c + 1) * w,
                            w > 0,
                    ;
                    assert(frontier_holds(all, self.frontier@[level as int]@, l));
                }
                current = hash2(self.frontier[level], current);
            }
            idx = idx / 2;
            level = level + 1;
        }
        proof {
            lemma_width_of_root();
            assert(last as nat / width(TREE_DEPTH as nat) == 0) by (nonlinear_arith)
                requires
                    width(TREE_DEPTH as nat) == 0x1_0000_0000nat,
                    last < 0x1_0000_0000nat,
            ;
        }
        current
    }

    /// The path of the leaf at the given place.
    pub fn merkle_path(&self, leaf_index: u64) -> (path: MerklePath)
        requires
            self.wf(),
            leaf_index < self@.len(),
        ensures
            is_path(self@, leaf_index as nat, values(path.siblings@), path.indices@),
            path.siblings@.len() == TREE_DEPTH,
    {
        let ghost all = self@;
        let mut siblings: Vec<Fr> = Vec::new();
        let mut indices: Vec<bool> = Vec::new();
        let mut current_level: Vec<Fr> = copy_elements(&self.leaves);
        let mut idx: usize = leaf_index as usize;
        let mut level: usize = 0;
        proof {
            assert(width(0) == 1);
            assert(leaf_index as nat / 1 == leaf_index);
            assert(self.leaves@.len() == all.len());
        }
        while level < TREE_DEPTH
            invariant
                level <= TREE_DEPTH,
                self.wf(),
                all == self@,
                idx == leaf_index as nat / width(level as nat),
                idx < current_level@.len(),
                current_level@.len() * width(level as nat) >= all.len(),
                forall|k: int|
                    0 <= k < current_level@.len() ==> (#[trigger] current_level@[k])@ == node(
                        all,
                        level as nat,
                        k as nat,
                    ),
                siblings@.len() == level,
                indices@.len() == level,
                forall|k: int|
                    #![trigger siblings@[k]]
                    #![trigger indices@[k]]
                    0 <= k < level ==> {
                        let at = leaf_index as nat / width(k as nat);
                        siblings@[k]@ == node(all, k as nat, sibling_index(at)) && indices@[k] == (
                        at % 2 == 1)
                    },
            decreases TREE_DEPTH - level,
        {
            let ghost l = level as nat;
            let ghost w = width(l);
            let len: usize = current_level.len();
            proof {
                lemma_parent_index(leaf_index as nat, l);
                lemma_node_empty(all, l, len as nat);
            }
            let is_right = idx % 2 == 1;
            indices.push(is_right);
            let sibling = if is_right {
                current_level[idx - 1]
            } else if len - idx > 1 {
                current_level[idx + 1]
            } else {
                self.empty_hashes[level]
            };
            siblings.push(sibling);

            let mut next_level: Vec<Fr> = Vec::new();
            let pairs: usize = len / 2 + len % 2;
            let mut i: usize = 0;
            while i < pairs
                invariant
                    level < TREE_DEPTH,
                    l == level,
                    self.wf(),
                    i <= pairs,
                    pairs == len / 2 + len % 2,
                    len == current_level@.len(),
                    next_level@.len() == i,
                    node(all, l, len as nat) == empty_node(l),
                    forall|k: int|
                        0 <= k < len ==> (#[trigger] current_level@[k])@ == node(all, l, k as nat),
                    forall|k: int|
                        0 <= k < i ==> (#[trigger] next_level@[k])@ == node(all, l + 1, k as nat),
                decreases pairs - i,
            {
                let left = current_level[2 * i];
                let right = if len - 2 * i > 1 {
                    current_level[2 * i + 1]
                } else {
                    self.empty_hashes[level]
                };
                next_level.push(hash2(left, right));
                i = i + 1;
            }
            proof {
                let next_len = next_level@.len();
                assert(next_len * (2 * w) >= len * w) by (nonlinear_arith)
                    requires
                        2 * next_len >= len,
                ;
            }
            current_level = next_level;
            idx = idx / 2;
            level = level + 1;
        }
        MerklePath { siblings, indices }
    }

    /// The number of leaves.
    pub fn len(&self) -> (n: u64)
        requires
            self.wf(),
        ensures
            n == self@.len(),
    {
        self.next_index
    }

    /// Whether the tree has no leaves.
    pub fn is_empty(&self) -> (r: bool)
        requires
            self.wf(),
        ensures
            r == (self@.len() == 0),
    {
        self.next_index == 0
    }

    /// All leaves, in order.
    pub fn leaves(&self) -> (leaves: Vec<Fr>)
        ensures
            values(leaves@) == self@,
    {
        copy_elements(&self.leaves)
    }
}

/// The elements of a vector, in a vector of their own.
pub fn copy_elements(v: &Vec<Fr>) -> (copy: Vec<Fr>)
    ensures
        copy@ == v@,
{
    let mut copy: Vec<Fr> = Vec::new();
    let mut i: usize = 0;
    while i < v.len()
        invariant
            i <= v@.len(),
            copy@ == v@.take(i as int),
        decreases v@.len() - i,
    {
        copy.push(v[i]);
        assert(v@.take(i as int).push(v@[i as int]) =~= v@.take(i + 1));
        i = i + 1;
    }
    assert(v@.take(v@.len() as int) =~= v@);
    copy
}

/// Whether a value is the last complete left child at a level, where there is one.
spec fn frontier_holds(leaves: Seq<nat>, value: nat, level: nat) -> bool {
    let count = leaves.len() / width(level);
    count >= 1 ==> value == node(leaves, level, last_left(count))
}

/// Above the level at which the climb from a new leaf ends, no node becomes complete.
proof fn lemma_frontier_unaffected(
    leaves: Seq<nat>,
    leaf: nat,
    value: nat,
    low: nat,
    idx: nat,
    high: nat,
)
    requires
        low < high,
        leaves.len() + 1 == (idx + 1) * width(low),
        idx % 2 == 0,
        frontier_holds(leaves, value, high),
    ensures
        frontier_holds(leaves.push(leaf), value, high),
{
    let n = leaves.len();
    let w = width(high);
    lemma_width_positive(high);
    lemma_width_positive(low);
    lemma_width_multiple(low, high);
    let m = choose|m: nat| w == #[trigger] (m * (2 * width(low)));
    let wl = width(low);
    // n + 1 is an odd multiple of the low width, so no multiple of the high one.
    assert((n + 1) % w != 0) by {
        if (n + 1) % w == 0 {
            let q = (n + 1) / w;
            vstd::arithmetic::div_mod::lemma_fundamental_div_mod((n + 1) as int, w as int);
            assert((idx + 1) * wl == (2 * (q * m)) * wl) by (nonlinear_arith)
                requires
                    n + 1 == (idx + 1) * wl,
                    n + 1 == w * q,
                    w == m * (2 * wl),
            ;
            assert(idx + 1 == 2 * (q * m)) by (nonlinear_arith)
                requires
                    (idx + 1) * wl == (2 * (q * m)) * wl,
                    wl > 0,
            ;
        }
    }
    let c = n / w;
    vstd::arithmetic::div_mod::lemma_fundamental_div_mod((n + 1) as int, w as int);
    vstd::arithmetic::div_mod::lemma_mod_bound((n + 1) as int, w as int);
    lemma_div_width(n, high);
    let c2 = (n + 1) / w;
    lemma_div_width(n + 1, high);
    assert(c2 * w != n + 1) by (nonlinear_arith)
        requires
            n + 1 == w * c2 + (n + 1) % w,
            (n + 1) % w != 0,
    ;
    assert(c2 == c) by (nonlinear_arith)
        requires
            c * w <= n < (c + 1) * w,
            c2 * w <= n,
            n + 1 < (c2 + 1) * w,
            w > 0,
    ;
    if c >= 1 {
        let e = last_left(c);
        assert((e + 1) * w <= c * w) by (nonlinear_arith)
            requires
                e + 1 <= c,
        ;
        law_filled_node_is_stable(leaves, leaf, high, e);
    }
}

/// The width of a level is a multiple of twice the width of any lower one.
proof fn lemma_width_multiple(low: nat, high: nat)
    requires
        low < high,
    ensures
        exists|m: nat| width(high) == #[trigger] (m * (2 * width(low))),
    decreases high,
{
    if high == low + 1 {
        assert(width(high) == 1 * (2 * width(low)));
    } else {
        lemma_width_multiple(low, (high - 1) as nat);
        let m = choose|m: nat| width((high - 1) as nat) == #[trigger] (m * (2 * width(low)));
        assert((2 * m) * (2 * width(low)) == 2 * (m * (2 * width(low)))) by (nonlinear_arith);
        assert(width(high) == (2 * m) * (2 * width(low)));
    }
}

/// A node is the hash of its two children, the left one first; at the bottom it is the leaf at its
/// place, or the hash of zero where there is none. The root is the node 32 levels up.
pub proof fn law_node_is_the_hash_of_its_children(leaves: Seq<nat>, level: nat, index: nat)
    ensures
        node(leaves, level + 1, index) == hash2_spec(
            node(leaves, level, 2 * index),
            node(leaves, level, 2 * index + 1),
        ),
        index < leaves.len() ==> node(leaves, 0, index) == leaves[index as int],
        index >= leaves.len() ==> node(leaves, 0, index) == hash2_spec(0, 0),
        root_spec(leaves) == node(leaves, 32, 0),
        capacity() == 0x1_0000_0000,
        TREE_DEPTH == 32,
{
}

/// A tree is what its leaves are: trees that agree on every leaf have one root, and a place that is
/// not filled counts as the hash of zero, so that filling places with it changes nothing.
pub proof fn law_unfilled_places_are_empty_leaves(leaves: Seq<nat>, level: nat, index: nat)
    ensures
        node(leaves.push(hash2_spec(0, 0)), level, index) == node(leaves, level, index),
    decreases level,
{
    if level > 0 {
        law_unfilled_places_are_empty_leaves(leaves, (level - 1) as nat, 2 * index);
        law_unfilled_places_are_empty_leaves(leaves, (level - 1) as nat, 2 * index + 1);
    }
}

/// A node without leaves below it depends on its level alone.
pub proof fn law_empty_node(level: nat)
    ensures
        empty_node(0) == hash2_spec(0, 0),
        empty_node(level + 1) == hash2_spec(empty_node(level), empty_node(level)),
        empty_node(level) == node(Seq::empty(), level, 0),
{
    lemma_width_positive(level);
    assert(0 * width(level) >= 0) by (nonlinear_arith);
    lemma_node_empty(Seq::empty(), level, 0);
}

/// A climb starts at the leaf, and each step hashes the sibling of its level on the side that the
/// direction says.
pub proof fn law_climb_step_by_step(
    siblings: Seq<nat>,
    directions: Seq<bool>,
    leaf: nat,
    k: nat,
)
    ensures
        climb(siblings, directions, leaf, 0) == leaf,
        directions[k as int] ==> climb(siblings, directions, leaf, k + 1) == hash2_spec(
            siblings[k as int],
            climb(siblings, directions, leaf, k),
        ),
        !directions[k as int] ==> climb(siblings, directions, leaf, k + 1) == hash2_spec(
            climb(siblings, directions, leaf, k),
            siblings[k as int],
        ),
{
}

/// The path of a place has at each level the other child of the same parent, on the left exactly
/// where the place itself is on the right.
pub proof fn law_path_has_the_other_children(leaves: Seq<nat>, index: nat, k: nat)
    requires
        k < 32,
    ensures
        ({
            let at = index / width(k);
            &&& path_siblings(leaves, index).len() == 32
            &&& path_directions(index).len() == 32
            &&& path_directions(index)[k as int] <==> at % 2 == 1
            &&& at % 2 == 1 ==> path_siblings(leaves, index)[k as int] == node(
                leaves,
                k,
                (at - 1) as nat,
            )
            &&& at % 2 == 0 ==> path_siblings(leaves, index)[k as int] == node(leaves, k, at + 1)
            &&& width(0) == 1
            &&& width(k + 1) == 2 * width(k)
            &&& included(leaves, index, leaves[index as int]) <==> climb(
                path_siblings(leaves, index),
                path_directions(index),
                leaves[index as int],
                32,
            ) == node(leaves, 32, 0)
        }),
{
}

} // verus!
