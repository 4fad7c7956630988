//! Binary hash trees over an ordered list of digests, with inclusion proofs.
//!
//! A level is reduced to its parent level by hashing neighbours pairwise,
//! left before right; the last node of an odd level is paired with itself.
//! Proofs are checked by joining each step in lexicographic order instead,
//! so a proof replays to the root only along a path whose pairs already
//! stand in that order.

use crate::digest::fingerprint_of_text;
use crate::digest::fingerprint_text;
use crate::text::copy_strings;
use crate::text::text_equal;
use crate::text::text_less;
use crate::text::text_lt;
use crate::text::texts;
use vstd::prelude::*;

verus! {

/// The digest of two nodes joined in the given order: the fingerprint of the
/// left text followed directly by the right one.
pub open spec fn join_hash(left: Seq<char>, right: Seq<char>) -> Seq<char> {
    fingerprint_text(left + right)
}

/// The right-hand partner of the node at the even position `left`: its
/// neighbour, or the node itself where it is the last of an odd level.
pub open spec fn partner(level: Seq<Seq<char>>, left: int) -> Seq<char> {
    if left + 1 < level.len() {
        level[left + 1]
    } else {
        level[left]
    }
}

/// The level above `level`: one node for each pair, taken left to right.
pub open spec fn parent_level(level: Seq<Seq<char>>) -> Seq<Seq<char>> {
    Seq::new(
        ((level.len() + 1) / 2) as nat,
        |i: int| join_hash(level[2 * i], partner(level, 2 * i)),
    )
}

/// The root over `leaves`: the empty text for no leaves, the leaf itself for
/// one, and otherwise the root of the level above.
pub open spec fn merkle_root(leaves: Seq<Seq<char>>) -> Seq<char>
    decreases leaves.len(),
{
    if leaves.len() == 0 {
        Seq::empty()
    } else if leaves.len() == 1 {
        leaves[0]
    } else {
        merkle_root(parent_level(leaves))
    }
}

/// Every node of the tree over `leaves`, level by level from the leaves up
/// to the root.
pub open spec fn merkle_nodes(leaves: Seq<Seq<char>>) -> Seq<Seq<char>>
    decreases leaves.len(),
{
    if leaves.len() <= 1 {
        leaves
    } else {
        leaves + merkle_nodes(parent_level(leaves))
    }
}

/// What a proof records for the node at `index` of `level`: the left
/// neighbour of a right child, the right neighbour of a left child, and
/// nothing for the unpaired last node of an odd level.
pub open spec fn sibling_step(level: Seq<Seq<char>>, index: int) -> Seq<Seq<char>> {
    if index % 2 == 1 {
        seq![level[index - 1]]
    } else if index + 1 < level.len() {
        seq![level[index + 1]]
    } else {
        Seq::empty()
    }
}

/// The inclusion proof for the node at `index` of `level`: the sibling steps
/// from that level up to the one below the root.
pub open spec fn proof_path(level: Seq<Seq<char>>, index: int) -> Seq<Seq<char>>
    decreases level.len(),
{
    if level.len() <= 1 {
        Seq::empty()
    } else {
        sibling_step(level, index) + proof_path(parent_level(level), index / 2)
    }
}

/// The digest of two nodes joined in lexicographic order, the smaller text
/// first.
pub open spec fn sorted_join(a: Seq<char>, b: Seq<char>) -> Seq<char> {
    if text_lt(a, b) {
        join_hash(a, b)
    } else {
        join_hash(b, a)
    }
}

/// The digest reached from `start` by joining it with each step of `proof`
/// in turn, each time in lexicographic order.
pub open spec fn replay(start: Seq<char>, proof: Seq<Seq<char>>) -> Seq<char>
    decreases proof.len(),
{
    if proof.len() == 0 {
        start
    } else {
        replay(sorted_join(start, proof[0]), proof.drop_first())
    }
}

/// Along the path from `index` up to the root every node has a distinct
/// partner, and each pair already stands in lexicographic order (or holds
/// the same text twice).
pub open spec fn path_in_order(level: Seq<Seq<char>>, index: int) -> bool
    decreases level.len(),
{
    if level.len() <= 1 {
        true
    } else {
        &&& if index % 2 == 1 {
            !text_lt(level[index], level[index - 1])
        } else {
            &&& index + 1 < level.len()
            &&& text_lt(level[index], level[index + 1]) || level[index] == level[index + 1]
        }
        &&& path_in_order(parent_level(level), index / 2)
    }
}

/// Hashes two nodes joined left before right.
pub fn join(left: &str, right: &str) -> (parent: String)
    ensures
        parent@ == join_hash(left@, right@),
{
    let mut combined = String::new();
    combined.append(left);
    combined.append(right);
    fingerprint_of_text(combined.as_str())
}

/// Reduces a level to the level above it.
pub fn reduce_level(level: &Vec<String>) -> (up: Vec<String>)
    ensures
        texts(up@) == parent_level(texts(level@)),
{
    let pairs: usize = level.len() / 2 + level.len() % 2;
    let mut up: Vec<String> = Vec::new();
    let mut k: usize = 0;
    while k < pairs
        invariant
            pairs == (level.len() + 1) / 2,
            k <= pairs,
            up.len() == k,
            forall|j: int| 0 <= j < k ==> (#[trigger] up@[j])@ == parent_level(texts(level@))[j],
        decreases pairs - k,
    {
        let left: usize = 2 * k;
        let parent = if left + 1 < level.len() {
            join(level[left].as_str(), level[left + 1].as_str())
        } else {
            join(level[left].as_str(), level[left].as_str())
        };
        up.push(parent);
        k += 1;
    }
    up
}

/// A hash tree over an ordered list of leaf digests. It is built once and
/// not changed afterwards.
pub struct MerkleTree {
    pub root: String,
    leaves: Vec<String>,
    nodes: Vec<String>,
}

/// What a tree holds, as plain texts.
pub struct MerkleTreeView {
    /// The root digest; empty for a tree without leaves.
    pub root: Seq<char>,
    /// The leaf digests the tree was built from, in order.
    pub leaves: Seq<Seq<char>>,
    /// All node digests, level by level from the leaves up to the root.
    pub nodes: Seq<Seq<char>>,
}

impl View for MerkleTree {
    type V = MerkleTreeView;

    closed spec fn view(&self) -> MerkleTreeView {
        MerkleTreeView { root: self.root@, leaves: texts(self.leaves@), nodes: texts(self.nodes@) }
    }
}

impl MerkleTree {
    /// The root and the node list are those of the tree over the leaves.
    pub open spec fn wf(&self) -> bool {
        &&& self@.root == merkle_root(self@.leaves)
        &&& self@.nodes == merkle_nodes(self@.leaves)
    }

    /// Builds the tree over `hashes`, in the given order.
    pub fn new(hashes: Vec<String>) -> (tree: Self)
        ensures
            tree@.leaves == texts(hashes@),
            tree@.root == merkle_root(texts(hashes@)),
            tree@.nodes == merkle_nodes(texts(hashes@)),
            tree.wf(),
    {
        if hashes.len() == 0 {
            let tree = MerkleTree { root: String::new(), leaves: Vec::new(), nodes: Vec::new() };
            return tree;
        }
        let leaves = hashes;
        let mut nodes = copy_strings(&leaves);
        let mut current = copy_strings(&leaves);
        let ghost mut below: Seq<Seq<char>> = Seq::empty();
        while current.len() > 1
            invariant
                current.len() >= 1,
                merkle_root(texts(current@)) == merkle_root(texts(leaves@)),
                texts(nodes@) == below + texts(current@),
                merkle_nodes(texts(leaves@)) == below + merkle_nodes(texts(current@)),
            decreases current.len(),
        {
            let next = reduce_level(&current);
            proof {
                below = below + texts(current@);
            }
            let mut k: usize = 0;
            let ghost start = nodes@;
            while k < next.len()
                invariant
                    k <= next.len(),
                    nodes@ == start + next@.take(k as int),
                decreases next.len() - k,
            {
                nodes.push(next[k].clone());
                k += 1;
            }
            assert(below + merkle_nodes(texts(next@)) =~= merkle_nodes(texts(leaves@)));
            current = next;
        }
        let root = current[0].clone();
        MerkleTree { root, leaves, nodes }
    }

    /// The root digest.
    pub fn root(&self) -> (root: &String)
        ensures
            root@ == self@.root,
    {
        &self.root
    }

    /// The leaf digests the tree was built from, in order.
    pub fn leaves(&self) -> (leaves: &Vec<String>)
        ensures
            texts(leaves@) == self@.leaves,
    {
        &self.leaves
    }

    /// All node digests, level by level from the leaves up to the root.
    pub fn nodes(&self) -> (nodes: &Vec<String>)
        ensures
            texts(nodes@) == self@.nodes,
    {
        &self.nodes
    }

    /// The position of the first leaf equal to `leaf_hash`, if there is one.
    fn position(&self, leaf_hash: &str) -> (found: Option<usize>)
        ensures
            match found {
                Some(i) => self@.leaves.index_of_first(leaf_hash@) == Some(i as int),
                None => self@.leaves.index_of_first(leaf_hash@) is None,
            },
    {
        let mut i: usize = 0;
        while i < self.leaves.len()
            invariant
                i <= self.leaves.len(),
                forall|j: int| 0 <= j < i ==> self@.leaves[j] != leaf_hash@,
            decreases self.leaves.len() - i,
        {
            if text_equal(self.leaves[i].as_str(), leaf_hash) {
                proof {
                    assert(self@.leaves[i as int] == leaf_hash@);
                    self@.leaves.index_of_first_ensures(leaf_hash@);
                }
                return Some(i);
            }
            i += 1;
        }
        proof {
            self@.leaves.index_of_first_ensures(leaf_hash@);
        }
        None
    }

    /// The inclusion proof for the first leaf equal to `leaf_hash`: the
    /// sibling digests needed on the way up, lowest level first. `None`
    /// exactly when no leaf equals `leaf_hash`.
    pub fn get_proof(&self, leaf_hash: &str) -> (result: Option<Vec<String>>)
        ensures
            match self@.leaves.index_of_first(leaf_hash@) {
                Some(i) => result is Some && texts(result->0@) == proof_path(self@.leaves, i),
                None => result is None,
            },
            result is Some <==> self@.leaves.contains(leaf_hash@),
    {
        proof {
            self@.leaves.index_of_first_ensures(leaf_hash@);
        }
        let start = match self.position(leaf_hash) {
            Some(i) => i,
            None => {
                return None;
            },
        };
        let mut proof: Vec<String> = Vec::new();
        let mut level = copy_strings(&self.leaves);
        let mut index: usize = start;
        assert(texts(proof@) + proof_path(texts(level@), index as int) =~= proof_path(
            self@.leaves,
            start as int,
        ));
        while level.len() > 1
            invariant
                index < level.len(),
                proof_path(self@.leaves, start as int) == texts(proof@) + proof_path(
                    texts(level@),
                    index as int,
                ),
            decreases level.len(),
        {
            let ghost recorded = texts(proof@);
            if index % 2 == 0 {
                if index + 1 < level.len() {
                    proof.push(level[index + 1].clone());
                }
            } else {
                proof.push(level[index - 1].clone());
            }
            let up = reduce_level(&level);
            assert(recorded + (sibling_step(texts(level@), index as int) + proof_path(
                texts(up@),
                index as int / 2,
            )) =~= texts(proof@) + proof_path(texts(up@), index as int / 2));
            level = up;
            index = index / 2;
        }
        Some(proof)
    }

    /// Replays `proof` from `leaf`, joining each step in lexicographic
    /// order, and compares what is reached with `root`.
    pub fn verify_proof(leaf: &str, proof: &[String], root: &str) -> (ok: bool)
        ensures
            ok == (replay(leaf@, texts(proof@)) == root@),
    {
        let mut current = String::new();
        current.append(leaf);
        let mut i: usize = 0;
        assert(texts(proof@).skip(0) =~= texts(proof@));
        while i < proof.len()
            invariant
                i <= proof.len(),
                replay(leaf@, texts(proof@)) == replay(current@, texts(proof@).skip(i as int)),
            decreases proof.len() - i,
        {
            let sibling = &proof[i];
            let next = if text_less(current.as_str(), sibling.as_str()) {
                join(current.as_str(), sibling.as_str())
            } else {
                join(sibling.as_str(), current.as_str())
            };
            assert(texts(proof@).skip(i as int).drop_first() =~= texts(proof@).skip(i + 1));
            current = next;
            i += 1;
        }
        text_equal(current.as_str(), root)
    }
}

/// Replaying a proof made of two parts is replaying the second part from
/// where the first one ends.
pub proof fn lemma_replay_concat(start: Seq<char>, first: Seq<Seq<char>>, rest: Seq<Seq<char>>)
    ensures
        replay(start, first + rest) == replay(replay(start, first), rest),
    decreases first.len(),
{
    if first.len() > 0 {
        assert((first + rest).drop_first() =~= first.drop_first() + rest);
        lemma_replay_concat(sorted_join(start, first[0]), first.drop_first(), rest);
    }
}

/// A proof replays to the root along an ordered path: for the node at
/// `index` of `level`, where every pair on the way up already stands in
/// lexicographic order, replaying its proof from that node gives the root
/// over `level`.
pub proof fn lemma_ordered_path_replays_to_root(level: Seq<Seq<char>>, index: int)
    requires
        0 <= index < level.len(),
        path_in_order(level, index),
    ensures
        replay(level[index], proof_path(level, index)) == merkle_root(level),
    decreases level.len(),
{
    if level.len() > 1 {
        let up = parent_level(level);
        let step = sibling_step(level, index);
        lemma_replay_concat(level[index], step, proof_path(up, index / 2));
        assert(replay(level[index], step) == sorted_join(level[index], step[0])) by {
            reveal_with_fuel(replay, 2);
        }
        lemma_ordered_path_replays_to_root(up, index / 2);
    }
}

/// In a tree over two or more leaves no proof is empty.
pub proof fn lemma_proof_not_empty(level: Seq<Seq<char>>, index: int)
    requires
        0 <= index < level.len(),
        level.len() >= 2,
    ensures
        proof_path(level, index).len() >= 1,
    decreases level.len(),
{
    if level.len() > 2 {
        lemma_proof_not_empty(parent_level(level), index / 2);
    }
}

/// A tree over one leaf has that leaf as its root and as its only node, and
/// the proof for the leaf is empty.
pub proof fn lemma_single_leaf(leaf: Seq<char>)
    ensures
        merkle_root(seq![leaf]) == leaf,
        merkle_nodes(seq![leaf]) == seq![leaf],
        seq![leaf].index_of_first(leaf) == Some(0int),
        proof_path(seq![leaf], 0) == Seq::<Seq<char>>::empty(),
        replay(leaf, proof_path(seq![leaf], 0)) == merkle_root(seq![leaf]),
{
    seq![leaf].index_of_first_ensures(leaf);
}

} // verus!
