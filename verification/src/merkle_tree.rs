//! A binary hash tree over field elements. Level 0 is the leaf vector; each
//! following level pairs adjacent elements left to right, hashing the last
//! element with itself when a level has odd length, until one element is
//! left: the root. A per-leaf sibling path, read leaves-to-root together
//! with the parity trace of the leaf index, recomputes the root.

use crate::field::{fe_values, modulus_int, FieldElement};
use crate::hash_functions::{poseidon_digest, HashFunction, PoseidonHash};
use vstd::arithmetic::div_mod::{
    lemma_fundamental_div_mod, lemma_div_pos_is_pos, lemma_multiply_divide_lt,
};
use vstd::prelude::*;

verus! {

/// The parent of two adjacent nodes: the production hash of their values,
/// in element order, reduced into the field.
pub open spec fn merkle_parent(a: int, b: int) -> int {
    poseidon_digest(a, b) % modulus_int()
}

/// One level up: adjacent pairs hashed left to right, the last element
/// paired with itself when the level has odd length.
pub open spec fn next_level_spec(level: Seq<int>) -> Seq<int> {
    Seq::new(
        ((level.len() + 1) / 2) as nat,
        |j: int|
            if 2 * j + 1 < level.len() {
                merkle_parent(level[2 * j], level[2 * j + 1])
            } else {
                merkle_parent(level[2 * j], level[2 * j])
            },
    )
}

/// The sibling of position `idx` within one level: the right neighbour for
/// an even index (the element itself when it has no right neighbour), the
/// left neighbour for an odd one.
pub open spec fn sibling_of(level: Seq<int>, idx: int) -> int {
    if idx % 2 == 0 {
        if idx + 1 < level.len() {
            level[idx + 1]
        } else {
            level[idx]
        }
    } else {
        level[idx - 1]
    }
}

/// The position a leaf index occupies at level `i`: halved once per level.
pub open spec fn idx_at(index: int, i: nat) -> int
    decreases i,
{
    if i == 0 {
        index
    } else {
        idx_at(index, (i - 1) as nat) / 2
    }
}

/// Root recomputation from a leaf value and its sibling path: hash with the
/// sibling on the side the parity of the running index dictates, halve the
/// index, continue up the path.
pub open spec fn recompute_root(current: int, idx: int, path: Seq<int>) -> int
    decreases path.len(),
{
    if path.len() == 0 {
        current
    } else {
        let next = if idx % 2 == 0 {
            merkle_parent(current, path[0])
        } else {
            merkle_parent(path[0], current)
        };
        recompute_root(next, idx / 2, path.skip(1))
    }
}

/// The tree: the leaf vector, every level (level 0 = leaves), and the root.
pub struct MerkleTree {
    pub leaves: Vec<FieldElement>,
    pub levels: Vec<Vec<FieldElement>>,
    pub root: FieldElement,
}

impl MerkleTree {
    /// Shape invariant: level 0 carries the leaf values, every later level
    /// is the pairwise hash of the one below, every level but the last has
    /// at least two elements, the last has exactly one, and the root is
    /// that element.
    pub open spec fn wf(self) -> bool {
        &&& self.leaves@.len() >= 1
        &&& self.levels@.len() >= 1
        &&& fe_values(self.levels@[0]@) == fe_values(self.leaves@)
        &&& (forall|i: int|
            1 <= i < self.levels@.len() ==> fe_values(#[trigger] self.levels@[i]@)
                == next_level_spec(fe_values(self.levels@[i - 1]@)))
        &&& (forall|i: int|
            0 <= i < self.levels@.len() - 1 ==> (#[trigger] self.levels@[i]@).len() > 1)
        &&& self.levels@[self.levels@.len() - 1]@.len() == 1
        &&& self.root.as_int() == self.levels@[self.levels@.len() - 1]@[0].as_int()
        &&& (forall|i: int, j: int|
            0 <= i < self.levels@.len() && 0 <= j < self.levels@[i]@.len()
                ==> (#[trigger] self.levels@[i]@[j]).inv())
        &&& (forall|i: int| 0 <= i < self.leaves@.len() ==> (#[trigger] self.leaves@[i]).inv())
        &&& self.root.inv()
    }

    /// Builds the tree bottom-up with the production hash; a single-leaf
    /// tree has that leaf as its root.
    pub fn new(leaves: Vec<FieldElement>) -> (r: MerkleTree)
        requires
            1 <= leaves@.len() < usize::MAX,
            forall|i: int| 0 <= i < leaves@.len() ==> (#[trigger] leaves@[i]).inv(),
        ensures
            r.wf(),
            fe_values(r.leaves@) == fe_values(leaves@),
    {
        let hasher = PoseidonHash::new();
        let first = dup_elements(&leaves);
        let mut levels: Vec<Vec<FieldElement>> = Vec::new();
        levels.push(first);
        proof {
            assert(fe_values(levels@[0]@) =~= fe_values(leaves@));
        }
        while levels[levels.len() - 1].len() > 1
            invariant
                1 <= leaves@.len() < usize::MAX,
                forall|i: int| 0 <= i < leaves@.len() ==> (#[trigger] leaves@[i]).inv(),
                levels@.len() >= 1,
                fe_values(levels@[0]@) == fe_values(leaves@),
                forall|i: int|
                    1 <= i < levels@.len() ==> fe_values(#[trigger] levels@[i]@)
                        == next_level_spec(fe_values(levels@[i - 1]@)),
                forall|i: int| 0 <= i < levels@.len() - 1 ==> (#[trigger] levels@[i]@).len() > 1,
                forall|i: int, j: int|
                    0 <= i < levels@.len() && 0 <= j < levels@[i]@.len()
                        ==> (#[trigger] levels@[i]@[j]).inv(),
                levels@[levels@.len() - 1]@.len() >= 1,
                levels@[levels@.len() - 1]@.len() < usize::MAX,
            decreases levels@[levels@.len() - 1]@.len(),
        {
            let cur_idx = levels.len() - 1;
            let next = build_next_level(&hasher, &levels[cur_idx]);
            proof {
                let n = levels@[cur_idx as int]@.len() as int;
                lemma_fundamental_div_mod(n + 1, 2);
                crate::digits::lemma_mod_range(n + 1, 2);
                lemma_multiply_divide_lt(n, 2, n);
            }
            levels.push(next);
        }
        let last_idx = levels.len() - 1;
        let root = levels[last_idx][0].dup();
        proof {
            assert(levels@[last_idx as int]@[0].inv());
        }
        MerkleTree { leaves, levels, root }
    }

    /// The root of the tree.
    pub fn get_root(&self) -> (r: FieldElement)
        requires
            self.wf(),
        ensures
            r.inv(),
            r.as_int() == self.root.as_int(),
    {
        self.root.dup()
    }

    /// The sibling path for a leaf index, in leaf-to-root order: at each
    /// level below the root, the sibling of the position the leaf occupies
    /// there; the position is halved between levels.
    pub fn get_proof(&self, index: usize) -> (path: Vec<FieldElement>)
        requires
            self.wf(),
            index < self.leaves@.len(),
        ensures
            path@.len() == self.levels@.len() - 1,
            forall|i: int|
                0 <= i < path@.len() ==> (#[trigger] path@[i]).inv() && path@[i].as_int()
                    == sibling_of(fe_values(self.levels@[i]@), idx_at(index as int, i as nat)),
    {
        let mut path: Vec<FieldElement> = Vec::new();
        let mut idx = index;
        let last = self.levels.len() - 1;
        let mut li: usize = 0;
        proof {
            self.lemma_idx_at_bound(index as int, 0);
        }
        while li < last
            invariant
                self.wf(),
                index < self.leaves@.len(),
                last == self.levels@.len() - 1,
                li <= last,
                idx as int == idx_at(index as int, li as nat),
                idx < self.levels@[li as int]@.len(),
                path@.len() == li,
                forall|i: int|
                    0 <= i < li ==> (#[trigger] path@[i]).inv() && path@[i].as_int()
                        == sibling_of(
                        fe_values(self.levels@[i]@),
                        idx_at(index as int, i as nat),
                    ),
            decreases last - li,
        {
            let level = &self.levels[li];
            let sib = if idx % 2 == 0 {
                if idx + 1 < level.len() {
                    level[idx + 1].dup()
                } else {
                    level[idx].dup()
                }
            } else {
                level[idx - 1].dup()
            };
            path.push(sib);
            proof {
                self.lemma_idx_at_bound(index as int, li + 1);
                assert(idx_at(index as int, (li + 1) as nat) == idx as int / 2);
            }
            idx = idx / 2;
            li += 1;
        }
        path
    }

    /// The position a leaf occupies at each level stays inside that level.
    pub proof fn lemma_idx_at_bound(self, index: int, li: int)
        requires
            self.wf(),
            0 <= index < self.leaves@.len(),
            0 <= li < self.levels@.len(),
        ensures
            0 <= idx_at(index, li as nat) < self.levels@[li]@.len(),
        decreases li,
    {
        if li == 0 {
            assert(self.levels@[0]@.len() == fe_values(self.levels@[0]@).len());
            assert(fe_values(self.leaves@).len() == self.leaves@.len());
        } else {
            self.lemma_idx_at_bound(index, li - 1);
            let prev = idx_at(index, (li - 1) as nat);
            let n = self.levels@[li - 1]@.len() as int;
            assert(fe_values(self.levels@[li]@) == next_level_spec(
                fe_values(self.levels@[li - 1]@),
            ));
            assert(fe_values(self.levels@[li]@).len() == self.levels@[li]@.len());
            assert(fe_values(self.levels@[li - 1]@).len() == n);
            assert(next_level_spec(fe_values(self.levels@[li - 1]@)).len() == (n + 1) / 2);
            assert(self.levels@[li]@.len() == (n + 1) / 2);
            assert(idx_at(index, li as nat) == prev / 2);
            lemma_fundamental_div_mod(n + 1, 2);
            crate::digits::lemma_mod_range(n + 1, 2);
            lemma_multiply_divide_lt(prev, 2, (n + 1) / 2);
            lemma_div_pos_is_pos(prev, 2);
        }
    }

    /// Law: the sibling path that `get_proof` derives for a leaf, hashed
    /// upward with the leaf on the side its index parity dictates at each
    /// level, recomputes exactly the tree's root.
    pub proof fn lemma_path_recomputes_root(self, index: int, path: Seq<int>)
        requires
            self.wf(),
            0 <= index < self.leaves@.len(),
            path.len() == self.levels@.len() - 1,
            forall|i: int|
                0 <= i < path.len() ==> #[trigger] path[i] == sibling_of(
                    fe_values(self.levels@[i]@),
                    idx_at(index, i as nat),
                ),
        ensures
            recompute_root(fe_values(self.leaves@)[index], index, path) == self.root.as_int(),
    {
        self.lemma_recompute_from(index, path, 0);
        assert(path.skip(0) =~= path);
        assert(idx_at(index, 0) == index);
        assert(fe_values(self.levels@[0]@)[index] == fe_values(self.leaves@)[index]);
    }

    /// Recomputation from any level upward reaches the root.
    proof fn lemma_recompute_from(self, index: int, path: Seq<int>, li: int)
        requires
            self.wf(),
            0 <= index < self.leaves@.len(),
            0 <= li < self.levels@.len(),
            path.len() == self.levels@.len() - 1,
            forall|i: int|
                0 <= i < path.len() ==> #[trigger] path[i] == sibling_of(
                    fe_values(self.levels@[i]@),
                    idx_at(index, i as nat),
                ),
        ensures
            recompute_root(
                fe_values(self.levels@[li]@)[idx_at(index, li as nat)],
                idx_at(index, li as nat),
                path.skip(li),
            ) == self.root.as_int(),
        decreases self.levels@.len() - li,
    {
        let idx = idx_at(index, li as nat);
        let lev = fe_values(self.levels@[li]@);
        self.lemma_idx_at_bound(index, li);
        if li == self.levels@.len() - 1 {
            assert(path.skip(li).len() == 0);
            assert(lev.len() == 1);
            assert(idx == 0);
            assert(lev[0] == self.levels@[li]@[0].as_int());
        } else {
            let nidx = idx / 2;
            let nlev = fe_values(self.levels@[li + 1]@);
            assert(nlev == next_level_spec(lev));
            assert(path.skip(li)[0] == path[li]);
            assert(path.skip(li).skip(1) =~= path.skip(li + 1));
            assert(idx_at(index, (li + 1) as nat) == nidx);
            lemma_fundamental_div_mod(idx, 2);
            crate::digits::lemma_mod_range(idx, 2);
            self.lemma_idx_at_bound(index, li + 1);
            let sib = sibling_of(lev, idx);
            if idx % 2 == 0 {
                assert(2 * nidx == idx);
                if idx + 1 < lev.len() {
                    assert(nlev[nidx] == merkle_parent(lev[idx], lev[idx + 1]));
                    assert(sib == lev[idx + 1]);
                } else {
                    assert(nlev[nidx] == merkle_parent(lev[idx], lev[idx]));
                    assert(sib == lev[idx]);
                }
                assert(nlev[nidx] == merkle_parent(lev[idx], sib));
            } else {
                assert(2 * nidx == idx - 1);
                assert(2 * nidx + 1 == idx);
                assert(nlev[nidx] == merkle_parent(lev[idx - 1], lev[idx]));
                assert(sib == lev[idx - 1]);
                assert(nlev[nidx] == merkle_parent(sib, lev[idx]));
            }
            self.lemma_recompute_from(index, path, li + 1);
        }
    }
}

/// A value-preserving copy of a vector of elements.
fn dup_elements(v: &Vec<FieldElement>) -> (r: Vec<FieldElement>)
    ensures
        r@.len() == v@.len(),
        forall|i: int|
            0 <= i < v@.len() ==> (#[trigger] r@[i]).as_int() == v@[i].as_int() && (v@[i].inv()
                ==> r@[i].inv()),
{
    let mut r: Vec<FieldElement> = Vec::new();
    let mut i: usize = 0;
    while i < v.len()
        invariant
            i <= v@.len(),
            r@.len() == i,
            forall|j: int|
                0 <= j < i ==> (#[trigger] r@[j]).as_int() == v@[j].as_int() && (v@[j].inv()
                    ==> r@[j].inv()),
        decreases v@.len() - i,
    {
        r.push(v[i].dup());
        i += 1;
    }
    r
}

/// One level up from a level of at least one element: adjacent pairs hashed
/// left to right, the odd tail hashed with itself.
fn build_next_level(hasher: &PoseidonHash, level: &Vec<FieldElement>) -> (next: Vec<FieldElement>)
    requires
        1 <= level@.len() < usize::MAX,
        forall|i: int| 0 <= i < level@.len() ==> (#[trigger] level@[i]).inv(),
    ensures
        next@.len() == (level@.len() + 1) / 2,
        fe_values(next@) == next_level_spec(fe_values(level@)),
        forall|i: int| 0 <= i < next@.len() ==> (#[trigger] next@[i]).inv(),
{
    let mut next: Vec<FieldElement> = Vec::new();
    let mut i: usize = 0;
    while i < level.len()
        invariant
            1 <= level@.len() < usize::MAX,
            forall|k: int| 0 <= k < level@.len() ==> (#[trigger] level@[k]).inv(),
            i % 2 == 0,
            i <= level@.len() + 1,
            2 * next@.len() == i,
            forall|j: int|
                0 <= j < next@.len() ==> (#[trigger] next@[j]).as_int() == next_level_spec(
                    fe_values(level@),
                )[j] && next@[j].inv(),
        decreases level@.len() + 2 - i,
    {
        let left = &level[i];
        let right = if i + 1 < level.len() {
            &level[i + 1]
        } else {
            &level[i]
        };
        let h = hasher.hash(left, right);
        next.push(h);
        i += 2;
    }
    proof {
        assert(next@.len() == (level@.len() + 1) / 2) by {
            lemma_fundamental_div_mod(level@.len() as int + 1, 2);
            crate::digits::lemma_mod_range(level@.len() as int + 1, 2);
        }
        assert(fe_values(next@) =~= next_level_spec(fe_values(level@)));
    }
    next
}

} // verus!
