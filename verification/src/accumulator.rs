//! Merkle accumulators: binary trees over a list of hashes that are filled
//! from the left, with the placeholder for every empty subtree; and the
//! proofs that hashes stand at given places of one.

use crate::bytes::append;
use crate::hash::{accumulator_placeholder, HashDomain, HashValue};
use vstd::prelude::*;

verus! {

/// The most siblings in a proof.
pub const MAX_ACCUMULATOR_PROOF_DEPTH: usize = 63;

/// The hash of a node of an accumulator with the children `left` and
/// `right`.
pub open spec fn node_hash(domain: HashDomain, left: Seq<u8>, right: Seq<u8>) -> Seq<u8> {
    domain.hash_of(left + right)
}

/// The views of hashes.
pub open spec fn hash_views(hashes: Seq<HashValue>) -> Seq<Seq<u8>> {
    Seq::new(hashes.len(), |i: int| hashes[i]@)
}

/// The hash of the subtree over the leaves from `start` on, `width` leaves
/// wide: the placeholder where there is no such leaf, the leaf itself where
/// the subtree is one leaf wide, and else the hash of its two halves.
pub open spec fn subtree_root(domain: HashDomain, leaves: Seq<Seq<u8>>, start: int, width: int) -> Seq<
    u8,
>
    decreases width,
{
    if start >= leaves.len() || start < 0 {
        accumulator_placeholder()
    } else if width <= 1 {
        leaves[start]
    } else {
        node_hash(
            domain,
            subtree_root(domain, leaves, start, width / 2),
            subtree_root(domain, leaves, start + width / 2, width / 2),
        )
    }
}

/// The least power of two, from `width` on by doubling, that is no less than
/// `n`.
pub open spec fn capacity_from(n: int, width: int) -> int
    decreases
            if width < n {
                n - width
            } else {
                0
            },
{
    if width >= n || width <= 0 {
        width
    } else {
        capacity_from(n, 2 * width)
    }
}

/// The root hash of the accumulator over `leaves`: the placeholder for no
/// leaf, and else the hash of the least full tree that holds the leaves.
pub open spec fn accumulator_root(domain: HashDomain, leaves: Seq<Seq<u8>>) -> Seq<u8> {
    if leaves.len() == 0 {
        accumulator_placeholder()
    } else {
        subtree_root(domain, leaves, 0, capacity_from(leaves.len() as int, 1))
    }
}

/// Hashes two children into their parent.
pub fn hash_node(domain: HashDomain, left: &HashValue, right: &HashValue) -> (r: HashValue)
    ensures
        r@ == node_hash(domain, left@, right@),
{
    let mut both: Vec<u8> = Vec::new();
    append(&mut both, &left.hash);
    append(&mut both, &right.hash);
    domain.hash(both.as_slice())
}

fn subtree(domain: HashDomain, leaves: &[HashValue], start: u128, width: u128) -> (r: HashValue)
    requires
        start + width <= 2 * usize::MAX + 2,
    ensures
        r@ == subtree_root(domain, hash_views(leaves@), start as int, width as int),
    decreases width,
{
    if start >= leaves.len() as u128 {
        HashValue::accumulator_placeholder()
    } else if width <= 1 {
        leaves[start as usize]
    } else {
        let left = subtree(domain, leaves, start, width / 2);
        let right = subtree(domain, leaves, start + width / 2, width / 2);
        hash_node(domain, &left, &right)
    }
}

/// An accumulator that is held in memory: its root hash and the number of
/// its leaves.
#[derive(Clone, Copy, Debug, PartialEq, Eq)]
pub struct InMemoryAccumulator {
    pub root_hash: HashValue,
    pub num_leaves: u64,
}

impl InMemoryAccumulator {
    /// The accumulator over `leaves`, hashed in `domain`.
    pub fn from_leaves(domain: HashDomain, leaves: &[HashValue]) -> (r: Self)
        ensures
            r.root_hash@ == accumulator_root(domain, hash_views(leaves@)),
            r.num_leaves == leaves@.len(),
    {
        let n = leaves.len();
        if n == 0 {
            return InMemoryAccumulator {
                root_hash: HashValue::accumulator_placeholder(),
                num_leaves: 0,
            };
        }
        let mut width: u128 = 1;
        while width < n as u128
            invariant
                1 <= width <= 2 * n,
                capacity_from(n as int, width as int) == capacity_from(n as int, 1),
            decreases
                    if width < n {
                        n - width
                    } else {
                        0
                    },
        {
            width = width * 2;
        }
        InMemoryAccumulator { root_hash: subtree(domain, leaves, 0, width), num_leaves: n as u64 }
    }

    /// The root hash of the accumulator.
    pub fn root_hash(&self) -> (r: HashValue)
        ensures
            r == self.root_hash,
    {
        self.root_hash
    }

    /// The number of leaves of the accumulator.
    pub fn num_leaves(&self) -> (r: u64)
        ensures
            r == self.num_leaves,
    {
        self.num_leaves
    }
}

/// The root that a hash at the place `index` of its level reaches with the
/// siblings from the place `k` on, from the bottom up.
pub open spec fn climb(
    domain: HashDomain,
    current: Seq<u8>,
    index: u64,
    siblings: Seq<Seq<u8>>,
    k: int,
) -> Seq<u8>
    decreases siblings.len() - k,
{
    if k < 0 || k >= siblings.len() {
        current
    } else if index % 2 == 0 {
        climb(domain, node_hash(domain, current, siblings[k]), index / 2, siblings, k + 1)
    } else {
        climb(domain, node_hash(domain, siblings[k], current), index / 2, siblings, k + 1)
    }
}

/// Why a proof was not accepted.
#[derive(Clone, Copy, Debug, PartialEq, Eq, Structural)]
pub enum ProofError {
    /// The proof has more siblings than an accumulator is high.
    TooManySiblings,
    /// The root that the proof reaches is not the expected one.
    RootMismatch,
    /// A proof for no leaf holds siblings, or comes with leaves.
    NotEmpty,
    /// A proof for a range of leaves comes without leaves.
    NoLeaves,
    /// The first hash of a level is a right child, and no sibling is left
    /// on the left.
    MissingLeftSibling,
    /// The last hash of a level is a left child, and no sibling is left on
    /// the right.
    MissingRightSibling,
}

/// A proof that a hash stands at a given place of an accumulator: the
/// siblings on the way from the leaf to the root, from the bottom up.
#[derive(Debug, PartialEq, Eq)]
pub struct AccumulatorProof {
    pub siblings: Vec<HashValue>,
}

impl Clone for AccumulatorProof {
    fn clone(&self) -> (r: Self)
        ensures
            hash_views(r.siblings@) == hash_views(self.siblings@),
    {
        let r = AccumulatorProof { siblings: clone_hashes(&self.siblings) };
        assert(hash_views(r.siblings@) =~= hash_views(self.siblings@));
        r
    }
}

/// Copies a list of hashes.
pub fn clone_hashes(hashes: &Vec<HashValue>) -> (r: Vec<HashValue>)
    ensures
        r@ == hashes@,
{
    let mut r: Vec<HashValue> = Vec::new();
    let mut i: usize = 0;
    while i < hashes.len()
        invariant
            i <= hashes.len(),
            r@ == hashes@.take(i as int),
        decreases hashes.len() - i,
    {
        r.push(hashes[i]);
        i += 1;
        assert(r@ =~= hashes@.take(i as int));
    }
    assert(hashes@.take(i as int) =~= hashes@);
    r
}

/// What the check of a proof for one leaf gives.
pub open spec fn proof_check(
    domain: HashDomain,
    siblings: Seq<Seq<u8>>,
    expected_root_hash: Seq<u8>,
    element_hash: Seq<u8>,
    element_index: u64,
) -> Result<(), ProofError> {
    if siblings.len() > MAX_ACCUMULATOR_PROOF_DEPTH {
        Err(ProofError::TooManySiblings)
    } else if climb(domain, element_hash, element_index, siblings, 0) != expected_root_hash {
        Err(ProofError::RootMismatch)
    } else {
        Ok(())
    }
}

impl AccumulatorProof {
    pub fn new(siblings: Vec<HashValue>) -> (r: Self)
        ensures
            r.siblings == siblings,
    {
        AccumulatorProof { siblings }
    }

    /// Checks that `element_hash` stands at the place `element_index` of the
    /// accumulator with the root `expected_root_hash`.
    pub fn verify(
        &self,
        domain: HashDomain,
        expected_root_hash: HashValue,
        element_hash: HashValue,
        element_index: u64,
    ) -> (r: Result<(), ProofError>)
        ensures
            r == proof_check(
                domain,
                hash_views(self.siblings@),
                expected_root_hash@,
                element_hash@,
                element_index,
            ),
    {
        if self.siblings.len() > MAX_ACCUMULATOR_PROOF_DEPTH {
            return Err(ProofError::TooManySiblings);
        }
        let ghost siblings = hash_views(self.siblings@);
        let mut current = element_hash;
        let mut index = element_index;
        let mut k: usize = 0;
        while k < self.siblings.len()
            invariant
                k <= self.siblings.len(),
                siblings == hash_views(self.siblings@),
                climb(domain, current@, index, siblings, k as int) == climb(
                    domain,
                    element_hash@,
                    element_index,
                    siblings,
                    0,
                ),
            decreases self.siblings.len() - k,
        {
            assert(siblings[k as int] == self.siblings@[k as int]@);
            current = if index % 2 == 0 {
                hash_node(domain, &current, &self.siblings[k])
            } else {
                hash_node(domain, &self.siblings[k], &current)
            };
            index = index / 2;
            k += 1;
        }
        if current == expected_root_hash {
            Ok(())
        } else {
            Err(ProofError::RootMismatch)
        }
    }
}

/// The parents of the hashes of a level, two by two from the left; a hash
/// that is left over at the end has no parent here.
pub open spec fn pairs(domain: HashDomain, hashes: Seq<Seq<u8>>) -> Seq<Seq<u8>>
    decreases hashes.len(),
{
    if hashes.len() < 2 {
        Seq::<Seq<u8>>::empty()
    } else {
        seq![node_hash(domain, hashes[0], hashes[1])] + pairs(domain, hashes.skip(2))
    }
}

/// Two hashes have one parent.
pub proof fn lemma_pairs_len(domain: HashDomain, hashes: Seq<Seq<u8>>)
    ensures
        pairs(domain, hashes).len() == hashes.len() / 2,
    decreases hashes.len(),
{
    if hashes.len() >= 2 {
        lemma_pairs_len(domain, hashes.skip(2));
    }
}

/// The root that the hashes of a level reach, where `first` is the place of
/// the first of them on the level, `left` are the siblings that are left on
/// the left and `right` those on the right, from the bottom up. On each
/// level, a first hash that is a right child is hashed behind a sibling from
/// the left, the hashes are hashed two by two, and a hash that is left over
/// is hashed before a sibling from the right.
pub open spec fn range_root(
    domain: HashDomain,
    current: Seq<Seq<u8>>,
    first: u64,
    left: Seq<Seq<u8>>,
    right: Seq<Seq<u8>>,
) -> Result<Seq<u8>, ProofError>
    decreases current.len() + left.len() + right.len(),
{
    if current.len() == 0 {
        Err(ProofError::NoLeaves)
    } else if current.len() == 1 && left.len() == 0 && right.len() == 0 {
        Ok(current[0])
    } else if first % 2 == 1 && left.len() == 0 {
        Err(ProofError::MissingLeftSibling)
    } else {
        let head = if first % 2 == 1 {
            seq![node_hash(domain, left[0], current[0])]
        } else {
            Seq::<Seq<u8>>::empty()
        };
        let rest = if first % 2 == 1 {
            current.skip(1)
        } else {
            current
        };
        let left_rest = if first % 2 == 1 {
            left.skip(1)
        } else {
            left
        };
        if rest.len() % 2 == 1 && right.len() == 0 {
            Err(ProofError::MissingRightSibling)
        } else {
            let tail = if rest.len() % 2 == 1 {
                seq![node_hash(domain, rest.last(), right[0])]
            } else {
                Seq::<Seq<u8>>::empty()
            };
            let right_rest = if rest.len() % 2 == 1 {
                right.skip(1)
            } else {
                right
            };
            proof {
                lemma_pairs_len(domain, rest);
            }
            range_root(domain, head + pairs(domain, rest) + tail, first / 2, left_rest, right_rest)
        }
    }
}

/// What the check of a proof for a range of leaves gives. A proof for no
/// leaf is empty; any other reaches the expected root.
pub open spec fn range_check(
    domain: HashDomain,
    left: Seq<Seq<u8>>,
    right: Seq<Seq<u8>>,
    expected_root_hash: Seq<u8>,
    first_leaf_index: Option<u64>,
    leaves: Seq<Seq<u8>>,
) -> Result<(), ProofError> {
    match first_leaf_index {
        None => if leaves.len() == 0 && left.len() == 0 && right.len() == 0 {
            Ok(())
        } else {
            Err(ProofError::NotEmpty)
        },
        Some(first) => if left.len() > MAX_ACCUMULATOR_PROOF_DEPTH || right.len()
            > MAX_ACCUMULATOR_PROOF_DEPTH {
            Err(ProofError::TooManySiblings)
        } else {
            match range_root(domain, leaves, first, left, right) {
                Err(e) => Err(e),
                Ok(root) => if root == expected_root_hash {
                    Ok(())
                } else {
                    Err(ProofError::RootMismatch)
                },
            }
        },
    }
}

/// A proof that a run of hashes stands at given places of an accumulator:
/// the siblings on the left of the run and those on its right, each from the
/// bottom up.
#[derive(Debug, PartialEq, Eq)]
pub struct AccumulatorRangeProof {
    pub left_siblings: Vec<HashValue>,
    pub right_siblings: Vec<HashValue>,
}

impl Clone for AccumulatorRangeProof {
    fn clone(&self) -> (r: Self)
        ensures
            r.left_siblings@ == self.left_siblings@,
            r.right_siblings@ == self.right_siblings@,
    {
        AccumulatorRangeProof {
            left_siblings: clone_hashes(&self.left_siblings),
            right_siblings: clone_hashes(&self.right_siblings),
        }
    }
}

impl AccumulatorRangeProof {
    pub fn new(left_siblings: Vec<HashValue>, right_siblings: Vec<HashValue>) -> (r: Self)
        ensures
            r.left_siblings == left_siblings,
            r.right_siblings == right_siblings,
    {
        AccumulatorRangeProof { left_siblings, right_siblings }
    }

    /// The proof for no leaf.
    pub fn new_empty() -> (r: Self)
        ensures
            r.left_siblings@.len() == 0,
            r.right_siblings@.len() == 0,
    {
        AccumulatorRangeProof { left_siblings: Vec::new(), right_siblings: Vec::new() }
    }

    /// The parents of a level.
    #[verifier::rlimit(40)]
    fn level_up(
        &self,
        domain: HashDomain,
        current: &Vec<HashValue>,
        first: u64,
        li: usize,
        ri: usize,
    ) -> (r: Vec<HashValue>)
        requires
            current@.len() >= 1,
            li <= self.left_siblings@.len(),
            ri <= self.right_siblings@.len(),
            first % 2 == 1 ==> li < self.left_siblings@.len(),
            (if first % 2 == 1 {
                current@.len() - 1
            } else {
                current@.len() as int
            }) % 2 == 1 ==> ri < self.right_siblings@.len(),
        ensures
            hash_views(r@) == {
                let cur = hash_views(current@);
                let head = if first % 2 == 1 {
                    seq![node_hash(domain, self.left_siblings@[li as int]@, cur[0])]
                } else {
                    Seq::<Seq<u8>>::empty()
                };
                let rest = if first % 2 == 1 {
                    cur.skip(1)
                } else {
                    cur
                };
                let tail = if rest.len() % 2 == 1 {
                    seq![node_hash(domain, rest.last(), self.right_siblings@[ri as int]@)]
                } else {
                    Seq::<Seq<u8>>::empty()
                };
                head + pairs(domain, rest) + tail
            },
    {
        let ghost cur = hash_views(current@);
        let mut parents: Vec<HashValue> = Vec::new();
        let mut i: usize = 0;
        if first % 2 == 1 {
            parents.push(hash_node(domain, &self.left_siblings[li], &current[0]));
            i = 1;
            assert(hash_views(parents@) =~= seq![
                node_hash(domain, self.left_siblings@[li as int]@, cur[0]),
            ]);
        } else {
            assert(cur.skip(0) =~= cur);
            assert(hash_views(parents@) =~= Seq::<Seq<u8>>::empty());
        }
        let start = i;
        let ghost head = hash_views(parents@);
        let ghost rest = cur.skip(start as int);
        assert(rest.skip(0) =~= rest);
        assert(hash_views(parents@) =~= head + Seq::<Seq<u8>>::empty());
        while current.len() - i >= 2
            invariant
                start <= i <= current@.len(),
                (i - start) % 2 == 0,
                cur == hash_views(current@),
                rest == cur.skip(start as int),
                head + pairs(domain, rest) == hash_views(parents@) + pairs(
                    domain,
                    rest.skip(i - start),
                ),
            decreases current.len() - i,
        {
            let ghost before = hash_views(parents@);
            let ghost remaining = rest.skip(i - start);
            parents.push(hash_node(domain, &current[i], &current[i + 1]));
            proof {
                assert(remaining[0] == cur[i as int] && remaining[1] == cur[i + 1]);
                assert(remaining.skip(2) =~= rest.skip(i + 2 - start));
                assert(hash_views(parents@) =~= before + seq![
                    node_hash(domain, remaining[0], remaining[1]),
                ]);
                assert(before + pairs(domain, remaining) =~= hash_views(parents@) + pairs(
                    domain,
                    remaining.skip(2),
                ));
            }
            i += 2;
        }
        let ghost paired = hash_views(parents@);
        proof {
            let remaining = rest.skip(i - start);
            assert(pairs(domain, remaining) =~= Seq::<Seq<u8>>::empty());
            assert(paired =~= head + pairs(domain, rest));
        }
        if i < current.len() {
            parents.push(hash_node(domain, &current[i], &self.right_siblings[ri]));
            proof {
                assert(rest.last() == cur[i as int]);
                assert(hash_views(parents@) =~= paired + seq![
                    node_hash(domain, rest.last(), self.right_siblings@[ri as int]@),
                ]);
            }
        } else {
            assert(hash_views(parents@) =~= paired + Seq::<Seq<u8>>::empty());
        }
        parents
    }

    /// Checks that `leaf_hashes` stand from the place `first_leaf_index` on
    /// in the accumulator with the root `expected_root_hash`. For no place,
    /// there is no leaf and no sibling.
    #[verifier::rlimit(40)]
    pub fn verify(
        &self,
        domain: HashDomain,
        expected_root_hash: HashValue,
        first_leaf_index: Option<u64>,
        leaf_hashes: &[HashValue],
    ) -> (r: Result<(), ProofError>)
        ensures
            r == range_check(
                domain,
                hash_views(self.left_siblings@),
                hash_views(self.right_siblings@),
                expected_root_hash@,
                first_leaf_index,
                hash_views(leaf_hashes@),
            ),
    {
        let first_index = match first_leaf_index {
            None => {
                if leaf_hashes.len() == 0 && self.left_siblings.len() == 0
                    && self.right_siblings.len() == 0 {
                    return Ok(());
                } else {
                    return Err(ProofError::NotEmpty);
                }
            },
            Some(first) => first,
        };
        if self.left_siblings.len() > MAX_ACCUMULATOR_PROOF_DEPTH || self.right_siblings.len()
            > MAX_ACCUMULATOR_PROOF_DEPTH {
            return Err(ProofError::TooManySiblings);
        }
        if leaf_hashes.len() == 0 {
            return Err(ProofError::NoLeaves);
        }
        let ghost left = hash_views(self.left_siblings@);
        let ghost right = hash_views(self.right_siblings@);
        let ghost goal = range_root(domain, hash_views(leaf_hashes@), first_index, left, right);
        let ghost verdict = range_check(
            domain,
            left,
            right,
            expected_root_hash@,
            first_leaf_index,
            hash_views(leaf_hashes@),
        );
        let mut current: Vec<HashValue> = Vec::new();
        let mut c: usize = 0;
        while c < leaf_hashes.len()
            invariant
                c <= leaf_hashes.len(),
                current@ == leaf_hashes@.take(c as int),
            decreases leaf_hashes.len() - c,
        {
            current.push(leaf_hashes[c]);
            c += 1;
            assert(current@ =~= leaf_hashes@.take(c as int));
        }
        assert(leaf_hashes@.take(c as int) =~= leaf_hashes@);
        assert(left.skip(0) =~= left && right.skip(0) =~= right);
        let mut first = first_index;
        let mut li: usize = 0;
        let mut ri: usize = 0;
        while current.len() > 1 || li < self.left_siblings.len() || ri < self.right_siblings.len()
            invariant
                current@.len() >= 1,
                li <= self.left_siblings@.len(),
                ri <= self.right_siblings@.len(),
                left == hash_views(self.left_siblings@),
                right == hash_views(self.right_siblings@),
                verdict == range_check(
                    domain,
                    hash_views(self.left_siblings@),
                    hash_views(self.right_siblings@),
                    expected_root_hash@,
                    first_leaf_index,
                    hash_views(leaf_hashes@),
                ),
                verdict == match goal {
                    Err(e) => Err::<(), ProofError>(e),
                    Ok(root) => if root == expected_root_hash@ {
                        Ok::<(), ProofError>(())
                    } else {
                        Err::<(), ProofError>(ProofError::RootMismatch)
                    },
                },
                goal == range_root(
                    domain,
                    hash_views(current@),
                    first,
                    left.skip(li as int),
                    right.skip(ri as int),
                ),
            decreases current@.len() + (self.left_siblings@.len() - li) + (self.right_siblings@.len()
                    - ri),
        {
            let first_odd = first % 2 == 1;
            if first_odd && li >= self.left_siblings.len() {
                assert(left.skip(li as int).len() == 0);
                return Err(ProofError::MissingLeftSibling);
            }
            let rest_len = if first_odd {
                current.len() - 1
            } else {
                current.len()
            };
            if rest_len % 2 == 1 && ri >= self.right_siblings.len() {
                assert(right.skip(ri as int).len() == 0);
                return Err(ProofError::MissingRightSibling);
            }
            let parents = self.level_up(domain, &current, first, li, ri);
            proof {
                let cur = hash_views(current@);
                let rest = if first_odd {
                    cur.skip(1)
                } else {
                    cur
                };
                lemma_pairs_len(domain, rest);
                if first_odd {
                    assert(left.skip(li as int)[0] == self.left_siblings@[li as int]@);
                    assert(left.skip(li as int).skip(1) =~= left.skip(li + 1));
                }
                if rest_len % 2 == 1 {
                    assert(right.skip(ri as int)[0] == self.right_siblings@[ri as int]@);
                    assert(right.skip(ri as int).skip(1) =~= right.skip(ri + 1));
                }
            }
            if first_odd {
                li += 1;
            }
            if rest_len % 2 == 1 {
                ri += 1;
            }
            first = first / 2;
            current = parents;
        }
        assert(left.skip(li as int).len() == 0 && right.skip(ri as int).len() == 0);
        if current[0] == expected_root_hash {
            Ok(())
        } else {
            Err(ProofError::RootMismatch)
        }
    }
}

} // verus!
