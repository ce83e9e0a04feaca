//! Morton codes addressing the nodes of an octree.
//!
//! A code holds a leading sentinel bit followed by three bits per level of
//! depth: the root is `1`, and the children of a node with code `k` have
//! codes `8 * k + i` for `i` in `0..8`.

use vstd::prelude::*;

verus! {

/// Codes at or above this bound have no room for children in 64 bits.
pub const CHILD_CODE_LIMIT: u64 = 0x2000_0000_0000_0000;

/// The depth of the node that `code` addresses: the number of
/// three-bit groups below its sentinel bit.
pub open spec fn code_level(code: u64) -> nat
    decreases code,
{
    if code < 8 {
        0
    } else {
        1 + code_level(code / 8)
    }
}

/// The code of the `which`-th child of the node `code`: three more bits
/// appended below the code (the top three bits of `code` fall off).
pub open spec fn child_code(code: u64, which: u8) -> u64 {
    (code << 3u64) | (which as u64)
}

/// The corner of its parent at which the node `code` sits: the three
/// bits below the parent's part of the code.
pub open spec fn corner_in_parent(code: u64) -> u8 {
    (code % 8) as u8
}

/// Whether `code` addresses a node: its sentinel bit lies at a multiple of
/// three bits, so that dividing by eight repeatedly reaches the root.
pub open spec fn is_node_code(code: u64) -> bool
    decreases code,
{
    code == 1 || (code >= 8 && is_node_code(code / 8))
}

/// Whether the node `ancestor` lies above the node `code` in the octree.
pub open spec fn is_ancestor_code(ancestor: u64, code: u64) -> bool
    decreases code,
{
    code >= 8 && (code / 8 == ancestor || is_ancestor_code(ancestor, code / 8))
}

/// Eight to the power `n`.
pub open spec fn pow8(n: nat) -> nat
    decreases n,
{
    if n == 0 {
        1
    } else {
        8 * pow8((n - 1) as nat)
    }
}

/// A node's address in the octree.
#[derive(Debug, Copy, Clone, PartialEq, Eq, Hash)]
pub struct Morton(pub u64);

impl Morton {
    /// The root node.
    pub fn new() -> (m: Morton)
        ensures
            m.0 == 1,
    {
        Morton(1)
    }

    /// Whether this code addresses no node at all: it is `0`, or its
    /// sentinel bit does not lie at a multiple of three bits.
    pub fn is_none(&self) -> (b: bool)
        ensures
            b == !is_node_code(self.0),
    {
        let mut code = self.0;
        while code >= 8
            invariant
                is_node_code(code) == is_node_code(self.0),
            decreases code,
        {
            code = code / 8;
        }
        code != 1
    }

    /// The code of the `which`-th child of this node: three more bits
    /// appended below the code.
    pub fn child(&self, which: u8) -> (m: Morton)
        requires
            which < 8,
        ensures
            m.0 == child_code(self.0, which),
            self.0 < CHILD_CODE_LIMIT ==> m.0 == self.0 * 8 + which,
    {
        let k = self.0;
        let w = which as u64;
        proof {
            lemma_child_code(k, w);
        }
        Morton((k << 3) | w)
    }
}

/// Appending three bits to a code that leaves room for them is
/// multiplying it by eight and adding the bits.
pub proof fn lemma_child_code(k: u64, w: u64)
    requires
        w < 8,
    ensures
        k < CHILD_CODE_LIMIT ==> (k << 3u64) | w == k * 8 + w,
{
    assert(k < 0x2000_0000_0000_0000u64 ==> (k << 3u64) | w == k * 8 + w) by (bit_vector)
        requires
            w < 8u64,
    ;
}

/// Any child code, even one whose parent has no room for children, keeps
/// the child's index in its three low bits, and the children of one node
/// agree in all other bits.
pub proof fn lemma_child_code_bits(code: u64, which: u8)
    requires
        which < 8,
    ensures
        corner_in_parent(child_code(code, which)) == which,
        child_code(code, which) / 8 == child_code(code, 0) / 8,
{
    let w = which as u64;
    assert(((code << 3u64) | w) % 8 == w && ((code << 3u64) | w) / 8 == ((code << 3u64) | 0u64)
        / 8) by (bit_vector)
        requires
            w < 8u64,
    ;
}

/// A child code, read back: dividing by eight gives the parent, the
/// remainder gives which child it is, and the child lies one level deeper.
pub proof fn lemma_child_code_parent(code: u64, which: u8)
    requires
        code < CHILD_CODE_LIMIT,
        which < 8,
    ensures
        child_code(code, which) / 8 == code,
        child_code(code, which) % 8 == which,
        code >= 1 ==> child_code(code, which) >= 8,
        code >= 1 ==> code_level(child_code(code, which)) == code_level(code) + 1,
{
    lemma_child_code(code, which as u64);
}

/// A code below eight to the power `n` lies at a level below `n`.
pub proof fn lemma_code_level_below(code: u64, n: nat)
    requires
        n >= 1,
        code < pow8(n),
    ensures
        code_level(code) < n,
    decreases n,
{
    if code >= 8 {
        assert(n >= 2) by {
            if n == 1 {
                assert(pow8(1) == 8) by {
                    reveal_with_fuel(pow8, 2);
                }
            }
        }
        assert(code / 8 < pow8((n - 1) as nat));
        lemma_code_level_below(code / 8, (n - 1) as nat);
    }
}

/// Every code lies at level 21 at most, and a code with room for children
/// at level 20 at most.
pub proof fn lemma_code_level_bounds(code: u64)
    ensures
        code_level(code) <= 21,
        code < CHILD_CODE_LIMIT ==> code_level(code) <= 20,
{
    assert(pow8(21) == 0x8000_0000_0000_0000) by {
        reveal_with_fuel(pow8, 22);
    }
    assert(pow8(22) == 0x4_0000_0000_0000_0000) by {
        reveal_with_fuel(pow8, 23);
    }
    lemma_code_level_below(code, 22);
    if code < CHILD_CODE_LIMIT {
        lemma_code_level_below(code, 21);
    }
}

} // verus!
