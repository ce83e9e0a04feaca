//! An octree stored as a hash map from the Morton codes of its leaves to
//! the data held there.

use crate::morton::{
    child_code, code_level, is_ancestor_code, is_node_code, lemma_child_code_parent,
    lemma_code_level_bounds, Morton, CHILD_CODE_LIMIT,
};
use fxhash::{FxHashMap, FxHasher};
use std::collections::VecDeque;
use std::hash::BuildHasherDefault;
use vstd::prelude::*;

verus! {

/// fxhash's hasher, carried as an opaque value inside the hash map.
#[verifier::external_type_specification]
#[verifier::external_body]
pub struct ExFxHasher(FxHasher);

/// std's `BuildHasherDefault`, which fxhash's maps use to build their
/// hashers; carried as an opaque value.
#[verifier::external_type_specification]
#[verifier::external_body]
#[verifier::reject_recursive_types(H)]
pub struct ExBuildHasherDefault<H>(BuildHasherDefault<H>);

/// `HashMap::insert` on a map hashed by fxhash's `FxHasher`.
///
/// Claimed: afterwards the map holds `value` at `key` and is otherwise
/// unchanged. This rests on `FxHasher` being deterministic (its state
/// starts at zero and each write is a pure function of the state and the
/// bytes, as fxhash's source shows), so std's map behaves as a map on
/// `u64` keys. The value that `insert` hands back is not used.
#[verifier::external_body]
fn fx_map_insert<V>(map: &mut FxHashMap<u64, V>, key: u64, value: V)
    ensures
        final(map)@ == old(map)@.insert(key, value),
{
    map.insert(key, value);
}

/// `HashMap::get` on a map hashed by fxhash's `FxHasher`.
///
/// Claimed: the value stored at `key`, or `None` when the map holds no
/// value there (on the same ground as `fx_map_insert`).
#[verifier::external_body]
fn fx_map_get<'a, V>(map: &'a FxHashMap<u64, V>, key: u64) -> (value: Option<&'a V>)
    ensures
        match value {
            Some(v) => map@.contains_key(key) && *v == map@[key],
            None => !map@.contains_key(key),
        },
{
    map.get(&key)
}

/// What an octree holds at a node: nothing yet known below it (an
/// interior node), a leaf's data, or nothing at all.
pub enum OctreeNode<Node> {
    Internal,
    Leaf(Node),
    Empty,
}

impl<Node> OctreeNode<Node> {
    /// The leaf's data, if this is a leaf.
    pub fn into_leaf(self) -> (leaf: Option<Node>)
        ensures
            match self {
                OctreeNode::Leaf(node) => leaf == Some(node),
                _ => leaf is None,
            },
    {
        match self {
            OctreeNode::Leaf(leaf) => Some(leaf),
            _ => None,
        }
    }
}

/// Whether the node `code` may lie in the octree that `create_node`
/// describes: `create_node` may answer `Internal` for every node above it.
pub open spec fn may_reach<Node, C: FnMut(Morton) -> OctreeNode<Node>>(
    create_node: C,
    code: u64,
) -> bool {
    &&& is_node_code(code)
    &&& forall|ancestor: u64| #[trigger]
        is_ancestor_code(ancestor, code) ==> call_ensures(
            create_node,
            (Morton(ancestor),),
            OctreeNode::Internal,
        )
}

/// Whether every answer that `create_node` may give for `key` is `answer`.
pub open spec fn always_answers<Node, C: FnMut(Morton) -> OctreeNode<Node>>(
    create_node: C,
    key: Morton,
    answer: OctreeNode<Node>,
) -> bool {
    forall|given: OctreeNode<Node>| #[trigger]
        call_ensures(create_node, (key,), given) ==> given == answer
}

/// Whether the node `code` surely lies in the octree that `create_node`
/// describes: `create_node` always answers `Internal` for every node above
/// it.
pub open spec fn must_reach<Node, C: FnMut(Morton) -> OctreeNode<Node>>(
    create_node: C,
    code: u64,
) -> bool {
    &&& is_node_code(code)
    &&& forall|ancestor: u64| #[trigger]
        is_ancestor_code(ancestor, code) ==> always_answers(
            create_node,
            Morton(ancestor),
            OctreeNode::Internal,
        )
}

/// Whether `create_node` answers `Internal` only for nodes whose children
/// fit in a 64-bit code.
pub open spec fn splits_within_codes<Node, C: FnMut(Morton) -> OctreeNode<Node>>(
    create_node: C,
) -> bool {
    forall|key: Morton|
        #[trigger] call_ensures(create_node, (key,), OctreeNode::<Node>::Internal) ==> key.0
            < CHILD_CODE_LIMIT
}

/// The weight of a queued node in the termination measure of `build`:
/// nine to the power of the levels left below it.
spec fn level_weight(levels_left: nat) -> nat
    decreases levels_left,
{
    if levels_left == 0 {
        1
    } else {
        9 * level_weight((levels_left - 1) as nat)
    }
}

spec fn node_weight(code: u64) -> nat {
    level_weight((21 - code_level(code)) as nat)
}

spec fn queue_weight(queue: Seq<Morton>) -> nat
    decreases queue.len(),
{
    if queue.len() == 0 {
        0
    } else {
        node_weight(queue[0].0) + queue_weight(queue.subrange(1, queue.len() as int))
    }
}

proof fn lemma_level_weight_positive(n: nat)
    ensures
        level_weight(n) >= 1,
    decreases n,
{
    if n > 0 {
        lemma_level_weight_positive((n - 1) as nat);
    }
}

proof fn lemma_queue_weight_push(queue: Seq<Morton>, key: Morton)
    ensures
        queue_weight(queue.push(key)) == queue_weight(queue) + node_weight(key.0),
    decreases queue.len(),
{
    let pushed = queue.push(key);
    if queue.len() > 0 {
        let tail = queue.subrange(1, queue.len() as int);
        assert(pushed.subrange(1, pushed.len() as int) =~= tail.push(key));
        lemma_queue_weight_push(tail, key);
        assert(pushed[0] == queue[0]);
        assert(queue_weight(pushed) == node_weight(queue[0].0) + queue_weight(tail.push(key)));
    } else {
        assert(pushed.subrange(1, pushed.len() as int) =~= Seq::<Morton>::empty());
        assert(pushed[0] == key);
        assert(queue_weight(pushed) == node_weight(key.0) + queue_weight(Seq::<Morton>::empty()));
    }
}

/// Every node that surely lies in the octree was processed, once the
/// nodes processed include the root and, with every node always answered
/// `Internal`, its eight children.
proof fn lemma_reached_is_done<Node, C: FnMut(Morton) -> OctreeNode<Node>>(
    create_node: C,
    done: Set<u64>,
    code: u64,
)
    requires
        done.contains(1),
        forall|key: u64, which: u8|
            done.contains(key) && which < 8 && always_answers(
                create_node,
                Morton(key),
                OctreeNode::Internal,
            ) ==> #[trigger] done.contains(child_code(key, which)),
        must_reach(create_node, code),
    ensures
        done.contains(code),
    decreases code,
{
    if code != 1 {
        let parent = code / 8;
        assert forall|ancestor: u64| #[trigger] is_ancestor_code(ancestor, parent) implies always_answers(
            create_node,
            Morton(ancestor),
            OctreeNode::Internal,
        ) by {
            assert(is_ancestor_code(ancestor, code));
        }
        assert(is_ancestor_code(parent, code));
        lemma_reached_is_done(create_node, done, parent);
        assert(parent < CHILD_CODE_LIMIT);
        let which = (code % 8) as u8;
        lemma_child_code_parent(parent, which);
        assert(child_code(parent, which) == code);
        assert(done.contains(child_code(parent, which)));
    }
}

/// A linear hashed octree: the leaves of an octree, keyed by their
/// Morton codes.
pub struct LinearHashedOctree<Node> {
    nodes: FxHashMap<u64, Node>,
}

impl<Node> LinearHashedOctree<Node> {
    /// The leaves held, by code.
    pub closed spec fn view(&self) -> Map<u64, Node> {
        self.nodes@
    }

    /// An octree with no leaves.
    pub fn new() -> (octree: Self)
        ensures
            octree.view() == Map::<u64, Node>::empty(),
    {
        Self { nodes: FxHashMap::default() }
    }

    /// Walks the octree that `create_node` describes breadth-first from
    /// the root: a node answered `Internal` has its eight children
    /// visited, a node answered `Leaf` has its data stored under its code,
    /// and a node answered `Empty` is left out. `create_node` must not
    /// answer `Internal` for a node whose children have no room in a
    /// 64-bit code (`splits_within_codes`). `create_node` is asked only
    /// about nodes that may lie in the octree (`may_reach`), so it need
    /// accept no others.
    ///
    /// Every leaf stored may lie in the octree (`may_reach`) with data that
    /// `create_node` may answer for it, and what was stored before stays
    /// unless a new leaf has its code. Every node that surely lies in the
    /// octree (`must_reach`) and that `create_node` always answers as a
    /// leaf is stored with that leaf's data.
    pub fn build<C>(&mut self, mut create_node: C) where C: FnMut(Morton) -> OctreeNode<Node>
        requires
            forall|key: Morton| may_reach(create_node, key.0) ==> call_requires(create_node, (key,)),
            splits_within_codes(create_node),
        ensures
            forall|code: u64|
                #[trigger] final(self).view().contains_key(code) ==> {
                    ||| old(self).view().contains_key(code) && final(self).view()[code] == old(self).view()[code]
                    ||| may_reach(create_node, code) && call_ensures(
                        create_node,
                        (Morton(code),),
                        OctreeNode::Leaf(final(self).view()[code]),
                    )
                },
            forall|code: u64|
                #[trigger] old(self).view().contains_key(code) ==> final(self).view().contains_key(code),
            forall|code: u64, node: Node|
                must_reach(create_node, code) && #[trigger] always_answers(
                    create_node,
                    Morton(code),
                    OctreeNode::Leaf(node),
                ) ==> final(self).view().contains_key(code) && final(self).view()[code] == node,
    {
        let ghost c0 = create_node;
        let ghost mut done: Set<u64> = Set::empty();
        let mut queue: VecDeque<Morton> = VecDeque::new();
        let root = Morton::new();
        assert(root == Morton(1));
        queue.push_back(root);
        assert(queue@[0] == Morton(1));

        loop
            invariant_except_break
                forall|j: int| 0 <= j < queue@.len() ==> may_reach(c0, #[trigger] queue@[j].0),
            invariant
                create_node == c0,
                forall|key: Morton| may_reach(c0, key.0) ==> call_requires(create_node, (key,)),
                splits_within_codes(c0),
                forall|code: u64|
                    #[trigger] self.nodes@.contains_key(code) ==> {
                        ||| old(self).nodes@.contains_key(code) && self.nodes@[code] == old(self).nodes@[code]
                        ||| may_reach(c0, code) && call_ensures(
                            c0,
                            (Morton(code),),
                            OctreeNode::Leaf(self.nodes@[code]),
                        )
                    },
                forall|code: u64|
                    #[trigger] old(self).nodes@.contains_key(code) ==> self.nodes@.contains_key(
                        code,
                    ),
                done.contains(1) || queue@.contains(Morton(1)),
                forall|code: u64, node: Node|
                    done.contains(code) && #[trigger] always_answers(
                        c0,
                        Morton(code),
                        OctreeNode::Leaf(node),
                    ) ==> self.nodes@.contains_key(code) && self.nodes@[code] == node,
                forall|key: u64, which: u8|
                    done.contains(key) && which < 8 && always_answers(
                        c0,
                        Morton(key),
                        OctreeNode::Internal,
                    ) ==> #[trigger] done.contains(child_code(key, which)) || queue@.contains(
                        Morton(child_code(key, which)),
                    ),
            ensures
                queue@.len() == 0,
            decreases queue_weight(queue@),
        {
            let ghost before = queue@;
            let next = queue.pop_front();
            match next {
                None => {
                    break;
                },
                Some(key) => {
                    proof {
                        assert(before.subrange(1, before.len() as int) == queue@);
                        assert(queue_weight(before) == node_weight(key.0) + queue_weight(queue@));
                        lemma_code_level_bounds(key.0);
                        assert(may_reach(c0, before[0].0));
                        assert(key.0 >= 1);
                        assert(forall|j: int| 0 <= j < queue@.len() ==> queue@[j] == before[j + 1]);
                        lemma_level_weight_positive((21 - code_level(key.0)) as nat);
                    }
                    let answer = create_node(key);
                    let ghost rest = queue@;
                    let ghost given = answer;
                    match answer {
                        OctreeNode::Internal => {
                            proof {
                                assert(key == Morton(key.0));
                                assert(key.0 < CHILD_CODE_LIMIT);
                                lemma_code_level_bounds(key.0);
                                lemma_child_code_parent(key.0, 0);
                                let levels_left = (21 - code_level(key.0)) as nat;
                                assert(levels_left >= 1);
                                assert(node_weight(child_code(key.0, 0)) == level_weight(
                                    (levels_left - 1) as nat,
                                ));
                                lemma_level_weight_positive((levels_left - 1) as nat);
                                assert(node_weight(key.0) == 9 * node_weight(child_code(key.0, 0)));
                                assert(0 * node_weight(child_code(key.0, 0)) == 0);
                            }
                            for i in 0..8u8
                                invariant
                                    key.0 < CHILD_CODE_LIMIT,
                                    key.0 >= 1,
                                    may_reach(c0, key.0),
                                    forall|j: int| 0 <= j < rest.len() ==> may_reach(c0, #[trigger] rest[j].0),
                                    forall|j: int| 0 <= j < queue@.len() ==> may_reach(c0, #[trigger] queue@[j].0),
                                    call_ensures(c0, (key,), OctreeNode::<Node>::Internal),
                                    queue@.len() == rest.len() + i,
                                    forall|j: int| 0 <= j < rest.len() ==> queue@[j] == rest[j],
                                    forall|j: int|
                                        0 <= j < i ==> #[trigger] queue@[rest.len() + j] == Morton(
                                            child_code(key.0, j as u8),
                                        ),
                                    queue_weight(queue@) == queue_weight(rest) + i * node_weight(
                                        child_code(key.0, 0),
                                    ),
                            {
                                let child = key.child(i);
                                proof {
                                    lemma_child_code_parent(key.0, i);
                                    lemma_child_code_parent(key.0, 0);
                                    lemma_queue_weight_push(queue@, child);
                                    assert(key == Morton(key.0));
                                    assert(child.0 / 8 == key.0);
                                    assert(is_node_code(child.0));
                                    assert forall|ancestor: u64| #[trigger]
                                        is_ancestor_code(ancestor, child.0) implies call_ensures(
                                        c0,
                                        (Morton(ancestor),),
                                        OctreeNode::Internal,
                                    ) by {
                                        if ancestor != key.0 {
                                            assert(is_ancestor_code(ancestor, key.0));
                                        }
                                    }
                                    assert(may_reach(c0, child.0));
                                    let w = node_weight(child_code(key.0, 0));
                                    assert((i + 1) * w == i * w + w) by (nonlinear_arith);
                                }
                                queue.push_back(child);
                            }
                            proof {
                                let wc = node_weight(child_code(key.0, 0));
                                assert(queue@.len() == rest.len() + 8);
                                assert(queue_weight(queue@) == queue_weight(rest) + 8 * wc);
                                assert(queue_weight(before) == 9 * wc + queue_weight(rest));
                                assert(wc >= 1);
                            }
                        },
                        OctreeNode::Leaf(node) => {
                            fx_map_insert(&mut self.nodes, key.0, node);
                        },
                        OctreeNode::Empty => {},
                    }
                    proof {
                        let old_done = done;
                        done = done.insert(key.0);
                        assert(forall|j: int| 0 <= j < rest.len() ==> queue@[j] == rest[j]);
                        assert forall|x: Morton| before.contains(x) implies x == key
                            || queue@.contains(x) by {
                            let j = choose|j: int| 0 <= j < before.len() && before[j] == x;
                            if j > 0 {
                                assert(rest[j - 1] == before[j]);
                                assert(queue@[j - 1] == x);
                            }
                        }
                        if !old_done.contains(1) {
                            assert(before.contains(Morton(1)));
                            if Morton(1) != key {
                                assert(queue@.contains(Morton(1)));
                            }
                        }
                        {
                            assert(call_ensures(c0, (key,), given));
                            assert forall|code: u64, node: Node|
                                done.contains(code) && #[trigger] always_answers(
                                    c0,
                                    Morton(code),
                                    OctreeNode::Leaf(node),
                                ) implies self.nodes@.contains_key(code) && self.nodes@[code]
                                == node by {
                                if code == key.0 {
                                    assert(key == Morton(code));
                                    assert(given == OctreeNode::Leaf(node));
                                } else {
                                    assert(old_done.contains(code));
                                }
                            }
                            assert forall|k: u64, which: u8|
                                done.contains(k) && which < 8 && always_answers(
                                    c0,
                                    Morton(k),
                                    OctreeNode::Internal,
                                ) implies #[trigger] done.contains(child_code(k, which))
                                || queue@.contains(Morton(child_code(k, which))) by {
                                if k == key.0 {
                                    assert(key == Morton(k));
                                    assert(given == OctreeNode::<Node>::Internal);
                                    assert(queue@[rest.len() + which] == Morton(
                                        child_code(key.0, which),
                                    ));
                                } else {
                                    assert(old_done.contains(k));
                                    if !old_done.contains(child_code(k, which)) {
                                        assert(before.contains(Morton(child_code(k, which))));
                                    }
                                }
                            }
                        }
                    }
                },
            }
        }
        proof {
            assert forall|code: u64, node: Node|
                must_reach(create_node, code) && #[trigger] always_answers(
                    create_node,
                    Morton(code),
                    OctreeNode::Leaf(node),
                ) implies self.nodes@.contains_key(code) && self.nodes@[code] == node by {
                lemma_reached_is_done(c0, done, code);
            }
        }
    }

    /// Returns an octree node given its coordinates.
    ///
    /// A stored leaf is answered as `Leaf`, any other node as `Internal`,
    /// and a code that addresses no node as `Empty`.
    pub fn get_node(&self, key: Morton) -> (node: OctreeNode<&Node>)
        ensures
            !is_node_code(key.0) ==> node is Empty,
            is_node_code(key.0) ==> if self.view().contains_key(key.0) {
                node == OctreeNode::Leaf(&self.view()[key.0])
            } else {
                node is Internal
            },
    {
        if key.is_none() {
            return OctreeNode::Empty;
        }
        match fx_map_get(&self.nodes, key.0) {
            Some(node) => OctreeNode::Leaf(node),
            None => OctreeNode::Internal,
        }
    }
}

} // verus!
