//! The ordered action store: sokoban's fixed-capacity red-black tree, keyed by
//! `[epoch, kind, seq]` and holding the 32-byte actor identifier of each action.
use vstd::prelude::*;
use sokoban::{NodeAllocatorMap, RedBlackTree};

verus! {

/// Number of nodes the store can hold.
pub const QUEUE_CAPACITY: usize = 8192;

/// The tree as it is laid out inside the state region.
pub type ActionTree = RedBlackTree<[u64; 3], [u8; 32], 8192>;

/// A priority key in the mathematical model: (epoch, kind, seq).
pub type KeyModel = (u64, u64, u64);

/// The store's contents in the model: priority key to actor identifier.
pub type QueueModel = Map<KeyModel, Seq<u8>>;

/// The store's bytes inside a state region, borrowed in place. They are exactly
/// the size of an `ActionTree` and aligned for it: `queue_from_region` checks both,
/// and nothing else builds this.
#[verifier::external_body]
pub struct ActionQueue<'a> {
    bytes: &'a mut [u8],
}

/// The bytes that an `ActionQueue` borrows.
pub uninterp spec fn queue_bytes(q: ActionQueue) -> Seq<u8>;

/// What a tree laid out in `b` holds: each key, read as (epoch, kind, seq), to its
/// value's bytes.
pub uninterp spec fn tree_entries(b: Seq<u8>) -> Map<(u64, u64, u64), Seq<u8>>;

/// `b` holds a tree in the shape that sokoban's own operations keep: links within
/// the arena, keys in search order, and a size that counts the linked nodes.
pub uninterp spec fn tree_sound(b: Seq<u8>) -> bool;

/// The contents of the store that `q` borrows.
pub open spec fn queue_entries(q: ActionQueue) -> QueueModel {
    tree_entries(queue_bytes(q))
}

/// The model of a key as the tree stores it.
pub open spec fn key_model(k: [u64; 3]) -> KeyModel {
    (k@[0], k@[1], k@[2])
}

/// Lexicographic order on (epoch, kind, seq): the order in which `[u64; 3]` compares.
pub open spec fn key_lt(a: KeyModel, b: KeyModel) -> bool {
    a.0 < b.0 || (a.0 == b.0 && (a.1 < b.1 || (a.1 == b.1 && a.2 < b.2)))
}

pub open spec fn key_le(a: KeyModel, b: KeyModel) -> bool {
    a == b || key_lt(a, b)
}

/// `k` is in `q` and no key of `q` sorts before it.
pub open spec fn is_min_key(q: QueueModel, k: KeyModel) -> bool {
    &&& q.contains_key(k)
    &&& forall|j: KeyModel| #[trigger] q.contains_key(j) ==> key_le(k, j)
}

/// A tree's contents never exceed its fixed capacity.
pub open spec fn queue_bounded(q: QueueModel) -> bool {
    q.dom().finite() && q.len() <= QUEUE_CAPACITY
}

/// A finite store that is not empty has a least key.
pub proof fn lemma_min_exists(q: QueueModel)
    requires
        q.dom().finite(),
        q.dom() != Set::<KeyModel>::empty(),
    ensures
        exists|k: KeyModel| is_min_key(q, k),
    decreases q.len(),
{
    let x = q.dom().choose();
    assert(q.dom().contains(x)) by {
        if !q.dom().contains(x) {
            assert(q.dom() =~= Set::<KeyModel>::empty());
        }
    }
    let rest = q.remove(x);
    if rest.dom() =~= Set::<KeyModel>::empty() {
        assert forall|j: KeyModel| #[trigger] q.contains_key(j) implies key_le(x, j) by {
            if j != x {
                assert(rest.dom().contains(j));
            }
        }
        assert(is_min_key(q, x));
    } else {
        lemma_min_exists(rest);
        let m = choose|k: KeyModel| is_min_key(rest, k);
        if key_lt(x, m) {
            assert forall|j: KeyModel| #[trigger] q.contains_key(j) implies key_le(x, j) by {
                if j != x {
                    assert(rest.contains_key(j));
                    assert(key_le(m, j));
                }
            }
            assert(is_min_key(q, x));
        } else {
            assert forall|j: KeyModel| #[trigger] q.contains_key(j) implies key_le(m, j) by {
                if j != x {
                    assert(rest.contains_key(j));
                }
            }
            assert(is_min_key(q, m));
        }
    }
}

/// Bytes of the tree as the state region lays it out.
pub const QUEUE_BYTES: usize = 589856;

/// Relies on bytemuck::try_from_bytes_mut: the bytes can be used in place as an
/// `ActionTree` only when they are exactly its size and aligned for it.
#[verifier::external_body]
pub(crate) fn queue_from_region<'a>(b: &'a mut [u8]) -> (r: Option<ActionQueue<'a>>)
    ensures
        match r {
            Some(q) => queue_bytes(q) == old(b)@ && old(b)@.len() == QUEUE_BYTES,
            None => true,
        },
{
    if bytemuck::try_from_bytes_mut::<ActionTree>(&mut *b).is_err() {
        return None;
    }
    Some(ActionQueue { bytes: b })
}

/// Relies on RedBlackTree::initialize, on bytes that `<[u8]>::fill` has zeroed: a
/// zero-filled tree, once initialised, is a sound empty tree (as a fresh region).
#[verifier::external_body]
pub(crate) fn tree_reset(q: &mut ActionQueue)
    ensures
        tree_sound(queue_bytes(*final(q))),
        tree_entries(queue_bytes(*final(q))).dom() == Set::<KeyModel>::empty(),
{
    q.bytes.fill(0);
    bytemuck::from_bytes_mut::<ActionTree>(q.bytes).initialize();
}

/// Relies on NodeAllocatorMap::insert of RedBlackTree: a key already present gets the
/// new value; a new key is added unless the tree already holds MAX_SIZE nodes, and then
/// the tree is left as it was and None comes back.
#[verifier::external_body]
pub(crate) fn tree_insert(q: &mut ActionQueue, key: [u64; 3], value: [u8; 32]) -> (r: bool)
    requires
        tree_sound(queue_bytes(*old(q))),
        queue_bounded(tree_entries(queue_bytes(*old(q)))),
    ensures
        tree_sound(queue_bytes(*final(q))),
        r <==> (tree_entries(queue_bytes(*old(q))).contains_key(key_model(key))
            || tree_entries(queue_bytes(*old(q))).len() < QUEUE_CAPACITY),
        r ==> tree_entries(queue_bytes(*final(q))) == tree_entries(queue_bytes(*old(q))).insert(key_model(key), value@),
        !r ==> queue_bytes(*final(q)) == queue_bytes(*old(q)),
{
    bytemuck::from_bytes_mut::<ActionTree>(q.bytes).insert(key, value).is_some()
}

/// Relies on NodeAllocatorMap::remove of RedBlackTree: the node under `key`, if any,
/// is taken out and its value returned.
#[verifier::external_body]
pub(crate) fn tree_remove(q: &mut ActionQueue, key: [u64; 3]) -> (r: Option<[u8; 32]>)
    requires
        tree_sound(queue_bytes(*old(q))),
    ensures
        tree_sound(queue_bytes(*final(q))),
        match r {
            Some(v) => {
                &&& tree_entries(queue_bytes(*old(q))).contains_key(key_model(key))
                &&& tree_entries(queue_bytes(*old(q)))[key_model(key)] == v@
                &&& tree_entries(queue_bytes(*final(q))) == tree_entries(queue_bytes(*old(q))).remove(key_model(key))
            },
            None => {
                &&& !tree_entries(queue_bytes(*old(q))).contains_key(key_model(key))
                &&& queue_bytes(*final(q)) == queue_bytes(*old(q))
            },
        },
{
    bytemuck::from_bytes_mut::<ActionTree>(q.bytes).remove(&key)
}

/// Relies on NodeAllocatorMap::iter of RedBlackTree: the in-order walk yields the
/// node with the least key first, and nothing when the tree is empty.
#[verifier::external_body]
pub(crate) fn tree_first(q: &ActionQueue) -> (r: Option<([u64; 3], [u8; 32])>)
    requires
        tree_sound(queue_bytes(*q)),
    ensures
        match r {
            Some((k, v)) => {
                &&& is_min_key(tree_entries(queue_bytes(*q)), key_model(k))
                &&& tree_entries(queue_bytes(*q))[key_model(k)] == v@
            },
            None => tree_entries(queue_bytes(*q)).dom() == Set::<KeyModel>::empty(),
        },
{
    bytemuck::from_bytes::<ActionTree>(q.bytes).iter().next().map(|(k, v)| (*k, *v))
}

/// Relies on NodeAllocatorMap::len of RedBlackTree: the number of nodes held.
#[verifier::external_body]
pub(crate) fn tree_len(q: &ActionQueue) -> (r: usize)
    requires
        tree_sound(queue_bytes(*q)),
        queue_bounded(tree_entries(queue_bytes(*q))),
    ensures
        r == tree_entries(queue_bytes(*q)).len(),
{
    bytemuck::from_bytes::<ActionTree>(q.bytes).len()
}

} // verus!
