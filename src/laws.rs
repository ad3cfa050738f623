//! Properties of the scheduler, stated over the model and proved.
use vstd::prelude::*;
use crate::program::{dispatch, enqueue_spec, TAG_ENQUEUE, TAG_SYNC};
use crate::instruction::ASYNC_MAX_VARIANT;
use crate::state::{apply_kind, drain_outcome, is_ready, lemma_min_key_unique, min_key, StateModel, REFILL_AMOUNT};
use crate::store::{is_min_key, key_le, key_lt, lemma_min_exists, KeyModel, QueueModel};

verus! {

/// The node that runs next sorts strictly before every other node of the store,
/// and there is exactly one such node: what `peek_async` shows is what
/// `pop_async` then takes out.
pub proof fn lemma_next_is_least(q: QueueModel, a: KeyModel, b: KeyModel)
    requires
        is_min_key(q, a),
        is_min_key(q, b),
    ensures
        a == b,
        forall|j: KeyModel| #[trigger] q.contains_key(j) && j != a ==> key_lt(a, j),
{
    lemma_min_key_unique(q, a, b);
}

/// The keys of `q` in the order that popping it until it is empty takes them out:
/// each time the least key left.
pub open spec fn pop_order(q: QueueModel) -> Seq<KeyModel>
    decreases q.len(),
{
    if q.dom().finite() && q.contains_key(min_key(q)) {
        seq![min_key(q)] + pop_order(q.remove(min_key(q)))
    } else {
        Seq::empty()
    }
}

/// Popping a store until it is empty yields every key exactly once, in strictly
/// ascending (epoch, kind, seq) order; whatever pop comes first takes the first of
/// that order, and the rest follow the order of what is left.
pub proof fn lemma_pop_order(q: QueueModel)
    requires
        q.dom().finite(),
    ensures
        pop_order(q).len() == q.len(),
        forall|i: int| 0 <= i < pop_order(q).len() ==> q.contains_key(#[trigger] pop_order(q)[i]),
        forall|i: int, j: int| 0 <= i < j < pop_order(q).len()
            ==> key_lt(#[trigger] pop_order(q)[i], #[trigger] pop_order(q)[j]),
        forall|k: KeyModel| #[trigger] q.contains_key(k) ==> pop_order(q).contains(k),
        forall|k: KeyModel| is_min_key(q, k) ==> pop_order(q) == seq![k] + pop_order(#[trigger] q.remove(k)),
    decreases q.len(),
{
    if q.dom() =~= Set::<KeyModel>::empty() {
        assert(!q.contains_key(min_key(q)));
        assert forall|k: KeyModel| is_min_key(q, k) implies pop_order(q) == seq![k] + pop_order(#[trigger] q.remove(k)) by {
            assert(q.dom().contains(k));
        }
    } else {
        lemma_min_exists(q);
        let m = min_key(q);
        assert(is_min_key(q, m));
        let rest = q.remove(m);
        lemma_pop_order(rest);
        let s = pop_order(q);
        let t = pop_order(rest);
        assert(s == seq![m] + t);
        assert forall|i: int| 0 <= i < s.len() implies q.contains_key(#[trigger] s[i]) by {
            if i > 0 {
                assert(s[i] == t[i - 1]);
            }
        }
        assert forall|i: int, j: int| 0 <= i < j < s.len() implies key_lt(#[trigger] s[i], #[trigger] s[j]) by {
            assert(s[j] == t[j - 1]);
            assert(rest.contains_key(t[j - 1]));
            if i == 0 {
                assert(key_le(m, s[j]));
            } else {
                assert(s[i] == t[i - 1]);
            }
        }
        assert forall|k: KeyModel| #[trigger] q.contains_key(k) implies s.contains(k) by {
            if k == m {
                assert(s[0] == m);
            } else {
                assert(rest.contains_key(k));
                let i = choose|i: int| 0 <= i < t.len() && t[i] == k;
                assert(s[i + 1] == k);
            }
        }
        assert forall|k: KeyModel| is_min_key(q, k) implies pop_order(q) == seq![k] + pop_order(#[trigger] q.remove(k)) by {
            lemma_min_key_unique(q, k, m);
        }
    }
}

/// Two enqueues in one epoch that both succeed: when the second has the lower
/// discriminant its key sorts first, so it runs first although it came later.
pub proof fn lemma_lower_kind_overtakes(
    m: StateModel,
    kind1: u64,
    kind2: u64,
    epoch: u64,
    actor1: Seq<u8>,
    actor2: Seq<u8>,
)
    requires
        kind2 < kind1,
        enqueue_spec(m, kind1, epoch, actor1).0 is Ok,
        enqueue_spec(enqueue_spec(m, kind1, epoch, actor1).1, kind2, epoch, actor2).0 is Ok,
    ensures
        ({
            let m1 = enqueue_spec(m, kind1, epoch, actor1).1;
            let m2 = enqueue_spec(m1, kind2, epoch, actor2).1;
            &&& m2.queue.contains_key((epoch, kind1, m.seq))
            &&& m2.queue.contains_key((epoch, kind2, m1.seq))
            &&& key_lt((epoch, kind2, m1.seq), (epoch, kind1, m.seq))
            &&& !is_min_key(m2.queue, (epoch, kind1, m.seq))
        }),
{
    let m1 = enqueue_spec(m, kind1, epoch, actor1).1;
    let m2 = enqueue_spec(m1, kind2, epoch, actor2).1;
    assert(m2.queue.contains_key((epoch, kind1, m.seq)));
    assert(m2.queue.contains_key((epoch, kind2, m1.seq)));
}

/// Over one invocation on an initialised state, credit moves only by a refill
/// (up by `REFILL_AMOUNT`) or a successful enqueue (down by one), and `seq` moves
/// only by a successful enqueue, up by one.
pub proof fn lemma_invocation_credit_and_seq(m: StateModel, actor: Option<Seq<u8>>, epoch: u64, data: Seq<u8>)
    requires
        m.seq != 0,
        data.len() > 0 && data[0] == TAG_SYNC ==> m.credit < u64::MAX,
        data.len() > 0 && data[0] == TAG_ENQUEUE ==> m.seq < u64::MAX,
    ensures
        ({
            let (r, n) = dispatch(m, actor, epoch, data);
            &&& r is Ok && data[0] == TAG_SYNC ==> n.credit == m.credit + REFILL_AMOUNT
            &&& r is Ok && data[0] == TAG_ENQUEUE ==> n.credit == m.credit - 1 && n.seq == m.seq + 1
            &&& !(r is Ok && (data[0] == TAG_SYNC || data[0] == TAG_ENQUEUE)) ==> n.credit == m.credit
            &&& !(r is Ok && data[0] == TAG_ENQUEUE) ==> n.seq == m.seq
            &&& n.seq >= m.seq
        }),
{
}

/// Within one epoch the action with the lower discriminant runs first, whatever
/// the order in which the two were queued.
pub proof fn lemma_lower_kind_first(q: QueueModel, a: KeyModel, b: KeyModel)
    requires
        q.contains_key(a),
        q.contains_key(b),
        a.0 == b.0,
        a.1 < b.1,
    ensures
        key_lt(a, b),
        !is_min_key(q, b),
{
}

/// Two successive enqueues that succeed get strictly increasing sequence numbers,
/// and the second key is not in the store already: the store grows by two nodes.
pub proof fn lemma_successive_enqueues(
    m: StateModel,
    kind1: u64,
    epoch1: u64,
    actor1: Seq<u8>,
    kind2: u64,
    epoch2: u64,
    actor2: Seq<u8>,
)
    requires
        m.queue.dom().finite(),
        forall|k: KeyModel| #[trigger] m.queue.contains_key(k) ==> k.2 < m.seq,
        m.seq < u64::MAX - 1,
        enqueue_spec(m, kind1, epoch1, actor1).0 is Ok,
        enqueue_spec(enqueue_spec(m, kind1, epoch1, actor1).1, kind2, epoch2, actor2).0 is Ok,
    ensures
        ({
            let m1 = enqueue_spec(m, kind1, epoch1, actor1).1;
            let m2 = enqueue_spec(m1, kind2, epoch2, actor2).1;
            &&& m1.seq == m.seq + 1
            &&& m2.seq == m1.seq + 1
            &&& !m.queue.contains_key((epoch1, kind1, m.seq))
            &&& !m1.queue.contains_key((epoch2, kind2, m1.seq))
            &&& m2.queue.len() == m.queue.len() + 2
        }),
{
    let m1 = enqueue_spec(m, kind1, epoch1, actor1).1;
    assert(!m.queue.contains_key((epoch1, kind1, m.seq)));
    assert(m1.queue.dom() == m.queue.dom().insert((epoch1, kind1, m.seq)));
    assert(!m1.queue.contains_key((epoch2, kind2, m1.seq)));
}

/// A drain at an epoch not past the one an action was queued in leaves it
/// queued, untouched; from the next epoch on, a drain that succeeds takes it out.
/// A drain never adds an action.
pub proof fn lemma_epoch_gate(q: QueueModel, value: u64, current: u64, k: KeyModel)
    requires
        q.dom().finite(),
        q.contains_key(k),
    ensures
        current <= k.0 ==> {
            &&& drain_outcome(q, value, current).2.contains_key(k)
            &&& drain_outcome(q, value, current).2[k] == q[k]
        },
        current >= k.0 + 1 && drain_outcome(q, value, current).0 is Ok
            ==> !drain_outcome(q, value, current).2.contains_key(k),
        forall|j: KeyModel| #[trigger] drain_outcome(q, value, current).2.contains_key(j) ==> q.contains_key(j),
    decreases q.len(),
{
    let m = min_key(q);
    lemma_min_exists(q);
    assert(is_min_key(q, m));
    if is_ready(m, current) && m.1 <= ASYNC_MAX_VARIANT {
        let rest = q.remove(m);
        if m != k {
            lemma_epoch_gate(rest, apply_kind(m.1, value), current, k);
        } else {
            let o = drain_outcome(rest, apply_kind(m.1, value), current);
            if rest.contains_key(k) {
                assert(false);
            }
            if rest.dom().len() > 0 {
                let j = rest.dom().choose();
                assert(rest.dom().contains(j)) by {
                    if !rest.dom().contains(j) {
                        assert(rest.dom() =~= Set::<KeyModel>::empty());
                    }
                }
                lemma_epoch_gate(rest, apply_kind(m.1, value), current, j);
                assert(!o.2.contains_key(k));
            } else {
                assert(rest.dom() =~= Set::<KeyModel>::empty());
            }
        }
    } else if !is_ready(m, current) {
        assert(key_le(m, k));
    }
}

/// Each async step moves the counter by one and stays within `u64`: a decrement
/// at zero and an increment at `u64::MAX` leave it where it is.
pub proof fn lemma_saturation(kind: u64, value: u64)
    ensures
        0 <= apply_kind(kind, value) <= u64::MAX,
        kind == 0 ==> apply_kind(kind, value) == if value == 0 { 0 } else { value - 1 },
        kind != 0 ==> apply_kind(kind, value) == if value == u64::MAX { u64::MAX as int } else { value + 1 },
{
}

} // verus!
