//! Socket outgoing message queue with priorities and message expiration.
//!
//! Messages wait in one first-in-first-out queue per priority. The next message to send is the
//! oldest one of the highest priority (lowest priority number). Every message carries the time it
//! was queued, in nanoseconds of a monotonic clock since the queue was made; the queue never reads
//! a time earlier than the latest it has seen. Queues whose oldest message has waited longer than
//! the configured age are dropped, together with every queue of lower priority, but queues with a
//! priority below the configured drop priority are never dropped.

use vstd::prelude::*;

use std::collections::{BTreeMap, VecDeque};
use std::time::Instant;

use crate::clock::{elapsed_nanos, elapsed_reading, instant_now};
use crate::{Priority, SocketConfig};

verus! {

broadcast use vstd::std_specs::btree::group_btree_axioms, vstd::laws_cmp::group_laws_cmp;

/// Number of distinct priorities.
pub const NUM_PRIORITIES: usize = 256;

/// A queue of messages, each with the nanosecond it was queued at.
pub type MsgQueue<T> = Seq<(u64, T)>;

/// The queues of an `OutQueue`: each priority that has messages waiting maps to them, oldest
/// first.
pub type QueueMap<T> = Map<u8, MsgQueue<T>>;

/// Whole seconds that passed from `at` to `now` (nanoseconds); none if `at` is not before `now`.
pub open spec fn age_secs(now: u64, at: u64) -> int {
    if now >= at {
        (now - at) / 1_000_000_000
    } else {
        0
    }
}

/// Whether a queue of the given priority may stay at time `now`: high priority queues always
/// stay; any other queue stays while it is empty or its oldest message is not older than
/// `max_age_secs`.
pub open spec fn queue_is_valid<T>(
    priority: u8,
    queue: MsgQueue<T>,
    drop_priority: u8,
    max_age_secs: u64,
    now: u64,
) -> bool {
    ||| priority < drop_priority
    ||| queue.len() == 0
    ||| age_secs(now, queue[0].0) <= max_age_secs
}

/// The queue of priority `p`: its messages, or none.
pub open spec fn queue_of<T>(q: QueueMap<T>, p: u8) -> MsgQueue<T> {
    if q.contains_key(p) {
        q[p]
    } else {
        Seq::empty()
    }
}

/// The priorities of the queues to drop, in increasing order, looking at priorities from `p` on:
/// queues are skipped while `skipping` holds and they are valid; from the first invalid queue on,
/// every queue is dropped.
pub open spec fn expired_keys_from<T>(
    q: QueueMap<T>,
    drop_priority: u8,
    max_age_secs: u64,
    now: u64,
    p: int,
    skipping: bool,
) -> Seq<u8>
    decreases 256 - p,
{
    if p < 0 || p >= 256 {
        Seq::empty()
    } else if !q.contains_key(p as u8) {
        expired_keys_from(q, drop_priority, max_age_secs, now, p + 1, skipping)
    } else if skipping && queue_is_valid(p as u8, q[p as u8], drop_priority, max_age_secs, now) {
        expired_keys_from(q, drop_priority, max_age_secs, now, p + 1, true)
    } else {
        seq![p as u8] + expired_keys_from(q, drop_priority, max_age_secs, now, p + 1, false)
    }
}

/// The priorities of the queues that are dropped at time `now`, in increasing order.
pub open spec fn expired_keys<T>(
    q: QueueMap<T>,
    drop_priority: u8,
    max_age_secs: u64,
    now: u64,
) -> Seq<u8> {
    expired_keys_from(q, drop_priority, max_age_secs, now, 0, true)
}

/// Number of messages in the queues of the given priorities.
pub open spec fn total_len<T>(q: QueueMap<T>, keys: Seq<u8>) -> nat
    decreases keys.len(),
{
    if keys.len() == 0 {
        0
    } else {
        queue_of(q, keys[0]).len() + total_len(q, keys.drop_first())
    }
}

/// The lowest priority, from `p` on, that has messages waiting.
pub open spec fn first_key_from<T>(q: QueueMap<T>, p: int) -> Option<u8>
    decreases 256 - p,
{
    if p < 0 || p >= 256 {
        None
    } else if q.contains_key(p as u8) {
        Some(p as u8)
    } else {
        first_key_from(q, p + 1)
    }
}

/// The highest priority that has messages waiting.
pub open spec fn first_key<T>(q: QueueMap<T>) -> Option<u8> {
    first_key_from(q, 0)
}

/// The queues after the oldest message of priority `p` left.
pub open spec fn pop_front_at<T>(q: QueueMap<T>, p: u8) -> QueueMap<T> {
    if q[p].len() <= 1 {
        q.remove(p)
    } else {
        q.insert(p, q[p].drop_first())
    }
}

/// The queues after `msg` queued at `when` joined priority `p`.
pub open spec fn push_spec<T>(q: QueueMap<T>, when: u64, msg: T, p: u8) -> QueueMap<T> {
    q.insert(p, queue_of(q, p).push((when, msg)))
}

/// Number of priorities, from `p` on, that have messages waiting.
pub open spec fn count_queues_from<T>(q: QueueMap<T>, p: int) -> nat
    decreases 256 - p,
{
    if p < 0 || p >= 256 {
        0
    } else {
        (if q.contains_key(p as u8) {
            1nat
        } else {
            0nat
        }) + count_queues_from(q, p + 1)
    }
}

/// What dropping the expired queues at time `now` leaves and reports: the expired queues are
/// gone, every other queue is unchanged, and `dropped` counts the messages that left (saturated at
/// `usize::MAX`).
pub open spec fn drop_expired_post<T>(
    old_q: QueueMap<T>,
    new_q: QueueMap<T>,
    dropped: usize,
    drop_priority: u8,
    max_age_secs: u64,
    now: u64,
) -> bool {
    let keys = expired_keys(old_q, drop_priority, max_age_secs, now);
    &&& new_q == old_q.remove_keys(keys.to_set())
    &&& dropped as int == if total_len(old_q, keys) <= usize::MAX {
        total_len(old_q, keys) as int
    } else {
        usize::MAX as int
    }
}

/// The priorities to drop are strictly increasing and lie between `p` and the last priority.
pub proof fn lemma_expired_keys_sorted<T>(
    q: QueueMap<T>,
    drop_priority: u8,
    max_age_secs: u64,
    now: u64,
    p: int,
    skipping: bool,
)
    ensures
        ({
            let s = expired_keys_from(q, drop_priority, max_age_secs, now, p, skipping);
            &&& forall|i: int| 0 <= i < s.len() ==> p <= #[trigger] s[i]
            &&& forall|a: int, b: int| 0 <= a < b < s.len() ==> s[a] < s[b]
        }),
    decreases 256 - p,
{
    if p < 0 || p >= 256 {
    } else {
        lemma_expired_keys_sorted(q, drop_priority, max_age_secs, now, p + 1, skipping);
        lemma_expired_keys_sorted(q, drop_priority, max_age_secs, now, p + 1, true);
        lemma_expired_keys_sorted(q, drop_priority, max_age_secs, now, p + 1, false);
        let s = expired_keys_from(q, drop_priority, max_age_secs, now, p, skipping);
        let t = expired_keys_from(q, drop_priority, max_age_secs, now, p + 1, false);
        if q.contains_key(p as u8) && !(skipping && queue_is_valid(p as u8, q[p as u8], drop_priority, max_age_secs, now)) {
            assert(s == seq![p as u8] + t);
            assert forall|a: int, b: int| 0 <= a < b < s.len() implies s[a] < s[b] by {
                if a == 0 {
                    assert(s[b] == t[b - 1]);
                } else {
                    assert(s[a] == t[a - 1] && s[b] == t[b - 1]);
                }
            }
        }
    }
}

/// Adding one more priority to a list adds the length of its queue.
pub proof fn lemma_total_len_push<T>(q: QueueMap<T>, keys: Seq<u8>, k: u8)
    ensures
        total_len(q, keys.push(k)) == total_len(q, keys) + queue_of(q, k).len(),
    decreases keys.len(),
{
    if keys.len() == 0 {
        assert(keys.push(k)[0] == k);
        assert(keys.push(k).drop_first() =~= Seq::<u8>::empty());
        assert(total_len(q, Seq::<u8>::empty()) == 0);
    } else {
        lemma_total_len_push(q, keys.drop_first(), k);
        assert(keys.push(k)[0] == keys[0]);
        assert(keys.push(k).drop_first() =~= keys.drop_first().push(k));
    }
}

/// A queue is dropped at time `now` exactly when some queue of the same or a higher priority
/// (a lower or equal priority number) is not valid at `now`.
pub open spec fn dropped_at<T>(q: QueueMap<T>, drop_priority: u8, max_age_secs: u64, now: u64, k: u8) -> bool {
    &&& q.contains_key(k)
    &&& some_invalid_between(q, drop_priority, max_age_secs, now, 0, k)
}

/// Some queue from priority `lo` to priority `k` is not valid at `now`.
pub open spec fn some_invalid_between<T>(
    q: QueueMap<T>,
    drop_priority: u8,
    max_age_secs: u64,
    now: u64,
    lo: int,
    k: u8,
) -> bool {
    exists|j: u8| #![trigger q[j]] lo <= j <= k && q.contains_key(j) && !queue_is_valid(j, q[j], drop_priority, max_age_secs, now)
}

proof fn lemma_expired_keys_from_contains<T>(
    q: QueueMap<T>,
    drop_priority: u8,
    max_age_secs: u64,
    now: u64,
    p: int,
    skipping: bool,
)
    requires
        0 <= p <= 256,
    ensures
        forall|k: u8| #[trigger] expired_keys_from(q, drop_priority, max_age_secs, now, p, skipping).contains(k) <==> {
            &&& p <= k
            &&& q.contains_key(k)
            &&& (!skipping || some_invalid_between(q, drop_priority, max_age_secs, now, p, k))
        },
    decreases 256 - p,
{
    if p < 256 {
        lemma_expired_keys_from_contains(q, drop_priority, max_age_secs, now, p + 1, skipping);
        lemma_expired_keys_from_contains(q, drop_priority, max_age_secs, now, p + 1, true);
        lemma_expired_keys_from_contains(q, drop_priority, max_age_secs, now, p + 1, false);
        let s = expired_keys_from(q, drop_priority, max_age_secs, now, p, skipping);
        let pk = p as u8;
        assert forall|k: u8| #[trigger] s.contains(k) <==> {
            &&& p <= k
            &&& q.contains_key(k)
            &&& (!skipping || some_invalid_between(q, drop_priority, max_age_secs, now, p, k))
        } by {
            let rhs = p <= k && q.contains_key(k) && (!skipping || some_invalid_between(q, drop_priority, max_age_secs, now, p, k));
            if !q.contains_key(pk) {
                let t = expired_keys_from(q, drop_priority, max_age_secs, now, p + 1, skipping);
                assert(s == t);
                if some_invalid_between(q, drop_priority, max_age_secs, now, p, k) {
                    let j = choose|j: u8| #![trigger q[j]] p <= j <= k && q.contains_key(j) && !queue_is_valid(j, q[j], drop_priority, max_age_secs, now);
                    assert(j != pk);
                    assert(some_invalid_between(q, drop_priority, max_age_secs, now, p + 1, k));
                }
                if some_invalid_between(q, drop_priority, max_age_secs, now, p + 1, k) {
                    let j = choose|j: u8| #![trigger q[j]] p + 1 <= j <= k && q.contains_key(j) && !queue_is_valid(j, q[j], drop_priority, max_age_secs, now);
                    assert(some_invalid_between(q, drop_priority, max_age_secs, now, p, k));
                }
                if q.contains_key(k) {
                    assert(k != pk);
                }
            } else if skipping && queue_is_valid(pk, q[pk], drop_priority, max_age_secs, now) {
                let t = expired_keys_from(q, drop_priority, max_age_secs, now, p + 1, true);
                assert(s == t);
                if some_invalid_between(q, drop_priority, max_age_secs, now, p, k) {
                    let j = choose|j: u8| #![trigger q[j]] p <= j <= k && q.contains_key(j) && !queue_is_valid(j, q[j], drop_priority, max_age_secs, now);
                    assert(j != pk);
                    assert(some_invalid_between(q, drop_priority, max_age_secs, now, p + 1, k));
                }
                if some_invalid_between(q, drop_priority, max_age_secs, now, p + 1, k) {
                    let j = choose|j: u8| #![trigger q[j]] p + 1 <= j <= k && q.contains_key(j) && !queue_is_valid(j, q[j], drop_priority, max_age_secs, now);
                    assert(some_invalid_between(q, drop_priority, max_age_secs, now, p, k));
                }
            } else {
                let t = expired_keys_from(q, drop_priority, max_age_secs, now, p + 1, false);
                assert(s == seq![pk] + t);
                if s.contains(k) {
                    let i = choose|i: int| 0 <= i < s.len() && s[i] == k;
                    if i > 0 {
                        assert(t[i - 1] == k);
                        assert(t.contains(k));
                    }
                    if skipping {
                        assert(!queue_is_valid(pk, q[pk], drop_priority, max_age_secs, now));
                        assert(pk <= k);
                        assert(some_invalid_between(q, drop_priority, max_age_secs, now, p, k));
                    }
                    assert(rhs);
                }
                if rhs {
                    if k == pk {
                        assert(s[0] == k);
                    } else {
                        assert(t.contains(k));
                        let i = choose|i: int| 0 <= i < t.len() && t[i] == k;
                        assert(s[i + 1] == k);
                    }
                    assert(s.contains(k));
                }
            }
        }
    }
}

/// The queues that are dropped are exactly those that follow, or are, a queue that is not valid:
/// the looking stops at the first expired queue and drops it and everything after it.
pub proof fn lemma_expired_keys_are_dropped_at<T>(q: QueueMap<T>, drop_priority: u8, max_age_secs: u64, now: u64)
    ensures
        forall|k: u8| #[trigger] expired_keys(q, drop_priority, max_age_secs, now).contains(k)
            <==> dropped_at(q, drop_priority, max_age_secs, now, k),
{
    lemma_expired_keys_from_contains(q, drop_priority, max_age_secs, now, 0, true);
}

/// Messages of a priority below the drop priority are never dropped: dropping expired queues
/// leaves every such queue as it was.
pub proof fn law_high_priority_never_dropped<T>(
    old_q: QueueMap<T>,
    new_q: QueueMap<T>,
    dropped: usize,
    drop_priority: u8,
    max_age_secs: u64,
    now: u64,
)
    requires
        drop_expired_post(old_q, new_q, dropped, drop_priority, max_age_secs, now),
    ensures
        forall|k: u8| k < drop_priority && #[trigger] old_q.contains_key(k) ==> new_q.contains_key(k) && new_q[k] == old_q[k],
{
    lemma_expired_keys_are_dropped_at(old_q, drop_priority, max_age_secs, now);
    let keys = expired_keys(old_q, drop_priority, max_age_secs, now);
    assert forall|k: u8| k < drop_priority && #[trigger] old_q.contains_key(k) implies new_q.contains_key(k) && new_q[k] == old_q[k] by {
        assert(!keys.contains(k));
        assert(!keys.to_set().contains(k));
    }
}

/// After dropping the expired queues at time `now`, no queue left holds a message older than
/// the maximum age, unless its priority is below the drop priority.
pub proof fn law_remaining_queues_are_valid<T>(
    old_q: QueueMap<T>,
    new_q: QueueMap<T>,
    dropped: usize,
    drop_priority: u8,
    max_age_secs: u64,
    now: u64,
)
    requires
        drop_expired_post(old_q, new_q, dropped, drop_priority, max_age_secs, now),
    ensures
        forall|k: u8| #[trigger] new_q.contains_key(k) ==> queue_is_valid(k, new_q[k], drop_priority, max_age_secs, now),
{
    lemma_expired_keys_are_dropped_at(old_q, drop_priority, max_age_secs, now);
    let keys = expired_keys(old_q, drop_priority, max_age_secs, now);
    assert forall|k: u8| #[trigger] new_q.contains_key(k) implies queue_is_valid(k, new_q[k], drop_priority, max_age_secs, now) by {
        assert(!keys.to_set().contains(k));
        assert(!keys.contains(k));
        assert(old_q.contains_key(k) && new_q[k] == old_q[k]);
        if !queue_is_valid(k, old_q[k], drop_priority, max_age_secs, now) {
            assert(dropped_at(old_q, drop_priority, max_age_secs, now, k));
        }
    }
}

/// Dropping the expired queues keeps exactly the queues of priority before the first queue that
/// is not valid, each unchanged, and removes the others; the count is the number of messages in
/// the removed queues (saturated at `usize::MAX`).
pub proof fn law_drop_keeps_queues_before_the_first_invalid<T>(
    old_q: QueueMap<T>,
    new_q: QueueMap<T>,
    dropped: usize,
    drop_priority: u8,
    max_age_secs: u64,
    now: u64,
)
    requires
        drop_expired_post(old_q, new_q, dropped, drop_priority, max_age_secs, now),
    ensures
        forall|k: u8|
            #[trigger] new_q.contains_key(k) <==> old_q.contains_key(k) && !dropped_at(old_q, drop_priority, max_age_secs, now, k),
        forall|k: u8| #[trigger] new_q.contains_key(k) ==> new_q[k] == old_q[k],
        dropped as int == if total_len(old_q, expired_keys(old_q, drop_priority, max_age_secs, now)) <= usize::MAX {
            total_len(old_q, expired_keys(old_q, drop_priority, max_age_secs, now)) as int
        } else {
            usize::MAX as int
        },
{
    lemma_expired_keys_are_dropped_at(old_q, drop_priority, max_age_secs, now);
    let keys = expired_keys(old_q, drop_priority, max_age_secs, now);
    assert forall|k: u8|
        #[trigger] new_q.contains_key(k) <==> old_q.contains_key(k) && !dropped_at(old_q, drop_priority, max_age_secs, now, k) by {
        assert(keys.to_set().contains(k) <==> keys.contains(k));
    }
}

/// Expiry is judged no earlier than a given time: when the expired queues are dropped at a time
/// `now` no earlier than `t` (as `drop_expired` does with a clock reading `t`), a queue of
/// droppable priority whose oldest message is older than the maximum age at `t` is gone.
pub proof fn law_expired_by_then_is_dropped<T>(
    old_q: QueueMap<T>,
    new_q: QueueMap<T>,
    dropped: usize,
    drop_priority: u8,
    max_age_secs: u64,
    now: u64,
    t: u64,
    k: u8,
)
    requires
        drop_expired_post(old_q, new_q, dropped, drop_priority, max_age_secs, now),
        now >= t,
        old_q.contains_key(k),
        old_q[k].len() > 0,
        k >= drop_priority,
        age_secs(t, old_q[k][0].0) > max_age_secs,
    ensures
        !new_q.contains_key(k),
{
    let at = old_q[k][0].0;
    assert(t >= at);
    assert((now - at) / 1_000_000_000int >= (t - at) / 1_000_000_000int) by (nonlinear_arith)
        requires
            now >= t,
            t >= at,
    ;
    assert(!queue_is_valid(k, old_q[k], drop_priority, max_age_secs, now));
    lemma_expired_keys_are_dropped_at(old_q, drop_priority, max_age_secs, now);
    assert(dropped_at(old_q, drop_priority, max_age_secs, now, k));
    let keys = expired_keys(old_q, drop_priority, max_age_secs, now);
    assert(keys.contains(k));
    assert(keys.to_set().contains(k));
}

/// Once a queue is dropped, every queue of lower priority (higher priority number) is dropped
/// too, whether or not its own messages expired.
pub proof fn law_lower_priorities_follow_a_dropped_queue<T>(
    q: QueueMap<T>,
    drop_priority: u8,
    max_age_secs: u64,
    now: u64,
    k: u8,
    j: u8,
)
    requires
        expired_keys(q, drop_priority, max_age_secs, now).contains(k),
        k <= j,
        q.contains_key(j),
    ensures
        expired_keys(q, drop_priority, max_age_secs, now).contains(j),
{
    lemma_expired_keys_are_dropped_at(q, drop_priority, max_age_secs, now);
    assert(dropped_at(q, drop_priority, max_age_secs, now, k));
    let i = choose|i: u8| #![trigger q[i]] 0 <= i <= k && q.contains_key(i) && !queue_is_valid(i, q[i], drop_priority, max_age_secs, now);
    assert(some_invalid_between(q, drop_priority, max_age_secs, now, 0, j));
}

/// The lowest priority from `p` on that has messages waiting is one of them, and no priority from
/// `p` up to it has any.
proof fn lemma_first_key_from<T>(q: QueueMap<T>, p: int)
    requires
        0 <= p <= 256,
    ensures
        match first_key_from(q, p) {
            None => forall|k: u8| p <= k ==> !#[trigger] q.contains_key(k),
            Some(f) => {
                &&& p <= f
                &&& q.contains_key(f)
                &&& forall|k: u8| p <= k < f ==> !#[trigger] q.contains_key(k)
            },
        },
    decreases 256 - p,
{
    if p < 256 {
        lemma_first_key_from(q, p + 1);
    }
}

/// The next message comes from the highest priority that has messages waiting: the priority
/// `first_key` picks holds messages and no smaller priority number does; it picks none exactly
/// when nothing waits.
pub proof fn law_next_comes_from_highest_priority<T>(q: QueueMap<T>)
    ensures
        first_key(q) is None <==> (forall|k: u8| !#[trigger] q.contains_key(k)),
        first_key(q) matches Some(f) ==> q.contains_key(f) && forall|k: u8| #[trigger] q.contains_key(k) ==> f <= k,
{
    lemma_first_key_from(q, 0);
    if first_key(q) is None {
    } else {
        let f = first_key(q)->Some_0;
        assert(q.contains_key(f));
    }
}

/// A message queued into an empty queue is the next one out, and taking it leaves the queue
/// empty again.
pub proof fn law_pushed_message_comes_out<T>(when: u64, msg: T, p: u8)
    ensures
        first_key(push_spec(Map::<u8, MsgQueue<T>>::empty(), when, msg, p)) == Some(p),
        push_spec(Map::<u8, MsgQueue<T>>::empty(), when, msg, p)[p][0].1 == msg,
        pop_front_at(push_spec(Map::<u8, MsgQueue<T>>::empty(), when, msg, p), p) == Map::<u8, MsgQueue<T>>::empty(),
{
    let q = push_spec(Map::<u8, MsgQueue<T>>::empty(), when, msg, p);
    law_next_comes_from_highest_priority(q);
    assert(q.contains_key(p));
    assert(pop_front_at(q, p) =~= Map::<u8, MsgQueue<T>>::empty());
}

/// Every priority present in the queues has at least one message, as in every `OutQueue`.
pub open spec fn no_empty_queue<T>(q: QueueMap<T>) -> bool {
    forall|k: u8| #[trigger] q.contains_key(k) ==> q[k].len() > 0
}

/// A newly queued message never overtakes a waiting one of the same or a higher priority: if
/// messages wait and the new one joins a priority no higher than the next one out, the next
/// message out is the same as before.
pub proof fn law_push_does_not_overtake<T>(q: QueueMap<T>, when: u64, msg: T, p: u8)
    requires
        no_empty_queue(q),
        first_key(q) matches Some(f) && f <= p,
    ensures
        first_key(push_spec(q, when, msg, p)) == first_key(q),
        push_spec(q, when, msg, p)[first_key(q)->Some_0][0] == q[first_key(q)->Some_0][0],
{
    let f = first_key(q)->Some_0;
    let q2 = push_spec(q, when, msg, p);
    law_next_comes_from_highest_priority(q);
    law_next_comes_from_highest_priority(q2);
    let f2 = first_key(q2)->Some_0;
    assert(q2.contains_key(f));
    assert(q.contains_key(f2) || f2 == p);
    assert(f2 == f);
}

/// No message in the queues is stamped later than `t`.
pub open spec fn stamps_at_most<T>(q: QueueMap<T>, t: u64) -> bool {
    forall|k: u8, i: int| q.contains_key(k) && 0 <= i < q[k].len() ==> #[trigger] q[k][i].0 <= t
}

/// A bound on the stamps holds of every later time too.
proof fn lemma_stamps_at_most_later<T>(q: QueueMap<T>, t: u64, u: u64)
    requires
        stamps_at_most(q, t),
        t <= u,
    ensures
        stamps_at_most(q, u),
{
    assert forall|k: u8, i: int| q.contains_key(k) && 0 <= i < q[k].len() implies #[trigger] q[k][i].0 <= u by {
        assert(q[k][i].0 <= t);
    }
}

/// Socket outgoing message queue with priorities and message expiration.
pub struct OutQueue<T> {
    /// The queue of each priority that has messages waiting.
    inner: BTreeMap<u8, VecDeque<(u64, T)>>,
    conf: SocketConfig,
    /// The clock reading that queue times are measured from.
    epoch: Instant,
    /// The latest time the queue has seen: no message is stamped later.
    latest: u64,
}

impl<T> View for OutQueue<T> {
    type V = QueueMap<T>;

    closed spec fn view(&self) -> QueueMap<T> {
        Map::new(
            |p: u8| self.inner@.contains_key(p),
            |p: u8| self.inner@[p]@,
        )
    }
}

/// Checks if given message queue should not be dropped at time `now`.
pub fn is_queue_valid<T>(priority: u8, queue: &VecDeque<(u64, T)>, conf: &SocketConfig, now: u64) -> (r: bool)
    ensures
        r == queue_is_valid(priority, queue@, conf.msg_drop_priority, conf.max_msg_age_secs, now),
{
    if priority < conf.msg_drop_priority {
        return true;
    }
    if queue.len() == 0 {
        return true;
    }
    let at = queue[0].0;
    let age = if now >= at {
        (now - at) / 1_000_000_000
    } else {
        0
    };
    age <= conf.max_msg_age_secs
}

impl<T> OutQueue<T> {
    /// The queue is well formed: every priority it keeps has messages, and no message is stamped
    /// later than the latest time the queue has seen.
    pub closed spec fn wf(&self) -> bool {
        &&& forall|p: u8| #[trigger] self.inner@.contains_key(p) ==> self.inner@[p]@.len() > 0
        &&& stamps_at_most(self@, self.latest)
    }

    /// The latest time the queue has seen, in nanoseconds since it was made: the latest clock
    /// reading or message stamp.
    pub closed spec fn latest(&self) -> u64 {
        self.latest
    }

    /// No message waiting is stamped later than the latest time the queue has seen.
    pub proof fn lemma_stamps_at_most_latest(&self)
        requires
            self.wf(),
        ensures
            stamps_at_most(self@, self.latest()),
    {
    }

    /// The clock reading that queue times are measured from.
    pub closed spec fn epoch(&self) -> Instant {
        self.epoch
    }

    /// The configuration the queue was made with.
    pub closed spec fn config(&self) -> SocketConfig {
        self.conf
    }

    /// A queue never keeps a priority that has no messages left: taking the last message of a
    /// priority removes the priority.
    pub proof fn law_no_empty_queue_is_kept(&self)
        requires
            self.wf(),
        ensures
            no_empty_queue(self@),
    {
    }

    proof fn lemma_view_at(&self, p: u8)
        requires
            self.wf(),
        ensures
            self@.contains_key(p) <==> self.inner@.contains_key(p),
            self.inner@.contains_key(p) ==> self@[p] == self.inner@[p]@ && self@[p].len() > 0,
            queue_of(self@, p) == if self.inner@.contains_key(p) {
                self.inner@[p]@
            } else {
                Seq::<(u64, T)>::empty()
            },
    {
    }

    /// Constructs empty write queue.
    pub fn new(conf: SocketConfig) -> (r: Self)
        ensures
            r.wf(),
            r@ == Map::<u8, MsgQueue<T>>::empty(),
            r.config() == conf,
            r.latest() == 0,
    {
        let r = OutQueue { inner: BTreeMap::new(), conf, epoch: instant_now(), latest: 0 };
        assert(r@ =~= Map::<u8, MsgQueue<T>>::empty());
        r
    }

    /// The current time in nanoseconds since the queue was made, never earlier than the latest
    /// time the queue has seen. The clock is monotonic, so the latter bound only matters when the
    /// queue was given later stamps by hand.
    fn now(&self) -> (r: u64)
        ensures
            r >= self.latest(),
            exists|t: u64| #[trigger] elapsed_reading(self.epoch(), t) && r >= t,
    {
        let t = elapsed_nanos(&self.epoch);
        assert(elapsed_reading(self.epoch(), t));
        if t < self.latest {
            self.latest
        } else {
            t
        }
    }

    /// Push buffer to the queue with the given priority, stamped with the current time: a time no
    /// earlier than any the queue has seen, which becomes its latest time.
    pub fn push(&mut self, buf: T, priority: Priority)
        requires
            old(self).wf(),
        ensures
            final(self).wf(),
            final(self).config() == old(self).config(),
            final(self).epoch() == old(self).epoch(),
            exists|when: u64|
                {
                    &&& when >= old(self).latest()
                    &&& exists|t: u64| #[trigger] elapsed_reading(old(self).epoch(), t) && when >= t
                    &&& final(self).latest() == when
                    &&& stamps_at_most(old(self)@, when)
                    &&& final(self)@ == push_spec(old(self)@, when, buf, priority)
                },
    {
        let now = self.now();
        proof {
            self.lemma_stamps_at_most_latest();
            lemma_stamps_at_most_later(self@, self.latest, now);
        }
        self.push_at(now, buf, priority);
    }

    /// Push buffer to the queue with the given priority, stamped with the given time.
    pub fn push_at(&mut self, when: u64, buf: T, priority: Priority)
        requires
            old(self).wf(),
        ensures
            final(self).wf(),
            final(self).config() == old(self).config(),
            final(self).epoch() == old(self).epoch(),
            final(self)@ == push_spec(old(self)@, when, buf, priority),
            final(self).latest() == if when > old(self).latest() { when } else { old(self).latest() },
    {
        proof {
            self.lemma_view_at(priority);
        }
        let mut q = match self.inner.remove(&priority) {
            Some(q) => q,
            None => VecDeque::new(),
        };
        q.push_back((when, buf));
        self.inner.insert(priority, q);
        if when > self.latest {
            self.latest = when;
        }
        assert(self@ =~= push_spec(old(self)@, when, buf, priority));
        assert(stamps_at_most(self@, self.latest)) by {
            assert forall|k: u8, i: int| self@.contains_key(k) && 0 <= i < self@[k].len() implies #[trigger] self@[k][i].0 <= self.latest by {
                if k != priority || i < queue_of(old(self)@, priority).len() {
                    assert(old(self)@.contains_key(k));
                    assert(self@[k][i] == old(self)@[k][i]);
                }
            }
        }
    }

    /// Returns next outgoing message. Messages with lower priority number are first, and within
    /// a priority the oldest message is first.
    pub fn next_msg(&mut self) -> (r: Option<T>)
        requires
            old(self).wf(),
        ensures
            final(self).wf(),
            final(self).config() == old(self).config(),
            final(self).epoch() == old(self).epoch(),
            final(self).latest() == old(self).latest(),
            match first_key(old(self)@) {
                None => r is None && final(self)@ == old(self)@,
                Some(p) => {
                    &&& r == Some(old(self)@[p][0].1)
                    &&& final(self)@ == pop_front_at(old(self)@, p)
                },
            },
    {
        let mut p: usize = 0;
        while p < NUM_PRIORITIES
            invariant
                self.wf(),
                self == old(self),
                p <= NUM_PRIORITIES,
                first_key(self@) == first_key_from(self@, p as int),
            decreases NUM_PRIORITIES - p,
        {
            proof {
                self.lemma_view_at(p as u8);
            }
            let key = p as u8;
            if self.inner.contains_key(&key) {
                assert(first_key(self@) == Some(key));
                let mut q = self.inner.remove(&key).unwrap();
                let msg = q.pop_front();
                if q.len() > 0 {
                    self.inner.insert(key, q);
                }
                proof {
                    assert(self@ =~= pop_front_at(old(self)@, key));
                }
                match msg {
                    Some((_time_stamp, data)) => return Some(data),
                    None => return None,
                }
            }
            p = p + 1;
        }
        None
    }

    /// Returns the priorities of the queues to drop at time `now`, in increasing order: the
    /// queues are looked at from the highest priority on, valid queues are skipped until the
    /// first one that is not valid, and from there on every queue is listed.
    pub fn expired_queues(&self, now: u64) -> (r: Vec<u8>)
        requires
            self.wf(),
        ensures
            r@ == expired_keys(self@, self.config().msg_drop_priority, self.config().max_msg_age_secs, now),
    {
        let ghost q = self@;
        let ghost dp = self.conf.msg_drop_priority;
        let ghost ma = self.conf.max_msg_age_secs;
        let mut r: Vec<u8> = Vec::new();
        let mut skipping = true;
        let mut p: usize = 0;
        while p < NUM_PRIORITIES
            invariant
                self.wf(),
                q == self@,
                dp == self.conf.msg_drop_priority,
                ma == self.conf.max_msg_age_secs,
                p <= NUM_PRIORITIES,
                r@ + expired_keys_from(q, dp, ma, now, p as int, skipping) == expired_keys(q, dp, ma, now),
            decreases NUM_PRIORITIES - p,
        {
            proof {
                self.lemma_view_at(p as u8);
            }
            if self.inner.contains_key(&(p as u8)) {
                if skipping && is_queue_valid(p as u8, self.inner.get(&(p as u8)).unwrap(), &self.conf, now) {
                } else {
                    let ghost sk0 = skipping;
                    skipping = false;
                    let ghost r0 = r@;
                    r.push(p as u8);
                    proof {
                        assert(expired_keys_from(q, dp, ma, now, p as int, sk0)
                            == seq![p as u8] + expired_keys_from(q, dp, ma, now, p as int + 1, false));
                        assert(r@ + expired_keys_from(q, dp, ma, now, p as int + 1, false)
                            =~= r0 + expired_keys_from(q, dp, ma, now, p as int, sk0));
                    }
                }
            }
            p = p + 1;
        }
        assert(r@ =~= expired_keys(q, dp, ma, now));
        r
    }

    /// Drops the expired queues at time `now` and returns how many messages were dropped.
    pub fn drop_expired_at(&mut self, now: u64) -> (dropped: usize)
        requires
            old(self).wf(),
        ensures
            final(self).wf(),
            final(self).config() == old(self).config(),
            final(self).epoch() == old(self).epoch(),
            final(self).latest() == old(self).latest(),
            drop_expired_post(
                old(self)@,
                final(self)@,
                dropped,
                old(self).config().msg_drop_priority,
                old(self).config().max_msg_age_secs,
                now,
            ),
    {
        let keys = self.expired_queues(now);
        let ghost q0 = self@;
        let ghost ks = keys@;
        proof {
            lemma_expired_keys_sorted(q0, self.conf.msg_drop_priority, self.conf.max_msg_age_secs, now, 0, true);
        }
        let mut dropped: usize = 0;
        let mut i: usize = 0;
        while i < keys.len()
            invariant
                self.wf(),
                self.conf == old(self).conf,
                self.latest == old(self).latest,
                self.epoch == old(self).epoch,
                ks == keys@,
                q0 == old(self)@,
                i <= ks.len(),
                forall|a: int, b: int| 0 <= a < b < ks.len() ==> ks[a] < ks[b],
                self@ == q0.remove_keys(ks.take(i as int).to_set()),
                dropped as int == if total_len(q0, ks.take(i as int)) <= usize::MAX {
                    total_len(q0, ks.take(i as int)) as int
                } else {
                    usize::MAX as int
                },
            decreases ks.len() - i,
        {
            let k = keys[i];
            proof {
                self.lemma_view_at(k);
                assert(!ks.take(i as int).contains(k)) by {
                    if ks.take(i as int).contains(k) {
                        let j = choose|j: int| 0 <= j < i && ks.take(i as int)[j] == k;
                        assert(ks[j] < ks[i as int]);
                    }
                }
                assert(queue_of(self@, k) == queue_of(q0, k));
                lemma_total_len_push(q0, ks.take(i as int), k);
                assert(ks.take(i as int).push(k) =~= ks.take(i as int + 1));
            }
            let ghost before = self@;
            let n = match self.inner.remove(&k) {
                Some(q) => q.len(),
                None => 0,
            };
            dropped = dropped.saturating_add(n);
            proof {
                assert(self@ =~= before.remove(k));
            }
            i = i + 1;
            proof {
                let pre = ks.take(i as int - 1);
                let cur = ks.take(i as int);
                assert(cur =~= pre.push(k));
                assert(cur.to_set() =~= pre.to_set().insert(k)) by {
                    assert forall|p: u8| cur.to_set().contains(p) <==> pre.to_set().insert(k).contains(p) by {
                        if cur.contains(p) {
                            let j = choose|j: int| 0 <= j < cur.len() && #[trigger] cur[j] == p;
                            if j < pre.len() {
                                assert(pre[j] == p);
                            }
                        }
                        if pre.contains(p) {
                            let j = choose|j: int| 0 <= j < pre.len() && #[trigger] pre[j] == p;
                            assert(cur[j] == p);
                        }
                        if p == k {
                            assert(cur[cur.len() - 1] == k);
                        }
                    }
                }
                assert(before.remove(k) =~= q0.remove_keys(cur.to_set()));
            }
        }
        assert(ks.take(ks.len() as int) =~= ks);
        dropped
    }

    /// Drops the queues that have expired by now and returns how many messages were dropped.
    pub fn drop_expired(&mut self) -> (dropped: usize)
        requires
            old(self).wf(),
        ensures
            final(self).wf(),
            final(self).config() == old(self).config(),
            final(self).epoch() == old(self).epoch(),
            exists|now: u64|
                {
                    &&& now >= old(self).latest()
                    &&& exists|t: u64| #[trigger] elapsed_reading(old(self).epoch(), t) && now >= t
                    &&& final(self).latest() == now
                    &&& stamps_at_most(old(self)@, now)
                    &&& drop_expired_post(
                        old(self)@,
                        final(self)@,
                        dropped,
                        old(self).config().msg_drop_priority,
                        old(self).config().max_msg_age_secs,
                        now,
                    )
                },
    {
        let now = self.now();
        proof {
            self.lemma_stamps_at_most_latest();
            lemma_stamps_at_most_later(self@, self.latest, now);
        }
        let dropped = self.drop_expired_at(now);
        proof {
            self.lemma_stamps_at_most_latest();
        }
        self.latest = now;
        proof {
            assert(stamps_at_most(self@, self.latest)) by {
                assert forall|k: u8, i: int| self@.contains_key(k) && 0 <= i < self@[k].len() implies #[trigger] self@[k][i].0 <= self.latest by {
                    assert(self@[k][i].0 <= old(self).latest);
                }
            }
        }
        dropped
    }

    /// Number of priorities that have messages waiting.
    pub fn queue_count(&self) -> (r: usize)
        requires
            self.wf(),
        ensures
            r == count_queues_from(self@, 0),
    {
        let mut count: usize = 0;
        let mut p: usize = NUM_PRIORITIES;
        while p > 0
            invariant
                self.wf(),
                p <= NUM_PRIORITIES,
                count <= NUM_PRIORITIES - p,
                count == count_queues_from(self@, p as int),
            decreases p,
        {
            p = p - 1;
            proof {
                self.lemma_view_at(p as u8);
            }
            if self.inner.contains_key(&(p as u8)) {
                count = count + 1;
            }
        }
        count
    }
}

} // verus!
