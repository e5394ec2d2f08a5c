//! The decisions of a UDP socket: buffering received datagrams, queueing datagrams to send, and
//! what to do with each result of the system socket.
//!
//! The system socket itself is driven from outside: a read calls `recv` until it would block and
//! hands each result to `on_recv`; a write hands each datagram that `next_datagram` gives to
//! `send` and its result to `on_send`.

use vstd::prelude::*;

use serde::de::DeserializeOwned;
use serde::ser::Serialize;
use std::collections::VecDeque;
use std::time::Instant;

use crate::clock::elapsed_reading;

use crate::crypto::{decrypts_to, encrypts_to, opens_to, seals_to, DecryptContext, EncryptContext};
use crate::error::{IoError, SocketError};
use crate::out_queue::{
    age_secs, drop_expired_post, dropped_at, expired_keys, first_key, lemma_expired_keys_are_dropped_at, pop_front_at,
    push_spec, queue_is_valid, stamps_at_most, OutQueue, QueueMap,
};
use crate::{Priority, SocketConfig};

verus! {

/// Helper trait for `handle_recv_res()`: whether a received datagram carries no data.
pub trait IsEmpty {
    spec fn spec_is_empty(&self) -> bool;

    fn is_empty(&self) -> (r: bool)
        ensures
            r == self.spec_is_empty();
}

impl IsEmpty for Vec<u8> {
    open spec fn spec_is_empty(&self) -> bool {
        self@.len() == 0
    }

    fn is_empty(&self) -> (r: bool) {
        self.len() == 0
    }
}

impl<A> IsEmpty for (Vec<u8>, A) {
    open spec fn spec_is_empty(&self) -> bool {
        self.0@.len() == 0
    }

    fn is_empty(&self) -> (r: bool) {
        self.0.len() == 0
    }
}

/// UDP socket receive result. It yields data only when socket returns EWOULDBLOCK.
pub enum RecvResult<T> {
    /// Stop reading socket and return some data, if any was read.
    WouldBlock(Option<T>),
    /// Keep reading UDP socket until it returns EWOULDBLOCK.
    ContinueRecv,
}

/// What handling one receive result does to the read buffer `b`, leaving `nb`, and answers: a
/// datagram with data joins the back of the buffer and receiving goes on; when the socket would
/// block (or was interrupted) receiving stops with the oldest buffered datagram, if any; any other
/// error is returned.
pub open spec fn recv_post<T: IsEmpty>(
    recv_res: Result<T, IoError>,
    b: Seq<T>,
    nb: Seq<T>,
    r: Result<RecvResult<T>, SocketError>,
) -> bool {
    match recv_res {
        Ok(msg) => {
            &&& r matches Ok(RecvResult::ContinueRecv)
            &&& nb == if msg.spec_is_empty() {
                b
            } else {
                b.push(msg)
            }
        },
        Err(e) => if e.kind.spec_is_transient() {
            if b.len() == 0 {
                &&& r matches Ok(RecvResult::WouldBlock(None))
                &&& nb == b
            } else {
                &&& r matches Ok(RecvResult::WouldBlock(Some(m))) && m == b[0]
                &&& nb == b.drop_first()
            }
        } else {
            &&& r matches Err(SocketError::Io(x)) && x == e
            &&& nb == b
        },
    }
}

/// Buffers received UDP packets and checks when to stop calling `recv()`: a datagram with data
/// joins the back of the read buffer and receiving goes on; when the socket would block (or was
/// interrupted) receiving stops with the oldest buffered datagram, if any; any other error is
/// returned.
pub fn handle_recv_res<T: IsEmpty>(
    recv_res: Result<T, IoError>,
    read_buffer: &mut VecDeque<T>,
) -> (r: Result<RecvResult<T>, SocketError>)
    ensures
        recv_post(recv_res, old(read_buffer)@, final(read_buffer)@, r),
{
    match recv_res {
        Ok(msg) => {
            if !msg.is_empty() {
                read_buffer.push_back(msg);
            }
            Ok(RecvResult::ContinueRecv)
        },
        Err(error) => {
            if error.kind.is_transient() {
                let front = read_buffer.pop_front();
                proof {
                    if old(read_buffer)@.len() > 0 {
                        assert(read_buffer@ =~= old(read_buffer)@.drop_first());
                    }
                }
                Ok(RecvResult::WouldBlock(front))
            } else {
                Err(SocketError::Io(error))
            }
        },
    }
}

/// Receiving each of the non-empty datagrams `msgs` into an empty read buffer, then receiving
/// until the socket would block one time more than there are datagrams, hands the datagrams out
/// first in, first out, each once, then nothing, and leaves the buffer empty. `bufs` are the
/// buffer's successive contents and `rs` the successive answers.
pub proof fn law_datagrams_come_out_in_order<T: IsEmpty>(
    msgs: Seq<T>,
    e: IoError,
    bufs: Seq<Seq<T>>,
    rs: Seq<Result<RecvResult<T>, SocketError>>,
)
    requires
        e.kind.spec_is_transient(),
        bufs.len() == 2 * msgs.len() + 2,
        rs.len() == 2 * msgs.len() + 1,
        bufs[0] == Seq::<T>::empty(),
        forall|i: int| 0 <= i < msgs.len() ==> !(#[trigger] msgs[i]).spec_is_empty(),
        forall|i: int| 0 <= i < msgs.len() ==> #[trigger] recv_post(Ok(msgs[i]), bufs[i], bufs[i + 1], rs[i]),
        forall|j: int|
            0 <= j <= msgs.len() ==> #[trigger] recv_post(Err(e), bufs[msgs.len() + j], bufs[msgs.len() + j + 1], rs[msgs.len() + j]),
    ensures
        forall|j: int|
            0 <= j < msgs.len() ==> (#[trigger] rs[msgs.len() + j] matches Ok(RecvResult::WouldBlock(Some(m))) && m == msgs[j]),
        rs[2 * msgs.len() as int] matches Ok(RecvResult::WouldBlock(None)),
        bufs[2 * msgs.len() as int + 1] == Seq::<T>::empty(),
{
    let n = msgs.len() as int;
    lemma_received_in_order(msgs, e, bufs, rs, n);
    assert(msgs.take(n) =~= msgs);
    assert forall|j: int| 0 <= j < n implies (#[trigger] rs[n + j] matches Ok(RecvResult::WouldBlock(Some(m))) && m == msgs[j]) by {
        lemma_drained_in_order(msgs, e, bufs, rs, j);
        assert(recv_post(Err(e), bufs[n + j], bufs[n + j + 1], rs[n + j]));
    }
    lemma_drained_in_order(msgs, e, bufs, rs, n);
    assert(recv_post(Err(e), bufs[n + n], bufs[n + n + 1], rs[n + n]));
}

/// After the first `i` datagrams the buffer holds exactly them, in order.
proof fn lemma_received_in_order<T: IsEmpty>(
    msgs: Seq<T>,
    e: IoError,
    bufs: Seq<Seq<T>>,
    rs: Seq<Result<RecvResult<T>, SocketError>>,
    i: int,
)
    requires
        bufs.len() == 2 * msgs.len() + 2,
        rs.len() == 2 * msgs.len() + 1,
        bufs[0] == Seq::<T>::empty(),
        forall|i: int| 0 <= i < msgs.len() ==> !(#[trigger] msgs[i]).spec_is_empty(),
        forall|i: int| 0 <= i < msgs.len() ==> #[trigger] recv_post(Ok(msgs[i]), bufs[i], bufs[i + 1], rs[i]),
        0 <= i <= msgs.len(),
    ensures
        bufs[i] == msgs.take(i),
    decreases i,
{
    if i > 0 {
        lemma_received_in_order(msgs, e, bufs, rs, i - 1);
        let k = i - 1;
        assert(recv_post(Ok(msgs[k]), bufs[k], bufs[k + 1], rs[k]));
        assert(k + 1 == i);
        assert(msgs.take(i) =~= msgs.take(i - 1).push(msgs[i - 1]));
    } else {
        assert(msgs.take(0) =~= Seq::<T>::empty());
    }
}

/// After `j` answers while the socket would block, the buffer holds the datagrams from the
/// `j`-th on.
proof fn lemma_drained_in_order<T: IsEmpty>(
    msgs: Seq<T>,
    e: IoError,
    bufs: Seq<Seq<T>>,
    rs: Seq<Result<RecvResult<T>, SocketError>>,
    j: int,
)
    requires
        e.kind.spec_is_transient(),
        bufs.len() == 2 * msgs.len() + 2,
        rs.len() == 2 * msgs.len() + 1,
        bufs[msgs.len() as int] == msgs,
        forall|j: int|
            0 <= j <= msgs.len() ==> #[trigger] recv_post(Err(e), bufs[msgs.len() + j], bufs[msgs.len() + j + 1], rs[msgs.len() + j]),
        0 <= j <= msgs.len(),
    ensures
        bufs[msgs.len() + j] == msgs.skip(j),
    decreases j,
{
    let n = msgs.len() as int;
    if j > 0 {
        lemma_drained_in_order(msgs, e, bufs, rs, j - 1);
        assert(recv_post(Err(e), bufs[n + (j - 1)], bufs[n + (j - 1) + 1], rs[n + (j - 1)]));
        assert(msgs.skip(j - 1).drop_first() =~= msgs.skip(j));
    } else {
        assert(msgs.skip(0) =~= msgs);
    }
}

/// The answer a read gives for a message decrypted as `x`: the message, or the error.
pub open spec fn read_answer<T>(x: Result<T, SocketError>) -> Result<Option<T>, SocketError> {
    match x {
        Ok(v) => Ok(Some(v)),
        Err(e) => Err(e),
    }
}

/// The answer `r` of a read is the one for the message decrypted as `x`.
pub open spec fn answers_with<T>(r: Option<Result<Option<T>, SocketError>>, x: Result<T, SocketError>) -> bool {
    r == Some(read_answer(x))
}

/// The answers `rs` are, in order, those for the messages decrypted from exactly the datagrams
/// `ds`.
pub open spec fn answered_in_order<
    T: Serialize + DeserializeOwned,
    F: Fn(&DecryptContext, &[u8]) -> Result<Vec<u8>, SocketError>,
>(dec: DecryptContext, open: F, ds: Seq<Vec<u8>>, rs: Seq<Option<Result<Option<T>, SocketError>>>) -> bool {
    &&& rs.len() == ds.len()
    &&& forall|j: int| 0 <= j < ds.len() ==> #[trigger] answers_datagram(dec, open, ds[j], rs[j])
}

/// The answer `r` of a read is the one for the message decrypted from exactly the datagram `d`.
pub open spec fn answers_datagram<
    T: Serialize + DeserializeOwned,
    F: Fn(&DecryptContext, &[u8]) -> Result<Vec<u8>, SocketError>,
>(dec: DecryptContext, open: F, d: Vec<u8>, r: Option<Result<Option<T>, SocketError>>) -> bool {
    exists|x: Result<T, SocketError>| #[trigger] decrypts_to(dec, open, d@, x) && answers_with(r, x)
}

/// What handling one receive result does to the datagrams `b` received from the connected peer,
/// leaving `nb`, and answers: a datagram with data joins the back and receiving goes on; when the
/// socket would block, the oldest datagram leaves and the message decrypted from exactly it is
/// the answer, or nothing if none is buffered; any other error is returned.
pub open spec fn recv_message_post<
    T: Serialize + DeserializeOwned,
    F: Fn(&DecryptContext, &[u8]) -> Result<Vec<u8>, SocketError>,
>(
    dec: DecryptContext,
    open: F,
    recv_res: Result<Vec<u8>, IoError>,
    b: Seq<Vec<u8>>,
    nb: Seq<Vec<u8>>,
    r: Option<Result<Option<T>, SocketError>>,
) -> bool {
    match recv_res {
        Ok(data) => r is None && nb == if data@.len() == 0 {
            b
        } else {
            b.push(data)
        },
        Err(e) => if !e.kind.spec_is_transient() {
            r matches Some(Err(SocketError::Io(x))) && x == e && nb == b
        } else if b.len() == 0 {
            r == Some(Ok::<Option<T>, SocketError>(None)) && nb == b
        } else {
            &&& nb == b.drop_first()
            &&& exists|x: Result<T, SocketError>| #[trigger] decrypts_to(dec, open, b[0]@, x) && r == Some(read_answer(x))
        },
    }
}

/// Receiving the non-empty datagrams `ds` from the connected peer into an empty buffer, then
/// receiving until the socket would block one time more than there are datagrams, answers with
/// the messages decrypted from exactly the datagrams, first in, first out, each once, then with
/// nothing, and leaves the buffer empty. `bufs` are the buffer's successive contents and `rs` the
/// successive answers.
pub proof fn law_datagram_messages_come_out_in_order<
    T: Serialize + DeserializeOwned,
    F: Fn(&DecryptContext, &[u8]) -> Result<Vec<u8>, SocketError>,
>(
    dec: DecryptContext,
    open: F,
    ds: Seq<Vec<u8>>,
    e: IoError,
    bufs: Seq<Seq<Vec<u8>>>,
    rs: Seq<Option<Result<Option<T>, SocketError>>>,
)
    requires
        e.kind.spec_is_transient(),
        bufs.len() == 2 * ds.len() + 2,
        rs.len() == 2 * ds.len() + 1,
        bufs[0] == Seq::<Vec<u8>>::empty(),
        forall|i: int| 0 <= i < ds.len() ==> (#[trigger] ds[i])@.len() > 0,
        forall|i: int|
            0 <= i < ds.len() ==> recv_message_post(dec, open, Ok(#[trigger] ds[i]), bufs[i], bufs[i + 1], rs[i]),
        forall|j: int|
            0 <= j <= ds.len() ==> #[trigger] recv_message_post(dec, open, Err(e), bufs[ds.len() + j], bufs[ds.len() + j + 1], rs[ds.len() + j]),
    ensures
        answered_in_order(dec, open, ds, rs.subrange(ds.len() as int, 2 * ds.len() as int)),
        rs[2 * ds.len() as int] == Some(Ok::<Option<T>, SocketError>(None)),
        bufs[2 * ds.len() as int + 1] == Seq::<Vec<u8>>::empty(),
{
    let n = ds.len() as int;
    lemma_datagrams_buffered(dec, open, ds, e, bufs, rs, n);
    assert(ds.take(n) =~= ds);
    let answers = rs.subrange(n, 2 * n);
    assert forall|j: int| 0 <= j < ds.len() implies #[trigger] answers_datagram(dec, open, ds[j], answers[j]) by {
        lemma_datagrams_drained(dec, open, ds, e, bufs, rs, j);
        assert(recv_message_post(dec, open, Err(e), bufs[n + j], bufs[n + j + 1], rs[n + j]));
        let b = bufs[n + j];
        assert(b.len() > 0 && b[0] == ds[j]);
        let x = choose|x: Result<T, SocketError>| #[trigger] decrypts_to(dec, open, b[0]@, x) && rs[n + j] == Some(read_answer(x));
        assert(answers[j] == rs[n + j]);
        assert(decrypts_to(dec, open, ds[j]@, x) && answers_with(answers[j], x));
    }
    assert(answered_in_order(dec, open, ds, answers));
    lemma_datagrams_drained(dec, open, ds, e, bufs, rs, n);
    assert(recv_message_post(dec, open, Err(e), bufs[n + n], bufs[n + n + 1], rs[n + n]));
}

/// After the first `i` datagrams the buffer holds exactly them, in order.
proof fn lemma_datagrams_buffered<
    T: Serialize + DeserializeOwned,
    F: Fn(&DecryptContext, &[u8]) -> Result<Vec<u8>, SocketError>,
>(
    dec: DecryptContext,
    open: F,
    ds: Seq<Vec<u8>>,
    e: IoError,
    bufs: Seq<Seq<Vec<u8>>>,
    rs: Seq<Option<Result<Option<T>, SocketError>>>,
    i: int,
)
    requires
        bufs.len() == 2 * ds.len() + 2,
        rs.len() == 2 * ds.len() + 1,
        bufs[0] == Seq::<Vec<u8>>::empty(),
        forall|i: int| 0 <= i < ds.len() ==> (#[trigger] ds[i])@.len() > 0,
        forall|i: int|
            0 <= i < ds.len() ==> recv_message_post(dec, open, Ok(#[trigger] ds[i]), bufs[i], bufs[i + 1], rs[i]),
        0 <= i <= ds.len(),
    ensures
        bufs[i] == ds.take(i),
    decreases i,
{
    if i > 0 {
        let k = i - 1;
        lemma_datagrams_buffered(dec, open, ds, e, bufs, rs, k);
        assert(recv_message_post(dec, open, Ok(ds[k]), bufs[k], bufs[k + 1], rs[k]));
        assert(ds[k]@.len() > 0);
        assert(ds.take(i) =~= ds.take(k).push(ds[k]));
    } else {
        assert(ds.take(0) =~= Seq::<Vec<u8>>::empty());
    }
}

/// After `j` answers while the socket would block, the buffer holds the datagrams from the
/// `j`-th on.
proof fn lemma_datagrams_drained<
    T: Serialize + DeserializeOwned,
    F: Fn(&DecryptContext, &[u8]) -> Result<Vec<u8>, SocketError>,
>(
    dec: DecryptContext,
    open: F,
    ds: Seq<Vec<u8>>,
    e: IoError,
    bufs: Seq<Seq<Vec<u8>>>,
    rs: Seq<Option<Result<Option<T>, SocketError>>>,
    j: int,
)
    requires
        e.kind.spec_is_transient(),
        bufs.len() == 2 * ds.len() + 2,
        rs.len() == 2 * ds.len() + 1,
        bufs[ds.len() as int] == ds,
        forall|j: int|
            0 <= j <= ds.len() ==> #[trigger] recv_message_post(dec, open, Err(e), bufs[ds.len() + j], bufs[ds.len() + j + 1], rs[ds.len() + j]),
        0 <= j <= ds.len(),
    ensures
        bufs[ds.len() + j] == ds.skip(j),
    decreases j,
{
    let n = ds.len() as int;
    if j > 0 {
        lemma_datagrams_drained(dec, open, ds, e, bufs, rs, j - 1);
        assert(recv_message_post(dec, open, Err(e), bufs[n + (j - 1)], bufs[n + (j - 1) + 1], rs[n + (j - 1)]));
        assert(ds.skip(j - 1).drop_first() =~= ds.skip(j));
    } else {
        assert(ds.skip(0) =~= ds);
    }
}

/// If failed to send a message, requeue it: when fewer bytes than the message's length were sent
/// it becomes the current write again and sending goes on; when the socket would block (or was
/// interrupted) it becomes the current write and sending stops; any other error is returned.
/// Returns whether sending may go on.
pub fn handle_send_res<M>(
    send_res: Result<usize, IoError>,
    current_write: &mut Option<M>,
    msg_len: usize,
    msg: M,
) -> (r: Result<bool, SocketError>)
    ensures
        match send_res {
            Ok(bytes_txd) => {
                &&& r == Ok::<bool, SocketError>(true)
                &&& *final(current_write) == if bytes_txd < msg_len {
                    Some(msg)
                } else {
                    *old(current_write)
                }
            },
            Err(e) => if e.kind.spec_is_transient() {
                &&& r == Ok::<bool, SocketError>(false)
                &&& *final(current_write) == Some(msg)
            } else {
                &&& r matches Err(SocketError::Io(x)) && x == e
                &&& *final(current_write) == *old(current_write)
            },
        },
{
    match send_res {
        Ok(bytes_txd) => {
            if bytes_txd < msg_len {
                *current_write = Some(msg);
            }
            Ok(true)
        },
        Err(error) => {
            if error.kind.is_transient() {
                *current_write = Some(msg);
                Ok(false)
            } else {
                Err(SocketError::Io(error))
            }
        },
    }
}

/// What taking the next datagram to send does to a pending datagram and a queue: the pending
/// datagram goes first; otherwise the oldest datagram of the highest priority leaves the queue.
pub open spec fn next_to_send<M>(
    pending: Option<M>,
    q: crate::out_queue::QueueMap<M>,
    new_pending: Option<M>,
    new_q: crate::out_queue::QueueMap<M>,
    r: Option<M>,
) -> bool {
    match pending {
        Some(d) => r == Some(d) && new_pending is None && new_q == q,
        None => new_pending is None && match first_key(q) {
            None => r is None && new_q == q,
            Some(p) => r == Some(q[p][0].1) && new_q == pop_front_at(q, p),
        },
    }
}

/// The expired queues were dropped at a time `now` that is no earlier than the clock reading since
/// the queue's `epoch` at the call, and no earlier than the latest time `old_latest` the queue had
/// seen, hence no earlier than any stamp queued, and that becomes the latest time `new_latest`.
pub open spec fn expired_dropped<M>(
    old_q: QueueMap<M>,
    new_q: QueueMap<M>,
    conf: SocketConfig,
    epoch: Instant,
    old_latest: u64,
    new_latest: u64,
) -> bool {
    exists|now: u64, dropped: usize|
        {
            &&& now >= old_latest
            &&& exists|t: u64| #[trigger] elapsed_reading(epoch, t) && now >= t
            &&& new_latest == now
            &&& stamps_at_most(old_q, now)
            &&& #[trigger] drop_expired_post(old_q, new_q, dropped, conf.msg_drop_priority, conf.max_msg_age_secs, now)
        }
}

/// The expired queues were dropped as `expired_dropped` says, then `x` joined priority `p`
/// stamped with a time no earlier than that of the dropping nor than a clock reading at the push,
/// which becomes the latest time.
pub open spec fn expired_dropped_then_pushed<M>(
    old_q: QueueMap<M>,
    new_q: QueueMap<M>,
    conf: SocketConfig,
    epoch: Instant,
    old_latest: u64,
    new_latest: u64,
    x: M,
    p: u8,
) -> bool {
    exists|mid: QueueMap<M>, mid_latest: u64, when: u64|
        {
            &&& #[trigger] expired_dropped(old_q, mid, conf, epoch, old_latest, mid_latest)
            &&& when >= mid_latest
            &&& exists|t: u64| #[trigger] elapsed_reading(epoch, t) && when >= t
            &&& new_latest == when
            &&& new_q == #[trigger] push_spec(mid, when, x, p)
        }
}

/// Expiry: when the expired queues are dropped, a queue of droppable priority whose oldest
/// message was already older than the maximum age at the latest time the queue had seen is gone
/// afterwards; the dropping happens no earlier than that time.
pub proof fn law_old_message_is_dropped<M>(
    old_q: QueueMap<M>,
    new_q: QueueMap<M>,
    conf: SocketConfig,
    epoch: Instant,
    old_latest: u64,
    new_latest: u64,
    k: u8,
)
    requires
        expired_dropped(old_q, new_q, conf, epoch, old_latest, new_latest),
        old_q.contains_key(k),
        old_q[k].len() > 0,
        k >= conf.msg_drop_priority,
        age_secs(old_latest, old_q[k][0].0) > conf.max_msg_age_secs,
    ensures
        !new_q.contains_key(k),
{
    let (now, dropped) = choose|now: u64, dropped: usize|
        {
            &&& now >= old_latest
            &&& exists|t: u64| #[trigger] elapsed_reading(epoch, t) && now >= t
            &&& new_latest == now
            &&& stamps_at_most(old_q, now)
            &&& #[trigger] drop_expired_post(old_q, new_q, dropped, conf.msg_drop_priority, conf.max_msg_age_secs, now)
        };
    let at = old_q[k][0].0;
    assert(old_latest >= at);
    assert((now - at) / 1_000_000_000int >= (old_latest - at) / 1_000_000_000int) by (nonlinear_arith)
        requires
            now >= old_latest,
            old_latest >= at,
    ;
    assert(!queue_is_valid(k, old_q[k], conf.msg_drop_priority, conf.max_msg_age_secs, now));
    lemma_expired_keys_are_dropped_at(old_q, conf.msg_drop_priority, conf.max_msg_age_secs, now);
    assert(dropped_at(old_q, conf.msg_drop_priority, conf.max_msg_age_secs, now, k));
    let keys = expired_keys(old_q, conf.msg_drop_priority, conf.max_msg_age_secs, now);
    assert(keys.contains(k));
    assert(keys.to_set().contains(k));
}

/// Everything a UDP socket keeps besides the system socket itself. `A` is the type of peer
/// addresses.
pub struct UdpState<A> {
    peer: Option<A>,
    read_buffer: VecDeque<Vec<u8>>,
    read_buffer_2: VecDeque<(Vec<u8>, A)>,
    out_queue: OutQueue<Vec<u8>>,
    current_write: Option<Vec<u8>>,
    out_queue2: OutQueue<(Vec<u8>, A)>,
    current_write_2: Option<(Vec<u8>, A)>,
    enc_ctx: EncryptContext,
    dec_ctx: DecryptContext,
}

impl<A: Copy> UdpState<A> {
    /// Both outgoing queues are well formed.
    pub closed spec fn wf(&self) -> bool {
        &&& self.out_queue.wf()
        &&& self.out_queue2.wf()
        &&& self.out_queue2.config() == self.out_queue.config()
    }

    /// The peer the socket is connected to, if any.
    pub closed spec fn peer(&self) -> Option<A> {
        self.peer
    }

    /// Datagrams received from the connected peer and not yet read.
    pub closed spec fn received(&self) -> Seq<Vec<u8>> {
        self.read_buffer@
    }

    /// Datagrams received with their senders and not yet read.
    pub closed spec fn received_from(&self) -> Seq<(Vec<u8>, A)> {
        self.read_buffer_2@
    }

    /// Datagrams queued for the connected peer.
    pub closed spec fn queue(&self) -> crate::out_queue::QueueMap<Vec<u8>> {
        self.out_queue@
    }

    /// The latest time the queue for the connected peer has seen.
    pub closed spec fn queue_latest(&self) -> u64 {
        self.out_queue.latest()
    }

    /// The clock reading that the times of the queue for the connected peer are measured from.
    pub closed spec fn queue_epoch(&self) -> Instant {
        self.out_queue.epoch()
    }

    /// The clock reading that the times of the queue of datagrams with destinations are measured
    /// from.
    pub closed spec fn queue_to_epoch(&self) -> Instant {
        self.out_queue2.epoch()
    }

    /// The latest time the queue of datagrams with destinations has seen.
    pub closed spec fn queue_to_latest(&self) -> u64 {
        self.out_queue2.latest()
    }

    /// Datagrams queued with their destinations.
    pub closed spec fn queue_to(&self) -> crate::out_queue::QueueMap<(Vec<u8>, A)> {
        self.out_queue2@
    }

    /// The datagram for the connected peer whose sending must be retried, if any.
    pub closed spec fn pending(&self) -> Option<Vec<u8>> {
        self.current_write
    }

    /// The datagram with a destination whose sending must be retried, if any.
    pub closed spec fn pending_to(&self) -> Option<(Vec<u8>, A)> {
        self.current_write_2
    }

    /// How outgoing datagrams are encrypted.
    pub closed spec fn encrypt_ctx(&self) -> EncryptContext {
        self.enc_ctx
    }

    /// How incoming datagrams are decrypted.
    pub closed spec fn decrypt_ctx(&self) -> DecryptContext {
        self.dec_ctx
    }

    /// The configuration of the outgoing queues.
    pub closed spec fn config(&self) -> SocketConfig {
        self.out_queue.config()
    }

    /// A fresh socket state with the given configuration: not connected, nothing buffered.
    pub fn new(conf: SocketConfig) -> (r: Self)
        ensures
            r.wf(),
            r.peer() is None,
            r.received() == Seq::<Vec<u8>>::empty(),
            r.received_from() == Seq::<(Vec<u8>, A)>::empty(),
            r.queue() == Map::<u8, crate::out_queue::MsgQueue<Vec<u8>>>::empty(),
            r.queue_to() == Map::<u8, crate::out_queue::MsgQueue<(Vec<u8>, A)>>::empty(),
            r.queue_latest() == 0,
            r.queue_to_latest() == 0,
            r.pending() is None,
            r.pending_to() is None,
            r.encrypt_ctx() == conf.enc_ctx,
            r.decrypt_ctx() == conf.dec_ctx,
            r.config() == conf,
    {
        UdpState {
            peer: None,
            read_buffer: VecDeque::new(),
            read_buffer_2: VecDeque::new(),
            out_queue: OutQueue::new(conf),
            current_write: None,
            out_queue2: OutQueue::new(conf),
            current_write_2: None,
            enc_ctx: conf.enc_ctx,
            dec_ctx: conf.dec_ctx,
        }
    }

    /// Nothing about sending differs between the two states.
    pub open spec fn same_sending(&self, other: &Self) -> bool {
        &&& self.wf() == other.wf()
        &&& self.queue() == other.queue()
        &&& self.queue_latest() == other.queue_latest()
        &&& self.queue_to() == other.queue_to()
        &&& self.queue_to_latest() == other.queue_to_latest()
        &&& self.pending() == other.pending()
        &&& self.pending_to() == other.pending_to()
        &&& self.encrypt_ctx() == other.encrypt_ctx()
        &&& self.config() == other.config()
    }

    /// Nothing about receiving differs between the two states.
    pub open spec fn same_receiving(&self, other: &Self) -> bool {
        &&& self.received() == other.received()
        &&& self.received_from() == other.received_from()
        &&& self.decrypt_ctx() == other.decrypt_ctx()
    }

    /// Specify data encryption context which will determine how outgoing data is encrypted.
    pub fn use_encrypt_ctx(&mut self, enc_ctx: EncryptContext)
        ensures
            final(self).encrypt_ctx() == enc_ctx,
            final(self).wf() == old(self).wf(),
            final(self).queue() == old(self).queue(),
            final(self).queue_latest() == old(self).queue_latest(),
            final(self).queue_to() == old(self).queue_to(),
            final(self).queue_to_latest() == old(self).queue_to_latest(),
            final(self).pending() == old(self).pending(),
            final(self).pending_to() == old(self).pending_to(),
            final(self).config() == old(self).config(),
            final(self).same_receiving(old(self)),
            final(self).peer() == old(self).peer(),
    {
        self.enc_ctx = enc_ctx;
    }

    /// Specify data decryption context which will determine how incoming data is decrypted.
    pub fn use_decrypt_ctx(&mut self, dec_ctx: DecryptContext)
        ensures
            final(self).decrypt_ctx() == dec_ctx,
            final(self).received() == old(self).received(),
            final(self).received_from() == old(self).received_from(),
            final(self).same_sending(old(self)),
            final(self).peer() == old(self).peer(),
    {
        self.dec_ctx = dec_ctx;
    }

    /// Records that the system socket got connected to `addr`.
    pub fn set_peer(&mut self, addr: A)
        ensures
            final(self).peer() == Some(addr),
            final(self).same_sending(old(self)),
            final(self).same_receiving(old(self)),
    {
        self.peer = Some(addr);
    }

    /// The address of the connected peer.
    pub fn peer_addr(&self) -> (r: Result<A, SocketError>)
        ensures
            match self.peer() {
                Some(a) => r == Ok::<A, SocketError>(a),
                None => r matches Err(SocketError::UnconnectedUdpSocket),
            },
    {
        match self.peer {
            Some(a) => Ok(a),
            None => Err(SocketError::UnconnectedUdpSocket),
        }
    }

    /// Reads the oldest buffered datagram from the connected peer, if any: `None` when nothing is
    /// buffered, else its decrypted message.
    pub fn read_buffered<T: Serialize + DeserializeOwned, F: Fn(&DecryptContext, &[u8]) -> Result<Vec<u8>, SocketError>>(
        &mut self,
        open: &F,
    ) -> (r: Option<Result<T, SocketError>>)
        requires
            forall|c: &DecryptContext, a: &[u8]| #[trigger] open.requires((c, a)),
        ensures
            final(self).same_sending(old(self)),
            final(self).peer() == old(self).peer(),
            final(self).decrypt_ctx() == old(self).decrypt_ctx(),
            final(self).received_from() == old(self).received_from(),
            old(self).received().len() == 0 ==> r is None && final(self).received() == old(self).received(),
            old(self).received().len() > 0 ==> {
                &&& final(self).received() == old(self).received().drop_first()
                &&& r matches Some(res) && exists|pr: Result<Vec<u8>, SocketError>|
                    #[trigger] opens_to(old(self).decrypt_ctx(), *open, old(self).received()[0]@, pr) && match pr {
                        Err(e) => res == Err::<T, SocketError>(e),
                        Ok(_) => res is Ok || res matches Err(SocketError::Serialisation(_)),
                    }
            },
            old(self).received().len() > 0 ==> (r matches Some(res) && decrypts_to(old(self).decrypt_ctx(), *open, old(self).received()[0]@, res)),
    {
        let front = self.read_buffer.pop_front();
        proof {
            if old(self).read_buffer@.len() > 0 {
                assert(self.read_buffer@ =~= old(self).read_buffer@.drop_first());
            }
        }
        match front {
            None => None,
            Some(data) => Some(self.dec_ctx.decrypt(data.as_slice(), open)),
        }
    }

    /// Handles one result of receiving from the connected peer. Returns `None` while receiving
    /// should go on; otherwise what the read returns: the decrypted oldest buffered datagram once
    /// the socket would block, nothing if none is buffered, or the error.
    pub fn on_recv<T: Serialize + DeserializeOwned, F: Fn(&DecryptContext, &[u8]) -> Result<Vec<u8>, SocketError>>(
        &mut self,
        recv_res: Result<Vec<u8>, IoError>,
        open: &F,
    ) -> (r: Option<Result<Option<T>, SocketError>>)
        requires
            forall|c: &DecryptContext, a: &[u8]| #[trigger] open.requires((c, a)),
        ensures
            final(self).same_sending(old(self)),
            final(self).peer() == old(self).peer(),
            final(self).decrypt_ctx() == old(self).decrypt_ctx(),
            final(self).received_from() == old(self).received_from(),
            match recv_res {
                Ok(data) => {
                    &&& r is None
                    &&& final(self).received() == if data@.len() == 0 {
                        old(self).received()
                    } else {
                        old(self).received().push(data)
                    }
                },
                Err(e) => if !e.kind.spec_is_transient() {
                    r matches Some(Err(SocketError::Io(x))) && x == e && final(self).received() == old(self).received()
                } else if old(self).received().len() == 0 {
                    r matches Some(Ok(None)) && final(self).received() == old(self).received()
                } else {
                    &&& final(self).received() == old(self).received().drop_first()
                    &&& r matches Some(res) && exists|pr: Result<Vec<u8>, SocketError>|
                        #[trigger] opens_to(old(self).decrypt_ctx(), *open, old(self).received()[0]@, pr) && match pr {
                            Err(e) => res == Err::<Option<T>, SocketError>(e),
                            Ok(_) => res matches Ok(Some(_)) || res matches Err(SocketError::Serialisation(_)),
                        }
                },
            },
            (recv_res matches Err(e) && e.kind.spec_is_transient() && old(self).received().len() > 0) ==> exists|x: Result<T, SocketError>|
                #[trigger] decrypts_to(old(self).decrypt_ctx(), *open, old(self).received()[0]@, x) && r == Some(match x {
                    Ok(v) => Ok::<Option<T>, SocketError>(Some(v)),
                    Err(e) => Err::<Option<T>, SocketError>(e),
                }),
            recv_message_post(old(self).decrypt_ctx(), *open, recv_res, old(self).received(), final(self).received(), r),
    {
        match handle_recv_res(recv_res, &mut self.read_buffer) {
            Err(e) => Some(Err(e)),
            Ok(RecvResult::ContinueRecv) => None,
            Ok(RecvResult::WouldBlock(None)) => Some(Ok(None)),
            Ok(RecvResult::WouldBlock(Some(buf))) => match self.dec_ctx.decrypt(buf.as_slice(), open) {
                Ok(v) => Some(Ok(Some(v))),
                Err(e) => Some(Err(e)),
            },
        }
    }

    /// Reads the oldest buffered datagram with its sender, if any: `None` when nothing is
    /// buffered, else its decrypted message and its sender.
    pub fn read_frm_buffered<T: Serialize + DeserializeOwned, F: Fn(&DecryptContext, &[u8]) -> Result<Vec<u8>, SocketError>>(
        &mut self,
        open: &F,
    ) -> (r: Option<Result<(T, A), SocketError>>)
        requires
            forall|c: &DecryptContext, a: &[u8]| #[trigger] open.requires((c, a)),
        ensures
            final(self).same_sending(old(self)),
            final(self).peer() == old(self).peer(),
            final(self).decrypt_ctx() == old(self).decrypt_ctx(),
            final(self).received() == old(self).received(),
            old(self).received_from().len() == 0 ==> r is None && final(self).received_from() == old(self).received_from(),
            old(self).received_from().len() > 0 ==> {
                &&& final(self).received_from() == old(self).received_from().drop_first()
                &&& r matches Some(res) && exists|pr: Result<Vec<u8>, SocketError>|
                    #[trigger] opens_to(old(self).decrypt_ctx(), *open, old(self).received_from()[0].0@, pr) && match pr {
                        Err(e) => res == Err::<(T, A), SocketError>(e),
                        Ok(_) => res matches Ok((_, a)) && a == old(self).received_from()[0].1
                            || res matches Err(SocketError::Serialisation(_)),
                    }
            },
            old(self).received_from().len() > 0 ==> exists|x: Result<T, SocketError>|
                #[trigger] decrypts_to(old(self).decrypt_ctx(), *open, old(self).received_from()[0].0@, x) && r == Some(match x {
                    Ok(v) => Ok::<(T, A), SocketError>((v, old(self).received_from()[0].1)),
                    Err(e) => Err::<(T, A), SocketError>(e),
                }),
    {
        let front = self.read_buffer_2.pop_front();
        proof {
            if old(self).read_buffer_2@.len() > 0 {
                assert(self.read_buffer_2@ =~= old(self).read_buffer_2@.drop_first());
            }
        }
        match front {
            None => None,
            Some((data, peer)) => match self.dec_ctx.decrypt(data.as_slice(), open) {
                Ok(v) => Some(Ok((v, peer))),
                Err(e) => Some(Err(e)),
            },
        }
    }

    /// Handles one result of receiving from any sender. Returns `None` while receiving should go
    /// on; otherwise what the read returns: the decrypted oldest buffered datagram and its sender
    /// once the socket would block, nothing if none is buffered, or the error.
    pub fn on_recv_from<T: Serialize + DeserializeOwned, F: Fn(&DecryptContext, &[u8]) -> Result<Vec<u8>, SocketError>>(
        &mut self,
        recv_res: Result<(Vec<u8>, A), IoError>,
        open: &F,
    ) -> (r: Option<Result<Option<(T, A)>, SocketError>>)
        requires
            forall|c: &DecryptContext, a: &[u8]| #[trigger] open.requires((c, a)),
        ensures
            final(self).same_sending(old(self)),
            final(self).peer() == old(self).peer(),
            final(self).decrypt_ctx() == old(self).decrypt_ctx(),
            final(self).received() == old(self).received(),
            match recv_res {
                Ok(dg) => {
                    &&& r is None
                    &&& final(self).received_from() == if dg.0@.len() == 0 {
                        old(self).received_from()
                    } else {
                        old(self).received_from().push(dg)
                    }
                },
                Err(e) => if !e.kind.spec_is_transient() {
                    r matches Some(Err(SocketError::Io(x))) && x == e && final(self).received_from() == old(self).received_from()
                } else if old(self).received_from().len() == 0 {
                    r matches Some(Ok(None)) && final(self).received_from() == old(self).received_from()
                } else {
                    &&& final(self).received_from() == old(self).received_from().drop_first()
                    &&& r matches Some(res) && exists|pr: Result<Vec<u8>, SocketError>|
                        #[trigger] opens_to(old(self).decrypt_ctx(), *open, old(self).received_from()[0].0@, pr) && match pr {
                            Err(e) => res == Err::<Option<(T, A)>, SocketError>(e),
                            Ok(_) => res matches Ok(Some((_, a))) && a == old(self).received_from()[0].1
                                || res matches Err(SocketError::Serialisation(_)),
                        }
                },
            },
            (recv_res matches Err(e) && e.kind.spec_is_transient() && old(self).received_from().len() > 0) ==> exists|x: Result<T, SocketError>|
                #[trigger] decrypts_to(old(self).decrypt_ctx(), *open, old(self).received_from()[0].0@, x) && r == Some(match x {
                    Ok(v) => Ok::<Option<(T, A)>, SocketError>(Some((v, old(self).received_from()[0].1))),
                    Err(e) => Err::<Option<(T, A)>, SocketError>(e),
                }),
    {
        match handle_recv_res(recv_res, &mut self.read_buffer_2) {
            Err(e) => Some(Err(e)),
            Ok(RecvResult::ContinueRecv) => None,
            Ok(RecvResult::WouldBlock(None)) => Some(Ok(None)),
            Ok(RecvResult::WouldBlock(Some((buf, sender_addr)))) => match self.dec_ctx.decrypt(buf.as_slice(), open) {
                Ok(v) => Some(Ok(Some((v, sender_addr)))),
                Err(e) => Some(Err(e)),
            },
        }
    }

    /// Queues a message for the connected peer, encrypted, after dropping expired datagrams.
    /// Sending is then done by `next_datagram` and `on_send`.
    pub fn write<T: Serialize, F: Fn(&EncryptContext, &[u8]) -> Result<Vec<u8>, SocketError>>(
        &mut self,
        msg: Option<(T, Priority)>,
        seal: &F,
    ) -> (r: Result<(), SocketError>)
        requires
            old(self).wf(),
            forall|c: &EncryptContext, a: &[u8]| #[trigger] seal.requires((c, a)),
        ensures
            final(self).wf(),
            final(self).same_receiving(old(self)),
            final(self).peer() == old(self).peer(),
            final(self).queue_to() == old(self).queue_to(),
            final(self).queue_to_latest() == old(self).queue_to_latest(),
            final(self).pending() == old(self).pending(),
            final(self).pending_to() == old(self).pending_to(),
            final(self).encrypt_ctx() == old(self).encrypt_ctx(),
            final(self).config() == old(self).config(),
            match msg {
                None => r is Ok && expired_dropped(old(self).queue(), final(self).queue(), old(self).config(), old(self).queue_epoch(), old(self).queue_latest(), final(self).queue_latest()),
                Some((_, p)) => match r {
                    Err(e) => {
                        &&& expired_dropped(old(self).queue(), final(self).queue(), old(self).config(), old(self).queue_epoch(), old(self).queue_latest(), final(self).queue_latest())
                        &&& e is Serialisation || exists|plain: Seq<u8>|
                            #[trigger] seals_to(old(self).encrypt_ctx(), *seal, plain, Err(e))
                    },
                    Ok(_) => exists|b: Vec<u8>, plain: Seq<u8>|
                        #[trigger] seals_to(old(self).encrypt_ctx(), *seal, plain, Ok(b))
                            && expired_dropped_then_pushed(old(self).queue(), final(self).queue(), old(self).config(), old(self).queue_epoch(), old(self).queue_latest(), final(self).queue_latest(), b, p),
                },
            },
            msg matches Some((m, p)) ==> match r {
                Err(e) => encrypts_to(old(self).encrypt_ctx(), *seal, m, Err::<Vec<u8>, SocketError>(e)),
                Ok(_) => exists|b: Vec<u8>|
                    #[trigger] encrypts_to(old(self).encrypt_ctx(), *seal, m, Ok::<Vec<u8>, SocketError>(b))
                        && expired_dropped_then_pushed(old(self).queue(), final(self).queue(), old(self).config(), old(self).queue_epoch(), old(self).queue_latest(), final(self).queue_latest(), b, p),
            },
    {
        let ghost q0 = self.out_queue@;
        let ghost conf = self.out_queue.config();
        let ghost l0 = self.out_queue.latest();
        let ghost ep = self.out_queue.epoch();
        let _ = self.out_queue.drop_expired();
        let ghost mid = self.out_queue@;
        let ghost lm = self.out_queue.latest();
        assert(expired_dropped(q0, mid, conf, ep, l0, lm));
        match msg {
            None => {
                assert(expired_dropped(q0, self.out_queue@, conf, ep, l0, self.out_queue.latest()));
                Ok(())
            },
            Some((m, priority)) => {
                match self.enc_ctx.encrypt(&m, seal) {
                    Err(e) => {
                        assert(expired_dropped(q0, self.out_queue@, conf, ep, l0, self.out_queue.latest()));
                        Err(e)
                    },
                    Ok(b) => {
                        let ghost bb = b;
                        let ghost plain = choose|plain: Seq<u8>| seals_to(self.enc_ctx, *seal, plain, Ok(bb));
                        self.out_queue.push(b, priority);
                        let ghost when = choose|when: u64| when >= lm && self.out_queue.latest() == when && self.out_queue@ == push_spec(mid, when, bb, priority);
                        assert(self.out_queue@ == push_spec(mid, when, bb, priority));
                        assert(seals_to(self.enc_ctx, *seal, plain, Ok(bb)));
                        assert(expired_dropped(q0, mid, conf, ep, l0, lm));
                        Ok(())
                    },
                }
            },
        }
    }

    /// Takes the next datagram for the connected peer to send: the one whose sending must be
    /// retried, else the next one of the queue.
    pub fn next_datagram(&mut self) -> (r: Option<Vec<u8>>)
        requires
            old(self).wf(),
        ensures
            final(self).wf(),
            next_to_send(old(self).pending(), old(self).queue(), final(self).pending(), final(self).queue(), r),
            final(self).same_receiving(old(self)),
            final(self).peer() == old(self).peer(),
            final(self).queue_to() == old(self).queue_to(),
            final(self).queue_to_latest() == old(self).queue_to_latest(),
            final(self).pending_to() == old(self).pending_to(),
            final(self).encrypt_ctx() == old(self).encrypt_ctx(),
            final(self).config() == old(self).config(),
    {
        match self.current_write.take() {
            Some(d) => Some(d),
            None => self.out_queue.next_msg(),
        }
    }

    /// Handles the result of sending `data` to the connected peer. Returns whether sending may go
    /// on; `data` is kept to be sent again when it was sent only in part or the socket would
    /// block.
    pub fn on_send(&mut self, data: Vec<u8>, send_res: Result<usize, IoError>) -> (r: Result<bool, SocketError>)
        ensures
            final(self).wf() == old(self).wf(),
            final(self).same_receiving(old(self)),
            final(self).peer() == old(self).peer(),
            final(self).queue() == old(self).queue(),
            final(self).queue_latest() == old(self).queue_latest(),
            final(self).queue_to() == old(self).queue_to(),
            final(self).queue_to_latest() == old(self).queue_to_latest(),
            final(self).pending_to() == old(self).pending_to(),
            final(self).encrypt_ctx() == old(self).encrypt_ctx(),
            final(self).config() == old(self).config(),
            match send_res {
                Ok(bytes_txd) => {
                    &&& r == Ok::<bool, SocketError>(true)
                    &&& final(self).pending() == if bytes_txd < data@.len() {
                        Some(data)
                    } else {
                        old(self).pending()
                    }
                },
                Err(e) => if e.kind.spec_is_transient() {
                    r == Ok::<bool, SocketError>(false) && final(self).pending() == Some(data)
                } else {
                    r matches Err(SocketError::Io(x)) && x == e && final(self).pending() == old(self).pending()
                },
            },
    {
        let len = data.len();
        handle_send_res(send_res, &mut self.current_write, len, data)
    }

    /// Queues a message for the given peer, encrypted, after dropping expired datagrams. Sending
    /// is then done by `next_datagram_to` and `on_send_to`.
    pub fn write_to<T: Serialize, F: Fn(&EncryptContext, &[u8]) -> Result<Vec<u8>, SocketError>>(
        &mut self,
        msg: Option<(T, A, Priority)>,
        seal: &F,
    ) -> (r: Result<(), SocketError>)
        requires
            old(self).wf(),
            forall|c: &EncryptContext, a: &[u8]| #[trigger] seal.requires((c, a)),
        ensures
            final(self).wf(),
            final(self).same_receiving(old(self)),
            final(self).peer() == old(self).peer(),
            final(self).queue() == old(self).queue(),
            final(self).queue_latest() == old(self).queue_latest(),
            final(self).pending() == old(self).pending(),
            final(self).pending_to() == old(self).pending_to(),
            final(self).encrypt_ctx() == old(self).encrypt_ctx(),
            final(self).config() == old(self).config(),
            match msg {
                None => r is Ok && expired_dropped(old(self).queue_to(), final(self).queue_to(), old(self).config(), old(self).queue_to_epoch(), old(self).queue_to_latest(), final(self).queue_to_latest()),
                Some((_, peer, p)) => match r {
                    Err(e) => {
                        &&& expired_dropped(old(self).queue_to(), final(self).queue_to(), old(self).config(), old(self).queue_to_epoch(), old(self).queue_to_latest(), final(self).queue_to_latest())
                        &&& e is Serialisation || exists|plain: Seq<u8>|
                            #[trigger] seals_to(old(self).encrypt_ctx(), *seal, plain, Err(e))
                    },
                    Ok(_) => exists|b: Vec<u8>, plain: Seq<u8>|
                        #[trigger] seals_to(old(self).encrypt_ctx(), *seal, plain, Ok(b))
                            && expired_dropped_then_pushed(old(self).queue_to(), final(self).queue_to(), old(self).config(), old(self).queue_to_epoch(), old(self).queue_to_latest(), final(self).queue_to_latest(), (b, peer), p),
                },
            },
            msg matches Some((m, peer, p)) ==> match r {
                Err(e) => encrypts_to(old(self).encrypt_ctx(), *seal, m, Err::<Vec<u8>, SocketError>(e)),
                Ok(_) => exists|b: Vec<u8>|
                    #[trigger] encrypts_to(old(self).encrypt_ctx(), *seal, m, Ok::<Vec<u8>, SocketError>(b))
                        && expired_dropped_then_pushed(old(self).queue_to(), final(self).queue_to(), old(self).config(), old(self).queue_to_epoch(), old(self).queue_to_latest(), final(self).queue_to_latest(), (b, peer), p),
            },
    {
        let ghost q0 = self.out_queue2@;
        let ghost conf = self.out_queue2.config();
        let ghost l0 = self.out_queue2.latest();
        let ghost ep = self.out_queue2.epoch();
        let _ = self.out_queue2.drop_expired();
        let ghost mid = self.out_queue2@;
        let ghost lm = self.out_queue2.latest();
        assert(expired_dropped(q0, mid, conf, ep, l0, lm));
        match msg {
            None => {
                assert(expired_dropped(q0, self.out_queue2@, conf, ep, l0, self.out_queue2.latest()));
                Ok(())
            },
            Some((m, peer, priority)) => {
                match self.enc_ctx.encrypt(&m, seal) {
                    Err(e) => {
                        assert(expired_dropped(q0, self.out_queue2@, conf, ep, l0, self.out_queue2.latest()));
                        Err(e)
                    },
                    Ok(b) => {
                        let ghost bb = b;
                        let ghost plain = choose|plain: Seq<u8>| seals_to(self.enc_ctx, *seal, plain, Ok(bb));
                        self.out_queue2.push((b, peer), priority);
                        let ghost when = choose|when: u64| when >= lm && self.out_queue2.latest() == when && self.out_queue2@ == push_spec(mid, when, (bb, peer), priority);
                        assert(self.out_queue2@ == push_spec(mid, when, (bb, peer), priority));
                        assert(seals_to(self.enc_ctx, *seal, plain, Ok(bb)));
                        Ok(())
                    },
                }
            },
        }
    }

    /// Takes the next datagram with a destination to send: the one whose sending must be
    /// retried, else the next one of the queue.
    pub fn next_datagram_to(&mut self) -> (r: Option<(Vec<u8>, A)>)
        requires
            old(self).wf(),
        ensures
            final(self).wf(),
            next_to_send(old(self).pending_to(), old(self).queue_to(), final(self).pending_to(), final(self).queue_to(), r),
            final(self).same_receiving(old(self)),
            final(self).peer() == old(self).peer(),
            final(self).queue() == old(self).queue(),
            final(self).queue_latest() == old(self).queue_latest(),
            final(self).pending() == old(self).pending(),
            final(self).encrypt_ctx() == old(self).encrypt_ctx(),
            final(self).config() == old(self).config(),
    {
        match self.current_write_2.take() {
            Some(d) => Some(d),
            None => self.out_queue2.next_msg(),
        }
    }

    /// Handles the result of sending the datagram `dg` to its destination. Returns whether
    /// sending may go on; `dg` is kept to be sent again when it was sent only in part or the
    /// socket would block.
    pub fn on_send_to(&mut self, dg: (Vec<u8>, A), send_res: Result<usize, IoError>) -> (r: Result<bool, SocketError>)
        ensures
            final(self).wf() == old(self).wf(),
            final(self).same_receiving(old(self)),
            final(self).peer() == old(self).peer(),
            final(self).queue() == old(self).queue(),
            final(self).queue_latest() == old(self).queue_latest(),
            final(self).queue_to() == old(self).queue_to(),
            final(self).queue_to_latest() == old(self).queue_to_latest(),
            final(self).pending() == old(self).pending(),
            final(self).encrypt_ctx() == old(self).encrypt_ctx(),
            final(self).config() == old(self).config(),
            match send_res {
                Ok(bytes_txd) => {
                    &&& r == Ok::<bool, SocketError>(true)
                    &&& final(self).pending_to() == if bytes_txd < dg.0@.len() {
                        Some(dg)
                    } else {
                        old(self).pending_to()
                    }
                },
                Err(e) => if e.kind.spec_is_transient() {
                    r == Ok::<bool, SocketError>(false) && final(self).pending_to() == Some(dg)
                } else {
                    r matches Err(SocketError::Io(x)) && x == e && final(self).pending_to() == old(self).pending_to()
                },
            },
    {
        let len = dg.0.len();
        handle_send_res(send_res, &mut self.current_write_2, len, dg)
    }
}

} // verus!
