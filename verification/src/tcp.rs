//! The decisions of a TCP socket: turning the received byte stream into messages and feeding the
//! queued frames into the stream.
//!
//! The system stream itself is driven from outside. A read first tries the bytes already
//! buffered (`read_buffered`), then reads from the stream until it would block, handing each
//! result to `on_read`. A write queues the message (`write`), then hands each chunk that
//! `next_chunk` gives to the stream and the result to `on_write`.

use vstd::prelude::*;

use serde::de::DeserializeOwned;
use serde::ser::Serialize;

use crate::crypto::{DecryptContext, EncryptContext};
use crate::error::{IoError, SocketError};
use crate::framing::{frames_to, serialises_to_frame, serialize_with_len, try_read_post, LenDelimitedReader};
use crate::out_queue::{drop_expired_post, push_spec, OutQueue, QueueMap};
use crate::udp::{expired_dropped, expired_dropped_then_pushed, next_to_send};
use crate::{Priority, SocketConfig};
use std::time::Instant;

verus! {

/// What handling one result of reading from the stream does to a reader holding the bytes `b`
/// and the pending length `l`, leaving `nb` and `nl`, and answers; `something_read` tells whether
/// an earlier result of the same read brought data. Data is buffered and reading goes on. The end
/// of the stream gives the message completed by the data of this read, or `ZeroByteRead`; a
/// stream that would block gives the message completed by the data of this read, or nothing; any
/// other error is returned.
pub open spec fn on_read_post<T: Serialize + DeserializeOwned, F: Fn(&DecryptContext, &[u8]) -> Result<Vec<u8>, SocketError>>(
    ctx: DecryptContext,
    open: F,
    max: usize,
    something_read: bool,
    read_res: Result<Vec<u8>, IoError>,
    b: Seq<u8>,
    l: usize,
    nb: Seq<u8>,
    nl: usize,
    r: Option<Result<Option<T>, SocketError>>,
) -> bool {
    let unchanged = nb == b && nl == l;
    match read_res {
        Ok(data) => if data@.len() > 0 {
            r is None && nb == b + data@ && nl == l
        } else if !something_read {
            r matches Some(Err(SocketError::ZeroByteRead)) && unchanged
        } else {
            exists|tr: Result<Option<T>, SocketError>|
                #[trigger] try_read_post(ctx, open, max, b, l, nb, nl, tr) && if tr == Ok::<Option<T>, SocketError>(None) {
                    r matches Some(Err(SocketError::ZeroByteRead))
                } else {
                    r == Some(tr)
                }
        },
        Err(e) => if !e.kind.spec_is_transient() {
            r matches Some(Err(SocketError::Io(x))) && x == e && unchanged
        } else if !something_read {
            r == Some(Ok::<Option<T>, SocketError>(None)) && unchanged
        } else {
            exists|tr: Result<Option<T>, SocketError>|
                #[trigger] try_read_post(ctx, open, max, b, l, nb, nl, tr) && r == Some(tr)
        },
    }
}

/// The bytes of the chunks `cs`, one after the other.
pub open spec fn concat_chunks(cs: Seq<Vec<u8>>) -> Seq<u8>
    decreases cs.len(),
{
    if cs.len() == 0 {
        Seq::empty()
    } else {
        concat_chunks(cs.drop_last()) + cs.last()@
    }
}

/// Reading up to the end of the stream: when a read brings the non-empty chunks `cs` and then
/// the end of the stream, every chunk is buffered and reading goes on, and the end gives the
/// message that the bytes buffered before and all the chunks complete, or `ZeroByteRead` when
/// they complete none or no chunk came. `bs` and `ls` are the reader's successive bytes and
/// pending lengths, `rs` the successive answers.
pub proof fn law_read_until_end_of_stream<T: Serialize + DeserializeOwned, F: Fn(&DecryptContext, &[u8]) -> Result<Vec<u8>, SocketError>>(
    ctx: DecryptContext,
    open: F,
    max: usize,
    cs: Seq<Vec<u8>>,
    eof: Vec<u8>,
    bs: Seq<Seq<u8>>,
    ls: Seq<usize>,
    rs: Seq<Option<Result<Option<T>, SocketError>>>,
)
    requires
        eof@.len() == 0,
        bs.len() == cs.len() + 2,
        ls.len() == cs.len() + 2,
        rs.len() == cs.len() + 1,
        forall|i: int| 0 <= i < cs.len() ==> (#[trigger] cs[i])@.len() > 0,
        forall|i: int|
            0 <= i < cs.len() ==> on_read_post(ctx, open, max, i > 0, Ok(#[trigger] cs[i]), bs[i], ls[i], bs[i + 1], ls[i + 1], rs[i]),
        on_read_post(
            ctx,
            open,
            max,
            cs.len() > 0,
            Ok(eof),
            bs[cs.len() as int],
            ls[cs.len() as int],
            bs[cs.len() as int + 1],
            ls[cs.len() as int + 1],
            rs[cs.len() as int],
        ),
    ensures
        forall|i: int| 0 <= i < cs.len() ==> (#[trigger] rs[i]) is None,
        bs[cs.len() as int] == bs[0] + concat_chunks(cs),
        ls[cs.len() as int] == ls[0],
        cs.len() == 0 ==> (rs[0] matches Some(Err(SocketError::ZeroByteRead)) && bs[1] == bs[0] && ls[1] == ls[0]),
        cs.len() > 0 ==> exists|tr: Result<Option<T>, SocketError>|
            #[trigger] try_read_post(ctx, open, max, bs[0] + concat_chunks(cs), ls[0], bs[cs.len() as int + 1], ls[cs.len() as int + 1], tr)
                && if tr == Ok::<Option<T>, SocketError>(None) {
                    rs[cs.len() as int] matches Some(Err(SocketError::ZeroByteRead))
                } else {
                    rs[cs.len() as int] == Some(tr)
                },
{
    let k = cs.len() as int;
    lemma_chunks_buffered(ctx, open, max, cs, bs, ls, rs, k);
    assert(cs.take(k) =~= cs);
    assert(bs[k] == bs[0] + concat_chunks(cs));
    if k > 0 {
        let tr = choose|tr: Result<Option<T>, SocketError>|
            #[trigger] try_read_post(ctx, open, max, bs[k], ls[k], bs[k + 1], ls[k + 1], tr) && if tr == Ok::<Option<T>, SocketError>(None) {
                rs[k] matches Some(Err(SocketError::ZeroByteRead))
            } else {
                rs[k] == Some(tr)
            };
        assert(try_read_post(ctx, open, max, bs[0] + concat_chunks(cs), ls[0], bs[k + 1], ls[k + 1], tr));
    }
    assert forall|i: int| 0 <= i < cs.len() implies (#[trigger] rs[i]) is None by {
        assert(on_read_post(ctx, open, max, i > 0, Ok(cs[i]), bs[i], ls[i], bs[i + 1], ls[i + 1], rs[i]));
    }
}

/// After the first `i` chunks the reader holds the bytes it held before and those chunks, with
/// the same pending length.
proof fn lemma_chunks_buffered<T: Serialize + DeserializeOwned, F: Fn(&DecryptContext, &[u8]) -> Result<Vec<u8>, SocketError>>(
    ctx: DecryptContext,
    open: F,
    max: usize,
    cs: Seq<Vec<u8>>,
    bs: Seq<Seq<u8>>,
    ls: Seq<usize>,
    rs: Seq<Option<Result<Option<T>, SocketError>>>,
    i: int,
)
    requires
        bs.len() == cs.len() + 2,
        ls.len() == cs.len() + 2,
        rs.len() == cs.len() + 1,
        forall|i: int| 0 <= i < cs.len() ==> (#[trigger] cs[i])@.len() > 0,
        forall|i: int|
            0 <= i < cs.len() ==> on_read_post(ctx, open, max, i > 0, Ok(#[trigger] cs[i]), bs[i], ls[i], bs[i + 1], ls[i + 1], rs[i]),
        0 <= i <= cs.len(),
    ensures
        bs[i] == bs[0] + concat_chunks(cs.take(i)),
        ls[i] == ls[0],
    decreases i,
{
    if i > 0 {
        let j = i - 1;
        lemma_chunks_buffered(ctx, open, max, cs, bs, ls, rs, j);
        assert(on_read_post(ctx, open, max, j > 0, Ok(cs[j]), bs[j], ls[j], bs[j + 1], ls[j + 1], rs[j]));
        assert(cs[j]@.len() > 0);
        assert(cs.take(i).drop_last() =~= cs.take(j));
        assert(cs.take(i).last() == cs[j]);
    } else {
        assert(bs[0] + concat_chunks(cs.take(0)) =~= bs[0]);
    }
}

/// Everything a TCP socket keeps besides the system stream itself.
pub struct TcpState {
    msg_reader: LenDelimitedReader,
    out_queue: OutQueue<Vec<u8>>,
    current_write: Option<Vec<u8>>,
    enc_ctx: EncryptContext,
}

impl TcpState {
    /// The outgoing queue is well formed.
    pub closed spec fn wf(&self) -> bool {
        self.out_queue.wf()
    }

    /// The reader of incoming frames.
    pub closed spec fn reader(&self) -> LenDelimitedReader {
        self.msg_reader
    }

    /// The queued frames.
    pub closed spec fn queue(&self) -> QueueMap<Vec<u8>> {
        self.out_queue@
    }

    /// The clock reading that the times of the outgoing queue are measured from.
    pub closed spec fn queue_epoch(&self) -> Instant {
        self.out_queue.epoch()
    }

    /// The latest time the outgoing queue has seen.
    pub closed spec fn queue_latest(&self) -> u64 {
        self.out_queue.latest()
    }

    /// The rest of a frame whose writing must be resumed, if any.
    pub closed spec fn pending(&self) -> Option<Vec<u8>> {
        self.current_write
    }

    /// How outgoing frames are encrypted.
    pub closed spec fn encrypt_ctx(&self) -> EncryptContext {
        self.enc_ctx
    }

    /// The configuration of the outgoing queue.
    pub closed spec fn config(&self) -> SocketConfig {
        self.out_queue.config()
    }

    /// Nothing about writing differs between the two states.
    pub open spec fn same_writing(&self, other: &Self) -> bool {
        &&& self.wf() == other.wf()
        &&& self.queue() == other.queue()
        &&& self.queue_latest() == other.queue_latest()
        &&& self.pending() == other.pending()
        &&& self.encrypt_ctx() == other.encrypt_ctx()
        &&& self.config() == other.config()
    }

    /// A fresh stream state with default configuration.
    pub fn new() -> (r: Self)
        ensures
            r.wf(),
            r.reader().buffer() == Seq::<u8>::empty(),
            r.reader().pending_len() == 0,
            r.reader().max_payload() == SocketConfig::spec_default().max_payload_size,
            r.reader().decrypt_ctx() == DecryptContext::Null,
            r.queue() == Map::<u8, crate::out_queue::MsgQueue<Vec<u8>>>::empty(),
            r.queue_latest() == 0,
            r.pending() is None,
            r.encrypt_ctx() == EncryptContext::Null,
            r.config() == SocketConfig::spec_default(),
    {
        Self::new_with_conf(SocketConfig::default())
    }

    /// A fresh stream state with the given configuration.
    pub fn new_with_conf(conf: SocketConfig) -> (r: Self)
        ensures
            r.wf(),
            r.reader().buffer() == Seq::<u8>::empty(),
            r.reader().pending_len() == 0,
            r.reader().max_payload() == conf.max_payload_size,
            r.reader().decrypt_ctx() == conf.dec_ctx,
            r.queue() == Map::<u8, crate::out_queue::MsgQueue<Vec<u8>>>::empty(),
            r.queue_latest() == 0,
            r.pending() is None,
            r.encrypt_ctx() == conf.enc_ctx,
            r.config() == conf,
    {
        let mut msg_reader = LenDelimitedReader::new(conf.max_payload_size);
        msg_reader.set_decrypt_ctx(conf.dec_ctx);
        TcpState {
            msg_reader,
            enc_ctx: conf.enc_ctx,
            out_queue: OutQueue::new(conf),
            current_write: None,
        }
    }

    /// Specify data encryption context which will determine how outgoing data is encrypted.
    pub fn set_encrypt_ctx(&mut self, enc_ctx: EncryptContext)
        ensures
            final(self).encrypt_ctx() == enc_ctx,
            final(self).reader() == old(self).reader(),
            final(self).wf() == old(self).wf(),
            final(self).queue() == old(self).queue(),
            final(self).queue_latest() == old(self).queue_latest(),
            final(self).pending() == old(self).pending(),
            final(self).config() == old(self).config(),
    {
        self.enc_ctx = enc_ctx;
    }

    /// Specify data decryption context which will determine how incoming data is decrypted.
    pub fn set_decrypt_ctx(&mut self, dec_ctx: DecryptContext)
        ensures
            final(self).reader().decrypt_ctx() == dec_ctx,
            final(self).reader().buffer() == old(self).reader().buffer(),
            final(self).reader().pending_len() == old(self).reader().pending_len(),
            final(self).reader().max_payload() == old(self).reader().max_payload(),
            final(self).same_writing(old(self)),
    {
        self.msg_reader.set_decrypt_ctx(dec_ctx);
    }

    /// Reads a message out of the bytes already buffered, if a whole one is there.
    pub fn read_buffered<T: Serialize + DeserializeOwned, F: Fn(&DecryptContext, &[u8]) -> Result<Vec<u8>, SocketError>>(
        &mut self,
        open: &F,
    ) -> (r: Result<Option<T>, SocketError>)
        requires
            forall|c: &DecryptContext, a: &[u8]| #[trigger] open.requires((c, a)),
        ensures
            final(self).same_writing(old(self)),
            final(self).reader().max_payload() == old(self).reader().max_payload(),
            final(self).reader().decrypt_ctx() == old(self).reader().decrypt_ctx(),
            try_read_post(
                old(self).reader().decrypt_ctx(),
                *open,
                old(self).reader().max_payload(),
                old(self).reader().buffer(),
                old(self).reader().pending_len(),
                final(self).reader().buffer(),
                final(self).reader().pending_len(),
                r,
            ),
    {
        self.msg_reader.try_read(open)
    }

    /// Handles one result of reading from the stream, where `something_read` tells whether an
    /// earlier result of this read brought data. Returns `None` while reading should go on (the
    /// data was buffered); otherwise what the read returns. The end of the stream gives the
    /// message completed by the data of this read, or `ZeroByteRead`; a stream that would block
    /// gives the message completed by the data of this read, or nothing; any other error is
    /// returned.
    pub fn on_read<T: Serialize + DeserializeOwned, F: Fn(&DecryptContext, &[u8]) -> Result<Vec<u8>, SocketError>>(
        &mut self,
        something_read: bool,
        read_res: Result<Vec<u8>, IoError>,
        open: &F,
    ) -> (r: Option<Result<Option<T>, SocketError>>)
        requires
            forall|c: &DecryptContext, a: &[u8]| #[trigger] open.requires((c, a)),
        ensures
            final(self).same_writing(old(self)),
            final(self).reader().max_payload() == old(self).reader().max_payload(),
            final(self).reader().decrypt_ctx() == old(self).reader().decrypt_ctx(),
            on_read_post(
                old(self).reader().decrypt_ctx(),
                *open,
                old(self).reader().max_payload(),
                something_read,
                read_res,
                old(self).reader().buffer(),
                old(self).reader().pending_len(),
                final(self).reader().buffer(),
                final(self).reader().pending_len(),
                r,
            ),
    {
        match read_res {
            Ok(data) => {
                if data.len() == 0 {
                    if something_read {
                        let tr = self.msg_reader.try_read(open);
                        match tr {
                            Ok(None) => Some(Err(SocketError::ZeroByteRead)),
                            _ => Some(tr),
                        }
                    } else {
                        Some(Err(SocketError::ZeroByteRead))
                    }
                } else {
                    self.msg_reader.put_buf(data.as_slice());
                    None
                }
            },
            Err(error) => {
                if error.kind.is_transient() {
                    if something_read {
                        Some(self.msg_reader.try_read(open))
                    } else {
                        Some(Ok(None))
                    }
                } else {
                    Some(Err(SocketError::Io(error)))
                }
            },
        }
    }

    /// Queues a message as a frame, after dropping expired frames. Writing to the stream is then
    /// done by `next_chunk` and `on_write`.
    pub fn write<T: Serialize, F: Fn(&EncryptContext, &[u8]) -> Result<Vec<u8>, SocketError>>(
        &mut self,
        msg: Option<(T, Priority)>,
        seal: &F,
    ) -> (r: Result<(), SocketError>)
        requires
            old(self).wf(),
            forall|c: &EncryptContext, a: &[u8]| #[trigger] seal.requires((c, a)),
        ensures
            final(self).wf(),
            final(self).reader() == old(self).reader(),
            final(self).pending() == old(self).pending(),
            final(self).encrypt_ctx() == old(self).encrypt_ctx(),
            final(self).config() == old(self).config(),
            match msg {
                None => r is Ok && expired_dropped(old(self).queue(), final(self).queue(), old(self).config(), old(self).queue_epoch(), old(self).queue_latest(), final(self).queue_latest()),
                Some((_, p)) => match r {
                    Err(e) => {
                        &&& expired_dropped(old(self).queue(), final(self).queue(), old(self).config(), old(self).queue_epoch(), old(self).queue_latest(), final(self).queue_latest())
                        &&& e is Serialisation || exists|plain: Seq<u8>|
                            #[trigger] frames_to(old(self).encrypt_ctx(), *seal, plain, Err(e))
                    },
                    Ok(_) => exists|frame: Vec<u8>, plain: Seq<u8>|
                        #[trigger] frames_to(old(self).encrypt_ctx(), *seal, plain, Ok(frame))
                            && expired_dropped_then_pushed(old(self).queue(), final(self).queue(), old(self).config(), old(self).queue_epoch(), old(self).queue_latest(), final(self).queue_latest(), frame, p),
                },
            },
            msg matches Some((m, p)) ==> match r {
                Err(e) => serialises_to_frame(old(self).encrypt_ctx(), *seal, m, Err::<Vec<u8>, SocketError>(e)),
                Ok(_) => exists|frame: Vec<u8>|
                    #[trigger] serialises_to_frame(old(self).encrypt_ctx(), *seal, m, Ok::<Vec<u8>, SocketError>(frame))
                        && expired_dropped_then_pushed(old(self).queue(), final(self).queue(), old(self).config(), old(self).queue_epoch(), old(self).queue_latest(), final(self).queue_latest(), frame, p),
            },
    {
        let ghost q0 = self.out_queue@;
        let ghost conf = self.out_queue.config();
        let ghost l0 = self.out_queue.latest();
        let ghost ep = self.out_queue.epoch();
        let _ = self.out_queue.drop_expired();
        let ghost mid = self.out_queue@;
        let ghost lm = self.out_queue.latest();
        assert(expired_dropped(q0, mid, conf, ep, l0, lm));
        match msg {
            None => Ok(()),
            Some((m, priority)) => {
                match serialize_with_len(m, &self.enc_ctx, seal) {
                    Err(e) => Err(e),
                    Ok(buf) => {
                        let ghost bb = buf;
                        let ghost plain = choose|plain: Seq<u8>| frames_to(self.enc_ctx, *seal, plain, Ok(bb));
                        self.out_queue.push(buf, priority);
                        let ghost when = choose|when: u64| when >= lm && self.out_queue.latest() == when && self.out_queue@ == push_spec(mid, when, bb, priority);
                        assert(self.out_queue@ == push_spec(mid, when, bb, priority));
                        assert(frames_to(self.enc_ctx, *seal, plain, Ok(bb)));
                        Ok(())
                    },
                }
            },
        }
    }

    /// Takes the next bytes to write to the stream: the rest of a frame whose writing must be
    /// resumed, else the next frame of the queue.
    pub fn next_chunk(&mut self) -> (r: Option<Vec<u8>>)
        requires
            old(self).wf(),
        ensures
            final(self).wf(),
            next_to_send(old(self).pending(), old(self).queue(), final(self).pending(), final(self).queue(), r),
            final(self).reader() == old(self).reader(),
            final(self).encrypt_ctx() == old(self).encrypt_ctx(),
            final(self).config() == old(self).config(),
    {
        match self.current_write.take() {
            Some(d) => Some(d),
            None => self.out_queue.next_msg(),
        }
    }

    /// Handles the result of writing `data` to the stream. Returns whether writing may go on:
    /// the bytes that were not written are kept to be written next; when the stream would block
    /// all of `data` is kept and writing stops; any other error is returned.
    pub fn on_write(&mut self, data: Vec<u8>, write_res: Result<usize, IoError>) -> (r: Result<bool, SocketError>)
        ensures
            final(self).wf() == old(self).wf(),
            final(self).reader() == old(self).reader(),
            final(self).queue() == old(self).queue(),
            final(self).queue_latest() == old(self).queue_latest(),
            final(self).encrypt_ctx() == old(self).encrypt_ctx(),
            final(self).config() == old(self).config(),
            match write_res {
                Ok(bytes_txd) => {
                    &&& r == Ok::<bool, SocketError>(true)
                    &&& if bytes_txd < data@.len() {
                        final(self).pending() matches Some(rest) && rest@ == data@.skip(bytes_txd as int)
                    } else {
                        final(self).pending() == old(self).pending()
                    }
                },
                Err(e) => if e.kind.spec_is_transient() {
                    r == Ok::<bool, SocketError>(false) && final(self).pending() == Some(data)
                } else {
                    r matches Err(SocketError::Io(x)) && x == e && final(self).pending() == old(self).pending()
                },
            },
    {
        match write_res {
            Ok(bytes_txd) => {
                if bytes_txd < data.len() {
                    let rest = crate::buf::copy_range(data.as_slice(), bytes_txd, data.len());
                    assert(rest@ =~= data@.skip(bytes_txd as int));
                    self.current_write = Some(rest);
                }
                Ok(true)
            },
            Err(error) => {
                if error.kind.is_transient() {
                    self.current_write = Some(data);
                    Ok(false)
                } else {
                    Err(SocketError::Io(error))
                }
            },
        }
    }
}

} // verus!
