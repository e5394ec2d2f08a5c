//! Length delimited framing of a byte stream.
//!
//! A frame is the encrypted length of the encrypted payload, followed by the encrypted payload.
//! The length is a 32 bit number serialised into 4 bytes, so its encrypted form has the constant
//! size `encrypted_size_len()` of the context. A reader collects the bytes received so far and cuts
//! complete frames off their front.

use vstd::prelude::*;
use vstd::bytes::{spec_u32_from_le_bytes, spec_u32_to_le_bytes};

use serde::de::DeserializeOwned;
use serde::ser::Serialize;

use crate::buf::{append_bytes, copy_all, copy_range};
use crate::crypto::{backends_fit, law_size_len_agrees, opens_to, seals_to, DecryptContext, EncryptContext};
use crate::error::SocketError;
use crate::serialisation::{decodes_to, deserialise_u32, encode, encodes_to, serialise_u32};
use maidsafe_utilities::serialisation::SerialisationError;

verus! {

/// `r` is what framing the serialised message `plain` under `ctx` may give: the sealed payload
/// preceded by the sealed 4 byte little-endian length of the sealed payload, or the first error.
pub open spec fn frames_to<F: Fn(&EncryptContext, &[u8]) -> Result<Vec<u8>, SocketError>>(
    ctx: EncryptContext,
    seal: F,
    plain: Seq<u8>,
    r: Result<Vec<u8>, SocketError>,
) -> bool {
    exists|dr: Result<Vec<u8>, SocketError>|
        #[trigger] seals_to(ctx, seal, plain, dr) && match dr {
            Err(e) => r == Err::<Vec<u8>, SocketError>(e),
            Ok(d) => exists|lr: Result<Vec<u8>, SocketError>|
                #[trigger] seals_to(ctx, seal, spec_u32_to_le_bytes(d@.len() as u32), lr) && match lr {
                    Err(e) => r == Err::<Vec<u8>, SocketError>(e),
                    Ok(l) => r matches Ok(v) && v@ == l@ + d@,
                },
        }
}

/// The frame of the serialised message `p` under the null context: the 4 byte little-endian length
/// of `p`, then `p` itself.
pub open spec fn plain_frame(p: Seq<u8>) -> Seq<u8> {
    spec_u32_to_le_bytes(p.len() as u32) + p
}

/// `r` is what framing the message `msg` under `ctx` may give: the frame of the bytes serialising
/// `msg` gave, or the error of serialising it.
pub open spec fn serialises_to_frame<T: Serialize, F: Fn(&EncryptContext, &[u8]) -> Result<Vec<u8>, SocketError>>(
    ctx: EncryptContext,
    seal: F,
    msg: T,
    r: Result<Vec<u8>, SocketError>,
) -> bool {
    exists|sr: Result<Vec<u8>, SerialisationError>|
        #[trigger] encodes_to(msg, sr) && match sr {
            Err(e) => r == Err::<Vec<u8>, SocketError>(SocketError::Serialisation(e)),
            Ok(plain) => frames_to(ctx, seal, plain@, r),
        }
}

/// Wraps the serialised message `plain` into a frame: its sealed length, then its sealed bytes.
/// Under the null context the frame is the 4 byte little-endian length of `plain`, then `plain`.
pub fn frame_with_len<F: Fn(&EncryptContext, &[u8]) -> Result<Vec<u8>, SocketError>>(
    plain: &[u8],
    enc_ctx: &EncryptContext,
    seal: &F,
) -> (r: Result<Vec<u8>, SocketError>)
    requires
        forall|c: &EncryptContext, a: &[u8]| #[trigger] seal.requires((c, a)),
    ensures
        frames_to(*enc_ctx, *seal, plain@, r),
        enc_ctx is Null ==> (r matches Ok(v) && v@ == plain_frame(plain@)),
{
    let dr = enc_ctx.encrypt_bytes(plain, seal);
    match dr {
        Err(e) => {
            assert(seals_to(*enc_ctx, *seal, plain@, Err(e)));
            Err(e)
        },
        Ok(encrypted_data) => {
            let len_plain = match serialise_u32(encrypted_data.len() as u32) {
                Ok(v) => v,
                Err(e) => return Err(SocketError::Serialisation(e)),
            };
            let lr = enc_ctx.encrypt_bytes(len_plain.as_slice(), seal);
            let ghost d = encrypted_data;
            match lr {
                Err(e) => {
                    assert(seals_to(*enc_ctx, *seal, plain@, Ok(d)));
                    assert(seals_to(*enc_ctx, *seal, spec_u32_to_le_bytes(d@.len() as u32), Err(e)));
                    Err(e)
                },
                Ok(encrypted_len) => {
                    let ghost l = encrypted_len;
                    let mut data = encrypted_len;
                    append_bytes(&mut data, encrypted_data.as_slice());
                    assert(seals_to(*enc_ctx, *seal, plain@, Ok(d)));
                    assert(seals_to(*enc_ctx, *seal, spec_u32_to_le_bytes(d@.len() as u32), Ok(l)));
                    Ok(data)
                },
            }
        },
    }
}

/// Serialize given value and write it into a frame with its length header.
pub fn serialize_with_len<T: Serialize, F: Fn(&EncryptContext, &[u8]) -> Result<Vec<u8>, SocketError>>(
    value: T,
    enc_ctx: &EncryptContext,
    seal: &F,
) -> (r: Result<Vec<u8>, SocketError>)
    requires
        forall|c: &EncryptContext, a: &[u8]| #[trigger] seal.requires((c, a)),
    ensures
        r matches Err(SocketError::Serialisation(_)) || exists|plain: Seq<u8>| frames_to(*enc_ctx, *seal, plain, r),
        serialises_to_frame(*enc_ctx, *seal, value, r),
{
    match encode(&value) {
        Err(e) => Err(SocketError::Serialisation(e)),
        Ok(plain) => frame_with_len(plain.as_slice(), enc_ctx, seal),
    }
}

/// What trying to read a frame header may do. The reader held the bytes `b` and the pending
/// payload length `l`; afterwards it holds `nb` and `nl`. If fewer bytes than a sealed length are
/// buffered, nothing happens; otherwise the sealed length is opened and deserialised: a failure
/// leaves the reader as it was; a length over `max` is recorded but rejected; any other length is
/// recorded and its header removed from the buffer, and the answer is whether it is not zero.
pub open spec fn header_post<F: Fn(&DecryptContext, &[u8]) -> Result<Vec<u8>, SocketError>>(
    ctx: DecryptContext,
    open: F,
    max: usize,
    b: Seq<u8>,
    l: usize,
    nb: Seq<u8>,
    nl: usize,
    r: Result<bool, SocketError>,
) -> bool {
    let n = ctx.spec_encrypted_size_len();
    if b.len() < n {
        r == Ok::<bool, SocketError>(false) && nb == b && nl == l
    } else {
        exists|hr: Result<Vec<u8>, SocketError>|
            #[trigger] opens_to(ctx, open, b.take(n as int), hr) && match hr {
                Err(e) => r == Err::<bool, SocketError>(e) && nb == b && nl == l,
                Ok(h) => if h@.len() != 4 {
                    r matches Err(SocketError::Serialisation(_)) && nb == b && nl == l
                } else {
                    let len = spec_u32_from_le_bytes(h@) as usize;
                    &&& nl == len
                    &&& if len > max {
                        r == Err::<bool, SocketError>(SocketError::PayloadSizeProhibitive) && nb == b
                    } else {
                        r == Ok::<bool, SocketError>(len > 0) && nb == b.skip(n as int)
                    }
                },
            }
    }
}

/// What looking at the pending payload may do: with the bytes `b` and a pending length `l`, if the
/// payload is not all buffered yet there is nothing to read; otherwise it is opened and its
/// plaintext returned, or the error of opening it. The reader does not change.
pub open spec fn body_post<F: Fn(&DecryptContext, &[u8]) -> Result<Vec<u8>, SocketError>>(
    ctx: DecryptContext,
    open: F,
    b: Seq<u8>,
    l: usize,
    r: Result<Option<Vec<u8>>, SocketError>,
) -> bool {
    if l > b.len() {
        r == Ok::<Option<Vec<u8>>, SocketError>(None)
    } else {
        exists|pr: Result<Vec<u8>, SocketError>|
            #[trigger] opens_to(ctx, open, b.take(l as int), pr) && match pr {
                Err(e) => r == Err::<Option<Vec<u8>>, SocketError>(e),
                Ok(p) => r matches Ok(Some(v)) && v@ == p@,
            }
    }
}

/// What `next_frame` may do: with no pending length it first tries the header; an error or a
/// zero or missing length ends there; then, with a pending length, it looks at the payload.
pub open spec fn next_frame_post<F: Fn(&DecryptContext, &[u8]) -> Result<Vec<u8>, SocketError>>(
    ctx: DecryptContext,
    open: F,
    max: usize,
    b: Seq<u8>,
    l: usize,
    nb: Seq<u8>,
    nl: usize,
    r: Result<Option<Vec<u8>>, SocketError>,
) -> bool {
    if l == 0 {
        exists|hres: Result<bool, SocketError>, mb: Seq<u8>, ml: usize|
            #[trigger] header_post(ctx, open, max, b, l, mb, ml, hres) && match hres {
                Err(e) => r == Err::<Option<Vec<u8>>, SocketError>(e) && nb == mb && nl == ml,
                Ok(has_len) => if has_len {
                    body_post(ctx, open, mb, ml, r) && nb == mb && nl == ml
                } else {
                    r == Ok::<Option<Vec<u8>>, SocketError>(None) && nb == mb && nl == ml
                },
            }
    } else {
        body_post(ctx, open, b, l, r) && nb == b && nl == l
    }
}

/// What deserialising the payload `pv` of the next frame does, the reader holding the bytes `mb`
/// and the pending length `ml`, and afterwards `nb` and `nl`: exactly `pv` is deserialised; the
/// message is returned and the frame consumed, or the serialisation error is returned and nothing
/// more changes.
pub open spec fn decoded_post<T: Serialize + DeserializeOwned>(
    pv: Seq<u8>,
    mb: Seq<u8>,
    ml: usize,
    nb: Seq<u8>,
    nl: usize,
    r: Result<Option<T>, SocketError>,
) -> bool {
    exists|dr: Result<T, SerialisationError>|
        #[trigger] decodes_to(pv, dr) && match dr {
            Ok(v) => r == Ok::<Option<T>, SocketError>(Some(v)) && ml <= mb.len() && nb == mb.skip(ml as int) && nl == 0,
            Err(e) => r == Err::<Option<T>, SocketError>(SocketError::Serialisation(e)) && nb == mb && nl == ml,
        }
}

/// What `try_read` may do: it looks at the next frame as `next_frame` does, leaving the reader
/// with the bytes `mb` and pending length `ml`; if a decrypted payload came out, deserialising it
/// either fails, and nothing more changes, or gives the message, and the frame is consumed.
pub open spec fn try_read_post<T: Serialize + DeserializeOwned, F: Fn(&DecryptContext, &[u8]) -> Result<Vec<u8>, SocketError>>(
    ctx: DecryptContext,
    open: F,
    max: usize,
    b: Seq<u8>,
    l: usize,
    nb: Seq<u8>,
    nl: usize,
    r: Result<Option<T>, SocketError>,
) -> bool {
    exists|fr: Result<Option<Vec<u8>>, SocketError>, mb: Seq<u8>, ml: usize|
        #[trigger] next_frame_post(ctx, open, max, b, l, mb, ml, fr) && match fr {
            Err(e) => r == Err::<Option<T>, SocketError>(e) && nb == mb && nl == ml,
            Ok(None) => r == Ok::<Option<T>, SocketError>(None) && nb == mb && nl == ml,
            Ok(Some(pv)) => decoded_post(pv@, mb, ml, nb, nl, r),
        }
}

/// Reads length delimited data frames.
pub struct LenDelimitedReader {
    read_buffer: Vec<u8>,
    read_len: usize,
    max_payload_size: usize,
    dec_ctx: DecryptContext,
}

impl LenDelimitedReader {
    /// The bytes received and not yet consumed.
    pub closed spec fn buffer(&self) -> Seq<u8> {
        self.read_buffer@
    }

    /// The payload length of the frame being read, whose header has been consumed; 0 if none.
    pub closed spec fn pending_len(&self) -> usize {
        self.read_len
    }

    /// The largest payload length the reader accepts.
    pub closed spec fn max_payload(&self) -> usize {
        self.max_payload_size
    }

    /// The context incoming frames are decrypted with.
    pub closed spec fn decrypt_ctx(&self) -> DecryptContext {
        self.dec_ctx
    }

    /// Construct reader with empty read buffer and null decryption.
    pub fn new(max_payload_size: usize) -> (r: Self)
        ensures
            r.buffer() == Seq::<u8>::empty(),
            r.pending_len() == 0,
            r.max_payload() == max_payload_size,
            r.decrypt_ctx() == DecryptContext::Null,
    {
        LenDelimitedReader {
            read_buffer: Vec::new(),
            read_len: 0,
            max_payload_size,
            dec_ctx: DecryptContext::null(),
        }
    }

    /// The payload length of the frame being read, whose header has been consumed; 0 if none.
    pub fn read_len(&self) -> (r: usize)
        ensures
            r == self.pending_len(),
    {
        self.read_len
    }

    /// Changes how incoming frames are decrypted.
    pub fn set_decrypt_ctx(&mut self, dec_ctx: DecryptContext)
        ensures
            final(self).decrypt_ctx() == dec_ctx,
            final(self).buffer() == old(self).buffer(),
            final(self).pending_len() == old(self).pending_len(),
            final(self).max_payload() == old(self).max_payload(),
    {
        self.dec_ctx = dec_ctx;
    }

    /// Puts data buffer into the reader so that later when enough data is put it could be read and
    /// deserialised.
    pub fn put_buf(&mut self, buf: &[u8])
        ensures
            final(self).buffer() == old(self).buffer() + buf@,
            final(self).pending_len() == old(self).pending_len(),
            final(self).max_payload() == old(self).max_payload(),
            final(self).decrypt_ctx() == old(self).decrypt_ctx(),
    {
        append_bytes(&mut self.read_buffer, buf);
    }

    /// Tries to read the header of the next frame: its payload length. Returns whether a non-zero
    /// length is now pending.
    pub fn try_read_header<F: Fn(&DecryptContext, &[u8]) -> Result<Vec<u8>, SocketError>>(&mut self, open: &F) -> (r: Result<bool, SocketError>)
        requires
            forall|c: &DecryptContext, a: &[u8]| #[trigger] open.requires((c, a)),
        ensures
            final(self).max_payload() == old(self).max_payload(),
            final(self).decrypt_ctx() == old(self).decrypt_ctx(),
            header_post(
                old(self).decrypt_ctx(),
                *open,
                old(self).max_payload(),
                old(self).buffer(),
                old(self).pending_len(),
                final(self).buffer(),
                final(self).pending_len(),
                r,
            ),
    {
        let n = self.dec_ctx.encrypted_size_len();
        if self.read_buffer.len() < n {
            return Ok(false);
        }
        let header = copy_range(self.read_buffer.as_slice(), 0, n);
        assert(header@ == self.read_buffer@.take(n as int));
        let hr = self.dec_ctx.decrypt_bytes(header.as_slice(), open);
        match hr {
            Err(e) => {
                assert(opens_to(self.dec_ctx, *open, self.read_buffer@.take(n as int), Err(e)));
                Err(e)
            },
            Ok(h) => {
                assert(opens_to(self.dec_ctx, *open, self.read_buffer@.take(n as int), Ok(h)));
                let data_len = match deserialise_u32(h.as_slice()) {
                    Ok(v) => v,
                    Err(e) => return Err(SocketError::Serialisation(e)),
                };
                self.read_len = data_len as usize;
                if self.read_len > self.max_payload_size {
                    return Err(SocketError::PayloadSizeProhibitive);
                }
                let rest = copy_range(self.read_buffer.as_slice(), n, self.read_buffer.len());
                self.read_buffer = rest;
                assert(self.read_buffer@ =~= old(self).read_buffer@.skip(n as int));
                Ok(self.read_len > 0)
            },
        }
    }

    /// Looks at the next complete frame: reads its header if none is pending yet, and, once the
    /// whole payload is buffered, returns the decrypted payload without consuming it.
    pub fn next_frame<F: Fn(&DecryptContext, &[u8]) -> Result<Vec<u8>, SocketError>>(&mut self, open: &F) -> (r: Result<Option<Vec<u8>>, SocketError>)
        requires
            forall|c: &DecryptContext, a: &[u8]| #[trigger] open.requires((c, a)),
        ensures
            final(self).max_payload() == old(self).max_payload(),
            final(self).decrypt_ctx() == old(self).decrypt_ctx(),
            next_frame_post(
                old(self).decrypt_ctx(),
                *open,
                old(self).max_payload(),
                old(self).buffer(),
                old(self).pending_len(),
                final(self).buffer(),
                final(self).pending_len(),
                r,
            ),
            r matches Ok(Some(_)) ==> final(self).pending_len() <= final(self).buffer().len(),
    {
        if self.read_len == 0 {
            let hres = self.try_read_header(open);
            match hres {
                Err(e) => return Err(e),
                Ok(has_len) => if !has_len {
                    return Ok(None);
                },
            }
        }
        let ghost mb = self.read_buffer@;
        let ghost ml = self.read_len;
        if self.read_len > self.read_buffer.len() {
            return Ok(None);
        }
        let payload = copy_range(self.read_buffer.as_slice(), 0, self.read_len);
        assert(payload@ == mb.take(ml as int));
        let pr = self.dec_ctx.decrypt_bytes(payload.as_slice(), open);
        assert(opens_to(self.dec_ctx, *open, mb.take(ml as int), pr));
        match pr {
            Err(e) => Err(e),
            Ok(p) => Ok(Some(p)),
        }
    }

    /// Reads the next complete frame and deserialises its payload into a message. Returns `None`
    /// while the frame is not all buffered yet.
    pub fn try_read<T: Serialize + DeserializeOwned, F: Fn(&DecryptContext, &[u8]) -> Result<Vec<u8>, SocketError>>(&mut self, open: &F) -> (r: Result<Option<T>, SocketError>)
        requires
            forall|c: &DecryptContext, a: &[u8]| #[trigger] open.requires((c, a)),
        ensures
            final(self).max_payload() == old(self).max_payload(),
            final(self).decrypt_ctx() == old(self).decrypt_ctx(),
            try_read_post(
                old(self).decrypt_ctx(),
                *open,
                old(self).max_payload(),
                old(self).buffer(),
                old(self).pending_len(),
                final(self).buffer(),
                final(self).pending_len(),
                r,
            ),
    {
        let fr = self.next_frame(open);
        let ghost mb = self.read_buffer@;
        let ghost ml = self.read_len;
        match fr {
            Err(e) => Err(e),
            Ok(None) => Ok(None),
            Ok(Some(plain)) => {
                match crate::serialisation::decode::<T>(plain.as_slice()) {
                    Ok(v) => {
                        self.mark_read();
                        Ok(Some(v))
                    },
                    Err(e) => Err(SocketError::Serialisation(e)),
                }
            },
        }
    }

    /// Shift read buffer to the beginning of the next frame.
    fn mark_read(&mut self)
        requires
            old(self).read_len <= old(self).read_buffer@.len(),
        ensures
            final(self).read_buffer@ == old(self).read_buffer@.skip(old(self).read_len as int),
            final(self).read_len == 0,
            final(self).max_payload_size == old(self).max_payload_size,
            final(self).dec_ctx == old(self).dec_ctx,
    {
        let rest = copy_range(self.read_buffer.as_slice(), self.read_len, self.read_buffer.len());
        self.read_buffer = rest;
        self.read_len = 0;
        assert(self.read_buffer@ =~= old(self).read_buffer@.skip(old(self).read_len as int));
    }
}

/// Under the null context, a reader with no header pending whose buffer starts with the frame of a
/// payload `p` that is neither empty nor over the limit hands out exactly `p`; the header is consumed
/// and the length of `p` is pending, and the bytes after the frame stay buffered.
pub proof fn law_frame_reads_back<F: Fn(&DecryptContext, &[u8]) -> Result<Vec<u8>, SocketError>>(
    open: F,
    max: usize,
    p: Seq<u8>,
    rest: Seq<u8>,
    nb: Seq<u8>,
    nl: usize,
    r: Result<Option<Vec<u8>>, SocketError>,
)
    requires
        0 < p.len() <= max,
        p.len() <= u32::MAX,
        next_frame_post(DecryptContext::Null, open, max, plain_frame(p) + rest, 0, nb, nl, r),
    ensures
        r matches Ok(Some(v)) && v@ == p,
        nb == p + rest,
        nl == p.len(),
{
    lemma_plain_frame_header(p, rest);
    let b = plain_frame(p) + rest;
    let (hres, mb, ml) = choose|hres: Result<bool, SocketError>, mb: Seq<u8>, ml: usize|
        #[trigger] header_post(DecryptContext::Null, open, max, b, 0, mb, ml, hres) && match hres {
            Err(e) => r == Err::<Option<Vec<u8>>, SocketError>(e) && nb == mb && nl == ml,
            Ok(has_len) => if has_len {
                body_post(DecryptContext::Null, open, mb, ml, r) && nb == mb && nl == ml
            } else {
                r == Ok::<Option<Vec<u8>>, SocketError>(None) && nb == mb && nl == ml
            },
        };
    assert(mb =~= p + rest);
    assert((p + rest).take(p.len() as int) =~= p);
}

/// Under the null context, reading a message at the frame of a payload `p` that is neither empty
/// nor over the limit either gives the message and consumes exactly that frame, or fails to
/// deserialise it and keeps its payload pending; nothing else can happen.
pub proof fn law_read_consumes_one_frame<T: Serialize + DeserializeOwned, F: Fn(&DecryptContext, &[u8]) -> Result<Vec<u8>, SocketError>>(
    open: F,
    max: usize,
    p: Seq<u8>,
    rest: Seq<u8>,
    nb: Seq<u8>,
    nl: usize,
    r: Result<Option<T>, SocketError>,
)
    requires
        0 < p.len() <= max,
        p.len() <= u32::MAX,
        try_read_post(DecryptContext::Null, open, max, plain_frame(p) + rest, 0, nb, nl, r),
    ensures
        r matches Ok(Some(_)) ==> nb == rest && nl == 0,
        r matches Ok(Some(_)) || r matches Err(SocketError::Serialisation(_)),
        r matches Err(SocketError::Serialisation(_)) ==> nb == p + rest && nl == p.len(),
        r matches Ok(Some(v)) ==> decodes_to(p, Ok::<T, SerialisationError>(v)),
        r matches Err(SocketError::Serialisation(e)) ==> decodes_to(p, Err::<T, SerialisationError>(e)),
{
    let b = plain_frame(p) + rest;
    let (fr, mb, ml) = choose|fr: Result<Option<Vec<u8>>, SocketError>, mb: Seq<u8>, ml: usize|
        #[trigger] next_frame_post(DecryptContext::Null, open, max, b, 0, mb, ml, fr) && match fr {
            Err(e) => r == Err::<Option<T>, SocketError>(e) && nb == mb && nl == ml,
            Ok(None) => r == Ok::<Option<T>, SocketError>(None) && nb == mb && nl == ml,
            Ok(Some(pv)) => decoded_post(pv@, mb, ml, nb, nl, r),
        };
    law_frame_reads_back(open, max, p, rest, mb, ml, fr);
    assert((p + rest).skip(p.len() as int) =~= rest);
}

/// A frame made of the serialised message `p` is read back as `p` by a reader of the same kind of
/// context, when the keyed backends fit together: a reader with no header pending whose buffer
/// starts with the frame hands out exactly `p`, provided the sealed payload is neither empty nor
/// over the limit; its header is consumed and the bytes after the frame stay buffered.
pub proof fn law_sealed_frame_reads_back<
    S: Fn(&EncryptContext, &[u8]) -> Result<Vec<u8>, SocketError>,
    O: Fn(&DecryptContext, &[u8]) -> Result<Vec<u8>, SocketError>,
>(
    enc: EncryptContext,
    dec: DecryptContext,
    seal: S,
    open: O,
    max: usize,
    p: Seq<u8>,
    frame: Vec<u8>,
    rest: Seq<u8>,
    nb: Seq<u8>,
    nl: usize,
    r: Result<Option<Vec<u8>>, SocketError>,
)
    requires
        (enc is Null) == (dec is Null),
        enc !is Null ==> backends_fit(enc, dec, seal, open),
        frames_to(enc, seal, p, Ok(frame)),
        0 < frame@.len() - enc.spec_encrypted_size_len() <= max,
        frame@.len() - enc.spec_encrypted_size_len() <= u32::MAX,
        next_frame_post(dec, open, max, frame@ + rest, 0, nb, nl, r),
    ensures
        r matches Ok(Some(v)) && v@ == p,
        nb == frame@.skip(enc.spec_encrypted_size_len() as int) + rest,
        nl == frame@.len() - enc.spec_encrypted_size_len(),
{
    vstd::bytes::lemma_auto_spec_u32_to_from_le_bytes();
    let dr = choose|dr: Result<Vec<u8>, SocketError>|
        #[trigger] seals_to(enc, seal, p, dr) && match dr {
            Err(e) => Ok::<Vec<u8>, SocketError>(frame) == Err::<Vec<u8>, SocketError>(e),
            Ok(d) => exists|lr: Result<Vec<u8>, SocketError>|
                #[trigger] seals_to(enc, seal, spec_u32_to_le_bytes(d@.len() as u32), lr) && match lr {
                    Err(e) => Ok::<Vec<u8>, SocketError>(frame) == Err::<Vec<u8>, SocketError>(e),
                    Ok(l) => Ok::<Vec<u8>, SocketError>(frame) matches Ok(v) && v@ == l@ + d@,
                },
        };
    let d = dr->Ok_0;
    let hb = spec_u32_to_le_bytes(d@.len() as u32);
    let lr = choose|lr: Result<Vec<u8>, SocketError>|
        #[trigger] seals_to(enc, seal, hb, lr) && match lr {
            Err(e) => Ok::<Vec<u8>, SocketError>(frame) == Err::<Vec<u8>, SocketError>(e),
            Ok(l) => Ok::<Vec<u8>, SocketError>(frame) matches Ok(v) && v@ == l@ + d@,
        };
    let l = lr->Ok_0;
    let n = enc.spec_encrypted_size_len();
    if enc !is Null {
        let a = choose|a: &[u8]| a@ == hb && #[trigger] seal.ensures((&enc, a), lr);
        assert(seal.ensures((&enc, a), lr));
    }
    assert(l@.len() == n);
    assert(frame@ == l@ + d@);
    let b = frame@ + rest;
    assert(b.take(n as int) =~= l@);
    assert(b.skip(n as int) =~= d@ + rest);
    assert((d@ + rest).take(d@.len() as int) =~= d@);
    let (hres, mb, ml) = choose|hres: Result<bool, SocketError>, mb: Seq<u8>, ml: usize|
        #[trigger] header_post(dec, open, max, b, 0, mb, ml, hres) && match hres {
            Err(e) => r == Err::<Option<Vec<u8>>, SocketError>(e) && nb == mb && nl == ml,
            Ok(has_len) => if has_len {
                body_post(dec, open, mb, ml, r) && nb == mb && nl == ml
            } else {
                r == Ok::<Option<Vec<u8>>, SocketError>(None) && nb == mb && nl == ml
            },
        };
    let hr = choose|hr: Result<Vec<u8>, SocketError>|
        #[trigger] opens_to(dec, open, b.take(n as int), hr) && match hr {
            Err(e) => hres == Err::<bool, SocketError>(e) && mb == b && ml == 0,
            Ok(h) => if h@.len() != 4 {
                hres matches Err(SocketError::Serialisation(_)) && mb == b && ml == 0
            } else {
                let len = spec_u32_from_le_bytes(h@) as usize;
                &&& ml == len
                &&& if len > max {
                    hres == Err::<bool, SocketError>(SocketError::PayloadSizeProhibitive) && mb == b
                } else {
                    hres == Ok::<bool, SocketError>(len > 0) && mb == b.skip(n as int)
                }
            },
        };
    if dec !is Null {
        let c = choose|c: &[u8]| c@ == b.take(n as int) && #[trigger] open.ensures((&dec, c), hr);
        let a = choose|a: &[u8]| a@ == hb && #[trigger] seal.ensures((&enc, a), lr);
        assert(seal.ensures((&enc, a), lr) && open.ensures((&dec, c), hr));
    }
    assert(hr matches Ok(h) && h@ == hb);
    assert(ml == d@.len());
    assert(mb == d@ + rest);
    let pr = choose|pr: Result<Vec<u8>, SocketError>|
        #[trigger] opens_to(dec, open, mb.take(ml as int), pr) && match pr {
            Err(e) => r == Err::<Option<Vec<u8>>, SocketError>(e),
            Ok(pp) => r matches Ok(Some(v)) && v@ == pp@,
        };
    if dec !is Null {
        let c = choose|c: &[u8]| c@ == mb.take(ml as int) && #[trigger] open.ensures((&dec, c), pr);
        let a = choose|a: &[u8]| a@ == p && #[trigger] seal.ensures((&enc, a), dr);
        assert(seal.ensures((&enc, a), dr) && open.ensures((&dec, c), pr));
    }
    assert(frame@.skip(n as int) =~= d@);
}

/// Under the null context, the frame of an empty payload is skipped: reading at it hands out nothing,
/// consumes its header, and leaves no length pending.
pub proof fn law_empty_frame_is_skipped<F: Fn(&DecryptContext, &[u8]) -> Result<Vec<u8>, SocketError>>(
    open: F,
    max: usize,
    rest: Seq<u8>,
    nb: Seq<u8>,
    nl: usize,
    r: Result<Option<Vec<u8>>, SocketError>,
)
    requires
        next_frame_post(DecryptContext::Null, open, max, plain_frame(Seq::empty()) + rest, 0, nb, nl, r),
    ensures
        r == Ok::<Option<Vec<u8>>, SocketError>(None),
        nb == rest,
        nl == 0,
{
    lemma_plain_frame_header(Seq::empty(), rest);
    assert((Seq::<u8>::empty() + rest) =~= rest);
}

/// Under the null context, a header announcing more than the limit is refused with
/// `PayloadSizeProhibitive`, and the buffered bytes stay as they were.
pub proof fn law_oversized_frame_is_refused<F: Fn(&DecryptContext, &[u8]) -> Result<Vec<u8>, SocketError>>(
    open: F,
    max: usize,
    p: Seq<u8>,
    rest: Seq<u8>,
    nb: Seq<u8>,
    nl: usize,
    r: Result<Option<Vec<u8>>, SocketError>,
)
    requires
        max < p.len() <= u32::MAX,
        next_frame_post(DecryptContext::Null, open, max, plain_frame(p) + rest, 0, nb, nl, r),
    ensures
        r == Err::<Option<Vec<u8>>, SocketError>(SocketError::PayloadSizeProhibitive),
        nb == plain_frame(p) + rest,
{
    lemma_plain_frame_header(p, rest);
}

/// Under the null context, while only the first `k` bytes of the frame of a non-empty payload have
/// arrived, there is nothing to read: before the whole header is there nothing changes, after it the
/// header is consumed and the payload length waits.
pub proof fn law_partial_frame_waits<F: Fn(&DecryptContext, &[u8]) -> Result<Vec<u8>, SocketError>>(
    open: F,
    max: usize,
    p: Seq<u8>,
    k: int,
    nb: Seq<u8>,
    nl: usize,
    r: Result<Option<Vec<u8>>, SocketError>,
)
    requires
        0 < p.len() <= max,
        p.len() <= u32::MAX,
        0 <= k < plain_frame(p).len(),
        next_frame_post(DecryptContext::Null, open, max, plain_frame(p).take(k), 0, nb, nl, r),
    ensures
        r == Ok::<Option<Vec<u8>>, SocketError>(None),
        k < 4 ==> nb == plain_frame(p).take(k) && nl == 0,
        k >= 4 ==> nb == p.take(k - 4) && nl == p.len(),
{
    lemma_plain_frame_header(p, Seq::empty());
    let b = plain_frame(p).take(k);
    if k >= 4 {
        assert(b.take(4) =~= plain_frame(p).take(4));
        assert(b.skip(4) =~= p.take(k - 4));
    }
}

/// The header of the frame of `p`, followed by anything, is the 4 byte encoding of the length of
/// `p`, which decodes back to that length.
proof fn lemma_plain_frame_header(p: Seq<u8>, rest: Seq<u8>)
    requires
        p.len() <= u32::MAX,
    ensures
        plain_frame(p).len() == p.len() + 4,
        (plain_frame(p) + rest).take(4) == spec_u32_to_le_bytes(p.len() as u32),
        (plain_frame(p) + rest).skip(4) == p + rest,
        plain_frame(p).take(4) == spec_u32_to_le_bytes(p.len() as u32),
        spec_u32_from_le_bytes(spec_u32_to_le_bytes(p.len() as u32)) == p.len(),
{
    vstd::bytes::lemma_auto_spec_u32_to_from_le_bytes();
    let h = spec_u32_to_le_bytes(p.len() as u32);
    assert((plain_frame(p) + rest).take(4) =~= h);
    assert((plain_frame(p) + rest).skip(4) =~= p + rest);
    assert(plain_frame(p).take(4) =~= h);
}

/// The stream of the null-context frames of the payloads `ps`, one after the other.
pub open spec fn plain_frames(ps: Seq<Seq<u8>>) -> Seq<u8>
    decreases ps.len(),
{
    if ps.len() == 0 {
        Seq::empty()
    } else {
        plain_frames(ps.drop_last()) + plain_frame(ps.last())
    }
}

/// Every payload is neither empty nor over the limit, and its length fits the 32 bit header.
pub open spec fn payloads_fit(ps: Seq<Seq<u8>>, max: usize) -> bool {
    forall|j: int| 0 <= j < ps.len() ==> 0 < (#[trigger] ps[j]).len() <= max && ps[j].len() <= u32::MAX
}

/// A reader under the null context that has received the first `n` bytes of the stream of the
/// frames of `ps`, and handed out the first `i` payloads, holds the bytes `b` and the pending
/// length `l`: either everything received of the later frames is buffered and no length is
/// pending, or the header of frame `i` has been consumed, its payload length is pending, and the
/// rest of what was received is buffered.
pub open spec fn reader_at(ps: Seq<Seq<u8>>, i: int, n: int, b: Seq<u8>, l: usize) -> bool {
    let done = plain_frames(ps.take(i)).len() as int;
    let s = plain_frames(ps);
    &&& 0 <= i <= ps.len()
    &&& done <= n <= s.len()
    &&& {
        ||| l == 0 && b == s.subrange(done, n)
        ||| i < ps.len() && l == ps[i].len() && n - done >= 4 && b == s.subrange(done + 4, n)
    }
}

/// The frames of the first `i` payloads start the stream, and frame `i` follows them.
proof fn lemma_plain_frames_prefix(ps: Seq<Seq<u8>>, i: int)
    requires
        0 <= i < ps.len(),
    ensures
        plain_frames(ps.take(i + 1)) == plain_frames(ps.take(i)) + plain_frame(ps[i]),
        plain_frames(ps.take(i + 1)).len() <= plain_frames(ps).len(),
        plain_frames(ps).subrange(0, plain_frames(ps.take(i + 1)).len() as int) == plain_frames(ps.take(i + 1)),
    decreases ps.len(),
{
    assert(ps.take(i + 1).drop_last() =~= ps.take(i));
    assert(ps.take(i + 1).last() == ps[i]);
    if i + 1 == ps.len() {
        assert(ps.take(i + 1) =~= ps);
        assert(plain_frames(ps).subrange(0, plain_frames(ps).len() as int) =~= plain_frames(ps));
    } else {
        let q = ps.drop_last();
        lemma_plain_frames_prefix(q, i);
        assert(q.take(i + 1) =~= ps.take(i + 1));
        assert(q.take(i) =~= ps.take(i));
        let t = plain_frames(ps.take(i + 1));
        assert(plain_frames(ps) == plain_frames(q) + plain_frame(ps.last()));
        assert(plain_frames(ps).subrange(0, t.len() as int) =~= plain_frames(q).subrange(0, t.len() as int));
    }
}

/// Frame `i`, once received in full, sits in the stream right after the frames before it.
proof fn lemma_frame_in_stream(ps: Seq<Seq<u8>>, i: int)
    requires
        0 <= i < ps.len(),
    ensures
        ({
            let done = plain_frames(ps.take(i)).len() as int;
            let f = plain_frame(ps[i]);
            &&& plain_frames(ps.take(i + 1)).len() == done + f.len()
            &&& done + f.len() <= plain_frames(ps).len()
            &&& plain_frames(ps).subrange(done, done + f.len()) == f
        }),
{
    lemma_plain_frames_prefix(ps, i);
    let done = plain_frames(ps.take(i)).len() as int;
    let f = plain_frame(ps[i]);
    let t = plain_frames(ps.take(i + 1));
    let s = plain_frames(ps);
    assert(s.subrange(done, done + f.len()) =~= s.subrange(0, t.len() as int).subrange(done, done + f.len()));
    assert(t.subrange(done, done + f.len()) =~= f);
}

/// Feeding the reader the next chunk of the stream keeps it in step: it has then received the
/// bytes up to the end of the chunk.
pub proof fn law_chunk_keeps_reader_in_step(ps: Seq<Seq<u8>>, i: int, n: int, b: Seq<u8>, l: usize, c: Seq<u8>)
    requires
        reader_at(ps, i, n, b, l),
        n + c.len() <= plain_frames(ps).len(),
        c == plain_frames(ps).subrange(n, n + c.len()),
    ensures
        reader_at(ps, i, n + c.len(), b + c, l),
{
    let done = plain_frames(ps.take(i)).len() as int;
    let s = plain_frames(ps);
    let m = n + c.len();
    if l == 0 && b == s.subrange(done, n) {
        assert(b + c =~= s.subrange(done, m));
    } else {
        assert(b + c =~= s.subrange(done + 4, m));
    }
}

/// Reading a message from a reader in step with the stream of the frames of `ps` (null context,
/// every payload fitting) keeps it in step: either nothing is read, the reader stays where it was,
/// and frame `i` has not been received in full; or the payload of frame `i` is handed out and the
/// reader moves on to frame `i + 1`; or that payload does not deserialise and the reader stays
/// where it was. No other error can come.
pub proof fn law_read_keeps_reader_in_step<T: Serialize + DeserializeOwned, F: Fn(&DecryptContext, &[u8]) -> Result<Vec<u8>, SocketError>>(
    open: F,
    max: usize,
    ps: Seq<Seq<u8>>,
    i: int,
    n: int,
    b: Seq<u8>,
    l: usize,
    nb: Seq<u8>,
    nl: usize,
    r: Result<Option<T>, SocketError>,
)
    requires
        payloads_fit(ps, max),
        reader_at(ps, i, n, b, l),
        try_read_post(DecryptContext::Null, open, max, b, l, nb, nl, r),
    ensures
        r == Ok::<Option<T>, SocketError>(None) ==> reader_at(ps, i, n, nb, nl) && (i == ps.len() || n < plain_frames(ps.take(i + 1)).len()),
        r matches Ok(Some(_)) ==> i < ps.len() && reader_at(ps, i + 1, n, nb, nl),
        r is Err ==> (r matches Err(SocketError::Serialisation(_)) && i < ps.len() && reader_at(ps, i, n, nb, nl)),
        r matches Ok(Some(v)) ==> decodes_to(ps[i], Ok::<T, SerialisationError>(v)),
        r matches Err(SocketError::Serialisation(e)) ==> decodes_to(ps[i], Err::<T, SerialisationError>(e)),
{
    let done = plain_frames(ps.take(i)).len() as int;
    let s = plain_frames(ps);
    let (fr, mb, ml) = choose|fr: Result<Option<Vec<u8>>, SocketError>, mb: Seq<u8>, ml: usize|
        #[trigger] next_frame_post(DecryptContext::Null, open, max, b, l, mb, ml, fr) && match fr {
            Err(e) => r == Err::<Option<T>, SocketError>(e) && nb == mb && nl == ml,
            Ok(None) => r == Ok::<Option<T>, SocketError>(None) && nb == mb && nl == ml,
            Ok(Some(pv)) => decoded_post(pv@, mb, ml, nb, nl, r),
        };
    if i == ps.len() {
        assert(ps.take(i) =~= ps);
        assert(b.len() == 0);
        assert(l == 0);
    } else {
        let p = ps[i];
        let f = plain_frame(p);
        lemma_frame_in_stream(ps, i);
        lemma_plain_frame_header(p, Seq::empty());
        let end = done + f.len();
        assert(ps.take(i + 1).drop_last() =~= ps.take(i));
        if l == 0 && b == s.subrange(done, n) {
            if n >= end {
                let rest = s.subrange(end, n);
                assert(b =~= f + rest);
                law_read_consumes_one_frame::<T, F>(open, max, p, rest, nb, nl, r);
                if r is Err {
                    assert(nb =~= s.subrange(done + 4, n));
                }
            } else {
                let k = n - done;
                assert(b =~= f.take(k));
                law_partial_frame_waits(open, max, p, k, mb, ml, fr);
                if k >= 4 {
                    assert(mb =~= s.subrange(done + 4, n));
                }
            }
        } else {
            assert(l == p.len() && l > 0);
            if l > b.len() {
                assert(fr == Ok::<Option<Vec<u8>>, SocketError>(None));
            } else {
                assert(b.take(l as int) =~= p);
                assert(fr matches Ok(Some(v)) && v@ == p);
                if r matches Ok(Some(_)) {
                    assert(nb =~= s.subrange(end, n));
                }
            }
        }
    }
}

/// The frames `fs`, one after the other.
pub open spec fn concat_frames(fs: Seq<Seq<u8>>) -> Seq<u8>
    decreases fs.len(),
{
    if fs.len() == 0 {
        Seq::empty()
    } else {
        concat_frames(fs.drop_last()) + fs.last()
    }
}

/// `f` is a frame that framing the serialised message `p` under `enc` gave, and its sealed payload
/// is neither empty nor over the limit, and its length fits the 32 bit header.
pub open spec fn sealed_frame_of<S: Fn(&EncryptContext, &[u8]) -> Result<Vec<u8>, SocketError>>(
    enc: EncryptContext,
    seal: S,
    max: usize,
    p: Seq<u8>,
    f: Seq<u8>,
) -> bool {
    let h = enc.spec_encrypted_size_len();
    &&& exists|v: Vec<u8>| v@ == f && #[trigger] frames_to(enc, seal, p, Ok(v))
    &&& 0 < f.len() - h <= max
    &&& f.len() - h <= u32::MAX
}

/// A reader that has received the first `n` bytes of the stream of the frames `fs`, whose
/// sealed lengths are `h` bytes long, and handed out the first `i` payloads, holds the bytes `b`
/// and the pending length `l`: either everything received of the later frames is buffered and no
/// length is pending, or the sealed length of frame `i` has been consumed, the length of its
/// sealed payload is pending, and the rest of what was received is buffered.
pub open spec fn sealed_reader_at(h: int, fs: Seq<Seq<u8>>, i: int, n: int, b: Seq<u8>, l: usize) -> bool {
    let done = concat_frames(fs.take(i)).len() as int;
    let s = concat_frames(fs);
    &&& 0 <= h
    &&& 0 <= i <= fs.len()
    &&& done <= n <= s.len()
    &&& {
        ||| l == 0 && b == s.subrange(done, n)
        ||| i < fs.len() && l == fs[i].len() - h && n - done >= h && b == s.subrange(done + h, n)
    }
}

/// Frame `i` sits in the stream right after the frames before it.
proof fn lemma_concat_frames_prefix(fs: Seq<Seq<u8>>, i: int)
    requires
        0 <= i < fs.len(),
    ensures
        concat_frames(fs.take(i + 1)) == concat_frames(fs.take(i)) + fs[i],
        concat_frames(fs.take(i + 1)).len() <= concat_frames(fs).len(),
        concat_frames(fs).subrange(0, concat_frames(fs.take(i + 1)).len() as int) == concat_frames(fs.take(i + 1)),
        concat_frames(fs).subrange(
            concat_frames(fs.take(i)).len() as int,
            concat_frames(fs.take(i + 1)).len() as int,
        ) == fs[i],
    decreases fs.len(),
{
    assert(fs.take(i + 1).drop_last() =~= fs.take(i));
    assert(fs.take(i + 1).last() == fs[i]);
    let t = concat_frames(fs.take(i + 1));
    let done = concat_frames(fs.take(i)).len() as int;
    if i + 1 == fs.len() {
        assert(fs.take(i + 1) =~= fs);
        assert(concat_frames(fs).subrange(0, concat_frames(fs).len() as int) =~= concat_frames(fs));
    } else {
        let q = fs.drop_last();
        lemma_concat_frames_prefix(q, i);
        assert(q.take(i + 1) =~= fs.take(i + 1));
        assert(q.take(i) =~= fs.take(i));
        assert(concat_frames(fs) == concat_frames(q) + fs.last());
        assert(concat_frames(fs).subrange(0, t.len() as int) =~= concat_frames(q).subrange(0, t.len() as int));
    }
    assert(concat_frames(fs).subrange(done, t.len() as int) =~= concat_frames(fs).subrange(0, t.len() as int).subrange(
        done,
        t.len() as int,
    ));
    assert(t.subrange(done, t.len() as int) =~= fs[i]);
}

/// A frame made by `seal` under `enc`, with fitting backends, is its sealed length, which opens
/// under `dec` to the 4 byte length of the rest, followed by its sealed payload, which opens to
/// the serialised message.
#[verifier::spinoff_prover]
#[verifier::rlimit(40)]
proof fn lemma_sealed_frame_parts<
    S: Fn(&EncryptContext, &[u8]) -> Result<Vec<u8>, SocketError>,
    O: Fn(&DecryptContext, &[u8]) -> Result<Vec<u8>, SocketError>,
>(enc: EncryptContext, dec: DecryptContext, seal: S, open: O, max: usize, p: Seq<u8>, f: Seq<u8>)
    requires
        (enc is Null) == (dec is Null),
        enc !is Null ==> backends_fit(enc, dec, seal, open),
        sealed_frame_of(enc, seal, max, p, f),
    ensures
        ({
            let h = enc.spec_encrypted_size_len() as int;
            let d = f.skip(h);
            &&& h == dec.spec_encrypted_size_len()
            &&& f.len() > h
            &&& forall|hr: Result<Vec<u8>, SocketError>|
                #[trigger] opens_to(dec, open, f.take(h), hr) ==> (hr matches Ok(x) && x@
                    == spec_u32_to_le_bytes(d.len() as u32))
            &&& spec_u32_from_le_bytes(spec_u32_to_le_bytes(d.len() as u32)) == d.len()
            &&& forall|pr: Result<Vec<u8>, SocketError>|
                #[trigger] opens_to(dec, open, d, pr) ==> (pr matches Ok(x) && x@ == p)
        }),
{
    vstd::bytes::lemma_auto_spec_u32_to_from_le_bytes();
    let frame = choose|v: Vec<u8>| v@ == f && #[trigger] frames_to(enc, seal, p, Ok(v));
    let dr = choose|dr: Result<Vec<u8>, SocketError>|
        #[trigger] seals_to(enc, seal, p, dr) && match dr {
            Err(e) => Ok::<Vec<u8>, SocketError>(frame) == Err::<Vec<u8>, SocketError>(e),
            Ok(d) => exists|lr: Result<Vec<u8>, SocketError>|
                #[trigger] seals_to(enc, seal, spec_u32_to_le_bytes(d@.len() as u32), lr) && match lr {
                    Err(e) => Ok::<Vec<u8>, SocketError>(frame) == Err::<Vec<u8>, SocketError>(e),
                    Ok(l) => Ok::<Vec<u8>, SocketError>(frame) matches Ok(v) && v@ == l@ + d@,
                },
        };
    let d = dr->Ok_0;
    let hb = spec_u32_to_le_bytes(d@.len() as u32);
    let lr = choose|lr: Result<Vec<u8>, SocketError>|
        #[trigger] seals_to(enc, seal, hb, lr) && match lr {
            Err(e) => Ok::<Vec<u8>, SocketError>(frame) == Err::<Vec<u8>, SocketError>(e),
            Ok(l) => Ok::<Vec<u8>, SocketError>(frame) matches Ok(v) && v@ == l@ + d@,
        };
    let l = lr->Ok_0;
    let h = enc.spec_encrypted_size_len() as int;
    if enc !is Null {
        let a = choose|a: &[u8]| a@ == hb && #[trigger] seal.ensures((&enc, a), lr);
        assert(seal.ensures((&enc, a), lr));
    }
    assert(l@.len() == h);
    assert(f == l@ + d@);
    assert(f.take(h) =~= l@);
    assert(f.skip(h) =~= d@);
    assert(f.len() > h);
    assert(h == dec.spec_encrypted_size_len());
    let dl = f.skip(h).len();
    assert(dl == f.len() - h && dl <= u32::MAX);
    assert((dl as u32) as int == dl);
    assert(spec_u32_to_le_bytes(dl as u32).len() == 4);
    assert(spec_u32_from_le_bytes(spec_u32_to_le_bytes(dl as u32)) == dl as u32);
    assert forall|hr: Result<Vec<u8>, SocketError>|
        #[trigger] opens_to(dec, open, f.take(h), hr) implies (hr matches Ok(x) && x@ == spec_u32_to_le_bytes(
            f.skip(h).len() as u32,
        )) by {
        if dec !is Null {
            let c = choose|c: &[u8]| c@ == f.take(h) && #[trigger] open.ensures((&dec, c), hr);
            let a = choose|a: &[u8]| a@ == hb && #[trigger] seal.ensures((&enc, a), lr);
            assert(seal.ensures((&enc, a), lr) && open.ensures((&dec, c), hr));
        }
    }
    assert forall|pr: Result<Vec<u8>, SocketError>| #[trigger] opens_to(dec, open, f.skip(h), pr) implies (pr matches Ok(
        x,
    ) && x@ == p) by {
        if dec !is Null {
            let c = choose|c: &[u8]| c@ == f.skip(h) && #[trigger] open.ensures((&dec, c), pr);
            let a = choose|a: &[u8]| a@ == p && #[trigger] seal.ensures((&enc, a), dr);
            assert(seal.ensures((&enc, a), dr) && open.ensures((&dec, c), pr));
        }
    }
}

/// Feeding the reader the next chunk of a stream of frames keeps it in step: it has then received
/// the bytes up to the end of the chunk.
pub proof fn law_chunk_keeps_sealed_reader_in_step(
    h: int,
    fs: Seq<Seq<u8>>,
    i: int,
    n: int,
    b: Seq<u8>,
    l: usize,
    c: Seq<u8>,
)
    requires
        sealed_reader_at(h, fs, i, n, b, l),
        n + c.len() <= concat_frames(fs).len(),
        c == concat_frames(fs).subrange(n, n + c.len()),
    ensures
        sealed_reader_at(h, fs, i, n + c.len(), b + c, l),
{
    let done = concat_frames(fs.take(i)).len() as int;
    let s = concat_frames(fs);
    let m = n + c.len();
    if l == 0 && b == s.subrange(done, n) {
        assert(b + c =~= s.subrange(done, m));
    } else {
        assert(b + c =~= s.subrange(done + h, m));
    }
}

/// Reading a message from a reader in step with a stream of frames that `seal` made under `enc`
/// of the serialised messages `ps`, where the reader decrypts under `dec` of the same kind and the
/// keyed backends fit, keeps it in step: either nothing is read, the reader stays where it was,
/// and frame `i` has not been received in full; or the message of frame `i` is deserialised from
/// exactly `ps[i]` and the reader moves on to frame `i + 1`; or that message does not deserialise
/// and the reader stays where it was. No other error can come.
pub proof fn law_read_keeps_sealed_reader_in_step<
    T: Serialize + DeserializeOwned,
    S: Fn(&EncryptContext, &[u8]) -> Result<Vec<u8>, SocketError>,
    O: Fn(&DecryptContext, &[u8]) -> Result<Vec<u8>, SocketError>,
>(
    enc: EncryptContext,
    dec: DecryptContext,
    seal: S,
    open: O,
    max: usize,
    ps: Seq<Seq<u8>>,
    fs: Seq<Seq<u8>>,
    i: int,
    n: int,
    b: Seq<u8>,
    l: usize,
    nb: Seq<u8>,
    nl: usize,
    r: Result<Option<T>, SocketError>,
)
    requires
        (enc is Null) == (dec is Null),
        enc !is Null ==> backends_fit(enc, dec, seal, open),
        fs.len() == ps.len(),
        forall|j: int| 0 <= j < fs.len() ==> #[trigger] sealed_frame_of(enc, seal, max, ps[j], fs[j]),
        sealed_reader_at(enc.spec_encrypted_size_len() as int, fs, i, n, b, l),
        try_read_post(dec, open, max, b, l, nb, nl, r),
    ensures
        r == Ok::<Option<T>, SocketError>(None) ==> sealed_reader_at(enc.spec_encrypted_size_len() as int, fs, i, n, nb, nl)
            && (i == fs.len() || n < concat_frames(fs.take(i + 1)).len()),
        r matches Ok(Some(_)) ==> i < fs.len() && sealed_reader_at(enc.spec_encrypted_size_len() as int, fs, i + 1, n, nb, nl),
        r is Err ==> (r matches Err(SocketError::Serialisation(_)) && i < fs.len() && sealed_reader_at(
            enc.spec_encrypted_size_len() as int,
            fs,
            i,
            n,
            nb,
            nl,
        )),
        r matches Ok(Some(v)) ==> decodes_to(ps[i], Ok::<T, SerialisationError>(v)),
        r matches Err(SocketError::Serialisation(e)) ==> decodes_to(ps[i], Err::<T, SerialisationError>(e)),
{
    let h = enc.spec_encrypted_size_len() as int;
    let done = concat_frames(fs.take(i)).len() as int;
    let s = concat_frames(fs);
    let (fr, mb, ml) = choose|fr: Result<Option<Vec<u8>>, SocketError>, mb: Seq<u8>, ml: usize|
        #[trigger] next_frame_post(dec, open, max, b, l, mb, ml, fr) && match fr {
            Err(e) => r == Err::<Option<T>, SocketError>(e) && nb == mb && nl == ml,
            Ok(None) => r == Ok::<Option<T>, SocketError>(None) && nb == mb && nl == ml,
            Ok(Some(pv)) => decoded_post(pv@, mb, ml, nb, nl, r),
        };
    law_size_len_agrees(enc, dec);
    vstd::bytes::lemma_auto_spec_u32_to_from_le_bytes();
    if i == fs.len() {
        assert(fs.take(i) =~= fs);
        assert(b.len() == 0);
        assert(l == 0);
    } else {
        let f = fs[i];
        assert(sealed_frame_of(enc, seal, max, ps[i], f));
        lemma_sealed_frame_parts(enc, dec, seal, open, max, ps[i], f);
        lemma_concat_frames_prefix(fs, i);
        let end = done + f.len();
        let d = f.skip(h);
        let dl = d.len() as usize;
        if l == 0 {
            if b.len() >= h {
                assert(b.take(h) =~= f.take(h));
                let (hres, hb, hl) = choose|hres: Result<bool, SocketError>, hb: Seq<u8>, hl: usize|
                    #[trigger] header_post(dec, open, max, b, l, hb, hl, hres) && match hres {
                        Err(e) => fr == Err::<Option<Vec<u8>>, SocketError>(e) && mb == hb && ml == hl,
                        Ok(has_len) => if has_len {
                            body_post(dec, open, hb, hl, fr) && mb == hb && ml == hl
                        } else {
                            fr == Ok::<Option<Vec<u8>>, SocketError>(None) && mb == hb && ml == hl
                        },
                    };
                let hr = choose|hr: Result<Vec<u8>, SocketError>|
                    #[trigger] opens_to(dec, open, b.take(h), hr) && match hr {
                        Err(e) => hres == Err::<bool, SocketError>(e) && hb == b && hl == l,
                        Ok(x) => if x@.len() != 4 {
                            hres matches Err(SocketError::Serialisation(_)) && hb == b && hl == l
                        } else {
                            let len = spec_u32_from_le_bytes(x@) as usize;
                            &&& hl == len
                            &&& if len > max {
                                hres == Err::<bool, SocketError>(SocketError::PayloadSizeProhibitive) && hb == b
                            } else {
                                hres == Ok::<bool, SocketError>(len > 0) && hb == b.skip(h)
                            }
                        },
                    };
                assert(opens_to(dec, open, f.take(h), hr));
                assert(hr matches Ok(x) && x@ == spec_u32_to_le_bytes(d.len() as u32));
                assert(spec_u32_to_le_bytes(d.len() as u32).len() == 4);
                assert(hl == dl);
                assert(hb =~= s.subrange(done + h, n));
                assert(body_post(dec, open, hb, hl, fr));
                if dl <= hb.len() {
                    assert(hb.take(dl as int) =~= d);
                    assert(opens_to(dec, open, d, choose|pr: Result<Vec<u8>, SocketError>|
                        #[trigger] opens_to(dec, open, hb.take(hl as int), pr) && match pr {
                            Err(e) => fr == Err::<Option<Vec<u8>>, SocketError>(e),
                            Ok(pp) => fr matches Ok(Some(v)) && v@ == pp@,
                        }));
                    if r matches Ok(Some(_)) {
                        assert(nb =~= s.subrange(end, n));
                    }
                }
            } else {
                assert(fr == Ok::<Option<Vec<u8>>, SocketError>(None));
            }
        } else {
            assert(l == dl);
            if l <= b.len() {
                assert(b.take(l as int) =~= d);
                assert(opens_to(dec, open, d, choose|pr: Result<Vec<u8>, SocketError>|
                    #[trigger] opens_to(dec, open, b.take(l as int), pr) && match pr {
                        Err(e) => fr == Err::<Option<Vec<u8>>, SocketError>(e),
                        Ok(pp) => fr matches Ok(Some(v)) && v@ == pp@,
                    }));
                if r matches Ok(Some(_)) {
                    assert(nb =~= s.subrange(end, n));
                }
            }
        }
    }
}

/// A fresh reader, with nothing received and nothing pending, is in step with the start of any
/// stream of frames, null or sealed.
pub proof fn law_fresh_reader_is_in_step(h: int, fs: Seq<Seq<u8>>, ps: Seq<Seq<u8>>)
    requires
        0 <= h,
    ensures
        sealed_reader_at(h, fs, 0, 0, Seq::empty(), 0),
        reader_at(ps, 0, 0, Seq::empty(), 0),
{
    assert(fs.take(0) =~= Seq::<Seq<u8>>::empty());
    assert(ps.take(0) =~= Seq::<Seq<u8>>::empty());
    assert(concat_frames(fs).subrange(0, 0) =~= Seq::<u8>::empty());
    assert(plain_frames(ps).subrange(0, 0) =~= Seq::<u8>::empty());
}

/// A message framed under an encryption context, as a TCP write queues it, is read back by a
/// reader of the same kind of context, with fitting keyed backends, from exactly the bytes that
/// serialising the message gave: the message read is what deserialising those bytes gives, and
/// the frame is consumed; or deserialising them fails with that error and the payload stays
/// pending.
pub proof fn law_framed_message_reads_back<
    T: Serialize + DeserializeOwned,
    S: Fn(&EncryptContext, &[u8]) -> Result<Vec<u8>, SocketError>,
    O: Fn(&DecryptContext, &[u8]) -> Result<Vec<u8>, SocketError>,
>(
    enc: EncryptContext,
    dec: DecryptContext,
    seal: S,
    open: O,
    max: usize,
    msg: T,
    frame: Vec<u8>,
    rest: Seq<u8>,
    nb: Seq<u8>,
    nl: usize,
    r: Result<Option<T>, SocketError>,
)
    requires
        (enc is Null) == (dec is Null),
        enc !is Null ==> backends_fit(enc, dec, seal, open),
        serialises_to_frame(enc, seal, msg, Ok::<Vec<u8>, SocketError>(frame)),
        0 < frame@.len() - enc.spec_encrypted_size_len() <= max,
        frame@.len() - enc.spec_encrypted_size_len() <= u32::MAX,
        try_read_post(dec, open, max, frame@ + rest, 0, nb, nl, r),
    ensures
        exists|plain: Vec<u8>|
            #[trigger] encodes_to(msg, Ok::<Vec<u8>, SerialisationError>(plain)) && match r {
                Ok(Some(v)) => decodes_to(plain@, Ok::<T, SerialisationError>(v)) && nb == rest && nl == 0,
                Err(SocketError::Serialisation(e)) => decodes_to(plain@, Err::<T, SerialisationError>(e))
                    && nb == frame@.skip(enc.spec_encrypted_size_len() as int) + rest
                    && nl == frame@.len() - enc.spec_encrypted_size_len(),
                _ => false,
            },
{
    let sr = choose|sr: Result<Vec<u8>, SerialisationError>|
        #[trigger] encodes_to(msg, sr) && match sr {
            Err(e) => Ok::<Vec<u8>, SocketError>(frame) == Err::<Vec<u8>, SocketError>(SocketError::Serialisation(e)),
            Ok(plain) => frames_to(enc, seal, plain@, Ok::<Vec<u8>, SocketError>(frame)),
        };
    let plain = sr->Ok_0;
    let (fr, mb, ml) = choose|fr: Result<Option<Vec<u8>>, SocketError>, mb: Seq<u8>, ml: usize|
        #[trigger] next_frame_post(dec, open, max, frame@ + rest, 0, mb, ml, fr) && match fr {
            Err(e) => r == Err::<Option<T>, SocketError>(e) && nb == mb && nl == ml,
            Ok(None) => r == Ok::<Option<T>, SocketError>(None) && nb == mb && nl == ml,
            Ok(Some(pv)) => decoded_post(pv@, mb, ml, nb, nl, r),
        };
    law_sealed_frame_reads_back(enc, dec, seal, open, max, plain@, frame, rest, mb, ml, fr);
    let pv = fr->Ok_0->Some_0;
    assert(pv@ == plain@);
    let h = enc.spec_encrypted_size_len() as int;
    assert((frame@.skip(h) + rest).skip(frame@.len() - h) =~= rest);
    assert(encodes_to(msg, Ok::<Vec<u8>, SerialisationError>(plain)));
}

} // verus!
