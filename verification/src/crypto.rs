//! Encryption contexts: how outgoing frames are sealed and incoming frames opened.
//!
//! A context is either "null", where a frame is the bare serialised message, or holds the key
//! material of authenticated or anonymous public-key encryption. Sealing and opening with a key is
//! done by the cryptographic backend of whoever drives the socket; the library hands it the bytes
//! as a closure argument and decides everything else.

use vstd::prelude::*;

use serde::de::DeserializeOwned;
use serde::ser::Serialize;

use crate::error::SocketError;
use crate::serialisation::{decode, decodes_to, encode, encodes_to};
use maidsafe_utilities::serialisation::SerialisationError;

verus! {

/// Size in bytes of every key.
pub const KEY_BYTES: usize = 32;

/// A symmetric key shared by two peers, derived from one's secret key and the other's public key.
#[derive(Clone, Copy, Debug)]
pub struct SharedSecretKey {
    pub bytes: [u8; 32],
}

/// A public encryption key.
#[derive(Clone, Copy, Debug)]
pub struct PublicEncryptKey {
    pub bytes: [u8; 32],
}

/// A secret encryption key.
#[derive(Clone, Copy, Debug)]
pub struct SecretEncryptKey {
    pub bytes: [u8; 32],
}

/// Size in bytes of an encrypted 32 bit frame length under the given kind of context: the null
/// context serialises the number into 4 bytes, both kinds of encryption turn those 4 bytes into a
/// 52 byte ciphertext.
pub open spec fn size_len_of(is_null: bool) -> usize {
    if is_null { 4 } else { 52 }
}

/// `r` is what sealing `plain` under `ctx` may give: the null context gives the bytes back
/// unchanged, any other context gives what the keyed backend `seal` may return for them when
/// handed that context, whose keys it seals with.
pub open spec fn seals_to<F: Fn(&EncryptContext, &[u8]) -> Result<Vec<u8>, SocketError>>(
    ctx: EncryptContext,
    seal: F,
    plain: Seq<u8>,
    r: Result<Vec<u8>, SocketError>,
) -> bool {
    if ctx is Null {
        r matches Ok(v) && v@ == plain
    } else {
        exists|a: &[u8]| a@ == plain && #[trigger] seal.ensures((&ctx, a), r)
    }
}

/// `r` is what opening `sealed` under `ctx` may give: the null context gives the bytes back
/// unchanged, any other context gives what the keyed backend `open` may return for them when
/// handed that context, whose keys it opens with.
pub open spec fn opens_to<F: Fn(&DecryptContext, &[u8]) -> Result<Vec<u8>, SocketError>>(
    ctx: DecryptContext,
    open: F,
    sealed: Seq<u8>,
    r: Result<Vec<u8>, SocketError>,
) -> bool {
    if ctx is Null {
        r matches Ok(v) && v@ == sealed
    } else {
        exists|a: &[u8]| a@ == sealed && #[trigger] open.ensures((&ctx, a), r)
    }
}

/// `r` is what encrypting the message `msg` under `ctx` may give: the bytes serialising `msg`
/// gave, sealed once under `ctx`, or the error of serialising it.
pub open spec fn encrypts_to<T: Serialize, F: Fn(&EncryptContext, &[u8]) -> Result<Vec<u8>, SocketError>>(
    ctx: EncryptContext,
    seal: F,
    msg: T,
    r: Result<Vec<u8>, SocketError>,
) -> bool {
    exists|sr: Result<Vec<u8>, SerialisationError>|
        #[trigger] encodes_to(msg, sr) && match sr {
            Err(e) => r == Err::<Vec<u8>, SocketError>(SocketError::Serialisation(e)),
            Ok(plain) => seals_to(ctx, seal, plain@, r),
        }
}

/// `r` is what decrypting the bytes `sealed` into a message under `ctx` may give: `sealed` is
/// opened under `ctx`; an error of opening is returned as it is; otherwise exactly the opened bytes
/// are deserialised, into the message or a serialisation error.
pub open spec fn decrypts_to<
    T: Serialize + DeserializeOwned,
    F: Fn(&DecryptContext, &[u8]) -> Result<Vec<u8>, SocketError>,
>(ctx: DecryptContext, open: F, sealed: Seq<u8>, r: Result<T, SocketError>) -> bool {
    exists|pr: Result<Vec<u8>, SocketError>|
        #[trigger] opens_to(ctx, open, sealed, pr) && match pr {
            Err(e) => r == Err::<T, SocketError>(e),
            Ok(p) => exists|dr: Result<T, SerialisationError>|
                #[trigger] decodes_to(p@, dr) && match dr {
                    Ok(v) => r == Ok::<T, SocketError>(v),
                    Err(e) => r == Err::<T, SocketError>(SocketError::Serialisation(e)),
                },
        }
}

/// Simplifies encryption by holding the necessary context - encryption keys.
/// Allows "null" encryption where data is only serialized.
#[derive(Clone, Copy, Debug)]
pub enum EncryptContext {
    /// No encryption.
    Null,
    /// Encryption + authentication.
    Authenticated { shared_key: SharedSecretKey },
    /// No message authentication. Only encrypt operation is allowed.
    AnonymousEncrypt {
        /// Their public key.
        their_pk: PublicEncryptKey,
    },
}

impl Default for EncryptContext {
    /// Default is "null" encryption.
    fn default() -> (r: Self)
        ensures
            r == EncryptContext::Null,
    {
        EncryptContext::null()
    }
}

impl EncryptContext {
    /// Size in bytes of an encrypted frame length under this context.
    pub open spec fn spec_encrypted_size_len(&self) -> usize {
        size_len_of(self is Null)
    }

    /// Contructs "null" encryption context which actually does no encryption.
    /// In this case data is simply serialized but not encrypted.
    pub fn null() -> (r: Self)
        ensures
            r == EncryptContext::Null,
    {
        EncryptContext::Null
    }

    /// Construct crypto context that encrypts and authenticate messages.
    pub fn authenticated(shared_key: SharedSecretKey) -> (r: Self)
        ensures
            r == (EncryptContext::Authenticated { shared_key }),
    {
        EncryptContext::Authenticated { shared_key }
    }

    /// Constructs crypto context that is only meant for unauthenticated encryption.
    pub fn anonymous_encrypt(their_pk: PublicEncryptKey) -> (r: Self)
        ensures
            r == (EncryptContext::AnonymousEncrypt { their_pk }),
    {
        EncryptContext::AnonymousEncrypt { their_pk }
    }

    /// Our data size is 32 bit number. When we encrypt this number, we get a constant size byte
    /// array. This size depends on encryption variation though.
    pub fn encrypted_size_len(&self) -> (r: usize)
        ensures
            r == self.spec_encrypted_size_len(),
    {
        match self {
            EncryptContext::Null => 4,
            EncryptContext::Authenticated { .. } => 52,
            EncryptContext::AnonymousEncrypt { .. } => 52,
        }
    }

    /// Encrypts serialised bytes. The null context hands them back unchanged; any other context
    /// hands itself and them to `seal`, the cryptographic backend, which seals them with its keys.
    pub fn encrypt_bytes<F: Fn(&EncryptContext, &[u8]) -> Result<Vec<u8>, SocketError>>(
        &self,
        plain: &[u8],
        seal: &F,
    ) -> (r: Result<Vec<u8>, SocketError>)
        requires
            self !is Null ==> seal.requires((self, plain)),
        ensures
            seals_to(*self, *seal, plain@, r),
    {
        match self {
            EncryptContext::Null => Ok(crate::buf::copy_all(plain)),
            _ => seal(self, plain),
        }
    }

    /// Serialize given structure and encrypt it.
    pub fn encrypt<T: Serialize, F: Fn(&EncryptContext, &[u8]) -> Result<Vec<u8>, SocketError>>(
        &self,
        msg: &T,
        seal: &F,
    ) -> (r: Result<Vec<u8>, SocketError>)
        requires
            forall|c: &EncryptContext, a: &[u8]| #[trigger] seal.requires((c, a)),
        ensures
            r matches Err(SocketError::Serialisation(_)) || exists|plain: Seq<u8>| #[trigger] seals_to(*self, *seal, plain, r),
            encrypts_to(*self, *seal, *msg, r),
    {
        match encode(msg) {
            Err(e) => Err(SocketError::Serialisation(e)),
            Ok(plain) => self.encrypt_bytes(plain.as_slice(), seal),
        }
    }
}

/// Simplifies decryption by holding the necessary context - keys to decrypt data.
/// Allows "null" decryption where data is only deserialized.
#[derive(Clone, Copy, Debug)]
pub enum DecryptContext {
    /// No encryption.
    Null,
    /// Encryption + authentication.
    Authenticated { shared_key: SharedSecretKey },
    /// No message authentication. Only decrypt operation is allowed.
    AnonymousDecrypt {
        /// Our public key.
        our_pk: PublicEncryptKey,
        /// Our secret key.
        our_sk: SecretEncryptKey,
    },
}

impl Default for DecryptContext {
    /// Default is "null" decryption.
    fn default() -> (r: Self)
        ensures
            r == DecryptContext::Null,
    {
        DecryptContext::null()
    }
}

impl DecryptContext {
    /// Size in bytes of an encrypted frame length under this context.
    pub open spec fn spec_encrypted_size_len(&self) -> usize {
        size_len_of(self is Null)
    }

    /// Contructs "null" decryption context which actually does no decryption.
    /// In this case data is simply deserialized.
    pub fn null() -> (r: Self)
        ensures
            r == DecryptContext::Null,
    {
        DecryptContext::Null
    }

    /// Construct crypto context that decrypts and authenticates messages.
    pub fn authenticated(shared_key: SharedSecretKey) -> (r: Self)
        ensures
            r == (DecryptContext::Authenticated { shared_key }),
    {
        DecryptContext::Authenticated { shared_key }
    }

    /// Constructs crypto context that is only meant for unauthenticated decryption.
    pub fn anonymous_decrypt(our_pk: PublicEncryptKey, our_sk: SecretEncryptKey) -> (r: Self)
        ensures
            r == (DecryptContext::AnonymousDecrypt { our_pk, our_sk }),
    {
        DecryptContext::AnonymousDecrypt { our_pk, our_sk }
    }

    /// The length of encrypted size variable. The returned value matches
    /// `EncryptContext::encrypted_size_len()` of the same kind of context, so that the size can
    /// be decrypted.
    pub fn encrypted_size_len(&self) -> (r: usize)
        ensures
            r == self.spec_encrypted_size_len(),
    {
        match self {
            DecryptContext::Null => 4,
            DecryptContext::Authenticated { .. } => 52,
            DecryptContext::AnonymousDecrypt { .. } => 52,
        }
    }

    /// Decrypts a frame into serialised bytes. The null context hands them back unchanged; any
    /// other context hands itself and them to `open`, the cryptographic backend, which opens them
    /// with its keys.
    pub fn decrypt_bytes<F: Fn(&DecryptContext, &[u8]) -> Result<Vec<u8>, SocketError>>(
        &self,
        sealed: &[u8],
        open: &F,
    ) -> (r: Result<Vec<u8>, SocketError>)
        requires
            self !is Null ==> open.requires((self, sealed)),
        ensures
            opens_to(*self, *open, sealed@, r),
    {
        match self {
            DecryptContext::Null => Ok(crate::buf::copy_all(sealed)),
            _ => open(self, sealed),
        }
    }

    /// Decrypt given buffer and deserialize into structure. An error of decryption is returned as
    /// it is; after a successful decryption the outcome is the deserialised message or a
    /// serialisation error.
    pub fn decrypt<T: Serialize + DeserializeOwned, F: Fn(&DecryptContext, &[u8]) -> Result<Vec<u8>, SocketError>>(
        &self,
        msg: &[u8],
        open: &F,
    ) -> (r: Result<T, SocketError>)
        requires
            forall|c: &DecryptContext, a: &[u8]| #[trigger] open.requires((c, a)),
        ensures
            exists|pr: Result<Vec<u8>, SocketError>|
                #[trigger] opens_to(*self, *open, msg@, pr) && match pr {
                    Err(e) => r == Err::<T, SocketError>(e),
                    Ok(_) => r is Ok || r matches Err(SocketError::Serialisation(_)),
                },
            decrypts_to(*self, *open, msg@, r),
    {
        let pr = self.decrypt_bytes(msg, open);
        match pr {
            Err(e) => Err(e),
            Ok(plain) => match decode::<T>(plain.as_slice()) {
                Ok(v) => Ok(v),
                Err(e) => Err(SocketError::Serialisation(e)),
            },
        }
    }
}

/// An encryption context and a decryption context of the same kind agree on the size of an
/// encrypted frame length, so that a reader can cut off the headers a writer of that kind makes.
pub proof fn law_size_len_agrees(enc: EncryptContext, dec: DecryptContext)
    requires
        (enc is Null) == (dec is Null),
    ensures
        enc.spec_encrypted_size_len() == dec.spec_encrypted_size_len(),
{
}

/// The keyed backends `seal` and `open` fit together for the contexts `enc` and `dec`: whatever
/// `seal` makes of some bytes under `enc`, `open` turns back into those bytes under `dec`, and a
/// 4 byte length sealed under `enc` is always 52 bytes long.
pub open spec fn backends_fit<
    S: Fn(&EncryptContext, &[u8]) -> Result<Vec<u8>, SocketError>,
    O: Fn(&DecryptContext, &[u8]) -> Result<Vec<u8>, SocketError>,
>(enc: EncryptContext, dec: DecryptContext, seal: S, open: O) -> bool {
    &&& forall|a: &[u8], rs: Result<Vec<u8>, SocketError>, c: &[u8], ro: Result<Vec<u8>, SocketError>|
        #![trigger seal.ensures((&enc, a), rs), open.ensures((&dec, c), ro)]
        seal.ensures((&enc, a), rs) && rs is Ok && c@ == rs->Ok_0@ && open.ensures((&dec, c), ro) ==> (ro
            is Ok && ro->Ok_0@ == a@)
    &&& forall|a: &[u8], rs: Result<Vec<u8>, SocketError>|
        #[trigger] seal.ensures((&enc, a), rs) && rs is Ok && a@.len() == 4 ==> rs->Ok_0@.len() == 52
}

/// Bytes sealed under an encryption context are opened back into the same bytes under a
/// decryption context of the same kind, when the keyed backends fit together.
pub proof fn law_sealed_bytes_open_back<
    S: Fn(&EncryptContext, &[u8]) -> Result<Vec<u8>, SocketError>,
    O: Fn(&DecryptContext, &[u8]) -> Result<Vec<u8>, SocketError>,
>(
    enc: EncryptContext,
    dec: DecryptContext,
    seal: S,
    open: O,
    plain: Seq<u8>,
    sealed: Vec<u8>,
    r: Result<Vec<u8>, SocketError>,
)
    requires
        (enc is Null) == (dec is Null),
        enc !is Null ==> backends_fit(enc, dec, seal, open),
        seals_to(enc, seal, plain, Ok(sealed)),
        opens_to(dec, open, sealed@, r),
    ensures
        r matches Ok(v) && v@ == plain,
{
    if enc !is Null {
        let a = choose|a: &[u8]| a@ == plain && #[trigger] seal.ensures((&enc, a), Ok::<Vec<u8>, SocketError>(sealed));
        let c = choose|c: &[u8]| c@ == sealed@ && #[trigger] open.ensures((&dec, c), r);
        assert(seal.ensures((&enc, a), Ok::<Vec<u8>, SocketError>(sealed)) && open.ensures((&dec, c), r));
    }
}

/// A message encrypted under an encryption context is decrypted under a decryption context of the
/// same kind, with fitting keyed backends, from exactly the bytes that serialising the message
/// gave: the result is what deserialising those bytes gives, the message or its error.
pub proof fn law_encrypted_message_decrypts_back<
    T: Serialize + DeserializeOwned,
    S: Fn(&EncryptContext, &[u8]) -> Result<Vec<u8>, SocketError>,
    O: Fn(&DecryptContext, &[u8]) -> Result<Vec<u8>, SocketError>,
>(
    enc: EncryptContext,
    dec: DecryptContext,
    seal: S,
    open: O,
    msg: T,
    sealed: Vec<u8>,
    r: Result<T, SocketError>,
)
    requires
        (enc is Null) == (dec is Null),
        enc !is Null ==> backends_fit(enc, dec, seal, open),
        encrypts_to(enc, seal, msg, Ok::<Vec<u8>, SocketError>(sealed)),
        decrypts_to(dec, open, sealed@, r),
    ensures
        exists|plain: Vec<u8>|
            #[trigger] encodes_to(msg, Ok::<Vec<u8>, SerialisationError>(plain)) && match r {
                Ok(v) => decodes_to(plain@, Ok::<T, SerialisationError>(v)),
                Err(e) => e matches SocketError::Serialisation(se) && decodes_to(plain@, Err::<T, SerialisationError>(se)),
            },
{
    let sr = choose|sr: Result<Vec<u8>, SerialisationError>|
        #[trigger] encodes_to(msg, sr) && match sr {
            Err(e) => Ok::<Vec<u8>, SocketError>(sealed) == Err::<Vec<u8>, SocketError>(SocketError::Serialisation(e)),
            Ok(plain) => seals_to(enc, seal, plain@, Ok::<Vec<u8>, SocketError>(sealed)),
        };
    let plain = sr->Ok_0;
    let pr = choose|pr: Result<Vec<u8>, SocketError>|
        #[trigger] opens_to(dec, open, sealed@, pr) && match pr {
            Err(e) => r == Err::<T, SocketError>(e),
            Ok(p) => exists|dr: Result<T, SerialisationError>|
                #[trigger] decodes_to(p@, dr) && match dr {
                    Ok(v) => r == Ok::<T, SocketError>(v),
                    Err(e) => r == Err::<T, SocketError>(SocketError::Serialisation(e)),
                },
        };
    law_sealed_bytes_open_back(enc, dec, seal, open, plain@, sealed, pr);
    let p = pr->Ok_0;
    let dr = choose|dr: Result<T, SerialisationError>|
        #[trigger] decodes_to(p@, dr) && match dr {
            Ok(v) => r == Ok::<T, SocketError>(v),
            Err(e) => r == Err::<T, SocketError>(SocketError::Serialisation(e)),
        };
    assert(p@ == plain@);
    assert(encodes_to(msg, Ok::<Vec<u8>, SerialisationError>(plain)));
}

} // verus!
