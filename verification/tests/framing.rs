use maidsafe_utilities::serialisation::serialise;
use socket_collection::crypto::{DecryptContext, EncryptContext, SharedSecretKey};
use socket_collection::error::{CryptoError, SocketError};
use socket_collection::framing::{frame_with_len, serialize_with_len, LenDelimitedReader};
use socket_collection::DEFAULT_MAX_PAYLOAD_SIZE;

fn no_seal(_ctx: &EncryptContext, b: &[u8]) -> Result<Vec<u8>, SocketError> {
    Ok(b.to_vec())
}

fn no_open(_ctx: &DecryptContext, b: &[u8]) -> Result<Vec<u8>, SocketError> {
    Ok(b.to_vec())
}

/// A stand-in keyed backend: it prefixes 48 bytes of a tag made from the shared key and flips
/// every bit, so a sealed 4 byte length is 52 bytes long, as with the real backend.
fn toy_seal(ctx: &EncryptContext, b: &[u8]) -> Result<Vec<u8>, SocketError> {
    let tag = match ctx {
        EncryptContext::Authenticated { shared_key } => shared_key.bytes[0],
        _ => return Err(SocketError::Crypto(CryptoError::DeriveKey)),
    };
    let mut v = vec![tag; 48];
    v.extend(b.iter().map(|x| !x));
    Ok(v)
}

fn toy_open(ctx: &DecryptContext, b: &[u8]) -> Result<Vec<u8>, SocketError> {
    let tag = match ctx {
        DecryptContext::Authenticated { shared_key } => shared_key.bytes[0],
        _ => return Err(SocketError::Crypto(CryptoError::DeriveKey)),
    };
    if b.len() < 48 || b[..48].iter().any(|x| *x != tag) {
        return Err(SocketError::Crypto(CryptoError::DecryptVerify));
    }
    Ok(b[48..].iter().map(|x| !x).collect())
}

#[test]
fn it_deserializes_data_from_bytes() {
    let mut reader = LenDelimitedReader::new(2 * 1024 * 1024);
    let buf = serialize_with_len(vec![1, 2, 3], &EncryptContext::null(), &no_seal).unwrap();
    reader.put_buf(&buf);

    let data: Option<Vec<i32>> = reader.try_read(&no_open).unwrap();

    assert_eq!(data, Some(vec![1, 2, 3]));
}

#[test]
fn it_deserializes_data_from_bytes_when_there_is_extra_bytes_buffered() {
    let mut reader = LenDelimitedReader::new(2 * 1024 * 1024);
    let buf = serialize_with_len(vec![1, 2, 3], &EncryptContext::null(), &no_seal).unwrap();
    reader.put_buf(&buf);
    let buf = serialize_with_len(vec![4], &EncryptContext::null(), &no_seal).unwrap();
    reader.put_buf(&buf);

    let data: Option<Vec<i32>> = reader.try_read(&no_open).unwrap();

    assert_eq!(data, Some(vec![1, 2, 3]));
}

#[test]
fn when_data_len_is_0_it_returns_none() {
    let mut reader = LenDelimitedReader::new(2 * 1024 * 1024);
    reader.put_buf(&[0, 0, 0, 0]);

    let data: Option<Vec<u8>> = reader.try_read(&no_open).unwrap();

    assert_eq!(data, None);
}

#[test]
fn when_data_len_is_0_it_returns_false() {
    let mut reader = LenDelimitedReader::new(2 * 1024 * 1024);
    reader.put_buf(&[0, 0, 0, 0]);

    let res = reader.try_read_header(&no_open).unwrap();

    assert_eq!(res, false);
    assert_eq!(reader.read_len(), 0);
}

#[test]
fn it_writes_4_byte_data_length() {
    let buf = serialize_with_len(vec![1u8, 2, 3], &EncryptContext::null(), &no_seal).unwrap();

    let exp_serialised = serialise(&vec![1u8, 2, 3]).unwrap();

    assert_eq!(usize::from(buf[0]), exp_serialised.len());
}

#[test]
fn it_writes_encrypted_data_length() {
    for data_len in (0usize..65000).step_by(97).chain([1, 2, 255, 256, 64999]) {
        let exp_serialised = serialise(&vec![1u8; data_len]).unwrap();
        let crypto_ctx = EncryptContext::null();

        let buf = serialize_with_len(vec![1u8; data_len], &crypto_ctx, &no_seal).unwrap();

        assert_eq!(buf.len(), exp_serialised.len() + crypto_ctx.encrypted_size_len());
    }
}

#[test]
fn null_frame_is_little_endian_length_then_payload() {
    let frame = frame_with_len(&[9u8, 8, 7, 6, 5], &EncryptContext::null(), &no_seal).unwrap();

    assert_eq!(frame, vec![5, 0, 0, 0, 9, 8, 7, 6, 5]);
}

#[test]
fn frame_arriving_in_pieces_is_read_once_complete() {
    let frame = serialize_with_len("piecewise".to_owned(), &EncryptContext::null(), &no_seal).unwrap();
    let mut reader = LenDelimitedReader::new(DEFAULT_MAX_PAYLOAD_SIZE);

    reader.put_buf(&frame[..2]);
    let none: Option<String> = reader.try_read(&no_open).unwrap();
    assert_eq!(none, None);
    assert_eq!(reader.read_len(), 0);

    reader.put_buf(&frame[2..7]);
    let none: Option<String> = reader.try_read(&no_open).unwrap();
    assert_eq!(none, None);
    assert_eq!(reader.read_len(), frame.len() - 4);

    reader.put_buf(&frame[7..]);
    let got: Option<String> = reader.try_read(&no_open).unwrap();
    assert_eq!(got, Some("piecewise".to_owned()));
    assert_eq!(reader.read_len(), 0);
}

#[test]
fn consecutive_frames_are_read_in_order() {
    let mut reader = LenDelimitedReader::new(DEFAULT_MAX_PAYLOAD_SIZE);
    for n in 0u64..3 {
        let buf = serialize_with_len(n * 100, &EncryptContext::null(), &no_seal).unwrap();
        reader.put_buf(&buf);
    }

    for n in 0u64..3 {
        let got: Option<u64> = reader.try_read(&no_open).unwrap();
        assert_eq!(got, Some(n * 100));
    }
    let none: Option<u64> = reader.try_read(&no_open).unwrap();
    assert_eq!(none, None);
}

#[test]
fn oversized_frame_is_refused() {
    let mut reader = LenDelimitedReader::new(4);
    let buf = serialize_with_len(vec![1u8; 10], &EncryptContext::null(), &no_seal).unwrap();
    reader.put_buf(&buf);

    let res: Result<Option<Vec<u8>>, SocketError> = reader.try_read(&no_open);

    match res {
        Err(SocketError::PayloadSizeProhibitive) => (),
        _ => panic!("Expected PayloadSizeProhibitive"),
    }
}

#[test]
fn payload_that_does_not_deserialise_is_a_serialisation_error() {
    let mut reader = LenDelimitedReader::new(DEFAULT_MAX_PAYLOAD_SIZE);
    reader.put_buf(&[1, 0, 0, 0, 7]);

    let res: Result<Option<u64>, SocketError> = reader.try_read(&no_open);

    match res {
        Err(SocketError::Serialisation(_)) => (),
        _ => panic!("Expected a serialisation error"),
    }
    assert_eq!(reader.read_len(), 1);
}

#[test]
fn data_read_write_with_stand_in_encryption() {
    let key = SharedSecretKey { bytes: [1; 32] };
    let serialised =
        serialize_with_len("message123".to_owned(), &EncryptContext::authenticated(key), &toy_seal).unwrap();

    let mut reader = LenDelimitedReader::new(DEFAULT_MAX_PAYLOAD_SIZE);
    reader.set_decrypt_ctx(DecryptContext::authenticated(key));
    reader.put_buf(&serialised);
    let deserialised: Option<String> = reader.try_read(&toy_open).unwrap();

    assert_eq!(deserialised, Some("message123".to_owned()));
    assert_eq!(serialised.len(), 52 + 48 + serialise(&"message123".to_owned()).unwrap().len());
}

#[test]
fn frame_that_fails_to_open_gives_the_backend_error() {
    let key = SharedSecretKey { bytes: [1; 32] };
    let mut reader = LenDelimitedReader::new(DEFAULT_MAX_PAYLOAD_SIZE);
    reader.set_decrypt_ctx(DecryptContext::authenticated(key));
    reader.put_buf(&[0u8; 60]);

    let res: Result<Option<String>, SocketError> = reader.try_read(&toy_open);

    match res {
        Err(SocketError::Crypto(CryptoError::DecryptVerify)) => (),
        _ => panic!("Expected DecryptVerify"),
    }
}

#[test]
fn frames_fed_in_odd_chunks_come_out_in_order() {
    let mut stream = Vec::new();
    for word in ["alpha", "be", "gamma ray"] {
        stream.extend(serialize_with_len(word.to_owned(), &EncryptContext::null(), &no_seal).unwrap());
    }
    let mut reader = LenDelimitedReader::new(DEFAULT_MAX_PAYLOAD_SIZE);
    let mut got = Vec::new();
    for chunk in stream.chunks(3) {
        reader.put_buf(chunk);
        while let Some(word) = reader.try_read::<String, _>(&no_open).unwrap() {
            got.push(word);
        }
    }

    assert_eq!(got, vec!["alpha".to_owned(), "be".to_owned(), "gamma ray".to_owned()]);
}

#[test]
fn frame_sealed_under_another_key_does_not_open() {
    let serialised = serialize_with_len(
        "secret".to_owned(),
        &EncryptContext::authenticated(SharedSecretKey { bytes: [1; 32] }),
        &toy_seal,
    )
    .unwrap();
    let mut reader = LenDelimitedReader::new(DEFAULT_MAX_PAYLOAD_SIZE);
    reader.set_decrypt_ctx(DecryptContext::authenticated(SharedSecretKey { bytes: [2; 32] }));
    reader.put_buf(&serialised);

    let res: Result<Option<String>, SocketError> = reader.try_read(&toy_open);

    match res {
        Err(SocketError::Crypto(CryptoError::DecryptVerify)) => (),
        _ => panic!("Expected DecryptVerify"),
    }
}

#[test]
fn sealed_frames_fed_in_odd_chunks_come_out_in_order() {
    let key = SharedSecretKey { bytes: [9; 32] };
    let enc = EncryptContext::authenticated(key);
    let mut stream = Vec::new();
    for n in [5u32, 70_000, 0] {
        stream.extend(serialize_with_len(n, &enc, &toy_seal).unwrap());
    }
    let mut reader = LenDelimitedReader::new(DEFAULT_MAX_PAYLOAD_SIZE);
    reader.set_decrypt_ctx(DecryptContext::authenticated(key));
    let mut got = Vec::new();
    for chunk in stream.chunks(7) {
        reader.put_buf(chunk);
        while let Some(n) = reader.try_read::<u32, _>(&toy_open).unwrap() {
            got.push(n);
        }
    }

    assert_eq!(got, vec![5, 70_000, 0]);
}
