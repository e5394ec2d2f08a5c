use socket_collection::crypto::{DecryptContext, EncryptContext, PublicEncryptKey, SecretEncryptKey, SharedSecretKey};
use socket_collection::error::{into_io_error, CryptoError, IoError, IoErrorKind, SocketError};
use socket_collection::SocketConfig;

fn no_seal(_ctx: &EncryptContext, b: &[u8]) -> Result<Vec<u8>, SocketError> {
    Ok(b.to_vec())
}

fn no_open(_ctx: &DecryptContext, b: &[u8]) -> Result<Vec<u8>, SocketError> {
    Ok(b.to_vec())
}

fn failing_seal(_ctx: &EncryptContext, _b: &[u8]) -> Result<Vec<u8>, SocketError> {
    Err(SocketError::Crypto(CryptoError::DeriveKey))
}

fn failing_open(_ctx: &DecryptContext, _b: &[u8]) -> Result<Vec<u8>, SocketError> {
    Err(SocketError::Crypto(CryptoError::DeriveKey))
}

#[test]
fn null_encryption_serializes_and_deserializes_data() {
    let enc_ctx = EncryptContext::null();
    let dec_ctx = DecryptContext::null();

    let encrypted = enc_ctx.encrypt(b"test123", &no_seal).unwrap();
    let decrypted: [u8; 7] = dec_ctx.decrypt(&encrypted[..], &no_open).unwrap();

    assert_eq!(&decrypted, b"test123");
}

#[test]
fn null_encryption_is_plain_serialisation() {
    let encrypted = EncryptContext::null().encrypt(&0x01020304u32, &failing_seal).unwrap();

    assert_eq!(encrypted, vec![4, 3, 2, 1]);
}

#[test]
fn keyed_encryption_hands_the_serialised_bytes_to_the_backend() {
    let ctx = EncryptContext::authenticated(SharedSecretKey { bytes: [7; 32] });
    let seal = |ctx: &EncryptContext, b: &[u8]| -> Result<Vec<u8>, SocketError> {
        let mut v = b.to_vec();
        v.reverse();
        if let EncryptContext::Authenticated { shared_key } = ctx {
            v.push(shared_key.bytes[0]);
        }
        Ok(v)
    };

    let encrypted = ctx.encrypt(&0x01020304u32, &seal).unwrap();

    assert_eq!(encrypted, vec![1, 2, 3, 4, 7]);
}

#[test]
fn keyed_decryption_error_is_returned_as_it_is() {
    let ctx = DecryptContext::anonymous_decrypt(PublicEncryptKey { bytes: [1; 32] }, SecretEncryptKey { bytes: [2; 32] });

    let res: Result<u32, SocketError> = ctx.decrypt(&[1, 2, 3, 4], &failing_open);

    match res {
        Err(SocketError::Crypto(CryptoError::DeriveKey)) => (),
        _ => panic!("Expected the backend error"),
    }
}

#[test]
fn null_decryption_of_garbage_is_a_serialisation_error() {
    let res: Result<u64, SocketError> = DecryptContext::null().decrypt(&[1, 2], &no_open);

    match res {
        Err(SocketError::Serialisation(_)) => (),
        _ => panic!("Expected a serialisation error"),
    }
}

#[test]
fn encrypted_size_len_depends_on_the_kind_of_context() {
    let key = SharedSecretKey { bytes: [0; 32] };
    let pk = PublicEncryptKey { bytes: [0; 32] };
    let sk = SecretEncryptKey { bytes: [0; 32] };

    assert_eq!(EncryptContext::null().encrypted_size_len(), 4);
    assert_eq!(DecryptContext::null().encrypted_size_len(), 4);
    assert_eq!(EncryptContext::authenticated(key).encrypted_size_len(), 52);
    assert_eq!(DecryptContext::authenticated(key).encrypted_size_len(), 52);
    assert_eq!(EncryptContext::anonymous_encrypt(pk).encrypted_size_len(), 52);
    assert_eq!(DecryptContext::anonymous_decrypt(pk, sk).encrypted_size_len(), 52);
}

#[test]
fn default_config_has_no_encryption() {
    let conf = SocketConfig::default();

    assert_eq!(conf.max_payload_size, 2 * 1024 * 1024);
    assert_eq!(conf.msg_drop_priority, 2);
    assert_eq!(conf.max_msg_age_secs, 60);
    assert!(matches!(conf.enc_ctx, EncryptContext::Null));
    assert!(matches!(conf.dec_ctx, DecryptContext::Null));
}

#[test]
fn io_error_from_a_value_and_details() {
    let e = into_io_error(Some("boom"), "while closing");

    assert_eq!(e.kind, IoErrorKind::Other);
    assert_eq!(e.raw_os_error, None);
    assert_eq!(e.message, Some("Error: \"boom\";; [Optional details: while closing]".to_owned()));
}

#[test]
fn io_error_without_details() {
    let e = into_io_error(Some(42u8), "");

    assert_eq!(e.message, Some("Error: 42".to_owned()));
}

#[test]
fn io_error_from_details_only() {
    let e = into_io_error::<u8>(None, "no socket");

    assert_eq!(e.message, Some(";; [Optional details: no socket]".to_owned()));
}

#[test]
fn io_error_from_nothing() {
    let e = into_io_error::<u8>(None, "");

    assert_eq!(e.kind, IoErrorKind::Other);
    assert_eq!(e.message, Some(String::new()));
}

#[test]
fn only_would_block_and_interrupted_are_transient() {
    assert!(IoErrorKind::WouldBlock.is_transient());
    assert!(IoErrorKind::Interrupted.is_transient());
    assert!(!IoErrorKind::TimedOut.is_transient());
    assert!(!IoErrorKind::Other.is_transient());
}

#[test]
fn io_error_from_kind_has_no_code_or_message() {
    let e: IoError = IoErrorKind::BrokenPipe.into();

    assert_eq!(e.kind, IoErrorKind::BrokenPipe);
    assert_eq!(e.raw_os_error, None);
    assert_eq!(e.message, None);
}

#[test]
fn contexts_default_to_null() {
    assert!(matches!(EncryptContext::default(), EncryptContext::Null));
    assert!(matches!(DecryptContext::default(), DecryptContext::Null));
}
