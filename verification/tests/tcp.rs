use socket_collection::crypto::{DecryptContext, EncryptContext};
use socket_collection::error::{IoError, IoErrorKind, SocketError};
use socket_collection::tcp::TcpState;

fn no_seal(_ctx: &EncryptContext, b: &[u8]) -> Result<Vec<u8>, SocketError> {
    Ok(b.to_vec())
}

fn no_open(_ctx: &DecryptContext, b: &[u8]) -> Result<Vec<u8>, SocketError> {
    Ok(b.to_vec())
}

fn would_block() -> IoError {
    IoErrorKind::WouldBlock.into()
}

#[test]
fn stream_write_then_read_gives_the_message_back() {
    let mut sender = TcpState::new();
    let mut receiver = TcpState::new();

    sender.write(Some(("over tcp".to_owned(), 1)), &no_seal).unwrap();
    let frame = sender.next_chunk().unwrap();
    assert_eq!(sender.on_write(frame.clone(), Ok(frame.len())).unwrap(), true);
    assert_eq!(sender.next_chunk(), None);

    let nothing: Option<String> = receiver.read_buffered(&no_open).unwrap();
    assert_eq!(nothing, None);
    assert!(receiver.on_read::<String, _>(false, Ok(frame), &no_open).is_none());
    let got: Option<Result<Option<String>, SocketError>> = receiver.on_read(true, Err(would_block()), &no_open);
    assert_eq!(got.unwrap().unwrap(), Some("over tcp".to_owned()));
}

#[test]
fn partial_stream_write_resumes_with_the_rest() {
    let mut sender = TcpState::new();

    sender.write(Some((vec![1u8, 2, 3, 4], 0)), &no_seal).unwrap();
    let frame = sender.next_chunk().unwrap();
    assert_eq!(sender.on_write(frame.clone(), Ok(5)).unwrap(), true);

    let rest = sender.next_chunk().unwrap();
    assert_eq!(rest, frame[5..].to_vec());
}

#[test]
fn blocked_stream_write_keeps_the_whole_chunk() {
    let mut sender = TcpState::new();

    sender.write(Some((9u16, 3)), &no_seal).unwrap();
    let frame = sender.next_chunk().unwrap();
    assert_eq!(sender.on_write(frame.clone(), Err(would_block())).unwrap(), false);

    assert_eq!(sender.next_chunk(), Some(frame));
}

#[test]
fn failed_stream_write_is_an_io_error() {
    let mut sender = TcpState::new();

    let res = sender.on_write(vec![1, 2], Err(IoErrorKind::BrokenPipe.into()));

    match res {
        Err(SocketError::Io(e)) => assert_eq!(e.kind, IoErrorKind::BrokenPipe),
        _ => panic!("Expected the I/O error"),
    }
    assert_eq!(sender.next_chunk(), None);
}

#[test]
fn end_of_stream_before_any_data_is_zero_byte_read() {
    let mut receiver = TcpState::new();

    let got: Option<Result<Option<u8>, SocketError>> = receiver.on_read(false, Ok(Vec::new()), &no_open);

    match got {
        Some(Err(SocketError::ZeroByteRead)) => (),
        _ => panic!("Expected ZeroByteRead"),
    }
}

#[test]
fn end_of_stream_after_a_whole_frame_gives_the_message() {
    let mut sender = TcpState::new();
    let mut receiver = TcpState::new();
    sender.write(Some((77u8, 1)), &no_seal).unwrap();
    let frame = sender.next_chunk().unwrap();

    assert!(receiver.on_read::<u8, _>(false, Ok(frame), &no_open).is_none());
    let got: Option<Result<Option<u8>, SocketError>> = receiver.on_read(true, Ok(Vec::new()), &no_open);

    assert_eq!(got.unwrap().unwrap(), Some(77));
}

#[test]
fn end_of_stream_in_the_middle_of_a_frame_is_zero_byte_read() {
    let mut receiver = TcpState::new();

    assert!(receiver.on_read::<u8, _>(false, Ok(vec![1, 0]), &no_open).is_none());
    let got: Option<Result<Option<u8>, SocketError>> = receiver.on_read(true, Ok(Vec::new()), &no_open);

    match got {
        Some(Err(SocketError::ZeroByteRead)) => (),
        _ => panic!("Expected ZeroByteRead"),
    }
}

#[test]
fn stream_that_would_block_before_any_data_has_nothing_to_read() {
    let mut receiver = TcpState::new();

    let got: Option<Result<Option<u8>, SocketError>> = receiver.on_read(false, Err(would_block()), &no_open);

    assert_eq!(got.unwrap().unwrap(), None);
}

#[test]
fn stream_read_error_is_returned() {
    let mut receiver = TcpState::new();

    let got: Option<Result<Option<u8>, SocketError>> =
        receiver.on_read(true, Err(IoErrorKind::ConnectionReset.into()), &no_open);

    match got {
        Some(Err(SocketError::Io(e))) => assert_eq!(e.kind, IoErrorKind::ConnectionReset),
        _ => panic!("Expected the I/O error"),
    }
}

#[test]
fn frames_are_written_by_priority() {
    let mut sender = TcpState::new();

    sender.write(Some((1u8, 5)), &no_seal).unwrap();
    sender.write(Some((2u8, 0)), &no_seal).unwrap();

    assert_eq!(sender.next_chunk(), Some(vec![1, 0, 0, 0, 2]));
    assert_eq!(sender.next_chunk(), Some(vec![1, 0, 0, 0, 1]));
    assert_eq!(sender.next_chunk(), None);
}
