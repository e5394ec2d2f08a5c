use socket_collection::crypto::{DecryptContext, EncryptContext};
use socket_collection::error::{IoError, IoErrorKind, SocketError};
use socket_collection::udp::{handle_recv_res, handle_send_res, RecvResult, UdpState};
use socket_collection::SocketConfig;
use std::collections::VecDeque;

fn no_seal(_ctx: &EncryptContext, b: &[u8]) -> Result<Vec<u8>, SocketError> {
    Ok(b.to_vec())
}

fn no_open(_ctx: &DecryptContext, b: &[u8]) -> Result<Vec<u8>, SocketError> {
    Ok(b.to_vec())
}

#[test]
fn it_doesnt_alter_current_write_when_all_bytes_were_sent() {
    let mut current_write = None;

    let res = handle_send_res(Ok(100), &mut current_write, 100, vec![1; 100]);

    assert_eq!(res.unwrap(), true);
    assert_eq!(current_write, None);
}

#[test]
fn when_partial_message_was_sent_it_sets_current_write_to_data_to_be_sent_again() {
    let mut current_write = None;

    let res = handle_send_res(Ok(3), &mut current_write, 5, vec![1, 2, 3, 4, 5]);

    assert_eq!(res.unwrap(), true);
    assert_eq!(current_write, Some(vec![1, 2, 3, 4, 5]));
}

#[test]
fn when_result_is_error_would_block_it_returns_false() {
    let mut current_write = None;

    let res = handle_send_res(
        Err(IoErrorKind::WouldBlock.into()),
        &mut current_write,
        5,
        vec![1, 2, 3, 4, 5],
    );

    assert_eq!(res.unwrap(), false);
}

#[test]
fn when_result_is_error_would_block_it_sets_current_write_to_data_to_be_sent_again() {
    let mut current_write = None;

    let _ = handle_send_res(
        Err(IoErrorKind::WouldBlock.into()),
        &mut current_write,
        5,
        vec![1, 2, 3, 4, 5],
    );

    assert_eq!(current_write, Some(vec![1, 2, 3, 4, 5]));
}

#[test]
fn it_returns_would_block() {
    let mut read_buf: VecDeque<Vec<u8>> = VecDeque::new();

    let res = handle_recv_res(Err(IoErrorKind::WouldBlock.into()), &mut read_buf);

    let wouldblock = match res {
        Ok(RecvResult::WouldBlock(_)) => true,
        _ => false,
    };
    assert!(wouldblock);
}

#[test]
fn it_returns_last_buffered_item() {
    let mut read_buf: VecDeque<Vec<u8>> = VecDeque::new();
    read_buf.push_front(vec![1, 2, 3]);

    let res = handle_recv_res(Err(IoErrorKind::WouldBlock.into()), &mut read_buf);

    match res {
        Ok(RecvResult::WouldBlock(next_msg)) => {
            assert_eq!(next_msg, Some(vec![1, 2, 3]));
        }
        _ => panic!("Expected WouldBlock with data"),
    }
}

#[test]
fn it_pushes_buffer_to_the_read_queue() {
    let mut read_buf: VecDeque<Vec<u8>> = VecDeque::new();

    let _ = handle_recv_res(Ok(vec![1, 2, 3]), &mut read_buf);

    assert_eq!(read_buf[0], vec![1, 2, 3]);
}

#[test]
fn when_buff_is_empty_it_just_returns_continue_recv() {
    let mut read_buf: VecDeque<Vec<u8>> = VecDeque::new();

    let res = handle_recv_res(Ok(vec![]), &mut read_buf);

    match res {
        Ok(RecvResult::ContinueRecv) => (),
        _ => panic!("Expected WouldBlock with data"),
    }
    assert_eq!(read_buf.len(), 0);
}

#[test]
fn interrupted_send_is_retried_later() {
    let mut current_write = Some(vec![9u8]);

    let res = handle_send_res(Err(IoErrorKind::Interrupted.into()), &mut current_write, 2, vec![1u8, 2]);

    assert_eq!(res.unwrap(), false);
    assert_eq!(current_write, Some(vec![1, 2]));
}

#[test]
fn other_send_error_is_returned_and_nothing_is_requeued() {
    let mut current_write: Option<Vec<u8>> = None;
    let err = IoError { kind: IoErrorKind::ConnectionRefused, raw_os_error: Some(111), message: None };

    let res = handle_send_res(Err(err), &mut current_write, 2, vec![1u8, 2]);

    match res {
        Err(SocketError::Io(e)) => {
            assert_eq!(e.kind, IoErrorKind::ConnectionRefused);
            assert_eq!(e.raw_os_error, Some(111));
        }
        _ => panic!("Expected the I/O error"),
    }
    assert_eq!(current_write, None);
}

#[test]
fn other_recv_error_is_returned_and_buffer_is_kept() {
    let mut read_buf: VecDeque<Vec<u8>> = VecDeque::new();
    read_buf.push_back(vec![4u8]);

    let res = handle_recv_res(Err(IoErrorKind::ConnectionReset.into()), &mut read_buf);

    match res {
        Err(SocketError::Io(e)) => assert_eq!(e.kind, IoErrorKind::ConnectionReset),
        _ => panic!("Expected the I/O error"),
    }
    assert_eq!(read_buf.len(), 1);
}

#[test]
fn received_datagrams_are_read_oldest_first() {
    let mut read_buf: VecDeque<Vec<u8>> = VecDeque::new();

    let _ = handle_recv_res(Ok(vec![1u8]), &mut read_buf);
    let _ = handle_recv_res(Ok(vec![2u8]), &mut read_buf);

    match handle_recv_res(Err(IoErrorKind::WouldBlock.into()), &mut read_buf) {
        Ok(RecvResult::WouldBlock(Some(d))) => assert_eq!(d, vec![1]),
        _ => panic!("Expected the first datagram"),
    }
    match handle_recv_res(Err(IoErrorKind::WouldBlock.into()), &mut read_buf) {
        Ok(RecvResult::WouldBlock(Some(d))) => assert_eq!(d, vec![2]),
        _ => panic!("Expected the second datagram"),
    }
}

#[test]
fn unconnected_socket_has_no_peer() {
    let state: UdpState<u16> = UdpState::new(SocketConfig::default());

    match state.peer_addr() {
        Err(SocketError::UnconnectedUdpSocket) => (),
        _ => panic!("Expected UnconnectedUdpSocket"),
    }
}

#[test]
fn connected_socket_reports_its_peer() {
    let mut state: UdpState<u16> = UdpState::new(SocketConfig::default());

    state.set_peer(4000);

    assert_eq!(state.peer_addr().unwrap(), 4000);
}

#[test]
fn datagram_written_under_null_encryption_is_read_back() {
    let mut sender: UdpState<u16> = UdpState::new(SocketConfig::default());
    let mut receiver: UdpState<u16> = UdpState::new(SocketConfig::default());

    sender.write(Some(("hello".to_owned(), 1)), &no_seal).unwrap();
    let dg = sender.next_datagram().unwrap();
    assert_eq!(sender.on_send(dg.clone(), Ok(dg.len())).unwrap(), true);
    assert_eq!(sender.next_datagram(), None);

    assert!(receiver.on_recv::<String, _>(Ok(dg), &no_open).is_none());
    let got: Option<Result<Option<String>, SocketError>> =
        receiver.on_recv(Err(IoErrorKind::WouldBlock.into()), &no_open);
    assert_eq!(got.unwrap().unwrap(), Some("hello".to_owned()));
}

#[test]
fn datagram_sent_in_part_is_sent_again_whole() {
    let mut sender: UdpState<u16> = UdpState::new(SocketConfig::default());

    sender.write(Some((vec![1u8, 2, 3], 0)), &no_seal).unwrap();
    let dg = sender.next_datagram().unwrap();
    assert_eq!(sender.on_send(dg.clone(), Ok(1)).unwrap(), true);

    assert_eq!(sender.next_datagram(), Some(dg));
}

#[test]
fn datagram_to_an_address_keeps_its_destination() {
    let mut sender: UdpState<u16> = UdpState::new(SocketConfig::default());
    let mut receiver: UdpState<u16> = UdpState::new(SocketConfig::default());

    sender.write_to(Some((7u32, 9000, 2)), &no_seal).unwrap();
    let (data, addr) = sender.next_datagram_to().unwrap();
    assert_eq!(addr, 9000);
    assert_eq!(sender.on_send_to((data.clone(), addr), Err(IoErrorKind::WouldBlock.into())).unwrap(), false);
    assert_eq!(sender.next_datagram_to(), Some((data.clone(), 9000)));

    assert!(receiver.on_recv_from::<u32, _>(Ok((data, 1234)), &no_open).is_none());
    let got = receiver.read_frm_buffered::<u32, _>(&no_open).unwrap().unwrap();
    assert_eq!(got, (7, 1234));
    assert!(receiver.read_frm_buffered::<u32, _>(&no_open).is_none());
}

#[test]
fn encrypted_datagram_goes_through_the_backend() {
    let mut conf = SocketConfig::default();
    conf.enc_ctx = EncryptContext::anonymous_encrypt(socket_collection::crypto::PublicEncryptKey { bytes: [3; 32] });
    let mut sender: UdpState<u16> = UdpState::new(conf);
    let seal = |_ctx: &EncryptContext, b: &[u8]| -> Result<Vec<u8>, SocketError> {
        let mut v = vec![0xAAu8];
        v.extend(b.iter().map(|x| x ^ 0x5A));
        Ok(v)
    };

    sender.write(Some((5u8, 0)), &seal).unwrap();
    let dg = sender.next_datagram().unwrap();

    let plain = maidsafe_utilities::serialisation::serialise(&5u8).unwrap();
    let mut expected = vec![0xAAu8];
    expected.extend(plain.iter().map(|x| x ^ 0x5A));
    assert_eq!(dg, expected);
}

#[test]
fn datagram_sealed_by_a_fitting_backend_is_read_back() {
    let key = socket_collection::crypto::SharedSecretKey { bytes: [5; 32] };
    let mut conf = SocketConfig::default();
    conf.enc_ctx = EncryptContext::authenticated(key);
    conf.dec_ctx = DecryptContext::authenticated(key);
    let mut sender: UdpState<u16> = UdpState::new(conf);
    let mut receiver: UdpState<u16> = UdpState::new(conf);
    let seal = |_ctx: &EncryptContext, b: &[u8]| -> Result<Vec<u8>, SocketError> {
        Ok(b.iter().rev().map(|x| x.wrapping_add(1)).collect())
    };
    let open = |_ctx: &DecryptContext, b: &[u8]| -> Result<Vec<u8>, SocketError> {
        Ok(b.iter().rev().map(|x| x.wrapping_sub(1)).collect())
    };

    sender.write(Some((vec![10u16, 20, 30], 0)), &seal).unwrap();
    let dg = sender.next_datagram().unwrap();

    assert!(receiver.on_recv::<Vec<u16>, _>(Ok(dg), &open).is_none());
    let got = receiver.read_buffered::<Vec<u16>, _>(&open).unwrap().unwrap();
    assert_eq!(got, vec![10, 20, 30]);
}
