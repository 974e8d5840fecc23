use day2::cipher::transform;
use day2::{ByteHook, MitmClient, ProxyError, Side, StreamWrapper};

fn static_key() -> Vec<u8> {
    vec![0x5a, 0x13, 0xc7, 0x02, 0x99, 0x41, 0xee]
}

fn hello() -> Vec<u8> {
    (0x10u8..0x20).collect()
}

fn channel() -> StreamWrapper<ByteHook> {
    StreamWrapper::new(static_key(), hello())
}

#[test]
fn transform_exact_bytes() {
    let out = transform(&[0x00, 0xff], 1, &[1, 2, 3], &[0x10, 0x20]);
    assert_eq!(out, vec![0x02 ^ 0x20, 0xff ^ 0x03 ^ 0x10]);
}

#[test]
fn transform_is_its_own_inverse() {
    let msg: Vec<u8> = (0..=255u8).collect();
    for offset in [0u64, 1, 6, 17, 1000] {
        let once = transform(&msg, offset, &static_key(), &hello());
        assert_ne!(once, msg);
        let twice = transform(&once, offset, &static_key(), &hello());
        assert_eq!(twice, msg);
    }
}

#[test]
fn transform_wraps_huge_offsets() {
    let k1 = [1u8, 2, 3];
    let k2 = [0x10u8, 0x20];
    let offset = u64::MAX - 1;
    let out = transform(&[0, 0, 0, 0], offset, &k1, &k2);
    let expect: Vec<u8> = (0..4u128)
        .map(|i| {
            let pos = offset as u128 + i;
            k1[(pos % 3) as usize] ^ k2[(pos % 2) as usize]
        })
        .collect();
    assert_eq!(out, expect);
    assert_eq!(transform(&out, offset, &k1, &k2), vec![0, 0, 0, 0]);
}

#[test]
fn transform_of_nothing_is_nothing() {
    assert_eq!(transform(&[], 42, &[1], &[2]), Vec::<u8>::new());
}

#[test]
fn frames_round_trip_through_channel_pair() {
    let mut sender = channel();
    let mut receiver = channel();
    let mut total: u64 = 0;
    for len in [0usize, 1, 255, 65535] {
        let payload: Vec<u8> = (0..len).map(|i| (i * 7 + 3) as u8).collect();
        let (head, body) = sender.send_message(payload.clone()).unwrap();
        assert_eq!(head.len(), 2);
        assert_eq!(body.len(), len);
        let mut wire = head.clone();
        wire.extend_from_slice(&body);
        let plain = receiver.read(&wire).unwrap();
        assert_eq!(plain[0], (len % 256) as u8);
        assert_eq!(plain[1], (len / 256) as u8);
        assert_eq!(plain[2..].to_vec(), payload);
        total += 2 + len as u64;
        assert_eq!(sender.write_offset(), total);
        assert_eq!(receiver.read_offset(), total);
        assert_eq!(sender.read_offset(), 0);
        assert_eq!(receiver.write_offset(), 0);
    }
}

#[test]
fn frame_prefix_describes_hooked_payload() {
    let mut sender = channel();
    sender.hook_write(ByteHook::Append(0x77));
    let (head, body) = sender.send_message(vec![1, 2, 3]).unwrap();
    assert_eq!(transform(&head, 0, &static_key(), &hello()), vec![4, 0]);
    assert_eq!(transform(&body, 2, &static_key(), &hello()), vec![1, 2, 3, 0x77]);
    assert_eq!(sender.write_offset(), 6);
}

#[test]
fn oversized_payload_is_a_framing_error() {
    let mut sender = channel();
    assert_eq!(sender.send_message(vec![0; 65536]), Err(ProxyError::FramingError));
    assert_eq!(sender.write_offset(), 0);
    sender.hook_write(ByteHook::Append(1));
    assert_eq!(sender.send_message(vec![0; 65535]), Err(ProxyError::FramingError));
    assert_eq!(sender.write_offset(), 0);
}

#[test]
fn hooks_run_in_registration_order() {
    let mut sender = channel();
    sender.hook_write(ByteHook::Append(0xaa));
    sender.hook_write(ByteHook::Append(0xbb));
    let wire = sender.write(vec![0x01, 0x02]).unwrap();
    assert_eq!(wire, transform(&[0x01, 0x02, 0xaa, 0xbb], 0, &static_key(), &hello()));
    assert_ne!(wire, transform(&[0x01, 0x02, 0xbb, 0xaa], 0, &static_key(), &hello()));
    assert_eq!(sender.write_offset(), 4);
}

#[test]
fn patch_hook_sees_the_previous_hook_output() {
    let mut sender = channel();
    sender.hook_write(ByteHook::Patch { at: 0, expect: 6, value: 7 });
    sender.hook_write(ByteHook::Patch { at: 0, expect: 7, value: 8 });
    sender.hook_write(ByteHook::Patch { at: 5, expect: 0, value: 1 });
    let wire = sender.write(vec![6, 6]).unwrap();
    assert_eq!(transform(&wire, 0, &static_key(), &hello()), vec![8, 6]);
    let wire = sender.write(vec![5, 6]).unwrap();
    assert_eq!(transform(&wire, 2, &static_key(), &hello()), vec![5, 6]);
}

#[test]
fn write_advances_by_hooked_length() {
    let mut sender = channel();
    sender.hook_write(ByteHook::Append(9));
    sender.write(vec![1, 2, 3]).unwrap();
    assert_eq!(sender.write_offset(), 4);
    sender.write(vec![]).unwrap();
    assert_eq!(sender.write_offset(), 5);
}

#[test]
fn read_of_nothing_means_closed() {
    let mut receiver = channel();
    receiver.read(&[1, 2, 3]).unwrap();
    assert_eq!(receiver.read(&[]), Err(ProxyError::ConnectionClosed));
    assert_eq!(receiver.read_offset(), 3);
}

#[test]
fn handshake_forwards_session_key_unmodified() {
    let hello: Vec<u8> = (0x01u8..=0x10).collect();
    let mitm: MitmClient<ByteHook> = MitmClient::new(&static_key(), &hello).unwrap();
    assert_eq!(mitm.session_key(), hello);
    assert_eq!(mitm.server.read_offset(), 0);
    assert_eq!(mitm.client.write_offset(), 0);
    assert_eq!(mitm.source(), Side::Client);
}

#[test]
fn short_session_key_fails_handshake() {
    let hello: Vec<u8> = (0x01u8..=0x0f).collect();
    assert!(matches!(MitmClient::<ByteHook>::new(&static_key(), &hello), Err(ProxyError::HandshakeError)));
    assert!(matches!(MitmClient::<ByteHook>::new(&static_key(), &[]), Err(ProxyError::HandshakeError)));
}

#[test]
fn empty_static_key_fails_handshake() {
    assert!(matches!(MitmClient::<ByteHook>::new(&[], &hello()), Err(ProxyError::HandshakeError)));
}

#[test]
fn relay_cadence_and_fidelity() {
    let mut mitm: MitmClient<ByteHook> = MitmClient::new(&static_key(), &hello()).unwrap();
    let mut game_client = channel();
    let mut game_server = channel();

    let (head, body) = game_client.send_message(vec![10, 20, 30]).unwrap();
    assert_eq!(mitm.source(), Side::Client);
    let out = mitm.relay(&head).unwrap();
    assert_eq!(game_server.read(&out).unwrap(), vec![3, 0]);
    assert_eq!(mitm.source(), Side::Client);
    let out = mitm.relay(&body).unwrap();
    assert_eq!(game_server.read(&out).unwrap(), vec![10, 20, 30]);

    let (head, body) = game_server.send_message(vec![99]).unwrap();
    assert_eq!(mitm.source(), Side::Server);
    let out = mitm.relay(&head).unwrap();
    assert_eq!(game_client.read(&out).unwrap(), vec![1, 0]);
    assert_eq!(mitm.source(), Side::Server);
    let out = mitm.relay(&body).unwrap();
    assert_eq!(game_client.read(&out).unwrap(), vec![99]);
    assert_eq!(mitm.source(), Side::Client);

    assert_eq!(mitm.client.read_offset(), 5);
    assert_eq!(mitm.server.write_offset(), 5);
    assert_eq!(mitm.server.read_offset(), 3);
    assert_eq!(mitm.client.write_offset(), 3);
}

#[test]
fn closed_peer_ends_relay_unchanged() {
    let mut mitm: MitmClient<ByteHook> = MitmClient::new(&static_key(), &hello()).unwrap();
    assert_eq!(mitm.relay(&[]), Err(ProxyError::ConnectionClosed));
    assert_eq!(mitm.source(), Side::Client);
    assert_eq!(mitm.client.read_offset(), 0);
    assert_eq!(mitm.server.write_offset(), 0);
    mitm.relay(&[1, 2]).unwrap();
    mitm.relay(&[3]).unwrap();
    assert_eq!(mitm.source(), Side::Server);
    assert_eq!(mitm.relay(&[]), Err(ProxyError::ConnectionClosed));
    assert_eq!(mitm.source(), Side::Server);
    assert_eq!(mitm.server.read_offset(), 0);
    assert_eq!(mitm.client.write_offset(), 0);
}

#[test]
fn length_changing_hook_desynchronises_a_prefix_trusting_peer() {
    let mut mitm: MitmClient<ByteHook> = MitmClient::new(&static_key(), &hello()).unwrap();
    mitm.server.hook_write(ByteHook::Append(0xee));
    let mut game_client = channel();

    let mut seen_by_server: Vec<Vec<u8>> = Vec::new();
    let mut declared: u64 = 0;
    for payload in [vec![1u8, 2, 3], vec![4u8, 5, 6]] {
        let (head, body) = game_client.send_message(payload).unwrap();
        let head_out = mitm.relay(&head).unwrap();
        let body_out = mitm.relay(&body).unwrap();
        mitm.relay(&[0, 0]).unwrap();
        mitm.relay(&[0]).unwrap();
        // a peer that moves its position by what the frames declare
        seen_by_server.push(transform(&head_out, declared, &static_key(), &hello()));
        declared += 2;
        seen_by_server.push(transform(&body_out, declared, &static_key(), &hello()));
        declared += 3;
    }
    assert_ne!(seen_by_server[2][..2].to_vec(), vec![3u8, 0]);
    assert_ne!(seen_by_server[3][..3].to_vec(), vec![4u8, 5, 6]);
    assert_eq!(mitm.server.write_offset(), 14);
}
