use vulcan::build_key_distribution_sequence;
use vulcan::key_distribution_ad;
use vulcan::key_distribution_challenge;
use vulcan::key_distribution_plaintext;
use vulcan::mac_create;
use vulcan::AttestationEvent;
use vulcan::AttestationServer;
use vulcan::Distribution;
use vulcan::Fatal;
use vulcan::Frame;
use vulcan::KeyRequest;
use vulcan::SancusKey;
use vulcan::CAN_ID_ATTEST_RECV;
use vulcan::CAN_ID_ATTEST_SEND;

const K_CONN: [u8; 16] = [
    0x00, 0x11, 0x22, 0x33, 0x44, 0x55, 0x66, 0x77, 0x88, 0x99, 0xaa, 0xbb, 0xcc, 0xdd, 0xee, 0xff,
];

// Stand-ins for the sponge: any functions of key and data will do.
fn sponge(key: &[u8; 16], data: &[u8]) -> [u8; 16] {
    let mut out = *key;
    for (i, b) in data.iter().enumerate() {
        out[i % 16] = out[i % 16].wrapping_mul(17).wrapping_add(*b).rotate_left(1) ^ (i as u8);
        out[(i + 3) % 16] ^= out[i % 16].wrapping_add(0xA5);
    }
    out
}

fn wrap(key: &[u8; 16], ad: &[u8], plaintext: &[u8; 22]) -> ([u8; 22], [u8; 16]) {
    let stream = sponge(key, ad);
    let mut ciphertext = [0u8; 22];
    for i in 0..22 {
        ciphertext[i] = plaintext[i] ^ stream[i % 16] ^ (i as u8);
    }
    (ciphertext, sponge(key, &ciphertext))
}

fn serve(server: &mut AttestationServer, request: &KeyRequest) -> Distribution {
    let (ciphertext, tag) =
        wrap(request.key_pm.as_bytes(), &key_distribution_ad(), &request.plaintext);
    let nonce = sponge(request.key_conn.as_bytes(), &key_distribution_challenge());
    server.deliver(&ciphertext, &tag, &nonce)
}

fn run(server: &mut AttestationServer, first: Distribution) -> (Vec<(u16, u16)>, Distribution) {
    let mut pairs = Vec::new();
    let mut distribution = first;
    while let Distribution::Need(request) = distribution {
        pairs.push((request.id_pm, request.id_conn));
        distribution = serve(server, &request);
    }
    (pairs, distribution)
}

fn response_mac(key_conn: &[u8; 16]) -> [u8; 8] {
    mac_create(&sponge(key_conn, &[0xA7, 0x7E, 0x57, 0xED]))
}

#[test]
fn constants_of_key_distribution() {
    assert_eq!(CAN_ID_ATTEST_SEND, 0x555);
    assert_eq!(CAN_ID_ATTEST_RECV, 0x556);
    assert_eq!(key_distribution_ad(), [0, 0, 0, 0]);
    assert_eq!(key_distribution_challenge(), [0xA7, 0x7E, 0x57, 0xED]);
}

#[test]
fn plaintext_layout() {
    let plaintext = key_distribution_plaintext(0x01F0, &SancusKey::new(K_CONN));
    assert_eq!(
        plaintext,
        [
            0xF0, 0x01, 0, 0, 0, 0, 0x00, 0x11, 0x22, 0x33, 0x44, 0x55, 0x66, 0x77, 0x88, 0x99,
            0xaa, 0xbb, 0xcc, 0xdd, 0xee, 0xff
        ]
    );
}

#[test]
fn sequence_layout() {
    let mut ciphertext = [0u8; 22];
    for i in 0..22 {
        ciphertext[i] = 0x40 + i as u8;
    }
    let mut tag = [0u8; 16];
    for i in 0..16 {
        tag[i] = 0xA0 + i as u8;
    }
    let mut nonce = [0u8; 16];
    for i in 0..16 {
        nonce[i] = i as u8;
    }
    let (sequence, expected) = build_key_distribution_sequence(0x0201, &ciphertext, &tag, &nonce);
    assert_eq!(
        sequence,
        vec![
            Frame { eid: 0x555, payload: vec![0x01, 0x02, 0x40, 0x41, 0x42, 0x43, 0x44, 0x45] },
            Frame { eid: 0x555, payload: vec![0x46, 0x47, 0x48, 0x49, 0x4A, 0x4B, 0x4C, 0x4D] },
            Frame { eid: 0x555, payload: vec![0x4E, 0x4F, 0x50, 0x51, 0x52, 0x53, 0x54, 0x55] },
            Frame { eid: 0x555, payload: vec![0xA0, 0xA1, 0xA2, 0xA3, 0xA4, 0xA5, 0xA6, 0xA7] },
            Frame { eid: 0x555, payload: vec![0xA8, 0xA9, 0xAA, 0xAB, 0xAC, 0xAD, 0xAE, 0xAF] },
        ]
    );
    assert_eq!(expected, [8, 9, 10, 11, 12, 13, 14, 15]);
}

#[test]
fn attestation_bootstrap() {
    let mut server = AttestationServer::new();
    server.set_module_key(0x01, SancusKey::zero());
    server.set_connection_key(0xF0, SancusKey::new(K_CONN));
    let first = server.initialize(&[(0x01, vec![0xF0])]);
    let plaintext = key_distribution_plaintext(0xF0, &SancusKey::new(K_CONN));
    let request = KeyRequest {
        id_pm: 0x01,
        id_conn: 0xF0,
        key_pm: SancusKey::zero(),
        key_conn: SancusKey::new(K_CONN),
        plaintext,
    };
    assert_eq!(first, Distribution::Need(request));
    assert!(!server.is_idle());
    let (ciphertext, tag) = wrap(&[0; 16], &[0, 0, 0, 0], &plaintext);
    let Distribution::Need(request) = first else {
        panic!("no request");
    };
    assert_eq!(serve(&mut server, &request), Distribution::Done);
    assert!(server.is_idle());

    let frames = server.take_frames();
    assert_eq!(frames.len(), 5);
    assert!(frames.iter().all(|frame| frame.eid == 0x555 && frame.payload.len() == 8));
    assert_eq!(frames[0].payload[..2], [0x01, 0x00]);
    let mut output = vec![0x01, 0x00];
    output.extend_from_slice(&ciphertext);
    let sent: Vec<u8> = frames[..3].iter().flat_map(|frame| frame.payload.clone()).collect();
    assert_eq!(sent, output);
    let sent: Vec<u8> = frames[3..].iter().flat_map(|frame| frame.payload.clone()).collect();
    assert_eq!(sent, tag.to_vec());
    assert_eq!(server.expected_answer(0x01, 0xF0), Some(response_mac(&K_CONN)));
    assert_eq!(server.expected_answer(0x01, 0xF8), None);
    assert_eq!(server.expected_answer(0x02, 0xF0), None);
    assert!(server.take_frames().is_empty());
}

#[test]
fn distribution_follows_the_participation_list() {
    let mut server = AttestationServer::new();
    server.set_module_key(0x01, SancusKey::new([1; 16]));
    server.set_module_key(0x02, SancusKey::new([2; 16]));
    for conn in [0xF0u16, 0xF8, 0xAA, 0xBB] {
        server.set_connection_key(conn, SancusKey::new([conn as u8; 16]));
    }
    let participation = [
        (0x01, vec![0xF0, 0xF8, 0xAA, 0xBB]),
        (0x03, vec![]),
        (0x02, vec![0xBB, 0xF0]),
    ];
    server.set_module_key(0x03, SancusKey::new([3; 16]));
    let first = server.initialize(&participation);
    let (pairs, last) = run(&mut server, first);
    assert_eq!(last, Distribution::Done);
    assert_eq!(
        pairs,
        vec![(0x01, 0xF0), (0x01, 0xF8), (0x01, 0xAA), (0x01, 0xBB), (0x02, 0xBB), (0x02, 0xF0)]
    );
    let frames = server.take_frames();
    assert_eq!(frames.len(), 30);
    assert_eq!(frames[0].payload[..2], [0x01, 0x00]);
    assert_eq!(frames[20].payload[..2], [0x02, 0x00]);
    for (pm, conn) in pairs {
        assert_eq!(server.expected_answer(pm, conn), Some(response_mac(&[conn as u8; 16])));
    }
    assert_eq!(server.expected_answer(0x02, 0xAA), None);
    assert_eq!(server.expected_answer(0x03, 0xF0), None);
}

#[test]
fn module_named_again_starts_over() {
    let mut server = AttestationServer::new();
    server.set_module_key(0x01, SancusKey::new([1; 16]));
    server.set_connection_key(0x10, SancusKey::new([0x10; 16]));
    server.set_connection_key(0x20, SancusKey::new([0x20; 16]));
    let first = server.initialize(&[(0x01, vec![0x10]), (0x01, vec![0x20])]);
    let (pairs, last) = run(&mut server, first);
    assert_eq!(last, Distribution::Done);
    assert_eq!(pairs, vec![(0x01, 0x10), (0x01, 0x20)]);
    assert_eq!(server.expected_answer(0x01, 0x10), None);
    assert_eq!(server.expected_answer(0x01, 0x20), Some(response_mac(&[0x20; 16])));
}

#[test]
fn missing_keys_end_the_distribution() {
    let mut server = AttestationServer::new();
    server.set_connection_key(0x10, SancusKey::new([0x10; 16]));
    assert_eq!(server.initialize(&[(0x01, vec![0x10])]), Distribution::Fatal(Fatal::MissingKey));
    assert!(server.is_idle());
    server.set_module_key(0x01, SancusKey::new([1; 16]));
    let first = server.initialize(&[(0x01, vec![0x10, 0x11])]);
    let Distribution::Need(request) = first else {
        panic!("no request");
    };
    assert_eq!(serve(&mut server, &request), Distribution::Fatal(Fatal::MissingKey));
    assert!(server.is_idle());
    assert_eq!(server.take_frames().len(), 5);
    assert_eq!(server.initialize(&[]), Distribution::Done);
}

fn attested_server() -> AttestationServer {
    let mut server = AttestationServer::new();
    server.set_module_key(0x01, SancusKey::new([1; 16]));
    server.set_connection_key(0xF0, SancusKey::new(K_CONN));
    server.set_connection_key(0xF8, SancusKey::new([8; 16]));
    let first = server.initialize(&[(0x01, vec![0xF0, 0xF8, 0xF0])]);
    let (_, last) = run(&mut server, first);
    assert_eq!(last, Distribution::Done);
    server.take_frames();
    server
}

#[test]
fn acknowledgement_attests_a_connection() {
    let mut server = attested_server();
    assert_eq!(server.expect_mac(), None);
    assert_eq!(
        server.recv_message(0x556, &[0x01, 0x00, 0xF8, 0x00]),
        AttestationEvent::Awaiting(0x01, 0xF8)
    );
    assert_eq!(server.expect_mac(), Some((0x01, 0xF8)));
    assert_eq!(
        server.recv_message(0x556, &response_mac(&[8; 16])),
        AttestationEvent::Attested(0x01, 0xF8)
    );
    assert_eq!(server.expect_mac(), None);
    assert_eq!(server.expected_answer(0x01, 0xF8), None);
    assert_eq!(server.expected_answer(0x01, 0xF0), Some(response_mac(&K_CONN)));
    // the connection cannot be attested twice
    assert_eq!(
        server.recv_message(0x556, &[0x01, 0x00, 0xF8, 0x00]),
        AttestationEvent::Awaiting(0x01, 0xF8)
    );
    assert_eq!(
        server.recv_message(0x556, &response_mac(&[8; 16])),
        AttestationEvent::Unknown(0x01, 0xF8)
    );
    assert_eq!(server.expect_mac(), None);
}

#[test]
fn wrong_answer_is_a_mismatch_and_drops_the_expectation() {
    let mut server = attested_server();
    assert_eq!(
        server.recv_message(0x8000_0556, &[0x01, 0x00, 0xF0, 0x00, 0xEE]),
        AttestationEvent::Awaiting(0x01, 0xF0)
    );
    let mut answer = response_mac(&K_CONN);
    answer[7] ^= 1;
    assert_eq!(server.recv_message(0x556, &answer), AttestationEvent::Mismatch(0x01, 0xF0));
    assert_eq!(server.expect_mac(), None);
    // the first of the two expectations for the connection is gone
    assert_eq!(server.expected_answer(0x01, 0xF0), Some(response_mac(&K_CONN)));
    assert_eq!(
        server.recv_message(0x556, &[0x01, 0x00, 0xF0, 0x00]),
        AttestationEvent::Awaiting(0x01, 0xF0)
    );
    assert_eq!(
        server.recv_message(0x556, &response_mac(&K_CONN)[..7]),
        AttestationEvent::Mismatch(0x01, 0xF0)
    );
    assert_eq!(server.expected_answer(0x01, 0xF0), None);
}

#[test]
fn frames_that_are_no_acknowledgements() {
    let mut server = attested_server();
    assert_eq!(server.recv_message(0x555, &[0x01, 0x00, 0xF0, 0x00]), AttestationEvent::NotAddressed);
    assert_eq!(server.recv_message(0x0001_0557, &[1, 0, 0xF0, 0]), AttestationEvent::NotAddressed);
    assert_eq!(server.expect_mac(), None);
    assert_eq!(server.recv_message(0x556, &[0x01, 0x00, 0xF0]), AttestationEvent::Malformed);
    assert_eq!(server.recv_message(0x556, &[]), AttestationEvent::Malformed);
    assert_eq!(server.expect_mac(), None);
    // announcements for a module or a connection that nothing is expected of
    assert_eq!(
        server.recv_message(0x556, &[0x34, 0x12, 0xF0, 0x00]),
        AttestationEvent::Awaiting(0x1234, 0xF0)
    );
    assert_eq!(server.recv_message(0x555, &[0; 8]), AttestationEvent::NotAddressed);
    assert_eq!(server.expect_mac(), Some((0x1234, 0xF0)));
    assert_eq!(server.recv_message(0x556, &[0; 8]), AttestationEvent::Unknown(0x1234, 0xF0));
    assert_eq!(
        server.recv_message(0x556, &[0x01, 0x00, 0x77, 0x66]),
        AttestationEvent::Awaiting(0x01, 0x6677)
    );
    assert_eq!(server.recv_message(0x556, &[0; 8]), AttestationEvent::Unknown(0x01, 0x6677));
    assert_eq!(server.expected_answer(0x01, 0xF0), Some(response_mac(&K_CONN)));
}
