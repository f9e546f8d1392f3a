use vulcan::build_eid;
use vulcan::leia;
use vulcan::mac_create;
use vulcan::Event;
use vulcan::ExpectedStore;
use vulcan::Frame;
use vulcan::LeiACmd;
use vulcan::LeiAConnection;
use vulcan::LeiAContext;
use vulcan::MacRequest;
use vulcan::Progress;
use vulcan::SancusKey;
use vulcan::VulCANContext;
use vulcan::VulCANStore;

const K_I: [u8; 16] = [0, 1, 2, 3, 4, 5, 6, 7, 8, 9, 10, 11, 12, 13, 14, 15];
const K_AEC: [u8; 16] = [
    0xde, 0xad, 0xbe, 0xef, 0xca, 0xfe, 0xba, 0xbe, 0x88, 0x99, 0xaa, 0xbb, 0xcc, 0xdd, 0xee, 0xff,
];
const ID: u16 = 0x100;
const AEC: u16 = 0xAA;

// A stand-in for the sponge: any function of key and data will do.
fn sponge(key: &[u8; 16], data: &[u8]) -> [u8; 16] {
    let mut out = [0u8; 16];
    let mut acc: u32 = 0x811C_9DC5;
    for round in 0..3u32 {
        for (i, b) in key.iter().chain(data.iter()).enumerate() {
            acc = (acc ^ (*b as u32)).wrapping_mul(0x0100_0193).rotate_left(5) ^ (i as u32 + round);
            out[(i + 5 * round as usize) % 16] ^= (acc >> 11) as u8;
        }
    }
    out
}

fn answer(request: &MacRequest) -> [u8; 16] {
    sponge(request.key.as_bytes(), &request.data)
}

fn drive(context: &mut LeiAContext<ExpectedStore>, first: Progress) -> Progress {
    let mut progress = first;
    loop {
        match progress {
            Progress::NeedMac(request) => {
                progress = context.resume(Some(answer(&request)));
            }
            other => return other,
        }
    }
}

fn tag_of(k_e: &SancusKey, id: u16, msg: &[u8], counter: u16) -> [u8; 8] {
    let mut ad = vec![counter as u8, (counter >> 8) as u8, id as u8, (id >> 8) as u8];
    ad.extend_from_slice(msg);
    ad.resize(12, 0);
    mac_create(&sponge(k_e.as_bytes(), &ad))
}

fn node() -> LeiAContext<ExpectedStore> {
    let connections = [LeiAConnection::new(ID).with_k_i(&K_I)];
    let aec = LeiAConnection::new(AEC).with_k_i(&K_AEC);
    let mut context = leia(&connections, aec, ExpectedStore::new());
    let first = context.init();
    assert_eq!(drive(&mut context, first), Progress::Finished(None));
    context
}

fn recv(context: &mut LeiAContext<ExpectedStore>, frame: &Frame) -> Progress {
    let first = context.auth_recv(frame.eid, &frame.payload);
    drive(context, first)
}

#[test]
fn init_asks_for_the_key_of_epoch_one() {
    let connections = [LeiAConnection::new(ID).with_k_i(&K_I)];
    let aec = LeiAConnection::new(AEC).with_k_i(&K_AEC);
    let mut context = leia(&connections, aec, ExpectedStore::new());
    assert!(context.is_idle());
    let first = context.init();
    let request = MacRequest { key: SancusKey::new(K_I), data: vec![1, 0, 0, 0, 0, 0, 0, 0] };
    assert_eq!(first, Progress::NeedMac(request));
    assert!(!context.is_idle());
    let second = context.resume(Some(sponge(&K_I, &[1, 0, 0, 0, 0, 0, 0, 0])));
    let request = MacRequest { key: SancusKey::new(K_AEC), data: vec![1, 0, 0, 0, 0, 0, 0, 0] };
    assert_eq!(second, Progress::NeedMac(request));
    let third = context.resume(Some(sponge(&K_AEC, &[1, 0, 0, 0, 0, 0, 0, 0])));
    assert_eq!(third, Progress::Finished(None));
    assert!(context.is_idle());
    let conn = context.find_connection(ID).unwrap();
    assert_eq!(conn.epoch(), 1);
    assert_eq!(conn.counter(), 1);
    assert_eq!(conn.k_i(), SancusKey::new(K_I));
    assert_eq!(conn.k_e(), SancusKey::new(sponge(&K_I, &[1, 0, 0, 0, 0, 0, 0, 0])));
    assert_eq!(context.aec().epoch(), 1);
    assert_eq!(context.aec().k_e(), SancusKey::new(sponge(&K_AEC, &[1, 0, 0, 0, 0, 0, 0, 0])));
    assert!(context.take_frames().is_empty());
}

#[test]
fn init_skips_empty_slots() {
    let connections = [
        LeiAConnection::new(0),
        LeiAConnection::new(0x20).with_k_i(&K_I),
        LeiAConnection::new(0),
        LeiAConnection::new(0x30).with_k_i(&K_AEC),
    ];
    let aec = LeiAConnection::new(AEC).with_k_i(&K_AEC);
    let mut context = leia(&connections, aec, ExpectedStore::new());
    let mut keys = Vec::new();
    let mut progress = context.init();
    while let Progress::NeedMac(request) = progress {
        keys.push(request.key);
        progress = context.resume(Some(answer(&request)));
    }
    assert_eq!(progress, Progress::Finished(None));
    assert_eq!(keys, vec![SancusKey::new(K_I), SancusKey::new(K_AEC), SancusKey::new(K_AEC)]);
    assert_eq!(context.find_connection(0x20).unwrap().epoch(), 1);
    assert_eq!(context.find_connection(0x30).unwrap().epoch(), 1);
    assert!(context.find_connection(0).is_none());
    assert!(context.find_connection(0x40).is_none());
}

#[test]
fn happy_path() {
    let mut a = node();
    let mut b = node();
    let k_e = a.find_connection(ID).unwrap().k_e();
    assert_eq!(k_e, SancusKey::new(sponge(&K_I, &[1, 0, 0, 0, 0, 0, 0, 0])));

    let first = a.auth_send(ID, &[0xAA, 0xBB]);
    let request = MacRequest {
        key: k_e,
        data: vec![0x01, 0x00, 0x00, 0x01, 0xAA, 0xBB, 0, 0, 0, 0, 0, 0],
    };
    assert_eq!(first, Progress::NeedMac(request));
    assert_eq!(drive(&mut a, first), Progress::Finished(None));
    let tag = mac_create(&sponge(
        k_e.as_bytes(),
        &[0x01, 0x00, 0x00, 0x01, 0xAA, 0xBB, 0, 0, 0, 0, 0, 0],
    ));
    let frames = a.take_frames();
    assert_eq!(
        frames,
        vec![
            Frame { eid: 0x8400_0001, payload: vec![0xAA, 0xBB] },
            Frame { eid: 0x8405_0001, payload: tag.to_vec() },
        ]
    );
    assert_eq!(a.find_connection(ID).unwrap().counter(), 2);
    assert!(a.take_frames().is_empty());

    assert_eq!(recv(&mut b, &frames[0]), Progress::Finished(Some(Event::Received(ID, Some(tag)))));
    assert_eq!(b.expected().get(&ID), Some(&tag));
    assert_eq!(recv(&mut b, &frames[1]), Progress::Finished(Some(Event::Authenticated(ID))));
    assert_eq!(b.expected().len(), 0);
    assert_eq!(b.find_connection(ID).unwrap().counter(), 1);
    assert!(b.take_frames().is_empty());
}

#[test]
fn emitted_tags_verify_under_the_session_key() {
    let mut a = node();
    let messages: [&[u8]; 4] = [&[], &[1], &[1, 2, 3, 4], &[8, 7, 6, 5, 4, 3, 2, 1]];
    for (n, msg) in messages.iter().enumerate() {
        let conn = a.find_connection(ID).unwrap();
        assert_eq!(conn.counter() as usize, n + 1);
        let first = a.auth_send(ID, msg);
        assert_eq!(drive(&mut a, first), Progress::Finished(None));
        let frames = a.take_frames();
        assert_eq!(frames.len(), 2);
        assert_eq!(frames[0].eid, build_eid(ID, LeiACmd::Data, conn.counter()));
        assert_eq!(frames[0].payload, msg.to_vec());
        assert_eq!(frames[1].eid, build_eid(ID + 1, LeiACmd::Mac, conn.counter()));
        assert_eq!(frames[1].payload, tag_of(&conn.k_e(), ID, msg, conn.counter()).to_vec());
    }
}

#[test]
fn receiver_follows_a_gap_in_the_counter() {
    let mut b = node();
    let k_e = b.find_connection(ID).unwrap().k_e();
    let data = Frame { eid: build_eid(ID, LeiACmd::Data, 7), payload: vec![1, 2, 3] };
    let tag = tag_of(&k_e, ID, &[1, 2, 3], 7);
    assert_eq!(recv(&mut b, &data), Progress::Finished(Some(Event::Received(ID, Some(tag)))));
    assert_eq!(b.find_connection(ID).unwrap().counter(), 7);
    let mac = Frame { eid: build_eid(ID + 1, LeiACmd::Mac, 7), payload: tag.to_vec() };
    assert_eq!(recv(&mut b, &mac), Progress::Finished(Some(Event::Authenticated(ID))));
}

#[test]
fn desync() {
    let mut b = node();
    let k_aec = b.aec().k_e();
    let ahead = Frame { eid: build_eid(ID, LeiACmd::Data, 5), payload: vec![9] };
    assert!(matches!(recv(&mut b, &ahead), Progress::Finished(Some(Event::Received(ID, Some(_))))));
    assert_eq!(b.find_connection(ID).unwrap().counter(), 5);
    assert_eq!(b.expected().len(), 1);

    let behind = Frame { eid: build_eid(ID, LeiACmd::Data, 3), payload: vec![9] };
    assert_eq!(recv(&mut b, &behind), Progress::Finished(Some(Event::Desync(ID))));
    assert_eq!(b.expected().len(), 0);
    let conn = b.find_connection(ID).unwrap();
    assert_eq!(conn.counter(), 0);
    assert!(conn.auth_fail_in_progress());
    assert_eq!(conn.epoch(), 1);

    let signal = [1, 0, 0, 0, 0, 0, 0x00, 0x01];
    let frames = b.take_frames();
    assert_eq!(
        frames,
        vec![
            Frame { eid: 0x82AA_0001, payload: signal.to_vec() },
            Frame { eid: 0x82AB_0001, payload: tag_of(&k_aec, AEC, &signal, 1).to_vec() },
        ]
    );
    assert_eq!(b.aec().counter(), 2);
}

#[test]
fn incorrect_mac() {
    let mut a = node();
    let mut b = node();
    let k_aec = b.aec().k_e();
    let first = a.auth_send(ID, &[0x10, 0x20, 0x30]);
    assert_eq!(drive(&mut a, first), Progress::Finished(None));
    let mut frames = a.take_frames();
    assert!(matches!(recv(&mut b, &frames[0]), Progress::Finished(Some(Event::Received(ID, _)))));
    frames[1].payload[3] ^= 0x04;
    assert_eq!(recv(&mut b, &frames[1]), Progress::Finished(Some(Event::IncorrectMAC(ID))));
    assert_eq!(b.expected().len(), 0);
    let conn = b.find_connection(ID).unwrap();
    assert_eq!(conn.counter(), 0);
    assert!(conn.auth_fail_in_progress());
    let signal = [1, 0, 0, 0, 0, 0, 0x00, 0x01];
    assert_eq!(
        b.take_frames(),
        vec![
            Frame { eid: build_eid(AEC, LeiACmd::AecEpoch, 1), payload: signal.to_vec() },
            Frame {
                eid: build_eid(AEC, LeiACmd::AecMac, 1),
                payload: tag_of(&k_aec, AEC, &signal, 1).to_vec(),
            },
        ]
    );
}

#[test]
fn resync() {
    let mut a = node();
    let mut b = node();
    // both channels stand in epoch 5, ahead of the data connection
    for node in [&mut a, &mut b] {
        let first = node.leia_auth_fail_receive(AEC, 5);
        assert_eq!(drive(node, first), Progress::Finished(None));
        assert_eq!(node.aec().epoch(), 5);
        assert_eq!(node.aec().counter(), 1);
    }
    // B falls behind and signals
    let first = b.leia_auth_fail_send(ID);
    assert_eq!(drive(&mut b, first), Progress::Finished(None));
    assert!(b.find_connection(ID).unwrap().auth_fail_in_progress());
    let signal = b.take_frames();
    assert_eq!(signal[0].payload, vec![5, 0, 0, 0, 0, 0, 0x00, 0x01]);

    // A takes the epoch over and answers with its next one
    assert_eq!(recv(&mut a, &signal[0]), Progress::Finished(Some(Event::Resynced(ID))));
    let conn = a.find_connection(ID).unwrap();
    assert_eq!(conn.epoch(), 5);
    assert_eq!(conn.counter(), 1);
    assert_eq!(conn.k_e(), SancusKey::new(sponge(&K_I, &[5, 0, 0, 0, 0, 0, 0, 0])));
    assert_eq!(a.expected().get(&AEC).map(|tag| tag.to_vec()), Some(signal[1].payload.clone()));
    assert_eq!(recv(&mut a, &signal[1]), Progress::Finished(Some(Event::Authenticated(AEC))));
    let conn = a.find_connection(ID).unwrap();
    assert_eq!(conn.epoch(), 6);
    assert!(!conn.auth_fail_in_progress());
    assert_eq!(a.expected().len(), 0);
    let response = a.take_frames();
    assert_eq!(response.len(), 2);
    assert_eq!(response[0].eid, build_eid(AEC, LeiACmd::AecEpoch, 2));
    assert_eq!(response[0].payload, vec![6, 0, 0, 0, 0, 0, 0x00, 0x01]);
    assert_eq!(response[1].eid, build_eid(AEC, LeiACmd::AecMac, 2));
    assert_eq!(
        response[1].payload,
        tag_of(&a.aec().k_e(), AEC, &[6, 0, 0, 0, 0, 0, 0x00, 0x01], 2).to_vec()
    );

    // B takes A's epoch over and does not answer again
    assert_eq!(recv(&mut b, &response[0]), Progress::Finished(Some(Event::Resynced(ID))));
    assert_eq!(recv(&mut b, &response[1]), Progress::Finished(Some(Event::Authenticated(AEC))));
    assert!(b.take_frames().is_empty());
    let ours = b.find_connection(ID).unwrap();
    let theirs = a.find_connection(ID).unwrap();
    assert_eq!(ours.epoch(), 6);
    assert_eq!(ours.epoch(), theirs.epoch());
    assert_eq!(ours.k_e(), theirs.k_e());
    assert!(!ours.auth_fail_in_progress());
    assert_eq!(a.aec().counter(), 3);
    assert_eq!(b.aec().counter(), 3);

    // and the connection works again
    let first = b.auth_send(ID, &[1, 2]);
    assert_eq!(drive(&mut b, first), Progress::Finished(None));
    let frames = b.take_frames();
    assert!(matches!(recv(&mut a, &frames[0]), Progress::Finished(Some(Event::Received(ID, _)))));
    assert_eq!(recv(&mut a, &frames[1]), Progress::Finished(Some(Event::Authenticated(ID))));
}

#[test]
fn stale_signal_changes_no_epoch() {
    let mut a = node();
    let mut b = node();
    let first = b.leia_auth_fail_send(ID);
    assert_eq!(drive(&mut b, first), Progress::Finished(None));
    let signal = b.take_frames();
    // the channel's epoch, one, is not ahead of the connection's
    assert_eq!(recv(&mut a, &signal[0]), Progress::Finished(Some(Event::Resynced(ID))));
    assert_eq!(a.find_connection(ID).unwrap().epoch(), 1);
    assert_eq!(a.find_connection(ID).unwrap().counter(), 1);
}

#[test]
fn epoch_rollover() {
    let mut a = node();
    for n in 1..0xFFFFu32 {
        assert_eq!(a.find_connection(ID).unwrap().counter() as u32, n);
        let first = a.auth_send(ID, &[n as u8]);
        assert_eq!(drive(&mut a, first), Progress::Finished(None));
        a.take_frames();
    }
    let conn = a.find_connection(ID).unwrap();
    assert_eq!(conn.counter(), 0xFFFF);
    assert_eq!(conn.epoch(), 1);

    let first = a.auth_send(ID, &[0x42]);
    let second = match first {
        Progress::NeedMac(request) => a.resume(Some(answer(&request))),
        other => panic!("no request for the tag: {:?}", other),
    };
    let request = MacRequest { key: SancusKey::new(K_I), data: vec![2, 0, 0, 0, 0, 0, 0, 0] };
    assert_eq!(second, Progress::NeedMac(request));
    assert_eq!(drive(&mut a, second), Progress::Finished(None));
    let frames = a.take_frames();
    assert_eq!(frames[0].eid, build_eid(ID, LeiACmd::Data, 0xFFFF));
    assert_eq!(frames[1].eid, build_eid(ID + 1, LeiACmd::Mac, 0xFFFF));
    let conn = a.find_connection(ID).unwrap();
    assert_eq!(conn.epoch(), 2);
    assert_eq!(conn.counter(), 1);
    assert_eq!(conn.k_e(), SancusKey::new(sponge(&K_I, &[2, 0, 0, 0, 0, 0, 0, 0])));
}

#[test]
fn plain_send_passes_through() {
    let mut a = node();
    a.send(0x123, &[1, 2, 3]);
    assert_eq!(a.take_frames(), vec![Frame { eid: 0x123, payload: vec![1, 2, 3] }]);
    assert_eq!(a.find_connection(ID).unwrap().counter(), 1);
}

fn assert_keys_in_step(context: &LeiAContext<ExpectedStore>) {
    for conn in [context.find_connection(ID).unwrap(), context.aec()] {
        assert!(conn.epoch() > 0);
        let key = sponge(conn.k_i().as_bytes(), &conn.epoch().to_le_bytes());
        assert_eq!(conn.k_e(), SancusKey::new(key));
    }
}

#[test]
fn session_keys_stay_in_step_with_epochs() {
    let mut a = node();
    let mut b = node();
    assert_keys_in_step(&a);
    let first = a.auth_send(ID, &[1]);
    assert_eq!(drive(&mut a, first), Progress::Finished(None));
    for frame in a.take_frames() {
        recv(&mut b, &frame);
    }
    assert_keys_in_step(&a);
    assert_keys_in_step(&b);
    for node in [&mut a, &mut b] {
        let first = node.leia_auth_fail_receive(AEC, 0x1234);
        assert_eq!(drive(node, first), Progress::Finished(None));
        assert_keys_in_step(node);
    }
    let first = a.leia_auth_fail_send(ID);
    assert_eq!(drive(&mut a, first), Progress::Finished(None));
    assert_keys_in_step(&a);
    for frame in a.take_frames() {
        recv(&mut b, &frame);
        assert_keys_in_step(&b);
    }
    for frame in b.take_frames() {
        recv(&mut a, &frame);
        assert_keys_in_step(&a);
    }
    assert_eq!(a.find_connection(ID).unwrap().epoch(), 0x1235);
    assert_eq!(b.find_connection(ID).unwrap().epoch(), 0x1235);
    let first = a.leia_auth_fail_send_response(ID);
    assert_eq!(drive(&mut a, first), Progress::Finished(None));
    assert_keys_in_step(&a);
}
