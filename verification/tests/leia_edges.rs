use vulcan::build_eid;
use vulcan::leia;
use vulcan::leia_auth_fail_response;
use vulcan::session_key_gen;
use vulcan::session_key_request;
use vulcan::update_counters;
use vulcan::Event;
use vulcan::ExpectedStore;
use vulcan::Fatal;
use vulcan::Frame;
use vulcan::LeiACmd;
use vulcan::LeiAConnection;
use vulcan::LeiAContext;
use vulcan::MacRequest;
use vulcan::Progress;
use vulcan::SancusKey;
use vulcan::VulCANContext;
use vulcan::VulCANStore;
use vulcan::LEIA_COUNT_MAX;
use vulcan::LEIA_EPOCH_MAX;

const K_I: [u8; 16] = [0, 1, 2, 3, 4, 5, 6, 7, 8, 9, 10, 11, 12, 13, 14, 15];
const K_AEC: [u8; 16] = [7; 16];
const ID: u16 = 0xF0;
const AEC: u16 = 0xBB;

fn sponge(key: &[u8; 16], data: &[u8]) -> [u8; 16] {
    let mut out = *key;
    for (i, b) in data.iter().enumerate() {
        out[i % 16] = out[i % 16].wrapping_mul(31).wrapping_add(*b).rotate_left(3) ^ (i as u8);
        out[(i + 9) % 16] ^= out[i % 16].wrapping_add(0x5B);
    }
    out
}

fn drive(context: &mut LeiAContext<ExpectedStore>, first: Progress) -> Progress {
    let mut progress = first;
    loop {
        match progress {
            Progress::NeedMac(request) => {
                progress = context.resume(Some(sponge(request.key.as_bytes(), &request.data)));
            }
            other => return other,
        }
    }
}

fn node() -> LeiAContext<ExpectedStore> {
    let connections = [LeiAConnection::new(ID).with_k_i(&K_I)];
    let aec = LeiAConnection::new(AEC).with_k_i(&K_AEC);
    let mut context = leia(&connections, aec, ExpectedStore::new());
    let first = context.init();
    assert_eq!(drive(&mut context, first), Progress::Finished(None));
    context
}

fn recv(context: &mut LeiAContext<ExpectedStore>, eid: u32, payload: &[u8]) -> Progress {
    let first = context.auth_recv(eid, payload);
    drive(context, first)
}

#[test]
fn fresh_connection() {
    let conn = LeiAConnection::new(0x7FF);
    assert_eq!(conn.id(), 0x7FF);
    assert_eq!(conn.counter(), 0);
    assert_eq!(conn.epoch(), 0);
    assert_eq!(conn.k_i(), SancusKey::zero());
    assert_eq!(conn.k_e(), SancusKey::zero());
    assert!(!conn.auth_fail_in_progress());
    let keyed = conn.with_k_i(&K_I);
    assert_eq!(keyed.k_i(), SancusKey::new(K_I));
    assert_eq!(keyed.k_e(), SancusKey::zero());
    assert_eq!(keyed.id(), 0x7FF);
}

#[test]
fn session_key_request_names_next_epoch() {
    let mut conn = LeiAConnection::new(ID).with_k_i(&K_I);
    let request = session_key_request(&conn).unwrap();
    assert_eq!(request, MacRequest { key: SancusKey::new(K_I), data: vec![1, 0, 0, 0, 0, 0, 0, 0] });
    assert_eq!(leia_auth_fail_response(&mut conn, 0x0102_0304_0506), Ok(()));
    assert_eq!(conn.epoch(), 0x0102_0304_0505);
    let request = session_key_request(&conn).unwrap();
    assert_eq!(request.data, vec![0x06, 0x05, 0x04, 0x03, 0x02, 0x01, 0, 0]);
}

#[test]
fn session_key_gen_is_deterministic() {
    let start = LeiAConnection::new(ID).with_k_i(&K_I);
    let mut first = start;
    let mut second = start;
    let answer = sponge(&K_I, &session_key_request(&start).unwrap().data);
    assert_eq!(session_key_gen(&mut first, &answer), Ok(()));
    assert_eq!(session_key_gen(&mut second, &answer), Ok(()));
    assert_eq!(first.epoch(), 1);
    assert_eq!(first.counter(), 1);
    assert_eq!(first.k_e(), SancusKey::new(answer));
    assert_eq!(first.epoch(), second.epoch());
    assert_eq!(first.k_e(), second.k_e());
    assert_eq!(first.k_i(), second.k_i());
    assert_eq!(
        session_key_request(&first).unwrap(),
        session_key_request(&second).unwrap()
    );
}

#[test]
fn update_counters_counts_up_to_the_maximum() {
    let mut conn = LeiAConnection::new(ID);
    for n in 0..LEIA_COUNT_MAX {
        assert_eq!(conn.counter(), n);
        assert!(!update_counters(&mut conn));
    }
    assert_eq!(conn.counter(), 0xFFFF);
    assert!(update_counters(&mut conn));
    assert_eq!(conn.counter(), 0xFFFF);
    assert_eq!(conn.epoch(), 0);
    assert_eq!(session_key_gen(&mut conn, &[3; 16]), Ok(()));
    assert_eq!(conn.counter(), 1);
    assert_eq!(conn.epoch(), 1);
}

#[test]
fn epoch_at_maximum_is_fatal() {
    let mut conn = LeiAConnection::new(ID).with_k_i(&K_I);
    assert_eq!(leia_auth_fail_response(&mut conn, LEIA_EPOCH_MAX), Ok(()));
    assert_eq!(conn.epoch(), LEIA_EPOCH_MAX - 1);
    assert_eq!(
        session_key_request(&conn).unwrap().data,
        vec![0xFF, 0xFF, 0xFF, 0xFF, 0xFF, 0xFF, 0xFF, 0x00]
    );
    assert_eq!(session_key_gen(&mut conn, &[1; 16]), Ok(()));
    assert_eq!(conn.epoch(), LEIA_EPOCH_MAX);
    assert_eq!(session_key_request(&conn), Err(Fatal::EpochOverflow));
    let before = conn;
    assert_eq!(session_key_gen(&mut conn, &[2; 16]), Err(Fatal::EpochOverflow));
    assert_eq!(conn.epoch(), before.epoch());
    assert_eq!(conn.k_e(), before.k_e());
    assert_eq!(conn.counter(), before.counter());
}

#[test]
fn adopted_epoch_must_be_ahead_and_in_range() {
    let mut conn = LeiAConnection::new(ID);
    assert_eq!(leia_auth_fail_response(&mut conn, 0), Err(Fatal::StaleEpoch));
    assert_eq!(leia_auth_fail_response(&mut conn, 10), Ok(()));
    assert_eq!(conn.epoch(), 9);
    assert_eq!(leia_auth_fail_response(&mut conn, 9), Err(Fatal::StaleEpoch));
    assert_eq!(leia_auth_fail_response(&mut conn, 5), Err(Fatal::StaleEpoch));
    assert_eq!(leia_auth_fail_response(&mut conn, LEIA_EPOCH_MAX + 1), Err(Fatal::EpochOverflow));
    assert_eq!(leia_auth_fail_response(&mut conn, u64::MAX), Err(Fatal::EpochOverflow));
    assert_eq!(conn.epoch(), 9);
}

#[test]
fn rollover_at_the_last_epoch_is_fatal() {
    let mut a = node();
    let first = a.leia_auth_fail_receive(ID, LEIA_EPOCH_MAX);
    assert_eq!(drive(&mut a, first), Progress::Finished(None));
    assert_eq!(a.find_connection(ID).unwrap().epoch(), LEIA_EPOCH_MAX);
    // a message with the last counter brings the counter to its maximum
    let progress = recv(&mut a, build_eid(ID, LeiACmd::Data, 0xFFFF), &[1]);
    assert!(matches!(progress, Progress::Finished(Some(Event::Received(ID, Some(_))))));
    assert_eq!(a.find_connection(ID).unwrap().counter(), 0xFFFF);
    let first = a.auth_send(ID, &[1, 2]);
    assert_eq!(drive(&mut a, first), Progress::Fatal(Fatal::EpochOverflow));
    assert!(a.is_idle());
    assert_eq!(a.take_frames().len(), 2);
    let conn = a.find_connection(ID).unwrap();
    assert_eq!(conn.epoch(), LEIA_EPOCH_MAX);
    assert_eq!(conn.counter(), 0xFFFF);
}

#[test]
fn epoch_beyond_the_maximum_is_refused() {
    let mut a = node();
    assert_eq!(
        a.leia_auth_fail_receive(ID, LEIA_EPOCH_MAX + 1),
        Progress::Fatal(Fatal::EpochOverflow)
    );
    assert_eq!(a.find_connection(ID).unwrap().epoch(), 1);
    assert!(a.is_idle());
    // an epoch that is not ahead changes nothing
    assert_eq!(a.leia_auth_fail_receive(ID, 1), Progress::Finished(None));
    assert_eq!(a.leia_auth_fail_receive(ID, 0), Progress::Finished(None));
    assert_eq!(a.find_connection(ID).unwrap().epoch(), 1);
    assert_eq!(a.find_connection(ID).unwrap().counter(), 1);
}

#[test]
fn message_length_is_checked() {
    let mut a = node();
    assert_eq!(a.auth_send(ID, &[0; 9]), Progress::Fatal(Fatal::PayloadTooLong));
    assert!(a.take_frames().is_empty());
    assert_eq!(a.find_connection(ID).unwrap().counter(), 1);
    for msg in [&[][..], &[1, 2, 3, 4, 5, 6, 7, 8][..]] {
        let first = a.auth_send(ID, msg);
        assert_eq!(drive(&mut a, first), Progress::Finished(None));
        assert_eq!(a.take_frames()[0].payload, msg.to_vec());
    }
    assert_eq!(
        recv(&mut a, build_eid(ID, LeiACmd::Data, 9), &[0; 9]),
        Progress::Fatal(Fatal::PayloadTooLong)
    );
    assert_eq!(a.expected().len(), 0);
    assert_eq!(
        recv(&mut a, build_eid(AEC, LeiACmd::AecEpoch, 9), &[0; 9]),
        Progress::Fatal(Fatal::PayloadTooLong)
    );
    assert_eq!(
        recv(&mut a, build_eid(AEC, LeiACmd::AecEpoch, 9), &[0; 7]),
        Progress::Fatal(Fatal::PayloadTooShort)
    );
    assert!(a.is_idle());
}

#[test]
fn unknown_connections() {
    let mut a = node();
    assert_eq!(a.auth_send(0x33, &[1]), Progress::Fatal(Fatal::UnknownConnection));
    assert_eq!(a.leia_auth_send(0x33, &[1], true), Progress::Fatal(Fatal::UnknownConnection));
    assert_eq!(a.leia_auth_fail_send(0x33), Progress::Fatal(Fatal::UnknownConnection));
    assert_eq!(a.leia_auth_fail_receive(0x33, 9), Progress::Fatal(Fatal::UnknownConnection));
    assert_eq!(a.leia_auth_fail_send_response(0x33), Progress::Fatal(Fatal::UnknownConnection));
    assert_eq!(a.auth_send(0, &[1]), Progress::Fatal(Fatal::UnknownConnection));
    assert_eq!(
        recv(&mut a, build_eid(0x33, LeiACmd::Data, 1), &[1]),
        Progress::Finished(Some(Event::UnknownId(0x33)))
    );
    assert_eq!(
        recv(&mut a, build_eid(0x33, LeiACmd::Mac, 1), &[1; 8]),
        Progress::Finished(Some(Event::UnknownId(0x33)))
    );
    assert_eq!(
        recv(&mut a, build_eid(0, LeiACmd::Mac, 1), &[1; 8]),
        Progress::Finished(Some(Event::UnknownId(0)))
    );
    assert_eq!(
        recv(&mut a, build_eid(0x33, LeiACmd::AecEpoch, 1), &[1; 8]),
        Progress::Finished(Some(Event::UnknownId(0x33)))
    );
    // a signal that refers to a connection which the node does not hold
    assert_eq!(
        recv(&mut a, build_eid(AEC, LeiACmd::AecEpoch, 1), &[9, 0, 0, 0, 0, 0, 0x33, 0x00]),
        Progress::Finished(Some(Event::UnknownId(0x33)))
    );
    assert_eq!(a.expected().len(), 0);
    assert!(a.take_frames().is_empty());
    assert!(a.is_idle());
}

#[test]
fn legacy_frames_are_ignored() {
    let mut a = node();
    assert_eq!(a.auth_recv(0x0000_00F0, &[1, 2]), Progress::Ignored);
    assert_eq!(a.auth_recv(0x8000_00F0, &[1, 2]), Progress::Ignored);
    assert_eq!(a.auth_recv(0x03C0_0001, &[1, 2]), Progress::Ignored);
    assert_eq!(a.expected().len(), 0);
    assert!(a.is_idle());
}

#[test]
fn unexpected_and_missing_tags() {
    let mut a = node();
    assert_eq!(
        recv(&mut a, build_eid(ID + 1, LeiACmd::Mac, 1), &[0; 8]),
        Progress::Finished(Some(Event::UnexpectedMAC(ID)))
    );
    assert_eq!(
        recv(&mut a, build_eid(AEC, LeiACmd::AecMac, 1), &[0; 8]),
        Progress::Finished(Some(Event::UnexpectedMAC(AEC)))
    );
    let first = recv(&mut a, build_eid(ID, LeiACmd::Data, 1), &[1]);
    let Progress::Finished(Some(Event::Received(ID, Some(old_tag)))) = first else {
        panic!("not received: {:?}", first);
    };
    // a second message before the tag of the first
    assert_eq!(
        recv(&mut a, build_eid(ID, LeiACmd::Data, 2), &[2]),
        Progress::Finished(Some(Event::MissingMAC(ID)))
    );
    assert_eq!(a.expected().len(), 1);
    assert!(a.expected().contains_key(&ID));
    let new_tag = *a.expected().get(&ID).unwrap();
    assert_ne!(new_tag, old_tag);
    assert_eq!(a.find_connection(ID).unwrap().counter(), 2);
    assert_eq!(
        recv(&mut a, build_eid(ID + 1, LeiACmd::Mac, 2), &new_tag),
        Progress::Finished(Some(Event::Authenticated(ID)))
    );
    assert_eq!(a.expected().len(), 0);
    // the tag of a signal that differs from the one expected
    let signal = [9, 0, 0, 0, 0, 0, 0xF0, 0x00];
    assert_eq!(
        recv(&mut a, build_eid(AEC, LeiACmd::AecEpoch, 4), &signal),
        Progress::Finished(Some(Event::Resynced(ID)))
    );
    assert_eq!(a.find_connection(ID).unwrap().epoch(), 9);
    assert_eq!(a.aec().counter(), 4);
    assert_eq!(a.expected().len(), 1);
    assert_eq!(
        recv(&mut a, build_eid(AEC, LeiACmd::AecMac, 4), &[0; 8]),
        Progress::Finished(Some(Event::UnexpectedMAC(AEC)))
    );
    assert_eq!(a.expected().len(), 0);
    assert_eq!(a.aec().counter(), 4);
    assert!(a.take_frames().is_empty());
}

#[test]
fn sponge_failure_is_fatal() {
    let mut a = node();
    let first = a.auth_send(ID, &[1]);
    assert!(matches!(first, Progress::NeedMac(_)));
    assert_eq!(a.resume(None), Progress::Fatal(Fatal::MacFailure));
    assert!(a.is_idle());
    assert!(a.take_frames().is_empty());
    assert_eq!(a.find_connection(ID).unwrap().counter(), 1);
}

#[test]
fn store_holds_one_tag_per_connection() {
    let mut store = ExpectedStore::new();
    assert_eq!(store.len(), 0);
    assert_eq!(store.insert(&5, [1; 8]), None);
    assert_eq!(store.insert(&5, [2; 8]), Some([1; 8]));
    assert_eq!(store.len(), 1);
    assert_eq!(store.get(&5), Some(&[2; 8]));
    assert_eq!(store.get(&6), None);
    assert!(store.contains_key(&5));
    assert!(!store.contains_key(&6));
    assert_eq!(store.insert(&6, [3; 8]), None);
    assert_eq!(store.len(), 2);
    assert_eq!(store.remove(&5), Some([2; 8]));
    assert_eq!(store.remove(&5), None);
    assert_eq!(store.len(), 1);
}

#[test]
fn signal_on_full_table_finds_first_match() {
    let connections: Vec<LeiAConnection> =
        (1..=16u16).map(|id| LeiAConnection::new(id).with_k_i(&[id as u8; 16])).collect();
    let aec = LeiAConnection::new(16).with_k_i(&K_AEC);
    let context = leia(&connections, aec, ExpectedStore::new());
    // the data connection comes before the channel of the same id
    assert_eq!(context.find_connection(16).unwrap().k_i(), SancusKey::new([16; 16]));
    assert_eq!(context.aec().k_i(), SancusKey::new(K_AEC));
    assert_eq!(context.find_connection(1).unwrap().k_i(), SancusKey::new([1; 16]));
    assert!(context.find_connection(17).is_none());
}

#[test]
fn frames_of_the_channel_share_one_id() {
    let mut a = node();
    let first = a.leia_auth_send(AEC, &[1, 2, 3, 4, 5, 6, 7, 8], true);
    assert_eq!(drive(&mut a, first), Progress::Finished(None));
    let frames: Vec<Frame> = a.take_frames();
    assert_eq!(frames[0].eid, build_eid(AEC, LeiACmd::AecEpoch, 1));
    assert_eq!(frames[1].eid, build_eid(AEC, LeiACmd::AecMac, 1));
    assert_eq!(a.aec().counter(), 2);
}

#[test]
fn signal_carries_epoch_in_six_bytes() {
    let mut a = node();
    let signal = [0x06, 0x05, 0x04, 0x03, 0x02, 0x01, 0xF0, 0x00];
    let first = a.auth_recv(build_eid(AEC, LeiACmd::AecEpoch, 3), &signal);
    // the key of the epoch signalled is asked for first
    let request =
        MacRequest { key: SancusKey::new(K_I), data: vec![0x06, 0x05, 0x04, 0x03, 0x02, 0x01, 0, 0] };
    assert_eq!(first, Progress::NeedMac(request));
    let second = a.resume(Some(sponge(&K_I, &[0x06, 0x05, 0x04, 0x03, 0x02, 0x01, 0, 0])));
    // then the tag of the signal, under the channel's key
    let mut ad = vec![3, 0, 0xBB, 0x00];
    ad.extend_from_slice(&signal);
    let request = MacRequest { key: a.aec().k_e(), data: ad };
    assert_eq!(second, Progress::NeedMac(request));
    assert_eq!(drive(&mut a, second), Progress::Finished(Some(Event::Resynced(ID))));
    let conn = a.find_connection(ID).unwrap();
    assert_eq!(conn.epoch(), 0x0102_0304_0506);
    assert_eq!(conn.counter(), 1);
    assert_eq!(a.aec().counter(), 3);
}

#[test]
fn failure_signal_packs_epoch_and_id() {
    let mut a = node();
    let first = a.leia_auth_fail_receive(AEC, 0x00AB_CDEF_0123_4567);
    assert_eq!(drive(&mut a, first), Progress::Finished(None));
    let first = a.leia_auth_fail_send(ID);
    assert_eq!(drive(&mut a, first), Progress::Finished(None));
    let frames = a.take_frames();
    // the low six bytes of the epoch, then the id
    assert_eq!(frames[0].payload, vec![0x67, 0x45, 0x23, 0x01, 0xEF, 0xCD, 0xF0, 0x00]);
    assert_eq!(frames[0].eid, build_eid(AEC, LeiACmd::AecEpoch, 1));
    // the answer to a signal carries the epoch of the connection referred to
    let first = a.leia_auth_fail_send_response(ID);
    assert_eq!(drive(&mut a, first), Progress::Finished(None));
    let frames = a.take_frames();
    assert_eq!(a.find_connection(ID).unwrap().epoch(), 2);
    assert_eq!(frames[0].payload, vec![2, 0, 0, 0, 0, 0, 0xF0, 0x00]);
    assert_eq!(frames[0].eid, build_eid(AEC, LeiACmd::AecEpoch, 2));
    assert_eq!(frames[1].eid, build_eid(AEC, LeiACmd::AecMac, 2));
}
