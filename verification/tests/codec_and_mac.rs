use vulcan::build_eid;
use vulcan::mac_associated_data;
use vulcan::mac_create;
use vulcan::mac_request;
use vulcan::parse_eid;
use vulcan::LeiACmd;
use vulcan::SancusKey;

#[test]
fn build_eid_matches_layout() {
    assert_eq!(build_eid(0x100, LeiACmd::Data, 1), 0x8400_0001);
    assert_eq!(build_eid(0x101, LeiACmd::Mac, 1), 0x8405_0001);
    assert_eq!(build_eid(0xAA, LeiACmd::AecEpoch, 0x1234), 0x82AA_1234);
    assert_eq!(build_eid(0xAA, LeiACmd::AecMac, 0xFFFF), 0x82AB_FFFF);
    assert_eq!(build_eid(0x7FF, LeiACmd::AecMac, 0xFFFF), 0x9FFF_FFFF);
    assert_eq!(build_eid(0, LeiACmd::Data, 0), 0x8000_0000);
}

#[test]
fn parse_eid_takes_fields_apart() {
    assert_eq!(parse_eid(0x8400_0001), Some((0x100, LeiACmd::Data, 1)));
    assert_eq!(parse_eid(0x8405_0001), Some((0x101, LeiACmd::Mac, 1)));
    assert_eq!(parse_eid(0x82AA_1234), Some((0xAA, LeiACmd::AecEpoch, 0x1234)));
    assert_eq!(parse_eid(0x9FFF_FFFF), Some((0x7FF, LeiACmd::AecMac, 0xFFFF)));
    // the bits between the identifier and the flag do not count
    assert_eq!(parse_eid(0xE400_0001), Some((0x100, LeiACmd::Data, 1)));
}

#[test]
fn parse_eid_refuses_legacy_frames() {
    // no extended-frame flag
    assert_eq!(parse_eid(0x0400_0001), None);
    assert_eq!(parse_eid(0x7FFF_FFFF), None);
    // identifier of at most eleven bits
    assert_eq!(parse_eid(0x8000_07FF), None);
    assert_eq!(parse_eid(0x8000_0000), None);
    assert_eq!(parse_eid(0x0000_0555), None);
    // one above the legacy range
    assert_eq!(parse_eid(0x8000_0800), Some((0, LeiACmd::Data, 0x800)));
}

#[test]
fn parse_inverts_build_on_legal_triples() {
    let cmds = [LeiACmd::Data, LeiACmd::Mac, LeiACmd::AecEpoch, LeiACmd::AecMac];
    let ids: [u16; 6] = [1, 2, 0xAA, 0xF0, 0x100, 0x7FF];
    let counters: [u16; 6] = [0, 1, 0x7FF, 0x800, 0x1234, 0xFFFF];
    for id in ids {
        for cmd in cmds {
            for counter in counters {
                assert_eq!(parse_eid(build_eid(id, cmd, counter)), Some((id, cmd, counter)));
            }
        }
    }
    // the id zero round-trips but for data frames with a small counter
    assert_eq!(parse_eid(build_eid(0, LeiACmd::Mac, 0)), Some((0, LeiACmd::Mac, 0)));
    assert_eq!(parse_eid(build_eid(0, LeiACmd::Data, 0x800)), Some((0, LeiACmd::Data, 0x800)));
    assert_eq!(parse_eid(build_eid(0, LeiACmd::Data, 0x7FF)), None);
}

#[test]
fn command_codes() {
    assert_eq!(LeiACmd::Data.code(), 0);
    assert_eq!(LeiACmd::Mac.code(), 1);
    assert_eq!(LeiACmd::AecEpoch.code(), 2);
    assert_eq!(LeiACmd::AecMac.code(), 3);
    assert_eq!(u16::from(LeiACmd::AecMac), 3);
    assert_eq!(LeiACmd::from_code(0), Some(LeiACmd::Data));
    assert_eq!(LeiACmd::from_code(1), Some(LeiACmd::Mac));
    assert_eq!(LeiACmd::from_code(2), Some(LeiACmd::AecEpoch));
    assert_eq!(LeiACmd::from_code(3), Some(LeiACmd::AecMac));
    assert_eq!(LeiACmd::from_code(4), None);
}

#[test]
fn associated_data_layout() {
    assert_eq!(
        mac_associated_data(0x100, &[0xAA, 0xBB], 1),
        Some([0x01, 0x00, 0x00, 0x01, 0xAA, 0xBB, 0, 0, 0, 0, 0, 0])
    );
    assert_eq!(
        mac_associated_data(0x07F0, &[1, 2, 3, 4, 5, 6, 7, 8], 0xABCD),
        Some([0xCD, 0xAB, 0xF0, 0x07, 1, 2, 3, 4, 5, 6, 7, 8])
    );
}

#[test]
fn message_length_bounds() {
    assert_eq!(mac_associated_data(1, &[], 0), Some([0, 0, 1, 0, 0, 0, 0, 0, 0, 0, 0, 0]));
    assert!(mac_associated_data(1, &[9; 8], 0).is_some());
    assert_eq!(mac_associated_data(1, &[9; 9], 0), None);
    let key = SancusKey::new([7; 16]);
    assert!(mac_request(&key, 1, &[], 0).is_some());
    assert!(mac_request(&key, 1, &[9; 8], 0).is_some());
    assert!(mac_request(&key, 1, &[9; 9], 0).is_none());
}

#[test]
fn mac_request_names_key_and_data() {
    let key = SancusKey::new([0, 1, 2, 3, 4, 5, 6, 7, 8, 9, 10, 11, 12, 13, 14, 15]);
    let request = mac_request(&key, 0x100, &[0xAA, 0xBB], 1).unwrap();
    assert_eq!(request.key.as_bytes(), key.as_bytes());
    assert_eq!(request.data, vec![0x01, 0x00, 0x00, 0x01, 0xAA, 0xBB, 0, 0, 0, 0, 0, 0]);
}

#[test]
fn tag_is_last_eight_bytes() {
    let sponge = [0, 1, 2, 3, 4, 5, 6, 7, 8, 9, 10, 11, 12, 13, 14, 15];
    assert_eq!(mac_create(&sponge), [8, 9, 10, 11, 12, 13, 14, 15]);
}

#[test]
fn key_from_slice_wants_sixteen_bytes() {
    assert!(SancusKey::from_slice(&[1; 15]).is_none());
    assert!(SancusKey::from_slice(&[1; 17]).is_none());
    assert_eq!(SancusKey::from_slice(&[1; 16]).unwrap().as_bytes(), &[1; 16]);
    assert_eq!(SancusKey::zero().as_bytes(), &[0; 16]);
}
