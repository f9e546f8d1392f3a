//! Key distribution: the frames that carry a fresh connection key to a
//! protected module, wrapped under the module's own key.

use crate::bytes::le16;
use crate::bytes::write_le16;
use crate::frame::Frame;
use crate::frame::FrameView;
use crate::keys::SancusKey;
use crate::mac::mac_create;
use crate::mac::mac_tag;
use crate::mac::zeros;
use vstd::prelude::*;

verus! {

/// The identifier under which key distribution frames are sent.
pub const CAN_ID_ATTEST_SEND: u16 = 0x555;

/// The identifier under which the modules acknowledge.
pub const CAN_ID_ATTEST_RECV: u16 = 0x556;

/// The length of what is wrapped for a module: the connection id, four
/// zero bytes and the connection key.
pub const ATTEST_PLAINTEXT_SIZE: usize = 22;

/// The associated data under which a connection key is wrapped.
pub open spec fn attest_ad() -> Seq<u8> {
    seq![0u8, 0u8, 0u8, 0u8]
}

/// The challenge whose MAC under the connection key a module answers
/// with.
pub open spec fn attest_challenge() -> Seq<u8> {
    seq![0xA7u8, 0x7Eu8, 0x57u8, 0xEDu8]
}

/// What is wrapped for a module: the connection id, little-endian, four
/// zero bytes and the connection key.
pub open spec fn attest_plaintext(id_conn: u16, key_conn: Seq<u8>) -> Seq<u8> {
    le16(id_conn) + zeros(4) + key_conn
}

/// The five payloads of a key distribution: the module id, little-endian,
/// and the ciphertext in three, then the tag of the wrapping in two.
pub open spec fn attest_payloads(id_pm: u16, ciphertext: Seq<u8>, tag: Seq<u8>) -> Seq<Seq<u8>>
    recommends
        ciphertext.len() == ATTEST_PLAINTEXT_SIZE,
        tag.len() == 16,
{
    let output = le16(id_pm) + ciphertext;
    seq![
        output.subrange(0, 8),
        output.subrange(8, 16),
        output.subrange(16, 24),
        tag.subrange(0, 8),
        tag.subrange(8, 16),
    ]
}

/// The five frames of a key distribution, each under the identifier for
/// key distribution.
pub open spec fn attest_frames(id_pm: u16, ciphertext: Seq<u8>, tag: Seq<u8>) -> Seq<FrameView> {
    Seq::new(
        5,
        |i: int|
            FrameView {
                eid: CAN_ID_ATTEST_SEND as u32,
                payload: attest_payloads(id_pm, ciphertext, tag)[i],
            },
    )
}

/// The associated data under which a connection key is wrapped.
pub fn key_distribution_ad() -> (ad: [u8; 4])
    ensures
        ad@ == attest_ad(),
{
    let ad: [u8; 4] = [0x00, 0x00, 0x00, 0x00];
    assert(ad@ =~= attest_ad());
    ad
}

/// The challenge whose MAC under the connection key a module answers
/// with.
pub fn key_distribution_challenge() -> (challenge: [u8; 4])
    ensures
        challenge@ == attest_challenge(),
{
    let challenge: [u8; 4] = [0xA7, 0x7E, 0x57, 0xED];
    assert(challenge@ =~= attest_challenge());
    challenge
}

/// Builds what is wrapped under a module's key to hand it a connection
/// key.
pub fn key_distribution_plaintext(id_conn: u16, key_conn: &SancusKey) -> (plaintext: [u8; 22])
    ensures
        plaintext@ == attest_plaintext(id_conn, key_conn@),
{
    let id_conn_buf = write_le16(id_conn);
    let key = key_conn.as_bytes();
    let mut payload_to_encrypt: [u8; 22] = [0x00;22];
    payload_to_encrypt[0] = id_conn_buf[0];
    payload_to_encrypt[1] = id_conn_buf[1];
    let mut i: usize = 0;
    while i < 16
        invariant
            i <= 16,
            key@.len() == 16,
            payload_to_encrypt@[0] == le16(id_conn)[0],
            payload_to_encrypt@[1] == le16(id_conn)[1],
            forall|j: int| 2 <= j < 6 ==> payload_to_encrypt@[j] == 0,
            forall|j: int| 0 <= j < i ==> payload_to_encrypt@[6 + j] == key@[j],
        decreases 16 - i,
    {
        payload_to_encrypt[6 + i] = key[i];
        i += 1;
    }
    assert(payload_to_encrypt@ =~= attest_plaintext(id_conn, key_conn@));
    payload_to_encrypt
}

/// Copies eight bytes of a buffer, from `from` on, into a frame for key
/// distribution.
fn attest_frame(buffer: &[u8], from: usize) -> (frame: Frame)
    requires
        from + 8 <= buffer@.len(),
    ensures
        frame@ == (FrameView {
            eid: CAN_ID_ATTEST_SEND as u32,
            payload: buffer@.subrange(from as int, from + 8),
        }),
{
    let mut payload: Vec<u8> = Vec::new();
    let len: usize = buffer.len();
    let mut i: usize = 0;
    while i < 8
        invariant
            i <= 8,
            from + 8 <= len,
            len == buffer@.len(),
            payload@ == buffer@.subrange(from as int, from + i),
        decreases 8 - i,
    {
        payload.push(buffer[from + i]);
        assert(payload@ =~= buffer@.subrange(from as int, from + i + 1));
        i += 1;
    }
    Frame { eid: CAN_ID_ATTEST_SEND as u32, payload }
}

/// Returns the key distribution sequence for a module and a connection
/// and the MAC that the module is expected to answer with. `ciphertext`
/// and `tag` are what wrapping the plaintext under the module's key
/// gave; `nonce_sponge` is the sponge's MAC of the challenge under the
/// connection key.
pub fn build_key_distribution_sequence(
    id_pm: u16,
    ciphertext: &[u8; 22],
    tag: &[u8; 16],
    nonce_sponge: &[u8; 16],
) -> (out: (Vec<Frame>, [u8; 8]))
    ensures
        out.0@.map_values(|f: Frame| f@) == attest_frames(id_pm, ciphertext@, tag@),
        out.1@ == mac_tag(nonce_sponge@),
{
    let id_pm_buf = write_le16(id_pm);
    let mut payload: Vec<u8> = Vec::new();
    payload.push(id_pm_buf[0]);
    payload.push(id_pm_buf[1]);
    let mut i: usize = 0;
    while i < 22
        invariant
            i <= 22,
            payload@ == le16(id_pm) + ciphertext@.subrange(0, i as int),
        decreases 22 - i,
    {
        payload.push(ciphertext[i]);
        assert(payload@ =~= le16(id_pm) + ciphertext@.subrange(0, i as int + 1));
        i += 1;
    }
    assert(payload@ =~= le16(id_pm) + ciphertext@);
    let expected_nonce_mac = mac_create(nonce_sponge);
    let mut sequence: Vec<Frame> = Vec::new();
    sequence.push(attest_frame(payload.as_slice(), 0));
    sequence.push(attest_frame(payload.as_slice(), 8));
    sequence.push(attest_frame(payload.as_slice(), 16));
    sequence.push(attest_frame(tag.as_slice(), 0));
    sequence.push(attest_frame(tag.as_slice(), 8));
    assert(sequence@.map_values(|f: Frame| f@) =~= attest_frames(id_pm, ciphertext@, tag@));
    (sequence, expected_nonce_mac)
}

} // verus!
