//! What goes into the sponge for a frame's authentication tag, and what
//! is kept of what comes out.

use crate::bytes::le16;
use crate::bytes::write_le16;
use crate::keys::SancusKey;
use vstd::prelude::*;

verus! {

/// The length of a CAN payload, and of an authentication tag, in bytes.
pub const CAN_PAYLOAD_SIZE: usize = 8;

/// The length of the associated data that a tag is computed over.
pub const LEIA_AD_SIZE: usize = 12;

/// A computation that the sponge is to make: the MAC of `data` under
/// `key`.
#[derive(Debug, PartialEq, Eq)]
pub struct MacRequest {
    pub key: SancusKey,
    pub data: Vec<u8>,
}

/// A sponge computation as plain values.
pub struct MacRequestView {
    pub key: Seq<u8>,
    pub data: Seq<u8>,
}

impl View for MacRequest {
    type V = MacRequestView;

    open spec fn view(&self) -> MacRequestView {
        MacRequestView { key: self.key@, data: self.data@ }
    }
}

/// `n` zero bytes.
pub open spec fn zeros(n: int) -> Seq<u8> {
    Seq::new(
        if n >= 0 {
            n as nat
        } else {
            0
        },
        |i: int| 0u8,
    )
}

/// The associated data of a frame: the counter and the connection id,
/// both little-endian, then the message, then zeros up to twelve bytes.
pub open spec fn mac_ad(id: u16, msg: Seq<u8>, counter: u16) -> Seq<u8>
    recommends
        msg.len() <= CAN_PAYLOAD_SIZE,
{
    le16(counter) + le16(id) + msg + zeros(CAN_PAYLOAD_SIZE - msg.len())
}

/// The tag that is kept of a sponge output: its last eight bytes.
pub open spec fn mac_tag(sponge: Seq<u8>) -> Seq<u8>
    recommends
        sponge.len() == 16,
{
    sponge.subrange(8, 16)
}

/// Whether `tag` authenticates a message with its connection id and
/// counter under a session key: it is the tag of what the sponge `mac`
/// gives for the frame's associated data under that key.
pub open spec fn mac_verify(
    mac: spec_fn(Seq<u8>, Seq<u8>) -> Seq<u8>,
    k_e: Seq<u8>,
    id: u16,
    msg: Seq<u8>,
    counter: u16,
    tag: Seq<u8>,
) -> bool {
    tag == mac_tag(mac(k_e, mac_ad(id, msg, counter)))
}

/// The associated data of a frame is twelve bytes long, whatever the
/// message of at most eight bytes.
pub proof fn lemma_mac_ad_len(id: u16, msg: Seq<u8>, counter: u16)
    requires
        msg.len() <= CAN_PAYLOAD_SIZE,
    ensures
        mac_ad(id, msg, counter).len() == LEIA_AD_SIZE,
{
}

/// The associated data tells the counter, the connection id and, the
/// length given, the message: two frames that differ in one of them of
/// equal message length have different associated data.
pub proof fn lemma_mac_ad_injective(
    id1: u16,
    msg1: Seq<u8>,
    counter1: u16,
    id2: u16,
    msg2: Seq<u8>,
    counter2: u16,
)
    requires
        msg1.len() == msg2.len(),
        msg1.len() <= CAN_PAYLOAD_SIZE,
        mac_ad(id1, msg1, counter1) == mac_ad(id2, msg2, counter2),
    ensures
        id1 == id2,
        counter1 == counter2,
        msg1 == msg2,
{
    let a = mac_ad(id1, msg1, counter1);
    let b = mac_ad(id2, msg2, counter2);
    assert(a[0] == b[0] && a[1] == b[1] && a[2] == b[2] && a[3] == b[3]);
    assert(a[0] == le16(counter1)[0] && a[1] == le16(counter1)[1]);
    assert(b[0] == le16(counter2)[0] && b[1] == le16(counter2)[1]);
    assert(a[2] == le16(id1)[0] && a[3] == le16(id1)[1]);
    assert(b[2] == le16(id2)[0] && b[3] == le16(id2)[1]);
    assert forall|i: int| 0 <= i < msg1.len() implies msg1[i] == msg2[i] by {
        assert(a[4 + i] == msg1[i]);
        assert(b[4 + i] == msg2[i]);
    }
    assert(msg1 =~= msg2);
}

/// Builds the associated data of a frame. A message of more than eight
/// bytes does not fit a CAN frame and gives nothing.
pub fn mac_associated_data(id: u16, msg: &[u8], counter: u16) -> (ad: Option<[u8; 12]>)
    ensures
        msg@.len() <= CAN_PAYLOAD_SIZE ==> ad is Some && ad.unwrap()@ == mac_ad(id, msg@, counter),
        msg@.len() > CAN_PAYLOAD_SIZE ==> ad is None,
{
    if msg.len() > CAN_PAYLOAD_SIZE {
        return None;
    }
    let mut ad: [u8; 12] = [0; 12];
    let counter_bytes = write_le16(counter);
    ad[0] = counter_bytes[0];
    ad[1] = counter_bytes[1];
    let id_bytes = write_le16(id);
    ad[2] = id_bytes[0];
    ad[3] = id_bytes[1];
    let msg_len: usize = msg.len();
    let mut i: usize = 0;
    while i < msg_len
        invariant
            i <= msg_len,
            msg_len == msg@.len(),
            msg_len <= 8,
            ad@[0] == le16(counter)[0],
            ad@[1] == le16(counter)[1],
            ad@[2] == le16(id)[0],
            ad@[3] == le16(id)[1],
            forall|j: int| 0 <= j < i ==> ad@[4 + j] == msg@[j],
            forall|j: int| 4 + i <= j < 12 ==> ad@[j] == 0,
        decreases msg_len - i,
    {
        ad[4 + i] = msg[i];
        i += 1;
    }
    assert(ad@ =~= mac_ad(id, msg@, counter));
    Some(ad)
}

/// What the sponge is asked for the tag of a frame: the MAC of the
/// frame's associated data under the session key. A message of more than
/// eight bytes gives nothing.
pub fn mac_request(k_e: &SancusKey, id: u16, msg: &[u8], counter: u16) -> (request: Option<
    MacRequest,
>)
    ensures
        msg@.len() <= CAN_PAYLOAD_SIZE ==> request is Some && request.unwrap()@ == (MacRequestView {
            key: k_e@,
            data: mac_ad(id, msg@, counter),
        }),
        msg@.len() > CAN_PAYLOAD_SIZE ==> request is None,
{
    match mac_associated_data(id, msg, counter) {
        Some(ad) => {
            let data = vstd::slice::slice_to_vec(ad.as_slice());
            Some(MacRequest { key: *k_e, data })
        },
        None => None,
    }
}

/// Keeps the tag of a sponge output: its last eight bytes.
pub fn mac_create(sponge: &[u8; 16]) -> (tag: [u8; 8])
    ensures
        tag@ == mac_tag(sponge@),
{
    let mut tag: [u8; 8] = [0; 8];
    let mut i: usize = 0;
    while i < 8
        invariant
            i <= 8,
            forall|j: int| 0 <= j < i ==> tag@[j] == sponge@[8 + j],
        decreases 8 - i,
    {
        tag[i] = sponge[8 + i];
        i += 1;
    }
    assert(tag@ =~= mac_tag(sponge@));
    tag
}

} // verus!
