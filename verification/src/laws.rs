//! What holds of the protocol whatever the frames and whatever the
//! sponge: stated over the state machine, with the sponge as an
//! arbitrary function from a key and data to its output.

use crate::bytes::le64;
use crate::bytes::le16;
use crate::bytes::lemma_le16_round_trip;
use crate::bytes::lemma_le64_round_trip;
use crate::codec::eid_of;
use crate::codec::lemma_parse_build;
use crate::codec::parse_eid_spec;
use crate::codec::LeiACmd;
use crate::codec::LEIA_ID_MAX;
use crate::connection::ConnectionModel;
use crate::connection::LEIA_COUNT_MAX;
use crate::connection::LEIA_EPOCH_MAX;
use crate::event::EventView;
use crate::event::Fatal;
use crate::event::ProgressView;
use crate::mac::mac_ad;
use crate::mac::mac_tag;
use crate::mac::mac_verify;
use crate::mac::MacRequestView;
use crate::mac::CAN_PAYLOAD_SIZE;
use crate::model::auth_fail_payload;
use crate::frame::FrameView;
use crate::model::coupled;
use crate::model::first_slot;
use crate::model::signal_epoch;
use crate::model::signal_id;
use crate::model::frame_pair;
use crate::model::key_jobs;
use crate::model::ContextModel;
use crate::model::JobView;
use crate::model::LEIA_AEC_SLOT;
use crate::model::LEIA_CONNECTIONS;
use vstd::prelude::*;

verus! {

/// The sponge's answer to a request.
pub open spec fn answer(mac: spec_fn(Seq<u8>, Seq<u8>) -> Seq<u8>, request: MacRequestView) -> Seq<
    u8,
> {
    mac(request.key, request.data)
}

/// Whether a connection's session key is the one of its epoch: the
/// sponge's MAC of the epoch, little-endian, under the long-term key.
pub open spec fn keyed(mac: spec_fn(Seq<u8>, Seq<u8>) -> Seq<u8>, conn: ConnectionModel) -> bool {
    conn.k_e == mac(conn.k_i, le64(conn.epoch))
}

/// After a session key has been made with the sponge's answer, it is the
/// key of the connection's epoch: a function of the long-term key and
/// the epoch alone.
pub proof fn lemma_rekeyed_is_keyed(
    mac: spec_fn(Seq<u8>, Seq<u8>) -> Seq<u8>,
    conn: ConnectionModel,
)
    requires
        conn.epoch < LEIA_EPOCH_MAX,
    ensures
        keyed(mac, conn.rekeyed(answer(mac, conn.key_request()))),
{
}

/// Every message goes out as exactly two frames, the message before its
/// tag, both with the counter that the connection had; the tag is asked
/// for under the session key of that moment and verifies under it.
pub proof fn lemma_emitted_pair_verifies(
    mac: spec_fn(Seq<u8>, Seq<u8>) -> Seq<u8>,
    context: ContextModel,
    slot: int,
    is_aec: bool,
    data: Seq<u8>,
)
    requires
        context.wf(),
        !context.idle(),
        context.agenda[0] == (JobView::Send { slot, is_aec, data }),
    ensures
        ({
            let conn = context.slots[slot];
            let request = context.request().unwrap();
            let next = context.completed(answer(mac, request));
            let data_frame = next.outbox[context.outbox.len() as int];
            let mac_frame = next.outbox[context.outbox.len() as int + 1];
            &&& request.key == conn.k_e
            &&& next.outbox.len() == context.outbox.len() + 2
            &&& next.outbox.subrange(0, context.outbox.len() as int) == context.outbox
            &&& data_frame.payload == data
            &&& data_frame.eid == eid_of(
                conn.id,
                if is_aec {
                    LeiACmd::AecEpoch
                } else {
                    LeiACmd::Data
                },
                conn.c,
            )
            &&& mac_frame.eid == eid_of(
                if is_aec {
                    conn.id
                } else {
                    (conn.id + 1) as u16
                },
                if is_aec {
                    LeiACmd::AecMac
                } else {
                    LeiACmd::Mac
                },
                conn.c,
            )
            &&& mac_verify(mac, conn.k_e, conn.id, data, conn.c, mac_frame.payload)
        }),
{
    let conn = context.slots[slot];
    let request = context.request().unwrap();
    let next = context.completed(answer(mac, request));
    let pair = frame_pair(conn, is_aec, data, mac_tag(answer(mac, request)));
    assert(next.outbox == context.outbox + pair);
    assert(next.outbox.subrange(0, context.outbox.len() as int) =~= context.outbox);
}

/// The answer to a signal goes out as exactly two frames of the
/// authentication error channel as well, with a tag that verifies under
/// the channel's session key of that moment.
pub proof fn lemma_emitted_answer_verifies(
    mac: spec_fn(Seq<u8>, Seq<u8>) -> Seq<u8>,
    context: ContextModel,
    slot: int,
    of: int,
)
    requires
        context.wf(),
        !context.idle(),
        context.agenda[0] == (JobView::SendEpoch { slot, of }),
    ensures
        ({
            let conn = context.slots[slot];
            let data = auth_fail_payload(context.slots[of].epoch, context.slots[of].id);
            let request = context.request().unwrap();
            let next = context.completed(answer(mac, request));
            let epoch_frame = next.outbox[context.outbox.len() as int];
            let mac_frame = next.outbox[context.outbox.len() as int + 1];
            &&& request.key == conn.k_e
            &&& next.outbox.len() == context.outbox.len() + 2
            &&& next.outbox.subrange(0, context.outbox.len() as int) == context.outbox
            &&& epoch_frame.payload == data
            &&& epoch_frame.eid == eid_of(conn.id, LeiACmd::AecEpoch, conn.c)
            &&& mac_frame.eid == eid_of(conn.id, LeiACmd::AecMac, conn.c)
            &&& mac_verify(mac, conn.k_e, conn.id, data, conn.c, mac_frame.payload)
        }),
{
    let conn = context.slots[slot];
    let data = auth_fail_payload(context.slots[of].epoch, context.slots[of].id);
    let request = context.request().unwrap();
    let next = context.completed(answer(mac, request));
    let pair = frame_pair(conn, true, data, mac_tag(answer(mac, request)));
    assert(next.outbox == context.outbox + pair);
    assert(next.outbox.subrange(0, context.outbox.len() as int) =~= context.outbox);
}

/// When a frame is counted at the maximum of the counter, the next
/// session key is due at once: the sponge is asked for it, or, with the
/// epoch at its maximum, the operation ends fatally. Below the maximum
/// the counter goes up by one and the epoch stays.
pub proof fn lemma_rollover(
    mac: spec_fn(Seq<u8>, Seq<u8>) -> Seq<u8>,
    context: ContextModel,
    slot: int,
    is_aec: bool,
    data: Seq<u8>,
)
    requires
        context.wf(),
        context.agenda == seq![JobView::Send { slot, is_aec, data }],
    ensures
        ({
            let conn = context.slots[slot];
            let (next, progress) = context.resumed(Some(answer(mac, context.request().unwrap())));
            &&& conn.c < LEIA_COUNT_MAX ==> progress == ProgressView::Finished(context.event)
                && next.slots[slot].c == conn.c + 1 && next.slots[slot].epoch == conn.epoch
            &&& conn.c == LEIA_COUNT_MAX && conn.epoch < LEIA_EPOCH_MAX ==> progress
                == ProgressView::NeedMac(conn.key_request()) && next.resumed(
                Some(answer(mac, conn.key_request())),
            ).0.slots[slot] == conn.rekeyed(answer(mac, conn.key_request()))
            &&& conn.c == LEIA_COUNT_MAX && conn.epoch >= LEIA_EPOCH_MAX ==> progress
                == ProgressView::Fatal(Fatal::EpochOverflow)
        }),
{
    let conn = context.slots[slot];
    let sponge = answer(mac, context.request().unwrap());
    let done = context.completed(sponge);
    assert(context.agenda[0] == (JobView::Send { slot, is_aec, data }));
    assert(context.agenda[0].wf());
    assert(context.agenda.drop_first() =~= Seq::<JobView>::empty());
    if conn.c == LEIA_COUNT_MAX {
        assert(done.agenda =~= seq![JobView::KeyGen { slot }]);
        assert(done.agenda[0] == (JobView::KeyGen { slot }));
        if conn.epoch < LEIA_EPOCH_MAX {
            let (next, progress) = done.settled();
            let after = next.completed(answer(mac, conn.key_request()));
            assert(after.slots[slot] == conn.rekeyed(answer(mac, conn.key_request())));
        }
    } else {
        assert(done.agenda =~= Seq::<JobView>::empty());
    }
}

/// The store holds one expectation for a connection at most: the tag of
/// a message received takes the place of the one that was pending, and
/// the expectations of the other connections stay.
pub proof fn lemma_one_expectation_per_connection(
    context: ContextModel,
    slot: int,
    id: u16,
    counter: u16,
    data: Seq<u8>,
    announce: bool,
    sponge: Seq<u8>,
)
    requires
        !context.idle(),
        context.agenda[0] == (JobView::Expect { slot, id, counter, data, announce }),
    ensures
        context.completed(sponge).expected.dom() == context.expected.dom().insert(id),
        context.completed(sponge).expected[id] == mac_tag(sponge),
        forall|other: u16|
            other != id && context.expected.contains_key(other) ==> context.completed(
                sponge,
            ).expected[other] == context.expected[other],
{
    assert(context.completed(sponge).expected.dom() =~= context.expected.dom().insert(id));
}

/// A message received never takes the counter back: it is accepted only
/// with a counter that is not behind the connection's own, and the
/// connection then has the counter of the message.
pub proof fn lemma_receive_keeps_counter_order(
    context: ContextModel,
    id: u16,
    counter: u16,
    msg: Seq<u8>,
    sponge: Seq<u8>,
)
    requires
        context.wf(),
        context.idle(),
        context.data_received(id, counter, msg).1 is NeedMac,
        context.slot_of(id) is Some,
        counter >= context.slots[context.slot_of(id).unwrap()].c,
    ensures
        ({
            let slot = context.slot_of(id).unwrap();
            let next = context.data_received(id, counter, msg).0.completed(sponge);
            &&& next.slots[slot].c == counter
            &&& next.slots[slot].c >= context.slots[slot].c
            &&& next.slots[slot].epoch == context.slots[slot].epoch
        }),
{
    context.lemma_slot_of(id);
    let slot = context.slot_of(id).unwrap();
    let started = context.data_received(id, counter, msg).0;
    assert(started.agenda.len() > 0);
    assert(started.agenda[0] is Expect);
}

/// The request that the context makes, where it makes one.
pub open spec fn requested(progress: ProgressView) -> MacRequestView {
    match progress {
        ProgressView::NeedMac(request) => request,
        _ => MacRequestView { key: Seq::empty(), data: Seq::empty() },
    }
}

/// Which slot a connection id names depends on the ids in the slots
/// alone.
pub proof fn lemma_first_slot_by_ids(
    a: Seq<ConnectionModel>,
    b: Seq<ConnectionModel>,
    id: u16,
    from: int,
)
    requires
        a.len() == b.len(),
        forall|i: int| 0 <= i < a.len() ==> a[i].id == b[i].id,
    ensures
        first_slot(a, id, from) == first_slot(b, id, from),
    decreases a.len() - from,
{
    if 0 <= from < a.len() && a[from].id != id {
        lemma_first_slot_by_ids(a, b, id, from + 1);
    }
}

/// A message and its tag, as one node emits them on a data connection,
/// are authenticated by a node that holds the same session key for the
/// connection and whose counter is not ahead: the message is received
/// with the sender's tag as the expectation, the tag frame meets it, and
/// the receiver has the sender's counter.
#[verifier::rlimit(40)]
pub proof fn lemma_pair_authenticates(
    mac: spec_fn(Seq<u8>, Seq<u8>) -> Seq<u8>,
    receiver: ContextModel,
    sender: ConnectionModel,
    msg: Seq<u8>,
)
    requires
        receiver.wf(),
        receiver.idle(),
        1 <= sender.id < LEIA_ID_MAX,
        msg.len() <= CAN_PAYLOAD_SIZE,
        receiver.slot_of(sender.id) is Some,
        receiver.slots[receiver.slot_of(sender.id).unwrap()].k_e == sender.k_e,
        receiver.slots[receiver.slot_of(sender.id).unwrap()].c <= sender.c,
    ensures
        ({
            let id = sender.id;
            let slot = receiver.slot_of(id).unwrap();
            let tag = mac_tag(mac(sender.k_e, mac_ad(id, msg, sender.c)));
            let pair = frame_pair(sender, false, msg, tag);
            let (r1, out1) = receiver.received(pair[0].eid, pair[0].payload);
            let (r2, out2) = r1.resumed(Some(answer(mac, requested(out1))));
            let (r3, out3) = r2.received(pair[1].eid, pair[1].payload);
            &&& out1 == ProgressView::NeedMac(
                MacRequestView { key: sender.k_e, data: mac_ad(id, msg, sender.c) },
            )
            &&& out2 == ProgressView::Finished(
                Some(
                    if receiver.expected.contains_key(id) {
                        EventView::MissingMAC(id)
                    } else {
                        EventView::Received(id, Some(tag))
                    },
                ),
            )
            &&& r2.expected[id] == tag
            &&& out3 == ProgressView::Finished(Some(EventView::Authenticated(id)))
            &&& !r3.expected.contains_key(id)
            &&& r3.slots[slot].c == sender.c
            &&& r3.idle()
        }),
{
    let id = sender.id;
    let next_id = (id + 1) as u16;
    receiver.lemma_slot_of(id);
    let slot = receiver.slot_of(id).unwrap();
    let tag = mac_tag(mac(sender.k_e, mac_ad(id, msg, sender.c)));
    let pair = frame_pair(sender, false, msg, tag);
    lemma_parse_build(id, LeiACmd::Data, sender.c);
    lemma_parse_build(next_id, LeiACmd::Mac, sender.c);
    let (r1, out1) = receiver.received(pair[0].eid, pair[0].payload);
    assert((r1, out1) == receiver.data_received(id, sender.c, msg));
    assert(r1.agenda.len() == 1);
    assert(r1.agenda[0] is Expect);
    assert(out1 == ProgressView::NeedMac(
        MacRequestView { key: sender.k_e, data: mac_ad(id, msg, sender.c) },
    ));
    let done = r1.completed(answer(mac, requested(out1)));
    assert(done.agenda =~= Seq::<JobView>::empty());
    let (r2, out2) = r1.resumed(Some(answer(mac, requested(out1))));
    assert(r2.expected[id] == tag);
    lemma_first_slot_by_ids(receiver.slots, r2.slots, id, 0);
    assert(r2.slot_of(id) == Some(slot));
    let (r3, out3) = r2.received(pair[1].eid, pair[1].payload);
    assert((r3, out3) == r2.mac_received(next_id, tag));
}

/// A signal tells the connection it refers to and, below 48 bits, the
/// epoch it was built with.
pub proof fn lemma_signal_round_trip(epoch: u64, id: u16)
    requires
        epoch < 0x1_0000_0000_0000,
    ensures
        auth_fail_payload(epoch, id).len() == CAN_PAYLOAD_SIZE,
        signal_epoch(auth_fail_payload(epoch, id)) == epoch,
        signal_id(auth_fail_payload(epoch, id)) == id,
{
    let msg = auth_fail_payload(epoch, id);
    let word = le64(epoch);
    lemma_le64_round_trip(epoch);
    lemma_le16_round_trip(id);
    assert(msg.subrange(6, 8) =~= le16(id));
    assert(msg[0] == word[0] && msg[1] == word[1] && msg[2] == word[2] && msg[3] == word[3]
        && msg[4] == word[4] && msg[5] == word[5]);
    assert(word[6] == 0 && word[7] == 0) by {
        assert((epoch / 0x1_0000_0000_0000) % 0x100 == 0 && (epoch / 0x100_0000_0000_0000) % 0x100
            == 0) by (bit_vector)
            requires
                epoch < 0x1_0000_0000_0000u64,
        ;
    }
}

/// A signal whose epoch is ahead of that of the connection it refers to
/// brings the connection into that epoch: the sponge is asked for the
/// session key of the epoch signalled and then for the tag of the
/// signal under the channel's key; after that the connection is in the
/// epoch signalled with the key of that epoch and its counter at one,
/// the tag of the signal is expected on the channel, and the
/// resynchronisation of the connection is reported.
pub proof fn lemma_resync_adopts_epoch(
    mac: spec_fn(Seq<u8>, Seq<u8>) -> Seq<u8>,
    context: ContextModel,
    channel_id: u16,
    counter: u16,
    id: u16,
    epoch: u64,
)
    requires
        context.wf(),
        context.idle(),
        context.slot_of(channel_id) is Some,
        context.slot_of(id) is Some,
        context.slot_of(id) != context.slot_of(channel_id),
        context.slots[context.slot_of(id).unwrap()].epoch < epoch < 0x1_0000_0000_0000,
    ensures
        ({
            let channel = context.slot_of(channel_id).unwrap();
            let slot = context.slot_of(id).unwrap();
            let conn = context.slots[slot];
            let msg = auth_fail_payload(epoch, id);
            let (c1, out1) = context.aec_epoch_received(channel_id, counter, msg);
            let (c2, out2) = c1.resumed(Some(answer(mac, requested(out1))));
            let (c3, out3) = c2.resumed(Some(answer(mac, requested(out2))));
            &&& out1 == ProgressView::NeedMac(MacRequestView { key: conn.k_i, data: le64(epoch) })
            &&& out2 == ProgressView::NeedMac(
                MacRequestView {
                    key: context.slots[channel].k_e,
                    data: mac_ad(channel_id, msg, counter),
                },
            )
            &&& out3 == ProgressView::Finished(Some(EventView::Resynced(id)))
            &&& c3.slots[slot] == (ConnectionModel {
                epoch,
                c: 1,
                k_e: mac(conn.k_i, le64(epoch)),
                ..conn
            })
            &&& keyed(mac, c3.slots[slot])
            &&& c3.slots[channel] == (ConnectionModel { c: counter, ..context.slots[channel] })
            &&& c3.expected == context.expected.insert(
                channel_id,
                mac_tag(mac(context.slots[channel].k_e, mac_ad(channel_id, msg, counter))),
            )
            &&& c3.signal == Some(id)
            &&& c3.outbox == context.outbox
            &&& c3.idle()
        }),
{
    context.lemma_slot_of(id);
    context.lemma_slot_of(channel_id);
    lemma_signal_round_trip(epoch, id);
    let channel = context.slot_of(channel_id).unwrap();
    let slot = context.slot_of(id).unwrap();
    let conn = context.slots[slot];
    let msg = auth_fail_payload(epoch, id);
    let job = JobView::Expect { slot: channel, id: channel_id, counter, data: msg, announce: false };
    let (c1, out1) = context.aec_epoch_received(channel_id, counter, msg);
    assert(c1.agenda =~= seq![JobView::KeyGen { slot }, job]);
    assert(c1.agenda[0] == (JobView::KeyGen { slot }));
    assert(c1.slots[slot] == conn.adopting(epoch));
    let d1 = c1.completed(answer(mac, requested(out1)));
    assert(d1.agenda =~= seq![job]);
    assert(d1.agenda[0] == job);
    let (c2, out2) = c1.resumed(Some(answer(mac, requested(out1))));
    assert(c2 == d1);
    let d2 = c2.completed(answer(mac, requested(out2)));
    assert(d2.agenda =~= Seq::<JobView>::empty());
}

/// A signal whose epoch is not ahead of that of the connection it refers
/// to leaves the connections alone: only the tag of the signal is asked
/// for.
pub proof fn lemma_stale_signal_keeps_epoch(
    context: ContextModel,
    channel_id: u16,
    counter: u16,
    id: u16,
    epoch: u64,
)
    requires
        context.wf(),
        context.idle(),
        context.slot_of(channel_id) is Some,
        context.slot_of(id) is Some,
        epoch <= context.slots[context.slot_of(id).unwrap()].epoch,
        epoch < 0x1_0000_0000_0000,
    ensures
        ({
            let channel = context.slot_of(channel_id).unwrap();
            let msg = auth_fail_payload(epoch, id);
            let (c1, out1) = context.aec_epoch_received(channel_id, counter, msg);
            &&& c1.slots == context.slots
            &&& out1 == ProgressView::NeedMac(
                MacRequestView {
                    key: context.slots[channel].k_e,
                    data: mac_ad(channel_id, msg, counter),
                },
            )
        }),
{
    context.lemma_slot_of(id);
    context.lemma_slot_of(channel_id);
    lemma_signal_round_trip(epoch, id);
    let channel = context.slot_of(channel_id).unwrap();
    let msg = auth_fail_payload(epoch, id);
    let job = JobView::Expect { slot: channel, id: channel_id, counter, data: msg, announce: false };
    let (c1, out1) = context.aec_epoch_received(channel_id, counter, msg);
    assert(c1.agenda =~= seq![job]);
    assert(c1.agenda[0] == job);
}

/// Once the tag of a signal has been authenticated, the expectation and
/// the reference are gone, the frame is counted on the channel, and the
/// connection that the signal refers to is no longer marked as awaiting
/// an answer. A connection that was so marked does not answer.
pub proof fn lemma_authenticated_signal_clears_mark(
    context: ContextModel,
    channel_id: u16,
    id: u16,
    msg: Seq<u8>,
)
    requires
        context.wf(),
        context.idle(),
        context.slot_of(channel_id) is Some,
        context.slot_of(id) is Some,
        context.slot_of(id) != context.slot_of(channel_id),
        context.expected.contains_key(channel_id),
        context.expected[channel_id] == msg,
        context.signal == Some(id),
        context.slots[context.slot_of(id).unwrap()].auth_fail_in_progress,
        !context.slots[context.slot_of(channel_id).unwrap()].exhausted(),
    ensures
        ({
            let channel = context.slot_of(channel_id).unwrap();
            let slot = context.slot_of(id).unwrap();
            let (next, progress) = context.aec_mac_received(channel_id, msg);
            &&& progress == ProgressView::Finished(Some(EventView::Authenticated(channel_id)))
            &&& next.slots[slot] == (ConnectionModel {
                auth_fail_in_progress: false,
                ..context.slots[slot]
            })
            &&& next.slots[channel] == context.slots[channel].advanced()
            &&& next.expected == context.expected.remove(channel_id)
            &&& next.signal is None
            &&& next.outbox == context.outbox
            &&& next.idle()
        }),
{
    context.lemma_slot_of(id);
    context.lemma_slot_of(channel_id);
    assert(Seq::<JobView>::empty() + Seq::<JobView>::empty() =~= Seq::<JobView>::empty());
}

/// Once the tag of a signal has been authenticated, a connection that
/// the signal refers to and that has not signalled a failure itself
/// answers: it goes into its next epoch, with the key of that epoch, and
/// that epoch goes out with the connection's id as a signal on the
/// channel, with a tag that verifies under the channel's key.
pub proof fn lemma_authenticated_signal_is_answered(
    mac: spec_fn(Seq<u8>, Seq<u8>) -> Seq<u8>,
    context: ContextModel,
    channel_id: u16,
    id: u16,
    msg: Seq<u8>,
)
    requires
        context.wf(),
        context.idle(),
        context.slot_of(channel_id) is Some,
        context.slot_of(id) is Some,
        context.slot_of(id) != context.slot_of(channel_id),
        context.expected.contains_key(channel_id),
        context.expected[channel_id] == msg,
        context.signal == Some(id),
        !context.slots[context.slot_of(id).unwrap()].auth_fail_in_progress,
        context.slots[context.slot_of(id).unwrap()].epoch < LEIA_EPOCH_MAX,
        context.slots[context.slot_of(channel_id).unwrap()].c < LEIA_COUNT_MAX - 1,
    ensures
        ({
            let channel = context.slot_of(channel_id).unwrap();
            let slot = context.slot_of(id).unwrap();
            let conn = context.slots[slot];
            let line = context.slots[channel].advanced();
            let epoch = (conn.epoch + 1) as u64;
            let signal = auth_fail_payload(epoch, id);
            let tag = mac_tag(mac(line.k_e, mac_ad(channel_id, signal, line.c)));
            let (n1, out1) = context.aec_mac_received(channel_id, msg);
            let (n2, out2) = n1.resumed(Some(answer(mac, requested(out1))));
            let (n3, out3) = n2.resumed(Some(answer(mac, requested(out2))));
            &&& out1 == ProgressView::NeedMac(conn.key_request())
            &&& out2 == ProgressView::NeedMac(
                MacRequestView { key: line.k_e, data: mac_ad(channel_id, signal, line.c) },
            )
            &&& out3 == ProgressView::Finished(Some(EventView::Authenticated(channel_id)))
            &&& n3.slots[slot] == (ConnectionModel {
                epoch,
                c: 1,
                k_e: mac(conn.k_i, le64(epoch)),
                ..conn
            })
            &&& n3.slots[channel] == line.advanced()
            &&& n3.outbox == context.outbox + frame_pair(line, true, signal, tag)
            &&& n3.expected == context.expected.remove(channel_id)
            &&& n3.signal is None
            &&& n3.idle()
        }),
{
    context.lemma_slot_of(id);
    context.lemma_slot_of(channel_id);
    let channel = context.slot_of(channel_id).unwrap();
    let slot = context.slot_of(id).unwrap();
    let conn = context.slots[slot];
    let jobs = ContextModel::response_jobs(slot, channel);
    assert(Seq::<JobView>::empty() + jobs =~= jobs);
    assert(jobs[0] == (JobView::KeyGen { slot }));
    let (n1, out1) = context.aec_mac_received(channel_id, msg);
    assert(n1.agenda == jobs);
    let d1 = n1.completed(answer(mac, requested(out1)));
    assert(d1.agenda =~= seq![JobView::SendEpoch { slot: channel, of: slot }]);
    assert(d1.agenda[0] == (JobView::SendEpoch { slot: channel, of: slot }));
    let (n2, out2) = n1.resumed(Some(answer(mac, requested(out1))));
    assert(n2 == d1);
    let d2 = n2.completed(answer(mac, requested(out2)));
    assert(d2.agenda =~= Seq::<JobView>::empty());
}

/// Whether a function gives sixteen bytes whatever the key and the
/// data, as the sponge does.
pub open spec fn sponge_like(mac: spec_fn(Seq<u8>, Seq<u8>) -> Seq<u8>) -> bool {
    forall|key: Seq<u8>, data: Seq<u8>| (#[trigger] mac(key, data)).len() == 16
}

/// What a host makes of an operation that answers every request with
/// the sponge, at most `patience` times.
pub open spec fn driven(
    mac: spec_fn(Seq<u8>, Seq<u8>) -> Seq<u8>,
    step: (ContextModel, ProgressView),
    patience: nat,
) -> (ContextModel, ProgressView)
    decreases patience,
{
    match step.1 {
        ProgressView::NeedMac(request) => if patience == 0 {
            step
        } else {
            driven(mac, step.0.resumed(Some(answer(mac, request))), (patience - 1) as nat)
        },
        _ => step,
    }
}

/// A host that answers with the sponge keeps the context well-formed.
pub proof fn lemma_driven_coupled(
    mac: spec_fn(Seq<u8>, Seq<u8>) -> Seq<u8>,
    step: (ContextModel, ProgressView),
    patience: nat,
)
    requires
        sponge_like(mac),
        coupled(step),
    ensures
        coupled(driven(mac, step, patience)),
    decreases patience,
{
    match step.1 {
        ProgressView::NeedMac(request) => {
            if patience > 0 {
                let sponge = answer(mac, request);
                step.0.lemma_resumed_coupled(Some(sponge));
                lemma_driven_coupled(mac, step.0.resumed(Some(sponge)), (patience - 1) as nat);
            }
        },
        _ => {},
    }
}

/// The last two frames that a context has emitted.
pub open spec fn last_pair(context: ContextModel) -> Seq<FrameView> {
    context.outbox.subrange(context.outbox.len() - 2, context.outbox.len() as int)
}

/// The connection after it has gone into `epoch` with the sponge.
pub open spec fn in_epoch(
    mac: spec_fn(Seq<u8>, Seq<u8>) -> Seq<u8>,
    conn: ConnectionModel,
    epoch: u64,
) -> ConnectionModel {
    ConnectionModel { epoch, c: 1, k_e: mac(conn.k_i, le64(epoch)), ..conn }
}

/// The tag of a signal on a channel.
pub open spec fn signal_tag(
    mac: spec_fn(Seq<u8>, Seq<u8>) -> Seq<u8>,
    line: ConnectionModel,
    signal: Seq<u8>,
    counter: u16,
) -> Seq<u8> {
    mac_tag(mac(line.k_e, mac_ad(line.id, signal, counter)))
}

/// The whole of signalling a failure, with a host that answers with the
/// sponge: the connection is marked and its counter zero, and the
/// signal with the channel's epoch and the connection's id has gone out
/// on the channel with a tag under the channel's key.
pub proof fn lemma_signal_goes_out(
    mac: spec_fn(Seq<u8>, Seq<u8>) -> Seq<u8>,
    context: ContextModel,
    id: u16,
)
    requires
        context.wf(),
        context.idle(),
        context.slot_of(id) is Some,
        context.slot_of(context.aec().id) is Some,
        context.slot_of(id) != context.slot_of(context.aec().id),
        !context.slots[context.slot_of(context.aec().id).unwrap()].exhausted(),
    ensures
        ({
            let slot = context.slot_of(id).unwrap();
            let channel = context.slot_of(context.aec().id).unwrap();
            let line = context.slots[channel];
            let signal = auth_fail_payload(context.aec().epoch, id);
            driven(mac, context.auth_fail_sent(id), 4) == (
                ContextModel {
                    slots: context.slots.update(
                        slot,
                        ConnectionModel { c: 0, auth_fail_in_progress: true, ..context.slots[slot] },
                    ).update(channel, line.advanced()),
                    outbox: context.outbox + frame_pair(
                        line,
                        true,
                        signal,
                        signal_tag(mac, line, signal, line.c),
                    ),
                    ..context
                },
                ProgressView::Finished(None),
            )
        }),
{
    reveal_with_fuel(driven, 3);
    context.lemma_slot_of(id);
    context.lemma_slot_of(context.aec().id);
    let slot = context.slot_of(id).unwrap();
    let channel = context.slot_of(context.aec().id).unwrap();
    let line = context.slots[channel];
    let signal = auth_fail_payload(context.aec().epoch, id);
    let job = JobView::Send { slot: channel, is_aec: true, data: signal };
    let start = context.failing(id, None).unwrap();
    assert(start.agenda[0] == job);
    let (c1, out1) = context.auth_fail_sent(id);
    let done = c1.completed(answer(mac, requested(out1)));
    assert(done.agenda =~= Seq::<JobView>::empty());
    let (c2, out2) = c1.resumed(Some(answer(mac, requested(out1))));
    assert(c2.agenda =~= context.agenda);
    assert(c2 == ContextModel {
        slots: context.slots.update(
            slot,
            ConnectionModel { c: 0, auth_fail_in_progress: true, ..context.slots[slot] },
        ).update(channel, line.advanced()),
        outbox: context.outbox + frame_pair(
            line,
            true,
            signal,
            signal_tag(mac, line, signal, line.c),
        ),
        ..context
    });
}

/// The whole of receiving a signal, with a host that answers with the
/// sponge: the connection referred to is in the epoch signalled if that
/// was ahead, and as before if not; the channel has the counter of the
/// signal; the tag of the signal is expected and the connection
/// referred to kept in mind.
#[verifier::rlimit(40)]
pub proof fn lemma_signal_taken(
    mac: spec_fn(Seq<u8>, Seq<u8>) -> Seq<u8>,
    context: ContextModel,
    channel_id: u16,
    counter: u16,
    id: u16,
    epoch: u64,
)
    requires
        context.wf(),
        context.idle(),
        context.slot_of(channel_id) is Some,
        context.slot_of(id) is Some,
        context.slot_of(id) != context.slot_of(channel_id),
        epoch < 0x1_0000_0000_0000,
    ensures
        ({
            let channel = context.slot_of(channel_id).unwrap();
            let slot = context.slot_of(id).unwrap();
            let conn = context.slots[slot];
            let line = context.slots[channel];
            let signal = auth_fail_payload(epoch, id);
            driven(mac, context.aec_epoch_received(channel_id, counter, signal), 4) == (
                ContextModel {
                    slots: context.slots.update(
                        slot,
                        if epoch > conn.epoch {
                            in_epoch(mac, conn, epoch)
                        } else {
                            conn
                        },
                    ).update(channel, ConnectionModel { c: counter, ..line }),
                    expected: context.expected.insert(
                        channel_id,
                        signal_tag(mac, line, signal, counter),
                    ),
                    signal: Some(id),
                    ..context
                },
                ProgressView::Finished(Some(EventView::Resynced(id))),
            )
        }),
{
    reveal_with_fuel(driven, 4);
    context.lemma_slot_of(id);
    context.lemma_slot_of(channel_id);
    lemma_signal_round_trip(epoch, id);
    let channel = context.slot_of(channel_id).unwrap();
    let slot = context.slot_of(id).unwrap();
    let conn = context.slots[slot];
    let line = context.slots[channel];
    let signal = auth_fail_payload(epoch, id);
    let job = JobView::Expect { slot: channel, id: channel_id, counter, data: signal, announce: false };
    let (c1, out1) = context.aec_epoch_received(channel_id, counter, signal);
    let goal = ContextModel {
        slots: context.slots.update(
            slot,
            if epoch > conn.epoch {
                in_epoch(mac, conn, epoch)
            } else {
                conn
            },
        ).update(channel, ConnectionModel { c: counter, ..line }),
        expected: context.expected.insert(channel_id, signal_tag(mac, line, signal, counter)),
        signal: Some(id),
        ..context
    };
    if epoch > conn.epoch {
        assert(c1.agenda =~= seq![JobView::KeyGen { slot }, job]);
        assert(c1.agenda[0] == (JobView::KeyGen { slot }));
        assert(c1.slots[slot] == conn.adopting(epoch));
        let d1 = c1.completed(answer(mac, requested(out1)));
        assert(d1.agenda =~= seq![job]);
        assert(d1.agenda[0] == job);
        let (c2, out2) = c1.resumed(Some(answer(mac, requested(out1))));
        assert(c2 == d1);
        let d2 = c2.completed(answer(mac, requested(out2)));
        assert(d2.agenda =~= Seq::<JobView>::empty());
        let (c3, out3) = c2.resumed(Some(answer(mac, requested(out2))));
        assert(c3.agenda =~= context.agenda);
        assert(c3.slots =~= goal.slots);
        assert(c3 == goal);
    } else {
        assert(c1.agenda =~= seq![job]);
        assert(c1.agenda[0] == job);
        let d1 = c1.completed(answer(mac, requested(out1)));
        assert(d1.agenda =~= Seq::<JobView>::empty());
        let (c2, out2) = c1.resumed(Some(answer(mac, requested(out1))));
        assert(c2.agenda =~= context.agenda);
        assert(c2.slots =~= goal.slots);
        assert(c2 == goal);
    }
}

/// The whole of receiving the right tag of a signal, with a host that
/// answers with the sponge: the expectation and the reference are
/// gone and the signal is authenticated. A connection referred to that
/// had signalled a failure itself is no longer marked, and no answer
/// goes out. Any other goes into its next epoch, and the answer with
/// that epoch and the connection's id has gone out on the channel.
#[verifier::rlimit(40)]
pub proof fn lemma_signal_authenticated(
    mac: spec_fn(Seq<u8>, Seq<u8>) -> Seq<u8>,
    context: ContextModel,
    channel_id: u16,
    id: u16,
    msg: Seq<u8>,
)
    requires
        context.wf(),
        context.idle(),
        context.slot_of(channel_id) is Some,
        context.slot_of(id) is Some,
        context.slot_of(id) != context.slot_of(channel_id),
        context.expected.contains_key(channel_id),
        context.expected[channel_id] == msg,
        context.signal == Some(id),
        context.slots[context.slot_of(id).unwrap()].epoch < LEIA_EPOCH_MAX,
        context.slots[context.slot_of(channel_id).unwrap()].c < LEIA_COUNT_MAX - 1,
    ensures
        ({
            let channel = context.slot_of(channel_id).unwrap();
            let slot = context.slot_of(id).unwrap();
            let conn = context.slots[slot];
            let line = context.slots[channel].advanced();
            let epoch = (conn.epoch + 1) as u64;
            let signal = auth_fail_payload(epoch, id);
            driven(mac, context.aec_mac_received(channel_id, msg), 4) == (
                if conn.auth_fail_in_progress {
                    ContextModel {
                        slots: context.slots.update(channel, line).update(
                            slot,
                            ConnectionModel { auth_fail_in_progress: false, ..conn },
                        ),
                        expected: context.expected.remove(channel_id),
                        signal: None,
                        ..context
                    }
                } else {
                    ContextModel {
                        slots: context.slots.update(channel, line.advanced()).update(
                            slot,
                            in_epoch(mac, conn, epoch),
                        ),
                        expected: context.expected.remove(channel_id),
                        signal: None,
                        outbox: context.outbox + frame_pair(
                            line,
                            true,
                            signal,
                            signal_tag(mac, line, signal, line.c),
                        ),
                        ..context
                    }
                },
                ProgressView::Finished(Some(EventView::Authenticated(channel_id))),
            )
        }),
{
    reveal_with_fuel(driven, 4);
    context.lemma_slot_of(id);
    context.lemma_slot_of(channel_id);
    let channel = context.slot_of(channel_id).unwrap();
    let slot = context.slot_of(id).unwrap();
    let conn = context.slots[slot];
    let line = context.slots[channel].advanced();
    let epoch = (conn.epoch + 1) as u64;
    let signal = auth_fail_payload(epoch, id);
    let (n1, out1) = context.aec_mac_received(channel_id, msg);
    if conn.auth_fail_in_progress {
        assert(Seq::<JobView>::empty() + Seq::<JobView>::empty() =~= Seq::<JobView>::empty());
        assert(n1.agenda =~= context.agenda);
        assert(n1 == ContextModel {
            slots: context.slots.update(channel, line).update(
                slot,
                ConnectionModel { auth_fail_in_progress: false, ..conn },
            ),
            expected: context.expected.remove(channel_id),
            signal: None,
            ..context
        });
    } else {
        let jobs = ContextModel::response_jobs(slot, channel);
        assert(Seq::<JobView>::empty() + jobs =~= jobs);
        assert(jobs[0] == (JobView::KeyGen { slot }));
        assert(n1.agenda == jobs);
        let d1 = n1.completed(answer(mac, requested(out1)));
        assert(d1.agenda =~= seq![JobView::SendEpoch { slot: channel, of: slot }]);
        assert(d1.agenda[0] == (JobView::SendEpoch { slot: channel, of: slot }));
        let (n2, out2) = n1.resumed(Some(answer(mac, requested(out1))));
        assert(n2 == d1);
        let d2 = n2.completed(answer(mac, requested(out2)));
        assert(d2.agenda =~= Seq::<JobView>::empty());
        let (n3, out3) = n2.resumed(Some(answer(mac, requested(out2))));
        let goal = ContextModel {
            slots: context.slots.update(channel, line.advanced()).update(
                slot,
                in_epoch(mac, conn, epoch),
            ),
            expected: context.expected.remove(channel_id),
            signal: None,
            outbox: context.outbox + frame_pair(
                line,
                true,
                signal,
                signal_tag(mac, line, signal, line.c),
            ),
            ..context
        };
        assert(n3.agenda =~= context.agenda);
        assert(n3.slots =~= goal.slots);
        assert(n3 == goal);
    }
}

/// Contexts whose slots hold the same ids name the same slots.
pub proof fn lemma_slot_of_by_ids(a: ContextModel, b: ContextModel, id: u16)
    requires
        a.slots.len() == b.slots.len(),
        forall|i: int| 0 <= i < a.slots.len() ==> a.slots[i].id == b.slots[i].id,
    ensures
        a.slot_of(id) == b.slot_of(id),
{
    lemma_first_slot_by_ids(a.slots, b.slots, id, 0);
}

/// The connection that a signal refers to, once the signal is taken: in
/// the epoch signalled if that was ahead, and as before if not.
pub open spec fn resynced(
    mac: spec_fn(Seq<u8>, Seq<u8>) -> Seq<u8>,
    conn: ConnectionModel,
    epoch: u64,
) -> ConnectionModel {
    if epoch > conn.epoch {
        in_epoch(mac, conn, epoch)
    } else {
        conn
    }
}

/// The whole of receiving a signal and its tag as a peer has emitted
/// them on a channel for which both nodes hold the same session key,
/// with a host that answers with the sponge. The signal is taken and
/// authenticated. A connection referred to that had signalled a failure
/// itself then is resynchronised and no longer marked, and nothing goes
/// out. Any other is one epoch further, and the answer with that epoch
/// has gone out on the channel, under the counter behind the signal's.
#[verifier::rlimit(40)]
pub proof fn lemma_signal_pair_received(
    mac: spec_fn(Seq<u8>, Seq<u8>) -> Seq<u8>,
    context: ContextModel,
    line: ConnectionModel,
    id: u16,
    epoch: u64,
)
    requires
        sponge_like(mac),
        context.wf(),
        context.idle(),
        line.wf(),
        context.slot_of(line.id) is Some,
        context.slot_of(id) is Some,
        context.slot_of(id) != context.slot_of(line.id),
        context.slots[context.slot_of(line.id).unwrap()].k_e == line.k_e,
        line.c < LEIA_COUNT_MAX - 1,
        epoch < 0x1_0000_0000_0000,
        context.slots[context.slot_of(id).unwrap()].epoch < LEIA_EPOCH_MAX,
    ensures
        ({
            let channel = context.slot_of(line.id).unwrap();
            let slot = context.slot_of(id).unwrap();
            let conn = context.slots[slot];
            let signal = auth_fail_payload(epoch, id);
            let pair = frame_pair(line, true, signal, signal_tag(mac, line, signal, line.c));
            let taken = driven(mac, context.received(pair[0].eid, pair[0].payload), 4);
            let done = driven(mac, taken.0.received(pair[1].eid, pair[1].payload), 4);
            let adopted = resynced(mac, conn, epoch);
            let ours = (ConnectionModel { c: line.c, ..context.slots[channel] }).advanced();
            let next = (adopted.epoch + 1) as u64;
            let answer = auth_fail_payload(next, id);
            &&& taken.1 == ProgressView::Finished(Some(EventView::Resynced(id)))
            &&& done.1 == ProgressView::Finished(Some(EventView::Authenticated(line.id)))
            &&& done.0.wf()
            &&& done.0.idle()
            &&& done.0.slots.len() == context.slots.len()
            &&& forall|i: int|
                0 <= i < context.slots.len() ==> (#[trigger] done.0.slots[i]).id
                    == context.slots[i].id
            &&& done.0.signal is None
            &&& conn.auth_fail_in_progress ==> {
                &&& done.0.slots[slot] == (ConnectionModel {
                    auth_fail_in_progress: false,
                    ..adopted
                })
                &&& done.0.slots[channel] == ours
                &&& done.0.outbox == context.outbox
            }
            &&& !conn.auth_fail_in_progress ==> {
                &&& done.0.slots[slot] == in_epoch(mac, adopted, next)
                &&& done.0.slots[channel] == ours.advanced()
                &&& done.0.outbox == context.outbox + frame_pair(
                    ours,
                    true,
                    answer,
                    signal_tag(mac, ours, answer, ours.c),
                )
            }
        }),
{
    let channel = context.slot_of(line.id).unwrap();
    let slot = context.slot_of(id).unwrap();
    let signal = auth_fail_payload(epoch, id);
    let tag = signal_tag(mac, line, signal, line.c);
    let pair = frame_pair(line, true, signal, tag);
    context.lemma_slot_of(id);
    context.lemma_slot_of(line.id);
    lemma_parse_build(line.id, LeiACmd::AecEpoch, line.c);
    lemma_parse_build(line.id, LeiACmd::AecMac, line.c);
    assert(context.received(pair[0].eid, pair[0].payload) == context.aec_epoch_received(
        line.id,
        line.c,
        signal,
    ));

    lemma_signal_taken(mac, context, line.id, line.c, id, epoch);
    context.lemma_received_coupled(pair[0].eid, pair[0].payload);
    lemma_driven_coupled(mac, context.received(pair[0].eid, pair[0].payload), 4);
    let taken = driven(mac, context.received(pair[0].eid, pair[0].payload), 4);
    assert(taken.0.wf());
    assert(taken.0.agenda == context.agenda);
    assert(taken.0.idle());
    lemma_slot_of_by_ids(context, taken.0, id);
    lemma_slot_of_by_ids(context, taken.0, line.id);
    assert(signal_tag(mac, context.slots[channel], signal, line.c) == tag);
    assert(taken.0.expected[line.id] == tag);
    assert(taken.0.received(pair[1].eid, pair[1].payload) == taken.0.aec_mac_received(
        line.id,
        tag,
    ));

    lemma_signal_authenticated(mac, taken.0, line.id, id, tag);
    taken.0.lemma_received_coupled(pair[1].eid, pair[1].payload);
    lemma_driven_coupled(mac, taken.0.received(pair[1].eid, pair[1].payload), 4);
}

/// The epoch that a responder answers a signal with: one above the
/// higher of its own epoch for the connection and the epoch signalled.
pub open spec fn answered_epoch(own: u64, signalled: u64) -> int {
    if signalled > own {
        signalled + 1
    } else {
        own + 1
    }
}

/// A failure signalled and answered brings both nodes into the same
/// epoch. The initiator signals a failure of a connection; the
/// responder, whose channel has the initiator's session key and which
/// has not signalled a failure of the connection itself, authenticates
/// the signal and answers with its next epoch for the connection; the
/// initiator authenticates the answer. Where the epoch answered is ahead
/// of the initiator's own and the epochs on the wire fit 48 bits, the
/// connection then is in the same epoch on both nodes, with the same
/// session key where the long-term keys are the same; the initiator is
/// no longer marked as awaiting an answer and sends nothing more.
#[verifier::rlimit(40)]
pub proof fn lemma_failure_round_trip(
    mac: spec_fn(Seq<u8>, Seq<u8>) -> Seq<u8>,
    initiator: ContextModel,
    responder: ContextModel,
    id: u16,
)
    requires
        sponge_like(mac),
        initiator.wf(),
        initiator.idle(),
        responder.wf(),
        responder.idle(),
        initiator.slot_of(id) is Some,
        initiator.slot_of(initiator.aec().id) is Some,
        initiator.slot_of(id) != initiator.slot_of(initiator.aec().id),
        responder.slot_of(id) is Some,
        responder.slot_of(initiator.aec().id) is Some,
        responder.slot_of(id) != responder.slot_of(initiator.aec().id),
        initiator.slots[initiator.slot_of(initiator.aec().id).unwrap()].k_e
            == responder.slots[responder.slot_of(initiator.aec().id).unwrap()].k_e,
        initiator.slots[initiator.slot_of(initiator.aec().id).unwrap()].c < LEIA_COUNT_MAX - 2,
        !responder.slots[responder.slot_of(id).unwrap()].auth_fail_in_progress,
        initiator.aec().epoch < 0x1_0000_0000_0000,
        answered_epoch(
            responder.slots[responder.slot_of(id).unwrap()].epoch,
            initiator.aec().epoch,
        ) < 0x1_0000_0000_0000,
        answered_epoch(
            responder.slots[responder.slot_of(id).unwrap()].epoch,
            initiator.aec().epoch,
        ) > initiator.slots[initiator.slot_of(id).unwrap()].epoch,
    ensures
        ({
            let channel_id = initiator.aec().id;
            let ours = initiator.slot_of(id).unwrap();
            let theirs = responder.slot_of(id).unwrap();
            let signalling = driven(mac, initiator.auth_fail_sent(id), 4);
            let signal = last_pair(signalling.0);
            let taken = driven(
                mac,
                responder.received(signal[0].eid, signal[0].payload),
                4,
            );
            let answering = driven(mac, taken.0.received(signal[1].eid, signal[1].payload), 4);
            let reply = last_pair(answering.0);
            let adopted = driven(mac, signalling.0.received(reply[0].eid, reply[0].payload), 4);
            let settled = driven(mac, adopted.0.received(reply[1].eid, reply[1].payload), 4);
            &&& signalling.1 == ProgressView::Finished(None)
            &&& signalling.0.slots[ours].auth_fail_in_progress
            &&& taken.1 == ProgressView::Finished(Some(EventView::Resynced(id)))
            &&& answering.1 == ProgressView::Finished(Some(EventView::Authenticated(channel_id)))
            &&& adopted.1 == ProgressView::Finished(Some(EventView::Resynced(id)))
            &&& settled.1 == ProgressView::Finished(Some(EventView::Authenticated(channel_id)))
            &&& settled.0.slots[ours].epoch == answering.0.slots[theirs].epoch
            &&& settled.0.slots[ours].epoch == answered_epoch(
                responder.slots[theirs].epoch,
                initiator.aec().epoch,
            )
            &&& initiator.slots[ours].k_i == responder.slots[theirs].k_i
                ==> settled.0.slots[ours].k_e == answering.0.slots[theirs].k_e
            &&& !settled.0.slots[ours].auth_fail_in_progress
            &&& settled.0.outbox == signalling.0.outbox
            &&& settled.0.idle()
            &&& answering.0.idle()
        }),
{
    let channel_id = initiator.aec().id;
    let line_i = initiator.slots[initiator.slot_of(channel_id).unwrap()];
    let line_r = responder.slots[responder.slot_of(channel_id).unwrap()];
    let theirs = responder.slot_of(id).unwrap();
    let epoch = answered_epoch(responder.slots[theirs].epoch, initiator.aec().epoch) as u64;
    initiator.lemma_slot_of(id);
    initiator.lemma_slot_of(channel_id);
    responder.lemma_slot_of(id);
    responder.lemma_slot_of(channel_id);
    assert(line_i.wf() && line_r.wf() && responder.slots[theirs].wf());

    // the initiator signals
    lemma_signal_goes_out(mac, initiator, id);
    initiator.lemma_auth_fail_sent_coupled(id);
    lemma_driven_coupled(mac, initiator.auth_fail_sent(id), 4);
    let signalling = driven(mac, initiator.auth_fail_sent(id), 4);
    let first = auth_fail_payload(initiator.aec().epoch, id);
    assert(last_pair(signalling.0) =~= frame_pair(
        line_i,
        true,
        first,
        signal_tag(mac, line_i, first, line_i.c),
    ));
    lemma_slot_of_by_ids(initiator, signalling.0, id);
    lemma_slot_of_by_ids(initiator, signalling.0, channel_id);

    // the responder takes the signal and answers
    lemma_signal_pair_received(mac, responder, line_i, id, initiator.aec().epoch);
    let line_a = (ConnectionModel { c: line_i.c, ..line_r }).advanced();
    let taken = driven(
        mac,
        responder.received(last_pair(signalling.0)[0].eid, last_pair(signalling.0)[0].payload),
        4,
    );
    let answering = driven(
        mac,
        taken.0.received(last_pair(signalling.0)[1].eid, last_pair(signalling.0)[1].payload),
        4,
    );
    let second = auth_fail_payload(epoch, id);
    assert(last_pair(answering.0) =~= frame_pair(
        line_a,
        true,
        second,
        signal_tag(mac, line_a, second, line_a.c),
    ));

    // the initiator takes the answer
    lemma_signal_pair_received(mac, signalling.0, line_a, id, epoch);
}

/// The slot whose next session key is the step in front of the agenda.
pub open spec fn rekeying(context: ContextModel) -> Option<int> {
    if context.agenda.len() > 0 {
        match context.agenda[0] {
            JobView::KeyGen { slot } => Some(slot),
            _ => None,
        }
    } else {
        None
    }
}

/// Whether every connection that has been in an epoch holds the session
/// key of its epoch.
pub open spec fn all_keyed(mac: spec_fn(Seq<u8>, Seq<u8>) -> Seq<u8>, context: ContextModel) -> bool {
    forall|i: int|
        0 <= i < context.slots.len() && (#[trigger] context.slots[i]).epoch > 0 ==> keyed(
            mac,
            context.slots[i],
        )
}

/// Whether every connection that has been in an epoch holds the session
/// key of its epoch, but for the one whose next session key is being
/// asked for.
pub open spec fn keys_in_step(
    mac: spec_fn(Seq<u8>, Seq<u8>) -> Seq<u8>,
    context: ContextModel,
) -> bool {
    forall|i: int|
        0 <= i < context.slots.len() && (#[trigger] context.slots[i]).epoch > 0 && rekeying(
            context,
        ) != Some(i) ==> keyed(mac, context.slots[i])
}

/// While no operation is under way, keys in step means that every
/// connection that has been in an epoch holds the session key of its
/// epoch: the sponge's MAC of the epoch under the long-term key.
pub proof fn lemma_idle_keys_in_step(
    mac: spec_fn(Seq<u8>, Seq<u8>) -> Seq<u8>,
    context: ContextModel,
)
    requires
        keys_in_step(mac, context),
        context.idle(),
    ensures
        all_keyed(mac, context),
        forall|i: int|
            0 <= i < context.slots.len() && (#[trigger] context.slots[i]).epoch > 0
                ==> context.slots[i].k_e == mac(context.slots[i].k_i, le64(context.slots[i].epoch)),
{
}

/// Settling keeps the session keys in step with the epochs, provided
/// that a context which gives its operation up has no key pending.
pub proof fn lemma_settled_keys_in_step(
    mac: spec_fn(Seq<u8>, Seq<u8>) -> Seq<u8>,
    context: ContextModel,
)
    requires
        keys_in_step(mac, context),
        context.agenda.len() > 0 && context.request() is Err ==> all_keyed(mac, context),
    ensures
        keys_in_step(mac, context.settled().0),
{
    let next = context.settled().0;
    assert forall|i: int|
        0 <= i < next.slots.len() && (#[trigger] next.slots[i]).epoch > 0 && rekeying(next) != Some(
            i,
        ) implies keyed(mac, next.slots[i]) by {
        assert(next.slots[i] == context.slots[i]);
    }
}

/// A step that acts on the sponge's answer to its request leaves every
/// connection with the session key of its epoch: the key made is that
/// of the new epoch, and no other step touches a key or an epoch.
pub proof fn lemma_resumed_keys_in_step(
    mac: spec_fn(Seq<u8>, Seq<u8>) -> Seq<u8>,
    context: ContextModel,
)
    requires
        context.wf(),
        !context.idle(),
        keys_in_step(mac, context),
    ensures
        all_keyed(mac, context.resumed(Some(answer(mac, context.request().unwrap()))).0),
        keys_in_step(mac, context.resumed(Some(answer(mac, context.request().unwrap()))).0),
{
    let sponge = answer(mac, context.request().unwrap());
    let done = context.completed(sponge);
    let next = context.resumed(Some(sponge)).0;
    assert(context.agenda[0].wf());
    assert forall|i: int| 0 <= i < done.slots.len() && (#[trigger] done.slots[i]).epoch > 0 implies keyed(
        mac,
        done.slots[i],
    ) by {
        let before = context.slots[i];
        match context.agenda[0] {
            JobView::KeyGen { slot } => {
                if i != slot {
                    assert(done.slots[i] == before);
                }
            },
            JobView::Expect { slot, id, counter, data, announce } => {
                assert(done.slots[i].k_e == before.k_e && done.slots[i].epoch == before.epoch);
            },
            JobView::Send { slot, is_aec, data } => {
                assert(done.slots[i].k_e == before.k_e && done.slots[i].epoch == before.epoch);
            },
            JobView::SendEpoch { slot, of } => {
                assert(done.slots[i].k_e == before.k_e && done.slots[i].epoch == before.epoch);
            },
        }
    }
    assert forall|i: int| 0 <= i < next.slots.len() && (#[trigger] next.slots[i]).epoch > 0 implies keyed(
        mac,
        next.slots[i],
    ) by {
        assert(next.slots[i] == done.slots[i]);
    }
}

/// A host that answers with the sponge keeps the session keys in step
/// with the epochs.
pub proof fn lemma_driven_keys_in_step(
    mac: spec_fn(Seq<u8>, Seq<u8>) -> Seq<u8>,
    step: (ContextModel, ProgressView),
    patience: nat,
)
    requires
        sponge_like(mac),
        coupled(step),
        keys_in_step(mac, step.0),
    ensures
        keys_in_step(mac, driven(mac, step, patience).0),
    decreases patience,
{
    match step.1 {
        ProgressView::NeedMac(request) => {
            if patience > 0 {
                let sponge = answer(mac, request);
                lemma_resumed_keys_in_step(mac, step.0);
                step.0.lemma_resumed_coupled(Some(sponge));
                let next = step.0.resumed(Some(sponge));
                lemma_driven_keys_in_step(mac, next, (patience - 1) as nat);
            }
        },
        _ => {},
    }
}

/// Whether two contexts hold the same keys in the same epochs.
pub open spec fn same_keys(a: ContextModel, b: ContextModel) -> bool {
    &&& a.slots.len() == b.slots.len()
    &&& forall|i: int|
        0 <= i < a.slots.len() ==> (#[trigger] a.slots[i]).k_i == b.slots[i].k_i && a.slots[i].k_e
            == b.slots[i].k_e && a.slots[i].epoch == b.slots[i].epoch
}

/// Settling a context that holds the keys of one in which every
/// connection has the session key of its epoch keeps the keys in step.
pub proof fn lemma_same_keys_settled(
    mac: spec_fn(Seq<u8>, Seq<u8>) -> Seq<u8>,
    before: ContextModel,
    after: ContextModel,
)
    requires
        all_keyed(mac, before),
        same_keys(before, after),
    ensures
        all_keyed(mac, after),
        keys_in_step(mac, after),
        keys_in_step(mac, after.settled().0),
{
    assert forall|i: int| 0 <= i < after.slots.len() && (#[trigger] after.slots[i]).epoch > 0 implies keyed(
        mac,
        after.slots[i],
    ) by {
        assert(before.slots[i].epoch > 0);
    }
    lemma_settled_keys_in_step(mac, after);
}

/// Taking an epoch over keeps the session keys in step with the epochs:
/// the connection that takes it over is the one whose session key is
/// asked for next.
pub proof fn lemma_adopting_keys_in_step(
    mac: spec_fn(Seq<u8>, Seq<u8>) -> Seq<u8>,
    context: ContextModel,
    slot: int,
    epoch: u64,
    then: Seq<JobView>,
    event: Option<EventView>,
)
    requires
        all_keyed(mac, context),
        context.slots.len() == 17,
        0 <= slot <= 16,
        context.adopting(slot, epoch, then, event) is Some,
    ensures
        keys_in_step(mac, context.adopting(slot, epoch, then, event).unwrap().settled().0),
{
    let next = context.adopting(slot, epoch, then, event).unwrap();
    if epoch <= context.slots[slot].epoch {
        assert(same_keys(context, next));
        lemma_same_keys_settled(mac, context, next);
    } else {
        assert(next.agenda[0] == (JobView::KeyGen { slot }));
        assert forall|i: int|
            0 <= i < next.slots.len() && (#[trigger] next.slots[i]).epoch > 0 && rekeying(next)
                != Some(i) implies keyed(mac, next.slots[i]) by {
            assert(next.slots[i] == context.slots[i]);
        }
        lemma_settled_keys_in_step(mac, next);
    }
}

/// Receiving a frame keeps the session keys in step with the epochs.
pub proof fn lemma_received_keys_in_step(
    mac: spec_fn(Seq<u8>, Seq<u8>) -> Seq<u8>,
    context: ContextModel,
    eid: u32,
    msg: Seq<u8>,
)
    requires
        context.wf(),
        context.idle(),
        keys_in_step(mac, context),
    ensures
        keys_in_step(mac, context.received(eid, msg).0),
{
    lemma_idle_keys_in_step(mac, context);
    let next = context.received(eid, msg).0;
    match parse_eid_spec(eid) {
        None => {},
        Some((id, LeiACmd::Data, counter)) => {
            context.lemma_slot_of(id);
            context.lemma_slot_of(context.aec().id);
            if context.slot_of(id) is Some {
                let slot = context.slot_of(id).unwrap();
                if counter < context.slots[slot].c {
                    let failed = context.failing(id, Some(EventView::Desync(id)));
                    if failed is Some {
                        let start = ContextModel {
                            expected: context.expected.remove(id),
                            ..failed.unwrap()
                        };
                        assert(same_keys(context, start));
                        lemma_same_keys_settled(mac, context, start);
                    }
                } else if msg.len() <= CAN_PAYLOAD_SIZE {
                    let announce = !context.expected.contains_key(id);
                    let start = context.with_agenda(
                        seq![JobView::Expect { slot, id, counter, data: msg, announce }],
                        if announce {
                            Some(EventView::Received(id, None))
                        } else {
                            Some(EventView::MissingMAC(id))
                        },
                    );
                    assert(same_keys(context, start));
                    lemma_same_keys_settled(mac, context, start);
                }
            }
        },
        Some((id, LeiACmd::Mac, counter)) => {
            let msg_id = (id - 1) as u16;
            context.lemma_slot_of(msg_id);
            context.lemma_slot_of(context.aec().id);
            let failed = context.failing(msg_id, Some(EventView::IncorrectMAC(msg_id)));
            if failed is Some {
                let start = ContextModel {
                    expected: context.expected.remove(msg_id),
                    ..failed.unwrap()
                };
                assert(same_keys(context, start));
                lemma_same_keys_settled(mac, context, start);
            }
            assert(same_keys(context, next));
            lemma_same_keys_settled(mac, context, next);
        },
        Some((id, LeiACmd::AecEpoch, counter)) => {
            context.lemma_slot_of(id);
            if context.slot_of(id) is Some && msg.len() == CAN_PAYLOAD_SIZE {
                let channel = context.slot_of(id).unwrap();
                let referred = signal_id(msg);
                context.lemma_slot_of(referred);
                if context.slot_of(referred) is Some {
                    let slot = context.slot_of(referred).unwrap();
                    let marked = ContextModel { signal: Some(referred), ..context };
                    let then = seq![
                        JobView::Expect { slot: channel, id, counter, data: msg, announce: false },
                    ];
                    let event = Some(EventView::Resynced(referred));
                    assert(same_keys(context, marked));
                    lemma_same_keys_settled(mac, context, marked);
                    if marked.adopting(slot, signal_epoch(msg), then, event) is Some {
                        lemma_adopting_keys_in_step(
                            mac,
                            marked,
                            slot,
                            signal_epoch(msg),
                            then,
                            event,
                        );
                    }
                }
            }
        },
        Some((id, LeiACmd::AecMac, counter)) => {
            context.lemma_slot_of(id);
            if context.signal is Some {
                context.lemma_slot_of(context.signal.unwrap());
            }
            let dropped = ContextModel {
                expected: context.expected.remove(id),
                signal: None,
                ..context
            };
            if context.expected.contains_key(id) && context.expected[id] == msg && context.slot_of(
                id,
            ) is Some {
                let channel = context.slot_of(id).unwrap();
                let counted = if context.slots[channel].exhausted() {
                    dropped
                } else {
                    dropped.with_slot(channel, context.slots[channel].advanced())
                };
                let rollover = if context.slots[channel].exhausted() {
                    seq![JobView::KeyGen { slot: channel }]
                } else {
                    Seq::empty()
                };
                let event = Some(EventView::Authenticated(id));
                match context.signalled_slot() {
                    None => {
                        let start = counted.with_agenda(rollover, event);
                        assert(same_keys(context, start));
                        lemma_same_keys_settled(mac, context, start);
                    },
                    Some(slot) => {
                        let response = if counted.slots[slot].auth_fail_in_progress {
                            Seq::empty()
                        } else {
                            ContextModel::response_jobs(slot, channel)
                        };
                        let start = counted.with_slot(
                            slot,
                            ConnectionModel { auth_fail_in_progress: false, ..counted.slots[slot] },
                        ).with_agenda(rollover + response, event);
                        assert(same_keys(context, start));
                        lemma_same_keys_settled(mac, context, start);
                    },
                }
            } else {
                assert(same_keys(context, next));
                lemma_same_keys_settled(mac, context, next);
            }
        },
    }
}

/// Bringing up, sending, signalling a failure, taking an epoch over and
/// answering a signal keep the session keys in step with the epochs.
pub proof fn lemma_operations_keep_keys_in_step(
    mac: spec_fn(Seq<u8>, Seq<u8>) -> Seq<u8>,
    context: ContextModel,
    id: u16,
    msg: Seq<u8>,
    is_aec: bool,
    epoch: u64,
)
    requires
        context.wf(),
        context.idle(),
        keys_in_step(mac, context),
    ensures
        keys_in_step(mac, context.initialized().0),
        keys_in_step(mac, context.auth_sent(id, msg, is_aec).0),
        keys_in_step(mac, context.auth_fail_sent(id).0),
        keys_in_step(mac, context.auth_fail_received(id, epoch).0),
        keys_in_step(mac, context.auth_fail_response_sent(id).0),
{
    lemma_idle_keys_in_step(mac, context);
    context.lemma_slot_of(id);
    context.lemma_slot_of(context.aec().id);
    let start = context.with_agenda(
        key_jobs(context.slots, LEIA_CONNECTIONS as int).push(
            JobView::KeyGen { slot: LEIA_AEC_SLOT as int },
        ),
        None,
    );
    assert(same_keys(context, start));
    lemma_same_keys_settled(mac, context, start);
    if context.slot_of(id) is Some {
        let slot = context.slot_of(id).unwrap();
        let start = context.with_agenda(seq![JobView::Send { slot, is_aec, data: msg }], None);
        assert(same_keys(context, start));
        lemma_same_keys_settled(mac, context, start);
        if context.adopting(slot, epoch, Seq::empty(), None) is Some {
            lemma_adopting_keys_in_step(mac, context, slot, epoch, Seq::empty(), None);
        }
        if context.slot_of(context.aec().id) is Some {
            let channel = context.slot_of(context.aec().id).unwrap();
            let start = context.with_agenda(ContextModel::response_jobs(slot, channel), None);
            assert(same_keys(context, start));
            lemma_same_keys_settled(mac, context, start);
        }
    }
    if context.failing(id, None) is Some {
        let start = context.failing(id, None).unwrap();
        assert(same_keys(context, start));
        lemma_same_keys_settled(mac, context, start);
    }
}

} // verus!
