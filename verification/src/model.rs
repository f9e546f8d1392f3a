//! The protocol as a state machine over plain values. A context holds
//! sixteen data connections and the authentication error channel, the
//! tags it expects, the frames it has emitted and an agenda: the steps
//! of the operation under way, each of which needs one answer of the
//! sponge. An operation fills the agenda; the host answers the request
//! of the step in front until the agenda is empty.

use crate::bytes::from_le16;
use crate::bytes::from_le64;
use crate::bytes::le16;
use crate::bytes::le64;
use crate::bytes::lemma_le16_round_trip;
use crate::codec::eid_of;
use crate::codec::parse_eid_spec;
use crate::codec::LeiACmd;
use crate::connection::ConnectionModel;
use crate::connection::LEIA_EPOCH_MAX;
use crate::event::EventView;
use crate::event::Fatal;
use crate::event::ProgressView;
use crate::frame::FrameView;
use crate::mac::mac_ad;
use crate::mac::mac_tag;
use crate::mac::MacRequestView;
use crate::mac::CAN_PAYLOAD_SIZE;
use vstd::prelude::*;

verus! {

/// The number of slots for data connections.
pub const LEIA_CONNECTIONS: usize = 16;

/// The slot of the authentication error channel, behind the data
/// connections.
pub const LEIA_AEC_SLOT: usize = 16;

/// One step of an operation, as plain values. Each step asks the sponge
/// for one MAC and acts on the answer.
pub enum JobView {
    /// Take the connection in `slot` into its next epoch.
    KeyGen { slot: int },
    /// Set the counter of the connection in `slot` to that of a message
    /// received and store the tag that the message's MAC frame must
    /// carry; with `announce`, report the tag.
    Expect { slot: int, id: u16, counter: u16, data: Seq<u8>, announce: bool },
    /// Emit a message and its tag on the connection in `slot` and count
    /// the frame.
    Send { slot: int, is_aec: bool, data: Seq<u8> },
    /// Emit, as a message of the authentication error channel on the
    /// connection in `slot`, the epoch in which the connection in `of`
    /// then is, with that connection's id.
    SendEpoch { slot: int, of: int },
}

impl JobView {
    /// The slot exists and the data fit a frame.
    pub open spec fn wf(self) -> bool {
        match self {
            JobView::KeyGen { slot } => 0 <= slot <= LEIA_AEC_SLOT,
            JobView::Expect { slot, id, counter, data, announce } => 0 <= slot <= LEIA_AEC_SLOT
                && data.len() <= CAN_PAYLOAD_SIZE,
            JobView::Send { slot, is_aec, data } => 0 <= slot <= LEIA_AEC_SLOT && data.len()
                <= CAN_PAYLOAD_SIZE,
            JobView::SendEpoch { slot, of } => 0 <= slot <= LEIA_AEC_SLOT && 0 <= of
                <= LEIA_AEC_SLOT,
        }
    }
}

/// The first slot from `from` on whose connection has the given id.
pub open spec fn first_slot(slots: Seq<ConnectionModel>, id: u16, from: int) -> Option<int>
    decreases slots.len() - from,
{
    if from < 0 || from >= slots.len() {
        None
    } else if slots[from].id == id {
        Some(from)
    } else {
        first_slot(slots, id, from + 1)
    }
}

/// The steps that take every live data connection below slot `n` into
/// its next epoch, in the order of the slots.
pub open spec fn key_jobs(slots: Seq<ConnectionModel>, n: int) -> Seq<JobView>
    decreases n,
{
    if n <= 0 {
        Seq::empty()
    } else if slots[n - 1].id != 0 {
        key_jobs(slots, n - 1).push(JobView::KeyGen { slot: n - 1 })
    } else {
        key_jobs(slots, n - 1)
    }
}

/// The payload of a signal on the authentication error channel: the low
/// six bytes of an epoch, little-endian, then the id of the connection
/// that the signal refers to.
pub open spec fn auth_fail_payload(epoch: u64, id: u16) -> Seq<u8> {
    le64(epoch).subrange(0, 6) + le16(id)
}

/// The epoch that a signal carries: the number in its first six bytes,
/// little-endian.
pub open spec fn signal_epoch(msg: Seq<u8>) -> u64
    recommends
        msg.len() == 8,
{
    (from_le64(msg) % 0x1_0000_0000_0000) as u64
}

/// The id of the connection that a signal refers to: the number in its
/// last two bytes, little-endian.
pub open spec fn signal_id(msg: Seq<u8>) -> u16
    recommends
        msg.len() == 8,
{
    from_le16(msg.subrange(6, 8)) as u16
}

/// The two frames of a message: the message under the connection's id,
/// then its tag, under the same id on the authentication error channel
/// and under the next id on a data connection, both with the
/// connection's counter.
pub open spec fn frame_pair(conn: ConnectionModel, is_aec: bool, data: Seq<u8>, tag: Seq<u8>) -> Seq<
    FrameView,
> {
    if is_aec {
        seq![
            FrameView { eid: eid_of(conn.id, LeiACmd::AecEpoch, conn.c), payload: data },
            FrameView { eid: eid_of(conn.id, LeiACmd::AecMac, conn.c), payload: tag },
        ]
    } else {
        seq![
            FrameView { eid: eid_of(conn.id, LeiACmd::Data, conn.c), payload: data },
            FrameView { eid: eid_of((conn.id + 1) as u16, LeiACmd::Mac, conn.c), payload: tag },
        ]
    }
}

/// A context as plain values.
pub struct ContextModel {
    /// The sixteen data connections, then the authentication error
    /// channel.
    pub slots: Seq<ConnectionModel>,
    /// The tag expected for the message pending on a connection.
    pub expected: Map<u16, Seq<u8>>,
    /// The steps still to take of the operation under way.
    pub agenda: Seq<JobView>,
    /// What the operation under way will report.
    pub event: Option<EventView>,
    /// The connection that the signal refers to whose tag is expected on
    /// the authentication error channel.
    pub signal: Option<u16>,
    /// The frames emitted and not yet taken by the host, oldest first.
    pub outbox: Seq<FrameView>,
}

impl ContextModel {
    /// There are seventeen well-formed connections and the steps of the
    /// agenda are well-formed. While an operation is under way, the
    /// request of the step in front can be made; otherwise nothing is
    /// left to report.
    pub open spec fn wf(self) -> bool {
        &&& self.sound()
        &&& self.agenda.len() > 0 ==> self.request() is Ok
        &&& self.agenda.len() == 0 ==> self.event is None
    }

    /// There are seventeen well-formed connections and the steps of the
    /// agenda are well-formed.
    pub open spec fn sound(self) -> bool {
        &&& self.slots.len() == LEIA_AEC_SLOT + 1
        &&& forall|i: int| 0 <= i < self.slots.len() ==> (#[trigger] self.slots[i]).wf()
        &&& forall|j: int| 0 <= j < self.agenda.len() ==> (#[trigger] self.agenda[j]).wf()
    }

    /// No operation is under way.
    pub open spec fn idle(self) -> bool {
        self.agenda.len() == 0
    }

    /// The authentication error channel.
    pub open spec fn aec(self) -> ConnectionModel {
        self.slots[LEIA_AEC_SLOT as int]
    }

    /// The slot of the connection with the given id: the first data
    /// connection that has it, else the authentication error channel if
    /// it has it. The id zero marks an empty slot and names no
    /// connection.
    pub open spec fn slot_of(self, id: u16) -> Option<int> {
        if id == 0 {
            None
        } else {
            first_slot(self.slots, id, 0)
        }
    }

    /// The context with one connection replaced.
    pub open spec fn with_slot(self, slot: int, conn: ConnectionModel) -> ContextModel {
        ContextModel { slots: self.slots.update(slot, conn), ..self }
    }

    /// The context with the given agenda and report.
    pub open spec fn with_agenda(self, agenda: Seq<JobView>, event: Option<EventView>) -> ContextModel {
        ContextModel { agenda, event, ..self }
    }

    /// The context with nothing under way.
    pub open spec fn halted(self) -> ContextModel {
        ContextModel { agenda: Seq::empty(), event: None, ..self }
    }

    /// What the step in front of the agenda asks of the sponge. A new
    /// session key cannot be asked for with the epoch at its maximum.
    pub open spec fn request(self) -> Result<MacRequestView, Fatal>
        recommends
            self.agenda.len() > 0,
    {
        match self.agenda[0] {
            JobView::KeyGen { slot } => if self.slots[slot].epoch < LEIA_EPOCH_MAX {
                Ok(self.slots[slot].key_request())
            } else {
                Err(Fatal::EpochOverflow)
            },
            JobView::Expect { slot, id, counter, data, announce } => Ok(
                MacRequestView { key: self.slots[slot].k_e, data: mac_ad(id, data, counter) },
            ),
            JobView::Send { slot, is_aec, data } => Ok(
                MacRequestView {
                    key: self.slots[slot].k_e,
                    data: mac_ad(self.slots[slot].id, data, self.slots[slot].c),
                },
            ),
            JobView::SendEpoch { slot, of } => Ok(
                MacRequestView {
                    key: self.slots[slot].k_e,
                    data: mac_ad(
                        self.slots[slot].id,
                        auth_fail_payload(self.slots[of].epoch, self.slots[of].id),
                        self.slots[slot].c,
                    ),
                },
            ),
        }
    }

    /// Where the context stands and what it tells its host: with the
    /// agenda empty the operation is done and its report handed out;
    /// else the request of the step in front is made, or, where it
    /// cannot be made, the operation is given up.
    pub open spec fn settled(self) -> (ContextModel, ProgressView) {
        if self.agenda.len() == 0 {
            (self.halted(), ProgressView::Finished(self.event))
        } else {
            match self.request() {
                Ok(request) => (self, ProgressView::NeedMac(request)),
                Err(fatal) => (self.halted(), ProgressView::Fatal(fatal)),
            }
        }
    }

    /// The context without the step in front of its agenda.
    pub open spec fn popped(self) -> ContextModel {
        ContextModel { agenda: self.agenda.drop_first(), ..self }
    }

    /// The context after a message with its tag has gone out on the
    /// connection in `slot`: the two frames are emitted, and the frame
    /// is counted. Where the counter stands at its maximum, it stays and
    /// the next session key becomes the step in front.
    pub open spec fn sent(self, slot: int, is_aec: bool, data: Seq<u8>, tag: Seq<u8>) -> ContextModel {
        let conn = self.slots[slot];
        let outbox = self.outbox + frame_pair(conn, is_aec, data, tag);
        if conn.exhausted() {
            ContextModel { outbox, agenda: seq![JobView::KeyGen { slot }] + self.agenda, ..self }
        } else {
            ContextModel { outbox, slots: self.slots.update(slot, conn.advanced()), ..self }
        }
    }

    /// The context after the step in front of the agenda has acted on
    /// the sponge's answer and left the agenda.
    pub open spec fn completed(self, sponge: Seq<u8>) -> ContextModel
        recommends
            self.agenda.len() > 0,
    {
        let rest = self.popped();
        match self.agenda[0] {
            JobView::KeyGen { slot } => rest.with_slot(slot, self.slots[slot].rekeyed(sponge)),
            JobView::Expect { slot, id, counter, data, announce } => ContextModel {
                slots: self.slots.update(slot, ConnectionModel { c: counter, ..self.slots[slot] }),
                expected: self.expected.insert(id, mac_tag(sponge)),
                event: if announce {
                    Some(EventView::Received(id, Some(mac_tag(sponge))))
                } else {
                    self.event
                },
                ..rest
            },
            JobView::Send { slot, is_aec, data } => rest.sent(slot, is_aec, data, mac_tag(sponge)),
            JobView::SendEpoch { slot, of } => rest.sent(
                slot,
                true,
                auth_fail_payload(self.slots[of].epoch, self.slots[of].id),
                mac_tag(sponge),
            ),
        }
    }

    /// The context and what it tells its host after the sponge has
    /// answered: the step in front acts on the answer and the context
    /// settles; where the sponge has failed, the operation is given up.
    pub open spec fn resumed(self, sponge: Option<Seq<u8>>) -> (ContextModel, ProgressView)
        recommends
            self.agenda.len() > 0,
    {
        match sponge {
            Some(answer) => self.completed(answer).settled(),
            None => (self.halted(), ProgressView::Fatal(Fatal::MacFailure)),
        }
    }

    /// Bringing the context up: every live data connection, in the order
    /// of the slots, and then the authentication error channel goes into
    /// its next epoch.
    pub open spec fn initialized(self) -> (ContextModel, ProgressView) {
        self.with_agenda(
            key_jobs(self.slots, LEIA_CONNECTIONS as int).push(
                JobView::KeyGen { slot: LEIA_AEC_SLOT as int },
            ),
            None,
        ).settled()
    }

    /// Sending a message of at most eight bytes on the connection `id`.
    /// An unknown connection or a longer message is fatal, and nothing
    /// changes.
    pub open spec fn auth_sent(self, id: u16, msg: Seq<u8>, is_aec: bool) -> (
        ContextModel,
        ProgressView,
    ) {
        match self.slot_of(id) {
            None => (self, ProgressView::Fatal(Fatal::UnknownConnection)),
            Some(slot) => if msg.len() > CAN_PAYLOAD_SIZE {
                (self, ProgressView::Fatal(Fatal::PayloadTooLong))
            } else {
                self.with_agenda(seq![JobView::Send { slot, is_aec, data: msg }], None).settled()
            },
        }
    }

    /// The context in which the connection `id` has signalled a failure
    /// and the signal is about to go out, with `event` as the report:
    /// the connection's counter is zero and it is marked as awaiting the
    /// answer; the signal is the next message on the authentication
    /// error channel. Nothing where the connection or the channel is
    /// unknown.
    pub open spec fn failing(self, id: u16, event: Option<EventView>) -> Option<ContextModel> {
        match (self.slot_of(id), self.slot_of(self.aec().id)) {
            (Some(slot), Some(channel)) => Some(
                self.with_slot(
                    slot,
                    ConnectionModel { c: 0, auth_fail_in_progress: true, ..self.slots[slot] },
                ).with_agenda(
                    seq![
                        JobView::Send {
                            slot: channel,
                            is_aec: true,
                            data: auth_fail_payload(self.aec().epoch, id),
                        },
                    ],
                    event,
                ),
            ),
            _ => None,
        }
    }

    /// Signalling a failure of the connection `id`. An unknown
    /// connection or channel is fatal, and nothing changes.
    pub open spec fn auth_fail_sent(self, id: u16) -> (ContextModel, ProgressView) {
        match self.failing(id, None) {
            Some(next) => next.settled(),
            None => (self, ProgressView::Fatal(Fatal::UnknownConnection)),
        }
    }

    /// The context in which the connection in `slot` is about to take
    /// over the epoch that a peer has signalled, with `then` as the
    /// steps that follow and `event` as the report. An epoch that is not
    /// ahead of the connection's own changes nothing but the agenda; one
    /// beyond the maximum cannot be taken over.
    pub open spec fn adopting(
        self,
        slot: int,
        epoch: u64,
        then: Seq<JobView>,
        event: Option<EventView>,
    ) -> Option<ContextModel> {
        if epoch <= self.slots[slot].epoch {
            Some(self.with_agenda(then, event))
        } else if epoch > LEIA_EPOCH_MAX {
            None
        } else {
            Some(
                self.with_slot(slot, self.slots[slot].adopting(epoch)).with_agenda(
                    seq![JobView::KeyGen { slot }] + then,
                    event,
                ),
            )
        }
    }

    /// Receiving the signal of a failure with the peer's epoch for the
    /// connection `id`: an epoch ahead of the connection's own is taken
    /// over. An unknown connection or an epoch beyond the maximum is
    /// fatal, and nothing changes.
    pub open spec fn auth_fail_received(self, id: u16, epoch: u64) -> (ContextModel, ProgressView) {
        match self.slot_of(id) {
            None => (self, ProgressView::Fatal(Fatal::UnknownConnection)),
            Some(slot) => match self.adopting(slot, epoch, Seq::empty(), None) {
                Some(next) => next.settled(),
                None => (self, ProgressView::Fatal(Fatal::EpochOverflow)),
            },
        }
    }

    /// The steps of the answer to a signal that refers to the connection
    /// in `slot`: the connection goes into its next epoch, and that
    /// epoch goes out as a signal on the channel in `channel`.
    pub open spec fn response_jobs(slot: int, channel: int) -> Seq<JobView> {
        seq![JobView::KeyGen { slot }, JobView::SendEpoch { slot: channel, of: slot }]
    }

    /// Answering a signal that refers to the connection `id`, on the
    /// authentication error channel. An unknown connection or channel is
    /// fatal, and nothing changes.
    pub open spec fn auth_fail_response_sent(self, id: u16) -> (ContextModel, ProgressView) {
        match (self.slot_of(id), self.slot_of(self.aec().id)) {
            (Some(slot), Some(channel)) => self.with_agenda(
                Self::response_jobs(slot, channel),
                None,
            ).settled(),
            _ => (self, ProgressView::Fatal(Fatal::UnknownConnection)),
        }
    }

    /// Receiving a message frame.
    pub open spec fn data_received(self, id: u16, counter: u16, msg: Seq<u8>) -> (
        ContextModel,
        ProgressView,
    ) {
        match self.slot_of(id) {
            None => (self, ProgressView::Finished(Some(EventView::UnknownId(id)))),
            Some(slot) => if counter < self.slots[slot].c {
                match self.failing(id, Some(EventView::Desync(id))) {
                    Some(next) => (
                        ContextModel { expected: self.expected.remove(id), ..next }
                    ).settled(),
                    None => (self, ProgressView::Fatal(Fatal::UnknownConnection)),
                }
            } else if msg.len() > CAN_PAYLOAD_SIZE {
                (self, ProgressView::Fatal(Fatal::PayloadTooLong))
            } else if self.expected.contains_key(id) {
                self.with_agenda(
                    seq![JobView::Expect { slot, id, counter, data: msg, announce: false }],
                    Some(EventView::MissingMAC(id)),
                ).settled()
            } else {
                self.with_agenda(
                    seq![JobView::Expect { slot, id, counter, data: msg, announce: true }],
                    Some(EventView::Received(id, None)),
                ).settled()
            },
        }
    }

    /// Receiving the tag frame of a message: it is addressed to the id
    /// behind that of the message's connection.
    pub open spec fn mac_received(self, id: u16, msg: Seq<u8>) -> (ContextModel, ProgressView) {
        let msg_id = (id - 1) as u16;
        if id == 0 || self.slot_of(msg_id) is None {
            (self, ProgressView::Finished(Some(EventView::UnknownId(id))))
        } else if !self.expected.contains_key(msg_id) {
            (self, ProgressView::Finished(Some(EventView::UnexpectedMAC(msg_id))))
        } else if self.expected[msg_id] == msg {
            (
                ContextModel { expected: self.expected.remove(msg_id), ..self },
                ProgressView::Finished(Some(EventView::Authenticated(msg_id))),
            )
        } else {
            match self.failing(msg_id, Some(EventView::IncorrectMAC(msg_id))) {
                Some(next) => (
                    ContextModel { expected: self.expected.remove(msg_id), ..next }
                ).settled(),
                None => (self, ProgressView::Fatal(Fatal::UnknownConnection)),
            }
        }
    }

    /// Receiving a signal on the authentication error channel `id`. The
    /// signal carries an epoch and refers to a connection. Where the
    /// epoch is ahead of that connection's own, the connection takes it
    /// over; the tag of the signal is then expected on the channel, and
    /// the connection referred to is kept in mind for it. A channel or
    /// a connection referred to that the context does not hold is
    /// reported as unknown, and nothing changes.
    pub open spec fn aec_epoch_received(self, id: u16, counter: u16, msg: Seq<u8>) -> (
        ContextModel,
        ProgressView,
    ) {
        match self.slot_of(id) {
            None => (self, ProgressView::Finished(Some(EventView::UnknownId(id)))),
            Some(channel) => if msg.len() > CAN_PAYLOAD_SIZE {
                (self, ProgressView::Fatal(Fatal::PayloadTooLong))
            } else if msg.len() < CAN_PAYLOAD_SIZE {
                (self, ProgressView::Fatal(Fatal::PayloadTooShort))
            } else {
                let referred = signal_id(msg);
                match self.slot_of(referred) {
                    None => (self, ProgressView::Finished(Some(EventView::UnknownId(referred)))),
                    Some(slot) => match (ContextModel { signal: Some(referred), ..self }).adopting(
                        slot,
                        signal_epoch(msg),
                        seq![
                            JobView::Expect {
                                slot: channel,
                                id,
                                counter,
                                data: msg,
                                announce: false,
                            },
                        ],
                        Some(EventView::Resynced(referred)),
                    ) {
                        Some(next) => next.settled(),
                        None => (self, ProgressView::Fatal(Fatal::EpochOverflow)),
                    },
                }
            },
        }
    }

    /// The slot of the connection that the pending signal refers to.
    pub open spec fn signalled_slot(self) -> Option<int> {
        match self.signal {
            Some(referred) => self.slot_of(referred),
            None => None,
        }
    }

    /// Receiving the tag of a signal on the authentication error channel
    /// `id`. With the right tag the signal is authenticated and its
    /// frame counted on the channel. The connection that the signal
    /// refers to answers on the channel with its next epoch, unless it
    /// has signalled a failure itself, and its mark of a failure
    /// signalled is cleared. With a wrong tag, or none expected, the tag
    /// is unexpected. The expectation and the reference are dropped in
    /// every case.
    pub open spec fn aec_mac_received(self, id: u16, msg: Seq<u8>) -> (ContextModel, ProgressView) {
        let dropped = ContextModel { expected: self.expected.remove(id), signal: None, ..self };
        if !self.expected.contains_key(id) || self.expected[id] != msg {
            (dropped, ProgressView::Finished(Some(EventView::UnexpectedMAC(id))))
        } else {
            match self.slot_of(id) {
                None => (self, ProgressView::Fatal(Fatal::UnknownConnection)),
                Some(channel) => {
                    let counted = if self.slots[channel].exhausted() {
                        dropped
                    } else {
                        dropped.with_slot(channel, self.slots[channel].advanced())
                    };
                    let rollover = if self.slots[channel].exhausted() {
                        seq![JobView::KeyGen { slot: channel }]
                    } else {
                        Seq::empty()
                    };
                    match self.signalled_slot() {
                        None => counted.with_agenda(
                            rollover,
                            Some(EventView::Authenticated(id)),
                        ).settled(),
                        Some(slot) => counted.with_slot(
                            slot,
                            ConnectionModel { auth_fail_in_progress: false, ..counted.slots[slot] },
                        ).with_agenda(
                            rollover + (if counted.slots[slot].auth_fail_in_progress {
                                Seq::empty()
                            } else {
                                Self::response_jobs(slot, channel)
                            }),
                            Some(EventView::Authenticated(id)),
                        ).settled(),
                    }
                },
            }
        }
    }

    /// Receiving a frame: one that is not addressed to the protocol is
    /// ignored; any other is dealt with by its command.
    pub open spec fn received(self, eid: u32, msg: Seq<u8>) -> (ContextModel, ProgressView) {
        match parse_eid_spec(eid) {
            None => (self, ProgressView::Ignored),
            Some((id, LeiACmd::Data, counter)) => self.data_received(id, counter, msg),
            Some((id, LeiACmd::Mac, counter)) => self.mac_received(id, msg),
            Some((id, LeiACmd::AecEpoch, counter)) => self.aec_epoch_received(id, counter, msg),
            Some((id, LeiACmd::AecMac, counter)) => self.aec_mac_received(id, msg),
        }
    }
}

/// The first slot with an id, where there is one, holds a connection of
/// that id, and no slot before it does; where there is none, no slot
/// from `from` on does.
pub proof fn lemma_first_slot(slots: Seq<ConnectionModel>, id: u16, from: int)
    requires
        0 <= from,
    ensures
        match first_slot(slots, id, from) {
            Some(slot) => from <= slot < slots.len() && slots[slot].id == id && forall|j: int|
                from <= j < slot ==> slots[j].id != id,
            None => forall|j: int| from <= j < slots.len() ==> slots[j].id != id,
        },
    decreases slots.len() - from,
{
    if from < slots.len() && slots[from].id != id {
        lemma_first_slot(slots, id, from + 1);
    }
}

/// The steps that take the live connections into their next epoch are
/// well-formed.
pub proof fn lemma_key_jobs_wf(slots: Seq<ConnectionModel>, n: int)
    requires
        n <= LEIA_CONNECTIONS,
    ensures
        forall|j: int| 0 <= j < key_jobs(slots, n).len() ==> (#[trigger] key_jobs(slots, n)[j]).wf(),
    decreases n,
{
    if n > 0 {
        lemma_key_jobs_wf(slots, n - 1);
        let jobs = key_jobs(slots, n);
        let before = key_jobs(slots, n - 1);
        assert forall|j: int| 0 <= j < jobs.len() implies (#[trigger] jobs[j]).wf() by {
            if j < before.len() {
                assert(jobs[j] == before[j]);
                assert(before[j].wf());
            }
        }
    }
}

impl ContextModel {
    /// The slot of a connection exists and holds a connection of the id
    /// asked for.
    pub proof fn lemma_slot_of(self, id: u16)
        requires
            self.slots.len() == LEIA_AEC_SLOT + 1,
        ensures
            match self.slot_of(id) {
                Some(slot) => 0 <= slot <= LEIA_AEC_SLOT && self.slots[slot].id == id && id != 0,
                None => true,
            },
    {
        lemma_first_slot(self.slots, id, 0);
    }

    /// Settling a sound context gives a well-formed one.
    pub proof fn lemma_settled_wf(self)
        requires
            self.sound(),
        ensures
            self.settled().0.wf(),
    {
    }

    /// A step that acts on a sponge output of sixteen bytes leaves a
    /// well-formed context sound.
    pub proof fn lemma_completed_sound(self, sponge: Seq<u8>)
        requires
            self.wf(),
            !self.idle(),
            sponge.len() == 16,
        ensures
            self.completed(sponge).sound(),
    {
        let next = self.completed(sponge);
        let front = self.agenda[0];
        assert(front.wf());
        assert forall|j: int| 0 <= j < next.agenda.len() implies (#[trigger] next.agenda[j]).wf() by {
            if next.agenda.len() == self.agenda.len() {
                if j > 0 {
                    assert(next.agenda[j] == self.agenda[j]);
                }
            } else {
                assert(next.agenda[j] == self.agenda[j + 1]);
            }
        }
        assert forall|i: int| 0 <= i < next.slots.len() implies (#[trigger] next.slots[i]).wf() by {
            assert(self.slots[i].wf());
        }
    }
}

/// Whether a context and what it tells its host fit together: the
/// context is well-formed; where it asks for the sponge, an operation
/// is under way and the request is that of the step in front; where it
/// does not, no operation is under way.
pub open spec fn coupled(step: (ContextModel, ProgressView)) -> bool {
    &&& step.0.wf()
    &&& match step.1 {
        ProgressView::NeedMac(request) => !step.0.idle() && step.0.request() == Ok::<
            MacRequestView,
            Fatal,
        >(request),
        _ => step.0.idle(),
    }
}

impl ContextModel {
    /// Settling a sound context gives a well-formed one that waits for
    /// the sponge exactly if it asks for it.
    pub proof fn lemma_settled_coupled(self)
        requires
            self.sound(),
        ensures
            coupled(self.settled()),
    {
    }

    /// Going on with an answer of sixteen bytes, or with none, keeps the
    /// context well-formed.
    pub proof fn lemma_resumed_coupled(self, sponge: Option<Seq<u8>>)
        requires
            self.wf(),
            !self.idle(),
            sponge is Some ==> sponge.unwrap().len() == 16,
        ensures
            coupled(self.resumed(sponge)),
    {
        if sponge is Some {
            self.lemma_completed_sound(sponge.unwrap());
            self.completed(sponge.unwrap()).lemma_settled_coupled();
        }
    }

    /// Signalling a failure keeps the context well-formed.
    pub proof fn lemma_auth_fail_sent_coupled(self, id: u16)
        requires
            self.wf(),
            self.idle(),
        ensures
            coupled(self.auth_fail_sent(id)),
    {
        self.lemma_failing_sound(id, None);
        if self.failing(id, None) is Some {
            self.failing(id, None).unwrap().lemma_settled_coupled();
        }
    }

    /// The context in which a connection has signalled a failure is
    /// sound.
    pub proof fn lemma_failing_sound(self, id: u16, event: Option<EventView>)
        requires
            self.wf(),
            self.idle(),
        ensures
            self.failing(id, event) is Some ==> self.failing(id, event).unwrap().sound(),
    {
        self.lemma_slot_of(id);
        self.lemma_slot_of(self.aec().id);
        if self.failing(id, event) is Some {
            let next = self.failing(id, event).unwrap();
            let slot = self.slot_of(id).unwrap();
            lemma_le16_round_trip(id);
            assert(auth_fail_payload(self.aec().epoch, id).len() == 8);
            assert forall|i: int| 0 <= i < next.slots.len() implies (#[trigger] next.slots[i]).wf() by {
                assert(self.slots[i].wf());
            }
        }
    }

    /// The context in which a connection is about to take over an epoch
    /// is sound, if the steps that follow are.
    pub proof fn lemma_adopting_sound(
        self,
        slot: int,
        epoch: u64,
        then: Seq<JobView>,
        event: Option<EventView>,
    )
        requires
            self.wf(),
            self.idle(),
            0 <= slot <= LEIA_AEC_SLOT,
            forall|j: int| 0 <= j < then.len() ==> (#[trigger] then[j]).wf(),
        ensures
            self.adopting(slot, epoch, then, event) is Some ==> self.adopting(
                slot,
                epoch,
                then,
                event,
            ).unwrap().sound(),
    {
        if self.adopting(slot, epoch, then, event) is Some {
            let next = self.adopting(slot, epoch, then, event).unwrap();
            assert(self.slots[slot].wf());
            assert forall|i: int| 0 <= i < next.slots.len() implies (#[trigger] next.slots[i]).wf() by {
                assert(self.slots[i].wf());
            }
            assert forall|j: int| 0 <= j < next.agenda.len() implies (#[trigger] next.agenda[j]).wf() by {
                if next.agenda.len() == then.len() {
                    assert(next.agenda[j] == then[j]);
                } else if j > 0 {
                    assert(next.agenda[j] == then[j - 1]);
                }
            }
        }
    }

    /// Receiving a frame keeps the context well-formed.
    pub proof fn lemma_received_coupled(self, eid: u32, msg: Seq<u8>)
        requires
            self.wf(),
            self.idle(),
        ensures
            coupled(self.received(eid, msg)),
    {
        match parse_eid_spec(eid) {
            None => {},
            Some((id, LeiACmd::Data, counter)) => {
                self.lemma_slot_of(id);
                self.lemma_failing_sound(id, Some(EventView::Desync(id)));
                if self.slot_of(id) is Some {
                    let slot = self.slot_of(id).unwrap();
                    if counter < self.slots[slot].c {
                        if self.failing(id, Some(EventView::Desync(id))) is Some {
                            let next = self.failing(id, Some(EventView::Desync(id))).unwrap();
                            (ContextModel {
                                expected: self.expected.remove(id),
                                ..next
                            }).lemma_settled_coupled();
                        }
                    } else if msg.len() <= CAN_PAYLOAD_SIZE {
                        let announce = !self.expected.contains_key(id);
                        let job = JobView::Expect { slot, id, counter, data: msg, announce };
                        let event = if announce {
                            Some(EventView::Received(id, None))
                        } else {
                            Some(EventView::MissingMAC(id))
                        };
                        let next = self.with_agenda(seq![job], event);
                        assert forall|j: int| 0 <= j < next.agenda.len() implies (
                        #[trigger] next.agenda[j]).wf() by {
                            assert(next.agenda[j] == job);
                        }
                        next.lemma_settled_coupled();
                    }
                }
            },
            Some((id, LeiACmd::Mac, counter)) => {
                let msg_id = (id - 1) as u16;
                self.lemma_failing_sound(msg_id, Some(EventView::IncorrectMAC(msg_id)));
                if self.failing(msg_id, Some(EventView::IncorrectMAC(msg_id))) is Some {
                    let next = self.failing(msg_id, Some(EventView::IncorrectMAC(msg_id))).unwrap();
                    (ContextModel {
                        expected: self.expected.remove(msg_id),
                        ..next
                    }).lemma_settled_coupled();
                }
            },
            Some((id, LeiACmd::AecEpoch, counter)) => {
                self.lemma_slot_of(id);
                if self.slot_of(id) is Some && msg.len() == CAN_PAYLOAD_SIZE {
                    let channel = self.slot_of(id).unwrap();
                    let referred = signal_id(msg);
                    self.lemma_slot_of(referred);
                    if self.slot_of(referred) is Some {
                        let slot = self.slot_of(referred).unwrap();
                        let marked = ContextModel { signal: Some(referred), ..self };
                        let job = JobView::Expect {
                            slot: channel,
                            id,
                            counter,
                            data: msg,
                            announce: false,
                        };
                        let event = Some(EventView::Resynced(referred));
                        assert forall|j: int| 0 <= j < seq![job].len() implies (
                        #[trigger] seq![job][j]).wf() by {
                            assert(seq![job][j] == job);
                        }
                        marked.lemma_adopting_sound(slot, signal_epoch(msg), seq![job], event);
                        if marked.adopting(slot, signal_epoch(msg), seq![job], event) is Some {
                            marked.adopting(
                                slot,
                                signal_epoch(msg),
                                seq![job],
                                event,
                            ).unwrap().lemma_settled_coupled();
                        }
                    }
                }
            },
            Some((id, LeiACmd::AecMac, counter)) => {
                self.lemma_aec_mac_received_coupled(id, msg);
            },
        }
    }

    /// Receiving the tag of a signal keeps the context well-formed.
    pub proof fn lemma_aec_mac_received_coupled(self, id: u16, msg: Seq<u8>)
        requires
            self.wf(),
            self.idle(),
        ensures
            coupled(self.aec_mac_received(id, msg)),
    {
        self.lemma_slot_of(id);
        if self.expected.contains_key(id) && self.expected[id] == msg && self.slot_of(id) is Some {
            let channel = self.slot_of(id).unwrap();
            let dropped = ContextModel {
                expected: self.expected.remove(id),
                signal: None,
                ..self
            };
            assert(self.slots[channel].wf());
            let counted = if self.slots[channel].exhausted() {
                dropped
            } else {
                dropped.with_slot(channel, self.slots[channel].advanced())
            };
            assert forall|i: int| 0 <= i < counted.slots.len() implies (
            #[trigger] counted.slots[i]).wf() by {
                assert(self.slots[i].wf());
            }
            let rollover = if self.slots[channel].exhausted() {
                seq![JobView::KeyGen { slot: channel }]
            } else {
                Seq::empty()
            };
            let event = Some(EventView::Authenticated(id));
            match self.signalled_slot() {
                None => {
                    let next = counted.with_agenda(rollover, event);
                    next.lemma_settled_coupled();
                },
                Some(slot) => {
                    self.lemma_slot_of(self.signal.unwrap());
                    let response = if counted.slots[slot].auth_fail_in_progress {
                        Seq::empty()
                    } else {
                        Self::response_jobs(slot, channel)
                    };
                    let next = counted.with_slot(
                        slot,
                        ConnectionModel { auth_fail_in_progress: false, ..counted.slots[slot] },
                    ).with_agenda(rollover + response, event);
                    assert forall|i: int| 0 <= i < next.slots.len() implies (
                    #[trigger] next.slots[i]).wf() by {
                        assert(counted.slots[i].wf());
                    }
                    assert forall|j: int| 0 <= j < next.agenda.len() implies (
                    #[trigger] next.agenda[j]).wf() by {
                        if j < rollover.len() {
                            assert(next.agenda[j] == rollover[j]);
                        } else {
                            assert(next.agenda[j] == response[j - rollover.len()]);
                        }
                    }
                    next.lemma_settled_coupled();
                },
            }
        }
    }
}

} // verus!
