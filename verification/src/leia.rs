//! The LeiA context: several authenticated connections and the
//! authentication error channel on one node.

use crate::bytes::read_le16;
use crate::bytes::read_le64;
use crate::bytes::write_le16;
use crate::bytes::write_le64;
use crate::codec::build_eid;
use crate::codec::parse_eid;
use crate::codec::LeiACmd;
use crate::connection::leia_auth_fail_response;
use crate::connection::session_key_gen;
use crate::connection::session_key_request;
use crate::connection::update_counters;
use crate::connection::ConnectionModel;
use crate::connection::LeiAConnection;
use crate::event::event_view;
use crate::event::Event;
use crate::event::EventView;
use crate::event::Fatal;
use crate::event::Progress;
use crate::frame::frames_view;
use crate::frame::Frame;
use crate::frame::FrameView;
use crate::mac::mac_create;
use crate::mac::mac_request;
use crate::mac::MacRequest;
use crate::mac::MacRequestView;
use crate::mac::CAN_PAYLOAD_SIZE;
use crate::model::auth_fail_payload;
use crate::model::first_slot;
use crate::model::frame_pair;
use crate::model::key_jobs;
use crate::model::lemma_key_jobs_wf;
use crate::model::ContextModel;
use crate::model::JobView;
use crate::model::LEIA_AEC_SLOT;
use crate::model::LEIA_CONNECTIONS;
use crate::store::LeiAStore;
use crate::store::VulCANStore;
use crate::vulcan::VulCANContext;
use vstd::prelude::*;

verus! {

/// One step of an operation.
pub(crate) enum Job {
    KeyGen { slot: usize },
    Expect { slot: usize, id: u16, counter: u16, data: Vec<u8>, announce: bool },
    Send { slot: usize, is_aec: bool, data: Vec<u8> },
    SendEpoch { slot: usize, of: usize },
}

impl View for Job {
    type V = JobView;

    closed spec fn view(&self) -> JobView {
        match *self {
            Job::KeyGen { slot } => JobView::KeyGen { slot: slot as int },
            Job::Expect { slot, id, counter, data, announce } => JobView::Expect {
                slot: slot as int,
                id,
                counter,
                data: data@,
                announce,
            },
            Job::Send { slot, is_aec, data } => JobView::Send {
                slot: slot as int,
                is_aec,
                data: data@,
            },
            Job::SendEpoch { slot, of } => JobView::SendEpoch {
                slot: slot as int,
                of: of as int,
            },
        }
    }
}

/// Structure managing multiple LeiA connections on a single node.
pub struct LeiAContext<S: LeiAStore> {
    connections: [LeiAConnection; 16],
    aec: LeiAConnection,
    expected: S,
    agenda: Vec<Job>,
    event: Option<Event>,
    signal: Option<u16>,
    outbox: Vec<Frame>,
}

impl<S: LeiAStore> View for LeiAContext<S> {
    type V = ContextModel;

    closed spec fn view(&self) -> ContextModel {
        ContextModel {
            slots: Seq::new(
                17,
                |i: int|
                    if i < 16 {
                        self.connections@[i]@
                    } else {
                        self.aec@
                    },
            ),
            expected: self.expected.contents().map_values(|tag: [u8; 8]| tag@),
            agenda: self.agenda@.map_values(|job: Job| job@),
            event: event_view(self.event),
            signal: self.signal,
            outbox: frames_view(self.outbox@),
        }
    }
}

impl<S: LeiAStore> LeiAContext<S> {
    /// Creates a new LeiA context.
    ///
    /// # Parameters
    ///
    /// - `connections` - At most sixteen connections to be managed by
    ///   the context; they take the first slots, in their order.
    /// - `aec` - The connection used as authentication error channel.
    /// - `expected` - The store for the tags that the context expects.
    pub fn new(connections: &[LeiAConnection], aec: LeiAConnection, expected: S) -> (context: Self)
        requires
            connections@.len() <= LEIA_CONNECTIONS,
            forall|i: int| 0 <= i < connections@.len() ==> (#[trigger] connections@[i])@.wf(),
            aec@.wf(),
        ensures
            context@.wf(),
            context@.idle(),
            context@.slots == Seq::new(
                17,
                |i: int|
                    if i < connections@.len() {
                        connections@[i]@
                    } else if i < 16 {
                        ConnectionModel::fresh(0)
                    } else {
                        aec@
                    },
            ),
            context@.expected == expected.contents().map_values(|tag: [u8; 8]| tag@),
            context@.outbox == Seq::<FrameView>::empty(),
            context@.signal is None,
    {
        let mut cs = [LeiAConnection::new(0);16];
        let mut i: usize = 0;
        while i < connections.len()
            invariant
                i <= connections@.len() <= 16,
                forall|j: int| 0 <= j < i ==> cs@[j] == connections@[j],
                forall|j: int| i <= j < 16 ==> cs@[j]@ == ConnectionModel::fresh(0),
            decreases connections@.len() - i,
        {
            cs[i] = connections[i];
            i += 1;
        }
        let context = Self {
            connections: cs,
            aec: aec,
            expected: expected,
            agenda: Vec::new(),
            event: None,
            signal: None,
            outbox: Vec::new(),
        };
        proof {
            assert(context@.slots =~= Seq::new(
                17,
                |i: int|
                    if i < connections@.len() {
                        connections@[i]@
                    } else if i < 16 {
                        ConnectionModel::fresh(0)
                    } else {
                        aec@
                    },
            ));
            assert(context@.outbox =~= Seq::<FrameView>::empty());
            assert(context@.agenda =~= Seq::<JobView>::empty());
            assert forall|i: int| 0 <= i < 17 implies (#[trigger] context@.slots[i]).wf() by {
                if i < connections@.len() {
                    assert(connections@[i]@.wf());
                }
            }
        }
        context
    }

    /// The store of the tags that the context expects.
    pub fn expected(&self) -> (store: &S)
        ensures
            store.contents().map_values(|tag: [u8; 8]| tag@) == self@.expected,
    {
        &self.expected
    }

    /// The authentication error channel.
    pub fn aec(&self) -> (aec: LeiAConnection)
        ensures
            aec@ == self@.aec(),
    {
        self.aec
    }

    /// Whether no operation is under way.
    pub fn is_idle(&self) -> (idle: bool)
        ensures
            idle == self@.idle(),
    {
        self.agenda.len() == 0
    }

    /// The connection in a slot.
    fn slot(&self, slot: usize) -> (conn: LeiAConnection)
        requires
            slot <= LEIA_AEC_SLOT,
        ensures
            conn@ == self@.slots[slot as int],
    {
        if slot < 16 {
            self.connections[slot]
        } else {
            self.aec
        }
    }

    /// Puts a connection into a slot.
    fn set_slot(&mut self, slot: usize, conn: LeiAConnection)
        requires
            slot <= LEIA_AEC_SLOT,
        ensures
            final(self)@ == old(self)@.with_slot(slot as int, conn@),
    {
        if slot < 16 {
            self.connections[slot] = conn;
        } else {
            self.aec = conn;
        }
        assert(self@.slots =~= old(self)@.slots.update(slot as int, conn@));
    }

    /// The slot of the connection with the specified id.
    fn find_slot(&self, id: u16) -> (found: Option<usize>)
        ensures
            match found {
                Some(slot) => self@.slot_of(id) == Some(slot as int) && slot <= LEIA_AEC_SLOT
                    && self@.slots[slot as int].id == id,
                None => self@.slot_of(id) is None,
            },
    {
        if id == 0 {
            return None;
        }
        let mut i: usize = 0;
        while i < 17
            invariant
                i <= 17,
                id != 0,
                self@.slots.len() == 17,
                first_slot(self@.slots, id, 0) == first_slot(self@.slots, id, i as int),
            decreases 17 - i,
        {
            if self.slot(i).id() == id {
                assert(first_slot(self@.slots, id, i as int) == Some(i as int));
                return Some(i);
            }
            assert(first_slot(self@.slots, id, i as int) == first_slot(
                self@.slots,
                id,
                i as int + 1,
            ));
            i += 1;
        }
        None
    }

    /// Finds the connection with the specified id: the first data
    /// connection that has it, else the authentication error channel if
    /// it has it.
    pub fn find_connection(&self, id: u16) -> (found: Option<LeiAConnection>)
        ensures
            match self@.slot_of(id) {
                Some(slot) => found is Some && found.unwrap()@ == self@.slots[slot],
                None => found is None,
            },
    {
        match self.find_slot(id) {
            Some(slot) => Some(self.slot(slot)),
            None => None,
        }
    }
}

/// Builds the payload of a signal on the authentication error channel.
fn fail_payload(epoch: u64, id: u16) -> (msg: Vec<u8>)
    ensures
        msg@ == auth_fail_payload(epoch, id),
{
    // the connection id behind the lower 48 bits of the epoch
    let epoch_bytes = write_le64(epoch);
    let id_bytes = write_le16(id);
    let mut msg: Vec<u8> = Vec::new();
    let mut i: usize = 0;
    while i < 6
        invariant
            i <= 6,
            msg@ == epoch_bytes@.subrange(0, i as int),
        decreases 6 - i,
    {
        msg.push(epoch_bytes[i]);
        assert(msg@ =~= epoch_bytes@.subrange(0, i as int + 1));
        i += 1;
    }
    msg.push(id_bytes[0]);
    msg.push(id_bytes[1]);
    assert(msg@ =~= auth_fail_payload(epoch, id));
    msg
}

/// A request or the reason why there is none, as plain values.
pub open spec fn request_view(request: Result<MacRequest, Fatal>) -> Result<MacRequestView, Fatal> {
    match request {
        Ok(r) => Ok(r@),
        Err(fatal) => Err(fatal),
    }
}

impl<S: LeiAStore> LeiAContext<S> {
    /// What the step in front of the agenda asks of the sponge.
    fn request(&self) -> (request: Result<MacRequest, Fatal>)
        requires
            self@.sound(),
            !self@.idle(),
        ensures
            request_view(request) == self@.request(),
    {
        proof {
            assert(self@.agenda[0].wf());
            assert(self@.agenda[0] == self.agenda@[0]@);
        }
        match &self.agenda[0] {
            Job::KeyGen { slot } => session_key_request(&self.slot(*slot)),
            Job::Expect { slot, id, counter, data, announce } => {
                let conn = self.slot(*slot);
                match mac_request(&conn.k_e(), *id, data.as_slice(), *counter) {
                    Some(request) => Ok(request),
                    None => Err(Fatal::PayloadTooLong),
                }
            },
            Job::Send { slot, is_aec, data } => {
                let conn = self.slot(*slot);
                match mac_request(&conn.k_e(), conn.id(), data.as_slice(), conn.counter()) {
                    Some(request) => Ok(request),
                    None => Err(Fatal::PayloadTooLong),
                }
            },
            Job::SendEpoch { slot, of } => {
                let conn = self.slot(*slot);
                let referred = self.slot(*of);
                let payload = fail_payload(referred.epoch(), referred.id());
                match mac_request(&conn.k_e(), conn.id(), payload.as_slice(), conn.counter()) {
                    Some(request) => Ok(request),
                    None => Err(Fatal::PayloadTooLong),
                }
            },
        }
    }

    /// Gives up the operation under way.
    fn halt(&mut self)
        ensures
            final(self)@ == old(self)@.halted(),
    {
        self.agenda.clear();
        self.event = None;
        assert(self@.agenda =~= Seq::<JobView>::empty());
    }

    /// Tells the host where the context stands: the request of the step
    /// in front, or the report of the operation that is done.
    fn settle(&mut self) -> (progress: Progress)
        requires
            old(self)@.sound(),
        ensures
            (final(self)@, progress@) == old(self)@.settled(),
            final(self)@.wf(),
    {
        proof {
            old(self)@.lemma_settled_wf();
        }
        if self.agenda.len() == 0 {
            let event = self.event;
            self.halt();
            Progress::Finished(event)
        } else {
            match self.request() {
                Ok(request) => Progress::NeedMac(request),
                Err(fatal) => {
                    self.halt();
                    Progress::Fatal(fatal)
                },
            }
        }
    }

    /// Emits a message and its tag on the connection in a slot and
    /// counts the frame.
    fn emit(&mut self, slot: usize, is_aec: bool, data: Vec<u8>, tag: [u8; 8])
        requires
            slot <= LEIA_AEC_SLOT,
            old(self)@.slots[slot as int].id <= 0x7FF,
        ensures
            final(self)@ == old(self)@.sent(slot as int, is_aec, data@, tag@),
    {
        let mut conn = self.slot(slot);
        let (cmd, cmd_mac) = if !is_aec {
            (LeiACmd::Data, LeiACmd::Mac)
        } else {
            (LeiACmd::AecEpoch, LeiACmd::AecMac)
        };
        let id_mac: u16 = if is_aec {
            conn.id()
        } else {
            conn.id() + 1
        };
        let eid = build_eid(conn.id(), cmd, conn.counter());
        let eid_mac = build_eid(id_mac, cmd_mac, conn.counter());
        let ghost pair = frame_pair(conn@, is_aec, data@, tag@);
        let msg_mac = vstd::slice::slice_to_vec(tag.as_slice());
        self.outbox.push(Frame { eid, payload: data });
        self.outbox.push(Frame { eid: eid_mac, payload: msg_mac });
        assert(self@.outbox =~= old(self)@.outbox + pair);
        if update_counters(&mut conn) {
            self.agenda.insert(0, Job::KeyGen { slot });
            assert(self@.agenda =~= seq![JobView::KeyGen { slot: slot as int }] + old(
                self,
            )@.agenda);
        } else {
            self.set_slot(slot, conn);
        }
    }

    /// Lets the step in front of the agenda act on the sponge's answer.
    fn complete(&mut self, sponge: &[u8; 16])
        requires
            old(self)@.wf(),
            !old(self)@.idle(),
        ensures
            final(self)@ == old(self)@.completed(sponge@),
            final(self)@.sound(),
    {
        proof {
            old(self)@.lemma_completed_sound(sponge@);
            assert(old(self)@.agenda[0].wf());
            assert(old(self)@.agenda[0] == old(self).agenda@[0]@);
        }
        let job = self.agenda.remove(0);
        assert(self@.agenda =~= old(self)@.agenda.drop_first());
        match job {
            Job::KeyGen { slot } => {
                let mut conn = self.slot(slot);
                let _ = session_key_gen(&mut conn, sponge);
                self.set_slot(slot, conn);
            },
            Job::Expect { slot, id, counter, data, announce } => {
                let mut conn = self.slot(slot);
                conn.set_counter(counter);
                self.set_slot(slot, conn);
                let tag = mac_create(sponge);
                self.expected.insert(&id, tag);
                if announce {
                    self.event = Some(Event::Received(id, Some(tag)));
                }
                assert(self@.expected =~= old(self)@.expected.insert(id, tag@));
            },
            Job::Send { slot, is_aec, data } => {
                assert(old(self)@.slots[slot as int].wf());
                let tag = mac_create(sponge);
                self.emit(slot, is_aec, data, tag);
            },
            Job::SendEpoch { slot, of } => {
                assert(old(self)@.slots[slot as int].wf());
                let referred = self.slot(of);
                let data = fail_payload(referred.epoch(), referred.id());
                let tag = mac_create(sponge);
                self.emit(slot, true, data, tag);
            },
        }
    }

    /// Goes on with the operation under way, with the sponge's answer to
    /// the request last made, or with nothing where the sponge has
    /// failed, which gives the operation up.
    fn advance(&mut self, sponge: Option<[u8; 16]>) -> (progress: Progress)
        requires
            old(self)@.wf(),
            !old(self)@.idle(),
        ensures
            (final(self)@, progress@) == old(self)@.resumed(
                match sponge {
                    Some(answer) => Some(answer@),
                    None => None,
                },
            ),
            final(self)@.wf(),
    {
        match sponge {
            Some(answer) => {
                self.complete(&answer);
                self.settle()
            },
            None => {
                self.halt();
                Progress::Fatal(Fatal::MacFailure)
            },
        }
    }

    /// Hands the frames emitted so far to the host, oldest first.
    pub fn take_frames(&mut self) -> (frames: Vec<Frame>)
        ensures
            frames_view(frames@) == old(self)@.outbox,
            final(self)@ == (ContextModel { outbox: Seq::empty(), ..old(self)@ }),
    {
        let mut frames: Vec<Frame> = Vec::new();
        std::mem::swap(&mut frames, &mut self.outbox);
        assert(self@.outbox =~= Seq::<FrameView>::empty());
        frames
    }
}

/// The steps of an agenda as plain values.
pub(crate) closed spec fn jobs_view(jobs: Seq<Job>) -> Seq<JobView> {
    jobs.map_values(|job: Job| job@)
}

impl<S: LeiAStore> LeiAContext<S> {
    /// Sets out the steps of an operation and what it will report.
    fn begin(&mut self, agenda: Vec<Job>, event: Option<Event>)
        ensures
            final(self)@ == old(self)@.with_agenda(jobs_view(agenda@), event_view(event)),
    {
        self.agenda = agenda;
        self.event = event;
    }

    /// Sends a message of at most eight bytes on the connection `id`: as
    /// a data frame and its MAC frame, or, with `is_aec`, as the two
    /// frames of the authentication error channel. The frames are
    /// emitted once the sponge has answered for the tag.
    pub fn leia_auth_send(&mut self, id: u16, msg: &[u8], is_aec: bool) -> (progress: Progress)
        requires
            old(self)@.wf(),
            old(self)@.idle(),
        ensures
            (final(self)@, progress@) == old(self)@.auth_sent(id, msg@, is_aec),
            final(self)@.wf(),
    {
        match self.find_slot(id) {
            None => Progress::Fatal(Fatal::UnknownConnection),
            Some(slot) => {
                if msg.len() > CAN_PAYLOAD_SIZE {
                    return Progress::Fatal(Fatal::PayloadTooLong);
                }
                let data = vstd::slice::slice_to_vec(msg);
                let mut agenda: Vec<Job> = Vec::new();
                agenda.push(Job::Send { slot, is_aec, data });
                assert(jobs_view(agenda@) =~= seq![
                    JobView::Send { slot: slot as int, is_aec, data: msg@ },
                ]);
                self.begin(agenda, None);
                self.settle()
            },
        }
    }
}

impl<S: LeiAStore> LeiAContext<S> {
    /// Marks the connection `id` as having signalled a failure and sets
    /// out the signal, with `event` as the report. Changes nothing
    /// where the connection or the channel is unknown.
    fn fail(&mut self, id: u16, event: Option<Event>) -> (known: bool)
        requires
            old(self)@.wf(),
            old(self)@.idle(),
        ensures
            known == old(self)@.failing(id, event_view(event)) is Some,
            known ==> final(self)@ == old(self)@.failing(id, event_view(event)).unwrap(),
            known ==> final(self)@.sound(),
            !known ==> final(self)@ == old(self)@,
    {
        let aec_id = self.aec.id();
        let aec_epoch = self.aec.epoch();
        let slot = match self.find_slot(id) {
            Some(slot) => slot,
            None => {
                return false;
            },
        };
        let channel = match self.find_slot(aec_id) {
            Some(channel) => channel,
            None => {
                return false;
            },
        };
        // Zero counter: the connection awaits the answer to its signal
        let mut conn = self.slot(slot);
        conn.set_counter(0);
        conn.set_auth_fail_in_progress(true);
        self.set_slot(slot, conn);
        let data = fail_payload(aec_epoch, id);
        let mut agenda: Vec<Job> = Vec::new();
        agenda.push(Job::Send { slot: channel, is_aec: true, data });
        assert(jobs_view(agenda@) =~= seq![
            JobView::Send {
                slot: channel as int,
                is_aec: true,
                data: auth_fail_payload(aec_epoch, id),
            },
        ]);
        self.begin(agenda, event);
        proof {
            assert(old(self)@.slots[slot as int].wf());
            assert forall|i: int| 0 <= i < self@.slots.len() implies (#[trigger] self@.slots[i]).wf() by {
                assert(old(self)@.slots[i].wf());
            }
        }
        true
    }

    /// Signals a failure of the connection `id` on the authentication
    /// error channel: the connection's counter goes to zero and it is
    /// marked as awaiting the answer.
    pub fn leia_auth_fail_send(&mut self, id: u16) -> (progress: Progress)
        requires
            old(self)@.wf(),
            old(self)@.idle(),
        ensures
            (final(self)@, progress@) == old(self)@.auth_fail_sent(id),
            final(self)@.wf(),
    {
        if self.fail(id, None) {
            self.settle()
        } else {
            Progress::Fatal(Fatal::UnknownConnection)
        }
    }
}

impl<S: LeiAStore> LeiAContext<S> {
    /// Sets out the steps by which the connection in a slot takes over
    /// the epoch that a peer has signalled, followed by `then`, with
    /// `event` as the report. Changes nothing where the epoch is beyond
    /// the maximum.
    fn adopt(&mut self, slot: usize, epoch: u64, then: Vec<Job>, event: Option<Event>) -> (done:
        bool)
        requires
            old(self)@.wf(),
            old(self)@.idle(),
            slot <= LEIA_AEC_SLOT,
            forall|j: int| 0 <= j < then@.len() ==> (#[trigger] jobs_view(then@)[j]).wf(),
        ensures
            done == old(self)@.adopting(
                slot as int,
                epoch,
                jobs_view(then@),
                event_view(event),
            ) is Some,
            done ==> final(self)@ == old(self)@.adopting(
                slot as int,
                epoch,
                jobs_view(then@),
                event_view(event),
            ).unwrap(),
            done ==> final(self)@.sound(),
            !done ==> final(self)@ == old(self)@,
    {
        let mut conn = self.slot(slot);
        let mut agenda = then;
        // The new epoch must be strictly higher, against replay
        if epoch > conn.epoch() {
            match leia_auth_fail_response(&mut conn, epoch) {
                Ok(()) => {
                    self.set_slot(slot, conn);
                    agenda.insert(0, Job::KeyGen { slot });
                    assert(jobs_view(agenda@) =~= seq![JobView::KeyGen { slot: slot as int }]
                        + jobs_view(then@));
                },
                Err(_) => {
                    return false;
                },
            }
        }
        self.begin(agenda, event);
        proof {
            assert(old(self)@.slots[slot as int].wf());
            assert forall|i: int| 0 <= i < self@.slots.len() implies (#[trigger] self@.slots[i]).wf() by {
                assert(old(self)@.slots[i].wf());
            }
            assert forall|j: int| 0 <= j < self@.agenda.len() implies (#[trigger] self@.agenda[j]).wf() by {
                if self@.agenda.len() == then@.len() {
                    assert(self@.agenda[j] == jobs_view(then@)[j]);
                } else if j > 0 {
                    assert(self@.agenda[j] == jobs_view(then@)[j - 1]);
                }
            }
        }
        true
    }

    /// Receives the signal of a failure for the connection `id` with the
    /// peer's epoch: an epoch ahead of the connection's own is taken
    /// over, so that the connection goes into it with a new session key
    /// and its counter at one.
    pub fn leia_auth_fail_receive(&mut self, id: u16, epoch: u64) -> (progress: Progress)
        requires
            old(self)@.wf(),
            old(self)@.idle(),
        ensures
            (final(self)@, progress@) == old(self)@.auth_fail_received(id, epoch),
            final(self)@.wf(),
    {
        match self.find_slot(id) {
            None => Progress::Fatal(Fatal::UnknownConnection),
            Some(slot) => {
                let then: Vec<Job> = Vec::new();
                assert(jobs_view(then@) =~= Seq::<JobView>::empty());
                if self.adopt(slot, epoch, then, None) {
                    self.settle()
                } else {
                    Progress::Fatal(Fatal::EpochOverflow)
                }
            },
        }
    }

    /// The steps of the answer to a signal.
    fn response(slot: usize, channel: usize) -> (jobs: Vec<Job>)
        ensures
            jobs_view(jobs@) == ContextModel::response_jobs(slot as int, channel as int),
    {
        let mut jobs: Vec<Job> = Vec::new();
        jobs.push(Job::KeyGen { slot });
        jobs.push(Job::SendEpoch { slot: channel, of: slot });
        assert(jobs_view(jobs@) =~= ContextModel::response_jobs(slot as int, channel as int));
        jobs
    }

    /// Answers a signal that refers to the connection `id`: the
    /// connection goes into its next epoch, and that epoch goes out as a
    /// signal on the authentication error channel.
    pub fn leia_auth_fail_send_response(&mut self, id: u16) -> (progress: Progress)
        requires
            old(self)@.wf(),
            old(self)@.idle(),
        ensures
            (final(self)@, progress@) == old(self)@.auth_fail_response_sent(id),
            final(self)@.wf(),
    {
        let aec_id = self.aec.id();
        let slot = match self.find_slot(id) {
            Some(slot) => slot,
            None => {
                return Progress::Fatal(Fatal::UnknownConnection);
            },
        };
        let channel = match self.find_slot(aec_id) {
            Some(channel) => channel,
            None => {
                return Progress::Fatal(Fatal::UnknownConnection);
            },
        };
        let jobs = Self::response(slot, channel);
        self.begin(jobs, None);
        self.settle()
    }
}

/// Whether a payload is the given tag, byte for byte.
fn tag_matches(tag: &[u8; 8], msg: &[u8]) -> (equal: bool)
    ensures
        equal == (tag@ == msg@),
{
    if msg.len() != 8 {
        return false;
    }
    let mut i: usize = 0;
    while i < 8
        invariant
            i <= 8,
            msg@.len() == 8,
            forall|j: int| 0 <= j < i ==> tag@[j] == msg@[j],
        decreases 8 - i,
    {
        if tag[i] != msg[i] {
            return false;
        }
        i += 1;
    }
    assert(tag@ =~= msg@);
    true
}

impl<S: LeiAStore> LeiAContext<S> {
    /// Drops the tag expected on a connection.
    fn forget(&mut self, id: u16)
        ensures
            final(self)@ == (ContextModel {
                expected: old(self)@.expected.remove(id),
                ..old(self)@
            }),
    {
        self.expected.remove(&id);
        assert(self@.expected =~= old(self)@.expected.remove(id));
    }

    /// The tag expected on a connection, if there is one.
    fn expected_tag(&self, id: u16) -> (tag: Option<[u8; 8]>)
        ensures
            self@.expected.contains_key(id) ==> tag is Some && tag.unwrap()@ == self@.expected[id],
            !self@.expected.contains_key(id) ==> tag is None,
    {
        match self.expected.get(&id) {
            Some(tag) => Some(*tag),
            None => None,
        }
    }

    /// Sets out the step that takes over the counter of a message
    /// received and stores the tag that its MAC frame must carry.
    fn add_expected_msg(&mut self, slot: usize, id: u16, counter: u16, data: &[u8], fresh: bool)
        requires
            old(self)@.wf(),
            old(self)@.idle(),
            slot <= LEIA_AEC_SLOT,
            data@.len() <= CAN_PAYLOAD_SIZE,
        ensures
            final(self)@ == old(self)@.with_agenda(
                seq![
                    JobView::Expect { slot: slot as int, id, counter, data: data@, announce: fresh },
                ],
                if fresh {
                    Some(EventView::Received(id, None))
                } else {
                    Some(EventView::MissingMAC(id))
                },
            ),
            final(self)@.sound(),
    {
        let mut agenda: Vec<Job> = Vec::new();
        agenda.push(
            Job::Expect { slot, id, counter, data: vstd::slice::slice_to_vec(data), announce: fresh },
        );
        assert(jobs_view(agenda@) =~= seq![
            JobView::Expect { slot: slot as int, id, counter, data: data@, announce: fresh },
        ]);
        let event = if fresh {
            Event::Received(id, None)
        } else {
            Event::MissingMAC(id)
        };
        self.begin(agenda, Some(event));
    }

    /// Deals with a message frame.
    fn recv_data(&mut self, id: u16, counter: u16, msg: &[u8]) -> (progress: Progress)
        requires
            old(self)@.wf(),
            old(self)@.idle(),
        ensures
            (final(self)@, progress@) == old(self)@.data_received(id, counter, msg@),
            final(self)@.wf(),
    {
        let slot = match self.find_slot(id) {
            Some(slot) => slot,
            None => {
                return Progress::Finished(Some(Event::UnknownId(id)));
            },
        };
        let connection_counter = self.slot(slot).counter();
        if counter < connection_counter {
            if !self.fail(id, Some(Event::Desync(id))) {
                return Progress::Fatal(Fatal::UnknownConnection);
            }
            self.forget(id);
            return self.settle();
        }
        if msg.len() > CAN_PAYLOAD_SIZE {
            return Progress::Fatal(Fatal::PayloadTooLong);
        }
        let fresh = !self.expected.contains_key(&id);
        self.add_expected_msg(slot, id, counter, msg, fresh);
        self.settle()
    }

    /// Deals with the tag frame of a message.
    fn recv_mac(&mut self, id: u16, msg: &[u8]) -> (progress: Progress)
        requires
            old(self)@.wf(),
            old(self)@.idle(),
        ensures
            (final(self)@, progress@) == old(self)@.mac_received(id, msg@),
            final(self)@.wf(),
    {
        if id == 0 {
            return Progress::Finished(Some(Event::UnknownId(id)));
        }
        let msg_id: u16 = id - 1;
        if self.find_slot(msg_id).is_none() {
            return Progress::Finished(Some(Event::UnknownId(id)));
        }
        match self.expected_tag(msg_id) {
            None => Progress::Finished(Some(Event::UnexpectedMAC(msg_id))),
            Some(tag) => {
                if tag_matches(&tag, msg) {
                    self.forget(msg_id);
                    Progress::Finished(Some(Event::Authenticated(msg_id)))
                } else {
                    if !self.fail(msg_id, Some(Event::IncorrectMAC(msg_id))) {
                        return Progress::Fatal(Fatal::UnknownConnection);
                    }
                    self.forget(msg_id);
                    self.settle()
                }
            },
        }
    }
}

impl<S: LeiAStore> LeiAContext<S> {
    /// Deals with a signal on the authentication error channel.
    fn recv_aec_epoch(&mut self, id: u16, counter: u16, msg: &[u8]) -> (progress: Progress)
        requires
            old(self)@.wf(),
            old(self)@.idle(),
        ensures
            (final(self)@, progress@) == old(self)@.aec_epoch_received(id, counter, msg@),
            final(self)@.wf(),
    {
        let channel = match self.find_slot(id) {
            Some(channel) => channel,
            None => {
                return Progress::Finished(Some(Event::UnknownId(id)));
            },
        };
        if msg.len() > CAN_PAYLOAD_SIZE {
            return Progress::Fatal(Fatal::PayloadTooLong);
        }
        if msg.len() < CAN_PAYLOAD_SIZE {
            return Progress::Fatal(Fatal::PayloadTooShort);
        }
        let word = read_le64(msg);
        assert(msg@.subrange(0, 8) =~= msg@);
        let epoch: u64 = word & 0xFFFF_FFFF_FFFF;
        assert(epoch == word % 0x1_0000_0000_0000) by (bit_vector)
            requires
                epoch == word & 0xFFFF_FFFF_FFFFu64,
        ;
        let tail = vstd::slice::slice_subrange(msg, 6, 8);
        let referred = read_le16(tail);
        assert(tail@.subrange(0, 2) =~= msg@.subrange(6, 8));
        let slot = match self.find_slot(referred) {
            Some(slot) => slot,
            None => {
                return Progress::Finished(Some(Event::UnknownId(referred)));
            },
        };
        let mut then: Vec<Job> = Vec::new();
        then.push(
            Job::Expect {
                slot: channel,
                id,
                counter,
                data: vstd::slice::slice_to_vec(msg),
                announce: false,
            },
        );
        assert(jobs_view(then@) =~= seq![
            JobView::Expect { slot: channel as int, id, counter, data: msg@, announce: false },
        ]);
        if self.adopt(slot, epoch, then, Some(Event::Resynced(referred))) {
            self.signal = Some(referred);
            self.settle()
        } else {
            Progress::Fatal(Fatal::EpochOverflow)
        }
    }
}

impl<S: LeiAStore> LeiAContext<S> {
    /// Deals with the tag of a signal on the authentication error
    /// channel.
    fn recv_aec_mac(&mut self, id: u16, msg: &[u8]) -> (progress: Progress)
        requires
            old(self)@.wf(),
            old(self)@.idle(),
        ensures
            (final(self)@, progress@) == old(self)@.aec_mac_received(id, msg@),
            final(self)@.wf(),
    {
        let matches = match self.expected_tag(id) {
            Some(tag) => tag_matches(&tag, msg),
            None => false,
        };
        if !matches {
            self.forget(id);
            self.signal = None;
            return Progress::Finished(Some(Event::UnexpectedMAC(id)));
        }
        let channel = match self.find_slot(id) {
            Some(channel) => channel,
            None => {
                return Progress::Fatal(Fatal::UnknownConnection);
            },
        };
        let signalled = match self.signal {
            Some(referred) => self.find_slot(referred),
            None => None,
        };
        self.forget(id);
        self.signal = None;
        let mut conn = self.slot(channel);
        let mut agenda: Vec<Job> = Vec::new();
        if update_counters(&mut conn) {
            agenda.push(Job::KeyGen { slot: channel });
        } else {
            self.set_slot(channel, conn);
        }
        let ghost rollover = jobs_view(agenda@);
        assert(rollover =~= if old(self)@.slots[channel as int].exhausted() {
            seq![JobView::KeyGen { slot: channel as int }]
        } else {
            Seq::<JobView>::empty()
        });
        match signalled {
            Some(slot) => {
                let mut referred = self.slot(slot);
                if !referred.auth_fail_in_progress() {
                    agenda.push(Job::KeyGen { slot });
                    agenda.push(Job::SendEpoch { slot: channel, of: slot });
                    assert(jobs_view(agenda@) =~= rollover + ContextModel::response_jobs(
                        slot as int,
                        channel as int,
                    ));
                } else {
                    assert(jobs_view(agenda@) =~= rollover + Seq::<JobView>::empty());
                }
                referred.set_auth_fail_in_progress(false);
                self.set_slot(slot, referred);
            },
            None => {},
        }
        self.begin(agenda, Some(Event::Authenticated(id)));
        proof {
            assert(old(self)@.slots[channel as int].wf());
            assert forall|i: int| 0 <= i < self@.slots.len() implies (#[trigger] self@.slots[i]).wf() by {
                assert(old(self)@.slots[i].wf());
            }
        }
        self.settle()
    }
}

impl<S: LeiAStore> VulCANContext for LeiAContext<S> {
    type ProtocolInfo = LeiAConnection;

    open spec fn valid(&self) -> bool {
        self@.wf()
    }

    open spec fn idle(&self) -> bool {
        self@.idle()
    }

    /// Brings the context up: every live data connection and the
    /// authentication error channel go into their next epoch.
    fn init(&mut self) -> (progress: Progress)
        ensures
            (final(self)@, progress@) == old(self)@.initialized(),
    {
        let mut jobs: Vec<Job> = Vec::new();
        let mut i: usize = 0;
        assert(jobs_view(jobs@) =~= key_jobs(self@.slots, 0));
        while i < 16
            invariant
                i <= 16,
                self@.slots.len() == 17,
                jobs_view(jobs@) == key_jobs(self@.slots, i as int),
            decreases 16 - i,
        {
            if self.slot(i).id() != 0 {
                jobs.push(Job::KeyGen { slot: i });
                assert(jobs_view(jobs@) =~= key_jobs(self@.slots, i as int).push(
                    JobView::KeyGen { slot: i as int },
                ));
            }
            i += 1;
        }
        jobs.push(Job::KeyGen { slot: 16 });
        assert(jobs_view(jobs@) =~= key_jobs(self@.slots, 16).push(
            JobView::KeyGen { slot: 16 },
        ));
        self.begin(jobs, None);
        proof {
            lemma_key_jobs_wf(old(self)@.slots, 16);
        }
        self.settle()
    }

    /// Sends a message of at most eight bytes on the data connection
    /// `id`, as a data frame and its MAC frame.
    fn auth_send(&mut self, id: u16, msg: &[u8]) -> (progress: Progress)
        ensures
            (final(self)@, progress@) == old(self)@.auth_sent(id, msg@, false),
    {
        self.leia_auth_send(id, msg, false)
    }

    /// Emits a frame without authentication, under the legacy
    /// identifier `id`.
    fn send(&mut self, id: u16, msg: &[u8])
        ensures
            final(self)@ == (ContextModel {
                outbox: old(self)@.outbox.push(FrameView { eid: id as u32, payload: msg@ }),
                ..old(self)@
            }),
    {
        let payload = vstd::slice::slice_to_vec(msg);
        self.outbox.push(Frame { eid: id as u32, payload });
        assert(self@.outbox =~= old(self)@.outbox.push(
            FrameView { eid: id as u32, payload: msg@ },
        ));
    }

    /// Receives a frame. One that is not addressed to the protocol is
    /// ignored; a message frame sets the expectation of its tag; a tag
    /// frame is held against the expectation; the frames of the
    /// authentication error channel resynchronise the epoch.
    fn auth_recv(&mut self, eid: u32, msg: &[u8]) -> (progress: Progress)
        ensures
            (final(self)@, progress@) == old(self)@.received(eid, msg@),
    {
        match parse_eid(eid) {
            None => Progress::Ignored,
            Some((id, cmd, counter)) => match cmd {
                LeiACmd::Data => self.recv_data(id, counter, msg),
                LeiACmd::Mac => self.recv_mac(id, msg),
                LeiACmd::AecEpoch => self.recv_aec_epoch(id, counter, msg),
                LeiACmd::AecMac => self.recv_aec_mac(id, msg),
            },
        }
    }

    /// Goes on with the operation under way, with the sponge's answer to
    /// the request last made, or with nothing where the sponge has
    /// failed, which gives the operation up.
    fn resume(&mut self, sponge: Option<[u8; 16]>) -> (progress: Progress)
        ensures
            (final(self)@, progress@) == old(self)@.resumed(
                match sponge {
                    Some(answer) => Some(answer@),
                    None => None,
                },
            ),
    {
        self.advance(sponge)
    }
}

} // verus!
