//! The attestation server as a state machine over plain values: it
//! distributes a connection key to every module that takes part in the
//! connection, and then takes the modules' acknowledgements.

use crate::attestation::attest_frames;
use crate::attestation::attest_plaintext;
use crate::attestation::CAN_ID_ATTEST_RECV;
use crate::bytes::from_le16;
use crate::event::Fatal;
use crate::frame::FrameView;
use crate::mac::mac_tag;
use vstd::prelude::*;

verus! {

/// One step of the distribution.
#[derive(PartialEq, Eq, Structural, Clone, Copy, Debug)]
pub enum Task {
    /// Start on a module: its list of expected answers is emptied.
    Enter { pm: u16 },
    /// Hand the key of a connection to a module.
    Distribute { pm: u16, conn: u16 },
}

/// What the server asks of the sponge to hand a connection key to a
/// module, as plain values: to wrap `plaintext` under `key_pm`, and the
/// MAC of the challenge under `key_conn`.
pub struct KeyRequestView {
    pub id_pm: u16,
    pub id_conn: u16,
    pub key_pm: Seq<u8>,
    pub key_conn: Seq<u8>,
    pub plaintext: Seq<u8>,
}

/// How far the distribution has come, as plain values.
pub enum DistributionView {
    /// The sponge is asked for the next module and connection.
    Need(KeyRequestView),
    /// Every key is distributed.
    Done,
    /// The distribution cannot go on.
    Fatal(Fatal),
}

/// What the server tells about a frame.
#[derive(PartialEq, Eq, Structural, Clone, Copy, Debug)]
pub enum AttestationEvent {
    /// The frame is no acknowledgement.
    NotAddressed,
    /// The frame is too short to name a module and a connection.
    Malformed,
    /// A module has announced its answer for a connection.
    Awaiting(u16, u16),
    /// The module's answer is the one expected: the connection is
    /// attested for the module.
    Attested(u16, u16),
    /// The module's answer is not the one expected.
    Mismatch(u16, u16),
    /// No answer is expected of the module for the connection.
    Unknown(u16, u16),
}

/// The steps for one module and the first `n` of its connections.
pub open spec fn module_tasks(pm: u16, connections: Seq<u16>, n: int) -> Seq<Task>
    decreases n,
{
    if n <= 0 {
        seq![Task::Enter { pm }]
    } else {
        module_tasks(pm, connections, n - 1).push(Task::Distribute { pm, conn: connections[n - 1] })
    }
}

/// The steps for the first `n` modules of a participation list, in its
/// order: each module with all its connections.
pub open spec fn participation_tasks(participation: Seq<(u16, Seq<u16>)>, n: int) -> Seq<Task>
    decreases n,
{
    if n <= 0 {
        Seq::empty()
    } else {
        participation_tasks(participation, n - 1) + module_tasks(
            participation[n - 1].0,
            participation[n - 1].1,
            participation[n - 1].1.len() as int,
        )
    }
}

/// The first position from `from` on of an answer for a connection.
pub open spec fn first_answer(answers: Seq<(u16, Seq<u8>)>, conn: u16, from: int) -> Option<int>
    decreases answers.len() - from,
{
    if from < 0 || from >= answers.len() {
        None
    } else if answers[from].0 == conn {
        Some(from)
    } else {
        first_answer(answers, conn, from + 1)
    }
}

/// The attestation server as plain values.
pub struct ServerModel {
    /// The key of each module.
    pub pm_keys: Map<u16, Seq<u8>>,
    /// The key of each connection.
    pub connection_keys: Map<u16, Seq<u8>>,
    /// The steps of the distribution still to take.
    pub tasks: Seq<Task>,
    /// For each module the answers expected of it: a connection and the
    /// MAC that attests it.
    pub response_macs: Map<u16, Seq<(u16, Seq<u8>)>>,
    /// The module and connection whose answer has been announced.
    pub expect_mac: Option<(u16, u16)>,
    /// The frames emitted and not yet taken by the host, oldest first.
    pub outbox: Seq<FrameView>,
}

impl ServerModel {
    /// The server with the distribution given up.
    pub open spec fn halted(self) -> ServerModel {
        ServerModel { tasks: Seq::empty(), ..self }
    }

    /// What is asked of the sponge for a module and a connection, where
    /// the server holds both keys.
    pub open spec fn key_request(self, pm: u16, conn: u16) -> Option<KeyRequestView> {
        if self.pm_keys.contains_key(pm) && self.connection_keys.contains_key(conn) {
            Some(
                KeyRequestView {
                    id_pm: pm,
                    id_conn: conn,
                    key_pm: self.pm_keys[pm],
                    key_conn: self.connection_keys[conn],
                    plaintext: attest_plaintext(conn, self.connection_keys[conn]),
                },
            )
        } else {
            None
        }
    }

    /// The distribution waits for the sponge.
    pub open spec fn awaiting(self) -> bool {
        &&& self.tasks.len() > 0
        &&& self.tasks[0] is Distribute
        &&& self.key_request(self.tasks[0]->Distribute_pm, self.tasks[0]->Distribute_conn) is Some
    }

    /// The distribution either is done or waits for the sponge.
    pub open spec fn wf(self) -> bool {
        self.tasks.len() > 0 ==> self.awaiting()
    }

    /// Where the distribution stands: the modules in front are started
    /// on, each with its list of expected answers emptied, up to the
    /// first connection to hand out, for which the sponge is asked. A
    /// module or connection without a key ends the distribution.
    pub open spec fn polled(self) -> (ServerModel, DistributionView)
        decreases self.tasks.len(),
    {
        if self.tasks.len() == 0 {
            (self, DistributionView::Done)
        } else {
            match self.tasks[0] {
                Task::Enter { pm } => if self.pm_keys.contains_key(pm) {
                    (ServerModel {
                        response_macs: self.response_macs.insert(pm, Seq::empty()),
                        tasks: self.tasks.drop_first(),
                        ..self
                    }).polled()
                } else {
                    (self.halted(), DistributionView::Fatal(Fatal::MissingKey))
                },
                Task::Distribute { pm, conn } => match self.key_request(pm, conn) {
                    Some(request) => (self, DistributionView::Need(request)),
                    None => (self.halted(), DistributionView::Fatal(Fatal::MissingKey)),
                },
            }
        }
    }

    /// Starting the distribution for a participation list.
    pub open spec fn initialized(self, participation: Seq<(u16, Seq<u16>)>) -> (
        ServerModel,
        DistributionView,
    ) {
        (ServerModel {
            tasks: participation_tasks(participation, participation.len() as int),
            ..self
        }).polled()
    }

    /// The answers expected of a module.
    pub open spec fn answers(self, pm: u16) -> Seq<(u16, Seq<u8>)> {
        if self.response_macs.contains_key(pm) {
            self.response_macs[pm]
        } else {
            Seq::empty()
        }
    }

    /// The server after the sponge has answered for the module and
    /// connection in front: the five frames of the distribution are
    /// emitted, and the MAC of the challenge is the answer expected of
    /// the module for the connection.
    pub open spec fn delivered(self, ciphertext: Seq<u8>, tag: Seq<u8>, nonce_sponge: Seq<u8>) -> (
        ServerModel,
        DistributionView,
    )
        recommends
            self.awaiting(),
    {
        let pm = self.tasks[0]->Distribute_pm;
        let conn = self.tasks[0]->Distribute_conn;
        (ServerModel {
            response_macs: self.response_macs.insert(
                pm,
                self.answers(pm).push((conn, mac_tag(nonce_sponge))),
            ),
            outbox: self.outbox + attest_frames(pm, ciphertext, tag),
            tasks: self.tasks.drop_first(),
            ..self
        }).polled()
    }

    /// Receiving a frame. Only frames under the identifier for
    /// acknowledgements count. The first names a module and a
    /// connection, both little-endian; the next carries the module's
    /// answer, which is held against the one expected. The expectation
    /// is dropped whatever the answer, and the server waits for the next
    /// announcement.
    pub open spec fn received(self, eid: u32, data: Seq<u8>) -> (ServerModel, AttestationEvent) {
        if eid % 0x1_0000 != CAN_ID_ATTEST_RECV {
            (self, AttestationEvent::NotAddressed)
        } else {
            match self.expect_mac {
                None => if data.len() < 4 {
                    (self, AttestationEvent::Malformed)
                } else {
                    let pm = from_le16(data.subrange(0, 2)) as u16;
                    let conn = from_le16(data.subrange(2, 4)) as u16;
                    (
                        ServerModel { expect_mac: Some((pm, conn)), ..self },
                        AttestationEvent::Awaiting(pm, conn),
                    )
                },
                Some((pm, conn)) => {
                    let idle = ServerModel { expect_mac: None, ..self };
                    match first_answer(self.answers(pm), conn, 0) {
                        None => (idle, AttestationEvent::Unknown(pm, conn)),
                        Some(pos) => (
                            ServerModel {
                                response_macs: self.response_macs.insert(
                                    pm,
                                    self.answers(pm).remove(pos),
                                ),
                                ..idle
                            },
                            if self.answers(pm)[pos].1 == data {
                                AttestationEvent::Attested(pm, conn)
                            } else {
                                AttestationEvent::Mismatch(pm, conn)
                            },
                        ),
                    }
                },
            }
        }
    }
}

/// The first answer for a connection, where there is one, is an answer
/// for it, and none before it is.
pub proof fn lemma_first_answer(answers: Seq<(u16, Seq<u8>)>, conn: u16, from: int)
    requires
        0 <= from,
    ensures
        match first_answer(answers, conn, from) {
            Some(pos) => from <= pos < answers.len() && answers[pos].0 == conn && forall|j: int|
                from <= j < pos ==> answers[j].0 != conn,
            None => forall|j: int| from <= j < answers.len() ==> answers[j].0 != conn,
        },
    decreases answers.len() - from,
{
    if from < answers.len() && answers[from].0 != conn {
        lemma_first_answer(answers, conn, from + 1);
    }
}

impl ServerModel {
    /// Polling leaves the distribution done or waiting for the sponge.
    pub proof fn lemma_polled_wf(self)
        ensures
            self.polled().0.wf(),
            self.polled().1 is Need <==> self.polled().0.tasks.len() > 0,
            self.polled().0.expect_mac == self.expect_mac,
        decreases self.tasks.len(),
    {
        if self.tasks.len() > 0 {
            match self.tasks[0] {
                Task::Enter { pm } => {
                    if self.pm_keys.contains_key(pm) {
                        (ServerModel {
                            response_macs: self.response_macs.insert(pm, Seq::empty()),
                            tasks: self.tasks.drop_first(),
                            ..self
                        }).lemma_polled_wf();
                    }
                },
                Task::Distribute { pm, conn } => {},
            }
        }
    }
}

} // verus!
