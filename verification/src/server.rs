//! The attestation server: it hands every module the keys of its
//! connections and checks the modules' acknowledgements.

use crate::attestation::build_key_distribution_sequence;
use crate::attestation::key_distribution_plaintext;
use crate::attestation::CAN_ID_ATTEST_RECV;
use crate::bytes::read_le16;
use crate::event::Fatal;
use crate::frame::frames_view;
use crate::frame::Frame;
use crate::frame::FrameView;
use crate::keys::SancusKey;
use crate::server_model::first_answer;
use crate::server_model::module_tasks;
use crate::server_model::participation_tasks;
use crate::server_model::AttestationEvent;
use crate::server_model::DistributionView;
use crate::server_model::KeyRequestView;
use crate::server_model::ServerModel;
use crate::server_model::Task;
use std::collections::HashMap;
use vstd::prelude::*;

verus! {

broadcast use vstd::std_specs::hash::group_hash_axioms;

/// What the server asks of the sponge to hand a connection key to a
/// module: to wrap `plaintext` under `key_pm`, with the associated data
/// of key distribution, and the MAC of the challenge under `key_conn`.
#[derive(Debug, PartialEq, Eq)]
pub struct KeyRequest {
    pub id_pm: u16,
    pub id_conn: u16,
    pub key_pm: SancusKey,
    pub key_conn: SancusKey,
    pub plaintext: [u8; 22],
}

impl View for KeyRequest {
    type V = KeyRequestView;

    open spec fn view(&self) -> KeyRequestView {
        KeyRequestView {
            id_pm: self.id_pm,
            id_conn: self.id_conn,
            key_pm: self.key_pm@,
            key_conn: self.key_conn@,
            plaintext: self.plaintext@,
        }
    }
}

/// How far the distribution has come.
#[derive(Debug, PartialEq, Eq)]
pub enum Distribution {
    /// The sponge is asked for the next module and connection; the host
    /// delivers its answers.
    Need(KeyRequest),
    /// Every key is distributed.
    Done,
    /// The distribution cannot go on, and the host must not.
    Fatal(Fatal),
}

impl View for Distribution {
    type V = DistributionView;

    open spec fn view(&self) -> DistributionView {
        match *self {
            Distribution::Need(request) => DistributionView::Need(request@),
            Distribution::Done => DistributionView::Done,
            Distribution::Fatal(fatal) => DistributionView::Fatal(fatal),
        }
    }
}

/// A list of expected answers as plain values.
pub open spec fn answers_view(answers: Seq<(u16, [u8; 8])>) -> Seq<(u16, Seq<u8>)> {
    answers.map_values(|answer: (u16, [u8; 8])| (answer.0, answer.1@))
}

/// A participation list as plain values.
pub open spec fn participation_view(participation: Seq<(u16, Vec<u16>)>) -> Seq<(u16, Seq<u16>)> {
    participation.map_values(|module: (u16, Vec<u16>)| (module.0, module.1@))
}

/// The attestation server.
pub struct AttestationServer {
    // Maps PM identifiers to module-specific key K_PM
    pm_keys: HashMap<u16, SancusKey>,
    // Maps connection identifiers to connection key
    connection_keys: HashMap<u16, SancusKey>,
    tasks: Vec<Task>,
    // Maps PM identifiers to the answers expected of the module
    response_macs: HashMap<u16, Vec<(u16, [u8; 8])>>,
    expect_mac: Option<(u16, u16)>,
    outbox: Vec<Frame>,
}

impl View for AttestationServer {
    type V = ServerModel;

    closed spec fn view(&self) -> ServerModel {
        ServerModel {
            pm_keys: self.pm_keys@.map_values(|key: SancusKey| key@),
            connection_keys: self.connection_keys@.map_values(|key: SancusKey| key@),
            tasks: self.tasks@,
            response_macs: self.response_macs@.map_values(
                |answers: Vec<(u16, [u8; 8])>| answers_view(answers@),
            ),
            expect_mac: self.expect_mac,
            outbox: frames_view(self.outbox@),
        }
    }
}

impl AttestationServer {
    /// A server without keys, with nothing to distribute and no answer
    /// expected.
    pub fn new() -> (server: Self)
        ensures
            server@ == (ServerModel {
                pm_keys: Map::empty(),
                connection_keys: Map::empty(),
                tasks: Seq::empty(),
                response_macs: Map::empty(),
                expect_mac: None,
                outbox: Seq::empty(),
            }),
            server@.wf(),
    {
        let server = AttestationServer {
            pm_keys: HashMap::new(),
            connection_keys: HashMap::new(),
            tasks: Vec::new(),
            response_macs: HashMap::new(),
            expect_mac: None,
            outbox: Vec::new(),
        };
        assert(server@.pm_keys =~= Map::empty());
        assert(server@.connection_keys =~= Map::empty());
        assert(server@.response_macs =~= Map::empty());
        assert(server@.outbox =~= Seq::empty());
        server
    }

    /// Installs the key of a module.
    pub fn set_module_key(&mut self, id_pm: u16, key: SancusKey)
        requires
            old(self)@.tasks.len() == 0,
        ensures
            final(self)@ == (ServerModel {
                pm_keys: old(self)@.pm_keys.insert(id_pm, key@),
                ..old(self)@
            }),
    {
        self.pm_keys.insert(id_pm, key);
        assert(self@.pm_keys =~= old(self)@.pm_keys.insert(id_pm, key@));
    }

    /// Installs the key of a connection.
    pub fn set_connection_key(&mut self, id_conn: u16, key: SancusKey)
        requires
            old(self)@.tasks.len() == 0,
        ensures
            final(self)@ == (ServerModel {
                connection_keys: old(self)@.connection_keys.insert(id_conn, key@),
                ..old(self)@
            }),
    {
        self.connection_keys.insert(id_conn, key);
        assert(self@.connection_keys =~= old(self)@.connection_keys.insert(id_conn, key@));
    }

    /// Whether the distribution is done or has not begun.
    pub fn is_idle(&self) -> (idle: bool)
        ensures
            idle == (self@.tasks.len() == 0),
    {
        self.tasks.len() == 0
    }

    /// Hands the frames emitted so far to the host, oldest first.
    pub fn take_frames(&mut self) -> (frames: Vec<Frame>)
        ensures
            frames_view(frames@) == old(self)@.outbox,
            final(self)@ == (ServerModel { outbox: Seq::empty(), ..old(self)@ }),
    {
        let mut frames: Vec<Frame> = Vec::new();
        std::mem::swap(&mut frames, &mut self.outbox);
        assert(self@.outbox =~= Seq::<FrameView>::empty());
        frames
    }
}

impl AttestationServer {
    /// Gives the distribution up.
    fn halt(&mut self)
        ensures
            final(self)@ == old(self)@.halted(),
    {
        self.tasks.clear();
    }

    /// What is asked of the sponge for a module and a connection, where
    /// the server holds both keys.
    fn key_request(&self, pm: u16, conn: u16) -> (request: Option<KeyRequest>)
        ensures
            match request {
                Some(r) => self@.key_request(pm, conn) == Some(r@),
                None => self@.key_request(pm, conn) is None,
            },
    {
        let key_pm = match self.pm_keys.get(&pm) {
            Some(key) => *key,
            None => {
                return None;
            },
        };
        let key_conn = match self.connection_keys.get(&conn) {
            Some(key) => *key,
            None => {
                return None;
            },
        };
        let plaintext = key_distribution_plaintext(conn, &key_conn);
        Some(KeyRequest { id_pm: pm, id_conn: conn, key_pm, key_conn, plaintext })
    }

    /// Starts on the modules in front and tells the host where the
    /// distribution stands.
    fn poll(&mut self) -> (distribution: Distribution)
        ensures
            (final(self)@, distribution@) == old(self)@.polled(),
            final(self)@.wf(),
    {
        proof {
            old(self)@.lemma_polled_wf();
        }
        loop
            invariant
                self@.polled() == old(self)@.polled(),
            decreases self.tasks.len(),
        {
            if self.tasks.len() == 0 {
                return Distribution::Done;
            }
            match self.tasks[0] {
                Task::Enter { pm } => {
                    if !self.pm_keys.contains_key(&pm) {
                        self.halt();
                        return Distribution::Fatal(Fatal::MissingKey);
                    }
                    let ghost before = self@;
                    self.response_macs.insert(pm, Vec::new());
                    self.tasks.remove(0);
                    proof {
                        assert(self@.tasks =~= before.tasks.drop_first());
                        assert(answers_view(Seq::<(u16, [u8; 8])>::empty()) =~= Seq::<
                            (u16, Seq<u8>),
                        >::empty());
                        assert(self@.response_macs =~= before.response_macs.insert(
                            pm,
                            Seq::empty(),
                        ));
                        assert(self@ == (ServerModel {
                            response_macs: before.response_macs.insert(pm, Seq::empty()),
                            tasks: before.tasks.drop_first(),
                            ..before
                        }));
                    }
                },
                Task::Distribute { pm, conn } => {
                    match self.key_request(pm, conn) {
                        Some(request) => {
                            return Distribution::Need(request);
                        },
                        None => {
                            self.halt();
                            return Distribution::Fatal(Fatal::MissingKey);
                        },
                    }
                },
            }
        }
    }

    /// Starts the distribution: every module of the participation list,
    /// in its order, is handed the key of each of its connections, in
    /// their order.
    pub fn initialize(&mut self, participation: &[(u16, Vec<u16>)]) -> (distribution: Distribution)
        requires
            old(self)@.tasks.len() == 0,
        ensures
            (final(self)@, distribution@) == old(self)@.initialized(
                participation_view(participation@),
            ),
            final(self)@.wf(),
    {
        let ghost list = participation_view(participation@);
        let mut tasks: Vec<Task> = Vec::new();
        let mut i: usize = 0;
        assert(tasks@ =~= participation_tasks(list, 0));
        while i < participation.len()
            invariant
                i <= participation@.len(),
                list == participation_view(participation@),
                tasks@ == participation_tasks(list, i as int),
            decreases participation@.len() - i,
        {
            let id_pm: u16 = participation[i].0;
            let connections = &participation[i].1;
            assert(list[i as int] == (id_pm, connections@));
            let ghost done = tasks@;
            tasks.push(Task::Enter { pm: id_pm });
            let mut j: usize = 0;
            assert(tasks@ =~= done + module_tasks(id_pm, connections@, 0));
            while j < connections.len()
                invariant
                    j <= connections@.len(),
                    tasks@ == done + module_tasks(id_pm, connections@, j as int),
                decreases connections@.len() - j,
            {
                tasks.push(Task::Distribute { pm: id_pm, conn: connections[j] });
                assert(tasks@ =~= done + module_tasks(id_pm, connections@, j as int + 1));
                j += 1;
            }
            i += 1;
        }
        self.tasks = tasks;
        self.poll()
    }

    /// Takes the sponge's answers for the module and connection last
    /// asked for: `ciphertext` and `tag` of the wrapping, and the MAC of
    /// the challenge. The five frames of the distribution are emitted and
    /// the answer expected of the module is kept.
    pub fn deliver(&mut self, ciphertext: &[u8; 22], tag: &[u8; 16], nonce_sponge: &[u8; 16]) -> (
        distribution: Distribution
    )
        requires
            old(self)@.awaiting(),
        ensures
            (final(self)@, distribution@) == old(self)@.delivered(
                ciphertext@,
                tag@,
                nonce_sponge@,
            ),
            final(self)@.wf(),
    {
        let (pm, conn) = match self.tasks.remove(0) {
            Task::Distribute { pm, conn } => (pm, conn),
            Task::Enter { pm } => (pm, 0),
        };
        assert(self@.tasks =~= old(self)@.tasks.drop_first());
        let (mut sequence, expected_nonce_mac) = build_key_distribution_sequence(
            pm,
            ciphertext,
            tag,
            nonce_sponge,
        );
        let ghost frames = frames_view(sequence@);
        let mut answers = match self.response_macs.remove(&pm) {
            Some(answers) => answers,
            None => Vec::new(),
        };
        assert(answers_view(answers@) =~= old(self)@.answers(pm));
        answers.push((conn, expected_nonce_mac));
        assert(answers_view(answers@) =~= old(self)@.answers(pm).push(
            (conn, expected_nonce_mac@),
        ));
        self.response_macs.insert(pm, answers);
        assert(self@.response_macs =~= old(self)@.response_macs.insert(
            pm,
            old(self)@.answers(pm).push((conn, expected_nonce_mac@)),
        ));
        self.outbox.append(&mut sequence);
        assert(self@.outbox =~= old(self)@.outbox + frames);
        self.poll()
    }
}

/// Whether a payload is the given answer, byte for byte.
fn answer_matches(answer: &[u8; 8], data: &[u8]) -> (equal: bool)
    ensures
        equal == (answer@ == data@),
{
    if data.len() != 8 {
        return false;
    }
    let mut i: usize = 0;
    while i < 8
        invariant
            i <= 8,
            data@.len() == 8,
            forall|j: int| 0 <= j < i ==> answer@[j] == data@[j],
        decreases 8 - i,
    {
        if answer[i] != data[i] {
            return false;
        }
        i += 1;
    }
    assert(answer@ =~= data@);
    true
}

/// The first position of an answer for a connection.
fn position(answers: &Vec<(u16, [u8; 8])>, conn: u16) -> (pos: Option<usize>)
    ensures
        match pos {
            Some(p) => first_answer(answers_view(answers@), conn, 0) == Some(p as int) && p
                < answers@.len(),
            None => first_answer(answers_view(answers@), conn, 0) is None,
        },
{
    let ghost list = answers_view(answers@);
    let mut i: usize = 0;
    while i < answers.len()
        invariant
            i <= answers@.len(),
            list == answers_view(answers@),
            first_answer(list, conn, 0) == first_answer(list, conn, i as int),
        decreases answers@.len() - i,
    {
        assert(list[i as int].0 == answers@[i as int].0);
        if answers[i].0 == conn {
            assert(first_answer(list, conn, i as int) == Some(i as int));
            return Some(i);
        }
        assert(first_answer(list, conn, i as int) == first_answer(list, conn, i as int + 1));
        i += 1;
    }
    None
}

impl AttestationServer {
    /// Receives a frame. Only frames under the identifier for
    /// acknowledgements count: the first names a module and a
    /// connection, the next carries the module's answer, which attests
    /// the connection for the module if it is the one expected.
    pub fn recv_message(&mut self, eid: u32, data: &[u8]) -> (event: AttestationEvent)
        ensures
            (final(self)@, event) == old(self)@.received(eid, data@),
    {
        let low: u32 = eid & 0xFFFF;
        assert(low == eid % 0x1_0000) by (bit_vector)
            requires
                low == eid & 0xFFFFu32,
        ;
        if low != CAN_ID_ATTEST_RECV as u32 {
            return AttestationEvent::NotAddressed;
        }
        match self.expect_mac {
            None => {
                if data.len() < 4 {
                    return AttestationEvent::Malformed;
                }
                let pm_id = read_le16(vstd::slice::slice_subrange(data, 0, 2));
                let connection_id = read_le16(vstd::slice::slice_subrange(data, 2, 4));
                assert(data@.subrange(0, 2).subrange(0, 2) =~= data@.subrange(0, 2));
                assert(data@.subrange(2, 4).subrange(0, 2) =~= data@.subrange(2, 4));
                self.expect_mac = Some((pm_id, connection_id));
                AttestationEvent::Awaiting(pm_id, connection_id)
            },
            Some((pm_id, conn_id)) => {
                self.expect_mac = None;
                let mut answers = match self.response_macs.remove(&pm_id) {
                    Some(answers) => answers,
                    None => {
                        assert(self@.response_macs =~= old(self)@.response_macs);
                        return AttestationEvent::Unknown(pm_id, conn_id);
                    },
                };
                let ghost expected = answers_view(answers@);
                assert(expected == old(self)@.answers(pm_id));
                let pos = match position(&answers, conn_id) {
                    Some(pos) => pos,
                    None => {
                        self.response_macs.insert(pm_id, answers);
                        assert(self@.response_macs =~= old(self)@.response_macs);
                        return AttestationEvent::Unknown(pm_id, conn_id);
                    },
                };
                let answer = answers.remove(pos);
                assert(answers_view(answers@) =~= expected.remove(pos as int));
                assert(answer.1@ == expected[pos as int].1);
                self.response_macs.insert(pm_id, answers);
                assert(self@.response_macs =~= old(self)@.response_macs.insert(
                    pm_id,
                    expected.remove(pos as int),
                ));
                if answer_matches(&answer.1, data) {
                    AttestationEvent::Attested(pm_id, conn_id)
                } else {
                    AttestationEvent::Mismatch(pm_id, conn_id)
                }
            },
        }
    }
}

impl AttestationServer {
    /// The module and connection whose answer has been announced.
    pub fn expect_mac(&self) -> (announced: Option<(u16, u16)>)
        ensures
            announced == self@.expect_mac,
    {
        self.expect_mac
    }

    /// The answer expected of a module for a connection, if there is
    /// one.
    pub fn expected_answer(&self, id_pm: u16, id_conn: u16) -> (answer: Option<[u8; 8]>)
        ensures
            match first_answer(self@.answers(id_pm), id_conn, 0) {
                Some(pos) => answer is Some && answer.unwrap()@ == self@.answers(id_pm)[pos].1,
                None => answer is None,
            },
    {
        match self.response_macs.get(&id_pm) {
            None => None,
            Some(answers) => {
                assert(answers_view(answers@) == self@.answers(id_pm));
                match position(answers, id_conn) {
                    Some(pos) => Some(answers[pos].1),
                    None => None,
                }
            },
        }
    }
}

} // verus!
