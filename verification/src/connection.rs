//! One authenticated connection: its counter, its epoch and its keys.

use crate::bytes::le64;
use crate::bytes::write_le64;
use crate::codec::LEIA_ID_MAX;
use crate::event::Fatal;
use crate::keys::SancusKey;
use crate::mac::MacRequest;
use crate::mac::MacRequestView;
use vstd::prelude::*;

verus! {

/// The largest value of a connection's counter.
pub const LEIA_COUNT_MAX: u16 = 0xFFFF;

/// The largest epoch: 56 bits.
pub const LEIA_EPOCH_MAX: u64 = 0xFF_FFFF_FFFF_FFFF;

/// Structure representing a LeiA connection.
#[derive(Copy, Clone, Debug)]
pub struct LeiAConnection {
    id: u16,
    c: u16,
    epoch: u64,
    k_i: SancusKey,
    k_e: SancusKey,
    auth_fail_in_progress: bool,
}

/// A connection as plain values.
pub struct ConnectionModel {
    /// The connection id; zero marks an empty slot.
    pub id: u16,
    /// The counter of the next frame.
    pub c: u16,
    /// The epoch of the session key.
    pub epoch: u64,
    /// The long-term key.
    pub k_i: Seq<u8>,
    /// The session key.
    pub k_e: Seq<u8>,
    /// Whether the connection has signalled a failure and awaits the
    /// answer.
    pub auth_fail_in_progress: bool,
}

impl ConnectionModel {
    /// The id fits eleven bits, the epoch 56, and the keys are sixteen
    /// bytes long.
    pub open spec fn wf(self) -> bool {
        &&& self.id <= LEIA_ID_MAX
        &&& self.epoch <= LEIA_EPOCH_MAX
        &&& self.k_i.len() == 16
        &&& self.k_e.len() == 16
    }

    /// A fresh connection: counter and epoch zero, keys of zeros.
    pub open spec fn fresh(id: u16) -> ConnectionModel {
        ConnectionModel {
            id,
            c: 0,
            epoch: 0,
            k_i: Seq::new(16, |i: int| 0u8),
            k_e: Seq::new(16, |i: int| 0u8),
            auth_fail_in_progress: false,
        }
    }

    /// What the sponge is asked for the next session key: the MAC of the
    /// next epoch, little-endian, under the long-term key.
    pub open spec fn key_request(self) -> MacRequestView {
        MacRequestView { key: self.k_i, data: le64((self.epoch + 1) as u64) }
    }

    /// The connection in its next epoch: the epoch one higher, the sponge
    /// output as session key, the counter at one.
    pub open spec fn rekeyed(self, sponge: Seq<u8>) -> ConnectionModel {
        ConnectionModel { epoch: (self.epoch + 1) as u64, k_e: sponge, c: 1, ..self }
    }

    /// Whether the counter has reached its maximum, so that the next
    /// frame starts a new epoch.
    pub open spec fn exhausted(self) -> bool {
        self.c == LEIA_COUNT_MAX
    }

    /// The connection with its counter one higher.
    pub open spec fn advanced(self) -> ConnectionModel {
        ConnectionModel { c: (self.c + 1) as u16, ..self }
    }

    /// The connection with its epoch set one below `epoch`, so that the
    /// next session key is that of `epoch`.
    pub open spec fn adopting(self, epoch: u64) -> ConnectionModel {
        ConnectionModel { epoch: (epoch - 1) as u64, ..self }
    }
}

impl View for LeiAConnection {
    type V = ConnectionModel;

    closed spec fn view(&self) -> ConnectionModel {
        ConnectionModel {
            id: self.id,
            c: self.c,
            epoch: self.epoch,
            k_i: self.k_i@,
            k_e: self.k_e@,
            auth_fail_in_progress: self.auth_fail_in_progress,
        }
    }
}

impl LeiAConnection {
    /// Creates a new LeiA connection. The id zero makes an empty slot.
    pub fn new(id: u16) -> (connection: Self)
        requires
            id <= LEIA_ID_MAX,
        ensures
            connection@ == ConnectionModel::fresh(id),
            connection@.wf(),
    {
        let connection = Self {
            id: id,
            c: 0,
            epoch: 0,
            k_i: SancusKey::zero(),
            k_e: SancusKey::zero(),
            auth_fail_in_progress: false,
        };
        proof {
            connection.k_i.lemma_len();
            connection.k_e.lemma_len();
        }
        connection
    }

    /// Sets k_i of this connection.
    pub fn with_k_i(self, key: &[u8]) -> (connection: Self)
        requires
            key@.len() == 16,
        ensures
            connection@ == (ConnectionModel { k_i: key@, ..self@ }),
    {
        let mut connection = self;
        match SancusKey::from_slice(key) {
            Some(k_i) => {
                connection.k_i = k_i;
            },
            None => {},
        }
        connection
    }

    /// Gets the connection id.
    pub fn id(&self) -> (id: u16)
        ensures
            id == self@.id,
    {
        self.id
    }

    /// Gets the connection counter.
    pub fn counter(&self) -> (c: u16)
        ensures
            c == self@.c,
    {
        self.c
    }

    /// Gets the epoch of the session key.
    pub fn epoch(&self) -> (epoch: u64)
        ensures
            epoch == self@.epoch,
    {
        self.epoch
    }

    /// Gets the long-term key.
    pub fn k_i(&self) -> (key: SancusKey)
        ensures
            key@ == self@.k_i,
    {
        self.k_i
    }

    /// Gets the session key.
    pub fn k_e(&self) -> (key: SancusKey)
        ensures
            key@ == self@.k_e,
    {
        self.k_e
    }

    /// Whether the connection has signalled a failure and awaits the
    /// answer.
    pub fn auth_fail_in_progress(&self) -> (flag: bool)
        ensures
            flag == self@.auth_fail_in_progress,
    {
        self.auth_fail_in_progress
    }

    /// Sets the counter.
    pub(crate) fn set_counter(&mut self, c: u16)
        ensures
            final(self)@ == (ConnectionModel { c, ..old(self)@ }),
    {
        self.c = c;
    }

    /// Sets or clears the mark of a failure signalled.
    pub(crate) fn set_auth_fail_in_progress(&mut self, flag: bool)
        ensures
            final(self)@ == (ConnectionModel { auth_fail_in_progress: flag, ..old(self)@ }),
    {
        self.auth_fail_in_progress = flag;
    }
}

/// What the sponge is asked for the connection's next session key. With
/// the epoch at its maximum there is no next one.
pub fn session_key_request(cur: &LeiAConnection) -> (request: Result<MacRequest, Fatal>)
    ensures
        cur@.epoch < LEIA_EPOCH_MAX ==> request is Ok && request.unwrap()@ == cur@.key_request(),
        cur@.epoch >= LEIA_EPOCH_MAX ==> request == Err::<MacRequest, Fatal>(Fatal::EpochOverflow),
{
    if cur.epoch >= LEIA_EPOCH_MAX {
        return Err(Fatal::EpochOverflow);
    }
    let epoch_buf = write_le64(cur.epoch + 1);
    let data = vstd::slice::slice_to_vec(epoch_buf.as_slice());
    Ok(MacRequest { key: cur.k_i, data })
}

/// Takes the connection into its next epoch, with the sponge's answer to
/// `session_key_request` as the session key: the epoch goes up by one,
/// the counter back to one. With the epoch at its maximum nothing
/// changes.
pub fn session_key_gen(cur: &mut LeiAConnection, sponge: &[u8; 16]) -> (done: Result<(), Fatal>)
    ensures
        old(cur)@.epoch < LEIA_EPOCH_MAX ==> done is Ok && final(cur)@ == old(cur)@.rekeyed(
            sponge@,
        ),
        old(cur)@.epoch >= LEIA_EPOCH_MAX ==> done == Err::<(), Fatal>(Fatal::EpochOverflow)
            && final(cur)@ == old(cur)@,
{
    if cur.epoch >= LEIA_EPOCH_MAX {
        return Err(Fatal::EpochOverflow);
    }
    // 1. Increment epoch
    cur.epoch += 1;
    // 2. The MAC of the epoch is the session key
    cur.k_e = SancusKey::new(*sponge);
    // 3. Reset counter
    cur.c = 1;
    Ok(())
}

/// Counts one frame. Below the maximum the counter goes up by one; at
/// the maximum nothing changes and the result tells that the next
/// session key is due.
pub fn update_counters(connection: &mut LeiAConnection) -> (rollover: bool)
    ensures
        rollover == old(connection)@.exhausted(),
        rollover ==> final(connection)@ == old(connection)@,
        !rollover ==> final(connection)@ == old(connection)@.advanced(),
{
    if connection.c == LEIA_COUNT_MAX {
        true
    } else {
        connection.c += 1;
        false
    }
}

/// Prepares the connection to take over the epoch that a peer has
/// signalled: the next session key will be that of `epoch`. An epoch
/// that is not ahead of the connection's own, or beyond the maximum, is
/// refused and nothing changes.
pub fn leia_auth_fail_response(cur: &mut LeiAConnection, epoch: u64) -> (done: Result<(), Fatal>)
    ensures
        epoch <= old(cur)@.epoch ==> done == Err::<(), Fatal>(Fatal::StaleEpoch) && final(cur)@
            == old(cur)@,
        old(cur)@.epoch < epoch && epoch > LEIA_EPOCH_MAX ==> done == Err::<(), Fatal>(
            Fatal::EpochOverflow,
        ) && final(cur)@ == old(cur)@,
        old(cur)@.epoch < epoch <= LEIA_EPOCH_MAX ==> done is Ok && final(cur)@
            == old(cur)@.adopting(epoch),
{
    if epoch <= cur.epoch {
        return Err(Fatal::StaleEpoch);
    }
    if epoch > LEIA_EPOCH_MAX {
        return Err(Fatal::EpochOverflow);
    }
    cur.epoch = epoch - 1;
    Ok(())
}

/// Within an epoch the counter never goes back when a frame is counted,
/// and a new epoch is exactly one above the old, with the counter at
/// one.
pub proof fn lemma_counter_and_epoch_progress(connection: ConnectionModel, sponge: Seq<u8>)
    ensures
        !connection.exhausted() ==> connection.advanced().c > connection.c
            && connection.advanced().epoch == connection.epoch,
        connection.epoch < LEIA_EPOCH_MAX ==> connection.rekeyed(sponge).epoch == connection.epoch
            + 1 && connection.rekeyed(sponge).c == 1,
{
}

/// The request for a session key depends on the long-term key and the
/// epoch alone, and the session key on the sponge's answer alone: two
/// connections of equal long-term key and epoch ask the same, and on the
/// same answer they hold the same session key in the same epoch.
pub proof fn lemma_session_key_deterministic(
    a: ConnectionModel,
    b: ConnectionModel,
    sponge: Seq<u8>,
)
    requires
        a.k_i == b.k_i,
        a.epoch == b.epoch,
    ensures
        a.key_request() == b.key_request(),
        a.rekeyed(sponge).k_e == b.rekeyed(sponge).k_e,
        a.rekeyed(sponge).epoch == b.rekeyed(sponge).epoch,
{
}

} // verus!
