//! What every authenticated CAN protocol offers to its host, and the
//! way to a LeiA context.

use crate::connection::ConnectionModel;
use crate::connection::LeiAConnection;
use crate::event::Progress;
use crate::frame::FrameView;
use crate::leia::LeiAContext;
use crate::model::LEIA_CONNECTIONS;
use crate::store::LeiAStore;
use crate::store::VulCANStore;
use vstd::prelude::*;

verus! {

/// Trait representing a VulCAN context on a single node. An operation
/// either is done at once or asks for a computation of the sponge; the
/// host then resumes it with the answer until it is done.
pub trait VulCANContext {
    type ProtocolInfo;

    /// The context is well-formed.
    spec fn valid(&self) -> bool;

    /// No operation is under way.
    spec fn idle(&self) -> bool;

    /// Brings the context up.
    fn init(&mut self) -> (progress: Progress)
        requires
            old(self).valid(),
            old(self).idle(),
        ensures
            final(self).valid(),
            !(progress is NeedMac) <==> final(self).idle(),
    ;

    /// Sends an authenticated message on the connection `id`.
    fn auth_send(&mut self, id: u16, msg: &[u8]) -> (progress: Progress)
        requires
            old(self).valid(),
            old(self).idle(),
        ensures
            final(self).valid(),
            !(progress is NeedMac) <==> final(self).idle(),
    ;

    /// Receives a frame.
    fn auth_recv(&mut self, eid: u32, msg: &[u8]) -> (progress: Progress)
        requires
            old(self).valid(),
            old(self).idle(),
        ensures
            final(self).valid(),
            !(progress is NeedMac) <==> final(self).idle(),
    ;

    /// Goes on with the operation under way, with the sponge's answer
    /// to the request last made, or with nothing where the sponge has
    /// failed.
    fn resume(&mut self, sponge: Option<[u8; 16]>) -> (progress: Progress)
        requires
            old(self).valid(),
            !old(self).idle(),
        ensures
            final(self).valid(),
            !(progress is NeedMac) <==> final(self).idle(),
    ;

    /// Sends a message without authentication.
    fn send(&mut self, id: u16, msg: &[u8])
        requires
            old(self).valid(),
        ensures
            final(self).valid(),
            final(self).idle() == old(self).idle(),
    ;
}

/// Makes a LeiA context of at most sixteen data connections, the
/// authentication error channel and a store for the expected tags.
pub fn leia<S>(connections: &[LeiAConnection], aec: LeiAConnection, store: S) -> (context:
    LeiAContext<S>) where S: LeiAStore
    requires
        connections@.len() <= LEIA_CONNECTIONS,
        forall|i: int| 0 <= i < connections@.len() ==> (#[trigger] connections@[i])@.wf(),
        aec@.wf(),
    ensures
        context.valid(),
        context.idle(),
        context@.slots == Seq::new(
            17,
            |i: int|
                if i < connections@.len() {
                    connections@[i]@
                } else if i < 16 {
                    ConnectionModel::fresh(0)
                } else {
                    aec@
                },
        ),
        context@.expected == store.contents().map_values(|tag: [u8; 8]| tag@),
        context@.outbox == Seq::<FrameView>::empty(),
{
    LeiAContext::new(connections, aec, store)
}

} // verus!
