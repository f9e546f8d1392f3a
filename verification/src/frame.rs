//! CAN frames as the protocol hands them to its host.

use vstd::prelude::*;

verus! {

/// A frame to transmit: the identifier word and up to eight bytes.
#[derive(Debug, PartialEq, Eq, Clone)]
pub struct Frame {
    pub eid: u32,
    pub payload: Vec<u8>,
}

/// A frame as plain values.
pub struct FrameView {
    pub eid: u32,
    pub payload: Seq<u8>,
}

impl View for Frame {
    type V = FrameView;

    open spec fn view(&self) -> FrameView {
        FrameView { eid: self.eid, payload: self.payload@ }
    }
}

/// The frames of a queue as plain values.
pub open spec fn frames_view(frames: Seq<Frame>) -> Seq<FrameView> {
    frames.map_values(|f: Frame| f@)
}

} // verus!
