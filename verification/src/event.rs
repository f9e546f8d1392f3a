//! What the protocol reports to its host.

use crate::mac::MacRequest;
use crate::mac::MacRequestView;
use vstd::prelude::*;

verus! {

/// What the protocol tells about a frame that it has dealt with.
#[derive(Clone, Copy, Debug, PartialEq, Eq)]
pub enum Event {
    /// A message arrived on this connection; the tag that its MAC frame
    /// must carry is given.
    Received(u16, Option<[u8; 8]>),
    /// The message pending on this connection carried the right tag.
    Authenticated(u16),
    /// A new message arrived before the tag of the previous one.
    MissingMAC(u16),
    /// A tag arrived for which no message is pending.
    UnexpectedMAC(u16),
    /// A tag arrived that differs from the one expected.
    IncorrectMAC(u16),
    /// A message arrived with a counter behind the connection's own.
    Desync(u16),
    /// The peer's epoch was taken over on this connection.
    Resynced(u16),
    /// The frame names a connection that the context does not hold.
    UnknownId(u16),
    /// Diagnostic value.
    Debug(u64),
}

/// An event as plain values.
pub enum EventView {
    Received(u16, Option<Seq<u8>>),
    Authenticated(u16),
    MissingMAC(u16),
    UnexpectedMAC(u16),
    IncorrectMAC(u16),
    Desync(u16),
    Resynced(u16),
    UnknownId(u16),
    Debug(u64),
}

impl View for Event {
    type V = EventView;

    open spec fn view(&self) -> EventView {
        match *self {
            Event::Received(id, Some(tag)) => EventView::Received(id, Some(tag@)),
            Event::Received(id, None) => EventView::Received(id, None),
            Event::Authenticated(id) => EventView::Authenticated(id),
            Event::MissingMAC(id) => EventView::MissingMAC(id),
            Event::UnexpectedMAC(id) => EventView::UnexpectedMAC(id),
            Event::IncorrectMAC(id) => EventView::IncorrectMAC(id),
            Event::Desync(id) => EventView::Desync(id),
            Event::Resynced(id) => EventView::Resynced(id),
            Event::UnknownId(id) => EventView::UnknownId(id),
            Event::Debug(value) => EventView::Debug(value),
        }
    }
}

/// The view of an optional event.
pub open spec fn event_view(event: Option<Event>) -> Option<EventView> {
    match event {
        Some(e) => Some(e@),
        None => None,
    }
}

/// A condition after which the host must not go on.
#[derive(PartialEq, Eq, Structural, Clone, Copy, Debug)]
pub enum Fatal {
    /// A session key was due while the epoch stood at its maximum.
    EpochOverflow,
    /// A payload of more than eight bytes was to be authenticated.
    PayloadTooLong,
    /// A frame that must carry an epoch held fewer than eight bytes.
    PayloadTooShort,
    /// An operation named a connection that the context does not hold.
    UnknownConnection,
    /// The sponge did not deliver.
    MacFailure,
    /// An epoch was to be taken over that is not ahead of the
    /// connection's own.
    StaleEpoch,
    /// A key was to be distributed that the server does not hold, or to
    /// a module whose key it does not hold.
    MissingKey,
}

/// How far an operation of the protocol has come.
#[derive(Debug, PartialEq, Eq)]
pub enum Progress {
    /// The operation waits for the sponge: the host computes the MAC
    /// asked for and resumes the operation with it.
    NeedMac(MacRequest),
    /// The operation is done, with what it has to report.
    Finished(Option<Event>),
    /// The frame was not addressed to the protocol.
    Ignored,
    /// The operation cannot go on, and the host must not.
    Fatal(Fatal),
}

/// Progress as plain values.
pub enum ProgressView {
    NeedMac(MacRequestView),
    Finished(Option<EventView>),
    Ignored,
    Fatal(Fatal),
}

impl View for Progress {
    type V = ProgressView;

    open spec fn view(&self) -> ProgressView {
        match *self {
            Progress::NeedMac(request) => ProgressView::NeedMac(request@),
            Progress::Finished(event) => ProgressView::Finished(event_view(event)),
            Progress::Ignored => ProgressView::Ignored,
            Progress::Fatal(fatal) => ProgressView::Fatal(fatal),
        }
    }
}

} // verus!
