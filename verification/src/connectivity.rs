//! Session connectivity observability: the number of open transports, and
//! whether the session is connected (any transport open), with a transition
//! reported each time that changes.

use vstd::prelude::*;

verus! {

/// A transport event: a transport opened (put) or closed (delete).
#[derive(Debug, Clone, Copy, PartialEq, Eq, Structural)]
pub enum TransportEvent {
    Opened,
    Closed,
}

/// The open-transport count and the connected flag derived from it.
#[derive(Debug, Clone, Copy, PartialEq, Eq, Structural)]
pub struct Connectivity {
    pub open_transports: usize,
    pub connected: bool,
}

impl Connectivity {
    /// The connected flag agrees with the count.
    pub open spec fn wf(self) -> bool {
        self.connected == (self.open_transports > 0)
    }

    /// No transport open, not connected.
    pub fn new() -> (c: Connectivity)
        ensures
            c.wf(),
            c.open_transports == 0,
            !c.connected,
    {
        Connectivity { open_transports: 0, connected: false }
    }

    /// Count one transport event. The flag becomes whether any transport is
    /// open; the result is the new flag when it changed, `None` otherwise.
    pub fn on_event(&mut self, event: TransportEvent) -> (transition: Option<bool>)
        requires
            event == TransportEvent::Opened ==> old(self).open_transports < usize::MAX,
        ensures
            final(self).open_transports == match event {
                TransportEvent::Opened => old(self).open_transports + 1,
                TransportEvent::Closed => if old(self).open_transports > 0 {
                    old(self).open_transports - 1
                } else {
                    0
                },
            },
            final(self).wf(),
            transition == if old(self).connected == final(self).connected {
                None
            } else {
                Some(final(self).connected)
            },
    {
        match event {
            TransportEvent::Opened => self.open_transports = self.open_transports + 1,
            TransportEvent::Closed => self.open_transports = self.open_transports.saturating_sub(1),
        }
        let now = self.open_transports > 0;
        let before = self.connected;
        self.connected = now;
        if before == now {
            None
        } else {
            Some(now)
        }
    }
}

} // verus!
