//! A session with BlueZ, and the channels that belong to it.

use vstd::prelude::*;

verus! {

/// A session with BlueZ. `G` is what must stay alive as long as the session,
/// `A` the adapter, `L` the receiving end of the session's events, `Q` the
/// channel for requests, `W` the receiving end of the wake-ups.
pub struct BluerSessionState<G, A, L, Q, W> {
    pub guard: G,
    pub adapter: A,
    pub rx: Option<L>,
    pub req_tx: Q,
    pub wake_up_discover_rx: Option<W>,
}

impl<G, A, L, Q, W> BluerSessionState<G, A, L, Q, W> {
    /// The session without the receiving end of its events.
    pub open spec fn deaf(self) -> Self {
        BluerSessionState { rx: None, ..self }
    }

    /// The session with a receiving end for its events.
    pub open spec fn hearing(self, rx: L) -> Self {
        BluerSessionState { rx: Some(rx), ..self }
    }

    /// A session that has just been set up: both receiving ends are there.
    pub fn new(guard: G, adapter: A, rx: L, req_tx: Q, wake_up_discover_rx: W) -> (session: Self)
        ensures
            session == (BluerSessionState {
                guard,
                adapter,
                rx: Some(rx),
                req_tx,
                wake_up_discover_rx: Some(wake_up_discover_rx),
            }),
    {
        BluerSessionState {
            guard,
            adapter,
            rx: Some(rx),
            req_tx,
            wake_up_discover_rx: Some(wake_up_discover_rx),
        }
    }

    /// Takes the receiving end of the wake-ups, for the one task that watches
    /// for changes. A second task gets none.
    pub fn take_wake_up(&mut self) -> (wake_up: Option<W>)
        ensures
            wake_up == old(self).wake_up_discover_rx,
            *final(self) == (BluerSessionState { wake_up_discover_rx: None, ..*old(self) }),
    {
        self.wake_up_discover_rx.take()
    }

    /// Takes the receiving end of the events.
    pub fn take_rx(&mut self) -> (rx: Option<L>)
        ensures
            rx == old(self).rx,
            *final(self) == old(self).deaf(),
    {
        self.rx.take()
    }

    /// Puts a receiving end for the events in place.
    pub fn put_rx(&mut self, rx: L)
        ensures
            *final(self) == old(self).hearing(rx),
    {
        self.rx = Some(rx);
    }
}

/// Taking the receiving end of the events out of a session, or putting one in,
/// leaves all else of the session as it is.
pub proof fn law_session_stays_but_for_its_channel<G, A, L, Q, W>(
    session: BluerSessionState<G, A, L, Q, W>,
    rx: L,
)
    ensures
        session.deaf().rx is None,
        session.deaf().guard == session.guard,
        session.deaf().adapter == session.adapter,
        session.deaf().req_tx == session.req_tx,
        session.deaf().wake_up_discover_rx == session.wake_up_discover_rx,
        session.hearing(rx).rx == Some(rx),
        session.hearing(rx).guard == session.guard,
        session.hearing(rx).adapter == session.adapter,
        session.hearing(rx).req_tx == session.req_tx,
        session.hearing(rx).wake_up_discover_rx == session.wake_up_discover_rx,
{
}

} // verus!
