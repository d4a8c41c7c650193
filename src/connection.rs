//! A single live session: its identity and the state machine that decides,
//! for each event, the next state and what to do.

use vstd::prelude::*;

verus! {

/// Interval between liveness probes, in seconds.
pub const HEARTBEAT_INTERVAL_SEC: u64 = 30;

/// Unanswered probes after which a session is terminated.
pub const HEARTBEAT_MAX_MISSED: u32 = 3;

/// Who is on the other end of a session.
#[derive(Debug, Clone)]
pub struct WsClientInfo {
    /// Id of this connection.
    pub client_id: u128,
    /// Owner label of the credential that opened it.
    pub owner: String,
    /// Identity id of the credential that opened it.
    pub key_id: i32,
}

/// Life cycle of a session; it only moves forward.
#[derive(Debug, Clone, Copy, PartialEq, Eq, Structural)]
pub enum SessionState {
    Connecting,
    Active,
    Closing,
    Closed,
}

/// What happened to a session.
#[derive(Debug, Clone, Copy, PartialEq, Eq, Structural)]
pub enum SessionEvent {
    /// The heartbeat interval elapsed.
    Tick,
    /// The client acknowledged a liveness probe.
    Ack,
    /// The client sent a ping.
    Ping,
    /// The client sent a close frame.
    CloseFrame,
    /// The client sent some other frame.
    OtherFrame,
    /// Writing to the transport failed.
    WriteFailed,
}

/// What the session's runner does next.
#[derive(Debug, Clone, Copy, PartialEq, Eq, Structural)]
pub enum SessionAction {
    Nothing,
    /// Send a liveness probe.
    SendProbe,
    /// Answer the client's ping.
    SendPong,
    /// Close the transport and deregister the session.
    Terminate,
}

/// The decision for `event` in `state` with `missed` unanswered probes:
/// next state, next count, action.
pub open spec fn next_step(state: SessionState, missed: u32, event: SessionEvent) -> (SessionState, u32, SessionAction) {
    if state != SessionState::Active {
        (state, missed, SessionAction::Nothing)
    } else {
        match event {
            SessionEvent::Tick => if missed >= HEARTBEAT_MAX_MISSED {
                (SessionState::Closing, missed, SessionAction::Terminate)
            } else {
                (SessionState::Active, (missed + 1) as u32, SessionAction::SendProbe)
            },
            SessionEvent::Ack => (SessionState::Active, 0, SessionAction::Nothing),
            SessionEvent::Ping => (SessionState::Active, missed, SessionAction::SendPong),
            SessionEvent::CloseFrame => (SessionState::Closing, missed, SessionAction::Terminate),
            SessionEvent::OtherFrame => (SessionState::Active, missed, SessionAction::Nothing),
            SessionEvent::WriteFailed => (SessionState::Closing, missed, SessionAction::Terminate),
        }
    }
}

/// State, count and last action after `n` heartbeat ticks with no other
/// event.
pub open spec fn after_ticks(state: SessionState, missed: u32, n: nat) -> (SessionState, u32, SessionAction)
    decreases n,
{
    if n == 0 {
        (state, missed, SessionAction::Nothing)
    } else {
        let prev = after_ticks(state, missed, (n - 1) as nat);
        let step = next_step(prev.0, prev.1, SessionEvent::Tick);
        (step.0, step.1, if prev.0 == SessionState::Active { step.2 } else { prev.2 })
    }
}

/// A session: who it serves, the receiving side of its delivery queue, and
/// its heartbeat state.
pub struct WsConnection {
    pub info: WsClientInfo,
    /// Receiving side of the delivery queue that the registry writes to.
    pub server_rx: tokio::sync::mpsc::UnboundedReceiver<String>,
    state: SessionState,
    missed: u32,
}

impl WsConnection {
    /// Who the session serves.
    pub closed spec fn client(&self) -> WsClientInfo {
        self.info
    }

    pub closed spec fn state(&self) -> SessionState {
        self.state
    }

    pub closed spec fn missed(&self) -> u32 {
        self.missed
    }

    /// Not started yet, with no probe outstanding.
    pub open spec fn fresh(&self) -> bool {
        self.state() == SessionState::Connecting && self.missed() == 0
    }

    /// A session that has not started.
    pub fn new(info: WsClientInfo, server_rx: tokio::sync::mpsc::UnboundedReceiver<String>) -> (r: Self)
        ensures
            r.client() == info,
            r.fresh(),
    {
        WsConnection { info, server_rx, state: SessionState::Connecting, missed: 0 }
    }

    /// Starts the session.
    pub fn start(&mut self)
        ensures
            final(self).client() == old(self).client(),
            final(self).state() == if old(self).state() == SessionState::Connecting {
                SessionState::Active
            } else {
                old(self).state()
            },
            final(self).missed() == old(self).missed(),
    {
        if self.state == SessionState::Connecting {
            self.state = SessionState::Active;
        }
    }

    /// Identity id of the credential that opened the session.
    pub fn key_id(&self) -> (r: i32)
        ensures
            r == self.client().key_id,
    {
        self.info.key_id
    }

    /// The current state.
    pub fn current_state(&self) -> (r: SessionState)
        ensures
            r == self.state(),
    {
        self.state
    }

    /// Unanswered probes so far.
    pub fn missed_probes(&self) -> (r: u32)
        ensures
            r == self.missed(),
    {
        self.missed
    }

    /// Handles one event and says what to do.
    pub fn step(&mut self, event: SessionEvent) -> (r: SessionAction)
        ensures
            final(self).client() == old(self).client(),
            (final(self).state(), final(self).missed(), r) == next_step(old(self).state(), old(self).missed(), event),
    {
        if self.state != SessionState::Active {
            return SessionAction::Nothing;
        }
        match event {
            SessionEvent::Tick => {
                if self.missed >= HEARTBEAT_MAX_MISSED {
                    self.state = SessionState::Closing;
                    SessionAction::Terminate
                } else {
                    self.missed = self.missed + 1;
                    SessionAction::SendProbe
                }
            },
            SessionEvent::Ack => {
                self.missed = 0;
                SessionAction::Nothing
            },
            SessionEvent::Ping => SessionAction::SendPong,
            SessionEvent::CloseFrame => {
                self.state = SessionState::Closing;
                SessionAction::Terminate
            },
            SessionEvent::OtherFrame => SessionAction::Nothing,
            SessionEvent::WriteFailed => {
                self.state = SessionState::Closing;
                SessionAction::Terminate
            },
        }
    }

    /// Marks the teardown done.
    pub fn finish(&mut self)
        ensures
            final(self).client() == old(self).client(),
            final(self).state() == SessionState::Closed,
            final(self).missed() == old(self).missed(),
    {
        self.state = SessionState::Closed;
    }
}

/// An active session that gets no acknowledgment terminates on the heartbeat
/// tick after its third unanswered probe: three ticks send probes, the fourth
/// terminates.
pub proof fn lemma_silent_session_terminates(missed: u32)
    requires
        missed <= HEARTBEAT_MAX_MISSED,
    ensures
        after_ticks(SessionState::Active, missed, (HEARTBEAT_MAX_MISSED - missed + 1) as nat).0 == SessionState::Closing,
        after_ticks(SessionState::Active, missed, (HEARTBEAT_MAX_MISSED - missed + 1) as nat).2 == SessionAction::Terminate,
        forall|k: nat| 1 <= k <= HEARTBEAT_MAX_MISSED - missed ==> #[trigger] after_ticks(SessionState::Active, missed, k)
            == (SessionState::Active, (missed + k) as u32, SessionAction::SendProbe),
{
    assert forall|k: nat| 1 <= k <= HEARTBEAT_MAX_MISSED - missed implies #[trigger] after_ticks(
        SessionState::Active,
        missed,
        k,
    ) == (SessionState::Active, (missed + k) as u32, SessionAction::SendProbe) by {
        lemma_ticks_probe(missed, k);
    }
    let n = (HEARTBEAT_MAX_MISSED - missed) as nat;
    if n > 0 {
        lemma_ticks_probe(missed, n);
    }
    assert(after_ticks(SessionState::Active, missed, n).1 == HEARTBEAT_MAX_MISSED);
}

proof fn lemma_ticks_probe(missed: u32, k: nat)
    requires
        missed <= HEARTBEAT_MAX_MISSED,
        1 <= k <= HEARTBEAT_MAX_MISSED - missed,
    ensures
        after_ticks(SessionState::Active, missed, k) == (SessionState::Active, (missed + k) as u32, SessionAction::SendProbe),
    decreases k,
{
    let prev = after_ticks(SessionState::Active, missed, (k - 1) as nat);
    if k > 1 {
        lemma_ticks_probe(missed, (k - 1) as nat);
        assert(prev == (SessionState::Active, (missed + k - 1) as u32, SessionAction::SendProbe));
    } else {
        assert(prev == (SessionState::Active, missed, SessionAction::Nothing));
    }
    assert(prev.1 < HEARTBEAT_MAX_MISSED);
    assert(after_ticks(SessionState::Active, missed, k) == (
        next_step(prev.0, prev.1, SessionEvent::Tick).0,
        next_step(prev.0, prev.1, SessionEvent::Tick).1,
        next_step(prev.0, prev.1, SessionEvent::Tick).2,
    ));
}

/// An acknowledgment resets the count of unanswered probes of an active
/// session.
pub proof fn lemma_ack_resets(missed: u32)
    ensures
        next_step(SessionState::Active, missed, SessionEvent::Ack) == (SessionState::Active, 0u32, SessionAction::Nothing),
{
}

/// A session that is not active does nothing, whatever happens.
pub proof fn lemma_inactive_is_silent(state: SessionState, missed: u32, event: SessionEvent)
    requires
        state != SessionState::Active,
    ensures
        next_step(state, missed, event).2 == SessionAction::Nothing,
        next_step(state, missed, event).0 == state,
{
}

} // verus!
