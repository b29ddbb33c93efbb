//! The course of the server from accepting connections to a graceful end.
use vstd::prelude::*;

verus! {

/// How long connections are given to end, in seconds.
pub const DRAIN_TIMEOUT: u64 = 30;

/// How long the tasks are given to end, in seconds.
pub const TASK_TIMEOUT: u64 = 5;

/// What the server is doing.
#[derive(Debug, Clone, Copy, PartialEq, Eq)]
pub enum ServerPhase {
    /// It accepts connections.
    Accepting,
    /// It waits for the connections that it has accepted to end.
    Draining,
    /// It waits for its tasks to end.
    Stopping,
    /// It has come to its end.
    Stopped,
}

/// What the server learns.
#[derive(Debug, Clone, Copy, PartialEq, Eq)]
pub enum ServerEvent {
    /// A client has connected.
    Connected,
    /// The server is told to end.
    Signalled,
    /// All connections, or all tasks, that it was waiting for have ended.
    Ended,
    /// The time that they were given has passed.
    TimedOut,
}

/// What is to be done next.
#[derive(Debug, Clone, Copy, PartialEq, Eq)]
pub enum ServerAction {
    /// Serve the connection, and go on accepting.
    Serve,
    /// Accept no more connections, and wait for those that there are to end, for
    /// so many seconds at most.
    Drain { seconds: u64 },
    /// Tell all tasks to end, and wait for them, for so many seconds at most.
    StopTasks { seconds: u64 },
    /// Leave.
    Exit,
}

impl ServerPhase {
    /// The phase takes such an event.
    pub open spec fn expects(self, event: ServerEvent) -> bool {
        match self {
            ServerPhase::Accepting => event is Connected || event is Signalled,
            ServerPhase::Draining => event is Ended || event is TimedOut,
            ServerPhase::Stopping => event is Ended || event is TimedOut,
            ServerPhase::Stopped => false,
        }
    }

    /// What is to be done after an event.
    pub open spec fn action(self, event: ServerEvent) -> ServerAction {
        match self {
            ServerPhase::Accepting => if event is Connected {
                ServerAction::Serve
            } else {
                ServerAction::Drain { seconds: DRAIN_TIMEOUT }
            },
            ServerPhase::Draining => ServerAction::StopTasks { seconds: TASK_TIMEOUT },
            ServerPhase::Stopping => ServerAction::Exit,
            ServerPhase::Stopped => ServerAction::Exit,
        }
    }

    /// The phase after an event.
    pub open spec fn after(self, event: ServerEvent) -> ServerPhase {
        match self.action(event) {
            ServerAction::Serve => ServerPhase::Accepting,
            ServerAction::Drain { .. } => ServerPhase::Draining,
            ServerAction::StopTasks { .. } => ServerPhase::Stopping,
            ServerAction::Exit => ServerPhase::Stopped,
        }
    }

    /// Takes an event and tells what is to be done next.
    pub fn advance(&mut self, event: ServerEvent) -> (action: ServerAction)
        requires
            old(self).expects(event),
        ensures
            action == old(self).action(event),
            *final(self) == old(self).after(event),
    {
        match *self {
            ServerPhase::Accepting => match event {
                ServerEvent::Connected => ServerAction::Serve,
                _ => {
                    *self = ServerPhase::Draining;
                    ServerAction::Drain { seconds: DRAIN_TIMEOUT }
                },
            },
            ServerPhase::Draining => {
                *self = ServerPhase::Stopping;
                ServerAction::StopTasks { seconds: TASK_TIMEOUT }
            },
            _ => {
                *self = ServerPhase::Stopped;
                ServerAction::Exit
            },
        }
    }
}

/// The phase after these events, from the start.
pub open spec fn phase_at(events: Seq<ServerEvent>) -> ServerPhase
    decreases events.len(),
{
    if events.len() == 0 {
        ServerPhase::Accepting
    } else {
        phase_at(events.drop_last()).after(events.last())
    }
}

/// The server can run this way: every event is one that it was waiting for.
pub open spec fn is_run(events: Seq<ServerEvent>) -> bool {
    forall|i: int|
        0 <= i < events.len() ==> phase_at(events.take(i)).expects(#[trigger] events[i])
}

/// The server goes through its phases one after the other. It accepts until it
/// is signalled; from then on no connection is served, tasks are told to end
/// only once the connections have ended or their time has passed, and two more
/// events bring it to its end.
pub proof fn law_shutdown_is_graceful(events: Seq<ServerEvent>, signal: int)
    requires
        is_run(events),
        0 <= signal < events.len(),
        events[signal] is Signalled,
    ensures
        forall|i: int|
            0 <= i < signal ==> phase_at(events.take(i)).action(#[trigger] events[i])
                == ServerAction::Serve,
        phase_at(events.take(signal)).action(events[signal]) == (ServerAction::Drain {
            seconds: DRAIN_TIMEOUT,
        }),
        events.len() > signal + 1 ==> {
            &&& events[signal + 1] is Ended || events[signal + 1] is TimedOut
            &&& phase_at(events.take(signal + 1)).action(events[signal + 1]) == (
            ServerAction::StopTasks { seconds: TASK_TIMEOUT })
        },
        events.len() > signal + 2 ==> {
            &&& events[signal + 2] is Ended || events[signal + 2] is TimedOut
            &&& phase_at(events.take(signal + 2)).action(events[signal + 2]) == ServerAction::Exit
        },
        events.len() <= signal + 3,
{
    assert forall|i: int| 0 <= i <= signal implies phase_at(#[trigger] events.take(i))
        == ServerPhase::Accepting by {
        lemma_accepting_before(events, signal, i);
    }
    assert forall|i: int| 0 <= i < signal implies phase_at(events.take(i)).action(
        #[trigger] events[i],
    ) == ServerAction::Serve by {
        assert(phase_at(events.take(i)) == ServerPhase::Accepting);
        assert(phase_at(events.take(i + 1)) == ServerPhase::Accepting);
        assert(events.take(i + 1).drop_last() =~= events.take(i));
    }
    assert(phase_at(events.take(signal)) == ServerPhase::Accepting);
    assert(events.take(signal + 1).drop_last() =~= events.take(signal));
    if events.len() > signal + 1 {
        assert(phase_at(events.take(signal + 1)).expects(events[signal + 1]));
        assert(events.take(signal + 2).drop_last() =~= events.take(signal + 1));
    }
    if events.len() > signal + 2 {
        assert(phase_at(events.take(signal + 2)).expects(events[signal + 2]));
        assert(events.take(signal + 3).drop_last() =~= events.take(signal + 2));
    }
    if events.len() > signal + 3 {
        assert(phase_at(events.take(signal + 3)).expects(events[signal + 3]));
    }
}

/// The server never goes back to accepting, so where it takes a signal it has
/// been accepting all along.
proof fn lemma_accepting_before(events: Seq<ServerEvent>, signal: int, i: int)
    requires
        is_run(events),
        0 <= i <= signal < events.len(),
        events[signal] is Signalled,
    ensures
        phase_at(events.take(i)) == ServerPhase::Accepting,
    decreases signal - i,
{
    if i < signal {
        lemma_accepting_before(events, signal, i + 1);
        assert(events.take(i + 1).drop_last() =~= events.take(i));
        assert(phase_at(events.take(i)).expects(events[i]));
    } else {
        assert(phase_at(events.take(i)).expects(events[i]));
    }
}

/// Each phase waits for what can come in it, and for nothing else.
pub proof fn law_phases_wait_for_what_can_come(event: ServerEvent)
    ensures
        ServerPhase::Accepting.expects(event) <==> event is Connected || event is Signalled,
        ServerPhase::Draining.expects(event) <==> event is Ended || event is TimedOut,
        ServerPhase::Stopping.expects(event) <==> event is Ended || event is TimedOut,
        !ServerPhase::Stopped.expects(event),
{
}

/// Every client that connects is served until the server is signalled, and the
/// server goes on accepting.
pub proof fn law_every_connection_is_served(events: Seq<ServerEvent>)
    requires
        forall|i: int| 0 <= i < events.len() ==> (#[trigger] events[i]) is Connected,
    ensures
        phase_at(events) == ServerPhase::Accepting,
        phase_at(events).action(ServerEvent::Connected) == ServerAction::Serve,
        phase_at(events).action(ServerEvent::Signalled) == (ServerAction::Drain { seconds: 30 }),
    decreases events.len(),
{
    if events.len() > 0 {
        let earlier = events.drop_last();
        assert(events[events.len() - 1] is Connected);
        assert forall|i: int| 0 <= i < earlier.len() implies (#[trigger] earlier[i])
            is Connected by {
            assert(earlier[i] == events[i]);
        }
        law_every_connection_is_served(earlier);
    }
}

/// A wait that runs out of time leads on as one that does not: to stopping the
/// tasks, for which there are 5 seconds, and then to the end.
pub proof fn law_waits_lead_on(event: ServerEvent)
    requires
        event is Ended || event is TimedOut,
    ensures
        ServerPhase::Draining.action(event) == (ServerAction::StopTasks { seconds: 5 }),
        ServerPhase::Draining.after(event) == ServerPhase::Stopping,
        ServerPhase::Stopping.action(event) == ServerAction::Exit,
        ServerPhase::Stopping.after(event) == ServerPhase::Stopped,
{
}

} // verus!
