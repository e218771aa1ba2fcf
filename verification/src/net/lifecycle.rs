//! The life of an engine: it starts, runs, shuts down and has stopped.

use vstd::prelude::*;

verus! {

/// Where an engine stands in its life.
#[derive(Debug, Clone, Copy, PartialEq, Eq, Structural)]
pub enum EngineState {
    /// The socket is being bound and the two units are being started.
    Starting,
    /// Both units are at work.
    Running,
    /// The units were told to stop, or one of them has stopped by itself,
    /// and not both have stopped yet.
    ShuttingDown,
    /// No unit is at work.
    Stopped,
}

impl EngineState {
    /// The place of the state in the order in which an engine passes
    /// through its states.
    pub open spec fn rank(self) -> nat {
        match self {
            EngineState::Starting => 0,
            EngineState::Running => 1,
            EngineState::ShuttingDown => 2,
            EngineState::Stopped => 3,
        }
    }
}

/// What happens to an engine.
#[derive(Debug, Clone, Copy, PartialEq, Eq, Structural)]
pub enum EngineEvent {
    /// The socket was bound and both units were started.
    Started,
    /// The socket could not be bound or set up.
    StartFailed,
    /// The handle asks the units to stop: by a call, or because it is
    /// disposed of.
    ShutdownRequested,
    /// The transport unit has left its loop.
    TransportExited,
    /// The indexer has left its loop.
    IndexerExited,
}

/// The state of an engine, with what it is made of: which units are at work,
/// and whether they were told to stop.
#[derive(Debug, Clone, Copy, PartialEq, Eq, Structural)]
pub struct Lifecycle {
    pub state: EngineState,
    pub transport_running: bool,
    pub indexer_running: bool,
    pub signalled: bool,
}

impl Lifecycle {
    /// The parts agree with the state: no unit is at work before the engine
    /// runs and after it has stopped, both are while it runs, and one at
    /// least is while it shuts down; and the units are told to stop only
    /// after the engine has run.
    pub open spec fn wf(self) -> bool {
        match self.state {
            EngineState::Starting => !self.transport_running && !self.indexer_running
                && !self.signalled,
            EngineState::Running => self.transport_running && self.indexer_running
                && !self.signalled,
            EngineState::ShuttingDown => self.transport_running || self.indexer_running,
            EngineState::Stopped => !self.transport_running && !self.indexer_running,
        }
    }

    /// The engine after the given units are the ones that are left at work:
    /// it has stopped where none is left, and shuts down where one is.
    pub open spec fn spec_left(self, transport_running: bool, indexer_running: bool) -> Lifecycle {
        Lifecycle {
            state: if transport_running || indexer_running {
                EngineState::ShuttingDown
            } else {
                EngineState::Stopped
            },
            transport_running,
            indexer_running,
            signalled: self.signalled,
        }
    }

    /// The engine after an event, and whether the units are now to be told
    /// to stop. An engine that starts well runs, and one that does not has
    /// stopped, with no unit at work. A request to shut down makes a running
    /// engine shut down, and the units are told once. When a unit has left
    /// its loop the engine shuts down, and it has stopped when both have. An
    /// event that has no place in a state changes nothing.
    pub open spec fn spec_step(self, event: EngineEvent) -> (Lifecycle, bool) {
        match (self.state, event) {
            (EngineState::Starting, EngineEvent::Started) => (
                Lifecycle {
                    state: EngineState::Running,
                    transport_running: true,
                    indexer_running: true,
                    signalled: false,
                },
                false,
            ),
            (EngineState::Starting, EngineEvent::StartFailed) => (
                Lifecycle {
                    state: EngineState::Stopped,
                    transport_running: false,
                    indexer_running: false,
                    signalled: false,
                },
                false,
            ),
            (EngineState::Running, EngineEvent::ShutdownRequested) => (
                Lifecycle { state: EngineState::ShuttingDown, signalled: true, ..self },
                !self.signalled,
            ),
            (EngineState::ShuttingDown, EngineEvent::ShutdownRequested) => (
                Lifecycle { signalled: true, ..self },
                !self.signalled,
            ),
            (EngineState::Running, EngineEvent::TransportExited) => (
                self.spec_left(false, self.indexer_running),
                false,
            ),
            (EngineState::ShuttingDown, EngineEvent::TransportExited) => (
                self.spec_left(false, self.indexer_running),
                false,
            ),
            (EngineState::Running, EngineEvent::IndexerExited) => (
                self.spec_left(self.transport_running, false),
                false,
            ),
            (EngineState::ShuttingDown, EngineEvent::IndexerExited) => (
                self.spec_left(self.transport_running, false),
                false,
            ),
            _ => (self, false),
        }
    }

    /// An engine that is about to start.
    pub fn new() -> (r: Lifecycle)
        ensures
            r == (Lifecycle {
                state: EngineState::Starting,
                transport_running: false,
                indexer_running: false,
                signalled: false,
            }),
            r.wf(),
    {
        Lifecycle {
            state: EngineState::Starting,
            transport_running: false,
            indexer_running: false,
            signalled: false,
        }
    }

    /// Takes an event. Gives `true` where the units are now to be told to
    /// stop, which happens once in the life of an engine at most.
    pub fn step(&mut self, event: EngineEvent) -> (signal: bool)
        ensures
            (*final(self), signal) == old(self).spec_step(event),
            old(self).wf() ==> final(self).wf(),
            old(self).state.rank() <= final(self).state.rank(),
            signal ==> !old(self).signalled && final(self).signalled,
    {
        let before = *self;
        match (before.state, event) {
            (EngineState::Starting, EngineEvent::Started) => {
                self.state = EngineState::Running;
                self.transport_running = true;
                self.indexer_running = true;
                self.signalled = false;
                false
            },
            (EngineState::Starting, EngineEvent::StartFailed) => {
                self.state = EngineState::Stopped;
                self.transport_running = false;
                self.indexer_running = false;
                self.signalled = false;
                false
            },
            (EngineState::Running, EngineEvent::ShutdownRequested) => {
                self.state = EngineState::ShuttingDown;
                self.signalled = true;
                !before.signalled
            },
            (EngineState::ShuttingDown, EngineEvent::ShutdownRequested) => {
                self.signalled = true;
                !before.signalled
            },
            (EngineState::Running, EngineEvent::TransportExited) => {
                self.leave(false, before.indexer_running);
                false
            },
            (EngineState::ShuttingDown, EngineEvent::TransportExited) => {
                self.leave(false, before.indexer_running);
                false
            },
            (EngineState::Running, EngineEvent::IndexerExited) => {
                self.leave(before.transport_running, false);
                false
            },
            (EngineState::ShuttingDown, EngineEvent::IndexerExited) => {
                self.leave(before.transport_running, false);
                false
            },
            _ => false,
        }
    }

    /// Records which units are left at work.
    fn leave(&mut self, transport_running: bool, indexer_running: bool)
        ensures
            *final(self) == old(self).spec_left(transport_running, indexer_running),
    {
        self.state = if transport_running || indexer_running {
            EngineState::ShuttingDown
        } else {
            EngineState::Stopped
        };
        self.transport_running = transport_running;
        self.indexer_running = indexer_running;
    }
}

/// An engine that has stopped stays as it is, and nothing is asked of its
/// units.
pub proof fn lemma_stopped_stays(engine: Lifecycle, event: EngineEvent)
    requires
        engine.state == EngineState::Stopped,
    ensures
        engine.spec_step(event) == (engine, false),
{
}

/// An engine has stopped exactly when it has been started, or has failed to
/// start, and no unit is at work.
pub proof fn lemma_stopped_when_both_left(engine: Lifecycle)
    requires
        engine.wf(),
    ensures
        engine.state == EngineState::Stopped <==> engine.state != EngineState::Starting
            && !engine.transport_running && !engine.indexer_running,
{
}

} // verus!
