//! The thread that speaks with a backend for its store: how it starts, how it
//! serves one command after the other, and what a caller makes of its silence.

use crate::payload::Payload;
use crate::text;
use crate::vector_store::{VectorRecord, VectorStoreError};
use vstd::prelude::*;

verus! {

/// What a store asks of its thread.
#[derive(Debug)]
pub enum Command {
    Insert(VectorRecord),
    Get(String),
    Update(VectorRecord),
    Delete(String),
    List(usize, usize),
    Reset,
    Search(Vec<u32>, usize, Payload, Option<i64>),
}

/// How far the thread has come.
#[derive(Clone, Copy, Debug, PartialEq, Eq, Structural)]
pub enum Phase {
    /// It makes what it runs on.
    Runtime,
    /// It makes its client.
    Client,
    /// It sees to it that the collection is there.
    Collection,
    /// It tells the store that it is ready.
    Announcing,
    /// It tells the store that it could not start.
    Failing,
    /// It waits for a command.
    Listening,
    /// It carries a command out; whether that may give it a new collection.
    Handling(bool),
    /// It answers a command.
    Replying,
    /// It has ended.
    Stopped,
}

/// What has happened.
#[derive(Debug)]
pub enum Event {
    /// What the thread was making is there.
    Made,
    /// What the thread was making could not be made.
    Failed(VectorStoreError),
    /// The store was told; whether it was still there.
    Announced(bool),
    /// A command has come, or none will come any more.
    Received(Option<Command>),
    /// The command was carried out; whether that succeeded.
    Handled(bool),
    /// The command was answered; whether anyone was still there.
    Replied(bool),
}

/// What to do next.
#[derive(Debug)]
pub enum Action {
    BuildRuntime,
    BuildClient,
    EnsureCollection,
    Announce(Result<(), VectorStoreError>),
    Receive,
    Handle(Command),
    /// Answer the command; whether its outcome holds the collection to go on
    /// with.
    Reply { adopt: bool },
    Stop,
}

/// The first thing to do, and the phase that begins with it.
pub open spec fn beginning() -> (Phase, Action) {
    (Phase::Runtime, Action::BuildRuntime)
}

/// What comes next, if the event belongs to the phase.
pub open spec fn next(phase: Phase, event: Event) -> Option<(Phase, Action)> {
    match (phase, event) {
        (Phase::Runtime, Event::Made) => Some((Phase::Client, Action::BuildClient)),
        (Phase::Client, Event::Made) => Some((Phase::Collection, Action::EnsureCollection)),
        (Phase::Collection, Event::Made) => Some((Phase::Announcing, Action::Announce(Ok(())))),
        (Phase::Runtime, Event::Failed(err)) => Some((Phase::Failing, Action::Announce(Err(err)))),
        (Phase::Client, Event::Failed(err)) => Some((Phase::Failing, Action::Announce(Err(err)))),
        (Phase::Collection, Event::Failed(err)) => Some(
            (Phase::Failing, Action::Announce(Err(err))),
        ),
        (Phase::Failing, Event::Announced(_)) => Some((Phase::Stopped, Action::Stop)),
        (Phase::Announcing, Event::Announced(true)) => Some((Phase::Listening, Action::Receive)),
        (Phase::Announcing, Event::Announced(false)) => Some((Phase::Stopped, Action::Stop)),
        (Phase::Listening, Event::Received(Some(command))) => Some(
            (Phase::Handling(command is Reset), Action::Handle(command)),
        ),
        (Phase::Listening, Event::Received(None)) => Some((Phase::Stopped, Action::Stop)),
        (Phase::Handling(renews), Event::Handled(succeeded)) => Some(
            (Phase::Replying, Action::Reply { adopt: renews && succeeded }),
        ),
        (Phase::Replying, Event::Replied(_)) => Some((Phase::Listening, Action::Receive)),
        _ => None,
    }
}

/// The thread that speaks with a backend.
#[derive(Debug)]
pub struct Dispatcher {
    phase: Phase,
}

impl Dispatcher {
    /// How far the thread has come.
    pub closed spec fn phase(&self) -> Phase {
        self.phase
    }

    /// Starts the thread, with the first thing to do.
    pub fn start() -> (r: (Self, Action))
        ensures
            (r.0.phase(), r.1) == beginning(),
    {
        (Dispatcher { phase: Phase::Runtime }, Action::BuildRuntime)
    }

    /// What to do after an event. An event that does not belong to the phase
    /// ends the thread.
    pub fn step(&mut self, event: Event) -> (action: Action)
        ensures
            match next(old(self).phase(), event) {
                Some((phase, wanted)) => final(self).phase() == phase && action == wanted,
                None => final(self).phase() == Phase::Stopped && action == Action::Stop,
            },
    {
        let (phase, action) = match (self.phase, event) {
            (Phase::Runtime, Event::Made) => (Phase::Client, Action::BuildClient),
            (Phase::Client, Event::Made) => (Phase::Collection, Action::EnsureCollection),
            (Phase::Collection, Event::Made) => (Phase::Announcing, Action::Announce(Ok(()))),
            (Phase::Runtime, Event::Failed(err)) => (Phase::Failing, Action::Announce(Err(err))),
            (Phase::Client, Event::Failed(err)) => (Phase::Failing, Action::Announce(Err(err))),
            (Phase::Collection, Event::Failed(err)) => (Phase::Failing, Action::Announce(Err(err))),
            (Phase::Announcing, Event::Announced(true)) => (Phase::Listening, Action::Receive),
            (Phase::Listening, Event::Received(Some(command))) => {
                let renews = match &command {
                    Command::Reset => true,
                    _ => false,
                };
                (Phase::Handling(renews), Action::Handle(command))
            },
            (Phase::Handling(renews), Event::Handled(succeeded)) => (
                Phase::Replying,
                Action::Reply { adopt: renews && succeeded },
            ),
            (Phase::Replying, Event::Replied(_)) => (Phase::Listening, Action::Receive),
            _ => (Phase::Stopped, Action::Stop),
        };
        self.phase = phase;
        action
    }
}

/// The phase after some events.
pub open spec fn phase_after(events: Seq<Event>) -> Phase
    decreases events.len(),
{
    if events.len() == 0 {
        beginning().0
    } else {
        match next(phase_after(events.drop_last()), events.last()) {
            Some((phase, _)) => phase,
            None => Phase::Stopped,
        }
    }
}

/// Whether commands are served in a phase.
pub open spec fn serves(phase: Phase) -> bool {
    phase is Listening || phase is Handling || phase is Replying
}

/// Commands are served only after everything was made and the store was told so
/// and was there.
pub proof fn law_serves_only_when_ready(events: Seq<Event>)
    requires
        serves(phase_after(events)),
    ensures
        events.len() >= 4,
        events[0] is Made,
        events[1] is Made,
        events[2] is Made,
        events[3] == Event::Announced(true),
    decreases events.len(),
{
    if events.len() > 0 {
        let before = events.drop_last();
        if serves(phase_after(before)) {
            law_serves_only_when_ready(before);
        } else {
            assert(phase_after(before) == Phase::Announcing);
            reveal_with_fuel(phase_after, 5);
            assert(before.len() == 3) by {
                lemma_announcing(before);
            }
            lemma_announcing(before);
        }
    }
}

proof fn lemma_announcing(events: Seq<Event>)
    requires
        phase_after(events) is Announcing,
    ensures
        events.len() == 3,
        events[0] is Made,
        events[1] is Made,
        events[2] is Made,
{
    let second = events.drop_last();
    assert(phase_after(second) is Collection);
    let first = second.drop_last();
    assert(phase_after(first) is Client);
    let none = first.drop_last();
    assert(phase_after(none) is Runtime);
    lemma_runtime(none);
    assert(events.len() == 3);
    assert(events[2] == events.last());
    assert(events[1] == second.last());
    assert(events[0] == first.last());
}

proof fn lemma_runtime(events: Seq<Event>)
    requires
        phase_after(events) is Runtime,
    ensures
        events.len() == 0,
{
}

/// A thread that cannot make what it needs tells the store why, and then ends.
pub proof fn law_failures_are_announced(phase: Phase, err: VectorStoreError, heard: bool)
    requires
        phase is Runtime || phase is Client || phase is Collection,
    ensures
        next(phase, Event::Failed(err)) == Some((Phase::Failing, Action::Announce(Err(err)))),
        next(Phase::Failing, Event::Announced(heard)) == Some((Phase::Stopped, Action::Stop)),
{
}

/// A command is carried out and answered, and then the next one is waited for,
/// whether or not anyone was there for the answer.
pub proof fn law_commands_are_answered(command: Command, succeeded: bool, heard: bool)
    ensures
        next(Phase::Listening, Event::Received(Some(command))) == Some(
            (Phase::Handling(command is Reset), Action::Handle(command)),
        ),
        next(Phase::Handling(command is Reset), Event::Handled(succeeded)) == Some(
            (Phase::Replying, Action::Reply { adopt: command is Reset && succeeded }),
        ),
        next(Phase::Replying, Event::Replied(heard)) == Some((Phase::Listening, Action::Receive)),
{
}

/// What a store makes of what its thread told it while starting, or of its
/// silence.
pub fn startup_outcome(backend: &str, told: Option<Result<(), VectorStoreError>>) -> (r: Result<
    (),
    VectorStoreError,
>)
    ensures
        match told {
            Some(outcome) => r == outcome,
            None => r matches Err(VectorStoreError::Backend(reason)) && reason@ == backend@
                + " dispatcher thread exited before startup completed"@,
        },
{
    match told {
        Some(outcome) => outcome,
        None => Err(
            VectorStoreError::Backend(
                text::concat(backend, " dispatcher thread exited before startup completed"),
            ),
        ),
    }
}

/// What a store makes of the answer of its thread, or of its silence.
pub fn reply_outcome<T>(
    backend: &str,
    sent: bool,
    reply: Option<Result<T, VectorStoreError>>,
) -> (r: Result<T, VectorStoreError>)
    ensures
        !sent ==> (r matches Err(VectorStoreError::Backend(reason)) && reason@ == backend@
            + " dispatcher thread is no longer running"@),
        sent ==> match reply {
            Some(outcome) => r == outcome,
            None => r matches Err(VectorStoreError::Backend(reason)) && reason@ == backend@
                + " dispatcher thread dropped the reply channel"@,
        },
{
    if !sent {
        return Err(
            VectorStoreError::Backend(
                text::concat(backend, " dispatcher thread is no longer running"),
            ),
        );
    }
    match reply {
        Some(outcome) => outcome,
        None => Err(
            VectorStoreError::Backend(
                text::concat(backend, " dispatcher thread dropped the reply channel"),
            ),
        ),
    }
}

} // verus!
