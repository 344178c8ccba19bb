//! The session controller: at most one receive loop at a time, and what to
//! do on each command to keep it so.

use crate::descriptor::SessionDescriptor;
use std::str::FromStr;
use crate::error::{ParseError, ParseErrorView};
use vstd::prelude::*;

verus! {

/// Where the stream of a `Play` message comes from.
#[derive(Debug, Clone, PartialEq, Eq)]
pub enum Session {
    /// The text of an SDP document.
    Sdp(String),
    /// The descriptor itself.
    Custom(SessionDescriptor),
}

/// What a client can ask of its session.
#[derive(Debug, Clone, PartialEq, Eq)]
pub enum ClientMessage {
    Play(Session),
    Stop,
}

/// A client's message with its stream resolved.
#[derive(Debug, Clone, Copy, PartialEq, Eq, Structural)]
pub enum Command {
    Play(SessionDescriptor),
    Stop,
}

/// Whether a receive loop is on record, and for which stream.
#[derive(Debug, Clone, Copy, PartialEq, Eq, Structural)]
pub enum SessionState {
    Idle,
    Active(SessionDescriptor),
}

/// One thing for the caller to do, in the order given.
#[derive(Debug, Clone, Copy, PartialEq, Eq, Structural)]
pub enum SessionAction {
    /// Send the stop signal to every receive loop that listens.
    StopReceiver,
    /// Wait this many milliseconds, for the old loop to let go of its socket.
    AwaitRelease(u64),
    /// Open a receiver for the stream and start its receive loop.
    StartReceiver(SessionDescriptor),
}

/// The milliseconds granted to a stopped loop before the next one starts.
pub const RELEASE_GRACE_MILLIS: u64 = 100;

/// The stream that `session` stands for, or why it stands for none.
pub open spec fn spec_resolve(session: &Session) -> Result<SessionDescriptor, ParseErrorView> {
    match session {
        Session::Sdp(text) => SessionDescriptor::spec_from_text(text@),
        Session::Custom(descriptor) => Ok(*descriptor),
    }
}

/// The command that `message` comes to, or why it comes to none.
pub open spec fn spec_command(message: &ClientMessage) -> Result<Command, ParseErrorView> {
    match message {
        ClientMessage::Stop => Ok(Command::Stop),
        ClientMessage::Play(session) => match spec_resolve(session) {
            Ok(descriptor) => Ok(Command::Play(descriptor)),
            Err(e) => Err(e),
        },
    }
}

/// The state after `command`: active for the stream of a `Play`, whatever
/// was before, and idle after a `Stop`.
pub open spec fn next_state(state: SessionState, command: Command) -> SessionState {
    match command {
        Command::Play(descriptor) => SessionState::Active(descriptor),
        Command::Stop => SessionState::Idle,
    }
}

/// What is to be done on `command`. A `Play` always stops what may run, waits
/// for it to let go and only then starts the new loop, also for a stream that
/// is the one on record. A `Stop` stops the loop on record and does nothing
/// when there is none.
pub open spec fn actions_for(state: SessionState, command: Command) -> Seq<SessionAction> {
    match command {
        Command::Play(descriptor) => seq![
            SessionAction::StopReceiver,
            SessionAction::AwaitRelease(RELEASE_GRACE_MILLIS),
            SessionAction::StartReceiver(descriptor),
        ],
        Command::Stop => match state {
            SessionState::Idle => Seq::<SessionAction>::empty(),
            SessionState::Active(_) => seq![SessionAction::StopReceiver],
        },
    }
}

/// The streams whose receive loops run after `action`, given those that ran
/// before: the stop signal ends them all, waiting changes nothing, and a
/// start adds one.
pub open spec fn perform(live: Seq<SessionDescriptor>, action: SessionAction) -> Seq<
    SessionDescriptor,
> {
    match action {
        SessionAction::StopReceiver => Seq::<SessionDescriptor>::empty(),
        SessionAction::AwaitRelease(_) => live,
        SessionAction::StartReceiver(descriptor) => live.push(descriptor),
    }
}

/// The streams whose receive loops run after `actions`, done in order.
pub open spec fn perform_all(live: Seq<SessionDescriptor>, actions: Seq<SessionAction>) -> Seq<
    SessionDescriptor,
>
    decreases actions.len(),
{
    if actions.len() == 0 {
        live
    } else {
        perform_all(perform(live, actions[0]), actions.drop_first())
    }
}

/// Whether the record `state` fits the loops that run: at most one runs, and
/// one that runs is the one on record. A loop may have ended by itself, so an
/// active record with no loop running fits too.
pub open spec fn fits(state: SessionState, live: Seq<SessionDescriptor>) -> bool {
    live.len() == 0 || (live.len() == 1 && state == SessionState::Active(live[0]))
}

/// Finds the stream that `session` stands for.
pub fn resolve(session: &Session) -> (r: Result<SessionDescriptor, ParseError>)
    ensures
        crate::error::plain(r) == spec_resolve(session),
{
    match session {
        Session::Sdp(text) => SessionDescriptor::from_str(text.as_str()),
        Session::Custom(descriptor) => Ok(*descriptor),
    }
}

/// The owner of the record of the one receive loop that may run.
#[derive(Debug)]
pub struct SessionController {
    state: SessionState,
}

impl SessionController {
    /// The record that the controller holds.
    pub closed spec fn spec_state(&self) -> SessionState {
        self.state
    }

    /// A controller with no loop on record.
    pub fn new() -> (controller: SessionController)
        ensures
            controller.spec_state() == SessionState::Idle,
    {
        SessionController { state: SessionState::Idle }
    }

    /// The record that the controller holds.
    #[verifier::when_used_as_spec(spec_state)]
    pub fn state(&self) -> (state: SessionState)
        ensures
            state == self.spec_state(),
    {
        self.state
    }

    /// Takes `command` on record and says what is to be done for it.
    pub fn apply(&mut self, command: Command) -> (actions: Vec<SessionAction>)
        ensures
            final(self).spec_state() == next_state(old(self).spec_state(), command),
            actions@ == actions_for(old(self).spec_state(), command),
    {
        let mut actions: Vec<SessionAction> = Vec::new();
        match command {
            Command::Play(descriptor) => {
                actions.push(SessionAction::StopReceiver);
                actions.push(SessionAction::AwaitRelease(RELEASE_GRACE_MILLIS));
                actions.push(SessionAction::StartReceiver(descriptor));
                self.state = SessionState::Active(descriptor);
            },
            Command::Stop => {
                match self.state {
                    SessionState::Idle => {},
                    SessionState::Active(_) => {
                        actions.push(SessionAction::StopReceiver);
                    },
                }
                self.state = SessionState::Idle;
            },
        }
        proof {
            assert(actions@ =~= actions_for(old(self).spec_state(), command));
        }
        actions
    }

    /// Handles one message of the client. A `Play` whose stream cannot be
    /// resolved fails with the reason and changes nothing; every other
    /// message is applied as the command it comes to.
    pub fn handle(&mut self, message: &ClientMessage) -> (r: Result<
        Vec<SessionAction>,
        ParseError,
    >)
        ensures
            match spec_command(message) {
                Ok(command) => r matches Ok(actions) && actions@ == actions_for(
                    old(self).spec_state(),
                    command,
                ) && final(self).spec_state() == next_state(old(self).spec_state(), command),
                Err(e) => r matches Err(error) && error@ == e && final(self).spec_state() == old(
                    self,
                ).spec_state(),
            },
    {
        match message {
            ClientMessage::Stop => Ok(self.apply(Command::Stop)),
            ClientMessage::Play(session) => match resolve(session) {
                Ok(descriptor) => Ok(self.apply(Command::Play(descriptor))),
                Err(e) => Err(e),
            },
        }
    }

    /// Takes note that the client is gone: as a `Stop`.
    pub fn disconnect(&mut self) -> (actions: Vec<SessionAction>)
        ensures
            final(self).spec_state() == SessionState::Idle,
            actions@ == actions_for(old(self).spec_state(), Command::Stop),
    {
        self.apply(Command::Stop)
    }
}

/// A `Stop` with no loop on record leaves the record idle and asks for
/// nothing to be done.
pub proof fn lemma_stop_when_idle()
    ensures
        next_state(SessionState::Idle, Command::Stop) == SessionState::Idle,
        actions_for(SessionState::Idle, Command::Stop) == Seq::<SessionAction>::empty(),
{
}

/// Whatever the command, a record that fits the running loops before fits
/// them after: never more than one loop runs.
pub proof fn lemma_at_most_one_receiver(
    state: SessionState,
    live: Seq<SessionDescriptor>,
    command: Command,
)
    requires
        fits(state, live),
    ensures
        fits(next_state(state, command), perform_all(live, actions_for(state, command))),
        command matches Command::Play(descriptor) ==> perform_all(
            live,
            actions_for(state, command),
        ) == seq![descriptor],
        command == Command::Stop ==> perform_all(live, actions_for(state, command)).len() == 0,
{
    let actions = actions_for(state, command);
    match command {
        Command::Play(descriptor) => {
            let none = Seq::<SessionDescriptor>::empty();
            let a1 = actions.drop_first();
            let a2 = a1.drop_first();
            let a3 = a2.drop_first();
            assert(a3.len() == 0);
            assert(perform_all(none.push(descriptor), a3) == none.push(descriptor));
            assert(perform_all(none, a2) == none.push(descriptor));
            assert(perform_all(none, a1) == none.push(descriptor));
            assert(perform_all(live, actions) == none.push(descriptor));
            assert(none.push(descriptor) =~= seq![descriptor]);
        },
        Command::Stop => {
            match state {
                SessionState::Idle => {
                    assert(live.len() == 0);
                },
                SessionState::Active(_) => {
                    let a1 = actions.drop_first();
                    assert(a1.len() == 0);
                    assert(perform_all(Seq::<SessionDescriptor>::empty(), a1).len() == 0);
                },
            }
        },
    }
}

/// Two `Play` commands in a row leave exactly one receive loop, that of the
/// second stream, and the record says so; the first loop is told to stop and
/// given its time before the second is started.
pub proof fn lemma_switchover(
    state: SessionState,
    live: Seq<SessionDescriptor>,
    first: SessionDescriptor,
    second: SessionDescriptor,
)
    requires
        fits(state, live),
    ensures
        ({
            let between = next_state(state, Command::Play(first));
            let live_between = perform_all(live, actions_for(state, Command::Play(first)));
            let actions = actions_for(between, Command::Play(second));
            &&& perform_all(live_between, actions) == seq![second]
            &&& next_state(between, Command::Play(second)) == SessionState::Active(second)
            &&& actions == seq![
                SessionAction::StopReceiver,
                SessionAction::AwaitRelease(100),
                SessionAction::StartReceiver(second),
            ]
        }),
{
    lemma_at_most_one_receiver(state, live, Command::Play(first));
    let between = next_state(state, Command::Play(first));
    let live_between = perform_all(live, actions_for(state, Command::Play(first)));
    lemma_at_most_one_receiver(between, live_between, Command::Play(second));
}

} // verus!
