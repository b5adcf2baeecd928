//! The agent's decisions: which client runs, what each is answered, and when one
//! is given up.
//!
//! Only one client can have the agent running at a time. Starting takes work
//! outside of this module (looking at file descriptors, mapping the ring buffer,
//! starting the extension), so a start is a [`StartAttempt`] that asks for one
//! such step after the other and is told how it went.

use super::process_id::{process_id_change, requested_change, ProcessIdChange};
use crate::protocol::{views, ArgsView, ControlMessage, ControlMessageView, VERSION};
use std::collections::{HashMap, VecDeque};
use vstd::prelude::*;
use vstd::std_specs::hash::*;
use vstd::std_specs::iter::IteratorSpec;

verus! {

/// What the agent does as a result of what it decided.
#[derive(Debug)]
pub enum Action {
    SendMessage { client_id: u64, message: ControlMessage },
    DeleteEpoll { client_id: u64 },
}

pub enum ActionView {
    SendMessage { client_id: u64, message: ControlMessageView },
    DeleteEpoll { client_id: u64 },
}

impl View for Action {
    type V = ActionView;

    open spec fn view(&self) -> ActionView {
        match *self {
            Action::SendMessage { client_id, message } => ActionView::SendMessage {
                client_id,
                message: message@,
            },
            Action::DeleteEpoll { client_id } => ActionView::DeleteEpoll { client_id },
        }
    }
}

/// How long a client may be silent, unless the agent is told otherwise.
pub const CLIENT_TIMEOUT_NS: u64 = 2_000_000_000;

#[derive(Debug, Clone, Copy, PartialEq, Eq, Structural)]
pub enum State {
    Pending,
    Started,
}

/// What the agent knows of a client: whether it is started, and when it was last
/// heard of.
#[derive(Debug, Clone, Copy, PartialEq, Eq, Structural)]
pub struct AgentClientState {
    pub state: State,
    pub timestamp_ns: u64,
}

impl AgentClientState {
    /// Whether the client was heard of within the timeout.
    pub open spec fn alive(self, timeout_ns: u64, now_ns: u64) -> bool {
        now_ns - self.timestamp_ns <= timeout_ns
    }

    pub fn new(now_ns: u64) -> (r: Self)
        ensures
            r == (AgentClientState { state: State::Pending, timestamp_ns: now_ns }),
    {
        AgentClientState { state: State::Pending, timestamp_ns: now_ns }
    }

    pub fn timer(&self, timeout_ns: u64, now_ns: u64) -> (r: bool)
        ensures
            r == self.alive(timeout_ns, now_ns),
    {
        let elapsed: u64 = now_ns.saturating_sub(self.timestamp_ns);
        elapsed <= timeout_ns
    }
}

/// The agent's state: its clients by id, which of them is started, the id of the
/// next one, the timeout, whether there is an extension, and whether it runs.
pub struct AgentStateView {
    pub clients: Map<u64, AgentClientState>,
    pub started_client: Option<u64>,
    pub another_started: bool,
    pub next_client_id: u64,
    pub timeout_ns: u64,
    pub has_extension: bool,
    pub extension_active: bool,
}

impl AgentStateView {
    /// The slot for the one running client is taken exactly when there is such a
    /// client, and the agent knows that client.
    pub open spec fn wf(self) -> bool {
        &&& self.another_started <==> self.started_client is Some
        &&& self.started_client matches Some(id) ==> self.clients.contains_key(id)
    }

    /// Whether giving up the running client stops the extension.
    pub open spec fn stops_extension(self) -> bool {
        self.extension_active && self.has_extension
    }

    /// The state with the running client's slot given back.
    pub open spec fn released(self) -> AgentStateView {
        AgentStateView {
            started_client: None,
            another_started: false,
            extension_active: self.extension_active && !self.has_extension,
            ..self
        }
    }

    /// The state after `client_id` is disconnected.
    pub open spec fn disconnected(self, client_id: u64) -> AgentStateView {
        if self.started_client == Some(client_id) {
            self.released()
        } else {
            self
        }
    }

    /// The state after `client_id` has started.
    pub open spec fn started(self, client_id: u64, now_ns: u64) -> AgentStateView {
        AgentStateView {
            clients: self.clients.insert(
                client_id,
                AgentClientState { state: State::Started, timestamp_ns: now_ns },
            ),
            started_client: Some(client_id),
            another_started: true,
            extension_active: self.extension_active || self.has_extension,
            ..self
        }
    }

    /// The state after `client_id` was taken in.
    pub open spec fn registered(self, client_id: u64, now_ns: u64) -> AgentStateView {
        AgentStateView {
            clients: self.clients.insert(
                client_id,
                AgentClientState { state: State::Pending, timestamp_ns: now_ns },
            ),
            ..self
        }
    }

    /// The state after the next id was given away.
    pub open spec fn numbered(self) -> AgentStateView {
        AgentStateView { next_client_id: (self.next_client_id + 1) as u64, ..self }
    }

    /// The state after `client_id` was forgotten.
    pub open spec fn forgotten(self, client_id: u64) -> AgentStateView {
        AgentStateView { clients: self.clients.remove(client_id), ..self }
    }

    /// Whether `client_id` is waiting for a start.
    pub open spec fn pending(self, client_id: u64) -> bool {
        self.clients.contains_key(client_id) && self.clients[client_id].state == State::Pending
    }

    /// Why a request to start is refused before anything outside is looked at.
    pub open spec fn refusal(self, args: ArgsView, raw_fds: Seq<i32>) -> Option<Seq<char>> {
        if self.another_started {
            Some("another client already started"@)
        } else if args.tracing is None {
            Some("at least one arg must be non-empty"@)
        } else if raw_fds.len() < 2 {
            Some("missing file descriptors"@)
        } else if raw_fds[0] < 0 {
            Some("invalid file descriptors"@)
        } else {
            None
        }
    }

    /// Whether a client that is not the running one has been silent too long.
    pub open spec fn overdue(self, client_id: u64, now_ns: u64) -> bool {
        &&& self.clients.contains_key(client_id)
        &&& self.started_client != Some(client_id)
        &&& !self.clients[client_id].alive(self.timeout_ns, now_ns)
    }

    /// Whether the running client has been silent too long.
    pub open spec fn started_overdue(self, now_ns: u64) -> bool {
        match self.started_client {
            Some(id) => !self.clients[id].alive(self.timeout_ns, now_ns),
            None => false,
        }
    }
}

/// The queued actions.
pub open spec fn queued(actions: VecDeque<Action>) -> Seq<ActionView> {
    views(actions@)
}

/// A refusal.
pub open spec fn nack(client_id: u64, error: Seq<char>) -> ActionView {
    ActionView::SendMessage { client_id, message: ControlMessageView::Nack { error } }
}

/// An acknowledgement.
pub open spec fn ack(client_id: u64) -> ActionView {
    ActionView::SendMessage { client_id, message: ControlMessageView::Ack }
}

/// What a start waits for.
#[derive(Debug, Clone, Copy, PartialEq, Eq, Structural)]
pub enum StartStage {
    /// Whether the memory descriptor is open.
    MemoryFd,
    /// Whether the notification descriptor is open.
    NotificationFd,
    /// The ring buffer to be opened.
    Producer,
    /// The process id to be changed, the process to be announced, and the
    /// extension, if there is one, to be started.
    Launch,
}

/// How a step of a start went.
#[derive(Debug)]
pub enum StartEvent {
    FdIsOpen(bool),
    ProducerOpened(bool),
    Launched,
    Rejected(String),
}

impl StartEvent {
    /// Whether the event is about what the stage waits for.
    pub open spec fn answers(&self, stage: StartStage) -> bool {
        match stage {
            StartStage::MemoryFd => self is FdIsOpen,
            StartStage::NotificationFd => self is FdIsOpen,
            StartStage::Producer => self is ProducerOpened,
            StartStage::Launch => self is Launched || self is Rejected,
        }
    }
}

/// A start under way.
#[derive(Debug, Clone, Copy, PartialEq, Eq, Structural)]
pub struct StartAttempt {
    pub client_id: u64,
    pub buffer_size: u64,
    pub memory_fd: i32,
    pub notification_fd: i32,
    pub process_id: ProcessIdChange,
    pub stage: StartStage,
}

impl StartAttempt {
    pub open spec fn at(self, stage: StartStage) -> StartAttempt {
        StartAttempt { stage, ..self }
    }
}

/// What is to be done outside after a decision.
#[derive(Debug, PartialEq, Eq, Structural, Clone, Copy)]
pub enum Outcome {
    /// Nothing.
    Done,
    /// The extension is to be stopped.
    StopExtension,
    /// The start goes on with the step that it waits for.
    Start(StartAttempt),
}

/// The outcome of giving a client up.
pub open spec fn disconnect_outcome(before: AgentStateView, client_id: u64) -> Outcome {
    if before.started_client == Some(client_id) && before.stops_extension() {
        Outcome::StopExtension
    } else {
        Outcome::Done
    }
}

/// What a message of a client does: the state after it, the actions it queues,
/// and what is to be done outside.
pub open spec fn message_effect(
    before: AgentStateView,
    client_id: u64,
    message: ControlMessageView,
    raw_fds: Seq<i32>,
    now_ns: u64,
) -> (AgentStateView, Seq<ActionView>, Outcome) {
    if message is Version {
        (
            before,
            seq![
                ActionView::SendMessage {
                    client_id,
                    message: ControlMessageView::VersionResponse { version: VERSION@ },
                },
            ],
            Outcome::Done,
        )
    } else if before.pending(client_id) {
        match message {
            ControlMessageView::Start { buffer_size, args } => match before.refusal(args, raw_fds) {
                Some(error) => (before, seq![nack(client_id, error)], Outcome::Done),
                None => (
                    before,
                    seq![],
                    Outcome::Start(
                        StartAttempt {
                            client_id,
                            buffer_size,
                            memory_fd: raw_fds[0],
                            notification_fd: raw_fds[1],
                            process_id: requested_change(args),
                            stage: StartStage::MemoryFd,
                        },
                    ),
                ),
            },
            _ => (before, seq![], Outcome::Done),
        }
    } else if before.clients.contains_key(client_id) {
        match message {
            ControlMessageView::Stop => (
                before.disconnected(client_id),
                seq![ack(client_id), ActionView::DeleteEpoll { client_id }],
                disconnect_outcome(before, client_id),
            ),
            ControlMessageView::Continue => (
                AgentStateView {
                    clients: before.clients.insert(
                        client_id,
                        AgentClientState { state: State::Started, timestamp_ns: now_ns },
                    ),
                    ..before
                },
                seq![ack(client_id)],
                Outcome::Done,
            ),
            _ => (before, seq![], Outcome::Done),
        }
    } else {
        (before, seq![], Outcome::Done)
    }
}

/// What the answer to a step of a start does.
pub open spec fn start_effect(
    before: AgentStateView,
    attempt: StartAttempt,
    event: StartEvent,
    now_ns: u64,
) -> (AgentStateView, Seq<ActionView>, Outcome) {
    let id = attempt.client_id;
    let invalid = (before, seq![nack(id, "invalid file descriptors"@)], Outcome::Done);
    match (attempt.stage, event) {
        (StartStage::MemoryFd, StartEvent::FdIsOpen(open)) => if open && attempt.notification_fd
            >= 0 {
            (before, seq![], Outcome::Start(attempt.at(StartStage::NotificationFd)))
        } else {
            invalid
        },
        (StartStage::NotificationFd, StartEvent::FdIsOpen(open)) => if open {
            (before, seq![], Outcome::Start(attempt.at(StartStage::Producer)))
        } else {
            invalid
        },
        (StartStage::Producer, StartEvent::ProducerOpened(opened)) => if opened {
            (before, seq![], Outcome::Start(attempt.at(StartStage::Launch)))
        } else {
            (
                before.disconnected(id),
                seq![ActionView::DeleteEpoll { client_id: id }],
                disconnect_outcome(before, id),
            )
        },
        (StartStage::Launch, StartEvent::Launched) => (
            before.started(id, now_ns),
            seq![ack(id)],
            Outcome::Done,
        ),
        (StartStage::Launch, StartEvent::Rejected(error)) => (
            before,
            seq![nack(id, error@)],
            Outcome::Done,
        ),
        _ => (before, seq![], Outcome::Done),
    }
}

/// The state of the agent.
#[derive(Debug)]
pub struct AgentState {
    clients: HashMap<u64, AgentClientState>,
    started_client: Option<u64>,
    another_started: bool,
    next_client_id: u64,
    timeout_ns: u64,
    has_extension: bool,
    extension_active: bool,
}

impl View for AgentState {
    type V = AgentStateView;

    closed spec fn view(&self) -> AgentStateView {
        AgentStateView {
            clients: self.clients@,
            started_client: self.started_client,
            another_started: self.another_started,
            next_client_id: self.next_client_id,
            timeout_ns: self.timeout_ns,
            has_extension: self.has_extension,
            extension_active: self.extension_active,
        }
    }
}

fn send(actions: &mut VecDeque<Action>, client_id: u64, message: ControlMessage)
    ensures
        queued(*final(actions)) == queued(*old(actions)) + seq![
            ActionView::SendMessage { client_id, message: message@ },
        ],
{
    let ghost m = message@;
    actions.push_back(Action::SendMessage { client_id, message });
    assert(queued(*actions) =~= queued(*old(actions)) + seq![
        ActionView::SendMessage { client_id, message: m },
    ]);
}

fn refuse(actions: &mut VecDeque<Action>, client_id: u64, error: &str)
    ensures
        queued(*final(actions)) == queued(*old(actions)) + seq![nack(client_id, error@)],
{
    send(actions, client_id, ControlMessage::Nack { error: error.to_owned() });
}

fn forget(actions: &mut VecDeque<Action>, client_id: u64)
    ensures
        queued(*final(actions)) == queued(*old(actions)) + seq![
            ActionView::DeleteEpoll { client_id },
        ],
{
    actions.push_back(Action::DeleteEpoll { client_id });
    assert(queued(*actions) =~= queued(*old(actions)) + seq![
        ActionView::DeleteEpoll { client_id },
    ]);
}

impl AgentState {
    pub fn new(timeout_ms: u16, has_extension: bool) -> (r: Self)
        ensures
            r@ == (AgentStateView {
                clients: Map::empty(),
                started_client: None,
                another_started: false,
                next_client_id: 1,
                timeout_ns: (timeout_ms * 1_000_000) as u64,
                has_extension,
                extension_active: false,
            }),
            r@.wf(),
    {
        AgentState {
            clients: HashMap::new(),
            started_client: None,
            another_started: false,
            next_client_id: 1,
            timeout_ns: timeout_ms as u64 * 1_000_000,
            has_extension,
            extension_active: false,
        }
    }

    /// Forgets a client.
    pub fn remove_client(&mut self, token: u64)
        ensures
            final(self)@ == old(self)@.forgotten(token),
            old(self)@.wf() && old(self)@.started_client != Some(token) ==> final(self)@.wf(),
    {
        broadcast use group_hash_axioms;

        self.clients.remove(&token);
    }

    /// The id for the next client; ids count up, so that none comes twice.
    pub fn get_next_client_id(&mut self) -> (id: u64)
        requires
            old(self)@.next_client_id < u64::MAX,
        ensures
            id == old(self)@.next_client_id,
            final(self)@ == old(self)@.numbered(),
    {
        let id: u64 = self.next_client_id;
        self.next_client_id = id + 1;
        id
    }

    pub fn timeout_ms(&self) -> (r: u16)
        ensures
            r == (self@.timeout_ns / 1_000_000) as u16,
    {
        (self.timeout_ns / 1_000_000) as u16
    }

    /// Takes a client in, waiting for its start.
    pub fn register_client(&mut self, client_id: u64, now_ns: u64)
        ensures
            final(self)@ == old(self)@.registered(client_id, now_ns),
            old(self)@.wf() ==> final(self)@.wf(),
    {
        broadcast use group_hash_axioms;

        self.clients.insert(client_id, AgentClientState::new(now_ns));
    }

    /// Gives the slot of the running client back. Returns whether the extension
    /// is to be stopped.
    fn release(&mut self) -> (stop: bool)
        ensures
            final(self)@ == old(self)@.released(),
            stop == old(self)@.stops_extension(),
    {
        let stop: bool = self.extension_active && self.has_extension;
        if stop {
            self.extension_active = false;
        }
        self.another_started = false;
        self.started_client = None;
        stop
    }

    fn is_started(&self, client_id: u64) -> (r: bool)
        ensures
            r == (self@.started_client == Some(client_id)),
    {
        match self.started_client {
            Some(id) => id == client_id,
            None => false,
        }
    }

    /// Gives a client up: it is to be forgotten, and if it was the running one,
    /// its slot is free again.
    pub fn handle_disconnect(&mut self, client_id: u64, actions: &mut VecDeque<Action>) -> (outcome:
        Outcome)
        ensures
            final(self)@ == old(self)@.disconnected(client_id),
            queued(*final(actions)) == queued(*old(actions)) + seq![
                ActionView::DeleteEpoll { client_id },
            ],
            outcome == disconnect_outcome(old(self)@, client_id),
            old(self)@.wf() ==> final(self)@.wf(),
    {
        let stop: bool = if self.is_started(client_id) {
            self.release()
        } else {
            false
        };
        forget(actions, client_id);
        if stop {
            Outcome::StopExtension
        } else {
            Outcome::Done
        }
    }

    /// Decides about a message of a client, which came with the descriptors
    /// `raw_fds`.
    pub fn handle_message(
        &mut self,
        client_id: u64,
        message: &ControlMessage,
        raw_fds: &[i32],
        now_ns: u64,
        actions: &mut VecDeque<Action>,
    ) -> (outcome: Outcome)
        ensures
            ({
                let effect = message_effect(old(self)@, client_id, message@, raw_fds@, now_ns);
                &&& final(self)@ == effect.0
                &&& queued(*final(actions)) == queued(*old(actions)) + effect.1
                &&& outcome == effect.2
            }),
            old(self)@.wf() ==> final(self)@.wf(),
    {
        broadcast use group_hash_axioms;

        assert(queued(*actions) =~= queued(*actions) + seq![]);
        if matches!(message, ControlMessage::Version) {
            send(
                actions,
                client_id,
                ControlMessage::VersionResponse { version: VERSION.to_owned() },
            );
            return Outcome::Done;
        }
        let client: AgentClientState = match self.clients.get(&client_id) {
            None => {
                return Outcome::Done;
            },
            Some(client) => *client,
        };
        match client.state {
            State::Pending => match message {
                ControlMessage::Start { buffer_size, args } => {
                    if self.another_started {
                        refuse(actions, client_id, "another client already started");
                        return Outcome::Done;
                    }
                    if args.tracing.is_none() {
                        refuse(actions, client_id, "at least one arg must be non-empty");
                        return Outcome::Done;
                    }
                    if raw_fds.len() < 2 {
                        refuse(actions, client_id, "missing file descriptors");
                        return Outcome::Done;
                    }
                    if raw_fds[0] < 0 {
                        refuse(actions, client_id, "invalid file descriptors");
                        return Outcome::Done;
                    }
                    Outcome::Start(
                        StartAttempt {
                            client_id,
                            buffer_size: *buffer_size,
                            memory_fd: raw_fds[0],
                            notification_fd: raw_fds[1],
                            process_id: process_id_change(args),
                            stage: StartStage::MemoryFd,
                        },
                    )
                },
                _ => Outcome::Done,
            },
            State::Started => match message {
                ControlMessage::Stop => {
                    send(actions, client_id, ControlMessage::Ack);
                    let outcome: Outcome = self.handle_disconnect(client_id, actions);
                    assert(queued(*actions) =~= queued(*old(actions)) + seq![
                        ack(client_id),
                        ActionView::DeleteEpoll { client_id },
                    ]);
                    outcome
                },
                ControlMessage::Continue => {
                    self.clients.insert(
                        client_id,
                        AgentClientState { state: State::Started, timestamp_ns: now_ns },
                    );
                    send(actions, client_id, ControlMessage::Ack);
                    Outcome::Done
                },
                _ => Outcome::Done,
            },
        }
    }

    /// Takes the answer to the step that a start waits for.
    pub fn continue_start(
        &mut self,
        attempt: StartAttempt,
        event: StartEvent,
        now_ns: u64,
        actions: &mut VecDeque<Action>,
    ) -> (outcome: Outcome)
        requires
            event.answers(attempt.stage),
            old(self)@.clients.contains_key(attempt.client_id),
        ensures
            ({
                let effect = start_effect(old(self)@, attempt, event, now_ns);
                &&& final(self)@ == effect.0
                &&& queued(*final(actions)) == queued(*old(actions)) + effect.1
                &&& outcome == effect.2
            }),
            old(self)@.wf() ==> final(self)@.wf(),
            final(self)@.clients.contains_key(attempt.client_id),
    {
        broadcast use group_hash_axioms;

        assert(queued(*actions) =~= queued(*actions) + seq![]);
        let client_id: u64 = attempt.client_id;
        match attempt.stage {
            StartStage::MemoryFd => {
                let open: bool = matches!(event, StartEvent::FdIsOpen(true));
                if open && attempt.notification_fd >= 0 {
                    Outcome::Start(StartAttempt { stage: StartStage::NotificationFd, ..attempt })
                } else {
                    refuse(actions, client_id, "invalid file descriptors");
                    Outcome::Done
                }
            },
            StartStage::NotificationFd => {
                let open: bool = matches!(event, StartEvent::FdIsOpen(true));
                if open {
                    Outcome::Start(StartAttempt { stage: StartStage::Producer, ..attempt })
                } else {
                    refuse(actions, client_id, "invalid file descriptors");
                    Outcome::Done
                }
            },
            StartStage::Producer => {
                let opened: bool = matches!(event, StartEvent::ProducerOpened(true));
                if opened {
                    Outcome::Start(StartAttempt { stage: StartStage::Launch, ..attempt })
                } else {
                    self.handle_disconnect(client_id, actions)
                }
            },
            StartStage::Launch => match event {
                StartEvent::Rejected(error) => {
                    refuse(actions, client_id, error.as_str());
                    Outcome::Done
                },
                _ => {
                    if self.has_extension {
                        self.extension_active = true;
                    }
                    send(actions, client_id, ControlMessage::Ack);
                    self.another_started = true;
                    self.started_client = Some(client_id);
                    self.clients.insert(
                        client_id,
                        AgentClientState { state: State::Started, timestamp_ns: now_ns },
                    );
                    Outcome::Done
                },
            },
        }
    }

    /// Gives up every client that has been silent too long: those that are not
    /// running in any order, and the running one after them.
    pub fn timer(&mut self, now_ns: u64, actions: &mut VecDeque<Action>) -> (outcome: Outcome)
        requires
            old(self)@.wf(),
        ensures
            final(self)@.wf(),
            final(self)@ == (if old(self)@.started_overdue(now_ns) {
                old(self)@.released()
            } else {
                old(self)@
            }),
            outcome == (if old(self)@.started_overdue(now_ns) && old(self)@.stops_extension() {
                Outcome::StopExtension
            } else {
                Outcome::Done
            }),
            exists|ids: Seq<u64>| #[trigger]
                timed_out(old(self)@, now_ns, ids) && queued(*final(actions)) == queued(
                    *old(actions),
                ) + deletions(ids) + (if old(self)@.started_overdue(now_ns) {
                    deletions(seq![old(self)@.started_client->0])
                } else {
                    seq![]
                }),
    {
        broadcast use group_hash_axioms;

        let ghost before = self@;
        let ghost mut ids: Seq<u64> = seq![];
        assert(queued(*actions) =~= queued(*old(actions)) + deletions(ids));
        for (client_id, client) in it: self.clients.iter()
            invariant
                *self == *old(self),
                before == self@,
                before.wf(),
                it.seq() == self.clients.iter().remaining(),
                it.seq().no_duplicates(),
                queued(*actions) == queued(*old(actions)) + deletions(ids),
                ids.no_duplicates(),
                forall|id: u64|
                    #[trigger] ids.contains(id) <==> exists|i: int|
                        0 <= i < it.index() && *(#[trigger] it.seq()[i]).0 == id && before.overdue(
                            id,
                            now_ns,
                        ),
        {
            let id: u64 = *client_id;
            let ghost at = it.index();
            let ghost prev = ids;
            assert(self.clients@.contains_key(*it.seq()[at].0));
            if !self.is_started(id) && !client.timer(self.timeout_ns, now_ns) {
                let ghost queue = queued(*actions);
                forget(actions, id);
                proof {
                    ids = ids.push(id);
                    assert(queued(*actions) =~= queued(*old(actions)) + deletions(ids));
                    assert(!prev.contains(id)) by {
                        if prev.contains(id) {
                            let i = choose|i: int|
                                0 <= i < at && *(#[trigger] it.seq()[i]).0 == id && before.overdue(
                                    id,
                                    now_ns,
                                );
                            assert(it.seq()[i] == it.seq()[at]);
                        }
                    }
                }
            }
            proof {
                assert forall|other: u64| #[trigger] ids.contains(other) <==> exists|i: int|
                    0 <= i < at + 1 && *(#[trigger] it.seq()[i]).0 == other && before.overdue(
                        other,
                        now_ns,
                    ) by {
                    if ids.contains(other) {
                        if prev.contains(other) {
                            let i = choose|i: int|
                                0 <= i < at && *(#[trigger] it.seq()[i]).0 == other
                                    && before.overdue(other, now_ns);
                            assert(0 <= i < at + 1 && *it.seq()[i].0 == other);
                        } else {
                            assert(other == id);
                            assert(*it.seq()[at].0 == other);
                        }
                    } else {
                        assert(!prev.contains(other)) by {
                            if prev.contains(other) {
                                let k = choose|k: int| 0 <= k < prev.len() && prev[k] == other;
                                assert(ids[k] == other);
                            }
                        }
                        if other == id && before.overdue(other, now_ns) {
                            assert(ids[ids.len() - 1] == other);
                        }
                    }
                }
            }
        }
        proof {
            assert(timed_out(before, now_ns, ids)) by {
                assert forall|id: u64| #[trigger] ids.contains(id) <==> before.overdue(
                    id,
                    now_ns,
                ) by {
                    if before.overdue(id, now_ns) {
                        let v = self.clients.iter().remaining();
                        assert(v.contains((&id, &self.clients@[id])));
                        let i = choose|i: int| 0 <= i < v.len() && v[i] == (&id, &self.clients@[id]);
                        assert(*v[i].0 == id);
                    }
                }
            }
        }
        let mut outcome: Outcome = Outcome::Done;
        let ghost middle = queued(*actions);
        if let Some(client_id) = self.started_client {
            let alive: bool = match self.clients.get(&client_id) {
                Some(client) => client.timer(self.timeout_ns, now_ns),
                None => true,
            };
            if !alive {
                forget(actions, client_id);
                proof {
                    assert(deletions(seq![client_id]) =~= seq![
                        ActionView::DeleteEpoll { client_id },
                    ]);
                }
                if self.release() {
                    outcome = Outcome::StopExtension;
                }
            }
        }
        proof {
            assert(queued(*actions) =~= queued(*old(actions)) + deletions(ids) + (
            if before.started_overdue(now_ns) {
                deletions(seq![before.started_client->0])
            } else {
                seq![]
            }));
        }
        outcome
    }
}

/// Whether `ids` are exactly the clients, other than the running one, that have
/// been silent too long, each once.
pub open spec fn timed_out(state: AgentStateView, now_ns: u64, ids: Seq<u64>) -> bool {
    &&& ids.no_duplicates()
    &&& forall|id: u64| #[trigger] ids.contains(id) <==> state.overdue(id, now_ns)
}

/// The actions that forget the clients `ids`.
pub open spec fn deletions(ids: Seq<u64>) -> Seq<ActionView> {
    ids.map_values(|id: u64| ActionView::DeleteEpoll { client_id: id })
}

/// A client that asks to start while another runs is refused, and nothing
/// changes.
pub proof fn law_one_client_at_a_time(
    before: AgentStateView,
    client_id: u64,
    buffer_size: u64,
    args: ArgsView,
    raw_fds: Seq<i32>,
    now_ns: u64,
)
    requires
        before.wf(),
        before.started_client is Some,
        before.pending(client_id),
    ensures
        message_effect(
            before,
            client_id,
            ControlMessageView::Start { buffer_size, args },
            raw_fds,
            now_ns,
        ) == (
            before,
            seq![nack(client_id, "another client already started"@)],
            Outcome::Done,
        ),
{
}

/// A start that is refused leaves the agent as it was; one that succeeds is
/// acknowledged, and its client is the running one.
pub proof fn law_start_is_answered(
    before: AgentStateView,
    attempt: StartAttempt,
    event: StartEvent,
    now_ns: u64,
)
    requires
        event.answers(attempt.stage),
    ensures
        ({
            let (after, actions, outcome) = start_effect(before, attempt, event, now_ns);
            &&& outcome is Start ==> after == before && actions == Seq::<ActionView>::empty()
            &&& actions == seq![ack(attempt.client_id)] ==> after.started_client == Some(
                attempt.client_id,
            ) && after.another_started && after.clients[attempt.client_id].state == State::Started
            &&& (exists|error: Seq<char>| actions == seq![#[trigger] nack(attempt.client_id, error)])
                ==> after == before
            &&& after.started_client == before.started_client || after.started_client is None
                || actions == seq![ack(attempt.client_id)]
        }),
{
    let (after, actions, outcome) = start_effect(before, attempt, event, now_ns);
    let id = attempt.client_id;
    if exists|error: Seq<char>| actions == seq![#[trigger] nack(id, error)] {
        let error = choose|error: Seq<char>| actions == seq![#[trigger] nack(id, error)];
        assert(actions[0] == nack(id, error));
        assert(actions.len() == 1);
        if attempt.stage == StartStage::Launch && event is Launched {
            assert(seq![ack(id)][0] == ack(id));
        }
        if attempt.stage == StartStage::Producer {
            assert(seq![ActionView::DeleteEpoll { client_id: id }][0] == ActionView::DeleteEpoll {
                client_id: id,
            });
        }
    }
    if actions == seq![ack(id)] {
        assert(actions[0] == ack(id));
        assert(actions.len() == 1);
        if attempt.stage == StartStage::Producer {
            assert(seq![ActionView::DeleteEpoll { client_id: id }][0] == ActionView::DeleteEpoll {
                client_id: id,
            });
        }
    }
}

/// The running client gives its slot back by stopping, so that another can
/// start.
pub proof fn law_stop_frees_the_slot(
    before: AgentStateView,
    client_id: u64,
    raw_fds: Seq<i32>,
    now_ns: u64,
)
    requires
        before.wf(),
        before.started_client == Some(client_id),
        before.clients[client_id].state == State::Started,
    ensures
        ({
            let (after, actions, outcome) = message_effect(
                before,
                client_id,
                ControlMessageView::Stop,
                raw_fds,
                now_ns,
            );
            &&& after.started_client is None
            &&& !after.another_started
            &&& actions == seq![ack(client_id), ActionView::DeleteEpoll { client_id }]
        }),
{
}

/// A client that is to be forgotten is never the running one, so that forgetting
/// it keeps the agent's state sound.
pub proof fn law_forgotten_client_is_not_running(
    before: AgentStateView,
    client_id: u64,
    message: ControlMessageView,
    raw_fds: Seq<i32>,
    attempt: StartAttempt,
    event: StartEvent,
    now_ns: u64,
    id: u64,
)
    ensures
        before.disconnected(client_id).started_client != Some(client_id),
        ({
            let (after, actions, outcome) = message_effect(
                before,
                client_id,
                message,
                raw_fds,
                now_ns,
            );
            actions.contains(ActionView::DeleteEpoll { client_id: id }) ==> after.started_client
                != Some(id)
        }),
        ({
            let (after, actions, outcome) = start_effect(before, attempt, event, now_ns);
            actions.contains(ActionView::DeleteEpoll { client_id: id }) ==> after.started_client
                != Some(id)
        }),
        before.overdue(id, now_ns) ==> before.started_client != Some(id)
            && before.released().started_client != Some(id),
{
    let (after, actions, outcome) = start_effect(before, attempt, event, now_ns);
    if actions.contains(ActionView::DeleteEpoll { client_id: id }) {
        let i = choose|i: int|
            0 <= i < actions.len() && actions[i] == (ActionView::DeleteEpoll { client_id: id });
        assert(i == 0);
    }
}

} // verus!
