use kinetrace::agent::agent_state::{
    Action, AgentClientState, AgentState, Outcome, StartAttempt, StartEvent, StartStage, State,
    CLIENT_TIMEOUT_NS,
};
use kinetrace::agent::client::{
    response_bytes, AgentClient, AgentError, Answer, IoKind, Sent, StartMove, StartReport,
};
use kinetrace::agent::epoll_thread::{
    event_step, process_actions, receive_step, remove_clients, EventStep, ReceiveStep, Received,
};
use kinetrace::agent::extension::{process_event, thread_event, thread_named, ExtensionError};
use kinetrace::agent::process_id::{ProcessId, ProcessIdChange, RANDOM_PROCESS_ID_OPTION};
use kinetrace::mpscbuf::error::MpscBufError;
use kinetrace::protocol::{
    Args, ControlMessage, Event, TimestampType, TracingArgs, TrackType, Value, VERSION,
};
use std::collections::VecDeque;

const TIMEOUT: u64 = 2_000_000_000;

fn start_message(options: Vec<(String, Value)>) -> ControlMessage {
    ControlMessage::Start {
        buffer_size: 4096,
        args: Args {
            tracing: Some(TracingArgs {
                log_filter: "info".to_string(),
                timestamp_type: TimestampType::Monotonic,
            }),
            options,
        },
    }
}

fn new_state() -> AgentState {
    AgentState::new(2000, false)
}

fn register(state: &mut AgentState, now: u64) -> u64 {
    let id = state.get_next_client_id();
    state.register_client(id, now);
    id
}

fn attempt_of(outcome: Outcome) -> StartAttempt {
    match outcome {
        Outcome::Start(attempt) => attempt,
        other => panic!("no start: {:?}", other),
    }
}

fn begin(state: &mut AgentState, id: u64, actions: &mut VecDeque<Action>) -> StartAttempt {
    attempt_of(state.handle_message(id, &start_message(vec![]), &[3, 4], 1, actions))
}

fn go(state: &mut AgentState, id: u64, now: u64) {
    let mut actions = VecDeque::new();
    let attempt = begin(state, id, &mut actions);
    let attempt = attempt_of(
        state.continue_start(attempt, StartEvent::FdIsOpen(true), now, &mut actions),
    );
    let attempt = attempt_of(
        state.continue_start(attempt, StartEvent::FdIsOpen(true), now, &mut actions),
    );
    let attempt =
        attempt_of(
            state.continue_start(attempt, StartEvent::ProducerOpened(true), now, &mut actions),
        );
    assert_eq!(attempt.stage, StartStage::Launch);
    assert!(actions.is_empty());
    assert_eq!(
        state.continue_start(attempt, StartEvent::Launched, now, &mut actions),
        Outcome::Done
    );
    assert_eq!(actions.len(), 1);
    assert!(matches!(
        &actions[0],
        Action::SendMessage { client_id, message: ControlMessage::Ack } if *client_id == id
    ));
}

fn nack_text(action: &Action) -> &str {
    match action {
        Action::SendMessage { message: ControlMessage::Nack { error }, .. } => error,
        other => panic!("no nack: {:?}", other),
    }
}

#[test]
fn clients_time_out() {
    let client = AgentClientState::new(100);
    assert_eq!(client.state, State::Pending);
    assert!(client.timer(TIMEOUT, 100 + TIMEOUT));
    assert!(!client.timer(TIMEOUT, 101 + TIMEOUT));
    assert!(client.timer(TIMEOUT, 50));
    assert_eq!(CLIENT_TIMEOUT_NS, TIMEOUT);
}

#[test]
fn ids_count_up() {
    let mut state = new_state();
    assert_eq!(state.timeout_ms(), 2000);
    assert_eq!(register(&mut state, 0), 1);
    assert_eq!(register(&mut state, 0), 2);
    let mut actions = VecDeque::new();
    assert_eq!(state.timer(0, &mut actions), Outcome::Done);
    assert!(actions.is_empty());
}

#[test]
fn any_client_is_told_the_version() {
    let mut state = new_state();
    let mut actions = VecDeque::new();
    state.handle_message(77, &ControlMessage::Version, &[], 0, &mut actions);
    assert!(matches!(
        &actions[0],
        Action::SendMessage { client_id: 77, message: ControlMessage::VersionResponse { version } }
            if version == VERSION
    ));
    state.handle_message(77, &ControlMessage::Stop, &[], 0, &mut actions);
    assert_eq!(actions.len(), 1);
}

#[test]
fn a_full_lifecycle() {
    let mut state = AgentState::new(2000, true);
    let id = register(&mut state, 0);
    go(&mut state, id, 10);
    let mut actions = VecDeque::new();
    state.handle_message(id, &ControlMessage::Continue, &[], 20, &mut actions);
    assert!(matches!(&actions[0], Action::SendMessage { message: ControlMessage::Ack, .. }));
    actions.clear();
    assert_eq!(
        state.handle_message(id, &ControlMessage::Stop, &[], 30, &mut actions),
        Outcome::StopExtension
    );
    assert_eq!(actions.len(), 2);
    assert!(matches!(&actions[1], Action::DeleteEpoll { client_id } if *client_id == id));
    let other = register(&mut state, 40);
    go(&mut state, other, 50);
}

#[test]
fn only_one_client_starts() {
    let mut state = new_state();
    let one = register(&mut state, 0);
    let two = register(&mut state, 0);
    go(&mut state, one, 1);
    let mut actions = VecDeque::new();
    assert_eq!(
        state.handle_message(two, &start_message(vec![]), &[3, 4], 1, &mut actions),
        Outcome::Done
    );
    assert_eq!(nack_text(&actions[0]), "another client already started");
}

#[test]
fn starts_are_refused_with_a_reason() {
    let mut state = new_state();
    let id = register(&mut state, 0);
    let mut actions = VecDeque::new();
    let empty = ControlMessage::Start {
        buffer_size: 1,
        args: Args { tracing: None, options: vec![] },
    };
    state.handle_message(id, &empty, &[3, 4], 1, &mut actions);
    state.handle_message(id, &start_message(vec![]), &[3], 1, &mut actions);
    state.handle_message(id, &start_message(vec![]), &[-1, 4], 1, &mut actions);
    let attempt =
        attempt_of(state.handle_message(id, &start_message(vec![]), &[3, -1], 1, &mut actions));
    state.continue_start(attempt, StartEvent::FdIsOpen(true), 1, &mut actions);
    let attempt = begin(&mut state, id, &mut actions);
    state.continue_start(attempt, StartEvent::FdIsOpen(false), 1, &mut actions);
    let attempt = begin(&mut state, id, &mut actions);
    let attempt =
        attempt_of(state.continue_start(attempt, StartEvent::FdIsOpen(true), 1, &mut actions));
    state.continue_start(attempt, StartEvent::FdIsOpen(false), 1, &mut actions);
    let rejected = StartAttempt { stage: StartStage::Launch, ..attempt };
    state.continue_start(rejected, StartEvent::Rejected("bad filter".to_string()), 1, &mut actions);
    let texts: Vec<&str> = actions.iter().map(nack_text).collect();
    assert_eq!(
        texts,
        vec![
            "at least one arg must be non-empty",
            "missing file descriptors",
            "invalid file descriptors",
            "invalid file descriptors",
            "invalid file descriptors",
            "invalid file descriptors",
            "bad filter",
        ]
    );
    let failed = StartAttempt { stage: StartStage::Producer, ..attempt };
    actions.clear();
    state.continue_start(failed, StartEvent::ProducerOpened(false), 1, &mut actions);
    assert!(matches!(&actions[0], Action::DeleteEpoll { .. }));
    // The refused client can still start.
    go(&mut state, id, 2);
}

#[test]
fn pending_and_running_clients_time_out() {
    let mut state = AgentState::new(2000, true);
    let running = register(&mut state, 0);
    go(&mut state, running, 5);
    let waiting = register(&mut state, 0);
    let mut actions = VecDeque::new();
    assert_eq!(state.timer(1 + TIMEOUT, &mut actions), Outcome::Done);
    assert_eq!(actions.len(), 1);
    assert!(matches!(&actions[0], Action::DeleteEpoll { client_id } if *client_id == waiting));
    let (sends, ids) = process_actions(&mut actions);
    assert!(sends.is_empty());
    assert_eq!(ids, vec![waiting]);
    remove_clients(&mut state, &ids);
    assert_eq!(state.timer(6 + TIMEOUT, &mut actions), Outcome::StopExtension);
    assert_eq!(actions.len(), 1);
    assert!(matches!(&actions[0], Action::DeleteEpoll { client_id } if *client_id == running));
}

#[test]
fn disconnecting_frees_the_slot() {
    let mut state = new_state();
    let id = register(&mut state, 0);
    go(&mut state, id, 1);
    let mut actions = VecDeque::new();
    assert_eq!(state.handle_disconnect(id, &mut actions), Outcome::Done);
    assert!(matches!(&actions[0], Action::DeleteEpoll { client_id } if *client_id == id));
    let other = register(&mut state, 2);
    go(&mut state, other, 3);
}

#[test]
fn the_process_id_option_is_read() {
    let change = |options| {
        let mut state = new_state();
        let id = register(&mut state, 0);
        let mut actions = VecDeque::new();
        attempt_of(state.handle_message(id, &start_message(options), &[3, 4], 1, &mut actions))
            .process_id
    };
    let name = || RANDOM_PROCESS_ID_OPTION.to_string();
    assert_eq!(change(vec![(name(), Value::Bool(true))]), ProcessIdChange::Random);
    assert_eq!(change(vec![(name(), Value::Bool(false))]), ProcessIdChange::Reset);
    assert_eq!(change(vec![]), ProcessIdChange::Reset);
    assert_eq!(change(vec![(name(), Value::Int(1))]), ProcessIdChange::Keep);
    assert_eq!(
        change(vec![("other".to_string(), Value::Bool(true))]),
        ProcessIdChange::Reset
    );
}

#[test]
fn process_ids_change() {
    let mut id = ProcessId::new(42);
    id.apply(ProcessIdChange::Random, -7);
    assert_eq!(id.get_process_id(), 7);
    id.apply(ProcessIdChange::Keep, 1);
    assert_eq!(id.get_process_id(), 7);
    id.apply(ProcessIdChange::Random, i32::MIN);
    assert_eq!(id.get_process_id(), i32::MIN);
    id.change(ProcessIdChange::Reset);
    assert_eq!(id.get_process_id(), 42);
    let mut seen = std::collections::HashSet::new();
    for _ in 0..20 {
        id.change(ProcessIdChange::Random);
        seen.insert(id.get_process_id());
    }
    assert!(seen.len() > 1);
}

#[test]
fn events_of_the_loop() {
    assert_eq!(event_step(0, true, false), EventStep::Accept);
    assert_eq!(event_step(5, true, true), EventStep::Disconnect { client_id: 5 });
    assert_eq!(event_step(5, false, true), EventStep::Receive { client_id: 5 });
    assert_eq!(event_step(5, false, false), EventStep::Ignore);
    assert_eq!(receive_step(Received::Bytes(0)), ReceiveStep::Wait);
    assert_eq!(receive_step(Received::Bytes(9)), ReceiveStep::Decode);
    assert_eq!(receive_step(Received::WouldBlock), ReceiveStep::Wait);
    assert_eq!(receive_step(Received::Failed), ReceiveStep::Disconnect);
}

#[test]
fn actions_are_split_in_order() {
    let mut actions = VecDeque::new();
    actions.push_back(Action::SendMessage { client_id: 1, message: ControlMessage::Ack });
    actions.push_back(Action::DeleteEpoll { client_id: 2 });
    actions.push_back(Action::SendMessage { client_id: 3, message: ControlMessage::Stop });
    actions.push_back(Action::DeleteEpoll { client_id: 1 });
    let (sends, ids) = process_actions(&mut actions);
    assert!(actions.is_empty());
    assert_eq!(sends.len(), 2);
    assert_eq!((sends[0].0, sends[1].0), (1, 3));
    assert_eq!(ids, vec![2, 1]);
}

fn io_text(error: AgentError) -> (IoKind, String) {
    match error {
        AgentError::Io(kind, text) => (kind, text),
        other => panic!("no io error: {:?}", other),
    }
}

#[test]
fn clients_start_and_stop() {
    let mut client = AgentClient::new("/tmp/a.sock".to_string());
    assert_eq!(client.socket_path(), "/tmp/a.sock");
    assert!(!client.enabled());
    assert!(matches!(client.keepalive(Ok(())), Err(AgentError::NotEnabled)));
    assert!(client.connect_or_reuse(Err(AgentError::NotEnabled)).is_err());
    assert!(client.connect_or_reuse(Ok(())).is_ok());
    assert!(client.connect_or_reuse(Err(AgentError::NotEnabled)).is_ok());
    let version = client
        .version_reply(Ok(ControlMessage::VersionResponse { version: "9".to_string() }))
        .unwrap();
    assert_eq!(version, VERSION);
    assert!(client.check_version(version).is_ok());
    assert!(client.start_reply(Ok(ControlMessage::Ack)).is_ok());
    assert!(client.enabled());
    assert!(client.keepalive(Ok(())).is_ok());
    assert_eq!(
        io_text(client.stop(Sent::WouldBlock).unwrap_err()),
        (IoKind::WouldBlock, "stop message would block".to_string())
    );
    assert!(client.enabled());
    assert!(client.stop(Sent::Sent).is_ok());
    assert!(!client.enabled());
    assert!(client.stop(Sent::WouldBlock).is_ok());
}

#[test]
fn a_client_asks_for_the_version_before_it_starts() {
    let mut client = AgentClient::new("a".to_string());
    let version = || Ok(ControlMessage::VersionResponse { version: "0.1".to_string() });
    assert!(matches!(client.start_with_options(), StartMove::Connect));
    assert!(matches!(
        client.continue_start(StartReport::Connected(Err(AgentError::NotEnabled))),
        StartMove::Finished(Err(AgentError::NotEnabled))
    ));
    assert!(matches!(
        client.continue_start(StartReport::Connected(Ok(()))),
        StartMove::AskVersion
    ));
    assert!(matches!(
        client.continue_start(StartReport::Version(Ok(ControlMessage::Ack))),
        StartMove::Finished(Err(_))
    ));
    assert!(matches!(client.start_with_options(), StartMove::AskVersion));
    assert!(matches!(
        client.continue_start(StartReport::Version(version())),
        StartMove::AskStart
    ));
    assert!(matches!(
        client.continue_start(StartReport::Started(Ok(ControlMessage::Ack))),
        StartMove::Finished(Ok(()))
    ));
    assert!(client.enabled());
    let error = "busy".to_string();
    match client.continue_start(StartReport::Started(Ok(ControlMessage::Nack { error }))) {
        StartMove::Finished(Err(e)) => {
            assert_eq!(e.to_text(), "IO error: agent rejected start: busy");
        }
        other => panic!("goes on: {:?}", other),
    }
    assert!(!client.enabled());
}

#[test]
fn client_errors_have_their_texts() {
    let mut client = AgentClient::new("a".to_string());
    let connected = |client: &mut AgentClient| client.connect_or_reuse(Ok(())).unwrap();
    connected(&mut client);
    assert_eq!(
        io_text(client.check_version("0.2").unwrap_err()).1,
        "version mismatch: agent version 0.2 != client version 0.1"
    );
    assert!(!client.enabled());
    connected(&mut client);
    assert_eq!(
        io_text(
            client
                .start_reply(Ok(ControlMessage::Nack { error: "busy".to_string() }))
                .unwrap_err()
        )
        .1,
        "agent rejected start: busy"
    );
    assert!(!client.enabled());
    connected(&mut client);
    assert_eq!(
        io_text(client.start_reply(Ok(ControlMessage::Stop)).unwrap_err()).1,
        "unexpected response from agent"
    );
    connected(&mut client);
    let pipe = || AgentError::Nix("EPIPE".to_string());
    assert!(client.send_continue(Sent::Sent, pipe(), Ok(ControlMessage::Ack)).is_ok());
    assert_eq!(
        client
            .send_continue(Sent::BrokenPipe, pipe(), Ok(ControlMessage::Ack))
            .unwrap_err()
            .to_text(),
        "System error: EPIPE"
    );
    assert_eq!(
        io_text(
            client
                .send_continue(Sent::WouldBlock, pipe(), Ok(ControlMessage::Ack))
                .unwrap_err()
        )
        .1,
        "continue message would block"
    );
    assert_eq!(
        io_text(
            client
                .send_continue(
                    Sent::Sent,
                    pipe(),
                    Ok(ControlMessage::Nack { error: "no".to_string() })
                )
                .unwrap_err()
        )
        .1,
        "no"
    );
    assert_eq!(
        io_text(response_bytes(Answer::TimedOut).unwrap_err()),
        (IoKind::TimedOut, "timeout waiting for agent response".to_string())
    );
    assert_eq!(
        io_text(response_bytes(Answer::WouldBlock).unwrap_err()).1,
        "no data available"
    );
    assert_eq!(response_bytes(Answer::Bytes(vec![1])).unwrap(), vec![1]);
    assert_eq!(
        AgentError::Mpscbuf(MpscBufError::LockTimeout).to_text(),
        "MPSC buffer error: failed to acquire spinlock within timeout"
    );
    assert_eq!(AgentError::Archive("x".to_string()).to_text(), "Archive error: x");
    assert_eq!(AgentError::NotEnabled.to_text(), "Agent not enabled");
    assert_eq!(AgentError::Other("x".to_string()).to_text(), "x");
    assert_eq!(AgentError::Io(IoKind::Other, "x".to_string()).to_text(), "IO error: x");
}

#[test]
fn the_start_request_says_what_is_asked() {
    match AgentClient::start_message(64, "debug".to_string(), TimestampType::Boottime, vec![]) {
        ControlMessage::Start { buffer_size: 64, args } => {
            assert!(args.validate().is_ok());
            assert_eq!(args.tracing.unwrap().log_filter, "debug");
        }
        _ => panic!("no start"),
    }
    let empty = Args { tracing: None, options: vec![] };
    assert_eq!(empty.validate(), Err("at least one arg must be non-empty"));
}

#[test]
fn threads_are_named_once() {
    match thread_event(false, Some("worker"), 5, 4) {
        Some(Event::Track(track)) => {
            assert_eq!(track.name, "worker");
            assert!(matches!(track.track_type, TrackType::Thread { tid: 5, pid: 4 }));
            assert!(matches!(track.parent, Some(TrackType::Process { pid: 4 })));
        }
        _ => panic!("no track"),
    }
    assert!(thread_event(true, Some("worker"), 5, 4).is_none());
    assert!(thread_event(false, None, 5, 4).is_none());
    assert_eq!(thread_named(false, true), (false, false));
    assert_eq!(thread_named(false, false), (true, true));
    match process_event("app", 4) {
        Event::Track(track) => assert!(track.parent.is_none() && track.name == "app"),
        _ => panic!("no track"),
    }
    assert_eq!(
        ExtensionError::ValidationError("x".to_string()).to_text(),
        "validation error: x"
    );
}
