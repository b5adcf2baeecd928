//! What clients of an agent can rely on.

use crate::agent::agent_state::{
    deletions, message_effect, start_effect, timed_out, ActionView, AgentClientState,
    AgentStateView, Outcome, StartAttempt, StartEvent, StartStage, State,
};
use crate::agent::client::{continue_answered, start_answered, start_request, AgentError};
use crate::agent::epoll_thread::{deletions_of, messages_of, step_for, without, EventStep};
use crate::agent::process_id::{magnitude, requested_change};
use crate::protocol::{
    label_get, ArgsView, ControlMessage, ControlMessageView, TimestampType, ValueView,
};
use vstd::prelude::*;

verus! {

/// Whether one message is sent, and nothing else is to be done.
pub open spec fn only_answers(
    actions: Seq<ActionView>,
    client_id: u64,
    message: ControlMessageView,
) -> bool {
    actions.len() == 1 && actions[0] == (ActionView::SendMessage { client_id, message })
}

/// A question for the version is answered with it, to the one who asked, whoever that
/// is; nothing changes.
pub proof fn law_version_is_answered(
    before: AgentStateView,
    client_id: u64,
    raw_fds: Seq<i32>,
    now_ns: u64,
)
    ensures
        ({
            let (after, actions, outcome) = message_effect(
                before,
                client_id,
                ControlMessageView::Version,
                raw_fds,
                now_ns,
            );
            &&& only_answers(
                actions,
                client_id,
                ControlMessageView::VersionResponse { version: "0.1"@ },
            )
            &&& after == before
            &&& outcome is Done
        }),
{
}

/// A request to start is refused, with the reason and without any change, while another
/// client runs, if nothing is asked for, and if its descriptors are missing or invalid;
/// else it is carried on with exactly what was handed over.
pub proof fn law_request_to_start(
    before: AgentStateView,
    client_id: u64,
    buffer_size: u64,
    args: ArgsView,
    raw_fds: Seq<i32>,
    now_ns: u64,
)
    requires
        before.wf(),
        before.clients.contains_key(client_id),
        before.clients[client_id].state == State::Pending,
    ensures
        ({
            let (after, actions, outcome) = message_effect(
                before,
                client_id,
                ControlMessageView::Start { buffer_size, args },
                raw_fds,
                now_ns,
            );
            &&& after == before
            &&& if before.started_client is Some {
                outcome is Done && only_answers(
                    actions,
                    client_id,
                    ControlMessageView::Nack { error: "another client already started"@ },
                )
            } else if args.tracing is None {
                outcome is Done && only_answers(
                    actions,
                    client_id,
                    ControlMessageView::Nack { error: "at least one arg must be non-empty"@ },
                )
            } else if raw_fds.len() < 2 {
                outcome is Done && only_answers(
                    actions,
                    client_id,
                    ControlMessageView::Nack { error: "missing file descriptors"@ },
                )
            } else if raw_fds[0] < 0 {
                outcome is Done && only_answers(
                    actions,
                    client_id,
                    ControlMessageView::Nack { error: "invalid file descriptors"@ },
                )
            } else {
                &&& actions.len() == 0
                &&& outcome matches Outcome::Start(attempt) && {
                    &&& attempt.client_id == client_id
                    &&& attempt.buffer_size == buffer_size
                    &&& attempt.memory_fd == raw_fds[0]
                    &&& attempt.notification_fd == raw_fds[1]
                    &&& attempt.stage == StartStage::MemoryFd
                    &&& attempt.process_id == requested_change(args)
                }
            }
        }),
{
}

/// A start whose descriptors are open, whose buffer can be opened and whose extension
/// starts is acknowledged; its client is then the running one, heard of at that time,
/// and the extension, if there is one, runs. No other client changes.
pub proof fn law_start_succeeds(
    before: AgentStateView,
    attempt: StartAttempt,
    first_ns: u64,
    second_ns: u64,
    third_ns: u64,
    now_ns: u64,
)
    requires
        attempt.stage == StartStage::MemoryFd,
        attempt.notification_fd >= 0,
    ensures
        ({
            let (a, first, one) = start_effect(
                before,
                attempt,
                StartEvent::FdIsOpen(true),
                first_ns,
            );
            &&& a == before && first.len() == 0
            &&& one matches Outcome::Start(second) && {
                let (b, actions, two) = start_effect(
                    a,
                    second,
                    StartEvent::FdIsOpen(true),
                    second_ns,
                );
                &&& b == before && actions.len() == 0
                &&& two matches Outcome::Start(third) && {
                    let (c, actions, three) = start_effect(
                        b,
                        third,
                        StartEvent::ProducerOpened(true),
                        third_ns,
                    );
                    &&& c == before && actions.len() == 0
                    &&& three matches Outcome::Start(last) && {
                        let (after, actions, outcome) = start_effect(
                            c,
                            last,
                            StartEvent::Launched,
                            now_ns,
                        );
                        &&& only_answers(actions, attempt.client_id, ControlMessageView::Ack)
                        &&& outcome is Done
                        &&& after.started_client == Some(attempt.client_id)
                        &&& after.another_started
                        &&& after.clients == before.clients.insert(
                            attempt.client_id,
                            AgentClientState { state: State::Started, timestamp_ns: now_ns },
                        )
                        &&& after.extension_active <==> before.extension_active
                            || before.has_extension
                        &&& after.timeout_ns == before.timeout_ns
                        &&& after.next_client_id == before.next_client_id
                        &&& after.has_extension == before.has_extension
                    }
                }
            }
        }),
{
}

/// A start that fails on the way changes nothing for a client that is not the running
/// one: a closed descriptor and a refusal of the extension are answered with the reason,
/// and a client whose buffer cannot be opened is given up.
pub proof fn law_start_fails(
    before: AgentStateView,
    attempt: StartAttempt,
    reason: String,
    now_ns: u64,
)
    requires
        before.started_client != Some(attempt.client_id),
    ensures
        ({
            let memory = attempt.at(StartStage::MemoryFd);
            let notification = attempt.at(StartStage::NotificationFd);
            let producer = attempt.at(StartStage::Producer);
            let launch = attempt.at(StartStage::Launch);
            let invalid = ControlMessageView::Nack { error: "invalid file descriptors"@ };
            let (a, first, one) = start_effect(
                before,
                memory,
                StartEvent::FdIsOpen(false),
                now_ns,
            );
            let (b, second, two) = start_effect(
                before,
                notification,
                StartEvent::FdIsOpen(false),
                now_ns,
            );
            let (c, third, three) = start_effect(
                before,
                producer,
                StartEvent::ProducerOpened(false),
                now_ns,
            );
            let (d, last, four) = start_effect(
                before,
                launch,
                StartEvent::Rejected(reason),
                now_ns,
            );
            &&& a == before && b == before && c == before && d == before
            &&& one is Done && two is Done && three is Done && four is Done
            &&& only_answers(first, attempt.client_id, invalid)
            &&& only_answers(second, attempt.client_id, invalid)
            &&& third.len() == 1 && third[0] == (ActionView::DeleteEpoll {
                client_id: attempt.client_id,
            })
            &&& only_answers(
                last,
                attempt.client_id,
                ControlMessageView::Nack { error: reason@ },
            )
            &&& attempt.notification_fd < 0 ==> only_answers(
                start_effect(before, memory, StartEvent::FdIsOpen(true), now_ns).1,
                attempt.client_id,
                invalid,
            )
        }),
{
}

/// A client that says that it goes on is acknowledged, and counts as heard of at that
/// time: it is not given up as long as no more than the timeout has passed since, and it
/// is given up after that. Nobody else is affected.
pub proof fn law_going_on_keeps_a_client(
    before: AgentStateView,
    client_id: u64,
    raw_fds: Seq<i32>,
    now_ns: u64,
    later_ns: u64,
)
    requires
        before.wf(),
        before.clients.contains_key(client_id),
        before.clients[client_id].state == State::Started,
    ensures
        ({
            let (after, actions, outcome) = message_effect(
                before,
                client_id,
                ControlMessageView::Continue,
                raw_fds,
                now_ns,
            );
            let given_up = after.overdue(client_id, later_ns) || (after.started_client == Some(
                client_id,
            ) && after.started_overdue(later_ns));
            &&& only_answers(actions, client_id, ControlMessageView::Ack)
            &&& outcome is Done
            &&& given_up <==> later_ns > now_ns + before.timeout_ns
            &&& after.started_client == before.started_client
            &&& after.extension_active == before.extension_active
            &&& forall|id: u64|
                id != client_id ==> (#[trigger] after.clients.contains_key(id)
                    == before.clients.contains_key(id)) && (before.clients.contains_key(id)
                    ==> after.clients[id] == before.clients[id])
        }),
{
}

/// A client that was taken in waits for its start, and is given up when the timeout has
/// passed without one; the running client stays the running one.
pub proof fn law_new_client_waits(
    before: AgentStateView,
    client_id: u64,
    now_ns: u64,
    later_ns: u64,
)
    requires
        before.started_client != Some(client_id),
    ensures
        ({
            let after = before.registered(client_id, now_ns);
            &&& after.clients.contains_key(client_id)
            &&& after.clients[client_id].state == State::Pending
            &&& after.overdue(client_id, later_ns) <==> later_ns > now_ns + before.timeout_ns
            &&& after.started_client == before.started_client
            &&& after.another_started == before.another_started
            &&& forall|id: u64|
                id != client_id ==> (#[trigger] after.clients.contains_key(id)
                    == before.clients.contains_key(id)) && (before.clients.contains_key(id)
                    ==> after.clients[id] == before.clients[id])
        }),
{
}

/// No id is given to two clients.
pub proof fn law_ids_are_given_once(before: AgentStateView)
    requires
        before.next_client_id < u64::MAX,
    ensures
        before.numbered().next_client_id > before.next_client_id,
        before.numbered().clients == before.clients,
        before.numbered().started_client == before.started_client,
{
}

/// A client that is forgotten is gone, and the others stay.
pub proof fn law_forgotten_client_is_gone(before: AgentStateView, client_id: u64, other: u64)
    requires
        other != client_id,
    ensures
        !before.forgotten(client_id).clients.contains_key(client_id),
        before.forgotten(client_id).clients.contains_key(other) == before.clients.contains_key(
            other,
        ),
        before.clients.contains_key(other) ==> before.forgotten(client_id).clients[other]
            == before.clients[other],
        before.forgotten(client_id).started_client == before.started_client,
{
}

/// The running client that stops is acknowledged and then given up; its slot is free,
/// and the extension, if it runs, is stopped. Any other started client leaves the running
/// one alone.
pub proof fn law_stop(
    before: AgentStateView,
    client_id: u64,
    raw_fds: Seq<i32>,
    now_ns: u64,
)
    requires
        before.wf(),
        before.clients.contains_key(client_id),
        before.clients[client_id].state == State::Started,
    ensures
        ({
            let (after, actions, outcome) = message_effect(
                before,
                client_id,
                ControlMessageView::Stop,
                raw_fds,
                now_ns,
            );
            &&& actions.len() == 2
            &&& actions[0] == (ActionView::SendMessage {
                client_id,
                message: ControlMessageView::Ack,
            })
            &&& actions[1] == (ActionView::DeleteEpoll { client_id })
            &&& if before.started_client == Some(client_id) {
                &&& after.started_client is None
                &&& !after.another_started
                &&& outcome is StopExtension <==> before.has_extension && before.extension_active
                &&& before.has_extension ==> !after.extension_active
            } else {
                &&& after == before
                &&& outcome is Done
            }
            &&& after.clients == before.clients
        }),
{
}

/// Losing the running client frees its slot, as stopping does; losing another changes
/// nothing.
pub proof fn law_lost_connection(before: AgentStateView, client_id: u64)
    requires
        before.wf(),
    ensures
        before.started_client == Some(client_id) ==> {
            &&& before.disconnected(client_id).started_client is None
            &&& !before.disconnected(client_id).another_started
            &&& before.has_extension ==> !before.disconnected(client_id).extension_active
        },
        before.started_client != Some(client_id) ==> before.disconnected(client_id) == before,
        before.disconnected(client_id).clients == before.clients,
{
}

/// Nobody but the running client itself ends its run, and nobody else becomes the running
/// one meanwhile.
pub proof fn law_run_is_not_disturbed(
    before: AgentStateView,
    running: u64,
    client_id: u64,
    message: ControlMessageView,
    raw_fds: Seq<i32>,
    now_ns: u64,
)
    requires
        before.wf(),
        before.started_client == Some(running),
        client_id != running,
    ensures
        ({
            let (after, actions, outcome) = message_effect(
                before,
                client_id,
                message,
                raw_fds,
                now_ns,
            );
            &&& after.started_client == Some(running)
            &&& after.clients.contains_key(running)
            &&& after.clients[running] == before.clients[running]
            &&& outcome is Done
            &&& forall|i: int|
                0 <= i < actions.len() ==> (match #[trigger] actions[i] {
                    ActionView::SendMessage { client_id: to, .. } => to == client_id,
                    ActionView::DeleteEpoll { client_id: to } => to == client_id,
                })
        }),
{
}

/// A message of a client that the agent does not know, other than a question for the
/// version, does nothing.
pub proof fn law_unknown_clients_do_nothing(
    before: AgentStateView,
    client_id: u64,
    message: ControlMessageView,
    raw_fds: Seq<i32>,
    now_ns: u64,
)
    requires
        !before.clients.contains_key(client_id),
        !(message is Version),
    ensures
        ({
            let (after, actions, outcome) = message_effect(
                before,
                client_id,
                message,
                raw_fds,
                now_ns,
            );
            after == before && actions.len() == 0 && outcome is Done
        }),
{
}

/// The clients that are given up for their silence are exactly those, other than the
/// running one, that were last heard of more than the timeout ago; each is forgotten once.
pub proof fn law_silent_clients_are_given_up(
    state: AgentStateView,
    now_ns: u64,
    ids: Seq<u64>,
    id: u64,
)
    requires
        timed_out(state, now_ns, ids),
    ensures
        ids.no_duplicates(),
        ids.contains(id) <==> state.clients.contains_key(id) && state.started_client != Some(id)
            && state.clients[id].timestamp_ns + state.timeout_ns < now_ns,
        state.started_client is Some && state.clients.contains_key(state.started_client->0) ==> (
        state.started_overdue(now_ns) <==> state.clients[state.started_client->0].timestamp_ns
            + state.timeout_ns < now_ns),
        deletions(ids).len() == ids.len(),
        forall|i: int|
            0 <= i < ids.len() ==> #[trigger] deletions(ids)[i] == (ActionView::DeleteEpoll {
                client_id: ids[i],
            }),
{
}

/// Each queued action is carried out once: a message goes to its client, and a client
/// that is to be forgotten is.
pub proof fn law_queue_is_emptied(actions: Seq<ActionView>)
    ensures
        messages_of(actions).len() + deletions_of(actions).len() == actions.len(),
        forall|client_id: u64, message: ControlMessageView|
            messages_of(actions).contains((client_id, message)) <==> #[trigger] actions.contains(
                ActionView::SendMessage { client_id, message },
            ),
        forall|client_id: u64|
            deletions_of(actions).contains(client_id) <==> #[trigger] actions.contains(
                ActionView::DeleteEpoll { client_id },
            ),
    decreases actions.len(),
{
    if actions.len() > 0 {
        let rest = actions.drop_last();
        let last = actions.last();
        law_queue_is_emptied(rest);
        assert(actions =~= rest.push(last));
        assert forall|a: ActionView| #[trigger] actions.contains(a) <==> rest.contains(a) || a
            == last by {
            lemma_push_contains(rest, last, a);
        }
        match last {
            ActionView::SendMessage { client_id, message } => {
                let sent = messages_of(rest);
                assert forall|c: u64, m: ControlMessageView|
                    messages_of(actions).contains((c, m)) <==> #[trigger] actions.contains(
                        ActionView::SendMessage { client_id: c, message: m },
                    ) by {
                    lemma_push_contains(sent, (client_id, message), (c, m));
                    assert(rest.contains(ActionView::SendMessage { client_id: c, message: m })
                        <==> sent.contains((c, m)));
                }
                assert forall|c: u64|
                    deletions_of(actions).contains(c) <==> #[trigger] actions.contains(
                        ActionView::DeleteEpoll { client_id: c },
                    ) by {
                    assert(rest.contains(ActionView::DeleteEpoll { client_id: c })
                        <==> deletions_of(rest).contains(c));
                }
            },
            ActionView::DeleteEpoll { client_id } => {
                let gone = deletions_of(rest);
                assert forall|c: u64|
                    deletions_of(actions).contains(c) <==> #[trigger] actions.contains(
                        ActionView::DeleteEpoll { client_id: c },
                    ) by {
                    lemma_push_contains(gone, client_id, c);
                    assert(rest.contains(ActionView::DeleteEpoll { client_id: c })
                        <==> gone.contains(c));
                }
                assert forall|c: u64, m: ControlMessageView|
                    messages_of(actions).contains((c, m)) <==> #[trigger] actions.contains(
                        ActionView::SendMessage { client_id: c, message: m },
                    ) by {
                    assert(rest.contains(ActionView::SendMessage { client_id: c, message: m })
                        <==> messages_of(rest).contains((c, m)));
                }
            },
        }
    }
}

proof fn lemma_push_contains<A>(s: Seq<A>, a: A, x: A)
    ensures
        s.push(a).contains(x) <==> s.contains(x) || x == a,
{
    if s.contains(x) {
        let i = choose|i: int| 0 <= i < s.len() && s[i] == x;
        assert(s.push(a)[i] == x);
    }
    if x == a {
        assert(s.push(a)[s.len() as int] == x);
    }
    if s.push(a).contains(x) {
        let i = choose|i: int| 0 <= i < s.push(a).len() && s.push(a)[i] == x;
        if i < s.len() {
            assert(s[i] == x);
        }
    }
}

/// Clients that are forgotten are gone, and the others stay.
pub proof fn law_only_forgotten_clients_go<V>(clients: Map<u64, V>, ids: Seq<u64>, id: u64)
    ensures
        without(clients, ids).contains_key(id) <==> clients.contains_key(id) && !ids.contains(id),
        without(clients, ids).contains_key(id) ==> without(clients, ids)[id] == clients[id],
{
}

/// The listening socket accepts; a client that hung up is given up, even if something
/// can still be read; a client with a socket is read, and anything else is passed over.
pub proof fn law_events(token: u64, hung_up: bool, known: bool)
    ensures
        token == 0 ==> step_for(token, hung_up, known) is Accept,
        token != 0 && hung_up ==> step_for(token, hung_up, known) == (EventStep::Disconnect {
            client_id: token,
        }),
        token != 0 && !hung_up && known ==> step_for(token, hung_up, known) == (
        EventStep::Receive { client_id: token }),
        token != 0 && !hung_up && !known ==> step_for(token, hung_up, known) is Ignore,
{
}

/// A client gets a random process id by asking for one, and the real one by asking not
/// to, or not at all; an option that is no truth value changes nothing.
pub proof fn law_process_id_is_asked_for(args: ArgsView)
    ensures
        ({
            let option = label_get(args.options, "random_process_id"@);
            let change = requested_change(args);
            &&& option == Some(ValueView::Bool(true)) <==> change is Random
            &&& option is None || option == Some(ValueView::Bool(false)) <==> change is Reset
            &&& option is Some && !(option->0 is Bool) <==> change is Keep
        }),
{
}

/// A random number is made a process id by dropping its sign.
pub proof fn law_magnitude(n: i32)
    requires
        n > i32::MIN,
    ensures
        magnitude(n) >= 0,
        magnitude(n) == n || magnitude(n) == -n,
{
}

/// A start that the agent acknowledges succeeds at the client, and one that it refuses
/// fails there with the agent's reason; so does a sign of life. Any other answer is an
/// error, and an error on the way is handed on.
pub proof fn law_answers_reach_the_client(
    answer: ControlMessage,
    failure: AgentError,
    started: Result<(), AgentError>,
    continued: Result<(), AgentError>,
    failed: Result<(), AgentError>,
)
    requires
        start_answered(Ok::<ControlMessage, AgentError>(answer), started),
        continue_answered(Ok::<ControlMessage, AgentError>(answer), continued),
        start_answered(Err::<ControlMessage, AgentError>(failure), failed),
    ensures
        answer@ == ControlMessageView::Ack <==> started is Ok,
        answer@ == ControlMessageView::Ack <==> continued is Ok,
        answer@ matches ControlMessageView::Nack { error } ==> {
            &&& started is Err && started->Err_0.text() == "IO error: "@ + (
            "agent rejected start: "@ + error)
            &&& continued is Err && continued->Err_0.text() == "IO error: "@ + error
        },
        failed == Err::<(), AgentError>(failure),
{
}

/// The request that a client sends is carried on by an agent with a free slot, with the
/// size that the client asked for.
pub proof fn law_request_of_a_client_is_carried_on(
    before: AgentStateView,
    client_id: u64,
    data_size: usize,
    log_filter: Seq<char>,
    timestamp_type: TimestampType,
    options: Seq<(Seq<char>, ValueView)>,
    raw_fds: Seq<i32>,
    now_ns: u64,
)
    requires
        before.wf(),
        before.clients.contains_key(client_id),
        before.clients[client_id].state == State::Pending,
        before.started_client is None,
        raw_fds.len() >= 2,
        raw_fds[0] >= 0,
    ensures
        ({
            let (after, actions, outcome) = message_effect(
                before,
                client_id,
                start_request(data_size, log_filter, timestamp_type, options),
                raw_fds,
                now_ns,
            );
            &&& actions.len() == 0
            &&& outcome matches Outcome::Start(attempt) && {
                &&& attempt.client_id == client_id
                &&& attempt.buffer_size == data_size
                &&& attempt.memory_fd == raw_fds[0]
                &&& attempt.notification_fd == raw_fds[1]
                &&& label_get(options, "random_process_id"@) == Some(ValueView::Bool(true))
                    <==> attempt.process_id is Random
            }
        }),
{
}

} // verus!
