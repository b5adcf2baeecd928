//! The agent's loop: what to do about an event, and in which order queued
//! actions are carried out.

use super::agent_state::{queued, Action, ActionView, AgentState};
use crate::protocol::{ControlMessage, ControlMessageView};
use std::collections::VecDeque;
use vstd::prelude::*;

verus! {

/// The token under which the listening socket is registered; clients have the
/// numbers from one on.
pub const LISTENER_TOKEN: u64 = 0;

/// What to do about an event.
#[derive(Debug, Clone, Copy, PartialEq, Eq, Structural)]
pub enum EventStep {
    /// Accept a connection.
    Accept,
    /// Give the client up.
    Disconnect { client_id: u64 },
    /// Receive a message of the client.
    Receive { client_id: u64 },
    /// Nothing: the client is gone.
    Ignore,
}

/// What is to be done about an event.
pub open spec fn step_for(token: u64, hung_up: bool, known: bool) -> EventStep {
    if token == LISTENER_TOKEN {
        EventStep::Accept
    } else if hung_up {
        EventStep::Disconnect { client_id: token }
    } else if known {
        EventStep::Receive { client_id: token }
    } else {
        EventStep::Ignore
    }
}

/// Decides about an event: `hung_up` says whether the other side is gone or the
/// connection broken, `known` whether there is a socket for the token.
pub fn event_step(token: u64, hung_up: bool, known: bool) -> (r: EventStep)
    ensures
        r == step_for(token, hung_up, known),
{
    if token == LISTENER_TOKEN {
        EventStep::Accept
    } else if hung_up {
        EventStep::Disconnect { client_id: token }
    } else if known {
        EventStep::Receive { client_id: token }
    } else {
        EventStep::Ignore
    }
}

/// How receiving from a client went.
#[derive(Debug, Clone, Copy, PartialEq, Eq, Structural)]
pub enum Received {
    /// So many bytes came.
    Bytes(usize),
    /// Nothing was there.
    WouldBlock,
    /// The connection failed.
    Failed,
}

/// What to do about what was received.
#[derive(Debug, Clone, Copy, PartialEq, Eq, Structural)]
pub enum ReceiveStep {
    /// Take the bytes as a message.
    Decode,
    /// Wait for the next event.
    Wait,
    /// Give the client up.
    Disconnect,
}

/// Decides about what was received: an empty message is passed over.
pub fn receive_step(received: Received) -> (r: ReceiveStep)
    ensures
        r == (match received {
            Received::Bytes(n) => if n == 0 {
                ReceiveStep::Wait
            } else {
                ReceiveStep::Decode
            },
            Received::WouldBlock => ReceiveStep::Wait,
            Received::Failed => ReceiveStep::Disconnect,
        }),
{
    match received {
        Received::Bytes(n) => if n == 0 {
            ReceiveStep::Wait
        } else {
            ReceiveStep::Decode
        },
        Received::WouldBlock => ReceiveStep::Wait,
        Received::Failed => ReceiveStep::Disconnect,
    }
}

/// The messages among the actions, in their order.
pub open spec fn messages_of(actions: Seq<ActionView>) -> Seq<(u64, ControlMessageView)>
    decreases actions.len(),
{
    if actions.len() == 0 {
        seq![]
    } else {
        match actions.last() {
            ActionView::SendMessage { client_id, message } => messages_of(actions.drop_last()).push(
                (client_id, message),
            ),
            ActionView::DeleteEpoll { .. } => messages_of(actions.drop_last()),
        }
    }
}

/// The clients to be forgotten among the actions, in their order.
pub open spec fn deletions_of(actions: Seq<ActionView>) -> Seq<u64>
    decreases actions.len(),
{
    if actions.len() == 0 {
        seq![]
    } else {
        match actions.last() {
            ActionView::SendMessage { .. } => deletions_of(actions.drop_last()),
            ActionView::DeleteEpoll { client_id } => deletions_of(actions.drop_last()).push(
                client_id,
            ),
        }
    }
}

/// Messages to send, with their clients.
pub open spec fn outgoing(messages: Seq<(u64, ControlMessage)>) -> Seq<(u64, ControlMessageView)> {
    messages.map_values(|m: (u64, ControlMessage)| (m.0, m.1@))
}

/// Empties the queue: returns the messages to send, and the clients to forget
/// once they are sent.
pub fn process_actions(actions: &mut VecDeque<Action>) -> (r: (Vec<(u64, ControlMessage)>, Vec<u64>))
    ensures
        outgoing(r.0@) == messages_of(queued(*old(actions))),
        r.1@ == deletions_of(queued(*old(actions))),
        final(actions)@.len() == 0,
{
    let ghost all = queued(*actions);
    let mut messages: Vec<(u64, ControlMessage)> = Vec::new();
    let mut ids: Vec<u64> = Vec::new();
    let ghost mut taken: int = 0;
    proof {
        assert(all.take(0) =~= seq![]);
        assert(outgoing(messages@) =~= seq![]);
        assert(all.skip(0) =~= all);
    }
    while actions.len() > 0
        invariant
            0 <= taken <= all.len(),
            queued(*actions) == all.skip(taken),
            outgoing(messages@) == messages_of(all.take(taken)),
            ids@ == deletions_of(all.take(taken)),
        decreases actions@.len(),
    {
        let ghost queue = queued(*actions);
        let ghost first = actions@[0]@;
        let ghost sent = messages@;
        let action: Option<Action> = actions.pop_front();
        proof {
            assert(queue[0] == first);
            assert(queued(*actions) =~= queue.drop_first());
            assert(queue.drop_first() =~= all.skip(taken + 1));
            assert(all.take(taken + 1).drop_last() =~= all.take(taken));
            assert(all.take(taken + 1).last() == first);
        }
        match action {
            Some(Action::SendMessage { client_id, message }) => {
                messages.push((client_id, message));
                assert(outgoing(messages@) =~= outgoing(sent).push((client_id, message@)));
            },
            Some(Action::DeleteEpoll { client_id }) => {
                ids.push(client_id);
            },
            None => {},
        }
        proof {
            taken = taken + 1;
        }
    }
    proof {
        assert(all.skip(taken).len() == 0);
        assert(all.take(taken) =~= all);
    }
    (messages, ids)
}

/// The clients without those of `ids`.
pub open spec fn without<V>(clients: Map<u64, V>, ids: Seq<u64>) -> Map<u64, V> {
    clients.remove_keys(ids.to_set())
}

/// Forgets clients.
pub fn remove_clients(state: &mut AgentState, ids: &Vec<u64>)
    ensures
        final(state)@ == (super::agent_state::AgentStateView {
            clients: without(old(state)@.clients, ids@),
            ..old(state)@
        }),
{
    let ghost before = state@;
    let mut i: usize = 0;
    assert(without(before.clients, ids@.take(0)) =~= before.clients);
    while i < ids.len()
        invariant
            i <= ids@.len(),
            state@ == (super::agent_state::AgentStateView {
                clients: without(before.clients, ids@.take(i as int)),
                ..before
            }),
        decreases ids@.len() - i,
    {
        state.remove_client(ids[i]);
        proof {
            let upto = ids@.take(i as int);
            let next = ids@.take(i + 1);
            assert(next =~= upto.push(ids@[i as int]));
            assert forall|k: u64| next.contains(k) <==> upto.contains(k) || k == ids@[i as int] by {
                if upto.contains(k) {
                    let j = choose|j: int| 0 <= j < upto.len() && upto[j] == k;
                    assert(next[j] == k);
                }
                if k == ids@[i as int] {
                    assert(next[i as int] == k);
                }
            }
            assert(without(before.clients, upto).remove(ids@[i as int]) =~= without(
                before.clients,
                next,
            ));
        }
        i += 1;
    }
    assert(ids@.take(i as int) =~= ids@);
}

} // verus!
