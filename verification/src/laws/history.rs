//! What a history of messages shows.

use crate::protocol::{CounterView, EventView, MessageView, SpanView, TrackView};
use crate::sink::delivered;
use vstd::prelude::*;

verus! {

/// The event of a message.
pub open spec fn event_of(message: MessageView) -> EventView {
    match message {
        MessageView::Event(event) => event,
        MessageView::Stream { event, .. } => event,
    }
}

/// The counter values among messages, in their order.
pub open spec fn values_in(history: Seq<(MessageView, i32)>) -> Seq<CounterView>
    decreases history.len(),
{
    if history.len() == 0 {
        seq![]
    } else {
        match event_of(history.last().0) {
            EventView::Counter(c) => values_in(history.drop_last()).push(c),
            _ => values_in(history.drop_last()),
        }
    }
}

/// The tracks that messages announce, in their order.
pub open spec fn tracks_in(history: Seq<(MessageView, i32)>) -> Seq<TrackView>
    decreases history.len(),
{
    if history.len() == 0 {
        seq![]
    } else {
        match event_of(history.last().0) {
            EventView::Track(t) => tracks_in(history.drop_last()).push(t),
            _ => tracks_in(history.drop_last()),
        }
    }
}

/// The spans among messages, in their order.
pub open spec fn spans_in(history: Seq<(MessageView, i32)>) -> Seq<SpanView>
    decreases history.len(),
{
    if history.len() == 0 {
        seq![]
    } else {
        match event_of(history.last().0) {
            EventView::Span(s) => spans_in(history.drop_last()).push(s),
            _ => spans_in(history.drop_last()),
        }
    }
}

/// What one more message adds.
pub proof fn lemma_one_more(history: Seq<(MessageView, i32)>, message: MessageView, code: i32)
    ensures
        values_in(history.push((message, code))) == (match event_of(message) {
            EventView::Counter(c) => values_in(history).push(c),
            _ => values_in(history),
        }),
        tracks_in(history.push((message, code))) == (match event_of(message) {
            EventView::Track(t) => tracks_in(history).push(t),
            _ => tracks_in(history),
        }),
        spans_in(history.push((message, code))) == (match event_of(message) {
            EventView::Span(s) => spans_in(history).push(s),
            _ => spans_in(history),
        }),
{
    let more = history.push((message, code));
    assert(more.drop_last() =~= history);
    assert(more.last() == (message, code));
}

/// Whether a history goes on from another.
pub open spec fn goes_on(
    before: Seq<(MessageView, i32)>,
    after: Seq<(MessageView, i32)>,
) -> bool {
    after.len() >= before.len() && after.take(before.len() as int) == before
}

/// Whether all that was submitted since was taken.
pub open spec fn all_taken(
    before: Seq<(MessageView, i32)>,
    after: Seq<(MessageView, i32)>,
) -> bool {
    forall|i: int| before.len() <= i < after.len() ==> (#[trigger] after[i]).1 == 0
}

/// Histories that go on from each other.
pub proof fn lemma_goes_on(
    a: Seq<(MessageView, i32)>,
    b: Seq<(MessageView, i32)>,
    c: Seq<(MessageView, i32)>,
)
    requires
        goes_on(a, b),
        goes_on(b, c),
    ensures
        goes_on(a, c),
        all_taken(a, c) <==> all_taken(a, b) && all_taken(b, c),
{
    assert(c.take(a.len() as int) =~= b.take(a.len() as int));
    assert forall|i: int| 0 <= i < b.len() implies #[trigger] b[i] == c[i] by {
        assert(c.take(b.len() as int)[i] == c[i]);
    }
    if all_taken(a, b) && all_taken(b, c) {
        assert forall|i: int| a.len() <= i < c.len() implies (#[trigger] c[i]).1 == 0 by {
            if i < b.len() {
                assert(b[i] == c[i]);
            }
        }
    }
    if all_taken(a, c) {
        assert forall|i: int| a.len() <= i < b.len() implies (#[trigger] b[i]).1 == 0 by {
            assert(c[i].1 == 0);
        }
    }
}

/// Messages that are submitted in turn are submitted in their order; all of them if none
/// is refused, and else those up to the first that is.
pub proof fn law_messages_are_delivered_in_order(
    before: Seq<(MessageView, i32)>,
    messages: Seq<MessageView>,
    after: Seq<(MessageView, i32)>,
    refused: bool,
)
    requires
        delivered(before, messages, after, refused),
    ensures
        goes_on(before, after),
        all_taken(before, after) <==> !refused,
        !refused ==> after.len() == before.len() + messages.len(),
        after.len() <= before.len() + messages.len(),
        forall|i: int|
            0 <= i < after.len() - before.len() ==> (#[trigger] after[before.len() + i]).0
                == messages[i],
        refused ==> all_taken(before, after.drop_last()),
{
    if refused {
        assert(after[after.len() - 1].1 != 0);
        let front = after.drop_last();
        assert forall|i: int| before.len() <= i < front.len() implies (#[trigger] front[i]).1
            == 0 by {
            assert(after[before.len() + (i - before.len())].1 == 0);
        }
    } else {
        assert forall|i: int| before.len() <= i < after.len() implies (#[trigger] after[i]).1
            == 0 by {
            assert(after[before.len() + (i - before.len())].1 == 0);
        }
    }
}

} // verus!
