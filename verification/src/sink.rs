//! Where the trackers send their messages.

use crate::protocol::{views, Message, MessageView};
use vstd::prelude::*;

verus! {

/// Messages that were submitted, each with the number that was returned.
pub type History = Seq<(MessageView, i32)>;

/// Takes messages; a number other than zero says that it wants no more.
pub trait MessageSink: Sized {
    /// The messages that were submitted, each with the number that was returned.
    spec fn history(&self) -> History;

    fn submit(&mut self, message: Message) -> (code: i32)
        ensures
            final(self).history() == old(self).history().push((message@, code)),
    ;
}

/// A sink that keeps messages, up to `capacity` of them, and wants no more once
/// it is full.
pub struct MessageLog {
    messages: Vec<Message>,
    capacity: usize,
    past: Ghost<Seq<(MessageView, i32)>>,
}

impl MessageLog {
    /// The messages that are kept.
    pub closed spec fn kept(&self) -> Seq<MessageView> {
        views(self.messages@)
    }

    /// How many messages can be kept.
    pub closed spec fn limit(&self) -> usize {
        self.capacity
    }

    pub fn new(capacity: usize) -> (r: Self)
        ensures
            r.kept() == Seq::<MessageView>::empty(),
            r.limit() == capacity,
            r.history() == Seq::<(MessageView, i32)>::empty(),
    {
        let r = MessageLog { messages: Vec::new(), capacity, past: Ghost(Seq::empty()) };
        assert(r.kept() =~= Seq::<MessageView>::empty());
        r
    }

    pub fn messages(&self) -> (r: &Vec<Message>)
        ensures
            views(r@) == self.kept(),
    {
        &self.messages
    }

    /// Keeps a message if there is room.
    pub fn keep(&mut self, message: Message) -> (r: bool)
        ensures
            final(self).limit() == old(self).limit(),
            r == (old(self).kept().len() < old(self).limit()),
            final(self).kept() == (if r {
                old(self).kept().push(message@)
            } else {
                old(self).kept()
            }),
            final(self).history() == old(self).history().push(
                (
                    message@,
                    if r {
                        0
                    } else {
                        1
                    },
                ),
            ),
    {
        let ghost view = message@;
        let room: bool = self.messages.len() < self.capacity;
        if room {
            self.messages.push(message);
            assert(self.kept() =~= old(self).kept().push(view));
        }
        self.past = Ghost(
            self.past@.push(
                (
                    view,
                    if room {
                        0
                    } else {
                        1
                    },
                ),
            ),
        );
        room
    }
}

impl MessageSink for MessageLog {
    closed spec fn history(&self) -> Seq<(MessageView, i32)> {
        self.past@
    }

    fn submit(&mut self, message: Message) -> (code: i32) {
        if self.keep(message) {
            0
        } else {
            1
        }
    }
}

/// What submitting messages in turn adds to a history, up to the first that is
/// refused.
pub open spec fn delivered(
    before: Seq<(MessageView, i32)>,
    messages: Seq<MessageView>,
    after: Seq<(MessageView, i32)>,
    refused: bool,
) -> bool {
    let n = after.len() - before.len();
    &&& 0 <= n <= messages.len()
    &&& after.take(before.len() as int) == before
    &&& refused ==> n > 0 && after.last().1 != 0
    &&& !refused ==> n == messages.len()
    &&& forall|i: int|
        0 <= i < n ==> (#[trigger] after[before.len() + i]).0 == messages[i]
    &&& forall|i: int|
        0 <= i < n - (if refused {
            1int
        } else {
            0
        }) ==> (#[trigger] after[before.len() + i]).1 == 0
}

/// Submits messages in turn, up to the first that is refused. Returns whether one
/// was.
pub fn deliver<S: MessageSink>(messages: Vec<Message>, sink: &mut S) -> (refused: bool)
    ensures
        delivered(old(sink).history(), views(messages@), final(sink).history(), refused),
{
    let ghost all = views(messages@);
    let ghost before = sink.history();
    let mut rest: Vec<Message> = messages;
    let total: usize = rest.len();
    let mut done: usize = 0;
    proof {
        assert(before.take(before.len() as int) =~= before);
        assert(all.skip(0) =~= all);
    }
    while done < total
        invariant
            done <= total == all.len(),
            all == views(messages@),
            before == old(sink).history(),
            views(rest@) == all.skip(done as int),
            sink.history().len() == before.len() + done,
            sink.history().take(before.len() as int) == before,
            forall|i: int|
                0 <= i < done ==> (#[trigger] sink.history()[before.len() + i]).0 == all[i],
            forall|i: int| 0 <= i < done ==> (#[trigger] sink.history()[before.len() + i]).1 == 0,
        decreases total - done,
    {
        let ghost left = rest@;
        let ghost past = sink.history();
        assert(views(left).len() == total - done);
        let message: Message = rest.remove(0);
        proof {
            assert(message@ == views(left)[0]);
            assert(views(rest@) =~= views(left).drop_first());
            assert(all.skip(done as int).drop_first() =~= all.skip(done + 1));
        }
        let code: i32 = sink.submit(message);
        proof {
            let now = sink.history();
            assert(now.take(before.len() as int) =~= before);
            assert forall|i: int| 0 <= i < done implies (#[trigger] now[before.len() + i])
                == past[before.len() + i] by {}
        }
        if code != 0 {
            return true;
        }
        done += 1;
    }
    false
}

} // verus!
