//! What a traced process reports of itself.

use crate::agent::extension::{process_track, thread_track};
use crate::agent::process_id::{requested_change, RANDOM_PROCESS_ID_OPTION};
use crate::config::options_for;
use crate::laws::texts::law_trimming;
use crate::protocol::{
    label_get, law_label_reads_back, ArgsView, EventView, LabelsView, Reading, TimestampType,
    TrackTypeView,
};
use crate::text::{is_space, trim_end, trim_start};
use crate::tracing::{
    byte_len, can_cut, char_width, clock_of, filter_text, is_delimiter, is_directive,
    readable_filter, well_cut, with_number,
};
use vstd::prelude::*;
use vstd::utf8::{char_is_scalar, encode_scalar, encode_utf8};

verus! {

/// Times are read from the clock that was asked for, by its number.
pub proof fn law_clocks()
    ensures
        clock_of(TimestampType::Realtime) == 0,
        clock_of(TimestampType::Monotonic) == 1,
        clock_of(TimestampType::Boottime) == 7,
{
}

/// A filter that cannot be read is named, with what is wrong with it.
pub proof fn law_bad_filters_are_named(log_filter: Seq<char>, problem: Seq<char>)
    ensures
        filter_text(log_filter, problem) == "invalid log filter '"@ + log_filter + "': "@
            + problem,
{
}

/// The track of a thread carries its name and stands below that of its process.
pub proof fn law_threads_stand_below_their_process(name: Seq<char>, tid: i32, pid: i32)
    ensures
        thread_track(name, tid, pid) matches EventView::Track(track) && {
            &&& track.name == name
            &&& track.track_type == (TrackTypeView::Thread { tid, pid })
            &&& track.parent == Some(TrackTypeView::Process { pid })
        },
        process_track(name, pid) matches EventView::Track(track) && {
            &&& track.name == name
            &&& track.track_type == (TrackTypeView::Process { pid })
            &&& track.parent is None
        },
        (match thread_track(name, tid, pid) {
            EventView::Track(track) => track.parent,
            _ => None,
        }) == (match process_track(name, pid) {
            EventView::Track(track) => Some(track.track_type),
            _ => None,
        }),
{
}

/// What a process is configured with is what its agent does: it takes a random id, or
/// goes back to the real one.
pub proof fn law_configured_process_id_is_taken(args: ArgsView, random: Option<bool>)
    requires
        args.options == options_for(random),
    ensures
        random == Some(true) <==> requested_change(args) is Random,
        random != Some(true) <==> requested_change(args) is Reset,
{
    if random is Some {
        crate::protocol::lemma_label_position_is(
            args.options,
            RANDOM_PROCESS_ID_OPTION@,
            0,
        );
    } else {
        crate::protocol::lemma_label_position(
            args.options,
            RANDOM_PROCESS_ID_OPTION@,
        );
    }
}

/// An unsigned number that a signed integer holds is recorded as one, and a larger one as
/// floating point; both keep their value, and nothing else changes.
pub proof fn law_numbers_are_recorded(
    labels: LabelsView,
    field: Seq<char>,
    value: u64,
    other: Seq<char>,
)
    ensures
        ({
            let after = with_number(labels, field, value);
            &&& value <= 0x7fff_ffff_ffff_ffff ==> {
                &&& label_get(after.ints, field) matches Some(n) && n == value
                &&& after.floats == labels.floats
            }
            &&& value > 0x7fff_ffff_ffff_ffff ==> {
                &&& label_get(after.floats, field) == Some(Reading::Count { n: value })
                &&& after.ints == labels.ints
            }
            &&& other != field ==> {
                &&& label_get(after.ints, other) == label_get(labels.ints, other)
                &&& label_get(after.floats, other) == label_get(labels.floats, other)
            }
            &&& after.strings == labels.strings
            &&& after.bools == labels.bools
        }),
{
    law_label_reads_back(labels.ints, field, value as i64, other);
    law_label_reads_back(labels.floats, field, Reading::Count { n: value }, other);
}

/// A text is as long in bytes as its encoding.
pub proof fn law_length_in_bytes(text: Seq<char>)
    ensures
        byte_len(text) == encode_utf8(text).len(),
    decreases text.len(),
{
    if text.len() > 0 {
        let rest = text.drop_first();
        law_length_in_bytes(rest);
        lemma_first_character(text);
        char_is_scalar(text[0]);
        assert(encode_scalar(text[0] as u32).len() == char_width(text[0]));
    }
}

proof fn lemma_first_character(text: Seq<char>)
    requires
        text.len() > 0,
    ensures
        byte_len(text) == char_width(text[0]) + byte_len(text.drop_first()),
    decreases text.len(),
{
    let front = text.drop_last();
    if front.len() > 0 {
        lemma_first_character(front);
        assert(text.drop_first().drop_last() =~= front.drop_first());
        assert(text.drop_first().last() == text.last());
    } else {
        assert(text.drop_first() =~= seq![]);
        assert(byte_len(front) == 0);
    }
}

/// A filter whose characters take one byte each can be read, whatever it says.
pub proof fn law_plain_filters_can_be_read(text: Seq<char>)
    requires
        forall|i: int| 0 <= i < text.len() ==> (#[trigger] text[i] as u32) < 0x80,
    ensures
        readable_filter(text),
{
    assert forall|a: int, b: int| #[trigger] is_directive(text, a, b) implies well_cut(
        text.subrange(a, b),
    ) by {
        let directive = text.subrange(a, b);
        let inner = trim_end(trim_start(directive));
        law_trimming(directive);
        let start = trim_start(directive);
        law_trimming(start);
        let n = choose|n: int|
            0 <= n <= directive.len() && start == #[trigger] directive.skip(n) && (forall|i: int|
                0 <= i < n ==> is_space(#[trigger] directive[i]));
        let m = choose|m: int|
            0 <= m <= start.len() && inner == #[trigger] start.take(m) && (forall|i: int|
                m <= i < start.len() ==> is_space(#[trigger] start[i]));
        assert forall|i: int| 0 <= i < inner.len() implies (#[trigger] inner[i] as u32) < 0x80 by {
            assert(inner[i] == text[a + n + i]);
        }
        assert forall|i: int| 0 <= i < directive.len() implies (#[trigger] directive[i] as u32)
            < 0x80 by {
            assert(directive[i] == text[a + i]);
        }
        assert forall|k: int|
            0 <= k < inner.len() && is_delimiter(#[trigger] inner[k]) implies can_cut(
            directive,
            byte_len(inner.take(k)),
        ) && can_cut(directive, byte_len(inner.take(k)) + 1) by {
            lemma_plain_length(inner, k);
            lemma_plain_length(directive, k);
            lemma_plain_length(directive, k + 1);
        }
    }
}

proof fn lemma_plain_length(text: Seq<char>, k: int)
    requires
        0 <= k <= text.len(),
        forall|i: int| 0 <= i < text.len() ==> (#[trigger] text[i] as u32) < 0x80,
    ensures
        byte_len(text.take(k)) == k,
    decreases k,
{
    if k > 0 {
        lemma_plain_length(text, k - 1);
        assert(text.take(k).drop_last() =~= text.take(k - 1));
        assert(text.take(k).last() == text[k - 1]);
    }
}

} // verus!
