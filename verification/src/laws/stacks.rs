//! What stack samples say.

use super::history::event_of;
use crate::bpf::profiler::{event_cache, is_sent, looked_up, sample_messages, trimmed, PerfEvent};
use crate::protocol::{EventView, Frame, InternedStringView, MessageView, StreamId, TrackId};
use crate::symbolizer::{
    add_frame, add_frames, callstack_hash, first_names, lemma_add_frames, named, sample_build,
    sample_cache, sample_data, Build, CacheView, Lookup, NamedAddress, FAKE_MAPPING_ID, KERNEL_PID,
};
use vstd::prelude::*;

verus! {

/// Whether a frame is that of an address: it refers to a function name with exactly the
/// text that was found for the address, or, if none was, to the unknown function.
pub open spec fn frame_of(
    frame: Frame,
    address: NamedAddress,
    names: Seq<InternedStringView>,
    unknown: u64,
) -> bool {
    &&& frame.rel_pc == address.0
    &&& match address.1 {
        Some(name) => exists|k: int|
            0 <= k < names.len() && (#[trigger] names[k]).iid == frame.function_name_id
                && names[k].str == name,
        None => frame.function_name_id == unknown,
    }
}

/// Whether a frame is that of one of some addresses.
pub open spec fn frame_of_one(
    frame: Frame,
    addresses: Seq<NamedAddress>,
    names: Seq<InternedStringView>,
    unknown: u64,
) -> bool {
    exists|j: int|
        0 <= j < addresses.len() && frame_of(frame, #[trigger] addresses[j], names, unknown)
}

/// What frames that are added say.
proof fn lemma_frames_are_named(b: Build, pid: i32, items: Seq<NamedAddress>)
    requires
        b.cache.next_frame + items.len() <= u64::MAX,
        b.cache.function_ids() + items.len() <= u64::MAX,
        b.cache.wf(),
        b.cache.unknown_function is Some,
    ensures
        ({
            let after = add_frames(b, pid, items);
            let n = b.names.len() as int;
            &&& after.cache.unknown_function == b.cache.unknown_function
            &&& after.names.len() >= n
            &&& after.names.take(n) == b.names
            &&& after.cache.next_function - b.cache.next_function == after.names.len() - n
            &&& after.names.len() - n <= items.len()
            &&& forall|k: int|
                n <= k < after.names.len() ==> (#[trigger] after.names[k]).iid
                    == b.cache.next_function + (k - n)
            &&& after.frames.len() >= b.frames.len()
            &&& after.frames.take(b.frames.len() as int) == b.frames
            &&& forall|i: int|
                b.frames.len() <= i < after.frames.len() ==> frame_of_one(
                    #[trigger] after.frames[i],
                    items,
                    after.names,
                    b.cache.unknown_function->0,
                )
            &&& forall|i: int|
                b.frames.len() <= i < after.frames.len() ==> (#[trigger] after.frames[i]).mapping_id
                    == FAKE_MAPPING_ID && after.cache.frames.contains_key(
                    (pid, after.frames[i].rel_pc),
                ) && after.frames[i].iid == after.cache.frames[(pid, after.frames[i].rel_pc)]
            &&& b.cache.frames.submap_of(after.cache.frames)
        }),
    decreases items.len(),
{
    lemma_add_frames(b, pid, items);
    let n = b.names.len() as int;
    if items.len() == 0 {
        assert(b.names.take(n) =~= b.names);
        assert(b.frames.take(b.frames.len() as int) =~= b.frames);
    } else {
        let rest = items.drop_last();
        let prev = add_frames(b, pid, rest);
        let item = items.last();
        lemma_frames_are_named(b, pid, rest);
        lemma_add_frames(b, pid, rest);
        let after = add_frame(prev, pid, item);
        let unknown = b.cache.unknown_function->0;
        assert(after == add_frames(b, pid, items));
        assert(after.names.take(n) =~= b.names) by {
            assert(prev.names.take(n) == b.names);
        }
        assert forall|k: int| n <= k < after.names.len() implies (#[trigger] after.names[k]).iid
            == b.cache.next_function + (k - n) by {
            if k < prev.names.len() {
                assert(after.names[k] == prev.names[k]);
            }
        }
        assert forall|i: int| b.frames.len() <= i < after.frames.len() implies frame_of_one(
            #[trigger] after.frames[i],
            items,
            after.names,
            unknown,
        ) by {
            if i < prev.frames.len() {
                assert(frame_of_one(prev.frames[i], rest, prev.names, unknown));
                let j = choose|j: int|
                    0 <= j < rest.len() && frame_of(
                        prev.frames[i],
                        #[trigger] rest[j],
                        prev.names,
                        unknown,
                    );
                assert(items[j] == rest[j]);
                assert(after.frames[i] == prev.frames[i]);
                if rest[j].1 is Some {
                    let k = choose|k: int|
                        0 <= k < prev.names.len() && (#[trigger] prev.names[k]).iid
                            == prev.frames[i].function_name_id && prev.names[k].str
                            == rest[j].1->0;
                    assert(after.names[k] == prev.names[k]);
                }
                assert(frame_of(after.frames[i], items[j], after.names, unknown));
            } else {
                let j = items.len() - 1;
                assert(items[j] == item);
                if item.1 is Some {
                    let k = after.names.len() - 1;
                    assert(after.names[k].str == item.1->0);
                }
                assert(frame_of(after.frames[i], items[j], after.names, unknown));
            }
        }
        assert forall|i: int| b.frames.len() <= i < after.frames.len() implies (
        #[trigger] after.frames[i]).mapping_id == FAKE_MAPPING_ID
            && after.cache.frames.contains_key((pid, after.frames[i].rel_pc))
            && after.frames[i].iid == after.cache.frames[(pid, after.frames[i].rel_pc)] by {
            if i < prev.frames.len() {
                assert(after.frames[i] == prev.frames[i]);
            }
        }
    }
}

/// Each frame that a sample describes refers to a function name that carries the symbol
/// that was found for its address, or, where none was, to the function that is described
/// as unknown. No two function names share an id, neither among those of a sample nor
/// with any that was described before.
pub proof fn law_frames_carry_their_names(
    cache: CacheView,
    pid: i32,
    user: Seq<NamedAddress>,
    kernel: Seq<NamedAddress>,
)
    requires
        cache.wf(),
        cache.has_room((user.len() + kernel.len()) as int),
    ensures
        ({
            let b = sample_build(cache, pid, user, kernel);
            let unknown = b.cache.unknown_function;
            &&& unknown is Some
            &&& cache.unknown_function is Some ==> unknown == cache.unknown_function
            &&& cache.unknown_function is None ==> b.names.len() > 0 && b.names[0].iid
                == unknown->0 && b.names[0].str == "<unknown>"@
            &&& forall|i: int|
                0 <= i < b.frames.len() ==> frame_of_one(
                    #[trigger] b.frames[i],
                    user,
                    b.names,
                    unknown->0,
                ) || frame_of_one(b.frames[i], kernel, b.names, unknown->0)
            &&& forall|k: int, l: int|
                0 <= k < l < b.names.len() ==> (#[trigger] b.names[k]).iid != (
                #[trigger] b.names[l]).iid
            &&& forall|k: int|
                0 <= k < b.names.len() ==> cache.next_function <= (#[trigger] b.names[k]).iid
                    < b.cache.next_function
            &&& cache.unknown_function is Some ==> forall|k: int|
                0 <= k < b.names.len() ==> (#[trigger] b.names[k]).iid != unknown->0
        }),
{
    let start = Build {
        cache: cache.with_unknown().with_mapping(),
        frame_ids: seq![],
        names: first_names(cache),
        frames: seq![],
    };
    let items = user.reverse();
    lemma_add_frames(start, pid, items);
    lemma_frames_are_named(start, pid, items);
    let middle = add_frames(start, pid, items);
    lemma_frames_are_named(middle, KERNEL_PID, kernel);
    let b = sample_build(cache, pid, user, kernel);
    assert(b == add_frames(middle, KERNEL_PID, kernel));
    let unknown = start.cache.unknown_function->0;
    let m = middle.names.len() as int;
    let n = start.names.len() as int;
    assert(b.names.take(m) == middle.names);
    assert(middle.names.take(n) == start.names);
    assert forall|k: int| 0 <= k < b.names.len() implies (#[trigger] b.names[k]).iid
        == cache.next_function + k by {
        if k < m {
            assert(b.names[k] == b.names.take(m)[k]);
            if k < n {
                assert(middle.names[k] == middle.names.take(n)[k]);
            }
        }
    }
    if n > 0 {
        assert(b.names[0] == b.names.take(m)[0]);
        assert(middle.names[0] == middle.names.take(n)[0]);
    }
    assert forall|i: int| 0 <= i < b.frames.len() implies frame_of_one(
        #[trigger] b.frames[i],
        user,
        b.names,
        unknown,
    ) || frame_of_one(b.frames[i], kernel, b.names, unknown) by {
        if i < middle.frames.len() {
            assert(frame_of_one(middle.frames[i], items, middle.names, unknown));
            assert(b.frames[i] == b.frames.take(middle.frames.len() as int)[i]);
            let j = choose|j: int|
                0 <= j < items.len() && frame_of(
                    middle.frames[i],
                    #[trigger] items[j],
                    middle.names,
                    unknown,
                );
            let u = user.len() - 1 - j;
            assert(items[j] == user[u]);
            if user[u].1 is Some {
                let k = choose|k: int|
                    0 <= k < middle.names.len() && (#[trigger] middle.names[k]).iid
                        == middle.frames[i].function_name_id && middle.names[k].str
                        == user[u].1->0;
                assert(b.names[k] == b.names.take(m)[k]);
            }
            assert(frame_of(b.frames[i], user[u], b.names, unknown));
        }
    }
}

/// The description of a sample holds its call stack, under the id that the sample
/// refers to; the one mapping that frames refer to is described with the first sample,
/// and its build id with it. The first description starts afresh, and all others add to
/// it.
pub proof fn law_sample_description(
    cache: CacheView,
    pid: i32,
    user: Seq<NamedAddress>,
    kernel: Seq<NamedAddress>,
)
    requires
        cache.wf(),
        cache.has_room((user.len() + kernel.len()) as int),
    ensures
        ({
            let b = sample_build(cache, pid, user, kernel);
            let after = sample_cache(cache, pid, user, kernel);
            match sample_data(cache, pid, user, kernel) {
                Some(data) => {
                    &&& data.frames == b.frames
                    &&& data.function_names == b.names
                    &&& data.callstacks.len() == 1
                    &&& data.callstacks[0].frame_ids == b.frame_ids
                    &&& data.callstacks[0].iid == b.cache.callstack_id(b.frame_ids)
                    &&& data.continuation <==> !cache.first
                    &&& !after.first
                    &&& cache.fake_mapping is None ==> {
                        &&& data.mappings.len() == 1
                        &&& forall|i: int|
                            0 <= i < data.frames.len() ==> (#[trigger] data.frames[i]).mapping_id
                                == data.mappings[0].iid
                        &&& data.build_ids.len() == 1
                        &&& data.mappings[0].build_id == data.build_ids[0].iid
                        &&& data.mappings[0].start == 0
                        &&& data.mappings[0].end == i64::MAX
                    }
                    &&& cache.fake_mapping is Some ==> data.mappings.len() == 0
                        && data.build_ids.len() == 0
                },
                None => {
                    &&& b.frames.len() == 0 && b.names.len() == 0
                    &&& cache.fake_mapping is Some
                    &&& cache.callstacks.contains_key(
                        crate::symbolizer::callstack_hash(b.frame_ids),
                    )
                    &&& after.first == cache.first
                },
            }
        }),
{
    let start = Build {
        cache: cache.with_unknown().with_mapping(),
        frame_ids: seq![],
        names: first_names(cache),
        frames: seq![],
    };
    let items = user.reverse();
    lemma_add_frames(start, pid, items);
    lemma_frames_are_named(start, pid, items);
    let middle = add_frames(start, pid, items);
    lemma_add_frames(middle, KERNEL_PID, kernel);
    lemma_frames_are_named(middle, KERNEL_PID, kernel);
    let b = sample_build(cache, pid, user, kernel);
    assert(b == add_frames(middle, KERNEL_PID, kernel));
    assert forall|i: int| 0 <= i < b.frames.len() implies (#[trigger] b.frames[i]).mapping_id
        == FAKE_MAPPING_ID by {
        if i < middle.frames.len() {
            assert(b.frames[i] == b.frames.take(middle.frames.len() as int)[i]);
            assert(middle.frames[i].mapping_id == FAKE_MAPPING_ID);
        }
    }
}

/// The messages of a sample: the sample comes last, says where and when it was taken,
/// and refers to the call stack that the description before it, if there is one, holds.
pub proof fn law_sample_messages(
    stream_id: StreamId,
    cache: CacheView,
    event: PerfEvent,
    user: Seq<NamedAddress>,
    kernel: Seq<NamedAddress>,
)
    ensures
        ({
            let messages = sample_messages(stream_id, cache, event, user, kernel);
            let n = messages.len() as int;
            &&& 1 <= n <= 2
            &&& forall|i: int|
                0 <= i < n ==> ((#[trigger] messages[i]) matches MessageView::Stream {
                    stream_id: s,
                    ..
                } && s == stream_id)
            &&& event_of(messages[n - 1]) matches EventView::Sample(sample) && {
                &&& sample.cpu == event.cpu_id
                &&& sample.timestamp == event.timestamp
                &&& sample.track_id == (TrackId::Thread {
                    tid: event.pid as i32,
                    pid: event.tgid as i32,
                })
                &&& n == 2 ==> (event_of(messages[0]) matches EventView::InternedData(data)
                    && data.callstacks.len() == 1 && data.callstacks[0].iid
                    == sample.callstack_iid && sample_data(
                    cache,
                    event.tgid as i32,
                    user,
                    kernel,
                ) == Some(data))
                &&& n == 1 ==> sample_data(cache, event.tgid as i32, user, kernel) is None
                &&& n == 1 ==> exists|hash: u64|
                    cache.callstacks.contains_key(hash) && #[trigger] cache.callstacks[hash]
                        == sample.callstack_iid
            }
        }),
{
    let pid = event.tgid as i32;
    let b = sample_build(cache, pid, user, kernel);
    lemma_frames_keep_stacks(cache, pid, user, kernel);
    if sample_data(cache, pid, user, kernel) is None {
        let hash = callstack_hash(b.frame_ids);
        assert(cache.callstacks.contains_key(hash));
        assert(cache.callstacks[hash] == b.cache.callstack_id(b.frame_ids));
    }
}

/// Interning frames leaves the call stacks alone.
proof fn lemma_frames_keep_stacks(
    cache: CacheView,
    pid: i32,
    user: Seq<NamedAddress>,
    kernel: Seq<NamedAddress>,
)
    ensures
        sample_build(cache, pid, user, kernel).cache.callstacks == cache.callstacks,
{
    let start = Build {
        cache: cache.with_unknown().with_mapping(),
        frame_ids: seq![],
        names: first_names(cache),
        frames: seq![],
    };
    lemma_stacks_stay(start, pid, user.reverse());
    lemma_stacks_stay(add_frames(start, pid, user.reverse()), KERNEL_PID, kernel);
}

proof fn lemma_stacks_stay(b: Build, pid: i32, items: Seq<NamedAddress>)
    ensures
        add_frames(b, pid, items).cache.callstacks == b.cache.callstacks,
    decreases items.len(),
{
    if items.len() > 0 {
        lemma_stacks_stay(b, pid, items.drop_last());
    }
}

/// The frames of a sample are known afterwards, those of the user under the process of the
/// event, and those of the kernel under the id that stands for it.
pub proof fn law_frames_belong_to_the_process(
    cache: CacheView,
    event: PerfEvent,
    user: Seq<NamedAddress>,
    kernel: Seq<NamedAddress>,
    i: int,
)
    requires
        cache.wf(),
        cache.has_room((user.len() + kernel.len()) as int),
    ensures
        0 <= i < user.len() ==> event_cache(cache, event, user, kernel).frames.contains_key(
            (event.tgid as i32, user[i].0),
        ),
        0 <= i < kernel.len() ==> event_cache(cache, event, user, kernel).frames.contains_key(
            (-1i32, kernel[i].0),
        ),
{
    let pid = event.tgid as i32;
    let start = Build {
        cache: cache.with_unknown().with_mapping(),
        frame_ids: seq![],
        names: first_names(cache),
        frames: seq![],
    };
    let outer = user.reverse();
    let middle = add_frames(start, pid, outer);
    lemma_add_frames(start, pid, outer);
    lemma_add_frames(middle, KERNEL_PID, kernel);
    if 0 <= i < user.len() {
        let j = user.len() - 1 - i;
        assert(outer[j] == user[i]);
        assert(middle.cache.frames.contains_key((pid, outer[j].0)));
    }
    if 0 <= i < kernel.len() {
        assert(add_frames(middle, KERNEL_PID, kernel).cache.frames.contains_key(
            (KERNEL_PID, kernel[i].0),
        ));
    }
}

/// The frames of a stack are those that the kernel gives, without the zeros behind them;
/// the first frame stays in any case.
pub proof fn law_zeros_behind_a_stack_are_dropped(frames: Seq<u64>)
    ensures
        trimmed(frames).is_prefix_of(frames),
        forall|i: int| trimmed(frames).len() <= i < frames.len() ==> #[trigger] frames[i] == 0,
        frames.len() > 0 ==> trimmed(frames).len() > 0,
        trimmed(frames).len() > 1 ==> trimmed(frames).last() != 0,
    decreases frames.len(),
{
    if frames.len() > 1 && frames.last() == 0 {
        law_zeros_behind_a_stack_are_dropped(frames.drop_last());
        assert forall|i: int| trimmed(frames).len() <= i < frames.len() implies #[trigger] frames[i]
            == 0 by {
            if i < frames.len() - 1 {
                assert(frames[i] == frames.drop_last()[i]);
            }
        }
    }
}

/// Each address goes with the symbol at its own place.
pub proof fn law_addresses_keep_their_symbols(
    addresses: Seq<u64>,
    symbols: Seq<Option<String>>,
    i: int,
)
    requires
        0 <= i < addresses.len(),
        addresses.len() == symbols.len(),
    ensures
        named(addresses, symbols).len() == addresses.len(),
        named(addresses, symbols)[i].0 == addresses[i],
        symbols[i] matches Some(name) ==> named(addresses, symbols)[i].1 == Some(name@),
        symbols[i] is None ==> named(addresses, symbols)[i].1 is None,
{
}

/// Nothing is sent of a sample without a stack, of one with a stack whose functions could
/// not be looked up, or of one for which nothing was found; any other is sent.
pub proof fn law_samples_that_are_sent(
    user: Seq<u64>,
    kernel: Seq<u64>,
    user_lookup: Lookup,
    kernel_lookup: Lookup,
)
    ensures
        user.len() == 0 && kernel.len() == 0 ==> !is_sent(
            user,
            kernel,
            user_lookup,
            kernel_lookup,
        ),
        user.len() > 0 && user_lookup is Err ==> !is_sent(user, kernel, user_lookup, kernel_lookup),
        kernel.len() > 0 && kernel_lookup is Err ==> !is_sent(
            user,
            kernel,
            user_lookup,
            kernel_lookup,
        ),
        user.len() > 0 && user_lookup is Ok && user_lookup->Ok_0@.len() > 0 && (kernel.len() == 0
            || kernel_lookup is Ok) ==> is_sent(user, kernel, user_lookup, kernel_lookup),
        kernel.len() > 0 && kernel_lookup is Ok && kernel_lookup->Ok_0@.len() > 0 && (user.len()
            == 0 || user_lookup is Ok) ==> is_sent(user, kernel, user_lookup, kernel_lookup),
        (user.len() == 0 || user_lookup is Err || user_lookup->Ok_0@.len() == 0) && (kernel.len()
            == 0 || kernel_lookup is Err || kernel_lookup->Ok_0@.len() == 0) ==> !is_sent(
            user,
            kernel,
            user_lookup,
            kernel_lookup,
        ),
{
}

/// The addresses of a stack come with the names that were looked up for them, in order;
/// a failed lookup gives nothing, and an empty stack needs none.
pub proof fn law_stacks_are_looked_up(addresses: Seq<u64>, lookup: Lookup)
    ensures
        addresses.len() == 0 ==> looked_up(addresses, lookup) is Some && looked_up(
            addresses,
            lookup,
        )->0.len() == 0,
        addresses.len() > 0 ==> (looked_up(addresses, lookup) is None <==> lookup is Err),
        addresses.len() > 0 && lookup is Ok ==> looked_up(addresses, lookup)->0 == named(
            addresses,
            lookup->Ok_0@,
        ),
{
}

} // verus!
