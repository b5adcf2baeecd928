//! What samples of network traffic say.

use super::block_io::makes_up;
use super::history::{all_taken, goes_on, lemma_goes_on, lemma_one_more, tracks_in, values_in};
use crate::bpf::error::BpfError;
use crate::bpf::nettrack::{
    both_sampled, elapsed_since, first_sampled, host_outcome, host_sampled, id_emitted, is_due,
    next_peer_sampled, next_process_sampled, no_stats, peer_ensured, peer_sampled, peers_sampled,
    planned, process_sampled, processes_sampled, protocol_sampled, sample_emitted, sample_list,
    samples_taken, series_announced, series_emitted, series_named, stats_emitted, sum_of,
    then_sampled, total_list, totals_sampled, udp_sampled, value_sent, CounterKind,
    CounterSampleView, NetDirection, NetEmission, NetMetric, NetProtocol, NetReadings, NetScope,
    NetState, NetTrack, NetTrackConfig, PeerKey, ProcessKey, ScopeKey, SeriesKey, StatsValue,
};
use crate::protocol::{CounterView, MessageView, Reading, TrackId, TrackTypeView, TrackView};
use vstd::prelude::*;

verus! {

/// The counters of a record: bytes, operations, errors and would-blocks, each sent and
/// then received, the ends of streams, and the truncated datagrams.
pub open spec fn counters_of(v: StatsValue) -> Seq<u64> {
    seq![
        v.send_bytes,
        v.recv_bytes,
        v.send_operations,
        v.recv_operations,
        v.send_errors,
        v.recv_errors,
        v.send_would_block,
        v.recv_would_block,
        v.tcp_recv_eof,
        v.udp_recv_truncated,
    ]
}

/// The records of all processors.
pub open spec fn records_in(values: Seq<Vec<u8>>) -> Seq<StatsValue> {
    values.map_values(|v: Vec<u8>| StatsValue::in_bytes(v@))
}

/// The sum of the counter `c` over records.
pub open spec fn added_up(records: Seq<StatsValue>, c: int) -> int
    decreases records.len(),
{
    if records.len() == 0 {
        0
    } else {
        added_up(records.drop_last(), c) + counters_of(records.last())[c]
    }
}

/// Whether a counter is a sum, or the largest number where that is too large.
pub open spec fn is_sum(counter: u64, sum: int) -> bool {
    &&& sum <= u64::MAX ==> counter == sum
    &&& sum > u64::MAX ==> counter == u64::MAX
}

/// Adding one record to another adds each counter to its own; the time runs from the
/// first time that either was seen, where zero stands for never, to the last.
pub proof fn law_records_add_up(a: StatsValue, b: StatsValue)
    ensures
        forall|c: int|
            0 <= c < 10 ==> is_sum(
                #[trigger] counters_of(a.plus(b))[c],
                counters_of(a)[c] + counters_of(b)[c],
            ),
        a.plus(b).last_seen_ns >= a.last_seen_ns,
        a.plus(b).last_seen_ns >= b.last_seen_ns,
        a.plus(b).last_seen_ns == a.last_seen_ns || a.plus(b).last_seen_ns == b.last_seen_ns,
        a.first_seen_ns != 0 ==> 0 < a.plus(b).first_seen_ns <= a.first_seen_ns,
        b.first_seen_ns != 0 ==> 0 < a.plus(b).first_seen_ns <= b.first_seen_ns,
        a.plus(b).first_seen_ns == a.first_seen_ns || a.plus(b).first_seen_ns == b.first_seen_ns,
{
}

/// The host's counters are the sums over the records of all processors.
pub proof fn law_host_is_the_sum_of_processors(values: Seq<Vec<u8>>)
    ensures
        forall|c: int|
            0 <= c < 10 ==> is_sum(
                #[trigger] counters_of(sum_of(values))[c],
                added_up(records_in(values), c),
            ),
        forall|i: int, c: int|
            0 <= i < values.len() && 0 <= c < 10 ==> #[trigger] counters_of(
                StatsValue::in_bytes(values[i]@),
            )[c] <= counters_of(sum_of(values))[c],
        forall|i: int|
            0 <= i < values.len() ==> StatsValue::in_bytes((#[trigger] values[i])@).last_seen_ns
                <= sum_of(values).last_seen_ns,
        forall|c: int| 0 <= c < 10 ==> 0 <= #[trigger] added_up(records_in(values), c),
    decreases values.len(),
{
    let records = records_in(values);
    if values.len() == 0 {
        assert(records =~= seq![]);
    } else {
        let rest = values.drop_last();
        let last = StatsValue::in_bytes(values.last()@);
        law_host_is_the_sum_of_processors(rest);
        law_records_add_up(sum_of(rest), last);
        assert(records.drop_last() =~= records_in(rest));
        assert(records.last() == last);
        assert forall|c: int| 0 <= c < 10 implies is_sum(
            #[trigger] counters_of(sum_of(values))[c],
            added_up(records, c),
        ) && 0 <= added_up(records, c) by {
            assert(counters_of(sum_of(values))[c] == counters_of(sum_of(rest).plus(last))[c]);
            assert(is_sum(counters_of(sum_of(rest))[c], added_up(records_in(rest), c)));
        }
        assert forall|i: int, c: int|
            0 <= i < values.len() && 0 <= c < 10 implies #[trigger] counters_of(
            StatsValue::in_bytes(values[i]@),
        )[c] <= counters_of(sum_of(values))[c] by {
            assert(counters_of(sum_of(values))[c] == counters_of(sum_of(rest).plus(last))[c]);
            if i < rest.len() {
                assert(rest[i] == values[i]);
                assert(counters_of(StatsValue::in_bytes(rest[i]@))[c] <= counters_of(
                    sum_of(rest),
                )[c]);
            }
        }
        assert forall|i: int| 0 <= i < values.len() implies StatsValue::in_bytes(
            (#[trigger] values[i])@,
        ).last_seen_ns <= sum_of(values).last_seen_ns by {
            if i < rest.len() {
                assert(rest[i] == values[i]);
            }
        }
    }
}

/// A sum over records, wherever one of them stands.
proof fn lemma_added_up_without(records: Seq<StatsValue>, c: int, i: int)
    requires
        0 <= i < records.len(),
    ensures
        added_up(records, c) == added_up(records.remove(i), c) + counters_of(records[i])[c],
    decreases records.len(),
{
    let rest = records.drop_last();
    if i == records.len() - 1 {
        assert(records.remove(i) =~= rest);
    } else {
        lemma_added_up_without(rest, c, i);
        assert(records.remove(i).drop_last() =~= rest.remove(i));
        assert(records.remove(i).last() == records.last());
    }
}

/// The sums do not depend on the order of the records.
pub proof fn law_order_of_records_is_open(a: Seq<StatsValue>, b: Seq<StatsValue>, c: int)
    requires
        a.to_multiset() == b.to_multiset(),
    ensures
        added_up(a, c) == added_up(b, c),
    decreases a.len(),
{
    broadcast use vstd::seq_lib::group_to_multiset_ensures;

    assert(a.len() == b.len()) by {
        assert(a.to_multiset().len() == a.len());
        assert(b.to_multiset().len() == b.len());
    }
    if a.len() > 0 {
        let n = a.len() - 1;
        assert(a.to_multiset().count(a[n]) > 0) by {
            assert(a.contains(a[n]));
        }
        assert(b.contains(a[n]));
        let i = choose|i: int| 0 <= i < b.len() && b[i] == a[n];
        lemma_added_up_without(b, c, i);
        assert(a.remove(n) =~= a.drop_last());
        assert(a.drop_last().to_multiset() =~= a.to_multiset().remove(a[n]));
        assert(b.remove(i).to_multiset() =~= b.to_multiset().remove(b[i]));
        law_order_of_records_is_open(a.drop_last(), b.remove(i), c);
    }
}

/// Growth and what was before make up what is now, of every counter, as long as the
/// counters were not set up anew; counters that are new, or were set up anew, have
/// grown from zero.
pub proof fn law_every_growth_adds_up(current: StatsValue, previous: StatsValue)
    ensures
        current.first_seen_ns == previous.first_seen_ns ==> forall|c: int|
            0 <= c < 10 ==> makes_up(
                counters_of(previous)[c],
                #[trigger] counters_of(current.since(Some(previous)))[c],
                counters_of(current)[c],
            ),
        current.first_seen_ns != previous.first_seen_ns ==> forall|c: int|
            0 <= c < 10 ==> #[trigger] counters_of(current.since(Some(previous)))[c]
                == counters_of(current)[c],
        forall|c: int|
            0 <= c < 10 ==> #[trigger] counters_of(current.since(None))[c] == counters_of(
                current,
            )[c],
{
}

/// What both protocols of the host have grown by makes up the totals.
pub proof fn law_totals_are_over_both_protocols(
    config: &NetTrackConfig,
    tcp: StatsValue,
    udp: StatsValue,
    elapsed: u64,
    now: u64,
    before: NetState,
    first: (NetState, StatsValue),
    second: (NetState, StatsValue),
    code: i32,
    other_code: i32,
    c: int,
)
    requires
        config.protocols@.contains(NetProtocol::Tcp),
        config.protocols@.contains(NetProtocol::Udp),
        protocol_sampled(
            config,
            NetProtocol::Tcp,
            Ok::<StatsValue, BpfError>(tcp),
            elapsed,
            now,
            (before, no_stats()),
            first,
            code,
            false,
        ),
        protocol_sampled(
            config,
            NetProtocol::Udp,
            Ok::<StatsValue, BpfError>(udp),
            elapsed,
            now,
            first,
            second,
            other_code,
            false,
        ),
        0 <= c < 10,
        tcp.first_seen_ns == before.tcp.first_seen_ns,
        udp.first_seen_ns == before.udp.first_seen_ns,
        counters_of(before.tcp)[c] <= counters_of(tcp)[c],
        counters_of(before.udp)[c] <= counters_of(udp)[c],
    ensures
        is_sum(
            counters_of(second.1)[c],
            (counters_of(tcp)[c] - counters_of(before.tcp)[c]) + (counters_of(udp)[c]
                - counters_of(before.udp)[c]),
        ),
        second.0.tcp == tcp,
        second.0.udp == udp,
{
    law_every_growth_adds_up(tcp, before.tcp);
    law_every_growth_adds_up(udp, before.udp);
    let one = tcp.since(Some(before.tcp));
    let two = udp.since(Some(before.udp));
    assert(makes_up(counters_of(before.tcp)[c], counters_of(one)[c], counters_of(tcp)[c]));
    assert(makes_up(counters_of(before.udp)[c], counters_of(two)[c], counters_of(udp)[c]));
    law_records_add_up(no_stats(), one);
    law_records_add_up(first.1, two);
    assert(first.1 == no_stats().plus(one));
    assert(second.1 == first.1.plus(two));
    assert(is_sum(
        counters_of(no_stats().plus(one))[c],
        counters_of(no_stats())[c] + counters_of(one)[c],
    ));
    assert(is_sum(
        counters_of(first.1.plus(two))[c],
        counters_of(first.1)[c] + counters_of(two)[c],
    ));
}

/// The word for a protocol.
pub open spec fn word_of(protocol: NetProtocol) -> Seq<char> {
    match protocol {
        NetProtocol::Tcp => "tcp"@,
        NetProtocol::Udp => "udp"@,
    }
}

/// The word for what a protocol sends.
pub open spec fn unit_word(protocol: NetProtocol) -> Seq<char> {
    match protocol {
        NetProtocol::Tcp => "calls"@,
        NetProtocol::Udp => "datagrams"@,
    }
}

/// Whether a sample is a number of bytes, or the rate of it.
pub open spec fn is_volume(
    sample: CounterSampleView,
    name: Seq<char>,
    bytes: u64,
    scaled: bool,
    elapsed: u64,
) -> bool {
    if scaled {
        &&& sample.name == name + "_rate"@
        &&& sample.unit == "bits/s"@
        &&& sample.value == (Reading::BitsPerSecond { bytes, elapsed_ns: elapsed })
    } else {
        &&& sample.name == name
        &&& sample.unit == "bytes"@
        &&& sample.value == (Reading::Count { n: bytes })
    }
}

/// Whether a sample is a count.
pub open spec fn is_count(sample: CounterSampleView, name: Seq<char>, n: u64) -> bool {
    &&& sample.name == name
    &&& sample.unit == "count"@
    &&& sample.value == (Reading::Count { n })
}

/// Whether a sample says of a protocol what its kind promises.
pub open spec fn tells_of_protocol(
    sample: CounterSampleView,
    protocol: NetProtocol,
    growth: StatsValue,
    scaled: bool,
    elapsed: u64,
) -> bool {
    let word = word_of(protocol);
    match sample.kind {
        CounterKind::SendBytes => is_volume(
            sample,
            word + "_send"@,
            growth.send_bytes,
            scaled,
            elapsed,
        ),
        CounterKind::RecvBytes => is_volume(
            sample,
            word + "_recv"@,
            growth.recv_bytes,
            scaled,
            elapsed,
        ),
        CounterKind::SendOperations => is_count(
            sample,
            word + "_send_"@ + unit_word(protocol),
            growth.send_operations,
        ),
        CounterKind::RecvOperations => is_count(
            sample,
            word + "_recv_"@ + unit_word(protocol),
            growth.recv_operations,
        ),
        CounterKind::SendErrors => is_count(sample, word + "_send_errors"@, growth.send_errors),
        CounterKind::RecvErrors => is_count(sample, word + "_recv_errors"@, growth.recv_errors),
        CounterKind::SendWouldBlock => is_count(
            sample,
            word + "_send_would_block"@,
            growth.send_would_block,
        ),
        CounterKind::RecvWouldBlock => is_count(
            sample,
            word + "_recv_would_block"@,
            growth.recv_would_block,
        ),
        CounterKind::TcpRecvEof => protocol == NetProtocol::Tcp && is_count(
            sample,
            "tcp_recv_eof"@,
            growth.tcp_recv_eof,
        ),
        CounterKind::UdpRecvTruncated => protocol == NetProtocol::Udp && is_count(
            sample,
            "udp_recv_truncated"@,
            growth.udp_recv_truncated,
        ),
        _ => false,
    }
}

/// The samples of a protocol tell of its own growth, by the metrics that are asked for:
/// each asked-for kind once, and no other.
pub proof fn law_protocol_samples(
    config: &NetTrackConfig,
    protocol: NetProtocol,
    growth: StatsValue,
    elapsed: u64,
)
    ensures
        ({
            let list = sample_list(config, protocol, growth, elapsed);
            &&& forall|i: int|
                0 <= i < list.len() ==> tells_of_protocol(
                    #[trigger] list[i],
                    protocol,
                    growth,
                    config.scaled,
                    elapsed,
                )
            &&& forall|i: int, j: int|
                0 <= i < j < list.len() ==> (#[trigger] list[i]).kind != (#[trigger] list[j]).kind
            &&& list.len() == (if config.metrics@.contains(NetMetric::Bytes) {
                2int
            } else {
                0
            }) + (if config.metrics@.contains(NetMetric::Operations) {
                3int
            } else {
                0
            }) + (if config.metrics@.contains(NetMetric::Errors) {
                4int
            } else {
                0
            })
            &&& config.metrics@.contains(NetMetric::Bytes) ==> list[0].kind
                == CounterKind::SendBytes && list[1].kind == CounterKind::RecvBytes
            &&& forall|i: int|
                0 <= i < list.len() && ((#[trigger] list[i]).kind == CounterKind::SendErrors
                    || list[i].kind == CounterKind::RecvErrors || list[i].kind
                    == CounterKind::SendWouldBlock || list[i].kind
                    == CounterKind::RecvWouldBlock) ==> config.metrics@.contains(
                    NetMetric::Errors,
                )
        }),
{
}

/// The totals of the host: the bytes of all protocols, if bytes are asked for.
pub proof fn law_total_samples(config: &NetTrackConfig, growth: StatsValue, elapsed: u64)
    ensures
        ({
            let list = total_list(config, growth, elapsed);
            if config.metrics@.contains(NetMetric::Bytes) {
                &&& list.len() == 2
                &&& list[0].kind == CounterKind::TotalSendBytes
                &&& is_volume(list[0], "total_send"@, growth.send_bytes, config.scaled, elapsed)
                &&& list[1].kind == CounterKind::TotalRecvBytes
                &&& is_volume(list[1], "total_recv"@, growth.recv_bytes, config.scaled, elapsed)
            } else {
                list.len() == 0
            }
        }),
{
}

/// Whether a counter value is the sample, at a time, of the series with an id.
pub open spec fn shows(
    value: CounterView,
    sample: CounterSampleView,
    timestamp: u64,
) -> bool {
    &&& value.name == sample.name
    &&& value.value == sample.value
    &&& value.unit == Some(sample.unit)
    &&& value.timestamp == timestamp
}

/// A sample that is taken adds exactly one value: the sample's, at the time of
/// sampling, for the id that its series keeps. An id is announced once, right before its
/// first value, under the parent of its scope.
pub proof fn law_sample_is_sent(
    before: NetEmission,
    key: SeriesKey,
    item: CounterSampleView,
    parent: Option<TrackTypeView>,
    timestamp: u64,
    after: NetEmission,
)
    requires
        series_emitted(before, key, item, parent, timestamp, after, 0),
    ensures
        after.series.contains_key(key),
        before.series.contains_key(key) ==> after.series[key] == before.series[key],
        values_in(after.history).len() == values_in(before.history).len() + 1,
        values_in(after.history).drop_last() == values_in(before.history),
        shows(values_in(after.history).last(), item, timestamp),
        values_in(after.history).last().track_id == (TrackId::Counter { id: after.series[key] }),
        before.announced.contains(after.series[key]) ==> tracks_in(after.history) == tracks_in(
            before.history,
        ),
        !before.announced.contains(after.series[key]) ==> {
            &&& tracks_in(after.history).len() == tracks_in(before.history).len() + 1
            &&& tracks_in(after.history).drop_last() == tracks_in(before.history)
            &&& tracks_in(after.history).last() == (TrackView {
                name: item.name,
                track_type: TrackTypeView::Counter {
                    id: after.series[key],
                    unit: Some(item.unit),
                },
                parent,
            })
        },
        after.announced == before.announced.insert(after.series[key]),
        after.peers == before.peers,
{
    let id = choose|id: u64|
        {
            &&& before.series.contains_key(key) ==> id == before.series[key]
            &&& id_emitted(
                #[trigger] series_named(before, key, id),
                item,
                id,
                parent,
                timestamp,
                after,
                0,
            )
        };
    let named = series_named(before, key, id);
    if named.announced.contains(id) {
        lemma_one_more(before.history, after.history.last().0, 0);
        assert(after.history =~= before.history.push(after.history.last()));
        assert(values_in(after.history).drop_last() =~= values_in(before.history));
        assert(after.announced =~= before.announced.insert(id));
    } else {
        let c = choose|c: i32|
            {
                let known = #[trigger] series_announced(named, item, id, parent, c);
                if c != 0 {
                    after == known && 0 == c
                } else {
                    after == value_sent(known, item, id, timestamp, 0)
                }
            };
        let known = series_announced(named, item, id, parent, c);
        lemma_one_more(before.history, known.history.last().0, c);
        lemma_one_more(known.history, after.history.last().0, 0);
        assert(known.history =~= before.history.push(known.history.last()));
        assert(after.history =~= known.history.push(after.history.last()));
        assert(values_in(after.history).drop_last() =~= values_in(before.history));
        assert(tracks_in(after.history).drop_last() =~= tracks_in(before.history));
    }
}

/// A sample of the host stands alone, one of a process under that process, and one of a
/// peer with a track under that track.
pub proof fn law_sample_stands_in_its_scope(
    before: NetEmission,
    limit: usize,
    scope: ScopeKey,
    protocol: NetProtocol,
    item: CounterSampleView,
    timestamp: u64,
    after: NetEmission,
)
    requires
        sample_emitted(before, limit, scope, protocol, item, timestamp, after, 0),
        scope matches ScopeKey::Peer(peer) ==> before.peers.contains_key(peer),
    ensures
        ({
            let key = SeriesKey { scope, protocol, kind: item.kind };
            let parent = match scope {
                ScopeKey::Process(tgid) => Some(TrackTypeView::Process { pid: tgid as i32 }),
                ScopeKey::Peer(peer) => Some(TrackTypeView::Custom { id: before.peers[peer] }),
                ScopeKey::Host => None,
            };
            &&& series_emitted(before, key, item, parent, timestamp, after, 0)
            &&& values_in(after.history).len() == values_in(before.history).len() + 1
            &&& values_in(after.history).drop_last() == values_in(before.history)
            &&& shows(values_in(after.history).last(), item, timestamp)
            &&& after.peers == before.peers
        }),
{
    let key = SeriesKey { scope, protocol, kind: item.kind };
    let parent = match scope {
        ScopeKey::Process(tgid) => Some(TrackTypeView::Process { pid: tgid as i32 }),
        ScopeKey::Peer(peer) => Some(TrackTypeView::Custom { id: before.peers[peer] }),
        ScopeKey::Host => None,
    };
    law_sample_is_sent(before, key, item, parent, timestamp, after);
}

/// The track of a peer is announced once, by the peer's name, under the peer's process;
/// a sample of a peer without a track shows nothing.
pub proof fn law_peer_track(
    before: NetEmission,
    limit: usize,
    key: PeerKey,
    after: NetEmission,
    track: Option<u64>,
)
    requires
        peer_ensured(before, limit, key, after, track),
    ensures
        values_in(after.history) == values_in(before.history),
        before.peers.contains_key(key) ==> track == Some(before.peers[key]) && after == before,
        !before.peers.contains_key(key) && before.peers.dom().len() >= limit ==> track is None
            && after == before,
        !before.peers.contains_key(key) && track is Some ==> {
            &&& tracks_in(after.history) == tracks_in(before.history).push(
                TrackView {
                    name: key.name(),
                    track_type: TrackTypeView::Custom { id: track->0 },
                    parent: Some(TrackTypeView::Process { pid: key.tgid as i32 }),
                },
            )
            &&& after.peers.contains_key(key) && after.peers[key] == track->0
        },
        after.series == before.series,
        after.announced == before.announced,
{
    if !before.peers.contains_key(key) && before.peers.dom().len() < limit {
        let (id, code) = choose|id: u64, code: i32|
            {
                &&& after == #[trigger] crate::bpf::nettrack::peer_announced(before, key, id, code)
                &&& track == (if code == 0 {
                    Some(id)
                } else {
                    None
                })
            };
        lemma_one_more(before.history, after.history.last().0, code);
        assert(after.history =~= before.history.push(after.history.last()));
    }
}

/// Samples of the host, of a process, or of a peer with a track, that are all taken show
/// exactly their values, in their order, at the time of sampling.
pub proof fn law_samples_are_sent_in_order(
    before: NetEmission,
    limit: usize,
    scope: ScopeKey,
    protocol: NetProtocol,
    items: Seq<CounterSampleView>,
    timestamp: u64,
    after: NetEmission,
)
    requires
        stats_emitted(before, limit, scope, protocol, items, timestamp, after, 0),
        scope matches ScopeKey::Peer(peer) ==> before.peers.contains_key(peer),
    ensures
        after.peers == before.peers,
        ({
            let shown = values_in(after.history);
            let n = values_in(before.history).len();
            &&& shown.len() == n + items.len()
            &&& shown.take(n as int) == values_in(before.history)
            &&& forall|i: int|
                0 <= i < items.len() ==> shows(#[trigger] shown[n + i], items[i], timestamp)
        }),
    decreases items.len(),
{
    let n = values_in(before.history).len();
    if items.len() == 0 {
        assert(values_in(before.history).take(n as int) =~= values_in(before.history));
    } else {
        let rest = items.drop_last();
        let (middle, c) = choose|middle: NetEmission, c: i32|
            {
                &&& stats_emitted(before, limit, scope, protocol, rest, timestamp, middle, c)
                &&& #[trigger] crate::bpf::nettrack::next_emitted(
                    middle,
                    c,
                    limit,
                    scope,
                    protocol,
                    items.last(),
                    timestamp,
                    after,
                    0,
                )
            };
        law_samples_are_sent_in_order(before, limit, scope, protocol, rest, timestamp, middle);
        law_sample_stands_in_its_scope(
            middle,
            limit,
            scope,
            protocol,
            items.last(),
            timestamp,
            after,
        );
        let shown = values_in(after.history);
        let part = values_in(middle.history);
        assert(shown.take(n as int) =~= part.take(n as int));
        assert forall|i: int| 0 <= i < items.len() implies shows(
            #[trigger] shown[n + i],
            items[i],
            timestamp,
        ) by {
            if i < rest.len() {
                assert(shown[n + i] == shown.drop_last()[n + i]);
                assert(shows(part[n + i], rest[i], timestamp));
            } else {
                assert(shown[n + i] == shown.last());
            }
        }
    }
}

/// What a process had at a sample is what its next growth is measured from, and what is
/// sent of it is its growth since the last.
pub proof fn law_process_is_measured_from_its_last_sample(
    config: &NetTrackConfig,
    key: ProcessKey,
    current: StatsValue,
    elapsed: u64,
    now: u64,
    before: NetState,
    after: NetState,
    stopped: bool,
)
    requires
        process_sampled(config, (key, current), elapsed, now, before, after, stopped),
        key.protocol < 2,
    ensures
        after.processes == before.processes.insert(key, current),
        after.tcp == before.tcp && after.udp == before.udp && after.peers == before.peers,
        !stopped && config.metrics@.contains(NetMetric::Bytes) && before.processes.contains_key(key)
            && before.processes[key].first_seen_ns == current.first_seen_ns
            && before.processes[key].recv_bytes <= current.recv_bytes && !config.scaled ==> {
            let n = values_in(before.emission.history).len() as int;
            values_in(after.emission.history)[n + 1].value == (Reading::Count {
                n: (current.recv_bytes - before.processes[key].recv_bytes) as u64,
            })
        },
        !stopped && config.metrics@.contains(NetMetric::Bytes) && before.processes.contains_key(key)
            && before.processes[key].first_seen_ns == current.first_seen_ns
            && before.processes[key].send_bytes <= current.send_bytes && !config.scaled ==> {
            let n = values_in(before.emission.history).len() as int;
            values_in(after.emission.history)[n].value == (Reading::Count {
                n: (current.send_bytes - before.processes[key].send_bytes) as u64,
            })
        },
{
    let protocol = if key.protocol == 0 {
        NetProtocol::Tcp
    } else {
        NetProtocol::Udp
    };
    let last = crate::bpf::nettrack::held(before.processes, key);
    let growth = current.since(last);
    let list = sample_list(config, protocol, growth, elapsed);
    law_protocol_samples(config, protocol, growth, elapsed);
    if !stopped && config.metrics@.contains(NetMetric::Bytes) && before.processes.contains_key(
        key,
    ) {
        law_every_growth_adds_up(current, before.processes[key]);
        assert(makes_up(
            counters_of(before.processes[key])[0],
            counters_of(growth)[0],
            counters_of(current)[0],
        ) || before.processes[key].first_seen_ns != current.first_seen_ns);
        assert(makes_up(
            counters_of(before.processes[key])[1],
            counters_of(growth)[1],
            counters_of(current)[1],
        ) || before.processes[key].first_seen_ns != current.first_seen_ns);
        law_samples_are_sent_in_order(
            before.emission,
            config.max_peer_tracks,
            ScopeKey::Process(key.tgid),
            protocol,
            list,
            now,
            after.emission,
        );
        let n = values_in(before.emission.history).len();
        let shown = values_in(after.emission.history);
        assert(shows(shown[n as int + 0], list[0], now));
        assert(shows(shown[n as int + 1], list[1], now));
        assert(tells_of_protocol(list[0], protocol, growth, config.scaled, elapsed));
        assert(tells_of_protocol(list[1], protocol, growth, config.scaled, elapsed));
    }
}

/// What a peer had at a sample is what its next growth is measured from.
pub proof fn law_peer_is_remembered(
    config: &NetTrackConfig,
    key: PeerKey,
    current: StatsValue,
    elapsed: u64,
    now: u64,
    before: NetState,
    after: NetState,
    stopped: bool,
)
    requires
        peer_sampled(config, (key, current), elapsed, now, before, after, stopped),
        key.protocol < 2,
    ensures
        after.peers == before.peers.insert(key, current),
        after.tcp == before.tcp && after.udp == before.udp && after.processes == before.processes,
{
}

/// Whether counters have grown by so much: since they were read last, or from zero if
/// they never were or were set up anew.
pub open spec fn grown_by(
    previous: Option<StatsValue>,
    growth: StatsValue,
    current: StatsValue,
) -> bool {
    match previous {
        Some(p) if p.first_seen_ns == current.first_seen_ns => forall|c: int|
            0 <= c < 10 ==> makes_up(
                counters_of(p)[c],
                #[trigger] counters_of(growth)[c],
                counters_of(current)[c],
            ),
        _ => forall|c: int|
            0 <= c < 10 ==> #[trigger] counters_of(growth)[c] == counters_of(current)[c],
    }
}

/// What a map holds for a key.
pub open spec fn in_map<K, V>(map: Map<K, V>, key: K) -> Option<V> {
    if map.contains_key(key) {
        Some(map[key])
    } else {
        None
    }
}

/// Whether what was sent shows the growth of counters of a protocol, by its samples in
/// their order.
pub open spec fn growth_is_shown(
    config: &NetTrackConfig,
    protocol: u8,
    growth: StatsValue,
    elapsed: u64,
    now: u64,
    before: NetEmission,
    after: NetEmission,
) -> bool {
    let items = sample_list(
        config,
        if protocol == 0 {
            NetProtocol::Tcp
        } else {
            NetProtocol::Udp
        },
        growth,
        elapsed,
    );
    let shown = values_in(after.history);
    let n = values_in(before.history).len();
    &&& shown.len() == n + items.len()
    &&& shown.take(n as int) == values_in(before.history)
    &&& forall|i: int| 0 <= i < items.len() ==> shows(#[trigger] shown[n + i], items[i], now)
}

/// What is sent of a process, if it is taken, is its growth since its last sample.
pub proof fn law_growth_of_a_process_is_shown(
    config: &NetTrackConfig,
    key: ProcessKey,
    current: StatsValue,
    elapsed: u64,
    now: u64,
    before: NetState,
    after: NetState,
)
    requires
        process_sampled(config, (key, current), elapsed, now, before, after, false),
        key.protocol < 2,
    ensures
        exists|growth: StatsValue|
            {
                &&& #[trigger] grown_by(in_map(before.processes, key), growth, current)
                &&& growth_is_shown(
                    config,
                    key.protocol,
                    growth,
                    elapsed,
                    now,
                    before.emission,
                    after.emission,
                )
            },
{
    let protocol = if key.protocol == 0 {
        NetProtocol::Tcp
    } else {
        NetProtocol::Udp
    };
    let last = in_map(before.processes, key);
    let growth = current.since(last);
    if last is Some {
        law_every_growth_adds_up(current, last->0);
    } else {
        law_every_growth_adds_up(current, current);
    }
    assert(grown_by(last, growth, current));
    law_samples_are_sent_in_order(
        before.emission,
        config.max_peer_tracks,
        ScopeKey::Process(key.tgid),
        protocol,
        sample_list(config, protocol, growth, elapsed),
        now,
        after.emission,
    );
}

/// What is sent of a peer with a track, if it is taken, is its growth since its last
/// sample.
pub proof fn law_growth_of_a_peer_is_shown(
    config: &NetTrackConfig,
    key: PeerKey,
    current: StatsValue,
    elapsed: u64,
    now: u64,
    before: NetState,
    after: NetState,
)
    requires
        peer_sampled(config, (key, current), elapsed, now, before, after, false),
        key.protocol < 2,
        before.emission.peers.contains_key(key),
    ensures
        exists|growth: StatsValue|
            {
                &&& #[trigger] grown_by(in_map(before.peers, key), growth, current)
                &&& growth_is_shown(
                    config,
                    key.protocol,
                    growth,
                    elapsed,
                    now,
                    before.emission,
                    after.emission,
                )
            },
{
    let protocol = if key.protocol == 0 {
        NetProtocol::Tcp
    } else {
        NetProtocol::Udp
    };
    let last = in_map(before.peers, key);
    let growth = current.since(last);
    if last is Some {
        law_every_growth_adds_up(current, last->0);
    } else {
        law_every_growth_adds_up(current, current);
    }
    assert(grown_by(last, growth, current));
    law_samples_are_sent_in_order(
        before.emission,
        config.max_peer_tracks,
        ScopeKey::Peer(key),
        protocol,
        sample_list(config, protocol, growth, elapsed),
        now,
        after.emission,
    );
}

/// Sending a sample adds to what was submitted, and a refusal shows there.
proof fn lemma_series_emitted(
    before: NetEmission,
    key: SeriesKey,
    item: CounterSampleView,
    parent: Option<TrackTypeView>,
    timestamp: u64,
    after: NetEmission,
    code: i32,
)
    requires
        series_emitted(before, key, item, parent, timestamp, after, code),
    ensures
        goes_on(before.history, after.history),
        code != 0 ==> !all_taken(before.history, after.history),
{
    let n = before.history.len() as int;
    let id = choose|id: u64|
        {
            &&& before.series.contains_key(key) ==> id == before.series[key]
            &&& id_emitted(
                #[trigger] series_named(before, key, id),
                item,
                id,
                parent,
                timestamp,
                after,
                code,
            )
        };
    let named = series_named(before, key, id);
    if named.announced.contains(id) {
        assert(after.history.take(n) =~= before.history);
        assert(after.history[n].1 == code);
    } else {
        let c = choose|c: i32|
            {
                let known = #[trigger] series_announced(named, item, id, parent, c);
                if c != 0 {
                    after == known && code == c
                } else {
                    after == value_sent(known, item, id, timestamp, code)
                }
            };
        assert(after.history.take(n) =~= before.history);
        if c != 0 {
            assert(after.history[n].1 == c);
        } else {
            assert(after.history[n + 1].1 == code);
        }
    }
}

proof fn lemma_host_samples(
    before: NetEmission,
    limit: usize,
    protocol: NetProtocol,
    items: Seq<CounterSampleView>,
    timestamp: u64,
    after: NetEmission,
    code: i32,
)
    requires
        stats_emitted(before, limit, ScopeKey::Host, protocol, items, timestamp, after, code),
    ensures
        goes_on(before.history, after.history),
        code != 0 ==> !all_taken(before.history, after.history),
    decreases items.len(),
{
    if items.len() == 0 {
        assert(before.history.take(before.history.len() as int) =~= before.history);
    } else {
        let rest = items.drop_last();
        let (middle, c) = choose|middle: NetEmission, c: i32|
            {
                &&& stats_emitted(
                    before,
                    limit,
                    ScopeKey::Host,
                    protocol,
                    rest,
                    timestamp,
                    middle,
                    c,
                )
                &&& #[trigger] crate::bpf::nettrack::next_emitted(
                    middle,
                    c,
                    limit,
                    ScopeKey::Host,
                    protocol,
                    items.last(),
                    timestamp,
                    after,
                    code,
                )
            };
        lemma_host_samples(before, limit, protocol, rest, timestamp, middle, c);
        if c == 0 {
            let key = SeriesKey { scope: ScopeKey::Host, protocol, kind: items.last().kind };
            lemma_series_emitted(middle, key, items.last(), None, timestamp, after, code);
            lemma_goes_on(before.history, middle.history, after.history);
        }
    }
}

/// Whether what was submitted since shows exactly these samples, in their order.
pub open spec fn items_are_shown(
    before: NetEmission,
    items: Seq<CounterSampleView>,
    timestamp: u64,
    after: NetEmission,
) -> bool {
    let shown = values_in(after.history);
    let n = values_in(before.history).len();
    &&& shown.len() == n + items.len()
    &&& shown.take(n as int) == values_in(before.history)
    &&& forall|i: int| 0 <= i < items.len() ==> shows(#[trigger] shown[n + i], items[i], timestamp)
}

proof fn lemma_shown_together(
    a: NetEmission,
    first: Seq<CounterSampleView>,
    b: NetEmission,
    second: Seq<CounterSampleView>,
    timestamp: u64,
    c: NetEmission,
)
    requires
        items_are_shown(a, first, timestamp, b),
        items_are_shown(b, second, timestamp, c),
    ensures
        items_are_shown(a, first + second, timestamp, c),
{
    let n = values_in(a.history).len();
    let m = values_in(b.history).len();
    let part = values_in(b.history);
    let shown = values_in(c.history);
    let all = first + second;
    assert forall|i: int| 0 <= i < m implies #[trigger] shown[i] == part[i] by {
        assert(shown.take(m as int)[i] == shown[i]);
    }
    assert(shown.take(n as int) =~= part.take(n as int));
    assert forall|i: int| 0 <= i < all.len() implies shows(
        #[trigger] shown[n + i],
        all[i],
        timestamp,
    ) by {
        if i < first.len() {
            assert(shown[n + i] == part[n + i]);
        } else {
            assert(shows(shown[m + (i - first.len())], second[i - first.len()], timestamp));
        }
    }
}

/// Whether counters are the sums of two others.
pub open spec fn adds_up(total: StatsValue, one: StatsValue, two: StatsValue) -> bool {
    forall|c: int|
        0 <= c < 10 ==> is_sum(
            #[trigger] counters_of(total)[c],
            counters_of(one)[c] + counters_of(two)[c],
        )
}

/// Whether what was submitted for the host shows how far both protocols have grown, and
/// what that makes up.
pub open spec fn host_is_shown(
    config: &NetTrackConfig,
    one: StatsValue,
    two: StatsValue,
    total: StatsValue,
    elapsed: u64,
    now: u64,
    before: NetEmission,
    after: NetEmission,
) -> bool {
    &&& adds_up(total, one, two)
    &&& items_are_shown(
        before,
        sample_list(config, NetProtocol::Tcp, one, elapsed) + sample_list(
            config,
            NetProtocol::Udp,
            two,
            elapsed,
        ) + total_list(config, total, elapsed),
        now,
        after,
    )
}

/// What is sent of the host, if all of it is taken, is how far each protocol has grown
/// since the last sample, the first before the second, and then what that makes up.
pub proof fn law_growth_of_the_host_is_shown(
    config: &NetTrackConfig,
    tcp: StatsValue,
    udp: StatsValue,
    elapsed: u64,
    now: u64,
    before: NetState,
    after: NetState,
)
    requires
        config.protocols@.contains(NetProtocol::Tcp),
        config.protocols@.contains(NetProtocol::Udp),
        host_sampled(
            config,
            Ok::<StatsValue, BpfError>(tcp),
            Ok::<StatsValue, BpfError>(udp),
            elapsed,
            now,
            before,
            after,
            None,
        ),
        all_taken(before.emission.history, after.emission.history),
    ensures
        after.tcp == tcp && after.udp == udp,
        exists|one: StatsValue, two: StatsValue, total: StatsValue|
            {
                &&& grown_by(Some(before.tcp), one, tcp)
                &&& grown_by(Some(before.udp), two, udp)
                &&& #[trigger] host_is_shown(
                    config,
                    one,
                    two,
                    total,
                    elapsed,
                    now,
                    before.emission,
                    after.emission,
                )
            },
{
    let limit = config.max_peer_tracks;
    let one = tcp.since(Some(before.tcp));
    let two = udp.since(Some(before.udp));
    law_every_growth_adds_up(tcp, before.tcp);
    law_every_growth_adds_up(udp, before.udp);
    assert(grown_by(Some(before.tcp), one, tcp));
    assert(grown_by(Some(before.udp), two, udp));
    let first_items = sample_list(config, NetProtocol::Tcp, one, elapsed);
    let second_items = sample_list(config, NetProtocol::Udp, two, elapsed);
    let (first, c, f) = choose|first: (NetState, StatsValue), c: i32, f: bool|
        {
            &&& #[trigger] protocol_sampled(
                config,
                NetProtocol::Tcp,
                Ok::<StatsValue, BpfError>(tcp),
                elapsed,
                now,
                (before, no_stats()),
                first,
                c,
                f,
            )
            &&& if f {
                after == first.0 && None::<NetProtocol> == Some(NetProtocol::Tcp)
            } else if c != 0 {
                totals_sampled(config, elapsed, now, first, after)
            } else {
                udp_sampled(
                    config,
                    Ok::<StatsValue, BpfError>(udp),
                    elapsed,
                    now,
                    first,
                    after,
                    None,
                )
            }
        };
    let a = before.emission;
    let b = first.0.emission;
    lemma_host_samples(a, limit, NetProtocol::Tcp, first_items, now, b, c);
    if c != 0 {
        let items = total_list(config, first.1, elapsed);
        let code = choose|code: i32|
            #[trigger] stats_emitted(
                b,
                limit,
                ScopeKey::Host,
                NetProtocol::Tcp,
                items,
                now,
                after.emission,
                code,
            );
        lemma_host_samples(b, limit, NetProtocol::Tcp, items, now, after.emission, code);
        lemma_goes_on(a.history, b.history, after.emission.history);
    } else {
        let (second, d, g) = choose|second: (NetState, StatsValue), d: i32, g: bool|
            {
                &&& #[trigger] protocol_sampled(
                    config,
                    NetProtocol::Udp,
                    Ok::<StatsValue, BpfError>(udp),
                    elapsed,
                    now,
                    first,
                    second,
                    d,
                    g,
                )
                &&& if g {
                    after == second.0 && None::<NetProtocol> == Some(NetProtocol::Udp)
                } else {
                    totals_sampled(config, elapsed, now, second, after)
                }
            };
        let m = second.0.emission;
        let total = second.1;
        let items = total_list(config, total, elapsed);
        let code = choose|code: i32|
            #[trigger] stats_emitted(
                m,
                limit,
                ScopeKey::Host,
                NetProtocol::Tcp,
                items,
                now,
                after.emission,
                code,
            );
        lemma_host_samples(b, limit, NetProtocol::Udp, second_items, now, m, d);
        lemma_host_samples(m, limit, NetProtocol::Tcp, items, now, after.emission, code);
        lemma_goes_on(b.history, m.history, after.emission.history);
        lemma_goes_on(a.history, b.history, after.emission.history);
        law_samples_are_sent_in_order(
            a,
            limit,
            ScopeKey::Host,
            NetProtocol::Tcp,
            first_items,
            now,
            b,
        );
        law_samples_are_sent_in_order(
            b,
            limit,
            ScopeKey::Host,
            NetProtocol::Udp,
            second_items,
            now,
            m,
        );
        law_samples_are_sent_in_order(
            m,
            limit,
            ScopeKey::Host,
            NetProtocol::Tcp,
            items,
            now,
            after.emission,
        );
        lemma_shown_together(a, first_items, b, second_items, now, m);
        lemma_shown_together(a, first_items + second_items, m, items, now, after.emission);
        law_records_add_up(no_stats(), one);
        law_records_add_up(first.1, two);
        assert(first.1 == no_stats().plus(one));
        assert(total == first.1.plus(two));
        assert(adds_up(total, one, two));
        assert(host_is_shown(config, one, two, total, elapsed, now, a, after.emission));
    }
}

/// Every process of a protocol that is known is remembered as it was read, unless
/// something was refused; nothing is remembered of another process anew.
pub proof fn law_processes_are_remembered(
    config: &NetTrackConfig,
    list: Seq<(ProcessKey, StatsValue)>,
    elapsed: u64,
    now: u64,
    before: NetState,
    after: NetState,
    i: int,
    other: ProcessKey,
)
    requires
        processes_sampled(config, list, elapsed, now, before, after, false),
        0 <= i < list.len(),
        list[i].0.protocol < 2,
        forall|j: int| i < j < list.len() ==> (#[trigger] list[j]).0 != list[i].0,
        forall|j: int| 0 <= j < list.len() ==> (#[trigger] list[j]).0 != other,
    ensures
        after.processes.contains_key(list[i].0) && after.processes[list[i].0] == list[i].1,
        in_map(after.processes, other) == in_map(before.processes, other),
        after.tcp == before.tcp && after.udp == before.udp && after.peers == before.peers,
    decreases list.len(),
{
    let rest = list.drop_last();
    let (middle, s) = choose|middle: NetState, s: bool|
        {
            &&& processes_sampled(config, rest, elapsed, now, before, middle, s)
            &&& #[trigger] next_process_sampled(
                config,
                list.last(),
                elapsed,
                now,
                middle,
                s,
                after,
                false,
            )
        };
    assert(list[list.len() - 1].0 != other);
    assert forall|j: int| 0 <= j < rest.len() implies (#[trigger] rest[j]).0 != other by {
        assert(rest[j] == list[j]);
    }
    if i < rest.len() {
        assert(list[list.len() - 1].0 != list[i].0);
        assert forall|j: int| i < j < rest.len() implies (#[trigger] rest[j]).0 != rest[i].0 by {
            assert(rest[j] == list[j]);
        }
        law_processes_are_remembered(config, rest, elapsed, now, before, middle, i, other);
    } else {
        lemma_others_are_kept(config, rest, elapsed, now, before, middle, other);
    }
}

proof fn lemma_others_are_kept(
    config: &NetTrackConfig,
    list: Seq<(ProcessKey, StatsValue)>,
    elapsed: u64,
    now: u64,
    before: NetState,
    after: NetState,
    other: ProcessKey,
)
    requires
        processes_sampled(config, list, elapsed, now, before, after, false),
        forall|j: int| 0 <= j < list.len() ==> (#[trigger] list[j]).0 != other,
    ensures
        in_map(after.processes, other) == in_map(before.processes, other),
        after.tcp == before.tcp && after.udp == before.udp && after.peers == before.peers,
    decreases list.len(),
{
    if list.len() > 0 {
        let rest = list.drop_last();
        let (middle, s) = choose|middle: NetState, s: bool|
            {
                &&& processes_sampled(config, rest, elapsed, now, before, middle, s)
                &&& #[trigger] next_process_sampled(
                    config,
                    list.last(),
                    elapsed,
                    now,
                    middle,
                    s,
                    after,
                    false,
                )
            };
        assert(list[list.len() - 1].0 != other);
        assert forall|j: int| 0 <= j < rest.len() implies (#[trigger] rest[j]).0 != other by {
            assert(rest[j] == list[j]);
        }
        lemma_others_are_kept(config, rest, elapsed, now, before, middle, other);
    }
}

/// Every peer of a protocol that is known is remembered as it was read, unless
/// something was refused; nothing is remembered of another peer anew.
pub proof fn law_peers_are_remembered(
    config: &NetTrackConfig,
    list: Seq<(PeerKey, StatsValue)>,
    elapsed: u64,
    now: u64,
    before: NetState,
    after: NetState,
    i: int,
    other: PeerKey,
)
    requires
        peers_sampled(config, list, elapsed, now, before, after, false),
        0 <= i < list.len(),
        list[i].0.protocol < 2,
        forall|j: int| i < j < list.len() ==> (#[trigger] list[j]).0 != list[i].0,
        forall|j: int| 0 <= j < list.len() ==> (#[trigger] list[j]).0 != other,
    ensures
        after.peers.contains_key(list[i].0) && after.peers[list[i].0] == list[i].1,
        in_map(after.peers, other) == in_map(before.peers, other),
        after.tcp == before.tcp && after.udp == before.udp && after.processes == before.processes,
    decreases list.len(),
{
    let rest = list.drop_last();
    let (middle, s) = choose|middle: NetState, s: bool|
        {
            &&& peers_sampled(config, rest, elapsed, now, before, middle, s)
            &&& #[trigger] next_peer_sampled(
                config,
                list.last(),
                elapsed,
                now,
                middle,
                s,
                after,
                false,
            )
        };
    assert(list[list.len() - 1].0 != other);
    assert forall|j: int| 0 <= j < rest.len() implies (#[trigger] rest[j]).0 != other by {
        assert(rest[j] == list[j]);
    }
    if i < rest.len() {
        assert(list[list.len() - 1].0 != list[i].0);
        assert forall|j: int| i < j < rest.len() implies (#[trigger] rest[j]).0 != rest[i].0 by {
            assert(rest[j] == list[j]);
        }
        law_peers_are_remembered(config, rest, elapsed, now, before, middle, i, other);
    } else {
        lemma_other_peers_are_kept(config, rest, elapsed, now, before, middle, other);
    }
}

proof fn lemma_other_peers_are_kept(
    config: &NetTrackConfig,
    list: Seq<(PeerKey, StatsValue)>,
    elapsed: u64,
    now: u64,
    before: NetState,
    after: NetState,
    other: PeerKey,
)
    requires
        peers_sampled(config, list, elapsed, now, before, after, false),
        forall|j: int| 0 <= j < list.len() ==> (#[trigger] list[j]).0 != other,
    ensures
        in_map(after.peers, other) == in_map(before.peers, other),
        after.tcp == before.tcp && after.udp == before.udp && after.processes == before.processes,
    decreases list.len(),
{
    if list.len() > 0 {
        let rest = list.drop_last();
        let (middle, s) = choose|middle: NetState, s: bool|
            {
                &&& peers_sampled(config, rest, elapsed, now, before, middle, s)
                &&& #[trigger] next_peer_sampled(
                    config,
                    list.last(),
                    elapsed,
                    now,
                    middle,
                    s,
                    after,
                    false,
                )
            };
        assert(list[list.len() - 1].0 != other);
        assert forall|j: int| 0 <= j < rest.len() implies (#[trigger] rest[j]).0 != other by {
            assert(rest[j] == list[j]);
        }
        lemma_other_peers_are_kept(config, rest, elapsed, now, before, middle, other);
    }
}

/// An error of the host is that of a reading; the first one, if it is asked for and has
/// failed, is handed on and leaves everything as it was. Two that succeeded do not fail.
pub proof fn law_failed_readings_are_handed_on(
    config: &NetTrackConfig,
    tcp: Result<StatsValue, BpfError>,
    udp: Result<StatsValue, BpfError>,
    elapsed: u64,
    now: u64,
    before: NetState,
    after: NetState,
    r: Result<(), BpfError>,
)
    requires
        host_outcome(config, tcp, udp, elapsed, now, before, after, r),
    ensures
        config.protocols@.contains(NetProtocol::Tcp) && tcp is Err ==> {
            &&& r is Err
            &&& tcp == Err::<StatsValue, BpfError>(r->Err_0)
            &&& after == before
        },
        tcp is Ok && udp is Ok ==> r is Ok,
        r is Err ==> tcp == Err::<StatsValue, BpfError>(r->Err_0) || udp == Err::<
            StatsValue,
            BpfError,
        >(r->Err_0),
        r is Ok && config.protocols@.contains(NetProtocol::Tcp) ==> tcp is Ok && after.tcp
            == tcp->Ok_0,
        after.processes == before.processes && after.peers == before.peers,
{
}

/// Nothing is sampled before its time, and what is sampled is sampled from then on; there
/// is no error unless a reading failed.
pub proof fn law_times_of_samples(
    before: &NetTrack,
    old_history: Seq<(MessageView, i32)>,
    now: u64,
    force: bool,
    readings: NetReadings,
    after: &NetTrack,
    history: Seq<(MessageView, i32)>,
    r: Result<(), BpfError>,
)
    requires
        samples_taken(before, old_history, now, force, readings, after, history, r),
    ensures
        ({
            let config = before.spec_config();
            let due = is_due(config.frequency, before.last_sample(), now, force);
            let peers = config.scopes@.contains(NetScope::Peer);
            let peers_due = peers && is_due(
                config.peer_frequency,
                before.last_peer_sample(),
                now,
                force,
            );
            &&& !due && !peers_due ==> after.state(history) == before.state(old_history) && r is Ok
            &&& due && r is Ok ==> after.last_sample() == now
            &&& !due ==> after.last_sample() == before.last_sample()
            &&& after.last_sample() == now || after.last_sample() == before.last_sample()
            &&& peers_due && r is Ok ==> after.last_peer_sample() == now
            &&& !peers_due || r is Err ==> after.last_peer_sample() == before.last_peer_sample()
            &&& after.spec_config() == config
            &&& !config.scopes@.contains(NetScope::Process) ==> after.state(history).processes
                == before.state(old_history).processes
            &&& !config.scopes@.contains(NetScope::Host) ==> after.state(history).tcp
                == before.state(old_history).tcp && after.state(history).udp == before.state(
                old_history,
            ).udp
            &&& !peers_due ==> after.state(history).peers == before.state(old_history).peers
            &&& peers_due && readings.peers is Err ==> r is Err
            &&& readings.tcp is Ok && readings.udp is Ok && readings.processes is Ok
                && readings.peers is Ok ==> r is Ok
        }),
{
    let config = before.spec_config();
    let due = is_due(config.frequency, before.last_sample(), now, force);
    let elapsed = elapsed_since(before.last_sample(), now);
    let (middle, first) = choose|middle: NetState, first: Result<(), BpfError>|
        {
            &&& #[trigger] first_sampled(
                &config,
                readings,
                due,
                elapsed,
                now,
                before.state(old_history),
                middle,
                first,
            )
            &&& after.last_sample() == (if due && first is Ok {
                now
            } else {
                before.last_sample()
            })
            &&& then_sampled(
                &config,
                readings,
                config.looks_at(NetScope::Peer) && is_due(
                    config.peer_frequency,
                    before.last_peer_sample(),
                    now,
                    force,
                ),
                elapsed_since(before.last_peer_sample(), now),
                now,
                middle,
                first,
                after.state(history),
                r,
            )
        };
    if due {
        let (half, stopped) = choose|half: NetState, stopped: bool|
            #[trigger] both_sampled(
                &config,
                readings.tcp,
                readings.udp,
                readings.processes,
                elapsed,
                now,
                before.state(old_history),
                half,
                middle,
                stopped,
                first,
            );
        if config.looks_at(NetScope::Process) && readings.processes is Ok {
            let list = readings.processes->Ok_0@;
            if processes_sampled(&config, list, elapsed, now, half, middle, stopped) {
                lemma_processes_keep_the_rest(&config, list, elapsed, now, half, middle, stopped);
            }
        }
    }
    if readings.peers is Ok {
        let list = readings.peers->Ok_0@;
        let peers_elapsed = elapsed_since(before.last_peer_sample(), now);
        assert forall|stopped: bool| #[trigger]
            peers_sampled(
                &config,
                list,
                peers_elapsed,
                now,
                middle,
                after.state(history),
                stopped,
            ) implies after.state(history).processes == middle.processes && after.state(
            history,
        ).tcp == middle.tcp && after.state(history).udp == middle.udp by {
            lemma_peers_keep_the_rest(
                &config,
                list,
                peers_elapsed,
                now,
                middle,
                after.state(history),
                stopped,
            );
        }
    }
}

proof fn lemma_processes_keep_the_rest(
    config: &NetTrackConfig,
    list: Seq<(ProcessKey, StatsValue)>,
    elapsed: u64,
    now: u64,
    before: NetState,
    after: NetState,
    stopped: bool,
)
    requires
        processes_sampled(config, list, elapsed, now, before, after, stopped),
    ensures
        after.tcp == before.tcp && after.udp == before.udp && after.peers == before.peers,
    decreases list.len(),
{
    if list.len() > 0 {
        let rest = list.drop_last();
        let (middle, s) = choose|middle: NetState, s: bool|
            {
                &&& processes_sampled(config, rest, elapsed, now, before, middle, s)
                &&& #[trigger] next_process_sampled(
                    config,
                    list.last(),
                    elapsed,
                    now,
                    middle,
                    s,
                    after,
                    stopped,
                )
            };
        lemma_processes_keep_the_rest(config, rest, elapsed, now, before, middle, s);
    }
}

proof fn lemma_peers_keep_the_rest(
    config: &NetTrackConfig,
    list: Seq<(PeerKey, StatsValue)>,
    elapsed: u64,
    now: u64,
    before: NetState,
    after: NetState,
    stopped: bool,
)
    requires
        peers_sampled(config, list, elapsed, now, before, after, stopped),
    ensures
        after.tcp == before.tcp && after.udp == before.udp && after.processes == before.processes,
    decreases list.len(),
{
    if list.len() > 0 {
        let rest = list.drop_last();
        let (middle, s) = choose|middle: NetState, s: bool|
            {
                &&& peers_sampled(config, rest, elapsed, now, before, middle, s)
                &&& #[trigger] next_peer_sampled(
                    config,
                    list.last(),
                    elapsed,
                    now,
                    middle,
                    s,
                    after,
                    stopped,
                )
            };
        lemma_peers_keep_the_rest(config, rest, elapsed, now, before, middle, s);
    }
}

/// The first protocol is TCP, the second UDP, and there is no other.
pub proof fn law_protocols(index: u8)
    ensures
        index == 0 ==> crate::bpf::nettrack::protocol_of(index) == Some(NetProtocol::Tcp),
        index == 1 ==> crate::bpf::nettrack::protocol_of(index) == Some(NetProtocol::Udp),
        index > 1 ==> crate::bpf::nettrack::protocol_of(index) is None,
{
}

/// A sample is due once so much time has passed that, taken at this pace, there are at
/// least as many in a second as were asked for; a forced one is always due.
pub proof fn law_samples_come_at_their_frequency(frequency: u64, last: u64, now: u64, force: bool)
    requires
        frequency > 0,
        last <= now,
    ensures
        force ==> is_due(frequency, last, now, force),
        !force ==> (is_due(frequency, last, now, force) <==> (now - last + 1) * frequency
            > 1_000_000_000),
        elapsed_since(last, now) >= 1,
        now > last ==> elapsed_since(last, now) == now - last,
{
    let interval = 1_000_000_000u64 / frequency;
    let passed = now - last;
    vstd::arithmetic::div_mod::lemma_fundamental_div_mod(1_000_000_000, frequency as int);
    vstd::arithmetic::div_mod::lemma_mod_bound(1_000_000_000, frequency as int);
    if passed >= interval {
        assert((passed + 1) * frequency > 1_000_000_000) by (nonlinear_arith)
            requires
                passed >= interval,
                1_000_000_000int == frequency * interval + 1_000_000_000int % (frequency as int),
                1_000_000_000int % (frequency as int) < frequency,
                frequency > 0,
        ;
    } else {
        assert((passed + 1) * frequency <= 1_000_000_000) by (nonlinear_arith)
            requires
                passed + 1 <= interval,
                1_000_000_000int == frequency * interval + 1_000_000_000int % (frequency as int),
                0 <= 1_000_000_000int % (frequency as int),
                frequency > 0,
        ;
    }
}

/// A program is loaded exactly where its protocol and its direction are both asked for,
/// and everything that is asked for is counted.
pub proof fn law_plan_follows_the_configuration(config: &NetTrackConfig)
    ensures
        ({
            let plan = planned(config);
            let tcp = config.protocols@.contains(NetProtocol::Tcp);
            let udp = config.protocols@.contains(NetProtocol::Udp);
            let send = config.directions@.contains(NetDirection::Send);
            let receive = config.directions@.contains(NetDirection::Receive);
            &&& plan.load_tcp_sendmsg <==> tcp && send
            &&& plan.load_tcp_recvmsg <==> tcp && receive
            &&& plan.load_udp_sendmsg <==> udp && send
            &&& plan.load_udp_recvmsg <==> udp && receive
            &&& plan.tcp_enabled <==> tcp
            &&& plan.udp_enabled <==> udp
            &&& plan.send_enabled <==> send
            &&& plan.receive_enabled <==> receive
            &&& plan.host_enabled <==> config.scopes@.contains(NetScope::Host)
            &&& plan.process_enabled <==> config.scopes@.contains(NetScope::Process)
            &&& plan.peer_enabled <==> config.scopes@.contains(NetScope::Peer)
            &&& plan.bytes_enabled <==> config.metrics@.contains(NetMetric::Bytes)
            &&& plan.operations_enabled <==> config.metrics@.contains(NetMetric::Operations)
            &&& plan.errors_enabled <==> config.metrics@.contains(NetMetric::Errors)
            &&& plan.filter_enabled <==> config.pid_filters@.len() + config.filter_process@.len()
                > 0
            &&& plan.process_enabled ==> plan.process_entries == config.max_process_entries
            &&& plan.peer_enabled ==> plan.peer_entries == config.max_peer_entries
            &&& !plan.process_enabled ==> plan.process_entries == 1
            &&& !plan.peer_enabled ==> plan.peer_entries == 1
        }),
{
}

/// A configuration is taken exactly when it asks for something, at some frequency, and
/// leaves room for what it asks for.
pub proof fn law_valid_configurations(config: &NetTrackConfig)
    ensures
        config.problem() is None <==> {
            &&& config.frequency > 0
            &&& config.protocols@.len() > 0 && config.directions@.len() > 0
            &&& config.scopes@.len() > 0 && config.metrics@.len() > 0
            &&& config.scopes@.contains(NetScope::Process) ==> config.max_process_entries > 0
            &&& config.scopes@.contains(NetScope::Peer) ==> {
                &&& config.peer_frequency > 0
                &&& config.max_peer_entries > 0
                &&& config.max_peer_tracks > 0
            }
        },
{
}

/// A peer whose track is refused has none, and is announced again the next time; a series
/// whose announcement is refused keeps its id and counts as announced, and its value is not
/// sent.
pub proof fn law_refusals(
    before: NetEmission,
    limit: usize,
    peer: PeerKey,
    after: NetEmission,
    key: SeriesKey,
    item: CounterSampleView,
    parent: Option<TrackTypeView>,
    timestamp: u64,
    known: NetEmission,
    code: i32,
)
    requires
        code != 0,
        peer_ensured(before, limit, peer, after, None),
        series_emitted(before, key, item, parent, timestamp, known, code),
    ensures
        after.peers == before.peers && !after.peers.contains_key(peer),
        after.series == before.series && after.announced == before.announced,
        before.peers.dom().len() >= limit ==> after.history == before.history,
        before.peers.dom().len() < limit ==> after.history.len() == before.history.len() + 1
            && after.history.last().1 != 0,
        known.series.contains_key(key),
        before.series.contains_key(key) ==> known.series == before.series,
        known.announced.contains(known.series[key]),
        known.peers == before.peers,
        known.history.last().1 == code,
        before.history.len() < known.history.len() <= before.history.len() + 2,
        !before.announced.contains(known.series[key]) && known.history.len()
            == before.history.len() + 1 ==> values_in(known.history) == values_in(before.history),
{
    let id = choose|id: u64|
        {
            &&& before.series.contains_key(key) ==> id == before.series[key]
            &&& id_emitted(
                #[trigger] series_named(before, key, id),
                item,
                id,
                parent,
                timestamp,
                known,
                code,
            )
        };
    let named = series_named(before, key, id);
    assert(before.series.contains_key(key) ==> named.series =~= before.series);
    if !named.announced.contains(id) {
        let c = choose|c: i32|
            {
                let told = #[trigger] series_announced(named, item, id, parent, c);
                if c != 0 {
                    known == told && code == c
                } else {
                    known == value_sent(told, item, id, timestamp, code)
                }
            };
        let told = series_announced(named, item, id, parent, c);
        lemma_one_more(before.history, told.history.last().0, c);
        assert(told.history =~= before.history.push(told.history.last()));
    }
}

} // verus!
