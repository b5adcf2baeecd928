//! Network traffic: counters of the host, of processes, and of their peers.

use super::address::{
    address_of, digits_of, ipv4_name, ipv4_text, ipv6_name, ipv6_text, network_value,
};
use super::error::{load_error, BpfError};
use super::wire::{
    bytes_of, capped, less, read_bytes, read_u16, read_u32, read_u64, too_short, u16_at, u32_at,
    u64_at,
};
use crate::protocol::{
    no_labels, views, Counter, CounterView, Event, EventView, Labels, Message, MessageView, Reading,
    Track, TrackId, TrackType, TrackTypeView, TrackView,
};
use crate::random::random_u64;
use crate::sink::MessageSink;
use crate::table::{Table, TableKey};
use crate::text::{decimal, push_decimal, push_signed_decimal, signed_decimal};
use std::collections::HashSet;
use vstd::prelude::*;
use vstd::std_specs::hash::*;

verus! {

/// The address family of addresses with four bytes.
pub const AF_INET: u8 = 2;

/// The address family of addresses with sixteen bytes.
pub const AF_INET6: u8 = 10;

#[derive(Debug, Clone, Copy, PartialEq, Eq, Structural, Hash)]
pub enum NetProtocol {
    Tcp,
    Udp,
}

/// The protocol of an index, if there is one.
pub open spec fn protocol_of(index: u8) -> Option<NetProtocol> {
    if index == 0 {
        Some(NetProtocol::Tcp)
    } else if index == 1 {
        Some(NetProtocol::Udp)
    } else {
        None
    }
}

impl NetProtocol {
    pub open spec fn spec_name(self) -> Seq<char> {
        match self {
            NetProtocol::Tcp => "tcp"@,
            NetProtocol::Udp => "udp"@,
        }
    }

    pub fn index(self) -> (r: usize)
        ensures
            protocol_of(r as u8) == Some(self),
            r < 2,
    {
        match self {
            NetProtocol::Tcp => 0,
            NetProtocol::Udp => 1,
        }
    }

    pub fn from_index(index: u8) -> (r: Option<Self>)
        ensures
            r == protocol_of(index),
    {
        match index {
            0 => Some(NetProtocol::Tcp),
            1 => Some(NetProtocol::Udp),
            _ => None,
        }
    }

    pub fn name(self) -> (r: &'static str)
        ensures
            r@ == self.spec_name(),
    {
        match self {
            NetProtocol::Tcp => "tcp",
            NetProtocol::Udp => "udp",
        }
    }
}

#[derive(Debug, Clone, Copy, PartialEq, Eq, Structural, Hash)]
pub enum NetDirection {
    Send,
    Receive,
}

#[derive(Debug, Clone, Copy, PartialEq, Eq, Structural, Hash)]
pub enum NetScope {
    Host,
    Process,
    Peer,
}

#[derive(Debug, Clone, Copy, PartialEq, Eq, Structural, Hash)]
pub enum NetMetric {
    Bytes,
    Operations,
    Errors,
}

/// What to track.
#[derive(Debug)]
pub struct NetTrackConfig {
    pub frequency: u64,
    pub peer_frequency: u64,
    /// Accepted and not used: samples are read from maps.
    pub ringbuf: usize,
    pub scaled: bool,
    pub protocols: Vec<NetProtocol>,
    pub directions: Vec<NetDirection>,
    pub scopes: Vec<NetScope>,
    pub metrics: Vec<NetMetric>,
    pub pid_filters: Vec<i32>,
    pub filter_process: Vec<String>,
    pub max_process_entries: u32,
    pub max_peer_entries: u32,
    pub max_peer_tracks: usize,
}

impl Default for NetTrackConfig {
    fn default() -> (r: Self)
        ensures
            r.frequency == 9,
            r.peer_frequency == 1,
            r.ringbuf == 1024 * 1024,
            !r.scaled,
            r.protocols@ == seq![NetProtocol::Tcp, NetProtocol::Udp],
            r.directions@ == seq![NetDirection::Send, NetDirection::Receive],
            r.scopes@ == seq![NetScope::Host],
            r.metrics@ == seq![NetMetric::Bytes],
            r.pid_filters@.len() == 0,
            r.filter_process@.len() == 0,
            r.max_process_entries == 1024,
            r.max_peer_entries == 4096,
            r.max_peer_tracks == 512,
            r.problem() is None,
    {
        let mut protocols: Vec<NetProtocol> = Vec::new();
        protocols.push(NetProtocol::Tcp);
        protocols.push(NetProtocol::Udp);
        let mut directions: Vec<NetDirection> = Vec::new();
        directions.push(NetDirection::Send);
        directions.push(NetDirection::Receive);
        let mut scopes: Vec<NetScope> = Vec::new();
        scopes.push(NetScope::Host);
        let mut metrics: Vec<NetMetric> = Vec::new();
        metrics.push(NetMetric::Bytes);
        proof {
            assert(protocols@ =~= seq![NetProtocol::Tcp, NetProtocol::Udp]);
            assert(directions@ =~= seq![NetDirection::Send, NetDirection::Receive]);
            assert(scopes@ =~= seq![NetScope::Host]);
            assert(metrics@ =~= seq![NetMetric::Bytes]);
        }
        NetTrackConfig {
            frequency: 9,
            peer_frequency: 1,
            ringbuf: 1024 * 1024,
            scaled: false,
            protocols,
            directions,
            scopes,
            metrics,
            pid_filters: Vec::new(),
            filter_process: Vec::new(),
            max_process_entries: 1024,
            max_peer_entries: 4096,
            max_peer_tracks: 512,
        }
    }
}

impl NetTrackConfig {
    pub open spec fn covers(&self, protocol: NetProtocol) -> bool {
        self.protocols@.contains(protocol)
    }

    pub open spec fn follows(&self, direction: NetDirection) -> bool {
        self.directions@.contains(direction)
    }

    pub open spec fn looks_at(&self, scope: NetScope) -> bool {
        self.scopes@.contains(scope)
    }

    pub open spec fn wants(&self, metric: NetMetric) -> bool {
        self.metrics@.contains(metric)
    }

    /// What is wrong with the configuration, if anything is.
    pub open spec fn problem(&self) -> Option<Seq<char>> {
        if self.frequency == 0 {
            Some("nettrack frequency must be greater than zero"@)
        } else if self.looks_at(NetScope::Peer) && self.peer_frequency == 0 {
            Some("nettrack peer_frequency must be greater than zero"@)
        } else if self.protocols@.len() == 0 || self.directions@.len() == 0 || self.scopes@.len()
            == 0 || self.metrics@.len() == 0 {
            Some("nettrack protocols, directions, scopes, and metrics must not be empty"@)
        } else if self.looks_at(NetScope::Process) && self.max_process_entries == 0 {
            Some("nettrack max_process_entries must be greater than zero"@)
        } else if self.looks_at(NetScope::Peer) && (self.max_peer_entries == 0
            || self.max_peer_tracks == 0) {
            Some("nettrack peer entry and track limits must be greater than zero"@)
        } else {
            None
        }
    }

    pub fn has_protocol(&self, protocol: NetProtocol) -> (r: bool)
        ensures
            r == self.covers(protocol),
    {
        let mut i: usize = 0;
        while i < self.protocols.len()
            invariant
                i <= self.protocols@.len(),
                forall|j: int| 0 <= j < i ==> self.protocols@[j] != protocol,
            decreases self.protocols@.len() - i,
        {
            if self.protocols[i] == protocol {
                return true;
            }
            i += 1;
        }
        false
    }

    pub fn has_direction(&self, direction: NetDirection) -> (r: bool)
        ensures
            r == self.follows(direction),
    {
        let mut i: usize = 0;
        while i < self.directions.len()
            invariant
                i <= self.directions@.len(),
                forall|j: int| 0 <= j < i ==> self.directions@[j] != direction,
            decreases self.directions@.len() - i,
        {
            if self.directions[i] == direction {
                return true;
            }
            i += 1;
        }
        false
    }

    pub fn has_scope(&self, scope: NetScope) -> (r: bool)
        ensures
            r == self.looks_at(scope),
    {
        let mut i: usize = 0;
        while i < self.scopes.len()
            invariant
                i <= self.scopes@.len(),
                forall|j: int| 0 <= j < i ==> self.scopes@[j] != scope,
            decreases self.scopes@.len() - i,
        {
            if self.scopes[i] == scope {
                return true;
            }
            i += 1;
        }
        false
    }

    pub fn has_metric(&self, metric: NetMetric) -> (r: bool)
        ensures
            r == self.wants(metric),
    {
        let mut i: usize = 0;
        while i < self.metrics.len()
            invariant
                i <= self.metrics@.len(),
                forall|j: int| 0 <= j < i ==> self.metrics@[j] != metric,
            decreases self.metrics@.len() - i,
        {
            if self.metrics[i] == metric {
                return true;
            }
            i += 1;
        }
        false
    }

    pub fn validate(&self) -> (r: Result<(), BpfError>)
        ensures
            match r {
                Ok(_) => self.problem() is None,
                Err(e) => self.problem() matches Some(text) && e.is_load(text),
            },
    {
        if self.frequency == 0 {
            return Err(load_error("nettrack frequency must be greater than zero"));
        }
        if self.has_scope(NetScope::Peer) && self.peer_frequency == 0 {
            return Err(load_error("nettrack peer_frequency must be greater than zero"));
        }
        if self.protocols.len() == 0 || self.directions.len() == 0 || self.scopes.len() == 0
            || self.metrics.len() == 0 {
            return Err(
                load_error(
                    "nettrack protocols, directions, scopes, and metrics must not be empty",
                ),
            );
        }
        if self.has_scope(NetScope::Process) && self.max_process_entries == 0 {
            return Err(load_error("nettrack max_process_entries must be greater than zero"));
        }
        if self.has_scope(NetScope::Peer) && (self.max_peer_entries == 0 || self.max_peer_tracks
            == 0) {
            return Err(
                load_error("nettrack peer entry and track limits must be greater than zero"),
            );
        }
        Ok(())
    }
}

/// What the kernel programs are loaded with.
#[derive(Debug, Clone, Copy, PartialEq, Eq, Structural)]
pub struct NetTrackPlan {
    pub process_entries: u32,
    pub peer_entries: u32,
    pub tcp_enabled: bool,
    pub udp_enabled: bool,
    pub send_enabled: bool,
    pub receive_enabled: bool,
    pub host_enabled: bool,
    pub process_enabled: bool,
    pub peer_enabled: bool,
    pub bytes_enabled: bool,
    pub operations_enabled: bool,
    pub errors_enabled: bool,
    pub filter_enabled: bool,
    pub load_tcp_sendmsg: bool,
    pub load_tcp_recvmsg: bool,
    pub load_udp_sendmsg: bool,
    pub load_udp_recvmsg: bool,
}

/// What a configuration asks for.
pub open spec fn planned(config: &NetTrackConfig) -> NetTrackPlan {
    let tcp = config.covers(NetProtocol::Tcp);
    let udp = config.covers(NetProtocol::Udp);
    let send = config.follows(NetDirection::Send);
    let receive = config.follows(NetDirection::Receive);
    NetTrackPlan {
        process_entries: if config.looks_at(NetScope::Process) {
            config.max_process_entries
        } else {
            1
        },
        peer_entries: if config.looks_at(NetScope::Peer) {
            config.max_peer_entries
        } else {
            1
        },
        tcp_enabled: tcp,
        udp_enabled: udp,
        send_enabled: send,
        receive_enabled: receive,
        host_enabled: config.looks_at(NetScope::Host),
        process_enabled: config.looks_at(NetScope::Process),
        peer_enabled: config.looks_at(NetScope::Peer),
        bytes_enabled: config.wants(NetMetric::Bytes),
        operations_enabled: config.wants(NetMetric::Operations),
        errors_enabled: config.wants(NetMetric::Errors),
        filter_enabled: config.pid_filters@.len() > 0 || config.filter_process@.len() > 0,
        load_tcp_sendmsg: tcp && send,
        load_tcp_recvmsg: tcp && receive,
        load_udp_sendmsg: udp && send,
        load_udp_recvmsg: udp && receive,
    }
}

/// Makes the plan for a configuration.
pub fn plan_net_track(config: &NetTrackConfig) -> (r: NetTrackPlan)
    ensures
        r == planned(config),
{
    let tcp: bool = config.has_protocol(NetProtocol::Tcp);
    let udp: bool = config.has_protocol(NetProtocol::Udp);
    let send: bool = config.has_direction(NetDirection::Send);
    let receive: bool = config.has_direction(NetDirection::Receive);
    let process: bool = config.has_scope(NetScope::Process);
    let peer: bool = config.has_scope(NetScope::Peer);
    NetTrackPlan {
        process_entries: if process {
            config.max_process_entries
        } else {
            1
        },
        peer_entries: if peer {
            config.max_peer_entries
        } else {
            1
        },
        tcp_enabled: tcp,
        udp_enabled: udp,
        send_enabled: send,
        receive_enabled: receive,
        host_enabled: config.has_scope(NetScope::Host),
        process_enabled: process,
        peer_enabled: peer,
        bytes_enabled: config.has_metric(NetMetric::Bytes),
        operations_enabled: config.has_metric(NetMetric::Operations),
        errors_enabled: config.has_metric(NetMetric::Errors),
        filter_enabled: config.pid_filters.len() > 0 || config.filter_process.len() > 0,
        load_tcp_sendmsg: tcp && send,
        load_tcp_recvmsg: tcp && receive,
        load_udp_sendmsg: udp && send,
        load_udp_recvmsg: udp && receive,
    }
}

/// The place of the first negative number, or the length.
pub open spec fn first_negative(pids: Seq<i32>) -> int
    decreases pids.len(),
{
    if pids.len() == 0 || pids[0] < 0 {
        0
    } else {
        1 + first_negative(pids.drop_first())
    }
}

/// The processes that are tracked, unless one of them is negative.
pub fn tracked_pids(config: &NetTrackConfig) -> (r: Result<Vec<u32>, BpfError>)
    ensures
        match r {
            Ok(pids) => first_negative(config.pid_filters@) == config.pid_filters@.len() && pids@
                == config.pid_filters@.map_values(|p: i32| p as u32),
            Err(e) => first_negative(config.pid_filters@) < config.pid_filters@.len() && e.is_load(
                "nettrack PID filter must be positive: "@ + signed_decimal(
                    config.pid_filters@[first_negative(config.pid_filters@)] as int,
                ),
            ),
        },
{
    let ghost all = config.pid_filters@;
    let mut r: Vec<u32> = Vec::new();
    let mut i: usize = 0;
    assert(all.skip(0) =~= all);
    while i < config.pid_filters.len()
        invariant
            i <= all.len(),
            all == config.pid_filters@,
            first_negative(all) == i + first_negative(all.skip(i as int)),
            r@ =~= all.take(i as int).map_values(|p: i32| p as u32),
        decreases all.len() - i,
    {
        let pid: i32 = config.pid_filters[i];
        assert(all.skip(i as int).drop_first() =~= all.skip(i + 1));
        if pid < 0 {
            let mut text: String = "nettrack PID filter must be positive: ".to_owned();
            push_signed_decimal(&mut text, pid as i64);
            return Err(BpfError::LoadError(text));
        }
        r.push(pid as u32);
        i += 1;
    }
    assert(all.take(i as int) =~= all);
    Ok(r)
}

/// The process of a filter that is added later.
pub fn filter_pid(pid: i32) -> (r: Result<u32, BpfError>)
    ensures
        match r {
            Ok(p) => pid >= 0 && p == pid,
            Err(e) => pid < 0 && e.is_map("invalid PID filter: "@ + signed_decimal(pid as int)),
        },
{
    if pid < 0 {
        let mut text: String = "invalid PID filter: ".to_owned();
        push_signed_decimal(&mut text, pid as i64);
        return Err(BpfError::MapError(text));
    }
    Ok(pid as u32)
}

/// Counters of traffic.
#[derive(Debug, Clone, Copy, PartialEq, Eq, Structural)]
pub struct StatsValue {
    pub send_bytes: u64,
    pub recv_bytes: u64,
    pub send_operations: u64,
    pub recv_operations: u64,
    pub send_errors: u64,
    pub recv_errors: u64,
    pub send_would_block: u64,
    pub recv_would_block: u64,
    pub tcp_recv_eof: u64,
    pub udp_recv_truncated: u64,
    pub first_seen_ns: u64,
    pub last_seen_ns: u64,
}

/// Counters that have counted nothing.
pub open spec fn no_stats() -> StatsValue {
    StatsValue {
        send_bytes: 0,
        recv_bytes: 0,
        send_operations: 0,
        recv_operations: 0,
        send_errors: 0,
        recv_errors: 0,
        send_would_block: 0,
        recv_would_block: 0,
        tcp_recv_eof: 0,
        udp_recv_truncated: 0,
        first_seen_ns: 0,
        last_seen_ns: 0,
    }
}

impl Default for StatsValue {
    fn default() -> (r: Self)
        ensures
            r == no_stats(),
    {
        StatsValue {
            send_bytes: 0,
            recv_bytes: 0,
            send_operations: 0,
            recv_operations: 0,
            send_errors: 0,
            recv_errors: 0,
            send_would_block: 0,
            recv_would_block: 0,
            tcp_recv_eof: 0,
            udp_recv_truncated: 0,
            first_seen_ns: 0,
            last_seen_ns: 0,
        }
    }
}

impl StatsValue {
    /// The sums, from the first time seen, where zero stands for never, to the
    /// last.
    pub open spec fn plus(self, other: StatsValue) -> StatsValue {
        StatsValue {
            send_bytes: capped(self.send_bytes + other.send_bytes),
            recv_bytes: capped(self.recv_bytes + other.recv_bytes),
            send_operations: capped(self.send_operations + other.send_operations),
            recv_operations: capped(self.recv_operations + other.recv_operations),
            send_errors: capped(self.send_errors + other.send_errors),
            recv_errors: capped(self.recv_errors + other.recv_errors),
            send_would_block: capped(self.send_would_block + other.send_would_block),
            recv_would_block: capped(self.recv_would_block + other.recv_would_block),
            tcp_recv_eof: capped(self.tcp_recv_eof + other.tcp_recv_eof),
            udp_recv_truncated: capped(self.udp_recv_truncated + other.udp_recv_truncated),
            first_seen_ns: if self.first_seen_ns == 0 || (other.first_seen_ns != 0
                && other.first_seen_ns < self.first_seen_ns) {
                other.first_seen_ns
            } else {
                self.first_seen_ns
            },
            last_seen_ns: if self.last_seen_ns >= other.last_seen_ns {
                self.last_seen_ns
            } else {
                other.last_seen_ns
            },
        }
    }

    pub fn accumulate(&mut self, other: Self)
        ensures
            *final(self) == old(self).plus(other),
    {
        self.send_bytes = self.send_bytes.saturating_add(other.send_bytes);
        self.recv_bytes = self.recv_bytes.saturating_add(other.recv_bytes);
        self.send_operations = self.send_operations.saturating_add(other.send_operations);
        self.recv_operations = self.recv_operations.saturating_add(other.recv_operations);
        self.send_errors = self.send_errors.saturating_add(other.send_errors);
        self.recv_errors = self.recv_errors.saturating_add(other.recv_errors);
        self.send_would_block = self.send_would_block.saturating_add(other.send_would_block);
        self.recv_would_block = self.recv_would_block.saturating_add(other.recv_would_block);
        self.tcp_recv_eof = self.tcp_recv_eof.saturating_add(other.tcp_recv_eof);
        self.udp_recv_truncated = self.udp_recv_truncated.saturating_add(other.udp_recv_truncated);
        if self.first_seen_ns == 0 || (other.first_seen_ns != 0 && other.first_seen_ns
            < self.first_seen_ns) {
            self.first_seen_ns = other.first_seen_ns;
        }
        if other.last_seen_ns > self.last_seen_ns {
            self.last_seen_ns = other.last_seen_ns;
        }
    }

    /// How far the counters have grown since `previous`; counters that were set up
    /// anew have grown from zero.
    pub open spec fn since(self, previous: Option<StatsValue>) -> StatsValue {
        match previous {
            Some(p) => if p.first_seen_ns == self.first_seen_ns {
                StatsValue {
                    send_bytes: less(self.send_bytes, p.send_bytes),
                    recv_bytes: less(self.recv_bytes, p.recv_bytes),
                    send_operations: less(self.send_operations, p.send_operations),
                    recv_operations: less(self.recv_operations, p.recv_operations),
                    send_errors: less(self.send_errors, p.send_errors),
                    recv_errors: less(self.recv_errors, p.recv_errors),
                    send_would_block: less(self.send_would_block, p.send_would_block),
                    recv_would_block: less(self.recv_would_block, p.recv_would_block),
                    tcp_recv_eof: less(self.tcp_recv_eof, p.tcp_recv_eof),
                    udp_recv_truncated: less(self.udp_recv_truncated, p.udp_recv_truncated),
                    first_seen_ns: self.first_seen_ns,
                    last_seen_ns: self.last_seen_ns,
                }
            } else {
                self
            },
            None => self,
        }
    }

    pub fn delta(self, previous: Option<Self>) -> (r: Self)
        ensures
            r == self.since(previous),
    {
        match previous {
            Some(p) => {
                if p.first_seen_ns != self.first_seen_ns {
                    return self;
                }
                StatsValue {
                    send_bytes: self.send_bytes.saturating_sub(p.send_bytes),
                    recv_bytes: self.recv_bytes.saturating_sub(p.recv_bytes),
                    send_operations: self.send_operations.saturating_sub(p.send_operations),
                    recv_operations: self.recv_operations.saturating_sub(p.recv_operations),
                    send_errors: self.send_errors.saturating_sub(p.send_errors),
                    recv_errors: self.recv_errors.saturating_sub(p.recv_errors),
                    send_would_block: self.send_would_block.saturating_sub(p.send_would_block),
                    recv_would_block: self.recv_would_block.saturating_sub(p.recv_would_block),
                    tcp_recv_eof: self.tcp_recv_eof.saturating_sub(p.tcp_recv_eof),
                    udp_recv_truncated: self.udp_recv_truncated.saturating_sub(
                        p.udp_recv_truncated,
                    ),
                    first_seen_ns: self.first_seen_ns,
                    last_seen_ns: self.last_seen_ns,
                }
            },
            None => self,
        }
    }

    /// The counters that lie in `data`.
    pub open spec fn in_bytes(data: Seq<u8>) -> StatsValue {
        StatsValue {
            send_bytes: u64_at(data, 0),
            recv_bytes: u64_at(data, 8),
            send_operations: u64_at(data, 16),
            recv_operations: u64_at(data, 24),
            send_errors: u64_at(data, 32),
            recv_errors: u64_at(data, 40),
            send_would_block: u64_at(data, 48),
            recv_would_block: u64_at(data, 56),
            tcp_recv_eof: u64_at(data, 64),
            udp_recv_truncated: u64_at(data, 72),
            first_seen_ns: u64_at(data, 80),
            last_seen_ns: u64_at(data, 88),
        }
    }

    pub fn from_bytes(data: &[u8], kind: &str) -> (r: Result<Self, BpfError>)
        ensures
            match r {
                Ok(stats) => data@.len() >= 96 && stats == Self::in_bytes(data@),
                Err(e) => data@.len() < 96 && e.is_map(
                    "failed to parse "@ + kind@ + ": TooShort"@,
                ),
            },
    {
        if data.len() < 96 {
            return Err(too_short(kind));
        }
        Ok(
            StatsValue {
                send_bytes: read_u64(data, 0),
                recv_bytes: read_u64(data, 8),
                send_operations: read_u64(data, 16),
                recv_operations: read_u64(data, 24),
                send_errors: read_u64(data, 32),
                recv_errors: read_u64(data, 40),
                send_would_block: read_u64(data, 48),
                recv_would_block: read_u64(data, 56),
                tcp_recv_eof: read_u64(data, 64),
                udp_recv_truncated: read_u64(data, 72),
                first_seen_ns: read_u64(data, 80),
                last_seen_ns: read_u64(data, 88),
            },
        )
    }
}

/// Growth and what was before make up what is now, as long as the counters were
/// not set up anew and none went back.
pub proof fn law_growth_adds_up(current: StatsValue, previous: StatsValue)
    requires
        current.first_seen_ns == previous.first_seen_ns,
        current.send_bytes >= previous.send_bytes,
        current.recv_bytes >= previous.recv_bytes,
    ensures
        previous.send_bytes + current.since(Some(previous)).send_bytes == current.send_bytes,
        previous.recv_bytes + current.since(Some(previous)).recv_bytes == current.recv_bytes,
        current.since(Some(current)).send_bytes == 0,
        current.since(Some(current)).recv_bytes == 0,
{
}

/// The sum of the counters of all processors.
pub open spec fn sum_of(values: Seq<Vec<u8>>) -> StatsValue
    decreases values.len(),
{
    if values.len() == 0 {
        no_stats()
    } else {
        sum_of(values.drop_last()).plus(StatsValue::in_bytes(values.last()@))
    }
}

/// Whether every record is long enough for counters.
pub open spec fn all_long(values: Seq<Vec<u8>>) -> bool {
    forall|i: int| 0 <= i < values.len() ==> (#[trigger] values[i])@.len() >= 96
}

/// Adds up the counters of all processors.
pub fn read_global(values: &Vec<Vec<u8>>) -> (r: Result<StatsValue, BpfError>)
    ensures
        match r {
            Ok(total) => all_long(values@) && total == sum_of(values@),
            Err(e) => !all_long(values@) && e.is_map(
                "failed to parse "@ + "host network statistics"@ + ": TooShort"@,
            ),
        },
{
    let mut total: StatsValue = StatsValue::default();
    let mut i: usize = 0;
    assert(values@.take(0) =~= seq![]);
    while i < values.len()
        invariant
            i <= values@.len(),
            total == sum_of(values@.take(i as int)),
            forall|j: int| 0 <= j < i ==> (#[trigger] values@[j])@.len() >= 96,
        decreases values@.len() - i,
    {
        assert(values@.take(i + 1).drop_last() =~= values@.take(i as int));
        match StatsValue::from_bytes(values[i].as_slice(), "host network statistics") {
            Ok(value) => {
                total.accumulate(value);
            },
            Err(e) => {
                return Err(e);
            },
        }
        i += 1;
    }
    assert(values@.take(i as int) =~= values@);
    Ok(total)
}

/// A process and a protocol; `padding` are the bytes behind them.
#[derive(Debug, Clone, Copy, PartialEq, Eq, Hash)]
pub struct ProcessKey {
    pub tgid: u32,
    pub protocol: u8,
    pub padding: (u8, u8, u8),
}

impl TableKey for ProcessKey {
    fn same(&self, other: &Self) -> (r: bool) {
        self.tgid == other.tgid && self.protocol == other.protocol && self.padding.0
            == other.padding.0 && self.padding.1 == other.padding.1 && self.padding.2
            == other.padding.2
    }
}

/// The key that lies in `data`.
pub open spec fn process_key_in(data: Seq<u8>) -> ProcessKey {
    ProcessKey { tgid: u32_at(data, 0), protocol: data[4], padding: (data[5], data[6], data[7]) }
}

/// A peer of a process; its address as one number in network order.
#[derive(Debug, Clone, Copy, PartialEq, Eq, Structural, Hash)]
pub struct PeerKey {
    pub tgid: u32,
    pub protocol: u8,
    pub family: u8,
    pub local_port: u16,
    pub remote_port: u16,
    pub padding: u16,
    pub remote_addr: u128,
}

impl TableKey for PeerKey {
    fn same(&self, other: &Self) -> (r: bool) {
        *self == *other
    }
}

impl Default for PeerKey {
    fn default() -> (r: Self)
        ensures
            r == (PeerKey {
                tgid: 0,
                protocol: 0,
                family: 0,
                local_port: 0,
                remote_port: 0,
                padding: 0,
                remote_addr: 0,
            }),
    {
        PeerKey {
            tgid: 0,
            protocol: 0,
            family: 0,
            local_port: 0,
            remote_port: 0,
            padding: 0,
            remote_addr: 0,
        }
    }
}

/// The key that lies in `data`.
pub open spec fn peer_key_in(data: Seq<u8>) -> PeerKey {
    PeerKey {
        tgid: u32_at(data, 0),
        protocol: data[4],
        family: data[5],
        local_port: u16_at(data, 6),
        remote_port: u16_at(data, 8),
        padding: u16_at(data, 10),
        remote_addr: network_value(bytes_of(data, 12, 16)) as u128,
    }
}

impl PeerKey {
    /// The name of the peer's track: the protocol, and the address with the port.
    pub open spec fn name(self) -> Seq<char> {
        let protocol = match protocol_of(self.protocol) {
            Some(p) => p.spec_name(),
            None => "network"@,
        };
        if self.family == AF_INET {
            protocol + " "@ + ipv4_text(digits_of(self.remote_addr as int, 256, 16)) + ":"@
                + decimal(self.remote_port as nat)
        } else if self.family == AF_INET6 {
            protocol + " ["@ + ipv6_text(self.remote_addr as int) + "]:"@ + decimal(
                self.remote_port as nat,
            )
        } else {
            protocol + " unknown-peer"@
        }
    }

    pub fn protocol(self) -> (r: Option<NetProtocol>)
        ensures
            r == protocol_of(self.protocol),
    {
        NetProtocol::from_index(self.protocol)
    }

    pub fn track_name(self) -> (r: String)
        ensures
            r@ == self.name(),
    {
        let protocol: &'static str = match self.protocol() {
            Some(p) => p.name(),
            None => "network",
        };
        if self.family == AF_INET {
            let ip: String = ipv4_name(self.remote_addr);
            let mut r: String = protocol.to_owned().concat(" ").concat(ip.as_str()).concat(":");
            push_decimal(&mut r, self.remote_port as u64);
            r
        } else if self.family == AF_INET6 {
            let ip: String = ipv6_name(self.remote_addr);
            let mut r: String = protocol.to_owned().concat(" [").concat(ip.as_str()).concat("]:");
            push_decimal(&mut r, self.remote_port as u64);
            r
        } else {
            protocol.to_owned().concat(" unknown-peer")
        }
    }
}

/// Whether an entry of a map is too short for a key and counters.
pub open spec fn entry_short(entry: (Vec<u8>, Vec<u8>), key_size: int) -> bool {
    entry.0@.len() < key_size || entry.1@.len() < 96
}

/// Whether no entry is too short.
pub open spec fn none_short(entries: Seq<(Vec<u8>, Vec<u8>)>, key_size: int) -> bool {
    forall|i: int| 0 <= i < entries.len() ==> !entry_short(#[trigger] entries[i], key_size)
}

/// Whether `n` is the first entry that is too short, and `text` says what of it.
pub open spec fn short_entry(
    entries: Seq<(Vec<u8>, Vec<u8>)>,
    key_size: int,
    n: int,
    text: Seq<char>,
    key: Seq<char>,
    value: Seq<char>,
) -> bool {
    &&& 0 <= n < entries.len()
    &&& none_short(entries.take(n), key_size)
    &&& entry_short(entries[n], key_size)
    &&& text == "failed to parse "@ + (if entries[n].0@.len() < key_size {
        key
    } else {
        value
    }) + ": TooShort"@
}

/// Reads the counters of processes.
pub fn read_processes(entries: &Vec<(Vec<u8>, Vec<u8>)>) -> (r: Result<
    Vec<(ProcessKey, StatsValue)>,
    BpfError,
>)
    ensures
        match r {
            Ok(list) => {
                &&& none_short(entries@, 8)
                &&& list@.len() == entries@.len()
                &&& forall|i: int|
                    0 <= i < list@.len() ==> #[trigger] list@[i] == (
                        process_key_in(entries@[i].0@),
                        StatsValue::in_bytes(entries@[i].1@),
                    )
            },
            Err(e) => exists|n: int, text: Seq<char>|
                #[trigger] short_entry(
                    entries@,
                    8,
                    n,
                    text,
                    "process network key"@,
                    "process network statistics"@,
                ) && e.is_map(text),
        },
{
    let mut list: Vec<(ProcessKey, StatsValue)> = Vec::new();
    let mut i: usize = 0;
    while i < entries.len()
        invariant
            i <= entries@.len(),
            list@.len() == i,
            none_short(entries@.take(i as int), 8),
            forall|j: int|
                0 <= j < i ==> #[trigger] list@[j] == (
                    process_key_in(entries@[j].0@),
                    StatsValue::in_bytes(entries@[j].1@),
                ),
        decreases entries@.len() - i,
    {
        let key: &[u8] = entries[i].0.as_slice();
        if key.len() < 8 {
            proof {
                let text = "failed to parse "@ + "process network key"@ + ": TooShort"@;
                assert(short_entry(
                    entries@,
                    8,
                    i as int,
                    text,
                    "process network key"@,
                    "process network statistics"@,
                ));
            }
            return Err(too_short("process network key"));
        }
        let tgid: u32 = read_u32(key, 0);
        let parsed = ProcessKey { tgid, protocol: key[4], padding: (key[5], key[6], key[7]) };
        match StatsValue::from_bytes(entries[i].1.as_slice(), "process network statistics") {
            Err(e) => {
                proof {
                    let text = "failed to parse "@ + "process network statistics"@ + ": TooShort"@;
                    assert(short_entry(
                        entries@,
                        8,
                        i as int,
                        text,
                        "process network key"@,
                        "process network statistics"@,
                    ));
                }
                return Err(e);
            },
            Ok(stats) => {
                list.push((parsed, stats));
            },
        }
        proof {
            let next = entries@.take(i + 1);
            assert forall|j: int| 0 <= j < next.len() implies !entry_short(
                #[trigger] next[j],
                8,
            ) by {
                if j < i {
                    assert(next[j] == entries@.take(i as int)[j]);
                }
            }
        }
        i += 1;
    }
    assert(entries@.take(i as int) =~= entries@);
    Ok(list)
}

/// Reads the counters of peers.
pub fn read_peers(entries: &Vec<(Vec<u8>, Vec<u8>)>) -> (r: Result<
    Vec<(PeerKey, StatsValue)>,
    BpfError,
>)
    ensures
        match r {
            Ok(list) => {
                &&& none_short(entries@, 28)
                &&& list@.len() == entries@.len()
                &&& forall|i: int|
                    0 <= i < list@.len() ==> #[trigger] list@[i] == (
                        peer_key_in(entries@[i].0@),
                        StatsValue::in_bytes(entries@[i].1@),
                    )
            },
            Err(e) => exists|n: int, text: Seq<char>|
                #[trigger] short_entry(
                    entries@,
                    28,
                    n,
                    text,
                    "peer network key"@,
                    "peer network statistics"@,
                ) && e.is_map(text),
        },
{
    let mut list: Vec<(PeerKey, StatsValue)> = Vec::new();
    let mut i: usize = 0;
    while i < entries.len()
        invariant
            i <= entries@.len(),
            list@.len() == i,
            none_short(entries@.take(i as int), 28),
            forall|j: int|
                0 <= j < i ==> #[trigger] list@[j] == (
                    peer_key_in(entries@[j].0@),
                    StatsValue::in_bytes(entries@[j].1@),
                ),
        decreases entries@.len() - i,
    {
        let key: &[u8] = entries[i].0.as_slice();
        if key.len() < 28 {
            proof {
                let text = "failed to parse "@ + "peer network key"@ + ": TooShort"@;
                assert(short_entry(
                    entries@,
                    28,
                    i as int,
                    text,
                    "peer network key"@,
                    "peer network statistics"@,
                ));
            }
            return Err(too_short("peer network key"));
        }
        let address: Vec<u8> = read_bytes(key, 12, 16);
        let parsed = PeerKey {
            tgid: read_u32(key, 0),
            protocol: key[4],
            family: key[5],
            local_port: read_u16(key, 6),
            remote_port: read_u16(key, 8),
            padding: read_u16(key, 10),
            remote_addr: address_of(address.as_slice()),
        };
        match StatsValue::from_bytes(entries[i].1.as_slice(), "peer network statistics") {
            Err(e) => {
                proof {
                    let text = "failed to parse "@ + "peer network statistics"@ + ": TooShort"@;
                    assert(short_entry(
                        entries@,
                        28,
                        i as int,
                        text,
                        "peer network key"@,
                        "peer network statistics"@,
                    ));
                }
                return Err(e);
            },
            Ok(stats) => {
                list.push((parsed, stats));
            },
        }
        proof {
            let next = entries@.take(i + 1);
            assert forall|j: int| 0 <= j < next.len() implies !entry_short(
                #[trigger] next[j],
                28,
            ) by {
                if j < i {
                    assert(next[j] == entries@.take(i as int)[j]);
                }
            }
        }
        i += 1;
    }
    assert(entries@.take(i as int) =~= entries@);
    Ok(list)
}

#[derive(Debug, Clone, Copy, PartialEq, Eq, Structural, Hash)]
pub enum ScopeKey {
    Host,
    Process(u32),
    Peer(PeerKey),
}

#[derive(Debug, Clone, Copy, PartialEq, Eq, Structural, Hash)]
pub enum CounterKind {
    SendBytes,
    RecvBytes,
    SendOperations,
    RecvOperations,
    SendErrors,
    RecvErrors,
    SendWouldBlock,
    RecvWouldBlock,
    TcpRecvEof,
    UdpRecvTruncated,
    TotalSendBytes,
    TotalRecvBytes,
}

/// Names one series of values.
#[derive(Debug, Clone, Copy, PartialEq, Eq, Structural, Hash)]
pub struct SeriesKey {
    pub scope: ScopeKey,
    pub protocol: NetProtocol,
    pub kind: CounterKind,
}

impl TableKey for SeriesKey {
    fn same(&self, other: &Self) -> (r: bool) {
        *self == *other
    }
}

/// One value of a series.
#[derive(Debug)]
pub struct CounterSample {
    pub kind: CounterKind,
    pub name: String,
    pub value: Reading,
    pub unit: &'static str,
}

pub struct CounterSampleView {
    pub kind: CounterKind,
    pub name: Seq<char>,
    pub value: Reading,
    pub unit: Seq<char>,
}

impl View for CounterSample {
    type V = CounterSampleView;

    open spec fn view(&self) -> CounterSampleView {
        CounterSampleView {
            kind: self.kind,
            name: self.name@,
            value: self.value,
            unit: self.unit@,
        }
    }
}

pub open spec fn sample(
    kind: CounterKind,
    name: Seq<char>,
    value: Reading,
    unit: Seq<char>,
) -> CounterSampleView {
    CounterSampleView { kind, name, value, unit }
}

/// A count.
pub open spec fn count(kind: CounterKind, name: Seq<char>, n: u64) -> CounterSampleView {
    sample(kind, name, Reading::Count { n }, "count"@)
}

/// A number of bytes, as a rate in bits where that is asked for.
pub open spec fn volume(
    scaled: bool,
    kind: CounterKind,
    name: Seq<char>,
    bytes: u64,
    elapsed_ns: u64,
) -> CounterSampleView {
    if scaled {
        sample(kind, name + "_rate"@, Reading::BitsPerSecond { bytes, elapsed_ns }, "bits/s"@)
    } else {
        sample(kind, name, Reading::Count { n: bytes }, "bytes"@)
    }
}

/// The samples of a protocol, as far as the configuration asks for them.
pub open spec fn sample_list(
    config: &NetTrackConfig,
    protocol: NetProtocol,
    stats: StatsValue,
    elapsed_ns: u64,
) -> Seq<CounterSampleView> {
    let prefix = protocol.spec_name();
    let operation = if protocol == NetProtocol::Udp {
        "datagrams"@
    } else {
        "calls"@
    };
    (if config.wants(NetMetric::Bytes) {
        seq![
            volume(
                config.scaled,
                CounterKind::SendBytes,
                prefix + "_send"@,
                stats.send_bytes,
                elapsed_ns,
            ),
            volume(
                config.scaled,
                CounterKind::RecvBytes,
                prefix + "_recv"@,
                stats.recv_bytes,
                elapsed_ns,
            ),
        ]
    } else {
        seq![]
    }) + (if config.wants(NetMetric::Operations) {
        seq![
            count(CounterKind::SendOperations, prefix + "_send_"@ + operation, stats.send_operations),
            count(CounterKind::RecvOperations, prefix + "_recv_"@ + operation, stats.recv_operations),
            if protocol == NetProtocol::Tcp {
                count(CounterKind::TcpRecvEof, "tcp_recv_eof"@, stats.tcp_recv_eof)
            } else {
                count(CounterKind::UdpRecvTruncated, "udp_recv_truncated"@, stats.udp_recv_truncated)
            },
        ]
    } else {
        seq![]
    }) + (if config.wants(NetMetric::Errors) {
        seq![
            count(CounterKind::SendErrors, prefix + "_send_errors"@, stats.send_errors),
            count(CounterKind::RecvErrors, prefix + "_recv_errors"@, stats.recv_errors),
            count(CounterKind::SendWouldBlock, prefix + "_send_would_block"@, stats.send_would_block),
            count(CounterKind::RecvWouldBlock, prefix + "_recv_would_block"@, stats.recv_would_block),
        ]
    } else {
        seq![]
    })
}

/// The samples of the host over all protocols.
pub open spec fn total_list(config: &NetTrackConfig, stats: StatsValue, elapsed_ns: u64) -> Seq<
    CounterSampleView,
> {
    if config.wants(NetMetric::Bytes) {
        seq![
            volume(
                config.scaled,
                CounterKind::TotalSendBytes,
                "total_send"@,
                stats.send_bytes,
                elapsed_ns,
            ),
            volume(
                config.scaled,
                CounterKind::TotalRecvBytes,
                "total_recv"@,
                stats.recv_bytes,
                elapsed_ns,
            ),
        ]
    } else {
        seq![]
    }
}

fn push_sample(list: &mut Vec<CounterSample>, item: CounterSample)
    ensures
        views(final(list)@) == views(old(list)@) + seq![item@],
{
    let ghost v = item@;
    list.push(item);
    assert(views(list@) =~= views(old(list)@) + seq![v]);
}

fn count_sample(kind: CounterKind, name: String, n: u64) -> (r: CounterSample)
    ensures
        r@ == count(kind, name@, n),
{
    CounterSample { kind, name, value: Reading::Count { n }, unit: "count" }
}

fn volume_sample(scaled: bool, kind: CounterKind, name: String, bytes: u64, elapsed_ns: u64) -> (r:
    CounterSample)
    ensures
        r@ == volume(scaled, kind, name@, bytes, elapsed_ns),
{
    if scaled {
        CounterSample {
            kind,
            name: name.concat("_rate"),
            value: Reading::BitsPerSecond { bytes, elapsed_ns },
            unit: "bits/s",
        }
    } else {
        CounterSample { kind, name, value: Reading::Count { n: bytes }, unit: "bytes" }
    }
}

/// The samples of a protocol.
pub fn samples_for(
    config: &NetTrackConfig,
    protocol: NetProtocol,
    stats: StatsValue,
    elapsed_ns: u64,
) -> (r: Vec<CounterSample>)
    ensures
        views(r@) == sample_list(config, protocol, stats, elapsed_ns),
{
    let prefix: &'static str = protocol.name();
    let mut samples: Vec<CounterSample> = Vec::new();
    assert(views(samples@) =~= seq![]);
    if config.has_metric(NetMetric::Bytes) {
        push_sample(
            &mut samples,
            volume_sample(
                config.scaled,
                CounterKind::SendBytes,
                prefix.to_owned().concat("_send"),
                stats.send_bytes,
                elapsed_ns,
            ),
        );
        push_sample(
            &mut samples,
            volume_sample(
                config.scaled,
                CounterKind::RecvBytes,
                prefix.to_owned().concat("_recv"),
                stats.recv_bytes,
                elapsed_ns,
            ),
        );
    }
    let ghost first = views(samples@);
    if config.has_metric(NetMetric::Operations) {
        let operation: &'static str = if protocol == NetProtocol::Udp {
            "datagrams"
        } else {
            "calls"
        };
        push_sample(
            &mut samples,
            count_sample(
                CounterKind::SendOperations,
                prefix.to_owned().concat("_send_").concat(operation),
                stats.send_operations,
            ),
        );
        push_sample(
            &mut samples,
            count_sample(
                CounterKind::RecvOperations,
                prefix.to_owned().concat("_recv_").concat(operation),
                stats.recv_operations,
            ),
        );
        if protocol == NetProtocol::Tcp {
            push_sample(
                &mut samples,
                count_sample(
                    CounterKind::TcpRecvEof,
                    "tcp_recv_eof".to_owned(),
                    stats.tcp_recv_eof,
                ),
            );
        } else {
            push_sample(
                &mut samples,
                count_sample(
                    CounterKind::UdpRecvTruncated,
                    "udp_recv_truncated".to_owned(),
                    stats.udp_recv_truncated,
                ),
            );
        }
    }
    let ghost second = views(samples@);
    if config.has_metric(NetMetric::Errors) {
        push_sample(
            &mut samples,
            count_sample(
                CounterKind::SendErrors,
                prefix.to_owned().concat("_send_errors"),
                stats.send_errors,
            ),
        );
        push_sample(
            &mut samples,
            count_sample(
                CounterKind::RecvErrors,
                prefix.to_owned().concat("_recv_errors"),
                stats.recv_errors,
            ),
        );
        push_sample(
            &mut samples,
            count_sample(
                CounterKind::SendWouldBlock,
                prefix.to_owned().concat("_send_would_block"),
                stats.send_would_block,
            ),
        );
        push_sample(
            &mut samples,
            count_sample(
                CounterKind::RecvWouldBlock,
                prefix.to_owned().concat("_recv_would_block"),
                stats.recv_would_block,
            ),
        );
    }
    assert(views(samples@) =~= sample_list(config, protocol, stats, elapsed_ns));
    samples
}

fn total_samples(config: &NetTrackConfig, stats: StatsValue, elapsed_ns: u64) -> (r: Vec<
    CounterSample,
>)
    ensures
        views(r@) == total_list(config, stats, elapsed_ns),
{
    let mut samples: Vec<CounterSample> = Vec::new();
    if config.has_metric(NetMetric::Bytes) {
        push_sample(
            &mut samples,
            volume_sample(
                config.scaled,
                CounterKind::TotalSendBytes,
                "total_send".to_owned(),
                stats.send_bytes,
                elapsed_ns,
            ),
        );
        push_sample(
            &mut samples,
            volume_sample(
                config.scaled,
                CounterKind::TotalRecvBytes,
                "total_recv".to_owned(),
                stats.recv_bytes,
                elapsed_ns,
            ),
        );
    }
    assert(views(samples@) =~= total_list(config, stats, elapsed_ns));
    samples
}

/// What has been sent: the ids of series, the ids that were announced, the tracks
/// of peers, and the messages.
pub struct NetEmission {
    pub series: Map<SeriesKey, u64>,
    pub announced: Set<u64>,
    pub peers: Map<PeerKey, u64>,
    pub history: Seq<(MessageView, i32)>,
}

/// Announces the track of a peer.
pub open spec fn peer_message(key: PeerKey, id: u64) -> MessageView {
    MessageView::Event(
        EventView::Track(
            TrackView {
                name: key.name(),
                track_type: TrackTypeView::Custom { id },
                parent: Some(TrackTypeView::Process { pid: key.tgid as i32 }),
            },
        ),
    )
}

/// Announces a series.
pub open spec fn series_message(
    item: CounterSampleView,
    id: u64,
    parent: Option<TrackTypeView>,
) -> MessageView {
    MessageView::Event(
        EventView::Track(
            TrackView {
                name: item.name,
                track_type: TrackTypeView::Counter { id, unit: Some(item.unit) },
                parent,
            },
        ),
    )
}

/// One value of a series.
pub open spec fn value_message(item: CounterSampleView, id: u64, timestamp: u64) -> MessageView {
    MessageView::Event(
        EventView::Counter(
            CounterView {
                name: item.name,
                value: item.value,
                timestamp,
                track_id: TrackId::Counter { id },
                labels: no_labels(),
                unit: Some(item.unit),
            },
        ),
    )
}

/// What announcing a peer under `id` does.
pub open spec fn peer_announced(
    before: NetEmission,
    key: PeerKey,
    id: u64,
    code: i32,
) -> NetEmission {
    NetEmission {
        peers: if code == 0 {
            before.peers.insert(key, id)
        } else {
            before.peers
        },
        history: before.history.push((peer_message(key, id), code)),
        ..before
    }
}

/// What making sure of a peer's track does: there are at most `limit` of them, and
/// one that was refused is none.
pub open spec fn peer_ensured(
    before: NetEmission,
    limit: usize,
    key: PeerKey,
    after: NetEmission,
    track: Option<u64>,
) -> bool {
    if before.peers.contains_key(key) {
        after == before && track == Some(before.peers[key])
    } else if before.peers.dom().len() >= limit {
        after == before && track is None
    } else {
        exists|id: u64, code: i32|
            {
                &&& after == #[trigger] peer_announced(before, key, id, code)
                &&& track == (if code == 0 {
                    Some(id)
                } else {
                    None
                })
            }
    }
}

/// What giving a series its id does.
pub open spec fn series_named(before: NetEmission, key: SeriesKey, id: u64) -> NetEmission {
    NetEmission { series: before.series.insert(key, id), ..before }
}

/// What announcing an id does; it counts as announced even if it was refused.
pub open spec fn series_announced(
    before: NetEmission,
    item: CounterSampleView,
    id: u64,
    parent: Option<TrackTypeView>,
    code: i32,
) -> NetEmission {
    NetEmission {
        announced: before.announced.insert(id),
        history: before.history.push((series_message(item, id, parent), code)),
        ..before
    }
}

/// What sending a value does.
pub open spec fn value_sent(
    before: NetEmission,
    item: CounterSampleView,
    id: u64,
    timestamp: u64,
    code: i32,
) -> NetEmission {
    NetEmission {
        history: before.history.push((value_message(item, id, timestamp), code)),
        ..before
    }
}

/// What sending a sample of a series with the id `id` does.
pub open spec fn id_emitted(
    named: NetEmission,
    item: CounterSampleView,
    id: u64,
    parent: Option<TrackTypeView>,
    timestamp: u64,
    after: NetEmission,
    code: i32,
) -> bool {
    if named.announced.contains(id) {
        after == value_sent(named, item, id, timestamp, code)
    } else {
        exists|c: i32|
            {
                let known = #[trigger] series_announced(named, item, id, parent, c);
                if c != 0 {
                    after == known && code == c
                } else {
                    after == value_sent(known, item, id, timestamp, code)
                }
            }
    }
}

/// What sending a sample does once its parent is known.
pub open spec fn series_emitted(
    before: NetEmission,
    key: SeriesKey,
    item: CounterSampleView,
    parent: Option<TrackTypeView>,
    timestamp: u64,
    after: NetEmission,
    code: i32,
) -> bool {
    exists|id: u64|
        {
            &&& before.series.contains_key(key) ==> id == before.series[key]
            &&& id_emitted(
                #[trigger] series_named(before, key, id),
                item,
                id,
                parent,
                timestamp,
                after,
                code,
            )
        }
}

/// What sending a sample does: one of a peer without a track is passed over.
pub open spec fn sample_emitted(
    before: NetEmission,
    limit: usize,
    scope: ScopeKey,
    protocol: NetProtocol,
    item: CounterSampleView,
    timestamp: u64,
    after: NetEmission,
    code: i32,
) -> bool {
    let key = SeriesKey { scope, protocol, kind: item.kind };
    match scope {
        ScopeKey::Host => series_emitted(before, key, item, None, timestamp, after, code),
        ScopeKey::Process(tgid) => series_emitted(
            before,
            key,
            item,
            Some(TrackTypeView::Process { pid: tgid as i32 }),
            timestamp,
            after,
            code,
        ),
        ScopeKey::Peer(peer) => exists|middle: NetEmission, track: Option<u64>|
            {
                &&& #[trigger] peer_ensured(before, limit, peer, middle, track)
                &&& match track {
                    None => after == middle && code == 0,
                    Some(id) => series_emitted(
                        middle,
                        key,
                        item,
                        Some(TrackTypeView::Custom { id }),
                        timestamp,
                        after,
                        code,
                    ),
                }
            },
    }
}

/// What sending samples in turn does, up to the first that is refused; `code` is
/// the number that came back for it, or zero.
pub open spec fn stats_emitted(
    before: NetEmission,
    limit: usize,
    scope: ScopeKey,
    protocol: NetProtocol,
    items: Seq<CounterSampleView>,
    timestamp: u64,
    after: NetEmission,
    code: i32,
) -> bool
    decreases items.len(),
{
    if items.len() == 0 {
        after == before && code == 0
    } else {
        exists|middle: NetEmission, c: i32|
            {
                &&& stats_emitted(
                    before,
                    limit,
                    scope,
                    protocol,
                    items.drop_last(),
                    timestamp,
                    middle,
                    c,
                )
                &&& #[trigger] next_emitted(
                    middle,
                    c,
                    limit,
                    scope,
                    protocol,
                    items.last(),
                    timestamp,
                    after,
                    code,
                )
            }
    }
}

/// What sending one more sample does, unless one before it was refused.
pub open spec fn next_emitted(
    before: NetEmission,
    refused: i32,
    limit: usize,
    scope: ScopeKey,
    protocol: NetProtocol,
    item: CounterSampleView,
    timestamp: u64,
    after: NetEmission,
    code: i32,
) -> bool {
    if refused != 0 {
        after == before && code == refused
    } else {
        sample_emitted(before, limit, scope, protocol, item, timestamp, after, code)
    }
}

/// Once refused, nothing more is sent.
proof fn lemma_refused(
    before: NetEmission,
    limit: usize,
    scope: ScopeKey,
    protocol: NetProtocol,
    items: Seq<CounterSampleView>,
    n: int,
    timestamp: u64,
    after: NetEmission,
    code: i32,
)
    requires
        0 <= n <= items.len(),
        code != 0,
        stats_emitted(before, limit, scope, protocol, items.take(n), timestamp, after, code),
    ensures
        stats_emitted(before, limit, scope, protocol, items, timestamp, after, code),
    decreases items.len() - n,
{
    if n < items.len() {
        assert(items.take(n + 1).drop_last() =~= items.take(n));
        assert(next_emitted(
            after,
            code,
            limit,
            scope,
            protocol,
            items.take(n + 1).last(),
            timestamp,
            after,
            code,
        ));
        lemma_refused(before, limit, scope, protocol, items, n + 1, timestamp, after, code);
    } else {
        assert(items.take(n) =~= items);
    }
}

/// The state that samples are taken in: what has been sent, and the counters of
/// the last sample.
pub struct NetState {
    pub emission: NetEmission,
    pub tcp: StatsValue,
    pub udp: StatsValue,
    pub processes: Map<ProcessKey, StatsValue>,
    pub peers: Map<PeerKey, StatsValue>,
}

impl NetState {
    /// The last counters of the host.
    pub open spec fn last(self, protocol: NetProtocol) -> StatsValue {
        match protocol {
            NetProtocol::Tcp => self.tcp,
            NetProtocol::Udp => self.udp,
        }
    }

    /// The state with new counters of the host, and with something sent.
    pub open spec fn read(
        self,
        protocol: NetProtocol,
        current: StatsValue,
        emission: NetEmission,
    ) -> NetState {
        match protocol {
            NetProtocol::Tcp => NetState { tcp: current, emission, ..self },
            NetProtocol::Udp => NetState { udp: current, emission, ..self },
        }
    }
}

/// What sampling one protocol of the host does: the growth of its counters is
/// sent and added to `total`. `failed` says that its counters could not be read.
pub open spec fn protocol_sampled(
    config: &NetTrackConfig,
    protocol: NetProtocol,
    reading: Result<StatsValue, BpfError>,
    elapsed_ns: u64,
    now: u64,
    before: (NetState, StatsValue),
    after: (NetState, StatsValue),
    code: i32,
    failed: bool,
) -> bool {
    if !config.covers(protocol) {
        after == before && code == 0 && !failed
    } else {
        match reading {
            Err(_) => after == before && failed,
            Ok(current) => {
                let delta = current.since(Some(before.0.last(protocol)));
                &&& !failed
                &&& after.1 == before.1.plus(delta)
                &&& after.0 == before.0.read(protocol, current, after.0.emission)
                &&& stats_emitted(
                    before.0.emission,
                    config.max_peer_tracks,
                    ScopeKey::Host,
                    protocol,
                    sample_list(config, protocol, delta, elapsed_ns),
                    now,
                    after.0.emission,
                    code,
                )
            },
        }
    }
}

/// What sampling the host does: its protocols in turn, up to one whose samples
/// are refused, and then the totals. `failed` says which protocol could not be
/// read, if any.
pub open spec fn host_sampled(
    config: &NetTrackConfig,
    tcp: Result<StatsValue, BpfError>,
    udp: Result<StatsValue, BpfError>,
    elapsed_ns: u64,
    now: u64,
    before: NetState,
    after: NetState,
    failed: Option<NetProtocol>,
) -> bool {
    exists|first: (NetState, StatsValue), c: i32, f: bool|
        {
            &&& #[trigger] protocol_sampled(
                config,
                NetProtocol::Tcp,
                tcp,
                elapsed_ns,
                now,
                (before, no_stats()),
                first,
                c,
                f,
            )
            &&& if f {
                after == first.0 && failed == Some(NetProtocol::Tcp)
            } else if c != 0 {
                failed is None && totals_sampled(config, elapsed_ns, now, first, after)
            } else {
                udp_sampled(config, udp, elapsed_ns, now, first, after, failed)
            }
        }
}

/// What sampling the second protocol of the host, and the totals, does.
pub open spec fn udp_sampled(
    config: &NetTrackConfig,
    udp: Result<StatsValue, BpfError>,
    elapsed_ns: u64,
    now: u64,
    first: (NetState, StatsValue),
    after: NetState,
    failed: Option<NetProtocol>,
) -> bool {
    exists|second: (NetState, StatsValue), d: i32, g: bool|
        {
            &&& #[trigger] protocol_sampled(
                config,
                NetProtocol::Udp,
                udp,
                elapsed_ns,
                now,
                first,
                second,
                d,
                g,
            )
            &&& if g {
                after == second.0 && failed == Some(NetProtocol::Udp)
            } else {
                failed is None && totals_sampled(config, elapsed_ns, now, second, after)
            }
        }
}

/// What sending the totals of the host does.
pub open spec fn totals_sampled(
    config: &NetTrackConfig,
    elapsed_ns: u64,
    now: u64,
    before: (NetState, StatsValue),
    after: NetState,
) -> bool {
    &&& after == (NetState { emission: after.emission, ..before.0 })
    &&& exists|code: i32|
        #[trigger] stats_emitted(
            before.0.emission,
            config.max_peer_tracks,
            ScopeKey::Host,
            NetProtocol::Tcp,
            total_list(config, before.1, elapsed_ns),
            now,
            after.emission,
            code,
        )
}

/// What a map holds for a key.
pub open spec fn held<K, V>(map: Map<K, V>, key: K) -> Option<V> {
    if map.contains_key(key) {
        Some(map[key])
    } else {
        None
    }
}

/// What sampling a process does, with something sent.
pub open spec fn process_read(
    before: NetState,
    key: ProcessKey,
    current: StatsValue,
    emission: NetEmission,
) -> NetState {
    NetState { processes: before.processes.insert(key, current), emission, ..before }
}

/// What sampling processes in turn does, up to one whose samples are refused; one
/// of an unknown protocol is passed over.
pub open spec fn processes_sampled(
    config: &NetTrackConfig,
    list: Seq<(ProcessKey, StatsValue)>,
    elapsed_ns: u64,
    now: u64,
    before: NetState,
    after: NetState,
    stopped: bool,
) -> bool
    decreases list.len(),
{
    if list.len() == 0 {
        after == before && !stopped
    } else {
        exists|middle: NetState, s: bool|
            {
                &&& processes_sampled(
                    config,
                    list.drop_last(),
                    elapsed_ns,
                    now,
                    before,
                    middle,
                    s,
                )
                &&& #[trigger] next_process_sampled(
                    config,
                    list.last(),
                    elapsed_ns,
                    now,
                    middle,
                    s,
                    after,
                    stopped,
                )
            }
    }
}

/// What sampling one more process does, unless one before it was refused.
pub open spec fn next_process_sampled(
    config: &NetTrackConfig,
    item: (ProcessKey, StatsValue),
    elapsed_ns: u64,
    now: u64,
    before: NetState,
    refused: bool,
    after: NetState,
    stopped: bool,
) -> bool {
    if refused {
        after == before && stopped
    } else {
        process_sampled(config, item, elapsed_ns, now, before, after, stopped)
    }
}

/// What sampling one process does.
pub open spec fn process_sampled(
    config: &NetTrackConfig,
    item: (ProcessKey, StatsValue),
    elapsed_ns: u64,
    now: u64,
    before: NetState,
    after: NetState,
    stopped: bool,
) -> bool {
    match protocol_of(item.0.protocol) {
        None => after == before && !stopped,
        Some(protocol) => {
            let delta = item.1.since(held(before.processes, item.0));
            &&& after == process_read(before, item.0, item.1, after.emission)
            &&& exists|code: i32|
                #[trigger] stats_emitted(
                    before.emission,
                    config.max_peer_tracks,
                    ScopeKey::Process(item.0.tgid),
                    protocol,
                    sample_list(config, protocol, delta, elapsed_ns),
                    now,
                    after.emission,
                    code,
                ) && stopped == (code != 0)
        },
    }
}

/// Once refused, no more processes are sampled.
proof fn lemma_processes_stopped(
    config: &NetTrackConfig,
    list: Seq<(ProcessKey, StatsValue)>,
    n: int,
    elapsed_ns: u64,
    now: u64,
    before: NetState,
    after: NetState,
)
    requires
        0 <= n <= list.len(),
        processes_sampled(config, list.take(n), elapsed_ns, now, before, after, true),
    ensures
        processes_sampled(config, list, elapsed_ns, now, before, after, true),
    decreases list.len() - n,
{
    if n < list.len() {
        assert(list.take(n + 1).drop_last() =~= list.take(n));
        assert(next_process_sampled(
            config,
            list.take(n + 1).last(),
            elapsed_ns,
            now,
            after,
            true,
            after,
            true,
        ));
        lemma_processes_stopped(config, list, n + 1, elapsed_ns, now, before, after);
    } else {
        assert(list.take(n) =~= list);
    }
}

/// What sampling a peer does, with something sent.
pub open spec fn peer_read(
    before: NetState,
    key: PeerKey,
    current: StatsValue,
    emission: NetEmission,
) -> NetState {
    NetState { peers: before.peers.insert(key, current), emission, ..before }
}

/// What sampling one peer does.
pub open spec fn peer_sampled(
    config: &NetTrackConfig,
    item: (PeerKey, StatsValue),
    elapsed_ns: u64,
    now: u64,
    before: NetState,
    after: NetState,
    stopped: bool,
) -> bool {
    match protocol_of(item.0.protocol) {
        None => after == before && !stopped,
        Some(protocol) => {
            let delta = item.1.since(held(before.peers, item.0));
            &&& after == peer_read(before, item.0, item.1, after.emission)
            &&& exists|code: i32|
                #[trigger] stats_emitted(
                    before.emission,
                    config.max_peer_tracks,
                    ScopeKey::Peer(item.0),
                    protocol,
                    sample_list(config, protocol, delta, elapsed_ns),
                    now,
                    after.emission,
                    code,
                ) && stopped == (code != 0)
        },
    }
}

/// What sampling peers in turn does, up to one whose samples are refused; one of
/// an unknown protocol is passed over.
pub open spec fn peers_sampled(
    config: &NetTrackConfig,
    list: Seq<(PeerKey, StatsValue)>,
    elapsed_ns: u64,
    now: u64,
    before: NetState,
    after: NetState,
    stopped: bool,
) -> bool
    decreases list.len(),
{
    if list.len() == 0 {
        after == before && !stopped
    } else {
        exists|middle: NetState, s: bool|
            {
                &&& peers_sampled(
                    config,
                    list.drop_last(),
                    elapsed_ns,
                    now,
                    before,
                    middle,
                    s,
                )
                &&& #[trigger] next_peer_sampled(
                    config,
                    list.last(),
                    elapsed_ns,
                    now,
                    middle,
                    s,
                    after,
                    stopped,
                )
            }
    }
}

/// What sampling one more peer does, unless one before it was refused.
pub open spec fn next_peer_sampled(
    config: &NetTrackConfig,
    item: (PeerKey, StatsValue),
    elapsed_ns: u64,
    now: u64,
    before: NetState,
    refused: bool,
    after: NetState,
    stopped: bool,
) -> bool {
    if refused {
        after == before && stopped
    } else {
        peer_sampled(config, item, elapsed_ns, now, before, after, stopped)
    }
}

/// Once refused, no more peers are sampled.
proof fn lemma_peers_stopped(
    config: &NetTrackConfig,
    list: Seq<(PeerKey, StatsValue)>,
    n: int,
    elapsed_ns: u64,
    now: u64,
    before: NetState,
    after: NetState,
)
    requires
        0 <= n <= list.len(),
        peers_sampled(config, list.take(n), elapsed_ns, now, before, after, true),
    ensures
        peers_sampled(config, list, elapsed_ns, now, before, after, true),
    decreases list.len() - n,
{
    if n < list.len() {
        assert(list.take(n + 1).drop_last() =~= list.take(n));
        assert(next_peer_sampled(
            config,
            list.take(n + 1).last(),
            elapsed_ns,
            now,
            after,
            true,
            after,
            true,
        ));
        lemma_peers_stopped(config, list, n + 1, elapsed_ns, now, before, after);
    } else {
        assert(list.take(n) =~= list);
    }
}

/// The time since the last sample, at least one nanosecond.
pub open spec fn elapsed_since(last: u64, now: u64) -> u64 {
    if less(now, last) > 1 {
        less(now, last)
    } else {
        1
    }
}

/// The state of a network tracker.
pub struct NetTrack {
    config: NetTrackConfig,
    last_sample_ns: u64,
    last_peer_sample_ns: u64,
    global_tcp: StatsValue,
    global_udp: StatsValue,
    process_previous: Table<ProcessKey, StatsValue>,
    peer_previous: Table<PeerKey, StatsValue>,
    series_ids: Table<SeriesKey, u64>,
    submitted_tracks: HashSet<u64>,
    peer_track_ids: Table<PeerKey, u64>,
}

impl NetTrack {
    pub closed spec fn spec_config(&self) -> NetTrackConfig {
        self.config
    }

    /// When the host and the processes were sampled last.
    pub closed spec fn last_sample(&self) -> u64 {
        self.last_sample_ns
    }

    /// When the peers were sampled last.
    pub closed spec fn last_peer_sample(&self) -> u64 {
        self.last_peer_sample_ns
    }

    /// What has been sent, with the messages of a sink.
    pub closed spec fn emission(&self, history: Seq<(MessageView, i32)>) -> NetEmission {
        NetEmission {
            series: self.series_ids@,
            announced: self.submitted_tracks@,
            peers: self.peer_track_ids@,
            history,
        }
    }

    /// The state that samples are taken in.
    pub closed spec fn state(&self, history: Seq<(MessageView, i32)>) -> NetState {
        NetState {
            emission: self.emission(history),
            tcp: self.global_tcp,
            udp: self.global_udp,
            processes: self.process_previous@,
            peers: self.peer_previous@,
        }
    }

    /// Each peer has one track.
    pub closed spec fn wf(&self) -> bool {
        self.peer_track_ids.wf()
    }

    /// Whether nothing but what was sent has changed.
    pub open spec fn only_sent(
        &self,
        history: Seq<(MessageView, i32)>,
        before: &NetTrack,
        old_history: Seq<(MessageView, i32)>,
    ) -> bool {
        &&& self.same_schedule(before)
        &&& self.state(history) == (NetState {
            emission: self.state(history).emission,
            ..before.state(old_history)
        })
        &&& self.state(history).emission == self.emission(history)
    }

    /// Whether the configuration and the times of the last samples are the same.
    pub open spec fn same_schedule(&self, before: &NetTrack) -> bool {
        &&& self.wf()
        &&& self.spec_config() == before.spec_config()
        &&& self.last_sample() == before.last_sample()
        &&& self.last_peer_sample() == before.last_peer_sample()
    }

    pub fn new(config: NetTrackConfig, now: u64) -> (r: Self)
        ensures
            r.wf(),
            r.spec_config() == config,
            r.last_sample() == now,
            r.last_peer_sample() == now,
            forall|history: Seq<(MessageView, i32)>| #[trigger]
                r.state(history) == (NetState {
                    emission: NetEmission {
                        series: Map::empty(),
                        announced: Set::empty(),
                        peers: Map::empty(),
                        history,
                    },
                    tcp: no_stats(),
                    udp: no_stats(),
                    processes: Map::empty(),
                    peers: Map::empty(),
                }),
    {
        NetTrack {
            config,
            last_sample_ns: now,
            last_peer_sample_ns: now,
            global_tcp: StatsValue::default(),
            global_udp: StatsValue::default(),
            process_previous: Table::new(),
            peer_previous: Table::new(),
            series_ids: Table::new(),
            submitted_tracks: HashSet::new(),
            peer_track_ids: Table::new(),
        }
    }

    /// Announces a peer under `id`.
    fn announce_peer<S: MessageSink>(&mut self, key: PeerKey, id: u64, sink: &mut S) -> (code: i32)
        requires
            old(self).wf(),
        ensures
            final(self).only_sent(final(sink).history(), old(self), old(sink).history()),
            final(self).emission(final(sink).history()) == peer_announced(
                old(self).emission(old(sink).history()),
                key,
                id,
                code,
            ),
    {
        let code: i32 = sink.submit(
            Message::Event(
                Event::Track(
                    Track {
                        name: key.track_name(),
                        track_type: TrackType::Custom { id },
                        parent: Some(TrackType::Process { pid: key.tgid as i32 }),
                    },
                ),
            ),
        );
        if code == 0 {
            self.peer_track_ids.insert(key, id);
        }
        code
    }

    /// The track of a peer; one that has none is announced under a random id, if
    /// there is room for it.
    pub fn ensure_peer_track<S: MessageSink>(&mut self, key: PeerKey, sink: &mut S) -> (r: Option<
        u64,
    >)
        requires
            old(self).wf(),
        ensures
            final(self).only_sent(final(sink).history(), old(self), old(sink).history()),
            peer_ensured(
                old(self).emission(old(sink).history()),
                old(self).spec_config().max_peer_tracks,
                key,
                final(self).emission(final(sink).history()),
                r,
            ),
    {
        if let Some(id) = self.peer_track_ids.get(&key) {
            return Some(id);
        }
        if self.peer_track_ids.len() >= self.config.max_peer_tracks {
            return None;
        }
        let id: u64 = random_u64();
        let ghost before = self.emission(sink.history());
        let code: i32 = self.announce_peer(key, id, sink);
        assert(self.emission(sink.history()) == peer_announced(before, key, id, code));
        if code != 0 {
            return None;
        }
        Some(id)
    }

    /// Sends a sample under a series whose id is `id`.
    fn emit_with_id<S: MessageSink>(
        &mut self,
        key: SeriesKey,
        item: CounterSample,
        id: u64,
        parent: Option<TrackType>,
        timestamp: u64,
        sink: &mut S,
    ) -> (code: i32)
        requires
            old(self).wf(),
        ensures
            final(self).only_sent(final(sink).history(), old(self), old(sink).history()),
            id_emitted(
                series_named(old(self).emission(old(sink).history()), key, id),
                item@,
                id,
                crate::protocol::optional_track(parent),
                timestamp,
                final(self).emission(final(sink).history()),
                code,
            ),
    {
        broadcast use group_hash_axioms;

        let ghost v = item@;
        let ghost p = crate::protocol::optional_track(parent);
        let ghost start = self.emission(sink.history());
        self.series_ids.insert(key, id);
        let ghost named = series_named(start, key, id);
        assert(self.emission(sink.history()) == named);
        if self.submitted_tracks.insert(id) {
            let code: i32 = sink.submit(
                Message::Event(
                    Event::Track(
                        Track {
                            name: item.name.clone(),
                            track_type: TrackType::Counter { id, unit: Some(item.unit.to_owned()) },
                            parent,
                        },
                    ),
                ),
            );
            assert(self.emission(sink.history()) == series_announced(named, v, id, p, code));
            if code != 0 {
                return code;
            }
        } else {
            assert(self.submitted_tracks@ =~= named.announced);
            assert(self.emission(sink.history()) == named);
        }
        let ghost known = self.emission(sink.history());
        let code: i32 = sink.submit(
            Message::Event(
                Event::Counter(
                    Counter {
                        name: item.name,
                        value: item.value,
                        timestamp,
                        track_id: TrackId::Counter { id },
                        labels: Labels::new(),
                        unit: Some(item.unit.to_owned()),
                    },
                ),
            ),
        );
        assert(self.emission(sink.history()) == value_sent(known, v, id, timestamp, code));
        code
    }

    /// Sends a sample. Returns the number that came back last, or zero.
    pub fn emit_sample<S: MessageSink>(
        &mut self,
        scope: ScopeKey,
        protocol: NetProtocol,
        item: CounterSample,
        timestamp: u64,
        sink: &mut S,
    ) -> (code: i32)
        requires
            old(self).wf(),
        ensures
            final(self).only_sent(final(sink).history(), old(self), old(sink).history()),
            sample_emitted(
                old(self).emission(old(sink).history()),
                old(self).spec_config().max_peer_tracks,
                scope,
                protocol,
                item@,
                timestamp,
                final(self).emission(final(sink).history()),
                code,
            ),
    {
        let ghost start = self.emission(sink.history());
        let ghost limit = self.spec_config().max_peer_tracks;
        let parent: Option<TrackType> = match scope {
            ScopeKey::Host => None,
            ScopeKey::Process(tgid) => Some(TrackType::Process { pid: tgid as i32 }),
            ScopeKey::Peer(key) => {
                let track: Option<u64> = self.ensure_peer_track(key, sink);
                assert(peer_ensured(start, limit, key, self.emission(sink.history()), track));
                match track {
                    Some(id) => Some(TrackType::Custom { id }),
                    None => {
                        return 0;
                    },
                }
            },
        };
        let ghost middle = self.emission(sink.history());
        let key = SeriesKey { scope, protocol, kind: item.kind };
        let id: u64 = match self.series_ids.get(&key) {
            Some(id) => id,
            None => random_u64(),
        };
        let ghost v = item@;
        let ghost p = crate::protocol::optional_track(parent);
        let code: i32 = self.emit_with_id(key, item, id, parent, timestamp, sink);
        proof {
            assert(id_emitted(
                series_named(middle, key, id),
                v,
                id,
                p,
                timestamp,
                self.emission(sink.history()),
                code,
            ));
            assert(series_emitted(
                middle,
                key,
                v,
                p,
                timestamp,
                self.emission(sink.history()),
                code,
            ));
        }
        code
    }

    /// Sends samples in turn, up to the first that is refused.
    fn emit_list<S: MessageSink>(
        &mut self,
        scope: ScopeKey,
        protocol: NetProtocol,
        samples: Vec<CounterSample>,
        timestamp: u64,
        sink: &mut S,
    ) -> (code: i32)
        requires
            old(self).wf(),
        ensures
            final(self).only_sent(final(sink).history(), old(self), old(sink).history()),
            stats_emitted(
                old(self).emission(old(sink).history()),
                old(self).spec_config().max_peer_tracks,
                scope,
                protocol,
                views(samples@),
                timestamp,
                final(self).emission(final(sink).history()),
                code,
            ),
    {
        let ghost all = views(samples@);
        let ghost start = self.emission(sink.history());
        let ghost limit = self.spec_config().max_peer_tracks;
        let mut rest: Vec<CounterSample> = samples;
        let total: usize = rest.len();
        let mut done: usize = 0;
        proof {
            assert(all.take(0) =~= seq![]);
            assert(all.skip(0) =~= all);
        }
        while done < total
            invariant
                done <= total == all.len(),
                all == views(samples@),
                views(rest@) == all.skip(done as int),
                self.wf(),
                self.only_sent(sink.history(), old(self), old(sink).history()),
                limit == old(self).spec_config().max_peer_tracks,
                start == old(self).emission(old(sink).history()),
                stats_emitted(
                    start,
                    limit,
                    scope,
                    protocol,
                    all.take(done as int),
                    timestamp,
                    self.emission(sink.history()),
                    0,
                ),
            decreases total - done,
        {
            let ghost before = self.emission(sink.history());
            let ghost left = rest@;
            assert(views(left).len() == total - done);
            let item: CounterSample = rest.remove(0);
            proof {
                assert(item@ == views(left)[0]);
                assert(views(rest@) =~= views(left).drop_first());
                assert(all.skip(done as int).drop_first() =~= all.skip(done + 1));
                assert(all.take(done + 1).drop_last() =~= all.take(done as int));
                assert(all.take(done + 1).last() == item@);
            }
            let code: i32 = self.emit_sample(scope, protocol, item, timestamp, sink);
            let ghost after = self.emission(sink.history());
            done += 1;
            proof {
                let some = all.take(done as int);
                assert(next_emitted(
                    before,
                    0,
                    limit,
                    scope,
                    protocol,
                    some.last(),
                    timestamp,
                    after,
                    code,
                ));
                assert(stats_emitted(
                    start,
                    limit,
                    scope,
                    protocol,
                    some,
                    timestamp,
                    after,
                    code,
                ));
            }
            if code != 0 {
                proof {
                    lemma_refused(
                        start,
                        limit,
                        scope,
                        protocol,
                        all,
                        done as int,
                        timestamp,
                        after,
                        code,
                    );
                }
                return code;
            }
        }
        assert(all.take(done as int) =~= all);
        0
    }

    /// Sends the samples of a protocol.
    fn emit_stats<S: MessageSink>(
        &mut self,
        scope: ScopeKey,
        protocol: NetProtocol,
        stats: StatsValue,
        elapsed_ns: u64,
        timestamp: u64,
        sink: &mut S,
    ) -> (code: i32)
        requires
            old(self).wf(),
        ensures
            final(self).only_sent(final(sink).history(), old(self), old(sink).history()),
            stats_emitted(
                old(self).emission(old(sink).history()),
                old(self).spec_config().max_peer_tracks,
                scope,
                protocol,
                sample_list(&old(self).spec_config(), protocol, stats, elapsed_ns),
                timestamp,
                final(self).emission(final(sink).history()),
                code,
            ),
    {
        let samples: Vec<CounterSample> = samples_for(&self.config, protocol, stats, elapsed_ns);
        self.emit_list(scope, protocol, samples, timestamp, sink)
    }

    /// Samples one protocol of the host. Returns the number that came back, or the
    /// error for counters that could not be read.
    fn sample_protocol<S: MessageSink>(
        &mut self,
        protocol: NetProtocol,
        reading: Result<StatsValue, BpfError>,
        total: &mut StatsValue,
        elapsed_ns: u64,
        now: u64,
        sink: &mut S,
    ) -> (r: Result<i32, BpfError>)
        requires
            old(self).wf(),
        ensures
            final(self).same_schedule(old(self)),
            protocol_sampled(
                &old(self).spec_config(),
                protocol,
                reading,
                elapsed_ns,
                now,
                (old(self).state(old(sink).history()), *old(total)),
                (final(self).state(final(sink).history()), *final(total)),
                match r {
                    Ok(code) => code,
                    Err(_) => 0,
                },
                r is Err,
            ),
            r matches Err(e) ==> reading == Err::<StatsValue, BpfError>(e),
    {
        let ghost before = (self.state(sink.history()), *total);
        let ghost config = self.spec_config();
        if !self.config.has_protocol(protocol) {
            assert(protocol_sampled(
                &config,
                protocol,
                reading,
                elapsed_ns,
                now,
                before,
                before,
                0,
                false,
            ));
            return Ok(0);
        }
        match reading {
            Err(e) => {
                assert(protocol_sampled(
                    &config,
                    protocol,
                    reading,
                    elapsed_ns,
                    now,
                    before,
                    before,
                    0,
                    true,
                ));
                Err(e)
            },
            Ok(current) => {
                let previous: StatsValue = match protocol {
                    NetProtocol::Tcp => self.global_tcp,
                    NetProtocol::Udp => self.global_udp,
                };
                let delta: StatsValue = current.delta(Some(previous));
                total.accumulate(delta);
                match protocol {
                    NetProtocol::Tcp => {
                        self.global_tcp = current;
                    },
                    NetProtocol::Udp => {
                        self.global_udp = current;
                    },
                }
                let ghost middle = self.state(sink.history());
                assert(middle == before.0.read(protocol, current, before.0.emission));
                let code: i32 = self.emit_stats(
                    ScopeKey::Host,
                    protocol,
                    delta,
                    elapsed_ns,
                    now,
                    sink,
                );
                assert(protocol_sampled(
                    &config,
                    protocol,
                    reading,
                    elapsed_ns,
                    now,
                    before,
                    (self.state(sink.history()), *total),
                    code,
                    false,
                ));
                Ok(code)
            },
        }
    }

    /// Samples the host, whose counters are `tcp` and `udp`.
    fn sample_host<S: MessageSink>(
        &mut self,
        tcp: Result<StatsValue, BpfError>,
        udp: Result<StatsValue, BpfError>,
        elapsed_ns: u64,
        now: u64,
        sink: &mut S,
    ) -> (r: Result<(), BpfError>)
        requires
            old(self).wf(),
        ensures
            final(self).same_schedule(old(self)),
            host_outcome(
                &old(self).spec_config(),
                tcp,
                udp,
                elapsed_ns,
                now,
                old(self).state(old(sink).history()),
                final(self).state(final(sink).history()),
                r,
            ),
    {
        let ghost config = self.spec_config();
        let ghost before = self.state(sink.history());
        let mut total: StatsValue = StatsValue::default();
        let first: i32 = match self.sample_protocol(
            NetProtocol::Tcp,
            tcp,
            &mut total,
            elapsed_ns,
            now,
            sink,
        ) {
            Ok(code) => code,
            Err(e) => {
                assert(host_sampled(
                    &config,
                    tcp,
                    udp,
                    elapsed_ns,
                    now,
                    before,
                    self.state(sink.history()),
                    Some(NetProtocol::Tcp),
                ));
                return Err(e);
            },
        };
        let ghost one = (self.state(sink.history()), total);
        if first == 0 {
            match self.sample_protocol(NetProtocol::Udp, udp, &mut total, elapsed_ns, now, sink) {
                Ok(_) => {},
                Err(e) => {
                    proof {
                        assert(udp_sampled(
                            &config,
                            udp,
                            elapsed_ns,
                            now,
                            one,
                            self.state(sink.history()),
                            Some(NetProtocol::Udp),
                        ));
                        assert(host_sampled(
                            &config,
                            tcp,
                            udp,
                            elapsed_ns,
                            now,
                            before,
                            self.state(sink.history()),
                            Some(NetProtocol::Udp),
                        ));
                    }
                    return Err(e);
                },
            }
        }
        let ghost two = (self.state(sink.history()), total);
        let samples: Vec<CounterSample> = total_samples(&self.config, total, elapsed_ns);
        let code: i32 = self.emit_list(ScopeKey::Host, NetProtocol::Tcp, samples, now, sink);
        proof {
            let after = self.state(sink.history());
            assert(stats_emitted(
                two.0.emission,
                config.max_peer_tracks,
                ScopeKey::Host,
                NetProtocol::Tcp,
                total_list(&config, two.1, elapsed_ns),
                now,
                after.emission,
                code,
            ));
            assert(totals_sampled(&config, elapsed_ns, now, two, after));
            if first == 0 {
                assert(udp_sampled(&config, udp, elapsed_ns, now, one, after, None));
            }
            assert(host_sampled(&config, tcp, udp, elapsed_ns, now, before, after, None));
        }
        Ok(())
    }

    /// Samples processes.
    fn sample_processes<S: MessageSink>(
        &mut self,
        list: &Vec<(ProcessKey, StatsValue)>,
        elapsed_ns: u64,
        now: u64,
        sink: &mut S,
    )
        requires
            old(self).wf(),
        ensures
            final(self).same_schedule(old(self)),
            exists|stopped: bool|
                #[trigger] processes_sampled(
                    &old(self).spec_config(),
                    list@,
                    elapsed_ns,
                    now,
                    old(self).state(old(sink).history()),
                    final(self).state(final(sink).history()),
                    stopped,
                ),
    {
        let ghost config = self.spec_config();
        let ghost start = self.state(sink.history());
        let mut i: usize = 0;
        assert(list@.take(0) =~= seq![]);
        while i < list.len()
            invariant
                i <= list@.len(),
                self.same_schedule(old(self)),
                config == old(self).spec_config(),
                start == old(self).state(old(sink).history()),
                processes_sampled(
                    &config,
                    list@.take(i as int),
                    elapsed_ns,
                    now,
                    start,
                    self.state(sink.history()),
                    false,
                ),
            decreases list@.len() - i,
        {
            let (key, current): (ProcessKey, StatsValue) = list[i];
            let ghost before = self.state(sink.history());
            let ghost some = list@.take(i + 1);
            proof {
                assert(some.drop_last() =~= list@.take(i as int));
                assert(some.last() == (key, current));
                assert(processes_sampled(
                    &config,
                    some.drop_last(),
                    elapsed_ns,
                    now,
                    start,
                    before,
                    false,
                ));
            }
            i += 1;
            match NetProtocol::from_index(key.protocol) {
                None => {
                    proof {
                        assert(next_process_sampled(
                            &config,
                            some.last(),
                            elapsed_ns,
                            now,
                            before,
                            false,
                            before,
                            false,
                        ));
                        assert(processes_sampled(
                            &config,
                            some,
                            elapsed_ns,
                            now,
                            start,
                            before,
                            false,
                        ));
                    }
                },
                Some(protocol) => {
                    let previous: Option<StatsValue> = self.process_previous.get(&key);
                    self.process_previous.insert(key, current);
                    let delta: StatsValue = current.delta(previous);
                    let ghost middle = self.state(sink.history());
                    assert(middle == process_read(before, key, current, before.emission));
                    let code: i32 = self.emit_stats(
                        ScopeKey::Process(key.tgid),
                        protocol,
                        delta,
                        elapsed_ns,
                        now,
                        sink,
                    );
                    let ghost after = self.state(sink.history());
                    proof {
                        assert(stats_emitted(
                            before.emission,
                            config.max_peer_tracks,
                            ScopeKey::Process(key.tgid),
                            protocol,
                            sample_list(&config, protocol, delta, elapsed_ns),
                            now,
                            after.emission,
                            code,
                        ));
                        assert(next_process_sampled(
                            &config,
                            some.last(),
                            elapsed_ns,
                            now,
                            before,
                            false,
                            after,
                            code != 0,
                        ));
                        assert(processes_sampled(
                            &config,
                            some,
                            elapsed_ns,
                            now,
                            start,
                            after,
                            code != 0,
                        ));
                    }
                    if code != 0 {
                        proof {
                            lemma_processes_stopped(
                                &config,
                                list@,
                                i as int,
                                elapsed_ns,
                                now,
                                start,
                                after,
                            );
                        }
                        return;
                    }
                },
            }
        }
        assert(list@.take(i as int) =~= list@);
    }

    /// Takes a sample at `now` of the host and of the processes, given what was
    /// read of them. An error ends the sample, and leaves its time as it was.
    pub fn sample_host_and_processes<S: MessageSink>(
        &mut self,
        now: u64,
        tcp: Result<StatsValue, BpfError>,
        udp: Result<StatsValue, BpfError>,
        processes: Result<Vec<(ProcessKey, StatsValue)>, BpfError>,
        sink: &mut S,
    ) -> (r: Result<(), BpfError>)
        requires
            old(self).wf(),
        ensures
            final(self).wf(),
            final(self).spec_config() == old(self).spec_config(),
            final(self).last_peer_sample() == old(self).last_peer_sample(),
            final(self).last_sample() == (if r is Ok {
                now
            } else {
                old(self).last_sample()
            }),
            exists|middle: NetState, stopped: bool|
                #[trigger] both_sampled(
                    &old(self).spec_config(),
                    tcp,
                    udp,
                    processes,
                    elapsed_since(old(self).last_sample(), now),
                    now,
                    old(self).state(old(sink).history()),
                    middle,
                    final(self).state(final(sink).history()),
                    stopped,
                    r,
                ),
    {
        let ghost config = self.spec_config();
        let ghost before = self.state(sink.history());
        let elapsed: u64 = now.saturating_sub(self.last_sample_ns);
        let elapsed_ns: u64 = if elapsed > 1 {
            elapsed
        } else {
            1
        };
        assert(elapsed_ns == elapsed_since(old(self).last_sample(), now));
        if self.config.has_scope(NetScope::Host) {
            let result: Result<(), BpfError> = self.sample_host(tcp, udp, elapsed_ns, now, sink);
            if let Err(e) = result {
                assert(both_sampled(
                    &config,
                    tcp,
                    udp,
                    processes,
                    elapsed_ns,
                    now,
                    before,
                    self.state(sink.history()),
                    self.state(sink.history()),
                    false,
                    Err(e),
                ));
                return Err(e);
            }
        }
        let ghost middle = self.state(sink.history());
        let ghost mut stopped: bool = false;
        if self.config.has_scope(NetScope::Process) {
            match processes {
                Err(e) => {
                    assert(both_sampled(
                        &config,
                        tcp,
                        udp,
                        processes,
                        elapsed_ns,
                        now,
                        before,
                        middle,
                        self.state(sink.history()),
                        false,
                        Err(e),
                    ));
                    return Err(e);
                },
                Ok(list) => {
                    self.sample_processes(&list, elapsed_ns, now, sink);
                    proof {
                        stopped =
                        choose|s: bool|
                            #[trigger] processes_sampled(
                                &config,
                                list@,
                                elapsed_ns,
                                now,
                                middle,
                                self.state(sink.history()),
                                s,
                            );
                    }
                },
            }
        }
        let ghost after = self.state(sink.history());
        self.last_sample_ns = now;
        proof {
            assert(self.state(sink.history()) == after);
            assert(both_sampled(
                &config,
                tcp,
                udp,
                processes,
                elapsed_ns,
                now,
                before,
                middle,
                after,
                stopped,
                Ok(()),
            ));
        }
        Ok(())
    }

    /// Takes a sample at `now` of the peers, given what was read of them. An error
    /// leaves everything as it was.
    pub fn sample_peers<S: MessageSink>(
        &mut self,
        now: u64,
        peers: Result<Vec<(PeerKey, StatsValue)>, BpfError>,
        sink: &mut S,
    ) -> (r: Result<(), BpfError>)
        requires
            old(self).wf(),
        ensures
            final(self).wf(),
            final(self).spec_config() == old(self).spec_config(),
            final(self).last_sample() == old(self).last_sample(),
            match peers {
                Err(e) => {
                    &&& r == Err::<(), BpfError>(e)
                    &&& final(self).last_peer_sample() == old(self).last_peer_sample()
                    &&& final(self).state(final(sink).history()) == old(self).state(
                        old(sink).history(),
                    )
                },
                Ok(list) => {
                    &&& r is Ok
                    &&& final(self).last_peer_sample() == now
                    &&& exists|stopped: bool|
                        #[trigger] peers_sampled(
                            &old(self).spec_config(),
                            list@,
                            elapsed_since(old(self).last_peer_sample(), now),
                            now,
                            old(self).state(old(sink).history()),
                            final(self).state(final(sink).history()),
                            stopped,
                        )
                },
            },
    {
        let elapsed: u64 = now.saturating_sub(self.last_peer_sample_ns);
        let elapsed_ns: u64 = if elapsed > 1 {
            elapsed
        } else {
            1
        };
        match peers {
            Err(e) => Err(e),
            Ok(list) => {
                let ghost config = self.spec_config();
                let ghost before = self.state(sink.history());
                self.emit_peers(&list, elapsed_ns, now, sink);
                let ghost after = self.state(sink.history());
                let ghost stopped = choose|stopped: bool|
                    #[trigger] peers_sampled(
                        &config,
                        list@,
                        elapsed_ns,
                        now,
                        before,
                        after,
                        stopped,
                    );
                self.last_peer_sample_ns = now;
                proof {
                    assert(self.state(sink.history()) == after);
                    assert(elapsed_ns == elapsed_since(old(self).last_peer_sample(), now));
                    assert(peers_sampled(
                        &old(self).spec_config(),
                        list@,
                        elapsed_since(old(self).last_peer_sample(), now),
                        now,
                        old(self).state(old(sink).history()),
                        self.state(sink.history()),
                        stopped,
                    ));
                }
                Ok(())
            },
        }
    }

    fn emit_peers<S: MessageSink>(
        &mut self,
        list: &Vec<(PeerKey, StatsValue)>,
        elapsed_ns: u64,
        now: u64,
        sink: &mut S,
    )
        requires
            old(self).wf(),
        ensures
            final(self).same_schedule(old(self)),
            exists|stopped: bool|
                #[trigger] peers_sampled(
                    &old(self).spec_config(),
                    list@,
                    elapsed_ns,
                    now,
                    old(self).state(old(sink).history()),
                    final(self).state(final(sink).history()),
                    stopped,
                ),
    {
        let ghost config = self.spec_config();
        let ghost start = self.state(sink.history());
        let mut i: usize = 0;
        assert(list@.take(0) =~= seq![]);
        while i < list.len()
            invariant
                i <= list@.len(),
                self.same_schedule(old(self)),
                config == old(self).spec_config(),
                start == old(self).state(old(sink).history()),
                peers_sampled(
                    &config,
                    list@.take(i as int),
                    elapsed_ns,
                    now,
                    start,
                    self.state(sink.history()),
                    false,
                ),
            decreases list@.len() - i,
        {
            let (key, current): (PeerKey, StatsValue) = list[i];
            let ghost before = self.state(sink.history());
            let ghost some = list@.take(i + 1);
            proof {
                assert(some.drop_last() =~= list@.take(i as int));
                assert(some.last() == (key, current));
                assert(peers_sampled(
                    &config,
                    some.drop_last(),
                    elapsed_ns,
                    now,
                    start,
                    before,
                    false,
                ));
            }
            i += 1;
            match key.protocol() {
                None => {
                    proof {
                        assert(next_peer_sampled(
                            &config,
                            some.last(),
                            elapsed_ns,
                            now,
                            before,
                            false,
                            before,
                            false,
                        ));
                        assert(peers_sampled(
                            &config,
                            some,
                            elapsed_ns,
                            now,
                            start,
                            before,
                            false,
                        ));
                    }
                },
                Some(protocol) => {
                    let previous: Option<StatsValue> = self.peer_previous.get(&key);
                    self.peer_previous.insert(key, current);
                    let delta: StatsValue = current.delta(previous);
                    let ghost middle = self.state(sink.history());
                    assert(middle == peer_read(before, key, current, before.emission));
                    let code: i32 = self.emit_stats(
                        ScopeKey::Peer(key),
                        protocol,
                        delta,
                        elapsed_ns,
                        now,
                        sink,
                    );
                    let ghost after = self.state(sink.history());
                    proof {
                        assert(stats_emitted(
                            before.emission,
                            config.max_peer_tracks,
                            ScopeKey::Peer(key),
                            protocol,
                            sample_list(&config, protocol, delta, elapsed_ns),
                            now,
                            after.emission,
                            code,
                        ));
                        assert(next_peer_sampled(
                            &config,
                            some.last(),
                            elapsed_ns,
                            now,
                            before,
                            false,
                            after,
                            code != 0,
                        ));
                        assert(peers_sampled(
                            &config,
                            some,
                            elapsed_ns,
                            now,
                            start,
                            after,
                            code != 0,
                        ));
                    }
                    if code != 0 {
                        proof {
                            lemma_peers_stopped(
                                &config,
                                list@,
                                i as int,
                                elapsed_ns,
                                now,
                                start,
                                after,
                            );
                        }
                        return;
                    }
                },
            }
        }
        assert(list@.take(i as int) =~= list@);
    }

    /// Takes the samples that are due at `now`, or all if they are forced, given
    /// what was read for them.
    pub fn sample_if_due<S: MessageSink>(
        &mut self,
        now: u64,
        force: bool,
        readings: NetReadings,
        sink: &mut S,
    ) -> (r: Result<(), BpfError>)
        requires
            old(self).wf(),
            old(self).spec_config().problem() is None,
        ensures
            samples_taken(
                old(self),
                old(sink).history(),
                now,
                force,
                readings,
                final(self),
                final(sink).history(),
                r,
            ),
    {
        let ghost config = self.spec_config();
        let ghost before = self.state(sink.history());
        let due: bool = self.sample_due(now, force);
        let peers_due: bool = self.peers_due(now, force);
        let ghost mut first: Result<(), BpfError> = Ok(());
        if due {
            let result: Result<(), BpfError> = self.sample_host_and_processes(
                now,
                readings.tcp,
                readings.udp,
                readings.processes,
                sink,
            );
            if let Err(e) = result {
                assert(first_sampled(
                    &config,
                    readings,
                    due,
                    elapsed_since(old(self).last_sample(), now),
                    now,
                    before,
                    self.state(sink.history()),
                    Err(e),
                ));
                return Err(e);
            }
            proof {
                first = result;
            }
        }
        let ghost middle = self.state(sink.history());
        assert(first_sampled(
            &config,
            readings,
            due,
            elapsed_since(old(self).last_sample(), now),
            now,
            before,
            middle,
            first,
        ));
        if peers_due {
            let r: Result<(), BpfError> = self.sample_peers(now, readings.peers, sink);
            assert(then_sampled(
                &config,
                readings,
                peers_due,
                elapsed_since(old(self).last_peer_sample(), now),
                now,
                middle,
                first,
                self.state(sink.history()),
                r,
            ));
            return r;
        }
        Ok(())
    }

    /// Takes the samples that are due at `now`.
    pub fn poll<S: MessageSink>(&mut self, now: u64, readings: NetReadings, sink: &mut S) -> (r:
        Result<(), BpfError>)
        requires
            old(self).wf(),
            old(self).spec_config().problem() is None,
        ensures
            samples_taken(
                old(self),
                old(sink).history(),
                now,
                false,
                readings,
                final(self),
                final(sink).history(),
                r,
            ),
    {
        self.sample_if_due(now, false, readings, sink)
    }

    /// Takes the samples that are due at `now`.
    pub fn consume<S: MessageSink>(&mut self, now: u64, readings: NetReadings, sink: &mut S) -> (r:
        Result<(), BpfError>)
        requires
            old(self).wf(),
            old(self).spec_config().problem() is None,
        ensures
            samples_taken(
                old(self),
                old(sink).history(),
                now,
                false,
                readings,
                final(self),
                final(sink).history(),
                r,
            ),
    {
        self.sample_if_due(now, false, readings, sink)
    }

    /// Takes all samples, whether due or not.
    pub fn flush<S: MessageSink>(&mut self, now: u64, readings: NetReadings, sink: &mut S) -> (r:
        Result<(), BpfError>)
        requires
            old(self).wf(),
            old(self).spec_config().problem() is None,
        ensures
            samples_taken(
                old(self),
                old(sink).history(),
                now,
                true,
                readings,
                final(self),
                final(sink).history(),
                r,
            ),
    {
        self.sample_if_due(now, true, readings, sink)
    }

    /// Whether the host and the processes are to be sampled at `now`.
    pub fn sample_due(&self, now: u64, force: bool) -> (r: bool)
        requires
            self.spec_config().frequency > 0,
        ensures
            r == is_due(self.spec_config().frequency, self.last_sample(), now, force),
    {
        let interval: u64 = 1_000_000_000u64 / self.config.frequency;
        force || now.saturating_sub(self.last_sample_ns) >= interval
    }

    /// Whether the peers are to be sampled at `now`.
    pub fn peers_due(&self, now: u64, force: bool) -> (r: bool)
        requires
            self.spec_config().looks_at(NetScope::Peer) ==> self.spec_config().peer_frequency > 0,
        ensures
            r == (self.spec_config().looks_at(NetScope::Peer) && is_due(
                self.spec_config().peer_frequency,
                self.last_peer_sample(),
                now,
                force,
            )),
    {
        if !self.config.has_scope(NetScope::Peer) {
            return false;
        }
        let interval: u64 = 1_000_000_000u64 / self.config.peer_frequency;
        force || now.saturating_sub(self.last_peer_sample_ns) >= interval
    }
}

/// What sampling the host does and what it returns: the error of the protocol that
/// could not be read, if there is one.
pub open spec fn host_outcome(
    config: &NetTrackConfig,
    tcp: Result<StatsValue, BpfError>,
    udp: Result<StatsValue, BpfError>,
    elapsed_ns: u64,
    now: u64,
    before: NetState,
    after: NetState,
    r: Result<(), BpfError>,
) -> bool {
    match r {
        Ok(_) => host_sampled(config, tcp, udp, elapsed_ns, now, before, after, None),
        Err(e) => {
            ||| tcp == Err::<StatsValue, BpfError>(e) && host_sampled(
                config,
                tcp,
                udp,
                elapsed_ns,
                now,
                before,
                after,
                Some(NetProtocol::Tcp),
            )
            ||| udp == Err::<StatsValue, BpfError>(e) && host_sampled(
                config,
                tcp,
                udp,
                elapsed_ns,
                now,
                before,
                after,
                Some(NetProtocol::Udp),
            )
        },
    }
}

/// What sampling the host and the processes does, as far as the configuration asks
/// for it, and what is returned: an error of the host, or else of the processes.
pub open spec fn both_sampled(
    config: &NetTrackConfig,
    tcp: Result<StatsValue, BpfError>,
    udp: Result<StatsValue, BpfError>,
    processes: Result<Vec<(ProcessKey, StatsValue)>, BpfError>,
    elapsed_ns: u64,
    now: u64,
    before: NetState,
    middle: NetState,
    after: NetState,
    stopped: bool,
    r: Result<(), BpfError>,
) -> bool {
    let host = config.looks_at(NetScope::Host);
    ||| host && r is Err && after == middle && host_outcome(
        config,
        tcp,
        udp,
        elapsed_ns,
        now,
        before,
        middle,
        r,
    )
    ||| {
        &&& if host {
            host_sampled(config, tcp, udp, elapsed_ns, now, before, middle, None)
        } else {
            middle == before
        }
        &&& if config.looks_at(NetScope::Process) {
            match processes {
                Err(e) => after == middle && r == Err::<(), BpfError>(e),
                Ok(list) => r is Ok && processes_sampled(
                    config,
                    list@,
                    elapsed_ns,
                    now,
                    middle,
                    after,
                    stopped,
                ),
            }
        } else {
            after == middle && r is Ok
        }
    }
}

/// Whether samples that are taken so many times a second are due: they are forced,
/// or the last one is at least one interval old.
pub open spec fn is_due(frequency: u64, last: u64, now: u64, force: bool) -> bool {
    force || less(now, last) >= 1_000_000_000u64 / frequency
}

/// What was read for samples.
#[derive(Debug)]
pub struct NetReadings {
    pub tcp: Result<StatsValue, BpfError>,
    pub udp: Result<StatsValue, BpfError>,
    pub processes: Result<Vec<(ProcessKey, StatsValue)>, BpfError>,
    pub peers: Result<Vec<(PeerKey, StatsValue)>, BpfError>,
}

/// What the first part of taking samples does: the host and the processes, if they
/// are due.
pub open spec fn first_sampled(
    config: &NetTrackConfig,
    readings: NetReadings,
    due: bool,
    elapsed_ns: u64,
    now: u64,
    before: NetState,
    after: NetState,
    r: Result<(), BpfError>,
) -> bool {
    if due {
        exists|middle: NetState, stopped: bool|
            #[trigger] both_sampled(
                config,
                readings.tcp,
                readings.udp,
                readings.processes,
                elapsed_ns,
                now,
                before,
                middle,
                after,
                stopped,
                r,
            )
    } else {
        after == before && r is Ok
    }
}

/// What the second part does: the peers, if they are due and the first part did
/// not fail.
pub open spec fn then_sampled(
    config: &NetTrackConfig,
    readings: NetReadings,
    due: bool,
    elapsed_ns: u64,
    now: u64,
    before: NetState,
    first: Result<(), BpfError>,
    after: NetState,
    r: Result<(), BpfError>,
) -> bool {
    if first is Err {
        after == before && r == first
    } else if due {
        match readings.peers {
            Err(e) => after == before && r == Err::<(), BpfError>(e),
            Ok(list) => r is Ok && exists|stopped: bool|
                #[trigger] peers_sampled(
                    config,
                    list@,
                    elapsed_ns,
                    now,
                    before,
                    after,
                    stopped,
                ),
        }
    } else {
        after == before && r is Ok
    }
}

/// What taking the samples that are due does: first those of the host and the
/// processes, and then, unless that failed, those of the peers.
pub open spec fn samples_taken(
    before: &NetTrack,
    old_history: Seq<(MessageView, i32)>,
    now: u64,
    force: bool,
    readings: NetReadings,
    after: &NetTrack,
    history: Seq<(MessageView, i32)>,
    r: Result<(), BpfError>,
) -> bool {
    let config = before.spec_config();
    let due = is_due(config.frequency, before.last_sample(), now, force);
    let peers_due = config.looks_at(NetScope::Peer) && is_due(
        config.peer_frequency,
        before.last_peer_sample(),
        now,
        force,
    );
    &&& after.wf()
    &&& after.spec_config() == config
    &&& exists|middle: NetState, first: Result<(), BpfError>|
        {
            &&& #[trigger] first_sampled(
                &config,
                readings,
                due,
                elapsed_since(before.last_sample(), now),
                now,
                before.state(old_history),
                middle,
                first,
            )
            &&& after.last_sample() == (if due && first is Ok {
                now
            } else {
                before.last_sample()
            })
            &&& then_sampled(
                &config,
                readings,
                peers_due,
                elapsed_since(before.last_peer_sample(), now),
                now,
                middle,
                first,
                after.state(history),
                r,
            )
            &&& after.last_peer_sample() == (if peers_due && first is Ok && r is Ok {
                now
            } else {
                before.last_peer_sample()
            })
        }
}

/// There are never more tracks of peers than the configuration allows.
pub proof fn law_peer_tracks_are_limited(
    before: NetEmission,
    limit: usize,
    key: PeerKey,
    after: NetEmission,
    track: Option<u64>,
)
    requires
        before.peers.dom().finite(),
        before.peers.dom().len() <= limit,
        peer_ensured(before, limit, key, after, track),
    ensures
        after.peers.dom().finite(),
        after.peers.dom().len() <= limit,
        track matches Some(id) ==> after.peers.contains_key(key) && after.peers[key] == id,
        before.peers.submap_of(after.peers),
{
}

/// A value is sent only for a series that was announced, or whose announcement was
/// handed over before.
pub proof fn law_series_is_announced_first(
    before: NetEmission,
    item: CounterSampleView,
    id: u64,
    parent: Option<TrackTypeView>,
    timestamp: u64,
    after: NetEmission,
    code: i32,
)
    requires
        id_emitted(before, item, id, parent, timestamp, after, code),
    ensures
        after.announced.contains(id),
        before.history.is_prefix_of(after.history),
        !before.announced.contains(id) ==> after.history[before.history.len() as int].0
            == series_message(item, id, parent),
{
    if !before.announced.contains(id) {
        let c = choose|c: i32|
            {
                let known = #[trigger] series_announced(before, item, id, parent, c);
                if c != 0 {
                    after == known && code == c
                } else {
                    after == value_sent(known, item, id, timestamp, code)
                }
            };
        assert(series_announced(before, item, id, parent, c).announced.contains(id));
    }
}

} // verus!
