use kinetrace::bpf::error::BpfError;
use kinetrace::bpf::nettrack::{
    filter_pid, plan_net_track, read_global, read_peers, read_processes, samples_for,
    tracked_pids, NetDirection, NetMetric, NetProtocol, NetReadings, NetScope, NetTrack,
    NetTrackConfig, PeerKey, ProcessKey, StatsValue, AF_INET, AF_INET6,
};
use kinetrace::protocol::{Event, Message, Reading, TrackType};
use kinetrace::sink::MessageLog;

#[test]
fn defaults_are_low_overhead() {
    let config = NetTrackConfig::default();
    assert_eq!(config.scopes, vec![NetScope::Host]);
    assert_eq!(config.metrics, vec![NetMetric::Bytes]);
    assert_eq!(config.peer_frequency, 1);
}

#[test]
fn cumulative_values_produce_interval_deltas() {
    let previous = StatsValue {
        send_bytes: 100,
        recv_bytes: 40,
        first_seen_ns: 10,
        ..StatsValue::default()
    };
    let current = StatsValue {
        send_bytes: 160,
        recv_bytes: 75,
        first_seen_ns: 10,
        ..StatsValue::default()
    };
    let delta = current.delta(Some(previous));
    assert_eq!(delta.send_bytes, 60);
    assert_eq!(delta.recv_bytes, 35);
}

#[test]
fn changed_generation_uses_current_value() {
    let previous = StatsValue {
        send_bytes: 100,
        first_seen_ns: 10,
        ..StatsValue::default()
    };
    let current = StatsValue {
        send_bytes: 20,
        first_seen_ns: 20,
        ..StatsValue::default()
    };
    assert_eq!(current.delta(Some(previous)).send_bytes, 20);
}

#[test]
fn peer_names_format_ipv4_and_ipv6() {
    let ipv4 = PeerKey {
        protocol: 0,
        family: AF_INET,
        remote_port: 443,
        remote_addr: u128::from_be_bytes([127, 0, 0, 1, 0, 0, 0, 0, 0, 0, 0, 0, 0, 0, 0, 0]),
        ..PeerKey::default()
    };
    assert_eq!(ipv4.track_name(), "tcp 127.0.0.1:443");

    let ipv6 = PeerKey {
        protocol: 1,
        family: AF_INET6,
        remote_port: 53,
        remote_addr: 1,
        ..PeerKey::default()
    };
    assert_eq!(ipv6.track_name(), "udp [::1]:53");
}

#[test]
fn addresses_are_shortened() {
    let name = |addr: u128| {
        PeerKey { family: AF_INET6, remote_addr: addr, ..PeerKey::default() }.track_name()
    };
    assert_eq!(name(0), "tcp [::]:0");
    assert_eq!(
        name(0x2001_0db8_0000_0000_0001_0000_0000_0001),
        "tcp [2001:db8::1:0:0:1]:0"
    );
    assert_eq!(
        name(0x2001_0db8_0000_0001_0001_0001_0001_0001),
        "tcp [2001:db8:0:1:1:1:1:1]:0"
    );
    assert_eq!(name(0xfe80_0000_0000_0000_0000_0000_0000_0000), "tcp [fe80::]:0");
    assert_eq!(name(0xffff_7f00_0001), "tcp [::ffff:127.0.0.1]:0");
    let odd = PeerKey { protocol: 9, family: 1, ..PeerKey::default() };
    assert_eq!(odd.track_name(), "network unknown-peer");
}

#[test]
fn nettrack_invalid_configuration_is_rejected() {
    let config = NetTrackConfig {
        frequency: 0,
        ..NetTrackConfig::default()
    };
    assert!(config.validate().is_err());
}

fn load_text(error: BpfError) -> String {
    match error {
        BpfError::LoadError(text) => text,
        other => panic!("unexpected error: {:?}", other),
    }
}

fn map_text(error: BpfError) -> String {
    match error {
        BpfError::MapError(text) => text,
        other => panic!("unexpected error: {:?}", other),
    }
}

#[test]
fn net_configuration_problems_are_named() {
    let text = |config: NetTrackConfig| load_text(config.validate().unwrap_err());
    let base = NetTrackConfig::default;
    assert_eq!(
        text(NetTrackConfig { frequency: 0, ..base() }),
        "nettrack frequency must be greater than zero"
    );
    assert_eq!(
        text(NetTrackConfig { scopes: vec![NetScope::Peer], peer_frequency: 0, ..base() }),
        "nettrack peer_frequency must be greater than zero"
    );
    assert_eq!(
        text(NetTrackConfig { directions: vec![], ..base() }),
        "nettrack protocols, directions, scopes, and metrics must not be empty"
    );
    assert_eq!(
        text(NetTrackConfig { scopes: vec![NetScope::Process], max_process_entries: 0, ..base() }),
        "nettrack max_process_entries must be greater than zero"
    );
    assert_eq!(
        text(NetTrackConfig { scopes: vec![NetScope::Peer], max_peer_tracks: 0, ..base() }),
        "nettrack peer entry and track limits must be greater than zero"
    );
    assert!(NetTrackConfig { peer_frequency: 0, ..base() }.validate().is_ok());
}

#[test]
fn net_plans_follow_the_configuration() {
    let plan = plan_net_track(&NetTrackConfig {
        protocols: vec![NetProtocol::Udp],
        directions: vec![NetDirection::Receive],
        scopes: vec![NetScope::Peer],
        filter_process: vec!["a".to_string()],
        ..NetTrackConfig::default()
    });
    assert_eq!(plan.process_entries, 1);
    assert_eq!(plan.peer_entries, 4096);
    assert!(plan.load_udp_recvmsg);
    assert!(!plan.load_udp_sendmsg && !plan.load_tcp_recvmsg && !plan.load_tcp_sendmsg);
    assert!(plan.filter_enabled);
    assert!(!plan.host_enabled);
}

#[test]
fn process_filters_must_not_be_negative() {
    let config = NetTrackConfig { pid_filters: vec![1, 2], ..NetTrackConfig::default() };
    assert_eq!(tracked_pids(&config).unwrap(), vec![1, 2]);
    let config = NetTrackConfig { pid_filters: vec![1, -7], ..NetTrackConfig::default() };
    assert_eq!(
        load_text(tracked_pids(&config).unwrap_err()),
        "nettrack PID filter must be positive: -7"
    );
    assert_eq!(filter_pid(4).unwrap(), 4);
    assert_eq!(map_text(filter_pid(-1).unwrap_err()), "invalid PID filter: -1");
}

#[test]
fn processors_are_added_up() {
    let mut one = vec![0u8; 96];
    one[0] = 5;
    one[80] = 9;
    one[88] = 9;
    let mut two = vec![0u8; 96];
    two[0] = 6;
    two[80] = 3;
    two[88] = 4;
    let total = read_global(&vec![one, two]).unwrap();
    assert_eq!(total.send_bytes, 11);
    assert_eq!(total.first_seen_ns, 3);
    assert_eq!(total.last_seen_ns, 9);
    assert_eq!(
        map_text(read_global(&vec![vec![0u8; 95]]).unwrap_err()),
        "failed to parse host network statistics: TooShort"
    );
    let mut full = StatsValue { send_bytes: u64::MAX, ..StatsValue::default() };
    full.accumulate(StatsValue { send_bytes: 1, ..StatsValue::default() });
    assert_eq!(full.send_bytes, u64::MAX);
}

#[test]
fn network_records_are_read() {
    let key = vec![7, 0, 0, 0, 1, 2, 3, 4];
    let list = read_processes(&vec![(key, vec![0u8; 96])]).unwrap();
    assert_eq!(list[0].0, ProcessKey { tgid: 7, protocol: 1, padding: (2, 3, 4) });
    assert_eq!(
        map_text(read_processes(&vec![(vec![7], vec![])]).unwrap_err()),
        "failed to parse process network key: TooShort"
    );
    assert_eq!(
        map_text(read_processes(&vec![(vec![0u8; 8], vec![])]).unwrap_err()),
        "failed to parse process network statistics: TooShort"
    );
    let mut key = vec![0u8; 28];
    key[0] = 7;
    key[5] = AF_INET;
    key[8] = 80;
    key[12] = 10;
    key[15] = 1;
    let list = read_peers(&vec![(key, vec![0u8; 96])]).unwrap();
    assert_eq!(list[0].0.track_name(), "tcp 10.0.0.1:80");
    assert_eq!(
        map_text(read_peers(&vec![(vec![0u8; 27], vec![])]).unwrap_err()),
        "failed to parse peer network key: TooShort"
    );
    assert_eq!(
        map_text(read_peers(&vec![(vec![0u8; 28], vec![])]).unwrap_err()),
        "failed to parse peer network statistics: TooShort"
    );
}

#[test]
fn samples_have_their_names() {
    let config = NetTrackConfig {
        metrics: vec![NetMetric::Bytes, NetMetric::Operations, NetMetric::Errors],
        scaled: true,
        ..NetTrackConfig::default()
    };
    let stats = StatsValue { send_bytes: 3, ..StatsValue::default() };
    let names: Vec<String> = samples_for(&config, NetProtocol::Udp, stats, 2)
        .into_iter()
        .map(|s| s.name)
        .collect();
    assert_eq!(
        names,
        vec![
            "udp_send_rate",
            "udp_recv_rate",
            "udp_send_datagrams",
            "udp_recv_datagrams",
            "udp_recv_truncated",
            "udp_send_errors",
            "udp_recv_errors",
            "udp_send_would_block",
            "udp_recv_would_block",
        ]
    );
    let first = samples_for(&config, NetProtocol::Tcp, stats, 2);
    assert!(matches!(first[0].value, Reading::BitsPerSecond { bytes: 3, elapsed_ns: 2 }));
    assert_eq!(first[2].name, "tcp_send_calls");
    assert_eq!(first[4].name, "tcp_recv_eof");
}

fn readings(tcp: u64, udp: u64) -> NetReadings {
    NetReadings {
        tcp: Ok(StatsValue { send_bytes: tcp, first_seen_ns: 1, ..StatsValue::default() }),
        udp: Ok(StatsValue { send_bytes: udp, first_seen_ns: 1, ..StatsValue::default() }),
        processes: Ok(vec![]),
        peers: Ok(vec![]),
    }
}

fn counters(log: &MessageLog) -> Vec<(String, u64)> {
    let mut r = vec![];
    for message in log.messages() {
        if let Message::Event(Event::Counter(c)) = message {
            match c.value {
                Reading::Count { n } => r.push((c.name.clone(), n)),
                _ => panic!("unexpected value"),
            }
        }
    }
    r
}

#[test]
fn the_host_is_sampled_with_totals() {
    let mut tracker = NetTrack::new(NetTrackConfig::default(), 0);
    let mut log = MessageLog::new(100);
    assert!(tracker.flush(10, readings(100, 20), &mut log).is_ok());
    assert_eq!(
        counters(&log),
        vec![
            ("tcp_send".to_string(), 100),
            ("tcp_recv".to_string(), 0),
            ("udp_send".to_string(), 20),
            ("udp_recv".to_string(), 0),
            ("total_send".to_string(), 120),
            ("total_recv".to_string(), 0),
        ]
    );
    assert_eq!(log.messages().len(), 12);
    assert!(tracker.consume(11, readings(500, 20), &mut log).is_ok());
    assert_eq!(log.messages().len(), 12);
    assert!(tracker.poll(111_111_121, readings(150, 20), &mut log).is_ok());
    assert_eq!(log.messages().len(), 18);
    assert_eq!(counters(&log)[6], ("tcp_send".to_string(), 50));
}

#[test]
fn a_failed_reading_ends_the_sample() {
    let mut tracker = NetTrack::new(NetTrackConfig::default(), 0);
    let mut log = MessageLog::new(100);
    let mut broken = readings(1, 1);
    broken.udp = Err(BpfError::MapError("gone".to_string()));
    assert_eq!(
        map_text(tracker.flush(10, broken, &mut log).unwrap_err()),
        "gone"
    );
    assert_eq!(log.messages().len(), 4);
    assert!(tracker.sample_due(1_000_000_000, false));
}

#[test]
fn peers_beyond_the_limit_have_no_track() {
    let mut tracker = NetTrack::new(
        NetTrackConfig {
            scopes: vec![NetScope::Peer],
            max_peer_tracks: 1,
            ..NetTrackConfig::default()
        },
        0,
    );
    let one = PeerKey { tgid: 3, family: AF_INET, remote_port: 1, ..PeerKey::default() };
    let two = PeerKey { tgid: 3, family: AF_INET, remote_port: 2, ..PeerKey::default() };
    let mut r = readings(0, 0);
    r.peers = Ok(vec![
        (one, StatsValue { send_bytes: 5, ..StatsValue::default() }),
        (two, StatsValue { send_bytes: 6, ..StatsValue::default() }),
    ]);
    let mut log = MessageLog::new(100);
    assert!(tracker.flush(10, r, &mut log).is_ok());
    match &log.messages()[0] {
        Message::Event(Event::Track(track)) => {
            assert_eq!(track.name, "tcp 0.0.0.0:1");
            assert!(matches!(track.parent, Some(TrackType::Process { pid: 3 })));
        }
        _ => panic!("no track"),
    }
    assert_eq!(
        counters(&log),
        vec![("tcp_send".to_string(), 5), ("tcp_recv".to_string(), 0)]
    );
}

#[test]
fn processes_are_sampled_until_one_is_refused() {
    let config = || NetTrackConfig { scopes: vec![NetScope::Process], ..NetTrackConfig::default() };
    let list = || {
        Ok(vec![
            (
                ProcessKey { tgid: 1, protocol: 0, padding: (0, 0, 0) },
                StatsValue { send_bytes: 5, ..StatsValue::default() },
            ),
            (
                ProcessKey { tgid: 2, protocol: 7, padding: (0, 0, 0) },
                StatsValue::default(),
            ),
            (
                ProcessKey { tgid: 2, protocol: 1, padding: (0, 0, 0) },
                StatsValue { recv_bytes: 6, ..StatsValue::default() },
            ),
        ])
    };
    let mut tracker = NetTrack::new(config(), 0);
    let mut r = readings(0, 0);
    r.processes = list();
    let mut log = MessageLog::new(100);
    assert!(tracker.flush(10, r, &mut log).is_ok());
    assert_eq!(counters(&log).len(), 4);
    let mut tracker = NetTrack::new(config(), 0);
    let mut r = readings(0, 0);
    r.processes = list();
    let mut small = MessageLog::new(3);
    assert!(tracker.flush(10, r, &mut small).is_ok());
    assert_eq!(counters(&small).len(), 1);
}
