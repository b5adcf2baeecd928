use kinetrace::agent::extension::ExtensionError;
use kinetrace::agent::client::AgentError;
use kinetrace::config::{keepalive_due, GlobalConfig, UserConfig};
use kinetrace::protocol::{
    CountingWriter, Labels, OutOfSpaceError, Reading, SliceWriter, StreamIdAllocator,
    TimestampType, TracingArgs, Value,
};
use kinetrace::text::{
    decimal_string, is_text_less, join, parse_number, replace, sorted_texts, split_lines,
    split_words, to_chars, trim, NumberError,
};
use kinetrace::tracing::{
    is_readable_filter, SpanData, TracingExtension, CLOCK_BOOTTIME, CLOCK_MONOTONIC,
    CLOCK_REALTIME,
};

#[test]
fn stream_ids_count_up_from_one() {
    let mut ids = StreamIdAllocator::new();
    assert_eq!(ids.allocate(), 1);
    assert_eq!(ids.allocate(), 2);
    for _ in 0..70_000 {
        ids.allocate();
    }
    assert_eq!(ids.allocate(), u16::MAX);
    assert_eq!(StreamIdAllocator::default().allocate(), 1);
}

#[test]
fn labels_are_replaced_in_place() {
    let mut labels = Labels::default();
    labels.set_string("a", "1".to_string());
    labels.set_string("b", "2".to_string());
    labels.set_string("a", "3".to_string());
    assert_eq!(
        labels.strings,
        vec![("a".to_string(), "3".to_string()), ("b".to_string(), "2".to_string())]
    );
}

#[test]
fn written_bytes_are_counted_and_fit() {
    let mut counting = CountingWriter::new();
    counting.write(b"abc");
    counting.write(b"de");
    assert_eq!((counting.write_count(), counting.total_bytes(), counting.pos()), (2, 5, 5));
    let mut buf = vec![9u8; 6];
    let mut writer = SliceWriter::new(&mut buf);
    assert_eq!(writer.write(b"abc"), Ok(()));
    assert_eq!(writer.write(b"defg"), Err(OutOfSpaceError));
    assert_eq!(writer.write(b"de"), Ok(()));
    assert_eq!(writer.written(), 5);
    assert_eq!(buf, b"abcde\x09");
    assert_eq!(OutOfSpaceError.to_text(), "not enough space in the buffer");
}

#[test]
fn span_fields_become_labels() {
    let mut data = SpanData { labels: Labels::new() };
    data.record_i64("i", -4);
    data.record_u64("small", 4);
    data.record_u64("large", u64::MAX);
    data.record_f64("f", 1.5f64.to_bits());
    data.record_bool("b", true);
    data.record_str("s", "x");
    data.record_debug("d", "Some(1)".to_string());
    assert_eq!(
        data.labels.ints,
        vec![("i".to_string(), -4), ("small".to_string(), 4)]
    );
    assert!(matches!(data.labels.floats[0].1, Reading::Count { n: u64::MAX }));
    assert!(
        matches!(data.labels.floats[1].1, Reading::Float { bits } if f64::from_bits(bits) == 1.5),
    );
    assert_eq!(data.labels.strings[1].1, "Some(1)");
}

fn tracing_args(log_filter: &str, timestamp_type: TimestampType) -> TracingArgs {
    TracingArgs { log_filter: log_filter.to_string(), timestamp_type }
}

#[test]
fn the_extension_starts_with_a_valid_filter() {
    let mut ext = TracingExtension::new();
    assert!(!ext.is_active());
    assert!(matches!(ext.submit(Ok(())), Err(AgentError::NotEnabled)));
    assert!(ext.start(&tracing_args("", TimestampType::Realtime)).is_ok());
    assert_eq!(ext.clock_id(), CLOCK_REALTIME);
    assert!(ext
        .start(&tracing_args("info,my_crate=debug", TimestampType::Boottime))
        .is_ok());
    assert!(ext.is_active());
    assert_eq!(ext.clock_id(), CLOCK_BOOTTIME);
    assert!(ext.submit(Ok(())).is_ok());
    assert_eq!(
        ext.env_filter().unwrap().to_string(),
        "my_crate=debug,info"
    );
    let ExtensionError::ValidationError(text) = ext
        .start(&tracing_args("info,!!", TimestampType::Monotonic))
        .unwrap_err();
    assert_eq!(text, "invalid log filter 'info,!!': invalid filter directive");
    assert_eq!(ext.clock_id(), CLOCK_BOOTTIME);
    assert!(ext.stop().is_ok());
    assert!(!ext.is_active());
    assert_eq!(ext.clock_id(), CLOCK_MONOTONIC);
    assert!(ext.env_filter().is_none());
}

#[test]
fn filters_are_read_where_offsets_agree() {
    assert!(is_readable_filter(""));
    assert!(is_readable_filter(" a=info, b=debug"));
    assert!(is_readable_filter("é=info,b =debug"));
    assert!(!is_readable_filter(" é=info"));
    assert!(is_readable_filter(" é,é[é]=info"));
    assert!(!is_readable_filter("  é=info"));
    assert!(is_readable_filter("   é=info"));
    assert!(!is_readable_filter("a=info,\u{3000}b=debug"));
}

#[test]
fn users_choose_their_options() {
    assert_eq!(GlobalConfig::preset().buffer_size, 8 << 20);
    assert_eq!(GlobalConfig::default().buffer_size, 0);
    let mut user = UserConfig::preset("/tmp/s".to_string());
    assert_eq!(user.log_filter, "DEBUG");
    assert!(user.options().is_empty());
    user.random_process_id = Some(true);
    let options = user.options();
    assert_eq!(options[0].0, "random_process_id");
    assert!(matches!(options[0].1, Value::Bool(true)));
    assert!(keepalive_due(1_000_000_000));
    assert!(!keepalive_due(999_999_999));
}

#[test]
fn numbers_are_written_and_read() {
    assert_eq!(decimal_string(0), "0");
    assert_eq!(decimal_string(u64::MAX), "18446744073709551615");
    let parse = |s: &str| parse_number(&to_chars(s));
    assert_eq!(parse("18446744073709551615"), Ok(u64::MAX));
    assert_eq!(parse("+7"), Ok(7));
    assert_eq!(parse(""), Err(NumberError::Empty));
    assert_eq!(parse("+"), Err(NumberError::InvalidDigit));
    assert_eq!(parse("-1"), Err(NumberError::InvalidDigit));
    assert_eq!(parse("18446744073709551616"), Err(NumberError::TooLarge));
    for s in ["12", "", "+", "1x", "99999999999999999999x", "x99999999999999999999"] {
        let ours = parse(s).map_err(|e| e.to_str().to_string());
        let theirs = s.parse::<u64>().map_err(|e| e.to_string());
        assert_eq!(ours, theirs, "{}", s);
    }
}

#[test]
fn texts_are_split_like_the_standard_does() {
    for s in ["", " a  b ", "one\ttwo\u{3000}three", "x", "\n\n", "a\u{a0}b\u{85}c"] {
        let ours = split_words(&to_chars(s));
        let theirs: Vec<String> = s.split_whitespace().map(|w| w.to_string()).collect();
        assert_eq!(ours, theirs);
        let trimmed: String = trim(&to_chars(s)).into_iter().collect();
        assert_eq!(trimmed, s.trim());
    }
    for s in ["", "a", "a\n", "a\r\nb", "a\n\nb\r", "\r\n", "\r"] {
        let ours: Vec<String> = split_lines(&to_chars(s))
            .into_iter()
            .map(|l| l.into_iter().collect())
            .collect();
        let theirs: Vec<String> = s.lines().map(|l| l.to_string()).collect();
        assert_eq!(ours, theirs);
    }
    for (s, p, w) in [("aaa", "aa", "b"), ("xyx", "x", ""), ("abc", "d", "e"), ("", "a", "b")] {
        let ours: String = replace(&to_chars(s), p, w).into_iter().collect();
        assert_eq!(ours, s.replace(p, w));
    }
}

#[test]
fn texts_are_sorted_and_joined() {
    let list = vec!["xfs".to_string(), "ext4".to_string(), "xfs".to_string(), "".to_string()];
    let sorted = sorted_texts(&list);
    assert_eq!(sorted, vec!["".to_string(), "ext4".to_string(), "xfs".to_string()]);
    assert_eq!(join(&sorted, ","), ",ext4,xfs");
    assert_eq!(join(&vec![], ","), "");
    assert!(is_text_less("a", "ab"));
    assert!(!is_text_less("b", "ab"));
    assert!(is_text_less("z", "é"));
}
