//! The extension that turns a process's own spans and events into messages.

use crate::agent::client::AgentError;
use crate::agent::extension::ExtensionError;
use crate::protocol::{label_put, Labels, LabelsView, Reading, TimestampType, TracingArgs};
use crate::text::{to_chars, trim, trim_end, trim_start};
use tracing_subscriber::EnvFilter;
use vstd::prelude::*;

verus! {

/// The clock that starts at some time and is never set.
pub const CLOCK_MONOTONIC: i32 = 1;

/// The clock that also counts the time asleep.
pub const CLOCK_BOOTTIME: i32 = 7;

/// The clock of the day.
pub const CLOCK_REALTIME: i32 = 0;

/// A log filter, as `tracing_subscriber` has it.
#[verifier::external_type_specification]
#[verifier::external_body]
pub struct ExEnvFilter(tracing_subscriber::EnvFilter);

/// What `EnvFilter::try_new` makes of a text: the filter, or what is wrong with it.
pub uninterp spec fn filter_of(text: Seq<char>) -> Result<EnvFilter, Seq<char>>;

/// How many bytes a character takes in UTF-8.
pub open spec fn char_width(c: char) -> int {
    let n = c as u32;
    if n < 0x80 {
        1
    } else if n < 0x800 {
        2
    } else if n < 0x1_0000 {
        3
    } else {
        4
    }
}

/// How many bytes a text takes in UTF-8.
pub open spec fn byte_len(text: Seq<char>) -> int
    decreases text.len(),
{
    if text.len() == 0 {
        0
    } else {
        byte_len(text.drop_last()) + char_width(text.last())
    }
}

/// Whether a text can be cut behind its first `n` bytes: no character lies on both
/// sides.
pub open spec fn can_cut(text: Seq<char>, n: int) -> bool {
    exists|j: int| 0 <= j <= text.len() && #[trigger] byte_len(text.take(j)) == n
}

/// The characters at which a directive falls into its parts.
pub open spec fn is_delimiter(c: char) -> bool {
    c == '=' || c == '[' || c == ']' || c == '{' || c == '}'
}

/// Whether a directive can be cut before and behind each of its delimiters, at the
/// offsets that these have without the spaces around the directive.
pub open spec fn well_cut(directive: Seq<char>) -> bool {
    let inner = trim_end(trim_start(directive));
    forall|k: int|
        0 <= k < inner.len() && is_delimiter(#[trigger] inner[k]) ==> can_cut(
            directive,
            byte_len(inner.take(k)),
        ) && can_cut(directive, byte_len(inner.take(k)) + 1)
}

/// Whether a directive runs from `a` to `b`; commas separate them.
pub open spec fn is_directive(text: Seq<char>, a: int, b: int) -> bool {
    &&& 0 <= a <= b <= text.len()
    &&& a == 0 || text[a - 1] == ','
    &&& b == text.len() || text[b] == ','
    &&& forall|i: int| a <= i < b ==> #[trigger] text[i] != ','
}

/// Whether each directive of a text can be cut where it is.
pub open spec fn readable_filter(text: Seq<char>) -> bool {
    forall|a: int, b: int| #[trigger]
        is_directive(text, a, b) ==> well_cut(text.subrange(a, b))
}

fn width_of(c: char) -> (r: u128)
    ensures
        r == char_width(c),
{
    let n: u32 = c as u32;
    if n < 0x80 {
        1
    } else if n < 0x800 {
        2
    } else if n < 0x1_0000 {
        3
    } else {
        4
    }
}

/// A longer piece from the start of a text takes more bytes.
proof fn lemma_byte_len_grows(text: Seq<char>, i: int, j: int)
    requires
        0 <= i <= j <= text.len(),
    ensures
        byte_len(text.take(i)) + (j - i) <= byte_len(text.take(j)),
        byte_len(text.take(j)) <= byte_len(text.take(i)) + 4 * (j - i),
    decreases j - i,
{
    if i < j {
        lemma_byte_len_grows(text, i, j - 1);
        assert(text.take(j).drop_last() =~= text.take(j - 1));
    }
}

fn check_cut(text: &[char], n: u128) -> (r: bool)
    ensures
        r == can_cut(text@, n as int),
{
    let mut at: u128 = 0;
    let mut i: usize = 0;
    while i < text.len() && at < n
        invariant
            i <= text@.len(),
            at == byte_len(text@.take(i as int)),
            at <= 4 * i,
            forall|j: int| 0 <= j < i ==> #[trigger] byte_len(text@.take(j)) < n,
        decreases text@.len() - i,
    {
        assert(text@.take(i + 1).drop_last() =~= text@.take(i as int));
        at = at + width_of(text[i]);
        i += 1;
    }
    proof {
        if at != n {
            assert forall|j: int| 0 <= j <= text@.len() implies #[trigger] byte_len(text@.take(j))
                != n by {
                if j > i {
                    lemma_byte_len_grows(text@, i as int, j);
                }
            }
        }
    }
    at == n
}

fn is_well_cut(directive: &[char]) -> (r: bool)
    ensures
        r == well_cut(directive@),
{
    let inner: Vec<char> = trim(directive);
    let mut at: u128 = 0;
    let mut i: usize = 0;
    while i < inner.len()
        invariant
            i <= inner@.len(),
            inner@ == trim_end(trim_start(directive@)),
            at == byte_len(inner@.take(i as int)),
            at <= 4 * i,
            forall|k: int|
                0 <= k < i && is_delimiter(#[trigger] inner@[k]) ==> can_cut(
                    directive@,
                    byte_len(inner@.take(k)),
                ) && can_cut(directive@, byte_len(inner@.take(k)) + 1),
        decreases inner@.len() - i,
    {
        let c: char = inner[i];
        if (c == '=' || c == '[' || c == ']' || c == '{' || c == '}') && !(check_cut(directive, at)
            && check_cut(directive, at + 1)) {
            assert(is_delimiter(inner@[i as int]));
            return false;
        }
        assert(inner@.take(i + 1).drop_last() =~= inner@.take(i as int));
        at = at + width_of(c);
        i += 1;
    }
    true
}

pub fn is_readable_filter(text: &str) -> (r: bool)
    ensures
        r == readable_filter(text@),
{
    let chars: Vec<char> = to_chars(text);
    let mut directive: Vec<char> = Vec::new();
    let mut from: usize = 0;
    let mut i: usize = 0;
    assert(chars@ == text@);
    while i < chars.len()
        invariant
            from <= i <= chars@.len(),
            chars@ == text@,
            from == 0 || chars@[from - 1] == ',',
            forall|j: int| from <= j < i ==> #[trigger] chars@[j] != ',',
            directive@ == chars@.subrange(from as int, i as int),
            forall|a: int, b: int| #[trigger]
                is_directive(chars@, a, b) && b < from ==> well_cut(chars@.subrange(a, b)),
        decreases chars@.len() - i,
    {
        if chars[i] == ',' {
            assert(is_directive(chars@, from as int, i as int));
            if !is_well_cut(directive.as_slice()) {
                return false;
            }
            proof {
                assert forall|a: int, b: int| #[trigger]
                    is_directive(chars@, a, b) && b < i + 1 implies well_cut(
                    chars@.subrange(a, b),
                ) by {
                    if b >= from {
                        lemma_directive_ends(chars@, a, b, from as int, i as int);
                    }
                }
            }
            directive = Vec::new();
            from = i + 1;
        } else {
            directive.push(chars[i]);
        }
        i += 1;
        assert(directive@ =~= chars@.subrange(from as int, i as int));
    }
    assert(is_directive(chars@, from as int, i as int));
    proof {
        assert forall|a: int, b: int| #[trigger] is_directive(chars@, a, b) && b >= from implies a
            == from && b == i by {
            lemma_directive_ends(chars@, a, b, from as int, i as int);
        }
    }
    is_well_cut(directive.as_slice())
}

/// A directive that ends within another, or at its end, is that other.
proof fn lemma_directive_ends(text: Seq<char>, a: int, b: int, from: int, to: int)
    requires
        is_directive(text, a, b),
        is_directive(text, from, to),
        from <= b <= to,
    ensures
        a == from && b == to,
{
    if b < to {
        assert(text[b] != ',');
    }
    if a < from {
        assert(text[from - 1] == ',');
        assert(text[from - 1] != ',');
    } else if from < a {
        assert(text[a - 1] != ',');
    }
}

/// `EnvFilter::try_new`: the filter, or what is wrong with the text, depends on the
/// text alone. The empty text is a filter. Nothing is said of what a filter lets
/// through. A directive is cut at its delimiters, at offsets that are counted without
/// the spaces around it, so the call can panic where leading spaces shift such an
/// offset into a character.
#[verifier::external_body]
fn parse_filter(text: &str) -> (r: Result<EnvFilter, String>)
    requires
        readable_filter(text@),
    ensures
        match r {
            Ok(filter) => filter_of(text@) == Ok::<EnvFilter, Seq<char>>(filter),
            Err(e) => filter_of(text@) == Err::<EnvFilter, Seq<char>>(e@),
        },
        text@.len() == 0 ==> r is Ok,
{
    EnvFilter::try_new(text).map_err(|e| e.to_string())
}

/// The number of a clock.
pub open spec fn clock_of(timestamp_type: TimestampType) -> i32 {
    match timestamp_type {
        TimestampType::Monotonic => CLOCK_MONOTONIC,
        TimestampType::Boottime => CLOCK_BOOTTIME,
        TimestampType::Realtime => CLOCK_REALTIME,
    }
}

/// What a started extension works with.
pub struct TracingState {
    clock_id: i32,
    env_filter: EnvFilter,
}

/// The extension; it works while it has a state.
pub struct TracingExtension {
    state: Option<TracingState>,
}

/// The text about a filter that is none.
pub open spec fn filter_text(log_filter: Seq<char>, problem: Seq<char>) -> Seq<char> {
    "invalid log filter '"@ + log_filter + "': "@ + problem
}

impl TracingExtension {
    /// Whether the extension is started.
    pub closed spec fn active(&self) -> bool {
        self.state is Some
    }

    /// The clock it reads.
    pub closed spec fn clock(&self) -> i32 {
        match self.state {
            Some(s) => s.clock_id,
            None => CLOCK_MONOTONIC,
        }
    }

    /// The filter it goes by.
    pub closed spec fn filter(&self) -> Option<EnvFilter> {
        match self.state {
            Some(s) => Some(s.env_filter),
            None => None,
        }
    }

    pub fn new() -> (r: Self)
        ensures
            !r.active(),
            r.clock() == CLOCK_MONOTONIC,
            r.filter() is None,
    {
        TracingExtension { state: None }
    }

    /// The clock that timestamps are read from.
    pub fn clock_id(&self) -> (r: i32)
        ensures
            r == self.clock(),
    {
        match &self.state {
            Some(s) => s.clock_id,
            None => CLOCK_MONOTONIC,
        }
    }

    /// The filter, while the extension is started.
    pub fn env_filter(&self) -> (r: Option<&EnvFilter>)
        ensures
            match r {
                Some(f) => self.filter() == Some(*f),
                None => self.filter() is None,
            },
    {
        match &self.state {
            Some(s) => Some(&s.env_filter),
            None => None,
        }
    }

    pub fn is_active(&self) -> (r: bool)
        ensures
            r == self.active(),
    {
        self.state.is_some()
    }

    /// Events can be submitted, with the outcome `submitted`, while the extension
    /// is started.
    pub fn submit(&self, submitted: Result<(), AgentError>) -> (r: Result<(), AgentError>)
        ensures
            self.active() ==> r == submitted,
            !self.active() ==> r == Err::<(), AgentError>(AgentError::NotEnabled),
    {
        match &self.state {
            Some(_) => submitted,
            None => Err(AgentError::NotEnabled),
        }
    }

    /// Starts with a filter that was read, or fails with what was wrong with it and
    /// stays as it was.
    pub fn start_with(
        &mut self,
        timestamp_type: TimestampType,
        log_filter: &str,
        parsed: Result<EnvFilter, String>,
    ) -> (r: Result<(), ExtensionError>)
        ensures
            match parsed {
                Ok(filter) => {
                    &&& r is Ok
                    &&& final(self).active()
                    &&& final(self).clock() == clock_of(timestamp_type)
                    &&& final(self).filter() == Some(filter)
                },
                Err(problem) => {
                    &&& *final(self) == *old(self)
                    &&& r matches Err(ExtensionError::ValidationError(text)) && text@
                        == filter_text(log_filter@, problem@)
                },
            },
    {
        let clock_id: i32 = match timestamp_type {
            TimestampType::Monotonic => CLOCK_MONOTONIC,
            TimestampType::Boottime => CLOCK_BOOTTIME,
            TimestampType::Realtime => CLOCK_REALTIME,
        };
        match parsed {
            Ok(env_filter) => {
                self.state = Some(TracingState { clock_id, env_filter });
                Ok(())
            },
            Err(problem) => Err(
                ExtensionError::ValidationError(
                    "invalid log filter '".to_owned().concat(log_filter).concat("': ").concat(
                        problem.as_str(),
                    ),
                ),
            ),
        }
    }

    /// Starts with the filter that a text means, or fails, and stays as it was, if it
    /// means none.
    pub fn start(&mut self, args: &TracingArgs) -> (r: Result<(), ExtensionError>)
        requires
            readable_filter(args@.log_filter),
        ensures
            match filter_of(args@.log_filter) {
                Ok(filter) => {
                    &&& r is Ok
                    &&& final(self).active()
                    &&& final(self).clock() == clock_of(args@.timestamp_type)
                    &&& final(self).filter() == Some(filter)
                },
                Err(problem) => {
                    &&& *final(self) == *old(self)
                    &&& r matches Err(ExtensionError::ValidationError(text)) && text@
                        == filter_text(args@.log_filter, problem)
                },
            },
            args@.log_filter.len() == 0 ==> r is Ok,
    {
        let parsed: Result<EnvFilter, String> = parse_filter(args.log_filter.as_str());
        self.start_with(args.timestamp_type, args.log_filter.as_str(), parsed)
    }

    /// Stops; this never fails.
    pub fn stop(&mut self) -> (r: Result<(), ExtensionError>)
        ensures
            r is Ok,
            !final(self).active(),
            final(self).clock() == CLOCK_MONOTONIC,
            final(self).filter() is None,
    {
        self.state = None;
        Ok(())
    }
}

impl Default for TracingExtension {
    fn default() -> (r: Self)
        ensures
            !r.active(),
            r.clock() == CLOCK_MONOTONIC,
            r.filter() is None,
    {
        Self::new()
    }
}

/// Labels with an unsigned number added; one that is too large for a signed integer
/// is kept as floating point.
pub open spec fn with_number(labels: LabelsView, field: Seq<char>, value: u64) -> LabelsView {
    if value <= i64::MAX {
        LabelsView { ints: label_put(labels.ints, field, value as i64), ..labels }
    } else {
        LabelsView { floats: label_put(labels.floats, field, Reading::Count { n: value }), ..labels }
    }
}

/// The fields that a span was given.
#[derive(Debug)]
pub struct SpanData {
    pub labels: Labels,
}

impl SpanData {
    pub fn record_i64(&mut self, field: &str, value: i64)
        ensures
            final(self).labels@ == (LabelsView {
                ints: label_put(old(self).labels@.ints, field@, value),
                ..old(self).labels@
            }),
    {
        self.labels.set_int(field, value);
    }

    /// A number that is too large for a signed integer is kept as floating point.
    pub fn record_u64(&mut self, field: &str, value: u64)
        ensures
            final(self).labels@ == with_number(old(self).labels@, field@, value),
    {
        if value <= i64::MAX as u64 {
            self.labels.set_int(field, value as i64);
        } else {
            self.labels.set_float(field, Reading::Count { n: value });
        }
    }

    /// Records a double, by its bit pattern.
    pub fn record_f64(&mut self, field: &str, bits: u64)
        ensures
            final(self).labels@ == (LabelsView {
                floats: label_put(old(self).labels@.floats, field@, Reading::Float { bits }),
                ..old(self).labels@
            }),
    {
        self.labels.set_float(field, Reading::Float { bits });
    }

    pub fn record_bool(&mut self, field: &str, value: bool)
        ensures
            final(self).labels@ == (LabelsView {
                bools: label_put(old(self).labels@.bools, field@, value),
                ..old(self).labels@
            }),
    {
        self.labels.set_bool(field, value);
    }

    pub fn record_str(&mut self, field: &str, value: &str)
        ensures
            final(self).labels@ == (LabelsView {
                strings: label_put(old(self).labels@.strings, field@, value@),
                ..old(self).labels@
            }),
    {
        self.labels.set_string(field, value.to_owned());
    }

    /// Records a value by its debug output.
    pub fn record_debug(&mut self, field: &str, formatted: String)
        ensures
            final(self).labels@ == (LabelsView {
                strings: label_put(old(self).labels@.strings, field@, formatted@),
                ..old(self).labels@
            }),
    {
        self.labels.set_string(field, formatted);
    }
}

} // verus!
