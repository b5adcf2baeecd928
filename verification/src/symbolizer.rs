//! Interning of stack samples: every code address, function name and call stack
//! gets an id the first time it is seen, and is described once.

use crate::protocol::{
    views, Callstack, CallstackView, Frame, InternedData, InternedDataView, InternedString,
    InternedStringView, Mapping, MappingView,
};
use std::collections::hash_map::DefaultHasher;
use std::collections::HashMap;
use std::hash::Hasher;
use vstd::bytes::{spec_u64_to_le_bytes, u64_to_le_bytes};
use vstd::prelude::*;
use vstd::std_specs::hash::*;

verus! {

/// The one mapping that all frames are said to belong to.
pub const FAKE_MAPPING_ID: u64 = 1;

/// The process that kernel addresses are kept under.
pub const KERNEL_PID: i32 = -1;

#[derive(Debug)]
pub enum SymbolizerError {
    /// Looking the symbols up failed.
    Blazesym(String),
    /// There is nothing to look up.
    EmptySymbols,
}

impl SymbolizerError {
    pub open spec fn text(&self) -> Seq<char> {
        match *self {
            SymbolizerError::Blazesym(s) => "blazesym error: "@ + s@,
            SymbolizerError::EmptySymbols =>
                "empty symbols - both user and kernel addresses are empty"@,
        }
    }

    pub fn to_text(&self) -> (r: String)
        ensures
            r@ == self.text(),
    {
        match self {
            SymbolizerError::Blazesym(s) => "blazesym error: ".to_owned().concat(s.as_str()),
            SymbolizerError::EmptySymbols =>
                "empty symbols - both user and kernel addresses are empty".to_owned(),
        }
    }
}

/// What is fed to the hasher for a call stack: its length, then its elements.
pub open spec fn callstack_chunks(callstack: Seq<u64>) -> Seq<Seq<u8>> {
    seq![spec_u64_to_le_bytes(callstack.len() as u64)] + callstack.map_values(
        |frame: u64| spec_u64_to_le_bytes(frame),
    )
}

/// The hash of a call stack.
pub open spec fn callstack_hash(callstack: Seq<u64>) -> u64 {
    DefaultHasher::spec_finish(callstack_chunks(callstack))
}

/// What has been interned so far.
pub struct CacheView {
    /// The ids of call stacks, by hash.
    pub callstacks: Map<u64, u64>,
    pub next_callstack: u64,
    /// The ids of frames, by process and address.
    pub frames: Map<(i32, u64), u64>,
    pub next_frame: u64,
    pub unknown_function: Option<u64>,
    pub next_function: u64,
    pub fake_mapping: Option<u64>,
    pub first: bool,
}

impl CacheView {
    /// Nothing was interned yet.
    pub open spec fn empty() -> CacheView {
        CacheView {
            callstacks: Map::empty(),
            next_callstack: 0,
            frames: Map::empty(),
            next_frame: 0,
            unknown_function: None,
            next_function: 0,
            fake_mapping: None,
            first: true,
        }
    }

    /// Ids are handed out in turn, and no two call stacks of different hash, and
    /// no two frames, share one.
    pub open spec fn wf(self) -> bool {
        &&& forall|h: u64| #[trigger]
            self.callstacks.contains_key(h) ==> self.callstacks[h] < self.next_callstack
        &&& forall|g: u64, h: u64|
            #![trigger self.callstacks[g], self.callstacks[h]]
            self.callstacks.contains_key(g) && self.callstacks.contains_key(h) && g != h
                ==> self.callstacks[g] != self.callstacks[h]
        &&& forall|k: (i32, u64)| #[trigger]
            self.frames.contains_key(k) ==> self.frames[k] < self.next_frame
        &&& forall|j: (i32, u64), k: (i32, u64)|
            #![trigger self.frames[j], self.frames[k]]
            self.frames.contains_key(j) && self.frames.contains_key(k) && j != k ==> self.frames[j]
                != self.frames[k]
        &&& self.unknown_function matches Some(id) ==> id < self.next_function
        &&& self.fake_mapping matches Some(id) ==> id == FAKE_MAPPING_ID
    }

    /// The id of a frame that is reserved.
    pub open spec fn frame_id(self, pid: i32, frame: u64) -> u64 {
        if self.frames.contains_key((pid, frame)) {
            self.frames[(pid, frame)]
        } else {
            self.next_frame
        }
    }

    /// The cache with a frame reserved.
    pub open spec fn with_frame(self, pid: i32, frame: u64) -> CacheView {
        if self.frames.contains_key((pid, frame)) {
            self
        } else {
            CacheView {
                frames: self.frames.insert((pid, frame), self.next_frame),
                next_frame: (self.next_frame + 1) as u64,
                ..self
            }
        }
    }

    /// The id of a call stack that is reserved.
    pub open spec fn callstack_id(self, callstack: Seq<u64>) -> u64 {
        let hash = callstack_hash(callstack);
        if self.callstacks.contains_key(hash) {
            self.callstacks[hash]
        } else {
            self.next_callstack
        }
    }

    /// The cache with a call stack reserved.
    pub open spec fn with_callstack(self, callstack: Seq<u64>) -> CacheView {
        let hash = callstack_hash(callstack);
        if self.callstacks.contains_key(hash) {
            self
        } else {
            CacheView {
                callstacks: self.callstacks.insert(hash, self.next_callstack),
                next_callstack: (self.next_callstack + 1) as u64,
                ..self
            }
        }
    }

    /// The id of the function that stands for all unknown ones.
    pub open spec fn unknown_id(self) -> u64 {
        match self.unknown_function {
            Some(id) => id,
            None => self.next_function,
        }
    }

    /// The cache with that function known.
    pub open spec fn with_unknown(self) -> CacheView {
        match self.unknown_function {
            Some(_) => self,
            None => CacheView {
                unknown_function: Some(self.next_function),
                next_function: (self.next_function + 1) as u64,
                ..self
            },
        }
    }

    /// The cache with the mapping known.
    pub open spec fn with_mapping(self) -> CacheView {
        match self.fake_mapping {
            Some(_) => self,
            None => CacheView { fake_mapping: Some(FAKE_MAPPING_ID), ..self },
        }
    }

    /// Whether `n` more frames can be interned.
    pub open spec fn has_room(self, n: int) -> bool {
        &&& self.next_callstack < u64::MAX
        &&& self.next_frame + n <= u64::MAX
        &&& self.function_ids() + n <= u64::MAX
    }

    /// How many function ids are used, with the one that the unknown function
    /// has or will get.
    pub open spec fn function_ids(self) -> int {
        self.next_function + if self.unknown_function is None {
            1int
        } else {
            0
        }
    }
}

/// The number under which a frame is kept.
pub open spec fn frame_code(key: (i32, u64)) -> u128 {
    ((key.0 + 0x8000_0000) * 0x1_0000_0000_0000_0000 + key.1) as u128
}

/// Remembers what has been interned.
#[derive(Debug)]
pub struct InternedCache {
    next_callstack_sequence: u64,
    callstack_hash_to_sequence: HashMap<u64, u64>,
    next_frame_sequence: u64,
    pid_frame_to_sequence: HashMap<u128, u64>,
    unknown_function_id: Option<u64>,
    next_function_id: u64,
    fake_mapping_id: Option<u64>,
    is_first_interned_data: bool,
}

impl View for InternedCache {
    type V = CacheView;

    closed spec fn view(&self) -> CacheView {
        CacheView {
            callstacks: self.callstack_hash_to_sequence@,
            next_callstack: self.next_callstack_sequence,
            frames: Map::new(
                |k: (i32, u64)| self.pid_frame_to_sequence@.contains_key(frame_code(k)),
                |k: (i32, u64)| self.pid_frame_to_sequence@[frame_code(k)],
            ),
            next_frame: self.next_frame_sequence,
            unknown_function: self.unknown_function_id,
            next_function: self.next_function_id,
            fake_mapping: self.fake_mapping_id,
            first: self.is_first_interned_data,
        }
    }
}

fn frame_key(pid: i32, frame: u64) -> (r: u128)
    ensures
        r == frame_code((pid, frame)),
{
    ((pid as i64 + 0x8000_0000) as u128) * 0x1_0000_0000_0000_0000 + frame as u128
}

impl InternedCache {
    pub fn new() -> (r: Self)
        ensures
            r@ == CacheView::empty(),
            r@.wf(),
    {
        let r = InternedCache {
            next_callstack_sequence: 0,
            callstack_hash_to_sequence: HashMap::new(),
            next_frame_sequence: 0,
            pid_frame_to_sequence: HashMap::new(),
            unknown_function_id: None,
            next_function_id: 0,
            fake_mapping_id: None,
            is_first_interned_data: true,
        };
        assert(r@.frames =~= Map::empty());
        r
    }

    /// The id of a frame, if it has one.
    pub fn cached_frame(&self, pid: i32, frame: u64) -> (r: Option<u64>)
        ensures
            r == (if self@.frames.contains_key((pid, frame)) {
                Some(self@.frames[(pid, frame)])
            } else {
                None
            }),
    {
        broadcast use group_hash_axioms;

        match self.pid_frame_to_sequence.get(&frame_key(pid, frame)) {
            Some(id) => Some(*id),
            None => None,
        }
    }

    /// The id of a call stack, if it, or another of the same hash, has one.
    pub fn cached_callstack(&self, _pid: i32, callstack: &[u64]) -> (r: Option<u64>)
        ensures
            r == (if self@.callstacks.contains_key(callstack_hash(callstack@)) {
                Some(self@.callstacks[callstack_hash(callstack@)])
            } else {
                None
            }),
    {
        broadcast use group_hash_axioms;

        let hash: u64 = Self::hash_callstack(callstack);
        match self.callstack_hash_to_sequence.get(&hash) {
            Some(id) => Some(*id),
            None => None,
        }
    }

    /// The id of a frame, a new one if it has none.
    pub fn reserve_frame(&mut self, pid: i32, frame: u64) -> (id: u64)
        requires
            old(self)@.next_frame < u64::MAX,
        ensures
            id == old(self)@.frame_id(pid, frame),
            final(self)@ == old(self)@.with_frame(pid, frame),
            old(self)@.wf() ==> final(self)@.wf(),
    {
        broadcast use group_hash_axioms;

        match self.cached_frame(pid, frame) {
            Some(id) => id,
            None => {
                let id: u64 = self.next_frame_sequence;
                self.next_frame_sequence = id + 1;
                self.pid_frame_to_sequence.insert(frame_key(pid, frame), id);
                proof {
                    assert(self@.frames =~= old(self)@.frames.insert((pid, frame), id));
                }
                id
            },
        }
    }

    /// The id of a call stack, a new one if none of its hash has one.
    pub fn reserve_callstack(&mut self, callstack: &[u64]) -> (id: u64)
        requires
            old(self)@.next_callstack < u64::MAX,
        ensures
            id == old(self)@.callstack_id(callstack@),
            final(self)@ == old(self)@.with_callstack(callstack@),
            old(self)@.wf() ==> final(self)@.wf(),
    {
        broadcast use group_hash_axioms;

        let hash: u64 = Self::hash_callstack(callstack);
        match self.callstack_hash_to_sequence.get(&hash) {
            Some(id) => *id,
            None => {
                let id: u64 = self.next_callstack_sequence;
                self.next_callstack_sequence = id + 1;
                self.callstack_hash_to_sequence.insert(hash, id);
                id
            },
        }
    }

    fn hash_callstack(callstack: &[u64]) -> (r: u64)
        ensures
            r == callstack_hash(callstack@),
    {
        let mut hasher: DefaultHasher = DefaultHasher::new();
        let prefix: Vec<u8> = u64_to_le_bytes(callstack.len() as u64);
        hasher.write(prefix.as_slice());
        let mut i: usize = 0;
        while i < callstack.len()
            invariant
                i <= callstack@.len(),
                hasher@ =~= seq![spec_u64_to_le_bytes(callstack@.len() as u64)]
                    + callstack@.take(i as int).map_values(
                    |frame: u64| spec_u64_to_le_bytes(frame),
                ),
            decreases callstack@.len() - i,
        {
            let bytes: Vec<u8> = u64_to_le_bytes(callstack[i]);
            hasher.write(bytes.as_slice());
            i += 1;
        }
        assert(callstack@.take(i as int) =~= callstack@);
        hasher.finish()
    }

    pub fn get_or_create_unknown_function_id(&mut self) -> (id: u64)
        requires
            old(self)@.unknown_function is None ==> old(self)@.next_function < u64::MAX,
        ensures
            id == old(self)@.unknown_id(),
            final(self)@ == old(self)@.with_unknown(),
            old(self)@.wf() ==> final(self)@.wf(),
    {
        if let Some(id) = self.unknown_function_id {
            id
        } else {
            let id: u64 = self.next_function_id;
            self.next_function_id = id + 1;
            self.unknown_function_id = Some(id);
            id
        }
    }

    pub fn get_or_create_fake_mapping_id(&mut self) -> (id: u64)
        ensures
            final(self)@ == old(self)@.with_mapping(),
            Some(id) == final(self)@.fake_mapping,
            old(self)@.wf() ==> final(self)@.wf() && id == FAKE_MAPPING_ID,
    {
        if let Some(id) = self.fake_mapping_id {
            id
        } else {
            self.fake_mapping_id = Some(FAKE_MAPPING_ID);
            FAKE_MAPPING_ID
        }
    }

    /// A new id for a function name.
    pub fn reserve_function_id(&mut self) -> (id: u64)
        requires
            old(self)@.next_function < u64::MAX,
        ensures
            id == old(self)@.next_function,
            final(self)@ == (CacheView { next_function: (id + 1) as u64, ..old(self)@ }),
            old(self)@.wf() ==> final(self)@.wf(),
    {
        let id: u64 = self.next_function_id;
        self.next_function_id = id + 1;
        id
    }

    /// Whether no interned data was sent yet; from now on some was.
    pub fn take_is_first_interned_data(&mut self) -> (r: bool)
        ensures
            r == old(self)@.first,
            final(self)@ == (CacheView { first: false, ..old(self)@ }),
            old(self)@.wf() ==> final(self)@.wf(),
    {
        let was_first: bool = self.is_first_interned_data;
        self.is_first_interned_data = false;
        was_first
    }
}

impl Default for InternedCache {
    fn default() -> (r: Self)
        ensures
            r@.wf(),
            r@.callstacks == Map::<u64, u64>::empty(),
            r@.frames == Map::<(i32, u64), u64>::empty(),
            r@.next_callstack == 0,
            r@.next_frame == 0,
            r@.next_function == 0,
            r@.unknown_function is None,
            r@.fake_mapping is None,
            r@.first,
    {
        Self::new()
    }
}

/// An address with the name of its function, if that is known.
pub type NamedAddress = (u64, Option<Seq<char>>);

/// Addresses with their names, as far as both lists reach.
pub open spec fn named(addresses: Seq<u64>, symbols: Seq<Option<String>>) -> Seq<NamedAddress> {
    Seq::new(
        if addresses.len() <= symbols.len() {
            addresses.len()
        } else {
            symbols.len()
        },
        |i: int| (addresses[i], crate::protocol::optional_text(symbols[i])),
    )
}

/// The description of a sample as it is put together.
pub struct Build {
    pub cache: CacheView,
    pub frame_ids: Seq<u64>,
    pub names: Seq<InternedStringView>,
    pub frames: Seq<Frame>,
}

/// What one more frame adds: its id, and, if it is new, its description and the
/// name of its function.
pub open spec fn add_frame(b: Build, pid: i32, item: NamedAddress) -> Build {
    let id = b.cache.frame_id(pid, item.0);
    let reserved = b.cache.with_frame(pid, item.0);
    let frame_ids = b.frame_ids.push(id);
    if b.cache.frames.contains_key((pid, item.0)) {
        Build { frame_ids, ..b }
    } else {
        match item.1 {
            Some(name) => Build {
                cache: CacheView {
                    next_function: (reserved.next_function + 1) as u64,
                    ..reserved
                },
                frame_ids,
                names: b.names.push(
                    InternedStringView { iid: reserved.next_function, str: name },
                ),
                frames: b.frames.push(
                    Frame {
                        iid: id,
                        function_name_id: reserved.next_function,
                        mapping_id: FAKE_MAPPING_ID,
                        rel_pc: item.0,
                    },
                ),
            },
            None => Build {
                cache: reserved.with_unknown(),
                frame_ids,
                names: b.names,
                frames: b.frames.push(
                    Frame {
                        iid: id,
                        function_name_id: reserved.unknown_id(),
                        mapping_id: FAKE_MAPPING_ID,
                        rel_pc: item.0,
                    },
                ),
            },
        }
    }
}

/// What a list of frames adds, in its order.
pub open spec fn add_frames(b: Build, pid: i32, items: Seq<NamedAddress>) -> Build
    decreases items.len(),
{
    if items.len() == 0 {
        b
    } else {
        add_frame(add_frames(b, pid, items.drop_last()), pid, items.last())
    }
}

/// The first thing described: the unknown function.
pub open spec fn first_names(cache: CacheView) -> Seq<InternedStringView> {
    if cache.unknown_function is None {
        seq![InternedStringView { iid: cache.next_function, str: "<unknown>"@ }]
    } else {
        seq![]
    }
}

/// The one mapping, if it was not described yet.
pub open spec fn first_mappings(cache: CacheView) -> Seq<MappingView> {
    if cache.fake_mapping is None {
        seq![
            MappingView {
                iid: FAKE_MAPPING_ID,
                build_id: 1,
                exact_offset: 0,
                start_offset: 0,
                start: 0,
                end: 0x7fffffffffffffff,
                load_bias: 0,
                path_string_ids: seq![],
            },
        ]
    } else {
        seq![]
    }
}

/// Its build id.
pub open spec fn first_build_ids(cache: CacheView) -> Seq<InternedStringView> {
    if cache.fake_mapping is None {
        seq![InternedStringView { iid: 1, str: "unknown"@ }]
    } else {
        seq![]
    }
}

/// The frames of a sample: the user addresses from the outermost to the
/// innermost, then the kernel addresses in their order.
pub open spec fn sample_build(
    cache: CacheView,
    pid: i32,
    user: Seq<NamedAddress>,
    kernel: Seq<NamedAddress>,
) -> Build {
    let start = Build {
        cache: cache.with_unknown().with_mapping(),
        frame_ids: seq![],
        names: first_names(cache),
        frames: seq![],
    };
    add_frames(add_frames(start, pid, user.reverse()), KERNEL_PID, kernel)
}

/// Whether a sample has anything in it that was not described before.
pub open spec fn sample_is_new(cache: CacheView, b: Build) -> bool {
    ||| !b.cache.callstacks.contains_key(callstack_hash(b.frame_ids))
    ||| b.names.len() > 0
    ||| b.frames.len() > 0
    ||| cache.fake_mapping is None
}

/// The description of a sample.
pub open spec fn sample_data(
    cache: CacheView,
    pid: i32,
    user: Seq<NamedAddress>,
    kernel: Seq<NamedAddress>,
) -> Option<InternedDataView> {
    let b = sample_build(cache, pid, user, kernel);
    if sample_is_new(cache, b) {
        Some(
            InternedDataView {
                function_names: b.names,
                frames: b.frames,
                callstacks: seq![
                    CallstackView {
                        iid: b.cache.callstack_id(b.frame_ids),
                        frame_ids: b.frame_ids,
                    },
                ],
                mappings: first_mappings(cache),
                build_ids: first_build_ids(cache),
                continuation: !b.cache.first,
            },
        )
    } else {
        None
    }
}

/// The cache after a sample.
pub open spec fn sample_cache(
    cache: CacheView,
    pid: i32,
    user: Seq<NamedAddress>,
    kernel: Seq<NamedAddress>,
) -> CacheView {
    let b = sample_build(cache, pid, user, kernel);
    let after = b.cache.with_callstack(b.frame_ids);
    if sample_is_new(cache, b) {
        CacheView { first: false, ..after }
    } else {
        after
    }
}

/// A stack sample whose symbols are looked up.
#[derive(Debug)]
pub struct Interned {
    pid: i32,
    user_addresses: Vec<u64>,
    kernel_addresses: Vec<u64>,
    user_symbols: Vec<Option<String>>,
    kernel_symbols: Vec<Option<String>>,
}

/// Describes one frame.
fn intern_frame(
    cache: &mut InternedCache,
    pid: i32,
    addr: u64,
    symbol: &Option<String>,
    frame_ids: &mut Vec<u64>,
    names: &mut Vec<InternedString>,
    frames: &mut Vec<Frame>,
)
    requires
        old(cache)@.has_room(1),
    ensures
        ({
            let b = add_frame(
                Build {
                    cache: old(cache)@,
                    frame_ids: old(frame_ids)@,
                    names: views(old(names)@),
                    frames: old(frames)@,
                },
                pid,
                (addr, crate::protocol::optional_text(*symbol)),
            );
            &&& final(cache)@ == b.cache
            &&& final(frame_ids)@ == b.frame_ids
            &&& views(final(names)@) == b.names
            &&& final(frames)@ == b.frames
        }),
        final(cache)@.next_frame <= old(cache)@.next_frame + 1,
        final(cache)@.function_ids() <= old(cache)@.function_ids() + 1,
        final(cache)@.next_callstack == old(cache)@.next_callstack,
        old(cache)@.wf() ==> final(cache)@.wf(),
{
    let is_new_frame: bool = cache.cached_frame(pid, addr).is_none();
    let frame_id: u64 = cache.reserve_frame(pid, addr);
    frame_ids.push(frame_id);
    if is_new_frame {
        let func_id: u64 = match symbol {
            Some(name) => {
                let id: u64 = cache.reserve_function_id();
                names.push(InternedString { iid: id, str: name.clone() });
                assert(views(names@) =~= views(old(names)@).push(
                    InternedStringView { iid: id, str: name@ },
                ));
                id
            },
            None => cache.get_or_create_unknown_function_id(),
        };
        frames.push(
            Frame {
                iid: frame_id,
                function_name_id: func_id,
                mapping_id: FAKE_MAPPING_ID,
                rel_pc: addr,
            },
        );
    }
}

impl Interned {
    pub closed spec fn spec_pid(&self) -> i32 {
        self.pid
    }

    /// The user addresses with their names.
    pub closed spec fn user(&self) -> Seq<NamedAddress> {
        named(self.user_addresses@, self.user_symbols@)
    }

    /// The kernel addresses with their names.
    pub closed spec fn kernel(&self) -> Seq<NamedAddress> {
        named(self.kernel_addresses@, self.kernel_symbols@)
    }

    /// The id of the sample's call stack, and the description of what it has that
    /// was not described before.
    pub fn data(&self, cache: &mut InternedCache) -> (r: (u64, Option<InternedData>))
        requires
            old(cache)@.wf(),
            old(cache)@.has_room((self.user().len() + self.kernel().len()) as int),
        ensures
            final(cache)@ == sample_cache(
                old(cache)@,
                self.spec_pid(),
                self.user(),
                self.kernel(),
            ),
            final(cache)@.wf(),
            ({
                let b = sample_build(old(cache)@, self.spec_pid(), self.user(), self.kernel());
                r.0 == b.cache.callstack_id(b.frame_ids)
            }),
            ({
                let data = sample_data(old(cache)@, self.spec_pid(), self.user(), self.kernel());
                match r.1 {
                    Some(d) => data == Some(d@),
                    None => data is None,
                }
            }),
    {
        let ghost before = cache@;
        let ghost user = self.user();
        let ghost kernel = self.kernel();
        let mut frame_ids: Vec<u64> = Vec::new();
        let mut names: Vec<InternedString> = Vec::new();
        let mut frames: Vec<Frame> = Vec::new();
        let mut mappings: Vec<Mapping> = Vec::new();
        let mut build_ids: Vec<InternedString> = Vec::new();

        if cache.unknown_function_id.is_none() {
            let unknown_id: u64 = cache.get_or_create_unknown_function_id();
            names.push(InternedString { iid: unknown_id, str: "<unknown>".to_owned() });
        }
        assert(views(names@) =~= first_names(before));
        if cache.fake_mapping_id.is_none() {
            let mapping_id: u64 = cache.get_or_create_fake_mapping_id();
            let path_string_ids: Vec<u64> = Vec::new();
            assert(path_string_ids@ =~= seq![]);
            mappings.push(
                Mapping {
                    iid: mapping_id,
                    build_id: 1,
                    exact_offset: 0,
                    start_offset: 0,
                    start: 0,
                    end: 0x7fffffffffffffff,
                    load_bias: 0,
                    path_string_ids,
                },
            );
            build_ids.push(InternedString { iid: 1, str: "unknown".to_owned() });
        }
        assert(views(mappings@) =~= first_mappings(before));
        assert(views(build_ids@) =~= first_build_ids(before));

        let ghost start = Build {
            cache: before.with_unknown().with_mapping(),
            frame_ids: seq![],
            names: first_names(before),
            frames: seq![],
        };
        let ghost items = user.reverse();
        let count: usize = if self.user_addresses.len() <= self.user_symbols.len() {
            self.user_addresses.len()
        } else {
            self.user_symbols.len()
        };
        let mut left: usize = count;
        while left > 0
            invariant
                left <= count == user.len(),
                user == named(self.user_addresses@, self.user_symbols@),
                items == user.reverse(),
                (Build {
                    cache: cache@,
                    frame_ids: frame_ids@,
                    names: views(names@),
                    frames: frames@,
                }) == add_frames(start, self.pid, items.take(count - left)),
                cache@.wf(),
                before.has_room((user.len() + kernel.len()) as int),
                cache@.next_callstack == before.next_callstack,
                cache@.next_frame <= before.next_frame + (count - left),
                cache@.function_ids() <= before.function_ids() + (count - left),
            decreases left,
        {
            let at: usize = left - 1;
            let ghost done = count - left;
            proof {
                assert(items.take(done + 1).drop_last() =~= items.take(done));
                assert(items.take(done + 1).last() == user[at as int]);
            }
            intern_frame(
                cache,
                self.pid,
                self.user_addresses[at],
                &self.user_symbols[at],
                &mut frame_ids,
                &mut names,
                &mut frames,
            );
            left = at;
        }
        assert(items.take(count as int) =~= items);
        let ghost middle = add_frames(start, self.pid, items);

        let kernel_count: usize = if self.kernel_addresses.len() <= self.kernel_symbols.len() {
            self.kernel_addresses.len()
        } else {
            self.kernel_symbols.len()
        };
        let mut i: usize = 0;
        assert(kernel.take(0) =~= seq![]);
        while i < kernel_count
            invariant
                i <= kernel_count == kernel.len(),
                kernel == named(self.kernel_addresses@, self.kernel_symbols@),
                (Build {
                    cache: cache@,
                    frame_ids: frame_ids@,
                    names: views(names@),
                    frames: frames@,
                }) == add_frames(middle, KERNEL_PID, kernel.take(i as int)),
                cache@.wf(),
                before.has_room((user.len() + kernel.len()) as int),
                cache@.next_callstack == before.next_callstack,
                cache@.next_frame <= before.next_frame + user.len() + i,
                cache@.function_ids() <= before.function_ids() + user.len() + i,
            decreases kernel_count - i,
        {
            proof {
                assert(kernel.take(i + 1).drop_last() =~= kernel.take(i as int));
                assert(kernel.take(i + 1).last() == kernel[i as int]);
            }
            intern_frame(
                cache,
                KERNEL_PID,
                self.kernel_addresses[i],
                &self.kernel_symbols[i],
                &mut frame_ids,
                &mut names,
                &mut frames,
            );
            i += 1;
        }
        assert(kernel.take(i as int) =~= kernel);
        let ghost b = sample_build(before, self.pid, user, kernel);

        let new_callstack: bool = cache.cached_callstack(
            self.pid,
            frame_ids.as_slice(),
        ).is_none();
        let callstack_id: u64 = cache.reserve_callstack(frame_ids.as_slice());
        if new_callstack || names.len() > 0 || frames.len() > 0 || mappings.len() > 0 {
            let continuation: bool = !cache.take_is_first_interned_data();
            let mut callstacks: Vec<Callstack> = Vec::new();
            callstacks.push(Callstack { iid: callstack_id, frame_ids });
            let data = InternedData {
                function_names: names,
                frames,
                callstacks,
                mappings,
                build_ids,
                continuation,
            };
            assert(views(data.callstacks@) =~= seq![
                CallstackView { iid: callstack_id, frame_ids: b.frame_ids },
            ]);
            assert(b.cache.first == b.cache.with_callstack(b.frame_ids).first);
            (callstack_id, Some(data))
        } else {
            (callstack_id, None)
        }
    }
}

/// How user addresses are looked up.
#[derive(Debug, Clone, Copy, PartialEq, Eq, Structural)]
pub struct ProcessConfig {
    pub debug_syms: bool,
    pub perf_map: bool,
    pub map_files: bool,
}

impl Default for ProcessConfig {
    fn default() -> (r: Self)
        ensures
            r == (ProcessConfig { debug_syms: true, perf_map: false, map_files: false }),
    {
        ProcessConfig { debug_syms: true, perf_map: false, map_files: false }
    }
}

/// Symbols that were looked up for a list of addresses, or why they were not.
pub type Lookup = Result<Vec<Option<String>>, String>;

/// Interns samples.
#[derive(Debug)]
pub struct Symbolizer {
    pub cache: InternedCache,
    pub cfg: ProcessConfig,
}

impl Symbolizer {
    pub fn new(cfg: ProcessConfig) -> (r: Self)
        ensures
            r.cfg == cfg,
            r.cache@ == CacheView::empty(),
            r.cache@.wf(),
    {
        Symbolizer { cache: InternedCache::new(), cfg }
    }
}

/// Puts a sample together from its addresses and from what their lookup gave:
/// nothing is looked up for an empty list, and a failed lookup of the user
/// addresses counts before one of the kernel addresses.
pub fn symbolize(
    pid: i32,
    user_addresses: Vec<u64>,
    kernel_addresses: Vec<u64>,
    user_lookup: Lookup,
    kernel_lookup: Lookup,
) -> (r: Result<Interned, SymbolizerError>)
    ensures
        ({
            let no_user = user_addresses@.len() == 0;
            let no_kernel = kernel_addresses@.len() == 0;
            if no_user && no_kernel {
                r == Err::<Interned, SymbolizerError>(SymbolizerError::EmptySymbols)
            } else if !no_user && user_lookup is Err {
                r == Err::<Interned, SymbolizerError>(
                    SymbolizerError::Blazesym(user_lookup->Err_0),
                )
            } else if !no_kernel && kernel_lookup is Err {
                r == Err::<Interned, SymbolizerError>(
                    SymbolizerError::Blazesym(kernel_lookup->Err_0),
                )
            } else {
                let user = if no_user {
                    seq![]
                } else {
                    user_lookup->Ok_0@
                };
                let kernel = if no_kernel {
                    seq![]
                } else {
                    kernel_lookup->Ok_0@
                };
                if user.len() == 0 && kernel.len() == 0 {
                    r == Err::<Interned, SymbolizerError>(SymbolizerError::EmptySymbols)
                } else {
                    r matches Ok(interned) && interned.spec_pid() == pid && interned.user()
                        == named(user_addresses@, user) && interned.kernel() == named(
                        kernel_addresses@,
                        kernel,
                    )
                }
            }
        }),
{
    if user_addresses.len() == 0 && kernel_addresses.len() == 0 {
        return Err(SymbolizerError::EmptySymbols);
    }
    let user_symbols: Vec<Option<String>> = if user_addresses.len() > 0 {
        match user_lookup {
            Ok(symbols) => symbols,
            Err(e) => {
                return Err(SymbolizerError::Blazesym(e));
            },
        }
    } else {
        Vec::new()
    };
    let kernel_symbols: Vec<Option<String>> = if kernel_addresses.len() > 0 {
        match kernel_lookup {
            Ok(symbols) => symbols,
            Err(e) => {
                return Err(SymbolizerError::Blazesym(e));
            },
        }
    } else {
        Vec::new()
    };
    if user_symbols.len() == 0 && kernel_symbols.len() == 0 {
        return Err(SymbolizerError::EmptySymbols);
    }
    Ok(Interned { pid, user_addresses, kernel_addresses, user_symbols, kernel_symbols })
}

/// A frame that was reserved is found under its id, reserving it again gives the
/// same id and changes nothing, and another frame gets another id.
pub proof fn law_frame_ids(cache: CacheView, pid: i32, frame: u64, other_pid: i32, other: u64)
    requires
        cache.wf(),
        cache.next_frame < u64::MAX,
    ensures
        ({
            let after = cache.with_frame(pid, frame);
            &&& after.frames.contains_key((pid, frame))
            &&& after.frames[(pid, frame)] == cache.frame_id(pid, frame)
            &&& after.frame_id(pid, frame) == cache.frame_id(pid, frame)
            &&& after.with_frame(pid, frame) == after
            &&& (other_pid, other) != (pid, frame) ==> after.frame_id(other_pid, other)
                != cache.frame_id(pid, frame)
        }),
{
}

/// A call stack that was reserved is found under its id, reserving it again gives
/// the same id and changes nothing, and a call stack of another hash gets another
/// id.
pub proof fn law_callstack_ids(cache: CacheView, callstack: Seq<u64>, other: Seq<u64>)
    requires
        cache.wf(),
        cache.next_callstack < u64::MAX,
    ensures
        ({
            let after = cache.with_callstack(callstack);
            &&& after.callstacks.contains_key(callstack_hash(callstack))
            &&& after.callstack_id(callstack) == cache.callstack_id(callstack)
            &&& after.with_callstack(callstack) == after
            &&& callstack_hash(other) != callstack_hash(callstack) ==> after.callstack_id(other)
                != cache.callstack_id(callstack)
        }),
{
}

/// What `add_frames` keeps: ids only get added, the frames it describes are those
/// that are new, and each is described by its id and address.
pub proof fn lemma_add_frames(b: Build, pid: i32, items: Seq<NamedAddress>)
    requires
        b.cache.next_frame + items.len() <= u64::MAX,
        b.cache.function_ids() + items.len() <= u64::MAX,
        b.cache.wf(),
    ensures
        ({
            let after = add_frames(b, pid, items);
            &&& after.cache.wf()
            &&& after.cache.next_frame <= b.cache.next_frame + items.len()
            &&& after.cache.function_ids() <= b.cache.function_ids() + items.len()
            &&& b.cache.unknown_function is Some ==> after.cache.unknown_function
                == b.cache.unknown_function
            &&& b.cache.frames.submap_of(after.cache.frames)
            &&& after.frame_ids.len() == b.frame_ids.len() + items.len()
            &&& after.frame_ids.take(b.frame_ids.len() as int) == b.frame_ids
            &&& forall|i: int|
                0 <= i < items.len() ==> after.cache.frames.contains_key(
                    (pid, (#[trigger] items[i]).0),
                ) && after.frame_ids[b.frame_ids.len() + i] == after.cache.frames[(
                    pid,
                    items[i].0,
                )]
            &&& after.frames.len() >= b.frames.len()
            &&& after.frames.take(b.frames.len() as int) == b.frames
            &&& forall|k: (i32, u64)|
                #![trigger after.cache.frames.contains_key(k)]
                after.cache.frames.contains_key(k) && !b.cache.frames.contains_key(k) ==> exists|
                    i: int,
                |
                    b.frames.len() <= i < after.frames.len() && (#[trigger] after.frames[i]).iid
                        == after.cache.frames[k] && after.frames[i].rel_pc == k.1
            &&& after.cache.callstacks == b.cache.callstacks
            &&& after.cache.next_callstack == b.cache.next_callstack
            &&& after.cache.first == b.cache.first
        }),
    decreases items.len(),
{
    if items.len() > 0 {
        let prev = add_frames(b, pid, items.drop_last());
        lemma_add_frames(b, pid, items.drop_last());
        let item = items.last();
        let after = add_frame(prev, pid, item);
        assert(after == add_frames(b, pid, items));
        assert(after.frame_ids.take(b.frame_ids.len() as int) =~= b.frame_ids);
        assert(after.frames.take(b.frames.len() as int) =~= b.frames);
        assert(prev.cache.frames.submap_of(after.cache.frames));
        assert(b.cache.frames.submap_of(after.cache.frames));
        assert(after.cache.wf());
        assert(after.cache.function_ids() <= b.cache.function_ids() + items.len());
        assert forall|i: int| 0 <= i < items.len() implies after.cache.frames.contains_key(
            (pid, (#[trigger] items[i]).0),
        ) && after.frame_ids[b.frame_ids.len() + i] == after.cache.frames[(pid, items[i].0)] by {
            if i < items.len() - 1 {
                assert(items[i] == items.drop_last()[i]);
            }
        }
        assert forall|k: (i32, u64)|
            #![trigger after.cache.frames.contains_key(k)]
            after.cache.frames.contains_key(k) && !b.cache.frames.contains_key(k) implies exists|
            i: int,
        |
            b.frames.len() <= i < after.frames.len() && (#[trigger] after.frames[i]).iid
                == after.cache.frames[k] && after.frames[i].rel_pc == k.1 by {
            if prev.cache.frames.contains_key(k) {
                let i = choose|i: int|
                    b.frames.len() <= i < prev.frames.len() && (#[trigger] prev.frames[i]).iid
                        == prev.cache.frames[k] && prev.frames[i].rel_pc == k.1;
                assert(after.frames[i] == prev.frames[i]);
            } else {
                let last = after.frames.len() - 1;
                assert(after.frames[last].iid == after.cache.frames[k]);
            }
        }
    } else {
        assert(b.frame_ids.take(b.frame_ids.len() as int) =~= b.frame_ids);
        assert(b.frames.take(b.frames.len() as int) =~= b.frames);
    }
}

/// A sample's call stack lists the ids of its frames: the user addresses from the
/// outermost on, then those of the kernel; and every frame in it either had its
/// id before or is described with the sample.
pub proof fn law_sample_is_described(
    cache: CacheView,
    pid: i32,
    user: Seq<NamedAddress>,
    kernel: Seq<NamedAddress>,
)
    requires
        cache.wf(),
        cache.has_room((user.len() + kernel.len()) as int),
    ensures
        ({
            let b = sample_build(cache, pid, user, kernel);
            let after = sample_cache(cache, pid, user, kernel);
            &&& after.wf()
            &&& after.frames == b.cache.frames
            &&& b.frame_ids.len() == user.len() + kernel.len()
            &&& forall|i: int|
                0 <= i < user.len() ==> #[trigger] b.frame_ids[i] == after.frames[(
                    pid,
                    user[user.len() - 1 - i].0,
                )]
            &&& forall|i: int|
                0 <= i < kernel.len() ==> b.frame_ids[user.len() + i] == after.frames[(
                    KERNEL_PID,
                    (#[trigger] kernel[i]).0,
                )]
            &&& forall|k: (i32, u64)| #[trigger]
                after.frames.contains_key(k) && !cache.frames.contains_key(k) ==> exists|i: int|
                    0 <= i < b.frames.len() && (#[trigger] b.frames[i]).iid == after.frames[k]
                        && b.frames[i].rel_pc == k.1
        }),
{
    let start = Build {
        cache: cache.with_unknown().with_mapping(),
        frame_ids: seq![],
        names: first_names(cache),
        frames: seq![],
    };
    let items = user.reverse();
    let middle = add_frames(start, pid, items);
    lemma_add_frames(start, pid, items);
    lemma_add_frames(middle, KERNEL_PID, kernel);
    let b = sample_build(cache, pid, user, kernel);
    let after = sample_cache(cache, pid, user, kernel);
    assert(b == add_frames(middle, KERNEL_PID, kernel));
    assert(after.frames == b.cache.frames);
    assert(middle.frame_ids.len() == user.len());
    assert forall|i: int| 0 <= i < user.len() implies #[trigger] b.frame_ids[i] == after.frames[(
        pid,
        user[user.len() - 1 - i].0,
    )] by {
        let key = (pid, items[i].0);
        assert(items[i] == user[user.len() - 1 - i]);
        assert(b.frame_ids[i] == b.frame_ids.take(middle.frame_ids.len() as int)[i]);
        assert(b.frame_ids[i] == middle.frame_ids[i]);
        assert(middle.cache.frames.contains_key(key));
        assert(middle.frame_ids[start.frame_ids.len() + i] == middle.cache.frames[key]);
        assert(b.cache.frames.contains_key(key));
        assert(b.cache.frames[key] == middle.cache.frames[key]);
    }
    assert forall|k: (i32, u64)| #[trigger]
        after.frames.contains_key(k) && !cache.frames.contains_key(k) implies exists|i: int|
        0 <= i < b.frames.len() && (#[trigger] b.frames[i]).iid == after.frames[k]
            && b.frames[i].rel_pc == k.1 by {
        if middle.cache.frames.contains_key(k) {
            let i = choose|i: int|
                0 <= i < middle.frames.len() && (#[trigger] middle.frames[i]).iid
                    == middle.cache.frames[k] && middle.frames[i].rel_pc == k.1;
            assert(b.frames.take(middle.frames.len() as int)[i] == b.frames[i]);
        } else {
            let i = choose|i: int|
                middle.frames.len() <= i < b.frames.len() && (#[trigger] b.frames[i]).iid
                    == b.cache.frames[k] && b.frames[i].rel_pc == k.1;
            assert(b.frames[i].iid == after.frames[k]);
        }
    }
}

/// A sample: the process, and the addresses with their names.
pub struct SampleView {
    pub pid: i32,
    pub user: Seq<NamedAddress>,
    pub kernel: Seq<NamedAddress>,
}

impl SampleView {
    /// How many frames it has.
    pub open spec fn count(self) -> int {
        (self.user.len() + self.kernel.len()) as int
    }

    /// Whether another sample has the same addresses, whatever their names.
    pub open spec fn same_addresses(self, other: SampleView) -> bool {
        &&& self.pid == other.pid
        &&& self.user.map_values(|a: NamedAddress| a.0) == other.user.map_values(
            |a: NamedAddress| a.0,
        )
        &&& self.kernel.map_values(|a: NamedAddress| a.0) == other.kernel.map_values(
            |a: NamedAddress| a.0,
        )
    }
}

/// The cache after samples, one after the other.
pub open spec fn samples_cache(cache: CacheView, samples: Seq<SampleView>) -> CacheView
    decreases samples.len(),
{
    if samples.len() == 0 {
        cache
    } else {
        let s = samples.last();
        sample_cache(samples_cache(cache, samples.drop_last()), s.pid, s.user, s.kernel)
    }
}

/// Whether each of the samples can be interned when its turn comes.
pub open spec fn samples_fit(cache: CacheView, samples: Seq<SampleView>) -> bool
    decreases samples.len(),
{
    samples.len() == 0 || {
        &&& samples_fit(cache, samples.drop_last())
        &&& samples_cache(cache, samples.drop_last()).has_room(samples.last().count())
    }
}

/// Whether what was interned before keeps its ids after.
spec fn grown(before: CacheView, after: CacheView) -> bool {
    &&& forall|k: (i32, u64)| #[trigger]
        before.frames.contains_key(k) ==> after.frames.contains_key(k) && after.frames[k]
            == before.frames[k]
    &&& forall|h: u64| #[trigger]
        before.callstacks.contains_key(h) ==> after.callstacks.contains_key(h)
            && after.callstacks[h] == before.callstacks[h]
    &&& before.unknown_function is Some ==> after.unknown_function is Some
    &&& before.fake_mapping is Some ==> after.fake_mapping is Some
}

/// A sample only adds to the cache; then all that it has is in it.
proof fn lemma_sample_grows(cache: CacheView, s: SampleView)
    requires
        cache.wf(),
        cache.has_room(s.count()),
    ensures
        ({
            let b = sample_build(cache, s.pid, s.user, s.kernel);
            let after = sample_cache(cache, s.pid, s.user, s.kernel);
            let hash = callstack_hash(b.frame_ids);
            &&& after.wf()
            &&& grown(cache, after)
            &&& after.unknown_function is Some
            &&& after.fake_mapping is Some
            &&& after.callstacks.contains_key(hash)
            &&& after.callstacks[hash] == b.cache.callstack_id(b.frame_ids)
            &&& forall|i: int|
                0 <= i < s.user.len() ==> after.frames.contains_key(
                    (s.pid, (#[trigger] s.user[i]).0),
                )
            &&& forall|i: int|
                0 <= i < s.kernel.len() ==> after.frames.contains_key(
                    (KERNEL_PID, (#[trigger] s.kernel[i]).0),
                )
        }),
{
    law_sample_is_described(cache, s.pid, s.user, s.kernel);
    let after = sample_cache(cache, s.pid, s.user, s.kernel);
    let start = Build {
        cache: cache.with_unknown().with_mapping(),
        frame_ids: seq![],
        names: first_names(cache),
        frames: seq![],
    };
    let items = s.user.reverse();
    lemma_add_frames(start, s.pid, items);
    let middle = add_frames(start, s.pid, items);
    lemma_add_frames(middle, KERNEL_PID, s.kernel);
    lemma_mapping_kept(start, s.pid, items);
    lemma_mapping_kept(middle, KERNEL_PID, s.kernel);
    assert forall|i: int| 0 <= i < s.user.len() implies after.frames.contains_key(
        (s.pid, (#[trigger] s.user[i]).0),
    ) by {
        assert(items[s.user.len() - 1 - i] == s.user[i]);
        assert(middle.cache.frames.contains_key((s.pid, items[s.user.len() - 1 - i].0)));
    }
    let b = add_frames(middle, KERNEL_PID, s.kernel);
    assert(b == sample_build(cache, s.pid, s.user, s.kernel));
    assert forall|k: (i32, u64)| #[trigger]
        cache.frames.contains_key(k) implies after.frames.contains_key(k) && after.frames[k]
        == cache.frames[k] by {
        assert(start.cache.frames.contains_key(k));
        assert(middle.cache.frames.contains_key(k));
        assert(b.cache.frames.contains_key(k));
    }
}

/// Samples only add to the cache.
proof fn lemma_samples_grow(cache: CacheView, samples: Seq<SampleView>)
    requires
        cache.wf(),
        samples_fit(cache, samples),
    ensures
        samples_cache(cache, samples).wf(),
        grown(cache, samples_cache(cache, samples)),
    decreases samples.len(),
{
    if samples.len() > 0 {
        lemma_samples_grow(cache, samples.drop_last());
        lemma_sample_grows(samples_cache(cache, samples.drop_last()), samples.last());
    }
}

/// A sample that was described once is not described again: whatever was interned
/// since, a sample of the same addresses has the same frame ids and the same call
/// stack id, nothing is new about it, and the cache stays as it is.
pub proof fn law_described_once(
    cache: CacheView,
    first: SampleView,
    between: Seq<SampleView>,
    second: SampleView,
)
    requires
        cache.wf(),
        cache.has_room(first.count()),
        samples_fit(sample_cache(cache, first.pid, first.user, first.kernel), between),
        first.same_addresses(second),
    ensures
        ({
            let b = sample_build(cache, first.pid, first.user, first.kernel);
            let later = samples_cache(
                sample_cache(cache, first.pid, first.user, first.kernel),
                between,
            );
            let again = sample_build(later, second.pid, second.user, second.kernel);
            &&& again.frame_ids == b.frame_ids
            &&& again.cache.callstack_id(again.frame_ids) == b.cache.callstack_id(b.frame_ids)
            &&& sample_data(later, second.pid, second.user, second.kernel) is None
            &&& sample_cache(later, second.pid, second.user, second.kernel) == later
        }),
{
    let pid = first.pid;
    let b = sample_build(cache, pid, first.user, first.kernel);
    let after = sample_cache(cache, pid, first.user, first.kernel);
    let later = samples_cache(after, between);
    law_sample_is_described(cache, pid, first.user, first.kernel);
    lemma_sample_grows(cache, first);
    lemma_samples_grow(after, between);
    let address = |a: NamedAddress| a.0;
    let items = second.user.reverse();
    let kernel = second.kernel;
    assert(second.user.len() == first.user.map_values(address).len());
    assert(kernel.len() == first.kernel.map_values(address).len());
    let start = Build {
        cache: later.with_unknown().with_mapping(),
        frame_ids: seq![],
        names: first_names(later),
        frames: seq![],
    };
    assert(start.cache == later);
    assert(first_names(later) =~= seq![]);
    assert forall|i: int| 0 <= i < items.len() implies later.frames.contains_key(
        (pid, (#[trigger] items[i]).0),
    ) && later.frames[(pid, items[i].0)] == b.frame_ids[i] by {
        let j = items.len() - 1 - i;
        assert(items[i] == second.user[j]);
        assert(first.user.map_values(address)[j] == second.user.map_values(address)[j]);
        assert(first.user[j].0 == items[i].0);
        assert(b.frame_ids[i] == after.frames[(pid, first.user[first.user.len() - 1 - i].0)]);
    }
    assert forall|i: int| 0 <= i < kernel.len() implies later.frames.contains_key(
        (KERNEL_PID, (#[trigger] kernel[i]).0),
    ) && later.frames[(KERNEL_PID, kernel[i].0)] == b.frame_ids[items.len() + i] by {
        assert(first.kernel.map_values(address)[i] == kernel.map_values(address)[i]);
        assert(first.kernel[i].0 == kernel[i].0);
        assert(first.user.len() == items.len());
        assert(b.frame_ids[first.user.len() + i] == after.frames[(KERNEL_PID, first.kernel[i].0)]);
        assert(after.frames.contains_key((KERNEL_PID, first.kernel[i].0)));
    }
    lemma_known_frames(start, pid, items);
    let middle = add_frames(start, pid, items);
    lemma_known_frames(middle, KERNEL_PID, kernel);
    let again = sample_build(later, second.pid, second.user, kernel);
    assert(again == add_frames(middle, KERNEL_PID, kernel));
    assert forall|i: int| 0 <= i < b.frame_ids.len() implies again.frame_ids[i] == b.frame_ids[i] by {
        if i < items.len() {
            assert(again.frame_ids.take(middle.frame_ids.len() as int)[i] == middle.frame_ids[i]);
            assert(middle.frame_ids[0 + i] == start.cache.frames[(pid, items[i].0)]);
        } else {
            let j = i - items.len();
            assert(again.frame_ids[middle.frame_ids.len() + j] == middle.cache.frames[(
                KERNEL_PID,
                kernel[j].0,
            )]);
        }
    }
    assert(again.frame_ids =~= b.frame_ids);
}

/// Adding frames leaves the mapping as it was.
proof fn lemma_mapping_kept(b: Build, pid: i32, items: Seq<NamedAddress>)
    ensures
        add_frames(b, pid, items).cache.fake_mapping == b.cache.fake_mapping,
    decreases items.len(),
{
    if items.len() > 0 {
        lemma_mapping_kept(b, pid, items.drop_last());
    }
}

/// Frames that all have their ids add these and nothing else.
proof fn lemma_known_frames(b: Build, pid: i32, items: Seq<NamedAddress>)
    requires
        forall|i: int|
            0 <= i < items.len() ==> b.cache.frames.contains_key((pid, (#[trigger] items[i]).0)),
    ensures
        ({
            let after = add_frames(b, pid, items);
            &&& after.cache == b.cache
            &&& after.names == b.names
            &&& after.frames == b.frames
            &&& after.frame_ids.len() == b.frame_ids.len() + items.len()
            &&& after.frame_ids.take(b.frame_ids.len() as int) == b.frame_ids
            &&& forall|i: int|
                0 <= i < items.len() ==> after.frame_ids[b.frame_ids.len() + i]
                    == b.cache.frames[(pid, (#[trigger] items[i]).0)]
        }),
    decreases items.len(),
{
    if items.len() > 0 {
        let rest = items.drop_last();
        assert forall|i: int| 0 <= i < rest.len() implies b.cache.frames.contains_key(
            (pid, (#[trigger] rest[i]).0),
        ) by {
            assert(rest[i] == items[i]);
        }
        lemma_known_frames(b, pid, rest);
        let prev = add_frames(b, pid, rest);
        let after = add_frames(b, pid, items);
        assert(items[items.len() - 1] == items.last());
        assert(after == add_frame(prev, pid, items.last()));
        assert forall|i: int| 0 <= i < items.len() implies after.frame_ids[b.frame_ids.len() + i]
            == b.cache.frames[(pid, (#[trigger] items[i]).0)] by {
            if i < rest.len() {
                assert(rest[i] == items[i]);
            }
        }
        assert(after.frame_ids.take(b.frame_ids.len() as int) =~= b.frame_ids);
    } else {
        assert(b.frame_ids.take(b.frame_ids.len() as int) =~= b.frame_ids);
    }
}

} // verus!
