//! Block devices: their numbers, their names, and what is mounted from them.

use super::error::BpfError;
use crate::text::{
    decimal, find, from_chars, index_of, join, joined, lines_of, number_value, parse_number,
    push_decimal, replace, replaced, same_text, sorted_texts, split_lines, split_words, texts,
    to_chars, words, NumberError,
};
use std::collections::HashMap;
use vstd::prelude::*;
use vstd::std_specs::hash::*;

verus! {

/// `nix::sys::stat::major`: the major number of a device, out of the bits 8 to 19
/// and 44 to 63 of its number.
pub assume_specification[ nix::sys::stat::major ](dev: u64) -> (r: u64)
    ensures
        r == ((dev >> 32) & 0xffff_f000) | ((dev >> 8) & 0x0000_0fff),
;

/// `nix::sys::stat::minor`: the minor number of a device, out of the bits 0 to 7
/// and 20 to 43 of its number.
pub assume_specification[ nix::sys::stat::minor ](dev: u64) -> (r: u64)
    ensures
        r == ((dev >> 12) & 0xffff_ff00) | (dev & 0x0000_00ff),
;

/// Whether two numbers fit a device number.
pub open spec fn in_range(major: u64, minor: u64) -> bool {
    major < 0x1000 && minor < 0x10_0000
}

/// The device number of a major and a minor number.
pub open spec fn device_number(major: int, minor: int) -> int {
    major * 0x10_0000 + minor
}

/// Two numbers with a colon between them.
pub open spec fn pair_text(major: int, minor: int) -> Seq<char> {
    decimal(major as nat) + ":"@ + decimal(minor as nat)
}

fn pair_string(major: u64, minor: u64) -> (r: String)
    ensures
        r@ == pair_text(major as int, minor as int),
{
    let mut r = String::new();
    push_decimal(&mut r, major);
    r.append(":");
    push_decimal(&mut r, minor);
    assert(r@ =~= pair_text(major as int, minor as int));
    r
}

pub fn encode_device(major: u64, minor: u64) -> (r: Result<u32, BpfError>)
    ensures
        match r {
            Ok(dev) => in_range(major, minor) && dev == device_number(major as int, minor as int),
            Err(e) => !in_range(major, minor) && e.is_load(
                "block device number is out of range: "@ + pair_text(major as int, minor as int),
            ),
        },
{
    if major >= 0x1000 || minor >= 0x10_0000 {
        let pair: String = pair_string(major, minor);
        return Err(
            BpfError::LoadError(
                "block device number is out of range: ".to_owned().concat(pair.as_str()),
            ),
        );
    }
    let a: u32 = major as u32;
    let b: u32 = minor as u32;
    assert(a < 0x1000 && b < 0x10_0000 ==> ((a << 20) | b) / 0x10_0000 == a && ((a << 20) | b)
        % 0x10_0000 == b) by (bit_vector);
    Ok((a << 20) | b)
}

/// The major and minor number of a device.
pub open spec fn parts(dev: u32) -> (u32, u32) {
    (dev / 0x10_0000, dev % 0x10_0000)
}

pub fn decode_device(dev: u32) -> (r: (u32, u32))
    ensures
        r == parts(dev),
{
    assert(dev >> 20 == dev / 0x10_0000) by (bit_vector);
    assert(dev & 0xf_ffff == dev % 0x10_0000) by (bit_vector);
    (dev >> 20, dev & 0xf_ffff)
}

/// Decoding gives back what was encoded, and encoding what was decoded.
pub proof fn law_device_numbers_round_trip(major: u64, minor: u64, dev: u32)
    requires
        in_range(major, minor),
    ensures
        device_number(major as int, minor as int) <= u32::MAX,
        parts(device_number(major as int, minor as int) as u32) == (major as u32, minor as u32),
        in_range(parts(dev).0 as u64, parts(dev).1 as u64),
        device_number(parts(dev).0 as int, parts(dev).1 as int) == dev,
{
}

/// A device number as text.
pub open spec fn device_text(dev: u32) -> Seq<char> {
    pair_text(parts(dev).0 as int, parts(dev).1 as int)
}

pub fn format_device(dev: u32) -> (r: String)
    ensures
        r@ == device_text(dev),
{
    let (major, minor): (u32, u32) = decode_device(dev);
    pair_string(major as u64, minor as u64)
}

/// The two numbers that a text writes with a colon between them, or why it does
/// not.
pub open spec fn written_pair(value: Seq<char>) -> Result<(int, int), Option<NumberError>> {
    let colon = index_of(value, ':');
    if !value.contains(':') {
        Err(None)
    } else {
        match number_value(value.take(colon)) {
            Err(e) => Err(Some(e)),
            Ok(major) => match number_value(value.skip(colon + 1)) {
                Err(e) => Err(Some(e)),
                Ok(minor) => Ok((major, minor)),
            },
        }
    }
}

/// The device that a text writes as major and minor number, or what is wrong with
/// the text.
pub open spec fn written_device(value: Seq<char>) -> Result<u32, Seq<char>> {
    match written_pair(value) {
        Err(None) => Err("invalid block device number: "@ + value),
        Err(Some(n)) => Err("invalid block device "@ + value + ": "@ + n.text()),
        Ok((major, minor)) => if in_range(major as u64, minor as u64) {
            Ok(device_number(major, minor) as u32)
        } else {
            Err("block device number is out of range: "@ + pair_text(major, minor))
        },
    }
}

/// Reads a device number that is written as major and minor number.
pub fn parse_major_minor(value: &str) -> (r: Result<u32, BpfError>)
    ensures
        match written_device(value@) {
            Ok(dev) => r == Ok::<u32, BpfError>(dev),
            Err(text) => r matches Err(e) && e.is_load(text),
        },
{
    let chars: Vec<char> = to_chars(value);
    let colon: usize = find(chars.as_slice(), ':');
    if colon >= chars.len() {
        return Err(
            BpfError::LoadError("invalid block device number: ".to_owned().concat(value)),
        );
    }
    let left: Vec<char> = slice_chars(&chars, 0, colon);
    let right: Vec<char> = slice_chars(&chars, colon + 1, chars.len());
    proof {
        assert(left@ =~= value@.take(colon as int));
        assert(right@ =~= value@.skip(colon + 1));
    }
    let major: u64 = match parse_number(left.as_slice()) {
        Ok(n) => n,
        Err(n) => {
            return Err(
                BpfError::LoadError(
                    "invalid block device ".to_owned().concat(value).concat(": ").concat(
                        n.to_str(),
                    ),
                ),
            );
        },
    };
    let minor: u64 = match parse_number(right.as_slice()) {
        Ok(n) => n,
        Err(n) => {
            return Err(
                BpfError::LoadError(
                    "invalid block device ".to_owned().concat(value).concat(": ").concat(
                        n.to_str(),
                    ),
                ),
            );
        },
    };
    encode_device(major, minor)
}

fn slice_chars(v: &Vec<char>, from: usize, to: usize) -> (r: Vec<char>)
    requires
        from <= to <= v@.len(),
    ensures
        r@ == v@.subrange(from as int, to as int),
{
    let mut r: Vec<char> = Vec::new();
    let mut i: usize = from;
    while i < to
        invariant
            from <= i <= to <= v@.len(),
            r@ =~= v@.subrange(from as int, i as int),
        decreases to - i,
    {
        r.push(v[i]);
        i += 1;
    }
    r
}

/// How a device is given in the configuration.
#[derive(Debug)]
pub enum DeviceSource {
    /// By its number.
    Number(u32),
    /// By the path of its node.
    Node,
    /// By its name.
    Name,
}

/// Decides how a device is given: by number if there is a colon and no slash in
/// the text, by path if it begins with a slash, and else by name.
pub fn device_source(value: &str) -> (r: Result<DeviceSource, BpfError>)
    ensures
        ({
            let numbered = value@.contains(':') && !value@.contains('/');
            if numbered {
                match written_device(value@) {
                    Ok(dev) => r == Ok::<DeviceSource, BpfError>(DeviceSource::Number(dev)),
                    Err(text) => r matches Err(e) && e.is_load(text),
                }
            } else {
                r == Ok::<DeviceSource, BpfError>(
                    if value@.len() > 0 && value@[0] == '/' {
                        DeviceSource::Node
                    } else {
                        DeviceSource::Name
                    },
                )
            }
        }),
{
    let chars: Vec<char> = to_chars(value);
    let has_colon: bool = find(chars.as_slice(), ':') < chars.len();
    let has_slash: bool = find(chars.as_slice(), '/') < chars.len();
    if has_colon && !has_slash {
        match parse_major_minor(value) {
            Ok(dev) => Ok(DeviceSource::Number(dev)),
            Err(e) => Err(e),
        }
    } else if chars.len() > 0 && chars[0] == '/' {
        Ok(DeviceSource::Node)
    } else {
        Ok(DeviceSource::Name)
    }
}

/// The device of a node, whose own device number is `rdev`.
pub fn node_device(rdev: u64) -> (r: Result<u32, BpfError>)
    ensures
        ({
            let major = ((rdev >> 32) & 0xffff_f000) | ((rdev >> 8) & 0x0000_0fff);
            let minor = ((rdev >> 12) & 0xffff_ff00) | (rdev & 0x0000_00ff);
            match r {
                Ok(dev) => in_range(major, minor) && dev == device_number(
                    major as int,
                    minor as int,
                ),
                Err(e) => !in_range(major, minor) && e.is_load(
                    "block device number is out of range: "@ + pair_text(
                        major as int,
                        minor as int,
                    ),
                ),
            }
        }),
{
    encode_device(nix::sys::stat::major(rdev), nix::sys::stat::minor(rdev))
}

/// The device number that a file in the device tree holds.
pub fn sysfs_device_number(content: &str) -> (r: Result<u32, BpfError>)
    ensures
        match written_device(crate::text::trim_end(crate::text::trim_start(content@))) {
            Ok(dev) => r == Ok::<u32, BpfError>(dev),
            Err(text) => r matches Err(e) && e.is_load(text),
        },
{
    let chars: Vec<char> = to_chars(content);
    let trimmed: Vec<char> = crate::text::trim(chars.as_slice());
    let value: String = from_chars(trimmed.as_slice(), 0, trimmed.len());
    assert(value@ =~= trimmed@);
    parse_major_minor(value.as_str())
}

/// The numbers without those that came before.
pub open spec fn distinct(s: Seq<u32>) -> Seq<u32>
    decreases s.len(),
{
    if s.len() == 0 {
        seq![]
    } else {
        let rest = distinct(s.drop_last());
        if rest.contains(s.last()) {
            rest
        } else {
            rest.push(s.last())
        }
    }
}

/// `distinct` keeps every number, once.
pub proof fn law_distinct(s: Seq<u32>)
    ensures
        distinct(s).no_duplicates(),
        forall|x: u32| #[trigger] distinct(s).contains(x) <==> s.contains(x),
    decreases s.len(),
{
    if s.len() > 0 {
        let rest = s.drop_last();
        law_distinct(rest);
        assert forall|x: u32| #[trigger] distinct(s).contains(x) <==> s.contains(x) by {
            if s.contains(x) {
                let i = choose|i: int| 0 <= i < s.len() && s[i] == x;
                if i < rest.len() {
                    assert(rest[i] == x);
                    assert(distinct(rest).contains(x));
                    if !distinct(rest).contains(s.last()) {
                        let j = choose|j: int|
                            0 <= j < distinct(rest).len() && distinct(rest)[j] == x;
                        assert(distinct(s)[j] == x);
                    }
                } else if !distinct(rest).contains(s.last()) {
                    assert(distinct(s).last() == x);
                }
            }
            if distinct(s).contains(x) {
                if distinct(rest).contains(x) {
                    assert(rest.contains(x));
                    let j = choose|j: int| 0 <= j < rest.len() && rest[j] == x;
                    assert(s[j] == x);
                } else {
                    assert(s[s.len() - 1] == s.last());
                }
            }
        }
    }
}

fn holds(list: &Vec<u32>, x: u32) -> (r: bool)
    ensures
        r == list@.contains(x),
{
    let mut i: usize = 0;
    while i < list.len()
        invariant
            i <= list@.len(),
            forall|j: int| 0 <= j < i ==> list@[j] != x,
        decreases list@.len() - i,
    {
        if list[i] == x {
            return true;
        }
        i += 1;
    }
    false
}

/// The numbers without repetitions.
pub fn distinct_numbers(list: &Vec<u32>) -> (r: Vec<u32>)
    ensures
        r@ == distinct(list@),
{
    let mut r: Vec<u32> = Vec::new();
    let mut i: usize = 0;
    assert(list@.take(0) =~= seq![]);
    assert(r@ =~= seq![]);
    while i < list.len()
        invariant
            i <= list@.len(),
            r@ == distinct(list@.take(i as int)),
        decreases list@.len() - i,
    {
        assert(list@.take(i + 1).drop_last() =~= list@.take(i as int));
        if !holds(&r, list[i]) {
            r.push(list[i]);
        }
        i += 1;
    }
    assert(list@.take(i as int) =~= list@);
    r
}

/// The text with the escapes of the mount table undone: first those of the space,
/// then of the tab, of the line feed, and of the backslash.
pub open spec fn unescaped(s: Seq<char>) -> Seq<char> {
    replaced(
        replaced(replaced(replaced(s, "\\040"@, " "@), "\\011"@, "\t"@), "\\012"@, "\n"@),
        "\\134"@,
        "\\"@,
    )
}

pub fn decode_mount_field(value: &str) -> (r: String)
    ensures
        r@ == unescaped(value@),
{
    proof {
        reveal_strlit("\\040");
        reveal_strlit("\\011");
        reveal_strlit("\\012");
        reveal_strlit("\\134");
    }
    let s0: Vec<char> = to_chars(value);
    let s1: Vec<char> = replace(s0.as_slice(), "\\040", " ");
    let s2: Vec<char> = replace(s1.as_slice(), "\\011", "\t");
    let s3: Vec<char> = replace(s2.as_slice(), "\\012", "\n");
    let s4: Vec<char> = replace(s3.as_slice(), "\\134", "\\");
    let r: String = from_chars(s4.as_slice(), 0, s4.len());
    assert(r@ =~= s4@);
    r
}

/// Something that is mounted.
#[derive(Debug)]
pub struct MountInfo {
    pub filesystem: String,
    pub source: String,
    pub mountpoint: String,
}

pub struct MountInfoView {
    pub filesystem: Seq<char>,
    pub source: Seq<char>,
    pub mountpoint: Seq<char>,
}

impl View for MountInfo {
    type V = MountInfoView;

    open spec fn view(&self) -> MountInfoView {
        MountInfoView {
            filesystem: self.filesystem@,
            source: self.source@,
            mountpoint: self.mountpoint@,
        }
    }
}

impl MountInfo {
    fn copy(&self) -> (r: Self)
        ensures
            r@ == self@,
    {
        MountInfo {
            filesystem: self.filesystem.clone(),
            source: self.source.clone(),
            mountpoint: self.mountpoint.clone(),
        }
    }
}

/// Mounts with their devices.
pub open spec fn mount_views(s: Seq<(u32, MountInfo)>) -> Seq<(u32, MountInfoView)> {
    s.map_values(|p: (u32, MountInfo)| (p.0, p.1@))
}

/// The place of the first word `-`, or the number of words if there is none.
pub open spec fn separator(fields: Seq<Seq<char>>) -> int
    decreases fields.len(),
{
    if fields.len() == 0 || fields[0] == "-"@ {
        0
    } else {
        1 + separator(fields.drop_first())
    }
}

/// What one line of the mount table says: behind the separator stand the file
/// system and the source; the third word is the device, the fifth the mount
/// point. A line that does not have these is passed over.
pub open spec fn mount_line(line: Seq<char>) -> Option<(u32, MountInfoView)> {
    let fields = words(line);
    let at = separator(fields);
    if at >= fields.len() || fields.len() <= at + 2 || fields.len() < 5 {
        None
    } else {
        match written_pair(fields[2]) {
            Ok((major, minor)) => if in_range(major as u64, minor as u64) {
                Some(
                    (
                        device_number(major, minor) as u32,
                        MountInfoView {
                            filesystem: fields[at + 1],
                            source: unescaped(fields[at + 2]),
                            mountpoint: unescaped(fields[4]),
                        },
                    ),
                )
            } else {
                None
            },
            Err(_) => None,
        }
    }
}

/// What the lines of the mount table say, in their order.
pub open spec fn mount_lines(lines: Seq<Seq<char>>) -> Seq<(u32, MountInfoView)>
    decreases lines.len(),
{
    if lines.len() == 0 {
        seq![]
    } else {
        match mount_line(lines.last()) {
            Some(m) => mount_lines(lines.drop_last()).push(m),
            None => mount_lines(lines.drop_last()),
        }
    }
}

fn find_separator(fields: &Vec<String>) -> (r: usize)
    ensures
        r == separator(texts(fields@)),
        r <= fields@.len(),
{
    let mut i: usize = 0;
    let ghost all = texts(fields@);
    assert(all.skip(0) =~= all);
    while i < fields.len() && !same_text(fields[i].as_str(), "-")
        invariant
            i <= fields@.len(),
            all == texts(fields@),
            separator(all) == i + separator(all.skip(i as int)),
        decreases fields@.len() - i,
    {
        assert(all.skip(i as int).drop_first() =~= all.skip(i + 1));
        i += 1;
    }
    i
}

fn parse_mount_line(line: &[char]) -> (r: Option<(u32, MountInfo)>)
    ensures
        match r {
            Some(m) => mount_line(line@) == Some((m.0, m.1@)),
            None => mount_line(line@) is None,
        },
{
    let fields: Vec<String> = split_words(line);
    let ghost all = words(line@);
    assert(all =~= texts(fields@));
    let at: usize = find_separator(&fields);
    if at >= fields.len() || fields.len() - at <= 2 || fields.len() < 5 {
        return None;
    }
    match parse_major_minor(fields[2].as_str()) {
        Err(_) => None,
        Ok(dev) => Some(
            (
                dev,
                MountInfo {
                    filesystem: fields[at + 1].clone(),
                    source: decode_mount_field(fields[at + 2].as_str()),
                    mountpoint: decode_mount_field(fields[4].as_str()),
                },
            ),
        ),
    }
}

/// Reads the mount table.
pub fn read_mountinfo(content: &str) -> (r: Vec<(u32, MountInfo)>)
    ensures
        mount_views(r@) == mount_lines(lines_of(content@)),
{
    let chars: Vec<char> = to_chars(content);
    let lines: Vec<Vec<char>> = split_lines(chars.as_slice());
    let ghost all = lines_of(content@);
    let mut r: Vec<(u32, MountInfo)> = Vec::new();
    let mut i: usize = 0;
    proof {
        assert(all.take(0) =~= seq![]);
        assert(mount_views(r@) =~= seq![]);
    }
    while i < lines.len()
        invariant
            i <= lines@.len(),
            all == crate::text::char_lists(lines@),
            mount_views(r@) == mount_lines(all.take(i as int)),
        decreases lines@.len() - i,
    {
        let ghost before = r@;
        proof {
            assert(all.take(i + 1).drop_last() =~= all.take(i as int));
            assert(all.take(i + 1).last() == lines@[i as int]@);
        }
        if let Some(m) = parse_mount_line(lines[i].as_slice()) {
            let ghost view = (m.0, m.1@);
            r.push(m);
            assert(mount_views(r@) =~= mount_views(before).push(view));
        }
        i += 1;
    }
    assert(all.take(i as int) =~= all);
    r
}

/// What is mounted from one device.
pub open spec fn mounts_of(mounts: Seq<(u32, MountInfoView)>, dev: u32) -> Seq<MountInfoView>
    decreases mounts.len(),
{
    if mounts.len() == 0 {
        seq![]
    } else if mounts.last().0 == dev {
        mounts_of(mounts.drop_last(), dev).push(mounts.last().1)
    } else {
        mounts_of(mounts.drop_last(), dev)
    }
}

/// Mounts, all from one device.
pub open spec fn moved_to(mounts: Seq<MountInfoView>, dev: u32) -> Seq<(u32, MountInfoView)> {
    mounts.map_values(|m: MountInfoView| (dev, m))
}

/// The mounts with those of each partition added to its disk, too.
pub open spec fn with_disks(
    mounts: Seq<(u32, MountInfoView)>,
    disks: Seq<(u32, u32)>,
) -> Seq<(u32, MountInfoView)>
    decreases disks.len(),
{
    if disks.len() == 0 {
        mounts
    } else {
        let (dev, disk) = disks.last();
        let rest = with_disks(mounts, disks.drop_last());
        if disk == dev {
            rest
        } else {
            rest + moved_to(mounts_of(mounts, dev), disk)
        }
    }
}

/// A device with its name and mounts.
#[derive(Debug)]
pub struct DeviceInfo {
    pub dev: u32,
    pub name: String,
    pub mounts: Vec<MountInfo>,
}

pub struct DeviceInfoView {
    pub dev: u32,
    pub name: Seq<char>,
    pub mounts: Seq<MountInfoView>,
}

impl View for DeviceInfo {
    type V = DeviceInfoView;

    open spec fn view(&self) -> DeviceInfoView {
        DeviceInfoView {
            dev: self.dev,
            name: self.name@,
            mounts: crate::protocol::views(self.mounts@),
        }
    }
}

/// The file systems of mounts, in ascending order, each once.
pub open spec fn filesystems(mounts: Seq<MountInfoView>) -> Seq<Seq<char>> {
    choose|list: Seq<Seq<char>>| #[trigger]
        crate::text::ascending(list) && list.to_set() == mounts.map_values(
            |m: MountInfoView| m.filesystem,
        ).to_set()
}

/// The first `n` mount points.
pub open spec fn mountpoints(mounts: Seq<MountInfoView>, n: int) -> Seq<Seq<char>> {
    mounts.take(
        if n <= mounts.len() {
            n
        } else {
            mounts.len() as int
        },
    ).map_values(|m: MountInfoView| m.mountpoint)
}

/// The sources of mounts.
pub open spec fn sources(mounts: Seq<MountInfoView>) -> Seq<Seq<char>> {
    mounts.map_values(|m: MountInfoView| m.source)
}

impl DeviceInfoView {
    /// Name and number.
    pub open spec fn label(self) -> Seq<char> {
        self.name + " ("@ + device_text(self.dev) + ")"@
    }

    /// The name of the device's track: name and number and, where something is
    /// mounted, the file systems and up to three mount points.
    pub open spec fn track_name(self) -> Seq<char> {
        if self.mounts.len() > 0 {
            self.label() + " "@ + joined(filesystems(self.mounts), ","@) + " "@ + joined(
                mountpoints(self.mounts, 3),
                ","@,
            )
        } else {
            self.label()
        }
    }
}

impl DeviceInfo {
    pub fn major_minor(&self) -> (r: String)
        ensures
            r@ == device_text(self@.dev),
    {
        format_device(self.dev)
    }

    /// Name and number.
    pub fn label(&self) -> (r: String)
        ensures
            r@ == self@.label(),
    {
        let number: String = self.major_minor();
        self.name.clone().concat(" (").concat(number.as_str()).concat(")")
    }

    /// The file systems, in ascending order, joined by commas.
    pub fn filesystems(&self) -> (r: String)
        ensures
            r@ == joined(filesystems(self@.mounts), ","@),
    {
        let mut names: Vec<String> = Vec::new();
        let ghost all = self@.mounts.map_values(|m: MountInfoView| m.filesystem);
        let mut i: usize = 0;
        while i < self.mounts.len()
            invariant
                i <= self.mounts@.len(),
                all == self@.mounts.map_values(|m: MountInfoView| m.filesystem),
                texts(names@) =~= all.take(i as int),
            decreases self.mounts@.len() - i,
        {
            let ghost before = names@;
            names.push(self.mounts[i].filesystem.clone());
            assert(texts(names@) =~= texts(before).push(all[i as int]));
            i += 1;
        }
        assert(texts(names@) =~= all);
        let sorted: Vec<String> = sorted_texts(&names);
        proof {
            let list = texts(sorted@);
            assert(crate::text::ascending(list) && list.to_set() == all.to_set());
            crate::text::law_ascending_is_unique(list, filesystems(self@.mounts));
        }
        join(&sorted, ",")
    }

    /// The first `n` mount points, joined by commas.
    pub fn mountpoints(&self, n: usize) -> (r: String)
        ensures
            r@ == joined(mountpoints(self@.mounts, n as int), ","@),
    {
        let count: usize = if n <= self.mounts.len() {
            n
        } else {
            self.mounts.len()
        };
        let ghost all = mountpoints(self@.mounts, n as int);
        let mut points: Vec<String> = Vec::new();
        let mut i: usize = 0;
        while i < count
            invariant
                i <= count <= self.mounts@.len(),
                all == mountpoints(self@.mounts, n as int),
                count == all.len(),
                texts(points@) =~= all.take(i as int),
            decreases count - i,
        {
            let ghost before = points@;
            points.push(self.mounts[i].mountpoint.clone());
            assert(texts(points@) =~= texts(before).push(all[i as int]));
            i += 1;
        }
        assert(texts(points@) =~= all);
        join(&points, ",")
    }

    /// The sources, joined by commas.
    pub fn sources(&self) -> (r: String)
        ensures
            r@ == joined(sources(self@.mounts), ","@),
    {
        let ghost all = sources(self@.mounts);
        let mut list: Vec<String> = Vec::new();
        let mut i: usize = 0;
        while i < self.mounts.len()
            invariant
                i <= self.mounts@.len(),
                all == sources(self@.mounts),
                texts(list@) =~= all.take(i as int),
            decreases self.mounts@.len() - i,
        {
            let ghost before = list@;
            list.push(self.mounts[i].source.clone());
            assert(texts(list@) =~= texts(before).push(all[i as int]));
            i += 1;
        }
        assert(texts(list@) =~= all);
        join(&list, ",")
    }

    pub fn track_name(&self) -> (r: String)
        ensures
            r@ == self@.track_name(),
    {
        let label: String = self.label();
        if self.mounts.len() > 0 {
            let systems: String = self.filesystems();
            let points: String = self.mountpoints(3);
            label.concat(" ").concat(systems.as_str()).concat(" ").concat(points.as_str())
        } else {
            label
        }
    }
}

/// What is known of the devices: the names that were found for some, what is
/// mounted, and the track of each that has one.
pub struct DeviceRegistry {
    names: HashMap<u32, String>,
    mounts: Vec<(u32, MountInfo)>,
    track_ids: HashMap<u32, u64>,
}

pub struct RegistryView {
    pub names: Map<u32, Seq<char>>,
    pub mounts: Seq<(u32, MountInfoView)>,
    pub tracks: Map<u32, u64>,
}

impl RegistryView {
    /// What is known of a device; one without a name is called after its number.
    pub open spec fn info(self, dev: u32) -> DeviceInfoView {
        DeviceInfoView {
            dev,
            name: if self.names.contains_key(dev) {
                self.names[dev]
            } else {
                "block-"@ + device_text(dev)
            },
            mounts: mounts_of(self.mounts, dev),
        }
    }
}

impl View for DeviceRegistry {
    type V = RegistryView;

    closed spec fn view(&self) -> RegistryView {
        RegistryView {
            names: self.names@.map_values(|s: String| s@),
            mounts: mount_views(self.mounts@),
            tracks: self.track_ids@,
        }
    }
}

/// The mounts of one device.
fn collect_mounts(mounts: &Vec<(u32, MountInfo)>, dev: u32) -> (r: Vec<MountInfo>)
    ensures
        crate::protocol::views(r@) == mounts_of(mount_views(mounts@), dev),
{
    let ghost all = mount_views(mounts@);
    let mut r: Vec<MountInfo> = Vec::new();
    let mut i: usize = 0;
    proof {
        assert(all.take(0) =~= seq![]);
        assert(crate::protocol::views(r@) =~= seq![]);
    }
    while i < mounts.len()
        invariant
            i <= mounts@.len(),
            all == mount_views(mounts@),
            crate::protocol::views(r@) == mounts_of(all.take(i as int), dev),
        decreases mounts@.len() - i,
    {
        let ghost before = r@;
        proof {
            assert(all.take(i + 1).drop_last() =~= all.take(i as int));
            assert(all.take(i + 1).last() == all[i as int]);
        }
        if mounts[i].0 == dev {
            r.push(mounts[i].1.copy());
            assert(crate::protocol::views(r@) =~= crate::protocol::views(before).push(
                all[i as int].1,
            ));
        }
        i += 1;
    }
    assert(all.take(i as int) =~= all);
    r
}

impl DeviceRegistry {
    /// A registry with what is mounted, where `disks` names the disk of each
    /// device that something is mounted from, as far as it is known.
    pub fn new(mounts: Vec<(u32, MountInfo)>, disks: &Vec<(u32, u32)>) -> (r: Self)
        ensures
            r@ == (RegistryView {
                names: Map::empty(),
                mounts: with_disks(mount_views(mounts@), disks@),
                tracks: Map::empty(),
            }),
    {
        let ghost original = mount_views(mounts@);
        let mut added: Vec<(u32, MountInfo)> = Vec::new();
        let mut i: usize = 0;
        proof {
            assert(disks@.take(0) =~= seq![]);
            assert(original + mount_views(added@) =~= original);
        }
        while i < disks.len()
            invariant
                i <= disks@.len(),
                original == mount_views(mounts@),
                original + mount_views(added@) == with_disks(original, disks@.take(i as int)),
            decreases disks@.len() - i,
        {
            let (dev, disk): (u32, u32) = disks[i];
            proof {
                assert(disks@.take(i + 1).drop_last() =~= disks@.take(i as int));
                assert(disks@.take(i + 1).last() == disks@[i as int]);
            }
            if disk != dev {
                let list: Vec<MountInfo> = collect_mounts(&mounts, dev);
                let ghost before = added@;
                let ghost extra = moved_to(mounts_of(original, dev), disk);
                let mut k: usize = 0;
                while k < list.len()
                    invariant
                        k <= list@.len(),
                        extra == moved_to(crate::protocol::views(list@), disk),
                        mount_views(added@) =~= mount_views(before) + extra.take(k as int),
                    decreases list@.len() - k,
                {
                    let ghost prev = added@;
                    added.push((disk, list[k].copy()));
                    assert(mount_views(added@) =~= mount_views(prev).push(extra[k as int]));
                    k += 1;
                }
                assert(extra.take(k as int) =~= extra);
                assert(original + mount_views(added@) =~= original + mount_views(before) + extra);
            }
            i += 1;
        }
        assert(disks@.take(i as int) =~= disks@);
        let mut all: Vec<(u32, MountInfo)> = mounts;
        let ghost first = all@;
        let ghost second = added@;
        all.append(&mut added);
        let r = DeviceRegistry { names: HashMap::new(), mounts: all, track_ids: HashMap::new() };
        proof {
            assert(mount_views(all@) =~= mount_views(first) + mount_views(second));
            assert(r@.names =~= Map::empty());
        }
        r
    }

    /// Whether the name of a device was set.
    pub fn has_name(&self, dev: u32) -> (r: bool)
        ensures
            r == self@.names.contains_key(dev),
    {
        broadcast use group_hash_axioms;

        self.names.contains_key(&dev)
    }

    /// Sets the name of a device.
    pub fn set_name(&mut self, dev: u32, name: String)
        ensures
            final(self)@ == (RegistryView {
                names: old(self)@.names.insert(dev, name@),
                ..old(self)@
            }),
    {
        broadcast use group_hash_axioms;

        let ghost n = name@;
        self.names.insert(dev, name);
        assert(self@.names =~= old(self)@.names.insert(dev, n));
    }

    pub fn info(&self, dev: u32) -> (r: DeviceInfo)
        ensures
            r@ == self@.info(dev),
    {
        broadcast use group_hash_axioms;

        let name: String = match self.names.get(&dev) {
            Some(name) => name.clone(),
            None => {
                let number: String = format_device(dev);
                "block-".to_owned().concat(number.as_str())
            },
        };
        DeviceInfo { dev, name, mounts: collect_mounts(&self.mounts, dev) }
    }

    /// The track of a device, if it has one.
    pub fn track(&self, dev: u32) -> (r: Option<u64>)
        ensures
            r == (if self@.tracks.contains_key(dev) {
                Some(self@.tracks[dev])
            } else {
                None
            }),
    {
        broadcast use group_hash_axioms;

        match self.track_ids.get(&dev) {
            Some(id) => Some(*id),
            None => None,
        }
    }

    pub(crate) fn set_track(&mut self, dev: u32, id: u64)
        ensures
            final(self)@ == (RegistryView {
                tracks: old(self)@.tracks.insert(dev, id),
                ..old(self)@
            }),
    {
        broadcast use group_hash_axioms;

        self.track_ids.insert(dev, id);
    }
}

} // verus!
