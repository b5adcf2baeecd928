//! What is known of block devices.

use crate::bpf::blockdev::{
    device_text, mount_line, mount_lines, mounts_of, separator, unescaped, with_disks,
    written_device, MountInfoView, RegistryView,
};
use crate::laws::texts::{law_decimals_read_back, law_first_place, law_replacing, stands_at};
use crate::text::{decimal, joined, replaced, words};
use vstd::prelude::*;

verus! {

/// A device is written as its major and its minor number, which make it up, and reads
/// back from that; a major or minor number that is too large for a device is refused.
pub proof fn law_device_numbers_are_written(dev: u32, major: u32, minor: u32)
    requires
        dev == major * 1048576 + minor,
        minor < 1048576,
    ensures
        device_text(dev) == decimal(major as nat) + ":"@ + decimal(minor as nat),
        written_device(device_text(dev)) == Ok::<u32, Seq<char>>(dev),
{
    assert(dev / 0x10_0000 == major);
    assert(dev % 0x10_0000 == minor);
    lemma_written_pair(major as u64, minor as u64);
}

/// What is written with a number that no device has is refused.
pub proof fn law_large_device_numbers_are_refused(major: u64, minor: u64)
    ensures
        written_device(decimal(major as nat) + ":"@ + decimal(minor as nat)) is Err <==> major
            >= 4096 || minor >= 1048576,
        major < 4096 && minor < 1048576 ==> written_device(
            decimal(major as nat) + ":"@ + decimal(minor as nat),
        ) == Ok::<u32, Seq<char>>((major * 1048576 + minor) as u32),
{
    lemma_written_pair(major, minor);
}

proof fn lemma_written_pair(major: u64, minor: u64)
    ensures
        crate::bpf::blockdev::written_pair(decimal(major as nat) + ":"@ + decimal(minor as nat))
            == Ok::<(int, int), Option<crate::text::NumberError>>((major as int, minor as int)),
{
    let left = decimal(major as nat);
    let right = decimal(minor as nat);
    let s = left + ":"@ + right;
    reveal_strlit(":");
    law_decimals_read_back(major);
    law_decimals_read_back(minor);
    law_first_place(s, ':');
    let at = left.len() as int;
    assert(s[at] == ':');
    assert(s.contains(':'));
    let colon = crate::text::index_of(s, ':');
    if colon < at {
        assert(left[colon] == ':');
        assert(left.contains(':'));
    }
    assert(colon == at);
    assert(s.take(at) =~= left);
    assert(s.skip(at + 1) =~= right);
}

/// The mounts of a device are those that name it, in their order, and no others.
pub proof fn law_mounts_of_a_device(
    dev: u32,
    other: u32,
    mount: MountInfoView,
    a: Seq<(u32, MountInfoView)>,
    b: Seq<(u32, MountInfoView)>,
)
    requires
        other != dev,
    ensures
        mounts_of(a + b, dev) == mounts_of(a, dev) + mounts_of(b, dev),
        mounts_of(seq![(dev, mount)], dev) == seq![mount],
        mounts_of(seq![(other, mount)], dev).len() == 0,
        mounts_of(Seq::empty(), dev).len() == 0,
    decreases b.len(),
{
    let one = seq![(dev, mount)];
    let two = seq![(other, mount)];
    let none: Seq<(u32, MountInfoView)> = Seq::empty();
    assert(one.drop_last() =~= none);
    assert(two.drop_last() =~= none);
    assert(mounts_of(none, dev) =~= seq![]);
    assert(mounts_of(one, dev) =~= seq![mount]);
    let all = a + b;
    if b.len() == 0 {
        assert(all =~= a);
        assert(mounts_of(a, dev) + mounts_of(b, dev) =~= mounts_of(a, dev));
    } else {
        law_mounts_of_a_device(dev, other, mount, a, b.drop_last());
        assert(all.drop_last() =~= a + b.drop_last());
        assert(all.last() == b.last());
        assert(mounts_of(all, dev) =~= mounts_of(a, dev) + mounts_of(b, dev));
    }
}

proof fn lemma_mounts_of(mounts: Seq<(u32, MountInfoView)>, dev: u32, mount: MountInfoView)
    ensures
        mounts_of(mounts, dev).contains(mount) <==> mounts.contains((dev, mount)),
    decreases mounts.len(),
{
    if mounts.len() > 0 {
        let rest = mounts.drop_last();
        lemma_mounts_of(rest, dev, mount);
        assert(mounts =~= rest.push(mounts.last()));
        lemma_push_contains(rest, mounts.last(), (dev, mount));
        if mounts.last().0 == dev {
            lemma_push_contains(mounts_of(rest, dev), mounts.last().1, mount);
        }
    }
}

proof fn lemma_push_contains<A>(s: Seq<A>, a: A, x: A)
    ensures
        s.push(a).contains(x) <==> s.contains(x) || x == a,
{
    if s.contains(x) {
        let i = choose|i: int| 0 <= i < s.len() && s[i] == x;
        assert(s.push(a)[i] == x);
    }
    if x == a {
        assert(s.push(a)[s.len() as int] == x);
    }
    if s.push(a).contains(x) {
        let i = choose|i: int| 0 <= i < s.push(a).len() && s.push(a)[i] == x;
        if i < s.len() {
            assert(s[i] == x);
        }
    }
}

/// Whether one of the partitions of a disk has a mount.
pub open spec fn on_partition(
    mounts: Seq<(u32, MountInfoView)>,
    disks: Seq<(u32, u32)>,
    disk: u32,
    mount: MountInfoView,
) -> bool {
    exists|i: int|
        0 <= i < disks.len() && (#[trigger] disks[i]).1 == disk && disks[i].0 != disk
            && mounts.contains((disks[i].0, mount))
}

/// A disk has its own mounts and those of its partitions; a device that is no disk of
/// another has its own.
pub proof fn law_disks_have_the_mounts_of_their_partitions(
    mounts: Seq<(u32, MountInfoView)>,
    disks: Seq<(u32, u32)>,
    dev: u32,
    mount: MountInfoView,
)
    ensures
        with_disks(mounts, disks).contains((dev, mount)) <==> mounts.contains((dev, mount))
            || on_partition(mounts, disks, dev, mount),
    decreases disks.len(),
{
    if disks.len() > 0 {
        let rest = disks.drop_last();
        let (part, disk) = disks.last();
        let before = with_disks(mounts, rest);
        let after = with_disks(mounts, disks);
        law_disks_have_the_mounts_of_their_partitions(mounts, rest, dev, mount);
        if on_partition(mounts, rest, dev, mount) {
            let i = choose|i: int|
                0 <= i < rest.len() && (#[trigger] rest[i]).1 == dev && rest[i].0 != dev
                    && mounts.contains((rest[i].0, mount));
            assert(disks[i] == rest[i]);
        }
        if disk != part {
            let found = mounts_of(mounts, part);
            let moved = crate::bpf::blockdev::moved_to(found, disk);
            lemma_mounts_of(mounts, part, mount);
            assert(after == before + moved);
            if before.contains((dev, mount)) {
                let i = choose|i: int| 0 <= i < before.len() && before[i] == (dev, mount);
                assert(after[i] == (dev, mount));
            }
            if moved.contains((dev, mount)) {
                let i = choose|i: int| 0 <= i < moved.len() && moved[i] == (dev, mount);
                assert(after[before.len() + i] == (dev, mount));
                assert(found[i] == mount);
                assert(disks[disks.len() - 1] == (part, disk));
            }
            if found.contains(mount) && disk == dev {
                let i = choose|i: int| 0 <= i < found.len() && found[i] == mount;
                assert(moved[i] == (dev, mount));
            }
            if after.contains((dev, mount)) {
                let i = choose|i: int| 0 <= i < after.len() && after[i] == (dev, mount);
                if i >= before.len() {
                    assert(moved[i - before.len()] == (dev, mount));
                }
            }
        }
        if on_partition(mounts, disks, dev, mount) {
            let i = choose|i: int|
                0 <= i < disks.len() && (#[trigger] disks[i]).1 == dev && disks[i].0 != dev
                    && mounts.contains((disks[i].0, mount));
            if i < rest.len() {
                assert(rest[i] == disks[i]);
            }
        }
    }
}

/// A device goes by the name that is known for it, or by its number; its label gives the
/// number, too, and its track what is mounted from it and where, at up to three places.
pub proof fn law_devices_are_described(registry: RegistryView, dev: u32)
    ensures
        ({
            let info = registry.info(dev);
            &&& info.dev == dev
            &&& registry.names.contains_key(dev) ==> info.name == registry.names[dev]
            &&& !registry.names.contains_key(dev) ==> info.name == "block-"@ + device_text(dev)
            &&& forall|m: MountInfoView|
                info.mounts.contains(m) <==> #[trigger] registry.mounts.contains((dev, m))
            &&& info.label() == info.name + " ("@ + device_text(dev) + ")"@
            &&& info.mounts.len() == 0 ==> info.track_name() == info.label()
            &&& info.mounts.len() == 1 ==> info.track_name() == info.label() + " "@ + joined(
                crate::bpf::blockdev::filesystems(info.mounts),
                ","@,
            ) + " "@ + info.mounts[0].mountpoint
            &&& info.mounts.len() == 2 ==> info.track_name() == info.label() + " "@ + joined(
                crate::bpf::blockdev::filesystems(info.mounts),
                ","@,
            ) + " "@ + joined(
                seq![info.mounts[0].mountpoint, info.mounts[1].mountpoint],
                ","@,
            )
            &&& info.mounts.len() >= 3 ==> info.track_name() == info.label() + " "@ + joined(
                crate::bpf::blockdev::filesystems(info.mounts),
                ","@,
            ) + " "@ + joined(
                seq![
                    info.mounts[0].mountpoint,
                    info.mounts[1].mountpoint,
                    info.mounts[2].mountpoint,
                ],
                ","@,
            )
        }),
{
    let info = registry.info(dev);
    assert forall|m: MountInfoView|
        info.mounts.contains(m) <==> #[trigger] registry.mounts.contains((dev, m)) by {
        lemma_mounts_of(registry.mounts, dev, m);
    }
    let points = crate::bpf::blockdev::mountpoints(info.mounts, 3);
    if info.mounts.len() == 1 {
        assert(points =~= seq![info.mounts[0].mountpoint]);
    } else if info.mounts.len() == 2 {
        assert(points =~= seq![info.mounts[0].mountpoint, info.mounts[1].mountpoint]);
    } else if info.mounts.len() >= 3 {
        assert(points =~= seq![
            info.mounts[0].mountpoint,
            info.mounts[1].mountpoint,
            info.mounts[2].mountpoint,
        ]);
    }
}

/// Whether a text holds no backslash.
pub open spec fn plain(s: Seq<char>) -> bool {
    forall|i: int| 0 <= i < s.len() ==> #[trigger] s[i] != '\\'
}

/// A text of the mount table without a backslash is meant as it stands, and an escape in
/// it stands for a space, a tab, a line feed or a backslash.
pub proof fn law_escapes(a: Seq<char>, b: Seq<char>)
    requires
        plain(a),
        plain(b),
    ensures
        unescaped(a) == a,
        unescaped(a + "\\040"@ + b) == a + " "@ + b,
        unescaped(a + "\\011"@ + b) == a + "\t"@ + b,
        unescaped(a + "\\012"@ + b) == a + "\n"@ + b,
        unescaped(a + "\\134"@ + b) == a + "\\"@ + b,
{
    reveal_strlit("\\040");
    reveal_strlit("\\011");
    reveal_strlit("\\012");
    reveal_strlit("\\134");
    reveal_strlit(" ");
    reveal_strlit("\t");
    reveal_strlit("\n");
    let space = "\\040"@;
    let tab = "\\011"@;
    let feed = "\\012"@;
    let slash = "\\134"@;
    assert(space.len() == 4 && tab.len() == 4 && feed.len() == 4 && slash.len() == 4);
    assert(space[1] == '0' && space[2] == '4' && space[3] == '0');
    assert(tab[1] == '0' && tab[2] == '1' && tab[3] == '1');
    assert(feed[1] == '0' && feed[2] == '1' && feed[3] == '2');
    assert(slash[1] == '1' && slash[2] == '3' && slash[3] == '4');
    lemma_plain_is_kept(a, space, " "@);
    lemma_plain_is_kept(a, tab, "\t"@);
    lemma_plain_is_kept(a, feed, "\n"@);
    lemma_plain_is_kept(a, slash, "\\"@);
    lemma_escape(a, space, b, " "@);
    lemma_plain_is_kept(a + " "@ + b, tab, "\t"@);
    lemma_plain_is_kept(a + " "@ + b, feed, "\n"@);
    lemma_plain_is_kept(a + " "@ + b, slash, "\\"@);
    lemma_other_escape(a, tab, b, space, " "@);
    lemma_escape(a, tab, b, "\t"@);
    lemma_plain_is_kept(a + "\t"@ + b, feed, "\n"@);
    lemma_plain_is_kept(a + "\t"@ + b, slash, "\\"@);
    lemma_other_escape(a, feed, b, space, " "@);
    lemma_other_escape(a, feed, b, tab, "\t"@);
    lemma_escape(a, feed, b, "\n"@);
    lemma_plain_is_kept(a + "\n"@ + b, slash, "\\"@);
    lemma_other_escape(a, slash, b, space, " "@);
    lemma_other_escape(a, slash, b, tab, "\t"@);
    lemma_other_escape(a, slash, b, feed, "\n"@);
    lemma_escape(a, slash, b, "\\"@);
}

proof fn lemma_plain_is_kept(s: Seq<char>, escape: Seq<char>, with: Seq<char>)
    requires
        plain(s),
        escape.len() > 0,
        escape[0] == '\\',
    ensures
        replaced(s, escape, with) == s,
{
    assert forall|i: int| 0 <= i < s.len() implies !#[trigger] stands_at(s, escape, i) by {
        if stands_at(s, escape, i) {
            assert(s.subrange(i, i + escape.len())[0] == s[i]);
        }
    }
    law_replacing(s, escape, s, with);
}

proof fn lemma_escape(a: Seq<char>, escape: Seq<char>, b: Seq<char>, with: Seq<char>)
    requires
        plain(a),
        plain(b),
        escape.len() > 0,
        escape[0] == '\\',
    ensures
        replaced(a + escape + b, escape, with) == a + with + b,
{
    let all = a + escape + b;
    assert forall|i: int| 0 <= i < a.len() implies !#[trigger] stands_at(all, escape, i) by {
        if stands_at(all, escape, i) {
            assert(all.subrange(i, i + escape.len())[0] == all[i]);
            assert(all[i] == a[i]);
        }
    }
    law_replacing(a, escape, b, with);
    lemma_plain_is_kept(b, escape, with);
}

proof fn lemma_other_escape(
    a: Seq<char>,
    escape: Seq<char>,
    b: Seq<char>,
    other: Seq<char>,
    with: Seq<char>,
)
    requires
        plain(a),
        plain(b),
        escape.len() == 4,
        other.len() == 4,
        escape != other,
        escape[0] == '\\',
        other[0] == '\\',
        escape[1] != '\\',
        escape[2] != '\\',
        escape[3] != '\\',
    ensures
        replaced(a + escape + b, other, with) == a + escape + b,
{
    let all = a + escape + b;
    assert forall|i: int| 0 <= i < all.len() implies !#[trigger] stands_at(all, other, i) by {
        if stands_at(all, other, i) {
            assert(all.subrange(i, i + 4)[0] == all[i]);
            assert(all[i] == '\\');
            if i < a.len() {
                assert(all[i] == a[i]);
            } else if i == a.len() {
                assert(all.subrange(i, i + 4) =~= escape);
            } else if i < a.len() + 4 {
                assert(all[i] == escape[i - a.len()]);
            } else {
                assert(all[i] == b[i - a.len() - 4]);
            }
        }
    }
    law_replacing(all, other, b, with);
}

/// The first lone dash of a line parts what belongs to a mount from what belongs to its
/// file system.
pub proof fn law_separator(fields: Seq<Seq<char>>)
    ensures
        0 <= separator(fields) <= fields.len(),
        separator(fields) < fields.len() ==> fields[separator(fields)] == "-"@,
        forall|i: int| 0 <= i < separator(fields) ==> #[trigger] fields[i] != "-"@,
    decreases fields.len(),
{
    if fields.len() > 0 && fields[0] != "-"@ {
        let rest = fields.drop_first();
        law_separator(rest);
        assert forall|i: int| 0 <= i < separator(fields) implies #[trigger] fields[i] != "-"@ by {
            if i > 0 {
                assert(rest[i - 1] == fields[i]);
            }
        }
    }
}

/// A line of the mount table says what is mounted from the device in its third word: its
/// fifth word is the place, and the two words behind the dash are the kind of file system
/// and the source, with their escapes undone.
pub proof fn law_line_of_the_mount_table(
    line: Seq<char>,
    major: u64,
    minor: u64,
    at: int,
)
    requires
        major < 4096,
        minor < 1048576,
        0 <= at < words(line).len() - 2,
        words(line).len() >= 5,
        words(line)[2] == decimal(major as nat) + ":"@ + decimal(minor as nat),
        words(line)[at] == "-"@,
        forall|i: int| 0 <= i < at ==> #[trigger] words(line)[i] != "-"@,
    ensures
        mount_line(line) matches Some((dev, mount)) && {
            &&& dev == major * 1048576 + minor
            &&& mount.filesystem == words(line)[at + 1]
            &&& mount.source == unescaped(words(line)[at + 2])
            &&& mount.mountpoint == unescaped(words(line)[4])
        },
{
    let fields = words(line);
    law_separator(fields);
    lemma_written_pair(major, minor);
    if separator(fields) < at {
        assert(fields[separator(fields)] == "-"@);
    }
}

/// A line of the mount table says nothing if it has fewer than five words, no dash, fewer
/// than two words behind the dash, or no device.
pub proof fn law_lines_that_say_nothing(line: Seq<char>)
    ensures
        words(line).len() < 5 ==> mount_line(line) is None,
        (forall|i: int| 0 <= i < words(line).len() ==> #[trigger] words(line)[i] != "-"@)
            ==> mount_line(line) is None,
        words(line).len() > 0 && words(line).last() == "-"@ && (forall|i: int|
            0 <= i < words(line).len() - 1 ==> #[trigger] words(line)[i] != "-"@) ==> mount_line(
            line,
        ) is None,
        words(line).len() >= 5 && !words(line)[2].contains(':') ==> mount_line(line) is None,
{
    law_separator(words(line));
}

/// The mount table says what its lines say, one behind the other.
pub proof fn law_mount_table(line: Seq<char>, a: Seq<Seq<char>>, b: Seq<Seq<char>>)
    ensures
        mount_lines(a + b) == mount_lines(a) + mount_lines(b),
        mount_line(line) matches Some(m) ==> mount_lines(seq![line]) == seq![m],
        mount_line(line) is None ==> mount_lines(seq![line]).len() == 0,
    decreases b.len(),
{
    let one = seq![line];
    let none: Seq<Seq<char>> = Seq::empty();
    assert(one.drop_last() =~= none);
    assert(mount_lines(none) =~= seq![]);
    if mount_line(line) is Some {
        assert(mount_lines(one) =~= seq![mount_line(line)->0]);
    }
    let all = a + b;
    if b.len() == 0 {
        assert(all =~= a);
        assert(mount_lines(a) + mount_lines(b) =~= mount_lines(a));
    } else {
        law_mount_table(line, a, b.drop_last());
        assert(all.drop_last() =~= a + b.drop_last());
        assert(all.last() == b.last());
        assert(mount_lines(all) =~= mount_lines(a) + mount_lines(b));
    }
}

} // verus!
