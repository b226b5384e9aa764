//! What holds of the memory disk: which drive it gets, and that no other disk is touched.
use crate::models::AppSettings;
use crate::ram_disk;
use crate::ram_disk::{DiskProbe, ElevatedCommand, SetupStep};
use crate::text;
use vstd::prelude::*;

verus! {

/// A drive is named by a letter that stands alone or before a colon, and is told by the large letter;
/// nothing else names one.
pub proof fn law_drives_are_named_by_letters(value: Seq<char>)
    ensures
        ({
            let own = text::trimmed(value);
            match ram_disk::drive_of(value) {
                Some(letter) => {
                    &&& own.len() > 0
                    &&& 'A' <= letter <= 'Z'
                    &&& own[0] == letter || own[0] as int == letter as int + 32
                    &&& own.len() == 1 || own[1] == ':'
                },
                None => {
                    ||| own.len() == 0
                    ||| !('A' <= own[0] <= 'Z' || 'a' <= own[0] <= 'z')
                    ||| own.len() > 1 && own[1] != ':'
                },
            }
        }),
{
}

/// A disk is taken as it is where its size is at most eight mebibytes away from what is asked for.
pub proof fn law_sizes_may_differ_a_little(capacity_mb: u64, size_mb: int)
    ensures
        !ram_disk::fits_size(None, size_mb),
        ram_disk::fits_size(Some(capacity_mb), size_mb) <==> capacity_mb <= size_mb + 8 && size_mb
            <= capacity_mb + 8,
{
}

/// A drive that is there and does not belong to the program is never replaced or removed.
pub proof fn law_foreign_disks_are_left_alone(letter: char, probe: DiskProbe, size_mb: int)
    requires
        !probe.marker_exists,
    ensures
        ram_disk::setup_step(letter, probe, size_mb) != Ok::<SetupStep, Seq<char>>(
            SetupStep::Replace,
        ),
        probe.root_exists ==> ram_disk::setup_step(letter, probe, size_mb) != Ok::<
            SetupStep,
            Seq<char>,
        >(SetupStep::Create),
        ram_disk::release_step(letter, probe) != Ok::<bool, Seq<char>>(true),
        probe.root_exists && !probe.mounted ==> ram_disk::setup_step(letter, probe, size_mb) is Err,
{
}

/// A disk is only made where the driver is there; it is made on a free drive, taken where it is there
/// with the right size, and replaced where it is the program's own with another size.
pub proof fn law_disks_are_set_up(letter: char, probe: DiskProbe, size_mb: int)
    ensures
        !probe.supported || !probe.driver_installed ==> ram_disk::setup_step(letter, probe, size_mb)
            is Err,
        probe.supported && probe.driver_installed && !probe.root_exists ==> ram_disk::setup_step(
            letter,
            probe,
            size_mb,
        ) == Ok::<SetupStep, Seq<char>>(SetupStep::Create),
        probe.supported && probe.driver_installed && probe.root_exists && probe.mounted
            && probe.capacity_mb == Some(size_mb as u64) && 0 <= size_mb <= u64::MAX
            ==> ram_disk::setup_step(letter, probe, size_mb) == Ok::<SetupStep, Seq<char>>(
            SetupStep::Reuse,
        ),
        probe.supported && probe.driver_installed && probe.root_exists && !probe.mounted
            && probe.marker_exists ==> ram_disk::setup_step(letter, probe, size_mb) == Ok::<
            SetupStep,
            Seq<char>,
        >(SetupStep::Replace),
        probe.supported && probe.mounted && probe.marker_exists ==> ram_disk::release_step(
            letter,
            probe,
        ) == Ok::<bool, Seq<char>>(true),
        !probe.mounted ==> ram_disk::release_step(letter, probe) == Ok::<bool, Seq<char>>(false),
{
}

proof fn lemma_others(all: Seq<char>, own: char, c: char)
    ensures
        ram_disk::others(all, own).contains(c) <==> all.contains(c) && c != own,
    decreases all.len(),
{
    if all.len() > 0 {
        lemma_others(all.drop_last(), own, c);
        let rest = ram_disk::others(all.drop_last(), own);
        let whole = ram_disk::others(all, own);
        if rest.contains(c) {
            let at = choose|at: int| 0 <= at < rest.len() && rest[at] == c;
            assert(whole[at] == c);
            let k = choose|k: int| 0 <= k < all.drop_last().len() && all.drop_last()[k] == c;
            assert(all[k] == c);
        }
        if all.contains(c) && !all.drop_last().contains(c) {
            let k = choose|k: int| 0 <= k < all.len() && all[k] == c;
            if k < all.len() - 1 {
                assert(all.drop_last()[k] == c);
            }
            assert(all.last() == c);
            if c != own {
                assert(whole[rest.len() as int] == c);
            }
        }
        if whole.contains(c) && !rest.contains(c) {
            let at = choose|at: int| 0 <= at < whole.len() && whole[at] == c;
            if at < rest.len() {
                assert(rest[at] == c);
            }
            assert(all.last() == c && c != own);
            assert(all[all.len() - 1] == c);
        }
    }
}

/// The drive that was chosen is tried first, then those from Z down to R.
pub proof fn law_drives_are_tried_from_the_end(preferred: Option<char>, c: char)
    ensures
        preferred is Some ==> ram_disk::candidates(preferred)[0] == preferred->0,
        preferred is None ==> ram_disk::candidates(preferred)[0] == 'Z',
        ram_disk::candidates(preferred).contains(c) <==> preferred == Some(c) || 'R' <= c <= 'Z',
        forall|i: int, j: int|
            0 <= i < j < 9 ==> #[trigger] ram_disk::candidates(None)[i]
                > #[trigger] ram_disk::candidates(None)[j],
{
    let all = seq!['Z', 'Y', 'X', 'W', 'V', 'U', 'T', 'S', 'R'];
    assert(all.contains(c) <==> 'R' <= c <= 'Z') by {
        assert(all[0] == 'Z' && all[1] == 'Y' && all[2] == 'X' && all[3] == 'W' && all[4] == 'V');
        assert(all[5] == 'U' && all[6] == 'T' && all[7] == 'S' && all[8] == 'R');
        if 'R' <= c <= 'Z' {
            let k = 'Z' as int - c as int;
            assert(0 <= k < 9);
            assert(all[k] == c);
        }
    }
    if let Some(own) = preferred {
        lemma_others(all, own, c);
        let list = ram_disk::candidates(preferred);
        let rest = ram_disk::others(all, own);
        if rest.contains(c) {
            let at = choose|at: int| 0 <= at < rest.len() && rest[at] == c;
            assert(list[at + 1] == c);
        }
        assert(list[0] == own);
        if list.contains(c) {
            let at = choose|at: int| 0 <= at < list.len() && list[at] == c;
            if at > 0 {
                assert(rest[at - 1] == c);
            }
        }
    }
}

/// A drive can be had where nothing is there, or what is there belongs to the program or is a memory
/// disk of the right size; the first such drive is taken.
pub proof fn law_first_free_drive_is_taken(probes: Seq<DiskProbe>, size_mb: int, i: int)
    requires
        0 <= i <= probes.len(),
    ensures
        match ram_disk::first_available(probes, size_mb, i) {
            Some(k) => {
                &&& i <= k < probes.len()
                &&& !probes[k].root_exists || probes[k].marker_exists || probes[k].mounted
                &&& forall|j: int|
                    i <= j < k ==> (#[trigger] probes[j]).root_exists && !probes[j].marker_exists
            },
            None => forall|j: int|
                i <= j < probes.len() ==> (#[trigger] probes[j]).root_exists
                    && !probes[j].marker_exists,
        },
    decreases probes.len() - i,
{
    if i < probes.len() && !ram_disk::is_available(probes[i], size_mb) {
        law_first_free_drive_is_taken(probes, size_mb, i + 1);
    }
}

/// The disk is used where it, the copying of videos and the keeping of frames are all switched on.
pub proof fn law_disk_needs_its_uses(settings: AppSettings)
    ensures
        ram_disk::is_wanted(settings) ==> settings.ram_disk_enabled
            && settings.local_preprocess_enabled && settings.ai_frame_cache_enabled,
        settings.ram_disk_enabled && settings.local_preprocess_enabled
            && settings.ai_frame_cache_enabled ==> ram_disk::is_wanted(settings),
{
}

/// The disk is ready exactly where its drive is named, it is mounted and its folder is there.
pub proof fn law_ready_disks_have_their_folder(letter: Option<char>, probe: DiskProbe)
    ensures
        ram_disk::is_ready(letter, probe) ==> letter is Some && probe.mounted
            && probe.cache_is_dir,
        letter is Some && probe.mounted && probe.cache_is_dir ==> ram_disk::is_ready(letter, probe),
{
}

proof fn lemma_commands()
    ensures
        "--configure-ram-disk"@ != "--ensure-ram-disk"@,
        "--configure-ram-disk"@ != "--release-ram-disk"@,
        "--ensure-ram-disk"@ != "--release-ram-disk"@,
{
    reveal_strlit("--configure-ram-disk");
    reveal_strlit("--ensure-ram-disk");
    reveal_strlit("--release-ram-disk");
    assert("--configure-ram-disk"@[2] == 'c');
    assert("--ensure-ram-disk"@[2] == 'e');
    assert("--release-ram-disk"@[2] == 'r');
}

proof fn lemma_command_at(args: Seq<Seq<char>>, i: int, from: int)
    requires
        0 <= from <= i < args.len(),
        ram_disk::starts_command(args[i]),
        forall|k: int| 0 <= k < i ==> !ram_disk::starts_command(#[trigger] args[k]),
    ensures
        ram_disk::command_at(args, from) == Some(i),
    decreases i - from,
{
    if from < i {
        lemma_command_at(args, i, from + 1);
    }
}

/// The first command among the arguments is done, with the size and the drive that follow it; only
/// the one that configures registers tasks.
pub proof fn law_commands_take_what_follows(args: Seq<Seq<char>>, i: int, size_mb: nat, c: char)
    requires
        0 <= i,
        i + 2 < args.len(),
        size_mb <= 0xffff_ffff,
        size_mb <= u64::MAX,
        forall|k: int| 0 <= k < i ==> !ram_disk::starts_command(#[trigger] args[k]),
    ensures
        args[i] == "--configure-ram-disk"@ && args[i + 1] == text::decimal(size_mb)
            && ram_disk::drive_of(args[i + 2]) == Some(c) ==> ram_disk::command_of(args) == Some(
            (ElevatedCommand::Configure {
                size_mb: size_mb as usize,
                drive_letter: c,
                register: true,
            }),
        ),
        args[i] == "--ensure-ram-disk"@ && args[i + 1] == text::decimal(size_mb)
            && ram_disk::drive_of(args[i + 2]) == Some(c) ==> ram_disk::command_of(args) == Some(
            (ElevatedCommand::Configure {
                size_mb: size_mb as usize,
                drive_letter: c,
                register: false,
            }),
        ),
        args[i] == "--release-ram-disk"@ && ram_disk::drive_of(args[i + 1]) == Some(c)
            ==> ram_disk::command_of(args) == Some(
            (ElevatedCommand::Release { drive_letter: c }),
        ),
{
    lemma_commands();
    crate::media_laws::law_written_numbers_are_read_back(size_mb);
    if ram_disk::starts_command(args[i]) {
        lemma_command_at(args, i, 0);
    }
}

/// Arguments without a command do nothing.
pub proof fn law_other_arguments_do_nothing(args: Seq<Seq<char>>, from: int)
    requires
        0 <= from,
        forall|k: int|
            0 <= k < args.len() ==> #[trigger] args[k] != "--configure-ram-disk"@ && args[k]
                != "--ensure-ram-disk"@ && args[k] != "--release-ram-disk"@,
    ensures
        ram_disk::command_at(args, from) is None,
        from == 0 ==> ram_disk::command_of(args) is None,
    decreases args.len() - from,
{
    if from < args.len() {
        law_other_arguments_do_nothing(args, from + 1);
    }
}

/// Written into a task, a text brings no character that has a meaning there; one that has none of
/// them is written as it is.
pub proof fn law_written_texts_have_no_markup(s: Seq<char>)
    ensures
        forall|k: int|
            0 <= k < ram_disk::escaped(s).len() ==> #[trigger] ram_disk::escaped(s)[k] != '<'
                && ram_disk::escaped(s)[k] != '>' && ram_disk::escaped(s)[k] != '"'
                && ram_disk::escaped(s)[k] != '\'',
        (forall|k: int|
            0 <= k < s.len() ==> #[trigger] s[k] != '<' && s[k] != '>' && s[k] != '"' && s[k]
                != '\'' && s[k] != '&') ==> ram_disk::escaped(s) == s,
    decreases s.len(),
{
    reveal_strlit("&amp;");
    reveal_strlit("&lt;");
    reveal_strlit("&gt;");
    reveal_strlit("&quot;");
    reveal_strlit("&apos;");
    if s.len() > 0 {
        let head = s.drop_last();
        law_written_texts_have_no_markup(head);
        let before = ram_disk::escaped(head);
        let own = ram_disk::escaped_char(s.last());
        let whole = ram_disk::escaped(s);
        assert(whole =~= before + own);
        assert forall|k: int| 0 <= k < whole.len() implies #[trigger] whole[k] != '<' && whole[k]
            != '>' && whole[k] != '"' && whole[k] != '\'' by {
            if k < before.len() {
                assert(whole[k] == before[k]);
            } else {
                assert(whole[k] == own[k - before.len()]);
            }
        }
        if forall|k: int|
            0 <= k < s.len() ==> #[trigger] s[k] != '<' && s[k] != '>' && s[k] != '"' && s[k]
                != '\'' && s[k] != '&' {
            assert forall|k: int| 0 <= k < head.len() implies #[trigger] head[k] != '<' && head[k]
                != '>' && head[k] != '"' && head[k] != '\'' && head[k] != '&' by {
                assert(head[k] == s[k]);
            }
            assert(s[s.len() - 1] == s.last());
            assert(whole =~= s);
        }
    } else {
        assert(ram_disk::escaped(s) =~= s);
    }
}

/// Texts that differ in their last character, one of them an ampersand or a bracket, are written apart.
pub proof fn law_markup_is_written_apart(s: Seq<char>, c: char, d: char)
    requires
        c != d,
        ram_disk::escaped_char(c).len() == 1 || ram_disk::escaped_char(d).len() == 1,
    ensures
        ram_disk::escaped(s.push(c)) != ram_disk::escaped(s.push(d)),
        ram_disk::escaped_char('&').len() > 1,
        ram_disk::escaped_char('<') != ram_disk::escaped_char('>'),
{
    reveal_strlit("&amp;");
    reveal_strlit("&lt;");
    reveal_strlit("&gt;");
    reveal_strlit("&quot;");
    reveal_strlit("&apos;");
    assert(ram_disk::escaped_char('<')[1] == 'l');
    assert(ram_disk::escaped_char('>')[1] == 'g');
    let a = ram_disk::escaped(s.push(c));
    let b = ram_disk::escaped(s.push(d));
    assert(s.push(c).drop_last() =~= s);
    assert(s.push(d).drop_last() =~= s);
    let start = ram_disk::escaped(s);
    if a == b {
        assert(a =~= start + ram_disk::escaped_char(c));
        assert(b =~= start + ram_disk::escaped_char(d));
        assert(ram_disk::escaped_char(c) =~= a.skip(start.len() as int));
        assert(ram_disk::escaped_char(d) =~= b.skip(start.len() as int));
        assert(ram_disk::escaped_char(c)[0] == ram_disk::escaped_char(d)[0]);
    }
}

proof fn lemma_two_bytes(c: char)
    requires
        c as int <= 0xffff,
    ensures
        0 <= c as int / 256 < 256,
{
}

proof fn lemma_unit_bytes(units: Seq<int>)
    ensures
        ram_disk::unit_bytes(units).len() == 2 * units.len(),
    decreases units.len(),
{
    if units.len() > 0 {
        lemma_unit_bytes(units.drop_last());
    }
}

/// A text is written in units of two bytes, the lower one first, behind the mark of that order: a
/// character that fits into one unit can be read back from its two bytes.
pub proof fn law_units_are_written_lower_byte_first(s: Seq<char>, i: int)
    requires
        forall|k: int| 0 <= k < s.len() ==> (#[trigger] s[k]) as int <= 0xffff,
        0 <= i < s.len(),
    ensures
        ram_disk::utf16_bytes(s).len() == 2 + 2 * s.len(),
        ram_disk::utf16_bytes(s)[0] == 0xff && ram_disk::utf16_bytes(s)[1] == 0xfe,
        ram_disk::utf16_bytes(s)[2 + 2 * i] + 256 * ram_disk::utf16_bytes(s)[3 + 2 * i]
            == s[i] as int,
    decreases s.len(),
{
    let head = s.drop_last();
    let n = s.last() as int;
    assert(s[s.len() - 1] as int <= 0xffff);
    let units = ram_disk::code_units(s.last());
    assert(units =~= seq![n]);
    let own = ram_disk::unit_bytes(units);
    lemma_unit_bytes(units);
    assert(units.drop_last() =~= Seq::empty());
    assert(ram_disk::unit_bytes(Seq::<int>::empty()).len() == 0);
    assert(ram_disk::unit_bytes(units.drop_last()) =~= Seq::<u8>::empty());
    assert(own =~= Seq::<u8>::empty().push((n % 256) as u8).push((n / 256) as u8));
    lemma_two_bytes(s.last());
    assert(own[0] == n % 256 && own[1] == n / 256);
    let before = ram_disk::utf16_bytes(head);
    let whole = ram_disk::utf16_bytes(s);
    assert(whole =~= before + own);
    assert forall|k: int| 0 <= k < head.len() implies (#[trigger] head[k]) as int <= 0xffff by {
        assert(head[k] == s[k]);
    }
    if head.len() > 0 {
        law_units_are_written_lower_byte_first(head, 0);
        if i < head.len() {
            law_units_are_written_lower_byte_first(head, i);
            assert(head[i] == s[i]);
        }
    } else {
        assert(head =~= Seq::empty());
        assert(before =~= seq![0xffu8, 0xfeu8]);
    }
}

/// A character that does not fit into one unit is written in a pair of units, from which it can be
/// read back.
pub proof fn law_large_characters_take_two_units(c: char)
    requires
        c as int >= 0x1_0000,
    ensures
        ({
            let units = ram_disk::code_units(c);
            &&& units.len() == 2
            &&& 0xd800 <= units[0] < 0xdc00
            &&& 0xdc00 <= units[1] < 0xe000
            &&& (units[0] - 0xd800) * 0x400 + (units[1] - 0xdc00) + 0x1_0000 == c as int
        }),
{
    let n = c as int - 0x1_0000;
    assert(n == (n / 0x400) * 0x400 + n % 0x400);
}

/// A command without a size that can be read, or without its drive, does nothing.
pub proof fn law_incomplete_commands_do_nothing(args: Seq<Seq<char>>, i: int)
    requires
        0 <= i < args.len(),
        forall|k: int| 0 <= k < i ==> !ram_disk::starts_command(#[trigger] args[k]),
        args[i] == "--configure-ram-disk"@ || args[i] == "--ensure-ram-disk"@ || args[i]
            == "--release-ram-disk"@,
    ensures
        args.len() == i + 1 ==> ram_disk::command_of(args) is None,
        args.len() == i + 2 && args[i] != "--release-ram-disk"@ ==> ram_disk::command_of(args)
            is None,
        args.len() > i + 2 && args[i] != "--release-ram-disk"@ && crate::media::number_of(
            args[i + 1],
        ) is None ==> ram_disk::command_of(args) is None,
        args.len() > i + 2 && args[i] != "--release-ram-disk"@ && ram_disk::drive_of(args[i + 2])
            is None ==> ram_disk::command_of(args) is None,
        args.len() > i + 1 && args[i] == "--release-ram-disk"@ && ram_disk::drive_of(args[i + 1])
            is None ==> ram_disk::command_of(args) is None,
{
    lemma_command_at(args, i, 0);
}

} // verus!
