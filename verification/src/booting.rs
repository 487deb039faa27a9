//! What the live boot environment boots with: its fstab, its boot entry and the files on the
//! EFI system partition, in terms of what the system answered.

use crate::btrfs::subvolume_name;
use crate::command_runner::querying;
use crate::config::{BootEntry, Location, Setup, Target};
use crate::hooks::{
    esp_line, finding_uuid, fstab_head, fstab_lines, generating_fstab, lemma_fstab_lines,
    source_line, uuid_call,
};
use crate::journal::{
    call, drive, failure_in, flag_in, group_plan, perform, present, Answer, Ask, Call, Log, Printed,
};
use crate::liveboot::{
    added_options, creating_entry, entries_dir_of, entry_content, entry_file_of, entry_lines,
    entry_options, esp_asset, finding_luks, finding_luks_uuid, finding_root, is_managed,
    lemma_entry_options, lemma_unmanaged, resolving_target, root_device_of, unmanaged, LuksBoot,
};
use crate::orders::{answered, lemma_answered, words};
use crate::path::{
    file_name_of, is_absolute, is_root_dir, joined_path, lemma_name_is_plain, names_path,
};
use crate::text::{joined, lossy_text, trimmed, with_char};
use crate::trace::{extends, group_only, lemma_drive_extends, lemma_only, only, settled};
use vstd::prelude::*;
use vstd::utf8::{decode_utf8, valid_utf8};

verus! {

/// The words of the command that gives the UUID of what is mounted at a path.
pub open spec fn findmnt(mount_point: Seq<char>) -> Call {
    words(
        "findmnt"@,
        seq![
            "--mountpoint"@,
            mount_point,
            "--output"@,
            "UUID"@,
            "--noheadings"@,
            "--first-only"@,
        ],
    )
}

/// The answer tells the UUID: the command did well, and this is what it printed.
pub open spec fn tells_uuid(a: Answer, uuid: Seq<char>) -> bool {
    &&& a matches Answer::Ran(o) && o.success && valid_utf8(o.stdout) && uuid == trimmed(
        decode_utf8(o.stdout),
    )
    &&& uuid.len() > 0
}

/// The UUID of what is mounted at a path, as the system answered from position `at` on; none
/// where the answer does not tell one.
pub open spec fn uuid_answered(
    l: Log,
    at: int,
    mount_point: Seq<char>,
    uuid: Option<Seq<char>>,
) -> bool {
    exists|a: Answer| #[trigger]
        answered(l, at, Ask::Run(findmnt(mount_point)), a) && match uuid {
            Some(u) => tells_uuid(a, u),
            None => forall|u: Seq<char>| !tells_uuid(a, u),
        }
}

/// What was answered about a UUID was so from any earlier position on.
proof fn lemma_uuid_answered(
    before: Log,
    after: Log,
    at: int,
    from: int,
    mount_point: Seq<char>,
    uuid: Option<Seq<char>>,
)
    requires
        uuid_answered(before, at, mount_point, uuid),
        extends(before, after),
        0 <= from <= at,
    ensures
        uuid_answered(after, from, mount_point, uuid),
{
    let q = Ask::Run(findmnt(mount_point));
    let a = choose|a: Answer| #[trigger]
        answered(before, at, q, a) && match uuid {
            Some(u) => tells_uuid(a, u),
            None => forall|u: Seq<char>| !tells_uuid(a, u),
        };
    lemma_answered(before, after, at, from, q, a);
}

proof fn lemma_finding_uuid(mount_point: Seq<char>, log: Log)
    requires
        settled(log),
    ensures
        ({
            let (l, o) = drive(finding_uuid(mount_point), log);
            o matches Some(r) ==> uuid_answered(
                l,
                log.asked.len() as int,
                mount_point,
                match r {
                    Ok(uuid) => Some(uuid),
                    Err(_) => None,
                },
            )
        }),
{
    broadcast use group_plan;

    reveal(finding_uuid);
    reveal(querying);
    let at = log.asked.len() as int;
    let (l, o) = drive(finding_uuid(mount_point), log);
    assert(uuid_call(mount_point).args =~= findmnt(mount_point).args);
    if let Some(r) = o {
        let a = l.answers[at + 1];
        assert(l.asked[at + 1] == Ask::Run(findmnt(mount_point)));
        assert(answered(l, at, Ask::Run(findmnt(mount_point)), a));
    }
}

/// The beginning of an fstab line: the device with the UUID, where it is mounted, and its kind.
pub open spec fn device_line(uuid: Seq<char>, mount_point: Seq<char>, kind: Seq<char>) -> Seq<
    char,
> {
    "UUID="@ + uuid + "  "@ + mount_point + "  "@ + kind + "  "@
}

/// The end of an fstab line for a subvolume.
pub open spec fn subvolume_end(live_root: Seq<char>, name: Seq<char>) -> Seq<char> {
    ",subvol="@ + live_root + "/"@ + name + "  0 0"@
}

/// Where the EFI system partition is mounted in the live boot environment: where the
/// configuration says, and without one at `/efi`.
pub open spec fn configured_esp(c: Setup) -> Seq<char> {
    match c.live_boot {
        Some(boot) => boot.esp_path,
        None => "/efi"@,
    }
}

/// The lines of an fstab that mounts every source from the device with the UUID `root`, and the
/// EFI system partition, where it has one, from the device with the UUID `esp`; no other line
/// names a device.
pub open spec fn mounts_all(
    lines: Seq<Seq<char>>,
    c: Setup,
    root: Seq<char>,
    esp: Option<Seq<char>>,
) -> bool {
    let n = c.sources.len() as int;
    &&& lines.len() == n + if esp is Some {
        12int
    } else {
        11
    }
    &&& forall|i: int|
        0 <= i < n ==> {
            let path = (#[trigger] c.sources[i]).path;
            let point = if is_root_dir(path) {
                "/"@
            } else {
                path
            };
            &&& device_line(root, point, "btrfs"@).is_prefix_of(lines[8 + i])
            &&& subvolume_end(c.target.live_root(), subvolume_name(path)).is_suffix_of(
                lines[8 + i],
            )
        }
    &&& esp matches Some(uuid) ==> device_line(
        uuid,
        "/"@ + names_path(configured_esp(c)),
        "vfat"@,
    ).is_prefix_of(lines[9 + n])
    &&& forall|k: int|
        0 <= k < lines.len() && !(8 <= k < 8 + n) && !(esp is Some && k == 9 + n)
            ==> !"UUID="@.is_prefix_of(#[trigger] lines[k])
}

/// Ends with `tail`, whatever comes before it.
proof fn lemma_ends(head: Seq<char>, tail: Seq<char>)
    ensures
        tail.is_suffix_of(head + tail),
        head.is_prefix_of(head + tail),
{
    assert((head + tail).subrange(head.len() as int, (head + tail).len() as int) =~= tail);
    assert((head + tail).subrange(0, head.len() as int) =~= head);
}

proof fn lemma_source_line(uuid: Seq<char>, live_root: Seq<char>, path: Seq<char>)
    ensures
        ({
            let point = if is_root_dir(path) {
                "/"@
            } else {
                path
            };
            let line = source_line(uuid, live_root, path);
            &&& device_line(uuid, point, "btrfs"@).is_prefix_of(line)
            &&& subvolume_end(live_root, subvolume_name(path)).is_suffix_of(line)
        }),
{
    let point = if is_root_dir(path) {
        "/"@
    } else {
        path
    };
    let line = source_line(uuid, live_root, path);
    let name = subvolume_name(path);
    reveal_strlit("  ");
    reveal_strlit("btrfs");
    reveal_strlit(",subvol=");
    reveal_strlit("  btrfs  rw,relatime,ssd,compress-force=zstd,space_cache=v2,subvol=");
    reveal_strlit("rw,relatime,ssd,compress-force=zstd,space_cache=v2");
    let middle = "rw,relatime,ssd,compress-force=zstd,space_cache=v2"@;
    assert("  btrfs  rw,relatime,ssd,compress-force=zstd,space_cache=v2,subvol="@ =~= "  "@
        + "btrfs"@ + "  "@ + middle + ",subvol="@);
    let head = device_line(uuid, point, "btrfs"@);
    let tail = subvolume_end(live_root, name);
    assert(line =~= head + (middle + tail));
    assert(line =~= (head + middle) + tail);
    lemma_ends(head, middle + tail);
    lemma_ends(head + middle, tail);
}

proof fn lemma_esp_line(uuid: Seq<char>, point: Seq<char>)
    ensures
        device_line(uuid, point, "vfat"@).is_prefix_of(esp_line(uuid, point)),
{
    reveal_strlit("  ");
    reveal_strlit("vfat");
    reveal_strlit(
        "  vfat  rw,relatime,fmask=0133,dmask=0022,codepage=437,iocharset=iso8859-1,shortname=mixed,utf8,errors=remount-ro  0 2",
    );
    let end =
        "  vfat  rw,relatime,fmask=0133,dmask=0022,codepage=437,iocharset=iso8859-1,shortname=mixed,utf8,errors=remount-ro  0 2"@;
    let line = esp_line(uuid, point);
    let head = device_line(uuid, point, "vfat"@);
    let tail = end.subrange(8, end.len() as int);
    assert(line =~= head + tail);
    lemma_ends(head, tail);
}

proof fn lemma_mounts_all(c: Setup, root: Seq<char>, esp: Option<Seq<char>>)
    ensures
        mounts_all(fstab_lines(c, root, esp), c, root, esp),
{
    let all = fstab_lines(c, root, esp);
    let n = c.sources.len() as int;
    assert(fstab_head().len() == 8);
    lemma_fstab_lines(c, root, esp);
    assert forall|i: int| 0 <= i < n implies {
        let path = (#[trigger] c.sources[i]).path;
        let point = if is_root_dir(path) {
            "/"@
        } else {
            path
        };
        &&& device_line(root, point, "btrfs"@).is_prefix_of(all[8 + i])
        &&& subvolume_end(c.target.live_root(), subvolume_name(path)).is_suffix_of(all[8 + i])
    } by {
        lemma_source_line(root, c.target.live_root(), c.sources[i].path);
    }
    if let Some(uuid) = esp {
        lemma_esp_line(uuid, "/"@ + names_path(configured_esp(c)));
    }
    reveal_strlit("UUID=");
    reveal_strlit("tmpfs  /tmp  tmpfs  nodev,nosuid  0 0");
    reveal_strlit("# /etc/fstab: static file system information.");
    reveal_strlit("#");
    reveal_strlit("# Use 'blkid' to print the universally unique identifier for a");
    reveal_strlit("# device; this may be used with UUID= as a more robust way to name devices");
    reveal_strlit("# that works even if disks are added and removed. See fstab(5).");
    reveal_strlit("# <file system> <dir> <type> <options> <dump> <pass>");
    assert forall|k: int|
        0 <= k < all.len() && !(8 <= k < 8 + n) && !(esp is Some && k == 9 + n) implies
        !"UUID="@.is_prefix_of(#[trigger] all[k])
    by {
        if "UUID="@.is_prefix_of(all[k]) {
            assert(all[k].subrange(0, 5)[0] == 'U');
            assert(all[k][0] == 'U');
            if k < 8 {
                assert(all[k] == fstab_head()[k]);
            }
        }
    }
}

/// The fstab that is generated: its lines for the sources name the device with the UUID that
/// `findmnt` answered for the mounted target, or `...` where it answered none. It has a line
/// for the EFI system partition exactly where the mount point of that partition exists in the
/// root volume and `findmnt` answered a UUID for the mounted partition; that line names the
/// device with that UUID.
pub open spec fn generated(
    l: Log,
    at: int,
    root_vol: Seq<char>,
    target_mount: Seq<char>,
    esp: Seq<char>,
    c: Setup,
    text: Seq<char>,
) -> bool {
    let dir = joined_path(root_vol, names_path(configured_esp(c)));
    exists|lines: Seq<Seq<char>>, root: Option<Seq<char>>, part: Option<Seq<char>>, there: bool|
        {
            &&& text == joined(lines, "\n"@)
            &&& uuid_answered(l, at, target_mount, root)
            &&& exists|a: Answer| #[trigger]
                answered(l, at, Ask::Exists(dir), a) && there == flag_in(a)
            &&& !there ==> part is None
            &&& there ==> uuid_answered(l, at, esp, part)
            &&& #[trigger] mounted(lines, c, root, part, there)
        }
}

/// [`mounts_all`] with `...` for a UUID that is not known.
pub open spec fn mounted(
    lines: Seq<Seq<char>>,
    c: Setup,
    root: Option<Seq<char>>,
    part: Option<Seq<char>>,
    there: bool,
) -> bool {
    mounts_all(
        lines,
        c,
        match root {
            Some(uuid) => uuid,
            None => "..."@,
        },
        part,
    )
}

/// Generating the fstab: the UUIDs in it are those that were answered for the mounted target
/// and the mounted EFI system partition.
pub proof fn lemma_fstab_uuids(
    root_vol: Seq<char>,
    target_mount: Seq<char>,
    esp: Seq<char>,
    c: Setup,
    log: Log,
)
    requires
        settled(log),
    ensures
        ({
            let (l, o) = drive(generating_fstab(root_vol, target_mount, esp, c), log);
            o matches Some(Ok(text)) ==> generated(
                l,
                log.asked.len() as int,
                root_vol,
                target_mount,
                esp,
                c,
                text,
            )
        }),
{
    broadcast use {group_plan, lemma_drive_extends};

    reveal(generating_fstab);
    let at = log.asked.len() as int;
    let dir = joined_path(root_vol, names_path(configured_esp(c)));
    let (l, o) = drive(generating_fstab(root_vol, target_mount, esp, c), log);
    if let Some(Ok(text)) = o {
        let (l1, o1) = drive(finding_uuid(target_mount), log);
        lemma_finding_uuid(target_mount, log);
        let root = match o1->0 {
            Ok(uuid) => Some(uuid),
            Err(_) => None,
        };
        let (l2, o2) = drive(present(dir), l1);
        let a = l.answers[l1.asked.len() as int];
        assert(l2.asked[l1.asked.len() as int] == Ask::Exists(dir));
        let there = flag_in(a);
        let (l3, o3) = drive(finding_uuid(esp), l2);
        assert(extends(l1, l));
        lemma_uuid_answered(l1, l, at, at, target_mount, root);
        assert(extends(l2, l));
        assert(l.asked[l1.asked.len() as int] == Ask::Exists(dir));
        assert(answered(l, at, Ask::Exists(dir), a));
        let part = if there {
            match o3->0 {
                Ok(uuid) => Some(uuid),
                Err(_) => None,
            }
        } else {
            None
        };
        if there {
            lemma_finding_uuid(esp, l2);
            assert(extends(l3, l));
            lemma_uuid_answered(l3, l, l2.asked.len() as int, at, esp, part);
        }
        let known = match root {
            Some(uuid) => uuid,
            None => "..."@,
        };
        lemma_mounts_all(c, known, part);
        assert(text == joined(fstab_lines(c, known, part), "\n"@));
        assert(mounted(fstab_lines(c, known, part), c, root, part, there));
    }
}

/// What was generated was so from any earlier position on.
pub(crate) proof fn lemma_generated(
    before: Log,
    after: Log,
    at: int,
    from: int,
    root_vol: Seq<char>,
    target_mount: Seq<char>,
    esp: Seq<char>,
    c: Setup,
    text: Seq<char>,
)
    requires
        generated(before, at, root_vol, target_mount, esp, c, text),
        extends(before, after),
        0 <= from <= at,
    ensures
        generated(after, from, root_vol, target_mount, esp, c, text),
{
    let dir = joined_path(root_vol, names_path(configured_esp(c)));
    let (lines, root, part, there) = choose|
        lines: Seq<Seq<char>>,
        root: Option<Seq<char>>,
        part: Option<Seq<char>>,
        there: bool,
    |
        {
            &&& text == joined(lines, "\n"@)
            &&& uuid_answered(before, at, target_mount, root)
            &&& exists|a: Answer| #[trigger]
                answered(before, at, Ask::Exists(dir), a) && there == flag_in(a)
            &&& !there ==> part is None
            &&& there ==> uuid_answered(before, at, esp, part)
            &&& #[trigger] mounted(lines, c, root, part, there)
        };
    lemma_uuid_answered(before, after, at, from, target_mount, root);
    let a = choose|a: Answer| #[trigger]
        answered(before, at, Ask::Exists(dir), a) && there == flag_in(a);
    lemma_answered(before, after, at, from, Ask::Exists(dir), a);
    if there {
        lemma_uuid_answered(before, after, at, from, esp, part);
    }
    assert(mounted(lines, c, root, part, there));
}

/// The words of the command that finds the device with a UUID or a label.
pub open spec fn findfs(device: Seq<char>) -> Call {
    words("findfs"@, seq![device])
}

/// The words of the command that gives the UUID of an encrypted device.
pub open spec fn luks_uuid(device: Seq<char>) -> Call {
    words("cryptsetup"@, seq!["luksUUID"@, device])
}

/// What a command printed, without the space around it; the command did well.
pub open spec fn printed(l: Log, at: int, c: Call, text: Seq<char>) -> bool {
    exists|o: Printed|
        o.success && text == trimmed(lossy_text(o.stdout)) && #[trigger] answered(
            l,
            at,
            Ask::Run(c),
            Answer::Ran(o),
        )
}

/// What was printed was so from any earlier position on.
pub(crate) proof fn lemma_printed(
    before: Log,
    after: Log,
    at: int,
    from: int,
    c: Call,
    text: Seq<char>,
)
    requires
        printed(before, at, c, text),
        extends(before, after),
        0 <= from <= at,
    ensures
        printed(after, from, c, text),
{
    let o = choose|o: Printed|
        o.success && text == trimmed(lossy_text(o.stdout)) && #[trigger] answered(
            before,
            at,
            Ask::Run(c),
            Answer::Ran(o),
        );
    lemma_answered(before, after, at, from, Ask::Run(c), Answer::Ran(o));
}

/// A device is named by its UUID or its label.
pub open spec fn by_tag(device: Seq<char>) -> bool {
    ||| "UUID="@.is_prefix_of(device)
    ||| "LABEL="@.is_prefix_of(device)
    ||| "PARTUUID="@.is_prefix_of(device)
}

/// The block device that stands for a configured one: itself, or what `findfs` printed for its
/// UUID or label.
pub open spec fn stands_for(l: Log, at: int, device: Seq<char>, found: Seq<char>) -> bool {
    if by_tag(device) {
        printed(l, at, findfs(device), found) && "/dev/"@.is_prefix_of(found)
    } else {
        found == device
    }
}

/// The options of the boot entry unlock the root device: where the target is an encrypted
/// device, they give it the UUID that `cryptsetup` printed for it and the name of its mapping;
/// where it is not, they hold nothing about encryption.
pub open spec fn unlocks(l: Log, at: int, target: Target, options: Seq<Seq<char>>) -> bool {
    match (target.encryption, target.location) {
        (Some(e), Location::Device(device)) => exists|found: Seq<char>, uuid: Seq<char>|
            {
                &&& stands_for(l, at, device, found)
                &&& #[trigger] printed(l, at, luks_uuid(found), uuid)
                &&& uuid.len() > 0
                &&& options.contains("rd.luks.name="@ + uuid + "="@ + e.mapping_name)
                &&& exists|i: int|
                    0 <= i < options.len() && ("rd.luks.options="@ + uuid + "="@).is_prefix_of(
                        #[trigger] options[i],
                    )
            },
        _ => forall|i: int|
            0 <= i < options.len() ==> !"rd.luks."@.is_prefix_of(#[trigger] options[i]),
    }
}

/// The options of the boot entry name the root file system: the target as it is configured
/// where that names an unencrypted device by UUID or label, else the UUID that `findmnt`
/// printed for the mounted target. The subvolume is the root volume of the live boot
/// environment.
pub open spec fn names_root(
    l: Log,
    at: int,
    mount: Seq<char>,
    target: Target,
    live_root: Seq<char>,
    options: Seq<Seq<char>>,
) -> bool {
    &&& options.contains("rw"@)
    &&& options.contains("rootflags=subvol="@ + live_root + "/root_vol"@)
    &&& exists|uuid: Seq<char>| #[trigger]
        printed(l, at, findmnt(mount), uuid) && uuid.len() > 0 && {
            let device = match target.location {
                Location::Device(device) if target.encryption is None && by_tag(device) => device,
                _ => "UUID="@ + uuid,
            };
            &&& options.contains("root="@ + device)
            &&& forall|i: int|
                0 <= i < options.len() && "root="@.is_prefix_of(#[trigger] options[i])
                    ==> options[i] == "root="@ + device
        }
}

/// What the options say of the root file system and of encryption is said by none that was
/// configured: all of it is written for the live boot environment.
pub open spec fn nothing_else(options: Seq<Seq<char>>, own: int) -> bool {
    forall|i: int|
        0 <= i < options.len() - own ==> {
            let o = #[trigger] options[i];
            &&& o != "rw"@
            &&& !"root="@.is_prefix_of(o)
            &&& !"rootflags="@.is_prefix_of(o)
            &&& !"rd.luks."@.is_prefix_of(o)
        }
}

/// The options that are written for the live boot environment come last: six of them where the
/// target is an encrypted device, else three.
pub proof fn lemma_own_options(
    configured: Seq<Seq<char>>,
    device: Seq<char>,
    live_root: Seq<char>,
    luks: Option<LuksBoot>,
)
    ensures
        nothing_else(
            entry_options(configured, device, live_root, luks),
            if luks is Some {
                6
            } else {
                3
            },
        ),
        luks is Some ==> entry_options(configured, device, live_root, luks).contains(
            "rootflags=x-systemd.device-timeout=0"@,
        ),
{
    let options = entry_options(configured, device, live_root, luks);
    let kept = unmanaged(configured);
    let n = kept.len() as int;
    let own: int = if luks is Some {
        6
    } else {
        3
    };
    lemma_unmanaged(configured);
    assert(options.len() == n + own);
    assert forall|i: int| 0 <= i < options.len() - own implies !is_managed(
        #[trigger] options[i],
    ) by {
        assert(options[i] == kept[i]);
    }
    if luks is Some {
        assert(options[n + 2] == "rootflags=x-systemd.device-timeout=0"@);
    }
}

/// The options of the boot entry keep those of the configuration, but for those that name or
/// unlock the root file system.
pub open spec fn keeps_configured(configured: Seq<Seq<char>>, options: Seq<Seq<char>>) -> bool {
    forall|i: int|
        0 <= i < configured.len() ==> {
            let o = #[trigger] configured[i];
            ||| options.contains(o)
            ||| o == "rw"@
            ||| "root="@.is_prefix_of(o)
            ||| "rootflags="@.is_prefix_of(o)
            ||| "rd.luks."@.is_prefix_of(o)
        }
}

/// A line of the boot entry names a file by its name, right below the root of the EFI system
/// partition.
pub open spec fn names_file(line: Seq<char>, key: Seq<char>, path: Seq<char>) -> bool {
    file_name_of(path) matches Some(name) ==> line == key + "/"@ + name
}

/// The text of the boot entry: title, kernel, microcode image where there is one, initramfs,
/// and on its last line the options.
pub open spec fn boots(
    l: Log,
    at: int,
    mount: Seq<char>,
    entry: BootEntry,
    target: Target,
    live_root: Seq<char>,
    text: Seq<char>,
) -> bool {
    exists|lines: Seq<Seq<char>>, options: Seq<Seq<char>>|
        {
            &&& text == #[trigger] joined(lines, "\n"@) + "\n"@
            &&& lines.len() == if entry.microcode is Some {
                5int
            } else {
                4
            }
            &&& lines[0] == "title   "@ + entry.title
            &&& names_file(lines[1], "linux   "@, entry.kernel)
            &&& entry.microcode matches Some(m) ==> names_file(lines[2], "initrd  "@, m)
            &&& names_file(lines[lines.len() - 2], "initrd  "@, entry.initramfs)
            &&& lines[lines.len() - 1] == "options "@ + #[trigger] joined(options, " "@)
            &&& keeps_configured(entry.options, options)
            &&& names_root(l, at, mount, target, live_root, options)
            &&& unlocks(l, at, target, options)
        }
}

proof fn lemma_finding_root(mount: Seq<char>, log: Log)
    requires
        settled(log),
    ensures
        ({
            let (l, o) = drive(finding_root(mount), log);
            o matches Some(Ok(uuid)) ==> uuid.len() > 0 && printed(
                l,
                log.asked.len() as int,
                findmnt(mount),
                uuid,
            )
        }),
{
    broadcast use group_plan;

    reveal(finding_root);
    reveal(querying);
    let at = log.asked.len() as int;
    let (l, o) = drive(finding_root(mount), log);
    assert(uuid_call(mount).args =~= findmnt(mount).args);
    if let Some(Ok(uuid)) = o {
        assert(l.asked[at + 1] == Ask::Run(findmnt(mount)));
        let p = l.answers[at + 1]->Ran_0;
        assert(answered(l, at, Ask::Run(findmnt(mount)), Answer::Ran(p)));
    }
}

/// Looking the target up for the boot options.
pub proof fn lemma_resolving_target(device: Seq<char>, log: Log)
    requires
        settled(log),
    ensures
        ({
            let (l, o) = drive(resolving_target(device), log);
            o matches Some(Ok(found)) ==> stands_for(l, log.asked.len() as int, device, found)
        }),
{
    broadcast use group_plan;

    reveal(resolving_target);
    reveal(querying);
    let at = log.asked.len() as int;
    let (l, o) = drive(resolving_target(device), log);
    assert(call("findfs"@).arg(device).args =~= findfs(device).args);
    if let Some(Ok(found)) = o {
        if by_tag(device) {
            lemma_tag_is_no_path(device);
            assert(l.asked[at + 1] == Ask::Run(findfs(device)));
            let p = l.answers[at + 1]->Ran_0;
            assert(answered(l, at, Ask::Run(findfs(device)), Answer::Ran(p)));
        }
    }
}

/// A device that is named by UUID or label is not named by its path.
pub(crate) proof fn lemma_tag_is_no_path(device: Seq<char>)
    requires
        by_tag(device),
    ensures
        !"/dev/"@.is_prefix_of(device),
{
    reveal_strlit("/dev/");
    reveal_strlit("UUID=");
    reveal_strlit("LABEL=");
    reveal_strlit("PARTUUID=");
    if "/dev/"@.is_prefix_of(device) {
        assert(device.subrange(0, 5)[0] == device[0]);
        assert(device.subrange(0, 6)[0] == device[0] || device.len() < 6);
        assert(device.subrange(0, 9)[0] == device[0] || device.len() < 9);
    }
}

proof fn lemma_finding_luks_uuid(device: Seq<char>, log: Log)
    requires
        settled(log),
    ensures
        ({
            let (l, o) = drive(finding_luks_uuid(device), log);
            o matches Some(Ok(uuid)) ==> uuid.len() > 0 && printed(
                l,
                log.asked.len() as int,
                luks_uuid(device),
                uuid,
            )
        }),
{
    broadcast use group_plan;

    reveal(finding_luks_uuid);
    reveal(querying);
    let at = log.asked.len() as int;
    let (l, o) = drive(finding_luks_uuid(device), log);
    assert(call("cryptsetup"@).arg("luksUUID"@).arg(device).args =~= luks_uuid(device).args);
    if let Some(Ok(uuid)) = o {
        assert(l.asked[at + 1] == Ask::Run(luks_uuid(device)));
        let p = l.answers[at + 1]->Ran_0;
        assert(answered(l, at, Ask::Run(luks_uuid(device)), Answer::Ran(p)));
    }
}

/// The options that are built for a target.
proof fn lemma_unlocks(
    log: Log,
    whole: Log,
    from: int,
    target: Target,
    configured: Seq<Seq<char>>,
    root_device: Seq<char>,
    live_root: Seq<char>,
)
    requires
        settled(log),
        0 <= from <= log.asked.len(),
        extends(drive(finding_luks(target), log).0, whole),
    ensures
        drive(finding_luks(target), log).1 matches Some(Ok(luks)) ==> unlocks(
            whole,
            from,
            target,
            entry_options(configured, root_device, live_root, luks),
        ),
{
    broadcast use {group_plan, lemma_drive_extends};

    reveal(finding_luks);
    let (l, o) = drive(finding_luks(target), log);
    if let Some(Ok(luks)) = o {
        let kept = unmanaged(configured);
        let options = entry_options(configured, root_device, live_root, luks);
        let n = kept.len() as int;
        match (target.encryption, target.location) {
            (Some(e), Location::Device(device)) => {
                let (l1, o1) = drive(resolving_target(device), log);
                let found = o1->0->Ok_0;
                let (l2, o2) = drive(finding_luks_uuid(found), l1);
                let uuid = o2->0->Ok_0;
                lemma_resolving_target(device, log);
                lemma_finding_luks_uuid(found, l1);
                assert(l == l2);
                assert(extends(l1, whole));
                lemma_printed(l2, whole, l1.asked.len() as int, from, luks_uuid(found), uuid);
                if by_tag(device) {
                    lemma_printed(l1, whole, log.asked.len() as int, from, findfs(device), found);
                }
                assert(options[n] == "rd.luks.name="@ + uuid + "="@ + e.mapping_name);
                let head = "rd.luks.options="@ + uuid + "="@;
                reveal_strlit("=");
                reveal_strlit(
                    "=keyfile-timeout=3s,timeout=0,discard,password-echo=masked,tries=0",
                );
                let end = "=keyfile-timeout=3s,timeout=0,discard,password-echo=masked,tries=0"@;
                assert(options[n + 1] =~= head + end.subrange(1, end.len() as int));
                lemma_ends(head, end.subrange(1, end.len() as int));
                assert(head.is_prefix_of(options[n + 1]));
            },
            _ => {
                assert forall|i: int| 0 <= i < options.len() implies !"rd.luks."@.is_prefix_of(
                    #[trigger] options[i],
                ) by {
                    if i < n {
                        assert(options[i] == kept[i]);
                        lemma_unmanaged(configured);
                    } else {
                        reveal_strlit("rd.luks.");
                        reveal_strlit("root=");
                        reveal_strlit("rw");
                        reveal_strlit("rootflags=subvol=");
                        let o = options[i];
                        if "rd.luks."@.is_prefix_of(o) {
                            assert(o.subrange(0, 8)[1] == 'd');
                            assert(o[1] == 'd');
                        }
                    }
                }
            },
        }
    }
}

proof fn lemma_names_root(
    l: Log,
    at: int,
    mount: Seq<char>,
    target: Target,
    configured: Seq<Seq<char>>,
    uuid: Seq<char>,
    live_root: Seq<char>,
    luks: Option<LuksBoot>,
)
    requires
        printed(l, at, findmnt(mount), uuid),
        uuid.len() > 0,
    ensures
        ({
            let options = entry_options(
                configured,
                root_device_of(target, uuid),
                live_root,
                luks,
            );
            &&& names_root(l, at, mount, target, live_root, options)
            &&& keeps_configured(configured, options)
        }),
{
    let device = root_device_of(target, uuid);
    let options = entry_options(configured, device, live_root, luks);
    let n = options.len() as int;
    assert(n >= 3 && options[n - 3] == "root="@ + device && forall|i: int|
        0 <= i < n && "root="@.is_prefix_of(#[trigger] options[i]) ==> i == n - 3) by {
        lemma_entry_options(configured, device, live_root, luks);
    }
    let kept = unmanaged(configured);
    let added = added_options(device, live_root, luks);
    assert(added[added.len() - 2] == "rw"@);
    assert(added[added.len() - 1] == "rootflags=subvol="@ + live_root + "/root_vol"@);
    assert(options[n - 2] == "rw"@);
    assert(options[n - 1] == "rootflags=subvol="@ + live_root + "/root_vol"@);
    lemma_keeps_configured(configured, device, live_root, luks);
}

/// What is not managed is taken over.
proof fn lemma_taken_over(options: Seq<Seq<char>>, o: Seq<char>)
    requires
        options.contains(o),
        !is_managed(o),
    ensures
        unmanaged(options).contains(o),
    decreases options.len(),
{
    reveal(Seq::filter);
    let rest = options.drop_last();
    let all = unmanaged(options);
    if options.last() == o {
        assert(all.last() == o);
    } else {
        let i = choose|i: int| 0 <= i < options.len() && options[i] == o;
        assert(rest[i] == o);
        lemma_taken_over(rest, o);
        let j = choose|j: int| 0 <= j < unmanaged(rest).len() && unmanaged(rest)[j] == o;
        assert(all[j] == o);
    }
}

proof fn lemma_keeps_configured(
    configured: Seq<Seq<char>>,
    device: Seq<char>,
    live_root: Seq<char>,
    luks: Option<LuksBoot>,
)
    ensures
        keeps_configured(configured, entry_options(configured, device, live_root, luks)),
{
    let options = entry_options(configured, device, live_root, luks);
    let kept = unmanaged(configured);
    assert forall|i: int| 0 <= i < configured.len() implies options.contains(
        #[trigger] configured[i],
    ) || is_managed(configured[i]) by {
        let o = configured[i];
        if !is_managed(o) {
            lemma_taken_over(configured, o);
            let j = choose|j: int| 0 <= j < kept.len() && kept[j] == o;
            assert(options[j] == o);
        }
    }
}

proof fn lemma_entry_lines(entry: BootEntry, options: Seq<Seq<char>>)
    ensures
        ({
            let lines = entry_lines(entry, options);
            &&& lines.len() == if entry.microcode is Some {
                5int
            } else {
                4
            }
            &&& lines[0] == "title   "@ + entry.title
            &&& names_file(lines[1], "linux   "@, entry.kernel)
            &&& entry.microcode matches Some(m) ==> names_file(lines[2], "initrd  "@, m)
            &&& names_file(lines[lines.len() - 2], "initrd  "@, entry.initramfs)
            &&& lines[lines.len() - 1] == "options "@ + joined(options, " "@)
        }),
{
    lemma_asset(entry.kernel, "linux   "@);
    lemma_asset(entry.initramfs, "initrd  "@);
    if let Some(m) = entry.microcode {
        lemma_asset(m, "initrd  "@);
    }
}

proof fn lemma_asset(path: Seq<char>, key: Seq<char>)
    ensures
        names_file(key + esp_asset(path), key, path),
{
    if let Some(name) = file_name_of(path) {
        lemma_name_is_plain(path);
        reveal_strlit("/");
        assert(!is_absolute(name)) by {
            if is_absolute(name) {
                assert(name.contains(name[0]));
            }
        }
        assert(key + ("/"@ + name) =~= key + "/"@ + name);
    }
}

/// Writing the boot entry: one file is written, below the entries of the EFI system partition
/// and named after the title. Its text boots the live boot environment: the options on its last
/// line unlock the target with the UUID that was answered for it, where it is an encrypted
/// device, and name its root file system.
pub proof fn lemma_boot_entry(
    mount: Seq<char>,
    esp: Seq<char>,
    entry: BootEntry,
    target: Target,
    live_root: Seq<char>,
    log: Log,
)
    requires
        settled(log),
    ensures
        ({
            let (l, o) = drive(creating_entry(mount, esp, entry, target, live_root), log);
            let at = log.asked.len() as int;
            let path = joined_path(
                joined_path(esp, "loader/entries"@),
                with_char(entry.title, ' ', '_') + ".conf"@,
            );
            &&& forall|i: int|
                at <= i < l.asked.len() ==> (#[trigger] l.asked[i] matches Ask::WriteFile {
                    path: p,
                    text,
                } ==> p == path && boots(l, at, mount, entry, target, live_root, text))
            &&& o matches Some(Ok(_)) ==> exists|i: int|
                at <= i < l.asked.len() && #[trigger] l.asked[i] is WriteFile && failure_in(
                    l.answers[i],
                ) is None
        }),
{
    broadcast use {group_plan, group_only, lemma_drive_extends};

    reveal(creating_entry);
    let at = log.asked.len() as int;
    let (l, o) = drive(creating_entry(mount, esp, entry, target, live_root), log);
    lemma_lookups_write_nothing(mount, target);
    let (l1, o1) = drive(finding_root(mount), log);
    lemma_only(finding_root(mount), writes_nothing(), log);
    if let Some(Ok(uuid)) = o1 {
        let (l2, o2) = drive(finding_luks(target), l1);
        lemma_only(finding_luks(target), writes_nothing(), l1);
        if let Some(Ok(luks)) = o2 {
            let p3 = perform(Ask::CreateDirAll(entries_dir_of(esp)));
            let (l3, o3) = drive(p3, l2);
            assert(extends(l1, l));
            assert(extends(l2, l));
            lemma_finding_root(mount, log);
            lemma_printed(l1, l, at, at, findmnt(mount), uuid);
            let options = entry_options(
                entry.options,
                root_device_of(target, uuid),
                live_root,
                luks,
            );
            lemma_unlocks(
                l1,
                l,
                at,
                target,
                entry.options,
                root_device_of(target, uuid),
                live_root,
            );
            lemma_names_root(l, at, mount, target, entry.options, uuid, live_root, luks);
            lemma_entry_lines(entry, options);
            let text = entry_content(entry, options);
            assert(text == joined(entry_lines(entry, options), "\n"@) + "\n"@);
            assert(entry_lines(entry, options).last() == "options "@ + joined(options, " "@));
            assert(boots(l, at, mount, entry, target, live_root, text));
            assert forall|i: int| at <= i < l2.asked.len() implies !(
            #[trigger] l.asked[i] is WriteFile) by {
                assert(l.asked[i] == l2.asked[i]);
                if i < l1.asked.len() {
                    assert(l2.asked[i] == l1.asked[i]);
                    assert(writes_nothing()(l1.asked[i]));
                } else {
                    assert(writes_nothing()(l2.asked[i]));
                }
            }
            if o3 matches Some(Ok(_)) {
                let k = l2.asked.len() as int;
                assert(l3.asked[k] == Ask::CreateDirAll(entries_dir_of(esp)));
                assert(extends(l3, l));
                assert(l.asked[k] == l3.asked[k]);
                let q = Ask::WriteFile { path: entry_file_of(esp, entry.title), text };
                assert(l == drive(perform(q), l3).0);
                assert(l.asked.len() == k + 1 || l.asked == l3.asked.push(q));
                if o matches Some(Ok(_)) {
                    assert(l.asked[k + 1] is WriteFile);
                }
            } else {
                assert(l == l3);
                assert(l.asked == l2.asked || l.asked == l2.asked.push(
                    Ask::CreateDirAll(entries_dir_of(esp)),
                ));
            }
        } else {
            assert(l.asked == l2.asked);
            assert forall|i: int| at <= i < l.asked.len() implies !(
            #[trigger] l.asked[i] is WriteFile) by {
                if i < l1.asked.len() {
                    assert(l2.asked[i] == l1.asked[i]);
                    assert(writes_nothing()(l1.asked[i]));
                } else {
                    assert(writes_nothing()(l2.asked[i]));
                }
            }
        }
    } else {
        assert(l.asked == l1.asked);
        assert forall|i: int| at <= i < l.asked.len() implies !(
        #[trigger] l.asked[i] is WriteFile) by {
            assert(writes_nothing()(l1.asked[i]));
        }
    }
}

/// The request writes no file.
pub open spec fn writes_nothing() -> spec_fn(Ask) -> bool {
    |q: Ask| !(q is WriteFile)
}

proof fn lemma_lookups_write_nothing(mount: Seq<char>, target: Target)
    ensures
        only(finding_root(mount), writes_nothing()),
        only(finding_luks(target), writes_nothing()),
{
    broadcast use group_only;

    reveal(finding_root);
    reveal(finding_luks);
    reveal(resolving_target);
    reveal(finding_luks_uuid);
    reveal(querying);
}

} // verus!
