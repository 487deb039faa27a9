//! What is done in the live boot environment after a backup.

use crate::btrfs::{entries_in, get_subvolume_name_with_suffix, subvolume_name, volume_parts};
use crate::command_runner::{failed, ignore, ignoring, query, querying, Area};
use crate::config::{mount_point_of, BootEntry, BootEntryConfig, Config, HookConfig, Setup, Source};
use crate::error::{BackupError, Fault};
#[allow(unused_imports)]
use crate::journal::{
    ask, bind, call, decide, drive, fail, group_plan, ok, perform, present, say, shown, then,
    unexpected_reply, Answer, Ask, Call, Command, Plan, Printed, Reply, Request, Session, Stop,
    Tone, Try,
};
use crate::path::{
    components_of, file_name, file_name_of, is_root_dir, join, joined_path, names_path, only_names,
    parent, parent_of, rebased, rebased_path, root_dir, split_extension, stem_and_extension,
};
use crate::spelling::{entry_paths, paths_of_entries};
use crate::text::{
    cat2, cat3, cat4, cat5, decimal, join as join_texts, joined, lines, lines_of, number,
    starts_with, strict, trim, trimmed, utf8_error_text, words, words_of,
};
use vstd::prelude::*;
use vstd::utf8::{decode_utf8, valid_utf8};

verus! {

/// Where the root volume is in the live boot environment.
pub open spec fn root_vol_path(live_boot_path: Seq<char>) -> Seq<char> {
    joined_path(live_boot_path, "root_vol"@)
}

/// The subvolume for the root directory is called `root_vol`.
pub proof fn lemma_root_vol(path: Seq<char>)
    requires
        is_root_dir(path),
    ensures
        subvolume_name(path) == "root_vol"@,
{
    let c = components_of(path);
    assert(c.last() == "/"@);
    assert(c.drop_last() =~= Seq::<Seq<char>>::empty());
    assert(volume_parts(c.drop_last()) =~= Seq::<Seq<char>>::empty());
    assert(volume_parts(c) =~= Seq::<Seq<char>>::empty());
    reveal_strlit("root");
    reveal_strlit("_vol");
    reveal_strlit("root_vol");
    assert("root"@ + "_vol"@ =~= "root_vol"@);
}

/// Where the root volume is in the live boot environment: the subvolume of the source for the
/// root directory, or its usual name where there is no such source.
pub fn find_root_vol_path(live_boot_path: &str, config: &Config) -> (r: String)
    ensures
        r@ == root_vol_path(live_boot_path@),
{
    let mut i: usize = 0;
    while i < config.sources.len()
        invariant
            i <= config.sources@.len(),
        decreases config.sources@.len() - i,
    {
        let path = config.sources[i].path.as_str();
        if root_dir(path) {
            proof {
                lemma_root_vol(path@);
            }
            let name = get_subvolume_name_with_suffix(path);
            return join(live_boot_path, name.as_str());
        }
        i += 1;
    }
    join(live_boot_path, "root_vol")
}

/// The UUID in what `findmnt` prints.
pub open spec fn uuid_in(mount_point: Seq<char>, o: Printed) -> Result<Seq<char>, Fault> {
    if !o.success {
        Err(Fault::Hook("Failed to get UUID for mount point "@ + mount_point))
    } else if !valid_utf8(o.stdout) {
        Err(Fault::Hook("Invalid UTF-8 output: "@ + utf8_error_text(o.stdout)))
    } else if trimmed(decode_utf8(o.stdout)).len() == 0 {
        Err(Fault::Hook("Empty UUID for mount point "@ + mount_point))
    } else {
        Ok(trimmed(decode_utf8(o.stdout)))
    }
}

/// `findmnt --mountpoint <path> --output UUID --noheadings --first-only`.
pub open spec fn uuid_call(mount_point: Seq<char>) -> Call {
    call("findmnt"@).arg("--mountpoint"@).arg(mount_point).arg("--output"@).arg("UUID"@).arg(
        "--noheadings"@,
    ).arg("--first-only"@)
}

/// The UUID of the device mounted at a path.
#[verifier::opaque]
pub open spec fn finding_uuid(mount_point: Seq<char>) -> Try<Seq<char>> {
    then(querying(uuid_call(mount_point)), |o: Printed| Plan::Done(uuid_in(mount_point, o)))
}

/// `findmnt --mountpoint <path> --output UUID --noheadings --first-only`.
pub fn uuid_command(mount_point: &str) -> (r: Command)
    ensures
        r.deep_view() == uuid_call(mount_point@),
{
    Command::new("findmnt").arg("--mountpoint").arg(mount_point).arg("--output").arg("UUID").arg(
        "--noheadings",
    ).arg("--first-only")
}

/// The UUID of the device mounted at a path.
pub fn get_device_uuid(s: &mut Session, mount_point: &str) -> (r: Result<String, Stop>)
    ensures
        drive(finding_uuid(mount_point@), old(s)@) == (final(s)@, shown(r)),
{
    broadcast use group_plan;

    reveal(finding_uuid);
    let o = query(s, uuid_command(mount_point))?;
    if !o.success {
        return Err(failed(Area::Hook, cat2("Failed to get UUID for mount point ", mount_point)));
    }
    let stdout = match strict(&o.stdout) {
        Ok(t) => t,
        Err(m) => {
            return Err(failed(Area::Hook, cat2("Invalid UTF-8 output: ", m.as_str())));
        },
    };
    let uuid = trim(stdout.as_str());
    if uuid.as_str().is_empty() {
        Err(failed(Area::Hook, cat2("Empty UUID for mount point ", mount_point)))
    } else {
        Ok(uuid)
    }
}

/// Copies a file where it exists, and says so. Where it does not, `missing` is warned of.
#[verifier::opaque]
pub open spec fn copying(
    from: Seq<char>,
    to: Seq<char>,
    copied: Seq<char>,
    missing: Option<Seq<char>>,
) -> Try<()> {
    then(
        present(from),
        |there: bool|
            if there {
                then(
                    perform(Ask::Copy { from, to }),
                    |u: ()| say(Tone::Detail, copied + from + " -> "@ + to),
                )
            } else {
                match missing {
                    Some(msg) => say(Tone::Warning, msg + from),
                    None => ok(()),
                }
            },
    )
}

/// Copies a file where it exists, and says so.
fn copy(s: &mut Session, from: &str, to: &str, copied: &str, missing: Option<&str>) -> (r: Result<
    (),
    Stop,
>)
    ensures
        drive(copying(from@, to@, copied@, missing.deep_view()), old(s)@) == (
            final(s)@,
            shown(r),
        ),
{
    broadcast use group_plan;

    reveal(copying);
    if s.present(from)? {
        s.perform(Request::Copy { from: from.to_owned(), to: to.to_owned() })?;
        s.say(Tone::Detail, cat4(copied, from, " -> ", to).as_str())
    } else {
        match missing {
            Some(msg) => s.say(Tone::Warning, cat2(msg, from).as_str()),
            None => Ok(()),
        }
    }
}

/// Where a file goes on the EFI system partition: its name, right below.
pub open spec fn esp_place(esp: Seq<char>, from: Seq<char>) -> Seq<char> {
    joined_path(
        esp,
        match file_name_of(from) {
            Some(name) => name,
            None => Seq::empty(),
        },
    )
}

/// Where a file goes on the EFI system partition.
fn place_on_esp(esp: &str, from: &str) -> (r: String)
    ensures
        r@ == esp_place(esp@, from@),
{
    match file_name(from) {
        Some(name) => join(esp, name.as_str()),
        None => join(esp, String::new().as_str()),
    }
}

/// The name of the fallback initramfs: `-fallback` stands before the extension.
pub open spec fn fallback_name(initramfs: Seq<char>) -> Seq<char> {
    match file_name_of(initramfs) {
        Some(name) => {
            let (stem, extension) = stem_and_extension(name);
            stem + "-fallback."@ + (match extension {
                Some(e) => e,
                None => Seq::empty(),
            })
        },
        None => Seq::<char>::empty() + "-fallback."@ + Seq::<char>::empty(),
    }
}

/// The name of the fallback initramfs.
fn name_fallback(initramfs: &str) -> (r: String)
    ensures
        r@ == fallback_name(initramfs@),
{
    match file_name(initramfs) {
        Some(name) => {
            let (stem, extension) = split_extension(name.as_str());
            match extension {
                Some(e) => cat3(stem.as_str(), "-fallback.", e.as_str()),
                None => cat3(stem.as_str(), "-fallback.", String::new().as_str()),
            }
        },
        None => cat3(String::new().as_str(), "-fallback.", String::new().as_str()),
    }
}

/// Where the fallback initramfs is in the root volume: beside the initramfs.
pub open spec fn fallback_source(root_vol: Seq<char>, initramfs: Seq<char>) -> Seq<char> {
    match parent_of(initramfs) {
        Some(dir) => rebased_path(root_vol, joined_path(dir, fallback_name(initramfs))),
        None => joined_path(root_vol, "boot/initramfs-linux-fallback.img"@),
    }
}

/// Where the fallback initramfs is in the root volume.
fn find_fallback(root_vol: &str, initramfs: &str) -> (r: String)
    ensures
        r@ == fallback_source(root_vol@, initramfs@),
{
    match parent(initramfs) {
        Some(dir) => {
            let path = join(dir.as_str(), name_fallback(initramfs).as_str());
            rebased(root_vol, path.as_str())
        },
        None => join(root_vol, "boot/initramfs-linux-fallback.img"),
    }
}

/// Copies kernel, initramfs, fallback initramfs and microcode image from the root volume to
/// the EFI system partition. What does not exist is skipped, with a warning except for the
/// fallback.
#[verifier::opaque]
pub open spec fn copying_kernel(root_vol: Seq<char>, esp: Seq<char>, entry: BootEntry) -> Try<()> {
    let kernel = rebased_path(root_vol, entry.kernel);
    let initramfs = rebased_path(root_vol, entry.initramfs);
    let fallback = fallback_source(root_vol, entry.initramfs);
    then(
        copying(
            kernel,
            esp_place(esp, kernel),
            "Copied kernel: "@,
            Some("Kernel not found at: "@),
        ),
        |u: ()|
            then(
                copying(
                    initramfs,
                    esp_place(esp, initramfs),
                    "Copied initramfs: "@,
                    Some("Initramfs not found at: "@),
                ),
                |u: ()|
                    then(
                        copying(
                            fallback,
                            esp_place(esp, fallback),
                            "Copied fallback initramfs: "@,
                            None,
                        ),
                        |u: ()|
                            match entry.microcode {
                                Some(m) => copying(
                                    rebased_path(root_vol, m),
                                    esp_place(esp, rebased_path(root_vol, m)),
                                    "Copied microcode: "@,
                                    Some("Microcode not found at: "@),
                                ),
                                None => ok(()),
                            },
                    ),
            ),
    )
}

/// Copies kernel, initramfs and microcode image from the root volume to the EFI system
/// partition.
pub fn copy_kernel_to_esp(
    s: &mut Session,
    root_vol: &str,
    esp_path: &str,
    boot_entry: &BootEntryConfig,
) -> (r: Result<(), Stop>)
    ensures
        drive(copying_kernel(root_vol@, esp_path@, boot_entry.deep_view()), old(s)@) == (
            final(s)@,
            shown(r),
        ),
{
    broadcast use group_plan;

    reveal(copying_kernel);
    let kernel = rebased(root_vol, boot_entry.kernel.as_str());
    let initramfs = rebased(root_vol, boot_entry.initramfs.as_str());
    let fallback = find_fallback(root_vol, boot_entry.initramfs.as_str());
    let kernel_dest = place_on_esp(esp_path, kernel.as_str());
    let initramfs_dest = place_on_esp(esp_path, initramfs.as_str());
    let fallback_dest = place_on_esp(esp_path, fallback.as_str());
    copy(
        s,
        kernel.as_str(),
        kernel_dest.as_str(),
        "Copied kernel: ",
        Some("Kernel not found at: "),
    )?;
    copy(
        s,
        initramfs.as_str(),
        initramfs_dest.as_str(),
        "Copied initramfs: ",
        Some("Initramfs not found at: "),
    )?;
    copy(s, fallback.as_str(), fallback_dest.as_str(), "Copied fallback initramfs: ", None)?;
    match &boot_entry.microcode {
        Some(m) => {
            let microcode = rebased(root_vol, m.as_str());
            let dest = place_on_esp(esp_path, microcode.as_str());
            copy(
                s,
                microcode.as_str(),
                dest.as_str(),
                "Copied microcode: ",
                Some("Microcode not found at: "),
            )
        },
        None => Ok(()),
    }
}

/// The lines that open an fstab.
pub open spec fn fstab_head() -> Seq<Seq<char>> {
    seq![
        "# /etc/fstab: static file system information."@,
        "#"@,
        "# Use 'blkid' to print the universally unique identifier for a"@,
        "# device; this may be used with UUID= as a more robust way to name devices"@,
        "# that works even if disks are added and removed. See fstab(5)."@,
        "#"@,
        "# <file system> <dir> <type> <options> <dump> <pass>"@,
        Seq::empty(),
    ]
}

/// Where a source is mounted in the live boot environment: where it came from.
pub open spec fn source_mount_point(path: Seq<char>) -> Seq<char> {
    if is_root_dir(path) {
        "/"@
    } else {
        path
    }
}

/// The fstab line for a source.
pub open spec fn source_line(uuid: Seq<char>, live_root: Seq<char>, path: Seq<char>) -> Seq<char> {
    "UUID="@ + uuid + "  "@ + source_mount_point(path)
        + "  btrfs  rw,relatime,ssd,compress-force=zstd,space_cache=v2,subvol="@ + live_root + "/"@
        + subvolume_name(path) + "  0 0"@
}

/// The fstab line for the EFI system partition.
pub open spec fn esp_line(uuid: Seq<char>, mount_point: Seq<char>) -> Seq<char> {
    "UUID="@ + uuid + "  "@ + mount_point
        + "  vfat  rw,relatime,fmask=0133,dmask=0022,codepage=437,iocharset=iso8859-1,shortname=mixed,utf8,errors=remount-ro  0 2"@
}

/// The fstab lines for the sources.
pub open spec fn source_lines(
    uuid: Seq<char>,
    live_root: Seq<char>,
    sources: Seq<Source>,
) -> Seq<Seq<char>> {
    sources.map_values(|x: Source| source_line(uuid, live_root, x.path))
}

/// Where the EFI system partition is mounted in the live boot environment.
pub open spec fn esp_path_in(c: Setup) -> Seq<char> {
    match c.live_boot {
        Some(l) => l.esp_path,
        None => "/efi"@,
    }
}

/// The lines of the fstab of the live boot environment: a head, the sources, the EFI system
/// partition where its UUID is known, and `/tmp`.
pub open spec fn fstab_lines(c: Setup, root_uuid: Seq<char>, esp_uuid: Option<Seq<char>>) -> Seq<
    Seq<char>,
> {
    fstab_head() + source_lines(root_uuid, c.target.live_root(), c.sources) + seq![
        Seq::<char>::empty(),
    ] + (match esp_uuid {
        Some(uuid) => seq![esp_line(uuid, mount_point_of(esp_path_in(c)))],
        None => Seq::empty(),
    }) + seq!["tmpfs  /tmp  tmpfs  nodev,nosuid  0 0"@, Seq::<char>::empty()]
}

/// The fstab of the live boot environment.
pub open spec fn fstab_text(c: Setup, root_uuid: Seq<char>, esp_uuid: Option<Seq<char>>) -> Seq<
    char,
> {
    joined(fstab_lines(c, root_uuid, esp_uuid), "\n"@)
}

/// The lines that open an fstab.
fn open_fstab() -> (r: Vec<String>)
    ensures
        r.deep_view() == fstab_head(),
{
    let mut out: Vec<String> = Vec::new();
    out.push("# /etc/fstab: static file system information.".to_owned());
    out.push("#".to_owned());
    out.push("# Use 'blkid' to print the universally unique identifier for a".to_owned());
    out.push(
        "# device; this may be used with UUID= as a more robust way to name devices".to_owned(),
    );
    out.push("# that works even if disks are added and removed. See fstab(5).".to_owned());
    out.push("#".to_owned());
    out.push("# <file system> <dir> <type> <options> <dump> <pass>".to_owned());
    out.push(String::new());
    assert(out.deep_view() =~= fstab_head());
    out
}

/// The fstab line for a source.
fn write_source(uuid: &str, live_root: &str, path: &str) -> (r: String)
    ensures
        r@ == source_line(uuid@, live_root@, path@),
{
    let mount_point = if root_dir(path) {
        "/".to_owned()
    } else {
        path.to_owned()
    };
    let name = get_subvolume_name_with_suffix(path);
    let head = cat5(
        "UUID=",
        uuid,
        "  ",
        mount_point.as_str(),
        "  btrfs  rw,relatime,ssd,compress-force=zstd,space_cache=v2,subvol=",
    );
    cat5(head.as_str(), live_root, "/", name.as_str(), "  0 0")
}

/// The fstab of the live boot environment.
pub fn fstab(config: &Config, root_uuid: &str, esp_uuid: Option<&str>) -> (r: String)
    ensures
        r@ == fstab_text(config.deep_view(), root_uuid@, esp_uuid.deep_view()),
{
    let ghost c = config.deep_view();
    let live_root = config.target.live_root();
    let mut out = open_fstab();
    let ghost wanted = source_lines(root_uuid@, live_root@, c.sources);
    let mut i: usize = 0;
    assert(wanted.take(0) =~= Seq::<Seq<char>>::empty());
    while i < config.sources.len()
        invariant
            i <= config.sources@.len(),
            c == config.deep_view(),
            wanted == source_lines(root_uuid@, live_root@, c.sources),
            out.deep_view() =~= fstab_head() + wanted.take(i as int),
        decreases config.sources@.len() - i,
    {
        let ghost before = out.deep_view();
        let line = write_source(root_uuid, live_root.as_str(), config.sources[i].path.as_str());
        assert(c.sources[i as int] == config.sources@[i as int].deep_view());
        assert(line@ == wanted[i as int]);
        out.push(line);
        assert(out.deep_view() =~= before.push(line@));
        i += 1;
    }
    assert(wanted.take(i as int) =~= wanted);
    let ghost before = out.deep_view();
    out.push(String::new());
    assert(out.deep_view() =~= before + seq![Seq::<char>::empty()]);
    if let Some(uuid) = esp_uuid {
        let mount_point = match &config.live_boot {
            Some(l) => l.esp_mount_point(),
            None => default_mount_point(),
        };
        let line = cat5(
            "UUID=",
            uuid,
            "  ",
            mount_point.as_str(),
            "  vfat  rw,relatime,fmask=0133,dmask=0022,codepage=437,iocharset=iso8859-1,shortname=mixed,utf8,errors=remount-ro  0 2",
        );
        let ghost before = out.deep_view();
        out.push(line);
        assert(out.deep_view() =~= before + seq![line@]);
    }
    let ghost before = out.deep_view();
    out.push("tmpfs  /tmp  tmpfs  nodev,nosuid  0 0".to_owned());
    out.push(String::new());
    assert(out.deep_view() =~= before + seq![
        "tmpfs  /tmp  tmpfs  nodev,nosuid  0 0"@,
        Seq::<char>::empty(),
    ]);
    assert(out.deep_view() =~= fstab_lines(c, root_uuid@, esp_uuid.deep_view()));
    join_texts(&out, "\n")
}

/// Where the EFI system partition is mounted where no place is named.
fn default_mount_point() -> (r: String)
    ensures
        r@ == mount_point_of("/efi"@),
{
    cat2("/", only_names("/efi").as_str())
}

/// The UUID of the device mounted at a path, or `...` where it cannot be found.
pub open spec fn finding_root_uuid(target_mount: Seq<char>) -> Try<Seq<char>> {
    bind(
        finding_uuid(target_mount),
        |r: Result<Seq<char>, Fault>|
            match r {
                Ok(uuid) => ok(uuid),
                Err(_) => ok("..."@),
            },
    )
}

/// The UUID of the EFI system partition, where it has a mount point in the root volume.
pub open spec fn finding_esp_uuid(mount_dir: Seq<char>, esp: Seq<char>) -> Try<Option<Seq<char>>> {
    then(
        present(mount_dir),
        |there: bool|
            if !there {
                ok(None)
            } else {
                bind(
                    finding_uuid(esp),
                    |r: Result<Seq<char>, Fault>|
                        match r {
                            Ok(uuid) => ok(Some(uuid)),
                            Err(_) => then(
                                say(
                                    Tone::Warning,
                                    "Could not determine ESP UUID, skipping ESP fstab entry"@,
                                ),
                                |u: ()| ok(None),
                            ),
                        },
                )
            },
    )
}

/// The fstab of the live boot environment, with the UUIDs of the mounted devices.
#[verifier::opaque]
pub open spec fn generating_fstab(
    root_vol: Seq<char>,
    target_mount: Seq<char>,
    esp: Seq<char>,
    c: Setup,
) -> Try<Seq<char>> {
    then(
        finding_root_uuid(target_mount),
        |root_uuid: Seq<char>|
            then(
                finding_esp_uuid(joined_path(root_vol, names_path(esp_path_in(c))), esp),
                |esp_uuid: Option<Seq<char>>| ok(fstab_text(c, root_uuid, esp_uuid)),
            ),
    )
}

/// The fstab of the live boot environment, with the UUIDs of the mounted devices.
pub fn generate_basic_fstab(
    s: &mut Session,
    root_vol: &str,
    target_mount: &str,
    esp_path: &str,
    config: &Config,
) -> (r: Result<String, Stop>)
    ensures
        drive(
            generating_fstab(root_vol@, target_mount@, esp_path@, config.deep_view()),
            old(s)@,
        ) == (final(s)@, shown(r)),
{
    broadcast use group_plan;

    reveal(generating_fstab);
    let root_uuid = match get_device_uuid(s, target_mount) {
        Ok(uuid) => uuid,
        Err(Stop::Pending) => return Err(Stop::Pending),
        Err(Stop::Failed(_)) => "...".to_owned(),
    };
    let relative = match &config.live_boot {
        Some(l) => l.esp_path_relative(),
        None => only_names("/efi"),
    };
    let mount_dir = join(root_vol, relative.as_str());
    if !s.present(mount_dir.as_str())? {
        return Ok(fstab(config, root_uuid.as_str(), None));
    }
    match get_device_uuid(s, esp_path) {
        Ok(uuid) => Ok(fstab(config, root_uuid.as_str(), Some(uuid.as_str()))),
        Err(Stop::Pending) => Err(Stop::Pending),
        Err(Stop::Failed(_)) => {
            s.say(
                Tone::Warning,
                "Could not determine ESP UUID, skipping ESP fstab entry",
            )?;
            Ok(fstab(config, root_uuid.as_str(), None))
        },
    }
}

/// A line of an fstab that is neither blank nor a comment.
pub open spec fn is_entry(line: Seq<char>) -> bool {
    trimmed(line).len() > 0 && !"#"@.is_prefix_of(trimmed(line))
}

/// The entries among the lines of an fstab.
pub open spec fn entries_of(all: Seq<Seq<char>>) -> Seq<Seq<char>>
    decreases all.len(),
{
    if all.len() == 0 {
        Seq::empty()
    } else if is_entry(all.last()) {
        entries_of(all.drop_last()).push(all.last())
    } else {
        entries_of(all.drop_last())
    }
}

/// Shows device and mount point of the entries from `i` on.
pub open spec fn telling_entries(entries: Seq<Seq<char>>, i: int) -> Try<()>
    decreases entries.len() - i,
{
    if i < 0 || i >= entries.len() {
        ok(())
    } else {
        let parts = words_of(entries[i]);
        then(
            if parts.len() >= 2 {
                say(Tone::Detail, "  "@ + parts[0] + " -> "@ + parts[1])
            } else {
                ok(())
            },
            |u: ()| telling_entries(entries, i + 1),
        )
    }
}

/// The entries of an fstab.
fn entries(content: &str) -> (r: Vec<String>)
    ensures
        r.deep_view() == entries_of(lines_of(content@)),
{
    let all = lines(content);
    let ghost every = lines_of(content@);
    let mut out: Vec<String> = Vec::new();
    let mut i: usize = 0;
    assert(every.take(0) =~= Seq::<Seq<char>>::empty());
    while i < all.len()
        invariant
            i <= all@.len(),
            all.deep_view() == every,
            out.deep_view() =~= entries_of(every.take(i as int)),
        decreases all@.len() - i,
    {
        let ghost before = out.deep_view();
        assert(all@[i as int]@ == every[i as int]);
        assert(every.take(i + 1).drop_last() =~= every.take(i as int));
        let clean = trim(all[i].as_str());
        if !clean.as_str().is_empty() && !starts_with(clean.as_str(), "#") {
            out.push(all[i].clone());
            assert(out.deep_view() =~= before.push(every[i as int]));
        }
        i += 1;
    }
    assert(every.take(i as int) =~= every);
    out
}

/// Shows device and mount point of every entry.
fn tell_entries(s: &mut Session, list: &Vec<String>) -> (r: Result<(), Stop>)
    ensures
        drive(telling_entries(list.deep_view(), 0), old(s)@) == (final(s)@, shown(r)),
{
    broadcast use group_plan;

    let ghost all = list.deep_view();
    let mut i: usize = 0;
    while i < list.len()
        invariant
            i <= list@.len(),
            all == list.deep_view(),
            drive(telling_entries(all, 0), old(s)@) == drive(telling_entries(all, i as int), s@),
        decreases list@.len() - i,
    {
        broadcast use group_plan;

        assert(all[i as int] == list@[i as int]@);
        let parts = words(list[i].as_str());
        assert(parts@.len() == words_of(all[i as int]).len());
        if parts.len() >= 2 {
            assert(parts@[0]@ == words_of(all[i as int])[0]);
            assert(parts@[1]@ == words_of(all[i as int])[1]);
            s.say(
                Tone::Detail,
                cat4("  ", parts[0].as_str(), " -> ", parts[1].as_str()).as_str(),
            )?;
        }
        i += 1;
    }
    Ok(())
}

/// Keeps a copy of a file where it exists.
pub open spec fn keeping_copy(path: Seq<char>, backup: Seq<char>) -> Try<()> {
    then(
        present(path),
        |there: bool|
            if there {
                then(
                    say(Tone::Detail, "Backing up existing fstab to: "@ + backup),
                    |u: ()| perform(Ask::Copy { from: path, to: backup }),
                )
            } else {
                ok(())
            },
    )
}

/// Writes a new fstab to the live boot environment, keeping the old one beside it.
#[verifier::opaque]
pub open spec fn regenerating_fstab(
    root_vol: Seq<char>,
    target_mount: Seq<char>,
    esp: Seq<char>,
    c: Setup,
) -> Try<()> {
    let path = joined_path(root_vol, "etc/fstab"@);
    then(
        generating_fstab(root_vol, target_mount, esp, c),
        |content: Seq<char>|
            then(
                keeping_copy(path, path + ".backup"@),
                |u: ()|
                    then(
                        say(
                            Tone::Detail,
                            "Generated "@ + decimal(entries_of(lines_of(content)).len())
                                + " fstab entries"@,
                        ),
                        |u: ()|
                            then(
                                telling_entries(entries_of(lines_of(content)), 0),
                                |u: ()|
                                    then(
                                        perform(Ask::WriteFile { path, text: content }),
                                        |u: ()| say(Tone::Detail, "Wrote fstab to: "@ + path),
                                    ),
                            ),
                    ),
            ),
    )
}

/// Writes a new fstab to the live boot environment, keeping the old one beside it.
pub fn regenerate_fstab(
    s: &mut Session,
    root_vol: &str,
    target_mount: &str,
    esp_path: &str,
    config: &Config,
) -> (r: Result<(), Stop>)
    ensures
        drive(
            regenerating_fstab(root_vol@, target_mount@, esp_path@, config.deep_view()),
            old(s)@,
        ) == (final(s)@, shown(r)),
{
    broadcast use group_plan;

    reveal(regenerating_fstab);
    let path = join(root_vol, "etc/fstab");
    let content = generate_basic_fstab(s, root_vol, target_mount, esp_path, config)?;
    if s.present(path.as_str())? {
        let backup = cat2(path.as_str(), ".backup");
        s.say(Tone::Detail, cat2("Backing up existing fstab to: ", backup.as_str()).as_str())?;
        s.perform(Request::Copy { from: path.clone(), to: backup })?;
    }
    let list = entries(content.as_str());
    let count = number(list.len() as u64);
    s.say(Tone::Detail, cat3("Generated ", count.as_str(), " fstab entries").as_str())?;
    tell_entries(s, &list)?;
    s.perform(Request::WriteFile { path: path.clone(), text: content })?;
    s.say(Tone::Detail, cat2("Wrote fstab to: ", path.as_str()).as_str())
}

/// Removes the regular files among the paths from `i` on.
pub open spec fn removing_files(paths: Seq<Seq<char>>, i: int) -> Try<()>
    decreases paths.len() - i,
{
    if i < 0 || i >= paths.len() {
        ok(())
    } else {
        then(
            decide(Ask::IsFile(paths[i])),
            |file: bool|
                then(
                    if file {
                        perform(Ask::RemoveFile(paths[i]))
                    } else {
                        ok(())
                    },
                    |u: ()| removing_files(paths, i + 1),
                ),
        )
    }
}

/// Removes the files in a directory, and the directory where that works.
#[verifier::opaque]
pub open spec fn emptying(dir: Seq<char>) -> Try<()> {
    then(
        present(dir),
        |there: bool|
            if !there {
                ok(())
            } else {
                bind(
                    ask(Ask::ReadDir(dir)),
                    |a: Answer|
                        match entries_in(a) {
                            Err(e) => fail(Fault::Io(e)),
                            Ok((names, failure)) => then(
                                removing_files(entry_paths(dir, names), 0),
                                |u: ()|
                                    match failure {
                                        Some(e) => fail(Fault::Io(e)),
                                        None => ignoring(perform(Ask::RemoveDir(dir))),
                                    },
                            ),
                        },
                )
            },
    )
}

/// Removes a file where it exists, if that works.
#[verifier::opaque]
pub open spec fn dropping(path: Seq<char>) -> Try<()> {
    then(
        present(path),
        |there: bool|
            if there {
                ignoring(perform(Ask::RemoveFile(path)))
            } else {
                ok(())
            },
    )
}

/// Removes the snapper configuration files and disables the snapper services.
#[verifier::opaque]
pub open spec fn removing_snapper(root: Seq<char>) -> Try<()> {
    then(
        emptying(joined_path(root, "etc/snapper/configs"@)),
        |u: ()|
            then(
                dropping(
                    joined_path(
                        root,
                        "etc/systemd/system/multi-user.target.wants/snapper-cleanup.service"@,
                    ),
                ),
                |u: ()|
                    dropping(
                        joined_path(
                            root,
                            "etc/systemd/system/timers.target.wants/snapper-cleanup.timer"@,
                        ),
                    ),
            ),
    )
}

/// Removes the regular files among `paths`.
fn remove_files(s: &mut Session, paths: &Vec<String>) -> (r: Result<(), Stop>)
    ensures
        drive(removing_files(paths.deep_view(), 0), old(s)@) == (final(s)@, shown(r)),
{
    broadcast use group_plan;

    let ghost all = paths.deep_view();
    let mut i: usize = 0;
    while i < paths.len()
        invariant
            i <= paths@.len(),
            all == paths.deep_view(),
            drive(removing_files(all, 0), old(s)@) == drive(removing_files(all, i as int), s@),
        decreases paths@.len() - i,
    {
        broadcast use group_plan;

        assert(all[i as int] == paths@[i as int]@);
        if s.decide(Request::IsFile(paths[i].clone()))? {
            s.perform(Request::RemoveFile(paths[i].clone()))?;
        }
        i += 1;
    }
    Ok(())
}

/// Removes the files in a directory, and the directory where that works.
fn empty(s: &mut Session, dir: &str) -> (r: Result<(), Stop>)
    ensures
        drive(emptying(dir@), old(s)@) == (final(s)@, shown(r)),
{
    broadcast use group_plan;

    reveal(emptying);
    if !s.present(dir)? {
        return Ok(());
    }
    match s.ask(Request::ReadDir(dir.to_owned()))? {
        Reply::Entries { names, failure } => {
            let paths = paths_of_entries(dir, names);
            remove_files(s, &paths)?;
            match failure {
                Some(e) => Err(Stop::Failed(BackupError::Io(e.duplicate()))),
                None => ignore(s.perform(Request::RemoveDir(dir.to_owned()))),
            }
        },
        Reply::Failed(e) => Err(Stop::Failed(BackupError::Io(e.duplicate()))),
        _ => Err(Stop::Failed(BackupError::Io(unexpected_reply()))),
    }
}

/// Removes a file where it exists, if that works.
fn drop_file(s: &mut Session, path: &str) -> (r: Result<(), Stop>)
    ensures
        drive(dropping(path@), old(s)@) == (final(s)@, shown(r)),
{
    broadcast use group_plan;

    reveal(dropping);
    if s.present(path)? {
        ignore(s.perform(Request::RemoveFile(path.to_owned())))
    } else {
        Ok(())
    }
}

/// Removes the snapper configuration files and disables the snapper services.
pub fn remove_snapper_config(s: &mut Session, live_boot_path: &str) -> (r: Result<(), Stop>)
    ensures
        drive(removing_snapper(live_boot_path@), old(s)@) == (final(s)@, shown(r)),
{
    broadcast use group_plan;

    reveal(removing_snapper);
    empty(s, join(live_boot_path, "etc/snapper/configs").as_str())?;
    let service = join(
        live_boot_path,
        "etc/systemd/system/multi-user.target.wants/snapper-cleanup.service",
    );
    drop_file(s, service.as_str())?;
    let timer = join(
        live_boot_path,
        "etc/systemd/system/timers.target.wants/snapper-cleanup.timer",
    );
    drop_file(s, timer.as_str())
}

/// Announces a hook and runs it, where it is on.
pub open spec fn hooking(on: bool, msg: Seq<char>, hook: Try<()>) -> Try<()> {
    if on {
        then(say(Tone::Substep, msg), |u: ()| hook)
    } else {
        ok(())
    }
}

/// Runs the hooks that are on.
#[verifier::opaque]
pub open spec fn running_hooks(
    live_boot_path: Seq<char>,
    target_mount: Seq<char>,
    esp: Seq<char>,
    hooks: HookConfig,
    entry: BootEntry,
    c: Setup,
) -> Try<()> {
    let root_vol = root_vol_path(live_boot_path);
    then(
        hooking(
            hooks.copy_kernel,
            "Copying kernel and initramfs to ESP"@,
            copying_kernel(root_vol, esp, entry),
        ),
        |u: ()|
            then(
                hooking(
                    hooks.regenerate_fstab,
                    "Regenerating fstab for live boot"@,
                    regenerating_fstab(root_vol, target_mount, esp, c),
                ),
                |u: ()|
                    hooking(
                        hooks.remove_snapper_config,
                        "Removing snapper config from live boot"@,
                        removing_snapper(root_vol),
                    ),
            ),
    )
}

/// Runs the hooks that are on.
pub fn run_hooks(
    s: &mut Session,
    live_boot_path: &str,
    target_mount: &str,
    esp_path: &str,
    hook_config: &HookConfig,
    boot_entry: &BootEntryConfig,
    config: &Config,
) -> (r: Result<(), Stop>)
    ensures
        drive(
            running_hooks(
                live_boot_path@,
                target_mount@,
                esp_path@,
                *hook_config,
                boot_entry.deep_view(),
                config.deep_view(),
            ),
            old(s)@,
        ) == (final(s)@, shown(r)),
{
    broadcast use group_plan;

    reveal(running_hooks);
    let root_vol = find_root_vol_path(live_boot_path, config);
    if hook_config.copy_kernel {
        s.say(Tone::Substep, "Copying kernel and initramfs to ESP")?;
        copy_kernel_to_esp(s, root_vol.as_str(), esp_path, boot_entry)?;
    }
    if hook_config.regenerate_fstab {
        s.say(Tone::Substep, "Regenerating fstab for live boot")?;
        regenerate_fstab(s, root_vol.as_str(), target_mount, esp_path, config)?;
    }
    if hook_config.remove_snapper_config {
        s.say(Tone::Substep, "Removing snapper config from live boot")?;
        remove_snapper_config(s, root_vol.as_str())?;
    }
    Ok(())
}

/// The fstab has a line for every source, in order; a line for the EFI system partition
/// exactly where its UUID is known; and nothing else but its head, blank lines and `/tmp`.
pub proof fn lemma_fstab_lines(c: Setup, root_uuid: Seq<char>, esp_uuid: Option<Seq<char>>)
    ensures
        ({
            let all = fstab_lines(c, root_uuid, esp_uuid);
            let head = fstab_head().len() as int;
            let n = c.sources.len() as int;
            &&& forall|i: int|
                0 <= i < n ==> all[head + i] == source_line(
                    root_uuid,
                    c.target.live_root(),
                    (#[trigger] c.sources[i]).path,
                )
            &&& all.len() == head + n + (if esp_uuid is Some {
                4int
            } else {
                3
            })
            &&& esp_uuid matches Some(uuid) ==> all[head + n + 1] == esp_line(
                uuid,
                mount_point_of(esp_path_in(c)),
            )
        }),
{
    let all = fstab_lines(c, root_uuid, esp_uuid);
    let head = fstab_head().len() as int;
    let lines = source_lines(root_uuid, c.target.live_root(), c.sources);
    assert(lines.len() == c.sources.len());
    assert forall|i: int| 0 <= i < c.sources.len() implies all[head + i] == source_line(
        root_uuid,
        c.target.live_root(),
        (#[trigger] c.sources[i]).path,
    ) by {
        assert(all[head + i] == lines[i]);
    }
}

}
