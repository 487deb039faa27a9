//! The configuration of a backup, its defaults, and what makes it usable.

use crate::btrfs::{checking_filesystem, checking_subvolume, is_btrfs_filesystem, is_subvolume};
use crate::error::{fault_text, BackupError, ConfigError, Fault};
#[allow(unused_imports)]
use crate::journal::{
    bind, drive, fail, group_plan, ok, present, shown, then, Log, Session, Stop, Try,
};
use crate::path::{components, components_of, names_path, only_names, quoted, quoted_path};
use crate::text::{cat2, cat3, same, starts_with, trim, trimmed};
use vstd::prelude::*;

verus! {

/// A backup: what is backed up, where to, and what is done afterwards.
#[derive(Debug)]
pub struct Config {
    /// Tells backups to different targets apart.
    pub name: String,
    /// The subvolumes to back up.
    pub sources: Vec<SourceConfig>,
    /// Where the backups go.
    pub target: TargetConfig,
    /// The live boot environment, where there is one.
    pub live_boot: Option<LiveBootConfig>,
    /// What is done after a backup.
    pub hooks: HookConfig,
}

/// A subvolume to back up.
#[derive(Debug)]
pub struct SourceConfig {
    /// Where the subvolume is.
    pub path: String,
    /// Where its local snapshots are, relative to the subvolume.
    pub snapshot_dir: String,
    /// Whether snapper creates the snapshots.
    pub use_snapper: bool,
    /// The name of the snapshot where snapper does not create it.
    pub snapshot_name: String,
    /// The snapper configuration, needed where snapper creates the snapshots.
    pub snapper_config: Option<String>,
}

/// Where the backups go.
#[derive(Debug)]
pub struct TargetConfig {
    /// A mounted path or a device.
    pub location: TargetLocation,
    /// Whether the target holds a live boot environment.
    pub enable_live_boot: bool,
    /// The subvolume for snapshots.
    pub snapshot_subvolume: Option<String>,
    /// The subvolume for the live boot environment.
    pub live_boot_subvolume: Option<String>,
    /// How the device is unlocked, where it is encrypted.
    pub encryption: Option<EncryptionConfig>,
}

/// How an encrypted device is unlocked.
#[derive(Debug)]
pub struct EncryptionConfig {
    /// A file that holds the key.
    pub keyfile: Option<String>,
    /// An environment variable that holds the passphrase.
    pub passphrase_env: Option<String>,
    /// The name of the unlocked device.
    pub mapping_name: String,
}

/// A place in the file system or a device.
#[derive(Debug)]
pub enum TargetLocation {
    /// A path on a mounted file system.
    MountedPath(String),
    /// A device, by path, UUID or label.
    Device(String),
}

/// The live boot environment.
#[derive(Debug)]
pub struct LiveBootConfig {
    /// Where the EFI system partition is.
    pub esp_location: TargetLocation,
    /// Where it is mounted in the live boot environment.
    pub esp_path: String,
    /// The bootloader.
    pub bootloader: BootloaderType,
    /// The entry in the boot menu.
    pub boot_entry: BootEntryConfig,
}

/// The bootloaders that can be set up.
#[derive(Clone, Copy, PartialEq, Eq, Structural, Debug)]
pub enum BootloaderType {
    SystemdBoot,
}

/// The entry in the boot menu.
#[derive(Debug)]
pub struct BootEntryConfig {
    /// What the menu shows.
    pub title: String,
    /// The kernel, in the live boot root volume.
    pub kernel: String,
    /// The initramfs, in the live boot root volume.
    pub initramfs: String,
    /// The microcode image, where there is one.
    pub microcode: Option<String>,
    /// Further kernel options.
    pub options: Vec<String>,
}

/// What is done after a backup.
#[derive(Clone, Copy, PartialEq, Eq, Structural, Debug)]
pub struct HookConfig {
    /// Copy kernel and initramfs to the EFI system partition.
    pub copy_kernel: bool,
    /// Write a new fstab for the live boot environment.
    pub regenerate_fstab: bool,
    /// Remove the snapper configuration from the live boot environment.
    pub remove_snapper_config: bool,
}

/// What a [`Config`] holds.
pub struct Setup {
    pub name: Seq<char>,
    pub sources: Seq<Source>,
    pub target: Target,
    pub live_boot: Option<LiveBoot>,
    pub hooks: HookConfig,
}

/// What a [`SourceConfig`] holds.
pub struct Source {
    pub path: Seq<char>,
    pub snapshot_dir: Seq<char>,
    pub use_snapper: bool,
    pub snapshot_name: Seq<char>,
    pub snapper_config: Option<Seq<char>>,
}

/// What a [`TargetConfig`] holds.
pub struct Target {
    pub location: Location,
    pub enable_live_boot: bool,
    pub snapshot_subvolume: Option<Seq<char>>,
    pub live_boot_subvolume: Option<Seq<char>>,
    pub encryption: Option<Encryption>,
}

/// What an [`EncryptionConfig`] holds.
pub struct Encryption {
    pub keyfile: Option<Seq<char>>,
    pub passphrase_env: Option<Seq<char>>,
    pub mapping_name: Seq<char>,
}

/// What a [`TargetLocation`] holds.
pub enum Location {
    MountedPath(Seq<char>),
    Device(Seq<char>),
}

/// What a [`LiveBootConfig`] holds.
pub struct LiveBoot {
    pub esp_location: Location,
    pub esp_path: Seq<char>,
    pub bootloader: BootloaderType,
    pub boot_entry: BootEntry,
}

/// What a [`BootEntryConfig`] holds.
pub struct BootEntry {
    pub title: Seq<char>,
    pub kernel: Seq<char>,
    pub initramfs: Seq<char>,
    pub microcode: Option<Seq<char>>,
    pub options: Seq<Seq<char>>,
}

impl DeepView for Config {
    type V = Setup;

    open spec fn deep_view(&self) -> Setup {
        Setup {
            name: self.name@,
            sources: self.sources.deep_view(),
            target: self.target.deep_view(),
            live_boot: self.live_boot.deep_view(),
            hooks: self.hooks,
        }
    }
}

impl DeepView for SourceConfig {
    type V = Source;

    open spec fn deep_view(&self) -> Source {
        Source {
            path: self.path@,
            snapshot_dir: self.snapshot_dir@,
            use_snapper: self.use_snapper,
            snapshot_name: self.snapshot_name@,
            snapper_config: self.snapper_config.deep_view(),
        }
    }
}

impl DeepView for TargetConfig {
    type V = Target;

    open spec fn deep_view(&self) -> Target {
        Target {
            location: self.location.deep_view(),
            enable_live_boot: self.enable_live_boot,
            snapshot_subvolume: self.snapshot_subvolume.deep_view(),
            live_boot_subvolume: self.live_boot_subvolume.deep_view(),
            encryption: self.encryption.deep_view(),
        }
    }
}

impl DeepView for EncryptionConfig {
    type V = Encryption;

    open spec fn deep_view(&self) -> Encryption {
        Encryption {
            keyfile: self.keyfile.deep_view(),
            passphrase_env: self.passphrase_env.deep_view(),
            mapping_name: self.mapping_name@,
        }
    }
}

impl DeepView for TargetLocation {
    type V = Location;

    open spec fn deep_view(&self) -> Location {
        match self {
            TargetLocation::MountedPath(p) => Location::MountedPath(p@),
            TargetLocation::Device(d) => Location::Device(d@),
        }
    }
}

impl DeepView for LiveBootConfig {
    type V = LiveBoot;

    open spec fn deep_view(&self) -> LiveBoot {
        LiveBoot {
            esp_location: self.esp_location.deep_view(),
            esp_path: self.esp_path@,
            bootloader: self.bootloader,
            boot_entry: self.boot_entry.deep_view(),
        }
    }
}

impl DeepView for BootEntryConfig {
    type V = BootEntry;

    open spec fn deep_view(&self) -> BootEntry {
        BootEntry {
            title: self.title@,
            kernel: self.kernel@,
            initramfs: self.initramfs@,
            microcode: self.microcode.deep_view(),
            options: self.options.deep_view(),
        }
    }
}

/// The snapshot directory of a source that names none.
pub fn default_snapshot_dir() -> (r: String)
    ensures
        r@ == ".snapshots"@,
{
    ".snapshots".to_owned()
}

/// The snapshot name of a source that gives none.
pub fn default_snapshot_name() -> (r: String)
    ensures
        r@ == "btrbak"@,
{
    "btrbak".to_owned()
}

/// The name of an unlocked device where none is given.
pub fn default_luks_mapping_name() -> (r: String)
    ensures
        r@ == "backup_target"@,
{
    "backup_target".to_owned()
}

/// The bootloader where none is named.
pub fn default_bootloader() -> (r: BootloaderType)
    ensures
        r == BootloaderType::SystemdBoot,
{
    BootloaderType::SystemdBoot
}

/// Where the EFI system partition is mounted where no place is named.
pub fn default_esp_path() -> (r: String)
    ensures
        r@ == "/efi"@,
{
    "/efi".to_owned()
}

/// The title of a boot entry that gives none.
pub fn default_title() -> (r: String)
    ensures
        r@ == "Backup Environment"@,
{
    "Backup Environment".to_owned()
}

/// The kernel of a boot entry that names none.
pub fn default_kernel() -> (r: String)
    ensures
        r@ == "/boot/vmlinuz-linux"@,
{
    "/boot/vmlinuz-linux".to_owned()
}

/// The initramfs of a boot entry that names none.
pub fn default_initramfs() -> (r: String)
    ensures
        r@ == "/boot/initramfs-linux.img"@,
{
    "/boot/initramfs-linux.img".to_owned()
}

/// A hook that is not mentioned is on.
pub fn default_true() -> (r: bool)
    ensures
        r,
{
    true
}

impl Default for BootloaderType {
    fn default() -> (r: Self)
        ensures
            r == BootloaderType::SystemdBoot,
    {
        default_bootloader()
    }
}

impl Default for BootEntryConfig {
    fn default() -> (r: Self)
        ensures
            r.deep_view() == (BootEntry {
                title: "Backup Environment"@,
                kernel: "/boot/vmlinuz-linux"@,
                initramfs: "/boot/initramfs-linux.img"@,
                microcode: None,
                options: Seq::empty(),
            }),
    {
        let options: Vec<String> = Vec::new();
        assert(options.deep_view() =~= Seq::<Seq<char>>::empty());
        BootEntryConfig {
            title: default_title(),
            kernel: default_kernel(),
            initramfs: default_initramfs(),
            microcode: None,
            options,
        }
    }
}

impl Default for HookConfig {
    fn default() -> (r: Self)
        ensures
            r.copy_kernel && r.regenerate_fstab && r.remove_snapper_config,
    {
        HookConfig {
            copy_kernel: default_true(),
            regenerate_fstab: default_true(),
            remove_snapper_config: default_true(),
        }
    }
}

/// Whether a text names a device by UUID or label.
pub open spec fn is_tag(s: Seq<char>) -> bool {
    "UUID="@.is_prefix_of(s) || "LABEL="@.is_prefix_of(s) || "PARTUUID="@.is_prefix_of(s)
}

/// Whether a text names a device by UUID or label.
pub fn names_tag(s: &str) -> (r: bool)
    ensures
        r == is_tag(s@),
{
    starts_with(s, "UUID=") || starts_with(s, "LABEL=") || starts_with(s, "PARTUUID=")
}

/// The location that a text in a configuration stands for: a device where it begins like
/// one, a mounted path otherwise.
pub open spec fn location_of(s: Seq<char>) -> Location {
    if "/dev/"@.is_prefix_of(s) || is_tag(s) {
        Location::Device(s)
    } else {
        Location::MountedPath(s)
    }
}

impl TargetLocation {
    /// The location that a text in a configuration stands for.
    pub fn parse(s: &str) -> (r: TargetLocation)
        ensures
            r.deep_view() == location_of(s@),
    {
        if starts_with(s, "/dev/") || names_tag(s) {
            TargetLocation::Device(s.to_owned())
        } else {
            TargetLocation::MountedPath(s.to_owned())
        }
    }
}

impl Target {
    /// The subvolume for snapshots: the one that is named, or the default.
    pub open spec fn snapshots(self) -> Seq<char> {
        match self.snapshot_subvolume {
            Some(name) => name,
            None => if self.enable_live_boot {
                "@snapshots"@
            } else {
                "."@
            },
        }
    }

    /// The subvolume for the live boot environment: the one that is named, or the default.
    pub open spec fn live_root(self) -> Seq<char> {
        match self.live_boot_subvolume {
            Some(name) => name,
            None => "@"@,
        }
    }
}

impl TargetConfig {
    /// The subvolume for snapshots: the one that is named, or the default.
    pub fn snapshots(&self) -> (r: String)
        ensures
            r@ == self.deep_view().snapshots(),
    {
        match &self.snapshot_subvolume {
            Some(name) => name.clone(),
            None => if self.enable_live_boot {
                "@snapshots".to_owned()
            } else {
                ".".to_owned()
            },
        }
    }

    /// The subvolume for the live boot environment: the one that is named, or the default.
    pub fn live_root(&self) -> (r: String)
        ensures
            r@ == self.deep_view().live_root(),
    {
        match &self.live_boot_subvolume {
            Some(name) => name.clone(),
            None => "@".to_owned(),
        }
    }
}

/// A mount point in an fstab: always absolute.
pub open spec fn mount_point_of(esp_path: Seq<char>) -> Seq<char> {
    "/"@ + names_path(esp_path)
}

/// What makes a path unusable as a mount point in the root volume, if anything does.
pub open spec fn esp_path_fault(esp_path: Seq<char>) -> Option<Seq<char>> {
    if esp_path.len() == 0 {
        Some("live_boot.esp_path must be non-empty"@)
    } else if components_of(esp_path).contains(".."@) {
        Some("live_boot.esp_path must not contain '..': "@ + quoted_path(esp_path))
    } else if names_path(esp_path).len() == 0 {
        Some(
            "live_boot.esp_path must contain at least one path segment: "@ + quoted_path(esp_path),
        )
    } else {
        None
    }
}

/// Whether `list` holds `t`.
fn holds(list: &Vec<String>, t: &str) -> (r: bool)
    ensures
        r == list.deep_view().contains(t@),
{
    let ghost all = list.deep_view();
    let mut i: usize = 0;
    while i < list.len()
        invariant
            i <= list@.len(),
            all == list.deep_view(),
            forall|k: int| 0 <= k < i ==> all[k] != t@,
        decreases list@.len() - i,
    {
        assert(all[i as int] == list@[i as int]@);
        if same(list[i].as_str(), t) {
            return true;
        }
        i += 1;
    }
    assert(!all.contains(t@));
    false
}

impl LiveBootConfig {
    /// Where the EFI system partition is mounted, relative to the live root volume.
    pub fn esp_path_relative(&self) -> (r: String)
        ensures
            r@ == names_path(self.deep_view().esp_path),
    {
        only_names(self.esp_path.as_str())
    }

    /// Where the EFI system partition is mounted, as an fstab has it.
    pub fn esp_mount_point(&self) -> (r: String)
        ensures
            r@ == mount_point_of(self.deep_view().esp_path),
    {
        cat2("/", self.esp_path_relative().as_str())
    }

    /// Whether `esp_path` can be a mount point in the root volume.
    pub fn validate_esp_path(&self) -> (r: Result<(), ConfigError>)
        ensures
            match r {
                Ok(_) => esp_path_fault(self.deep_view().esp_path) is None,
                Err(e) => esp_path_fault(self.deep_view().esp_path) == Some(e.message@),
            },
    {
        let path = self.esp_path.as_str();
        if path.is_empty() {
            return Err(
                ConfigError { message: "live_boot.esp_path must be non-empty".to_owned() },
            );
        }
        let shown_path = quoted(path);
        if holds(&components(path), "..") {
            return Err(
                ConfigError {
                    message: cat2(
                        "live_boot.esp_path must not contain '..': ",
                        shown_path.as_str(),
                    ),
                },
            );
        }
        if self.esp_path_relative().as_str().is_empty() {
            return Err(
                ConfigError {
                    message: cat2(
                        "live_boot.esp_path must contain at least one path segment: ",
                        shown_path.as_str(),
                    ),
                },
            );
        }
        Ok(())
    }
}

/// An unusable configuration.
pub open spec fn unusable(msg: Seq<char>) -> Try<()> {
    fail(Fault::Config(msg))
}

/// What a check of the file system found out: `no` says what is wrong where it is negative,
/// and `what` is what could not be checked where it failed.
#[verifier::opaque]
pub open spec fn judging(r: Result<bool, Fault>, no: Seq<char>, what: Seq<char>) -> Try<()> {
    match r {
        Ok(true) => ok(()),
        Ok(false) => unusable(no),
        Err(e) => unusable(
            what + fault_text(e) + ". Ensure btrfs tools are installed."@,
        ),
    }
}

/// A source has to be an existing subvolume, with a snapper configuration where it needs one.
#[verifier::opaque]
pub open spec fn validating_source(source: Source) -> Try<()> {
    then(
        present(source.path),
        |there: bool|
            if !there {
                unusable("Source path does not exist: "@ + quoted_path(source.path))
            } else {
                then(
                    bind(
                        checking_subvolume(source.path),
                        |r: Result<bool, Fault>|
                            judging(
                                r,
                                "Source path is not a btrfs subvolume: "@ + quoted_path(
                                    source.path,
                                ),
                                "Failed to check btrfs subvolume status: "@,
                            ),
                    ),
                    |u: ()|
                        if source.use_snapper && source.snapper_config is None {
                            unusable(
                                "snapper_config must be set when use_snapper is true for source: "@
                                    + quoted_path(source.path),
                            )
                        } else {
                            ok(())
                        },
                )
            },
    )
}

/// Every source from `i` on has to be usable.
pub open spec fn validating_sources(sources: Seq<Source>, i: int) -> Try<()>
    decreases sources.len() - i,
{
    if i < 0 || i >= sources.len() {
        ok(())
    } else {
        then(validating_source(sources[i]), |u: ()| validating_sources(sources, i + 1))
    }
}

/// A target that is a mounted path has to exist on a Btrfs file system. A device is mounted
/// later.
#[verifier::opaque]
pub open spec fn validating_target(location: Location) -> Try<()> {
    match location {
        Location::Device(_) => ok(()),
        Location::MountedPath(p) => then(
            present(p),
            |there: bool|
                if !there {
                    unusable("Target mounted path does not exist: "@ + quoted_path(p))
                } else {
                    bind(
                        checking_filesystem(p),
                        |r: Result<bool, Fault>|
                            judging(
                                r,
                                "Target mounted path is not a btrfs filesystem: "@ + quoted_path(
                                    p,
                                ),
                                "Failed to check btrfs filesystem status: "@,
                            ),
                    )
                },
        ),
    }
}

/// The live boot environment needs a usable mount point and, unless it is a device, an
/// existing EFI system partition.
#[verifier::opaque]
pub open spec fn validating_live_boot(l: LiveBoot) -> Try<()> {
    match esp_path_fault(l.esp_path) {
        Some(msg) => unusable(msg),
        None => match l.esp_location {
            Location::Device(_) => ok(()),
            Location::MountedPath(p) => then(
                present(p),
                |there: bool|
                    if there {
                        ok(())
                    } else {
                        unusable("ESP mounted path does not exist: "@ + quoted_path(p))
                    },
            ),
        },
    }
}

/// An encrypted device needs a key: a file that exists, or a variable.
#[verifier::opaque]
pub open spec fn validating_encryption(e: Encryption) -> Try<()> {
    match e.keyfile {
        Some(k) => then(
            present(k),
            |there: bool|
                if there {
                    ok(())
                } else {
                    unusable("Encryption keyfile does not exist: "@ + quoted_path(k))
                },
        ),
        None => if e.passphrase_env is None {
            unusable("Encryption configured but neither keyfile nor passphrase_env provided"@)
        } else {
            ok(())
        },
    }
}

/// What has to hold beside the sources and the target.
pub open spec fn validating_rest(c: Setup) -> Try<()> {
    if c.target.enable_live_boot && c.live_boot is None {
        unusable("Live boot enabled but live_boot configuration missing"@)
    } else {
        then(
            match c.live_boot {
                Some(l) => validating_live_boot(l),
                None => ok(()),
            },
            |u: ()|
                match c.target.encryption {
                    Some(e) => validating_encryption(e),
                    None => ok(()),
                },
        )
    }
}

/// Whether a configuration can be used.
#[verifier::opaque]
pub open spec fn validating(c: Setup) -> Try<()> {
    if trimmed(c.name).len() == 0 {
        unusable("Configuration name must be non-empty"@)
    } else if c.sources.len() == 0 {
        unusable("No source configurations provided"@)
    } else {
        then(
            validating_sources(c.sources, 0),
            |u: ()| then(validating_target(c.target.location), |u: ()| validating_rest(c)),
        )
    }
}

/// The failure of an unusable configuration.
fn reject(msg: String) -> (r: Result<(), Stop>)
    ensures
        shown(r) == Some(Err::<(), Fault>(Fault::Config(msg@))),
{
    Err(Stop::Failed(BackupError::Config(msg)))
}

/// What a check of the file system found out.
fn judge(r: Result<bool, Stop>, no: &str, what: &str) -> (out: Result<(), Stop>)
    ensures
        match shown(r) {
            None => shown(out) is None,
            Some(x) => forall|log: Log|
                #[trigger] drive(judging(x, no@, what@), log) == (log, shown(out)),
        },
{
    broadcast use group_plan;

    reveal(judging);
    match r {
        Ok(true) => Ok(()),
        Ok(false) => reject(no.to_owned()),
        Err(Stop::Pending) => Err(Stop::Pending),
        Err(Stop::Failed(e)) => reject(
            cat3(what, e.message().as_str(), ". Ensure btrfs tools are installed."),
        ),
    }
}

/// Whether a source can be used.
fn validate_source(s: &mut Session, source: &SourceConfig) -> (r: Result<(), Stop>)
    ensures
        drive(validating_source(source.deep_view()), old(s)@) == (final(s)@, shown(r)),
{
    broadcast use group_plan;

    reveal(validating_source);
    let path = source.path.as_str();
    let shown_path = quoted(path);
    if !s.present(path)? {
        return reject(cat2("Source path does not exist: ", shown_path.as_str()));
    }
    let found = is_subvolume(s, path);
    let no = cat2("Source path is not a btrfs subvolume: ", shown_path.as_str());
    judge(found, no.as_str(), "Failed to check btrfs subvolume status: ")?;
    if source.use_snapper && source.snapper_config.is_none() {
        return reject(
            cat2(
                "snapper_config must be set when use_snapper is true for source: ",
                shown_path.as_str(),
            ),
        );
    }
    Ok(())
}

/// Whether the target can be used.
fn validate_target(s: &mut Session, location: &TargetLocation) -> (r: Result<(), Stop>)
    ensures
        drive(validating_target(location.deep_view()), old(s)@) == (final(s)@, shown(r)),
{
    broadcast use group_plan;

    reveal(validating_target);
    match location {
        TargetLocation::Device(_) => Ok(()),
        TargetLocation::MountedPath(p) => {
            let shown_path = quoted(p.as_str());
            if !s.present(p.as_str())? {
                return reject(cat2("Target mounted path does not exist: ", shown_path.as_str()));
            }
            let found = is_btrfs_filesystem(s, p.as_str());
            let no = cat2("Target mounted path is not a btrfs filesystem: ", shown_path.as_str());
            judge(found, no.as_str(), "Failed to check btrfs filesystem status: ")
        },
    }
}

/// Whether the live boot environment can be used.
fn validate_live_boot(s: &mut Session, l: &LiveBootConfig) -> (r: Result<(), Stop>)
    ensures
        drive(validating_live_boot(l.deep_view()), old(s)@) == (final(s)@, shown(r)),
{
    broadcast use group_plan;

    reveal(validating_live_boot);
    match l.validate_esp_path() {
        Err(e) => reject(e.message),
        Ok(_) => match &l.esp_location {
            TargetLocation::Device(_) => Ok(()),
            TargetLocation::MountedPath(p) => {
                if s.present(p.as_str())? {
                    Ok(())
                } else {
                    reject(
                        cat2("ESP mounted path does not exist: ", quoted(p.as_str()).as_str()),
                    )
                }
            },
        },
    }
}

/// Whether an encrypted device can be unlocked.
fn validate_encryption(s: &mut Session, e: &EncryptionConfig) -> (r: Result<(), Stop>)
    ensures
        drive(validating_encryption(e.deep_view()), old(s)@) == (final(s)@, shown(r)),
{
    broadcast use group_plan;

    reveal(validating_encryption);
    match &e.keyfile {
        Some(k) => {
            if s.present(k.as_str())? {
                Ok(())
            } else {
                reject(cat2("Encryption keyfile does not exist: ", quoted(k.as_str()).as_str()))
            }
        },
        None => {
            if e.passphrase_env.is_none() {
                reject(
                    "Encryption configured but neither keyfile nor passphrase_env provided".to_owned(),
                )
            } else {
                Ok(())
            }
        },
    }
}

impl Config {
    /// Whether the configuration can be used.
    pub fn validate(&self, s: &mut Session) -> (r: Result<(), Stop>)
        ensures
            drive(validating(self.deep_view()), old(s)@) == (final(s)@, shown(r)),
    {
        broadcast use group_plan;

        reveal(validating);
        let clean = trim(self.name.as_str());
        if clean.as_str().is_empty() {
            return reject("Configuration name must be non-empty".to_owned());
        }
        if self.sources.len() == 0 {
            return reject("No source configurations provided".to_owned());
        }
        self.validate_sources(s)?;
        validate_target(s, &self.target.location)?;
        if self.target.enable_live_boot && self.live_boot.is_none() {
            return reject("Live boot enabled but live_boot configuration missing".to_owned());
        }
        if let Some(l) = &self.live_boot {
            validate_live_boot(s, l)?;
        }
        if let Some(e) = &self.target.encryption {
            validate_encryption(s, e)?;
        }
        Ok(())
    }

    /// Whether the sources can be used.
    fn validate_sources(&self, s: &mut Session) -> (r: Result<(), Stop>)
        ensures
            drive(validating_sources(self.deep_view().sources, 0), old(s)@) == (
                final(s)@,
                shown(r),
            ),
    {
        broadcast use group_plan;

        let ghost all = self.sources.deep_view();
        let mut i: usize = 0;
        while i < self.sources.len()
            invariant
                i <= self.sources@.len(),
                all == self.sources.deep_view(),
                drive(validating_sources(all, 0), old(s)@) == drive(
                    validating_sources(all, i as int),
                    s@,
                ),
            decreases self.sources@.len() - i,
        {
            broadcast use group_plan;

            assert(all[i as int] == self.sources@[i as int].deep_view());
            validate_source(s, &self.sources[i])?;
            i += 1;
        }
        Ok(())
    }
}

/// A path that passes [`LiveBootConfig::validate_esp_path`] gives a mount point below the
/// root directory.
pub proof fn lemma_mount_point(esp_path: Seq<char>)
    requires
        esp_path_fault(esp_path) is None,
    ensures
        mount_point_of(esp_path).len() > 1,
        mount_point_of(esp_path)[0] == '/',
{
    reveal_strlit("/");
}

}
