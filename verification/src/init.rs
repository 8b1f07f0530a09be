//! Stage-0 init: what the initramfs `/init` does, as a plan.
//!
//! It runs as the first process, before the real system exists, and turns a
//! deployment on the data partition into a working `/Core` root:
//!
//!   1. mount the early virtual filesystems (/proc /sys /dev /run)
//!   2. read the kernel command line (which deployment, which data device)
//!   3. mount the data partition (holds the content-addressed repository)
//!   4. assemble the new root: /sysroot tmpfs, the verity-sealed /Core, and the
//!      writable directories (/Vault /Space /Construct /Transit)
//!   5. switch into it and exec the real init
//!
//! Each of the stages is a list of steps here, and `Boot` goes through them. The
//! caller performs a step and hands the outcome back.

use crate::bootctl::Version;
use crate::deployment::{law_mount_key, mount_key_of, Deployment};
use crate::text;
use vstd::prelude::*;
use vstd::string::*;

verus! {

/// Where the new root is assembled.
pub const SYSROOT: &'static str = "/sysroot";

/// Where the data partition is mounted.
pub const DATA: &'static str = "/run/data";

/// The init to exec where the command line names none.
pub const DEFAULT_INIT: &'static str = "/Core/Bin/rev";

/// The data partition's filesystem where the command line names none.
pub const DEFAULT_DATAFS: &'static str = "btrfs";

// ---- command line ----

/// What the kernel command line asks for.
#[derive(Debug)]
pub struct Cmdline {
    /// Deployment version to boot (e.g. "7.0.12"); selects the composefs image.
    pub deploy: String,
    /// Data partition device holding the repository (e.g. "/dev/sda2").
    pub data: String,
    /// Filesystem type of the data partition.
    pub datafs: String,
    /// Expected verity root hash (signed), if the command line carries it.
    pub verity: Option<String>,
    /// Real init to exec after the switch of roots.
    pub init: String,
}

/// A command line with its texts as sequences of characters.
pub struct CmdlineView {
    pub deploy: Seq<char>,
    pub data: Seq<char>,
    pub datafs: Seq<char>,
    pub verity: Option<Seq<char>>,
    pub init: Seq<char>,
}

impl View for Cmdline {
    type V = CmdlineView;

    open spec fn view(&self) -> CmdlineView {
        CmdlineView {
            deploy: self.deploy@,
            data: self.data@,
            datafs: self.datafs@,
            verity: optional_text(self.verity),
            init: self.init@,
        }
    }
}

#[derive(Clone, Copy, Debug, PartialEq, Eq, Structural)]
pub enum CmdlineError {
    MissingDeploy,
    MissingData,
    BadDeploy,
}

impl CmdlineError {
    /// What the error says to a reader.
    pub open spec fn text(self) -> Seq<char> {
        match self {
            CmdlineError::MissingDeploy => "missing runix.deploy on kernel cmdline"@,
            CmdlineError::MissingData => "missing runix.data on kernel cmdline"@,
            CmdlineError::BadDeploy => "runix.deploy must be MAJOR.MINOR.PATCH"@,
        }
    }

    /// What the error says to a reader.
    pub fn message(&self) -> (r: &'static str)
        ensures
            r@ == self.text(),
            *self == CmdlineError::MissingDeploy ==> r@
                == "missing runix.deploy on kernel cmdline"@,
            *self == CmdlineError::MissingData ==> r@ == "missing runix.data on kernel cmdline"@,
            *self == CmdlineError::BadDeploy ==> r@ == "runix.deploy must be MAJOR.MINOR.PATCH"@,
    {
        match self {
            CmdlineError::MissingDeploy => "missing runix.deploy on kernel cmdline",
            CmdlineError::MissingData => "missing runix.data on kernel cmdline",
            CmdlineError::BadDeploy => "runix.deploy must be MAJOR.MINOR.PATCH",
        }
    }
}

/// The value that a word `key=value` gives to `key`.
pub open spec fn value_in(word: Seq<char>, key: Seq<char>) -> Option<Seq<char>> {
    match text::split_once_at(word, '=') {
        Some((k, v)) => if k == key {
            Some(v)
        } else {
            None
        },
        None => None,
    }
}

/// The value of `key` among the words: that of the last word that sets it.
pub open spec fn setting(words: Seq<Seq<char>>, key: Seq<char>) -> Option<Seq<char>>
    decreases words.len(),
{
    if words.len() == 0 {
        None
    } else {
        match value_in(words.last(), key) {
            Some(v) => Some(v),
            None => setting(words.drop_last(), key),
        }
    }
}

/// The text of an optional string.
pub open spec fn optional_text(s: Option<String>) -> Option<Seq<char>> {
    match s {
        Some(s) => Some(s@),
        None => None,
    }
}

/// `value`, or `default` where there is none.
pub open spec fn or_default(value: Option<Seq<char>>, default: Seq<char>) -> Seq<char> {
    match value {
        Some(v) => v,
        None => default,
    }
}

/// Takes a word into account: remembers its value where it sets `key`.
fn note_setting(slot: &mut Option<String>, k: &str, v: &str, key: &str)
    ensures
        optional_text(*final(slot)) == (if k@ == key@ {
            Some(v@)
        } else {
            optional_text(*old(slot))
        }),
{
    if text::same_text(k, key) {
        *slot = Some(v.to_string());
    }
}

/// What the kernel command line `s` asks for: words `key=value`, of which the
/// last one for a key counts. Other words and other keys are passed over.
pub open spec fn cmdline_in(s: Seq<char>) -> Result<CmdlineView, CmdlineError> {
    let words = text::words(s);
    match (setting(words, "runix.deploy"@), setting(words, "runix.data"@)) {
        (Some(deploy), Some(data)) => Ok(
            CmdlineView {
                deploy,
                data,
                datafs: or_default(setting(words, "runix.datafs"@), DEFAULT_DATAFS@),
                verity: setting(words, "runix.verity"@),
                init: or_default(setting(words, "init"@), DEFAULT_INIT@),
            },
        ),
        (None, _) => Err(CmdlineError::MissingDeploy),
        (_, None) => Err(CmdlineError::MissingData),
    }
}

/// Reads the kernel command line.
pub fn parse_cmdline(s: &str) -> (r: Result<Cmdline, CmdlineError>)
    ensures
        match cmdline_in(s@) {
            Ok(c) => {
                &&& r matches Ok(cmd)
                &&& cmd@ == c
                &&& cmd.deploy@ == c.deploy && cmd.data@ == c.data && cmd.datafs@ == c.datafs
                &&& optional_text(cmd.verity) == c.verity && cmd.init@ == c.init
            },
            Err(e) => r == Err::<Cmdline, CmdlineError>(e),
        },
{
    let tokens = text::split_words(s);
    let ghost words = text::words(s@);
    assert(words == text::texts(tokens@));
    let mut deploy: Option<String> = None;
    let mut data: Option<String> = None;
    let mut datafs: Option<String> = None;
    let mut verity: Option<String> = None;
    let mut init: Option<String> = None;
    let mut i: usize = 0;
    while i < tokens.len()
        invariant
            i <= tokens@.len(),
            words == text::texts(tokens@),
            optional_text(deploy) == setting(words.take(i as int), "runix.deploy"@),
            optional_text(data) == setting(words.take(i as int), "runix.data"@),
            optional_text(datafs) == setting(words.take(i as int), "runix.datafs"@),
            optional_text(verity) == setting(words.take(i as int), "runix.verity"@),
            optional_text(init) == setting(words.take(i as int), "init"@),
        decreases tokens.len() - i,
    {
        proof {
            assert(words.take(i + 1).drop_last() =~= words.take(i as int));
            assert(words.take(i + 1).last() == tokens@[i as int]@);
        }
        match text::split_once(tokens[i].as_str(), '=') {
            Some((k, v)) => {
                note_setting(&mut deploy, k, v, "runix.deploy");
                note_setting(&mut data, k, v, "runix.data");
                note_setting(&mut datafs, k, v, "runix.datafs");
                note_setting(&mut verity, k, v, "runix.verity");
                note_setting(&mut init, k, v, "init");
            },
            None => {},
        }
        i = i + 1;
    }
    assert(words.take(words.len() as int) =~= words);
    let deploy = match deploy {
        Some(deploy) => deploy,
        None => {
            return Err(CmdlineError::MissingDeploy);
        },
    };
    let data = match data {
        Some(data) => data,
        None => {
            return Err(CmdlineError::MissingData);
        },
    };
    let datafs = match datafs {
        Some(datafs) => datafs,
        None => DEFAULT_DATAFS.to_string(),
    };
    let init = match init {
        Some(init) => init,
        None => DEFAULT_INIT.to_string(),
    };
    Ok(Cmdline { deploy, data, datafs, verity, init })
}

/// The deployment version that `s` writes: the first three of its parts between
/// dots, which must be numbers. Parts after the third are passed over.
pub open spec fn deploy_version(s: Seq<char>) -> Option<Version> {
    let parts = text::split_by(s, text::is_char('.'));
    if parts.len() >= 3 {
        match (text::u32_in(parts[0]), text::u32_in(parts[1]), text::u32_in(parts[2])) {
            (Some(major), Some(minor), Some(patch)) => Some(Version { major, minor, patch }),
            _ => None,
        }
    } else {
        None
    }
}

impl Cmdline {
    /// The deployment version parsed into the boot-control version type.
    pub fn version(&self) -> (r: Result<Version, CmdlineError>)
        ensures
            match deploy_version(self.deploy@) {
                Some(v) => r == Ok::<Version, CmdlineError>(v),
                None => r == Err::<Version, CmdlineError>(CmdlineError::BadDeploy),
            },
    {
        let parts = text::split_on(self.deploy.as_str(), '.');
        let ghost split = text::split_by(self.deploy@, text::is_char('.'));
        assert(split == text::texts(parts@));
        assert(split.len() == parts@.len());
        if parts.len() < 3 {
            return Err(CmdlineError::BadDeploy);
        }
        assert(split[0] == parts@[0]@ && split[1] == parts@[1]@ && split[2] == parts@[2]@);
        let major = text::parse_u32(parts[0].as_str());
        let minor = text::parse_u32(parts[1].as_str());
        let patch = text::parse_u32(parts[2].as_str());
        match (major, minor, patch) {
            (Some(major), Some(minor), Some(patch)) => Ok(Version::new(major, minor, patch)),
            _ => Err(CmdlineError::BadDeploy),
        }
    }

    /// The deployment to mount: its version, and its verity hash where the
    /// command line carries one.
    pub fn deployment(&self) -> (r: Result<Deployment, CmdlineError>)
        ensures
            match (r, deploy_version(self.deploy@)) {
                (Ok(d), Some(v)) => d.version == v && d.verity_id@ == or_default(self@.verity, ""@),
                (Err(e), None) => e == CmdlineError::BadDeploy,
                _ => false,
            },
    {
        let version = match self.version() {
            Ok(version) => version,
            Err(e) => {
                return Err(e);
            },
        };
        let verity_id = match &self.verity {
            Some(verity) => verity.clone(),
            None => "".to_string(),
        };
        Ok(Deployment { version, verity_id })
    }

    /// One line for the log.
    pub fn describe(&self) -> (r: String)
        ensures
            r@ == "deploy="@ + self.deploy@ + " data="@ + self.data@ + " datafs="@ + self.datafs@
                + " init="@ + self.init@,
    {
        let mut out = "deploy=".to_string();
        out.append(self.deploy.as_str());
        out.append(" data=");
        out.append(self.data.as_str());
        out.append(" datafs=");
        out.append(self.datafs.as_str());
        out.append(" init=");
        out.append(self.init.as_str());
        out
    }
}

/// A word `key=value` settles the key's value, whatever stood before it.
pub proof fn law_last_setting_wins(words: Seq<Seq<char>>, key: Seq<char>, value: Seq<char>)
    requires
        !key.contains('='),
    ensures
        setting(words.push(key + seq!['='] + value), key) == Some(value),
{
    let word = key + seq!['='] + value;
    let eq = text::is_char('=');
    assert forall|i: int| 0 <= i < key.len() implies !eq(#[trigger] word[i]) by {
        assert(word[i] == key[i]);
    }
    text::lemma_first_index_is(word, eq, key.len() as int);
    assert(word.take(key.len() as int) =~= key);
    assert(word.skip((key.len() + 1) as int) =~= value);
}

/// A word that does not set a key leaves the key's value as it was, wherever the
/// word stands.
pub proof fn law_other_words_are_passed_over(
    words: Seq<Seq<char>>,
    i: int,
    word: Seq<char>,
    key: Seq<char>,
)
    requires
        0 <= i <= words.len(),
        value_in(word, key) is None,
    ensures
        setting(words.insert(i, word), key) == setting(words, key),
    decreases words.len(),
{
    let more = words.insert(i, word);
    if i == words.len() {
        assert(more.drop_last() =~= words);
    } else {
        assert(more.drop_last() =~= words.drop_last().insert(i, word));
        law_other_words_are_passed_over(words.drop_last(), i, word, key);
    }
}

/// The text of a version names that version on the command line.
pub proof fn law_deploy_round_trip(v: Version)
    ensures
        deploy_version(v.text()) == Some(v),
{
    text::lemma_split_dotted(v.major, v.minor, v.patch);
    text::law_decimal_round_trip(v.major);
    text::law_decimal_round_trip(v.minor);
    text::law_decimal_round_trip(v.patch);
}

// ---- stages ----

/// One step of the way to the real system.
#[derive(Debug)]
pub enum Step {
    /// Create a directory and its parents.
    MakeDir(String),
    /// Mount a virtual filesystem.
    Mount { source: String, target: String, fstype: String },
    /// Mount the filesystem of a device.
    MountDevice { device: String, target: String, fstype: String },
    /// Open the repository at this place.
    OpenRepo(String),
    /// Mount the image that is found under this key in the open repository, which
    /// is the `/Core` of this version.
    MountCore { version: Version, key: String, target: String },
    /// Give up: the command line names no deployment.
    Fail(CmdlineError),
    /// Bind a directory to another place, if it is there.
    BindIfPresent { source: String, target: String },
    /// Move a mount into the new root.
    Carry { from: String, to: String },
    /// Move the mount of the working directory onto `/`.
    MoveRoot,
    ChangeDir(String),
    ChangeRoot(String),
    /// Become this program.
    Exec(String),
}

/// A step with its texts as sequences of characters.
pub enum StepView {
    MakeDir(Seq<char>),
    Mount { source: Seq<char>, target: Seq<char>, fstype: Seq<char> },
    MountDevice { device: Seq<char>, target: Seq<char>, fstype: Seq<char> },
    OpenRepo(Seq<char>),
    MountCore { version: Version, key: Seq<char>, target: Seq<char> },
    Fail(CmdlineError),
    BindIfPresent { source: Seq<char>, target: Seq<char> },
    Carry { from: Seq<char>, to: Seq<char> },
    MoveRoot,
    ChangeDir(Seq<char>),
    ChangeRoot(Seq<char>),
    Exec(Seq<char>),
}

impl View for Step {
    type V = StepView;

    open spec fn view(&self) -> StepView {
        match *self {
            Step::MakeDir(path) => StepView::MakeDir(path@),
            Step::Mount { source, target, fstype } => StepView::Mount {
                source: source@,
                target: target@,
                fstype: fstype@,
            },
            Step::MountDevice { device, target, fstype } => StepView::MountDevice {
                device: device@,
                target: target@,
                fstype: fstype@,
            },
            Step::OpenRepo(path) => StepView::OpenRepo(path@),
            Step::MountCore { version, key, target } => StepView::MountCore {
                version,
                key: key@,
                target: target@,
            },
            Step::Fail(e) => StepView::Fail(e),
            Step::BindIfPresent { source, target } => StepView::BindIfPresent {
                source: source@,
                target: target@,
            },
            Step::Carry { from, to } => StepView::Carry { from: from@, to: to@ },
            Step::MoveRoot => StepView::MoveRoot,
            Step::ChangeDir(path) => StepView::ChangeDir(path@),
            Step::ChangeRoot(path) => StepView::ChangeRoot(path@),
            Step::Exec(path) => StepView::Exec(path@),
        }
    }
}

/// A list of steps with their texts as sequences of characters.
pub open spec fn steps(v: Seq<Step>) -> Seq<StepView> {
    v.map_values(|s: Step| s@)
}

impl StepView {
    /// What is said of the step when it fails.
    pub open spec fn text(self) -> Seq<char> {
        match self {
            StepView::MakeDir(path) => "mkdir "@ + path,
            StepView::Mount { source, target, fstype } => "mount "@ + fstype + " at "@ + target,
            StepView::MountDevice { device, target, fstype } => "mount "@ + device + " ("@ + fstype
                + ") at "@ + target,
            StepView::OpenRepo(path) => "opening composefs repository on data partition"@,
            StepView::MountCore { version, key, target } => "mounting composefs /Core"@,
            StepView::Fail(e) => e.text(),
            StepView::BindIfPresent { source, target } => "bind "@ + source + " -> "@ + target,
            StepView::Carry { from, to } => "moving "@ + from + " into "@ + SYSROOT@,
            StepView::MoveRoot => "mount --move /sysroot /"@,
            StepView::ChangeDir(path) => "chdir "@ + path,
            StepView::ChangeRoot(path) => "chroot "@ + path,
            StepView::Exec(path) => "exec "@ + path,
        }
    }
}

/// Two texts, joined.
fn joined(a: &str, b: &str) -> (r: String)
    ensures
        r@ == a@ + b@,
{
    let mut out = a.to_string();
    out.append(b);
    out
}

impl Step {
    /// What is said of the step when it fails.
    pub fn describe(&self) -> (r: String)
        ensures
            r@ == self@.text(),
            match *self {
                Step::MakeDir(path) => r@ == "mkdir "@ + path@,
                Step::Mount { source, target, fstype } => r@ == "mount "@ + fstype@ + " at "@
                    + target@,
                Step::MountDevice { device, target, fstype } => r@ == "mount "@ + device@ + " ("@
                    + fstype@ + ") at "@ + target@,
                Step::OpenRepo(path) => r@ == "opening composefs repository on data partition"@,
                Step::MountCore { version, key, target } => r@ == "mounting composefs /Core"@,
                Step::Fail(e) => r@ == e.text(),
                Step::BindIfPresent { source, target } => r@ == "bind "@ + source@ + " -> "@
                    + target@,
                Step::Carry { from, to } => r@ == "moving "@ + from@ + " into "@ + "/sysroot"@,
                Step::MoveRoot => r@ == "mount --move /sysroot /"@,
                Step::ChangeDir(path) => r@ == "chdir "@ + path@,
                Step::ChangeRoot(path) => r@ == "chroot "@ + path@,
                Step::Exec(path) => r@ == "exec "@ + path@,
            },
    {
        match self {
            Step::MakeDir(path) => joined("mkdir ", path.as_str()),
            Step::Mount { source: _, target, fstype } => {
                let mut out = joined("mount ", fstype.as_str());
                out.append(" at ");
                out.append(target.as_str());
                out
            },
            Step::MountDevice { device, target, fstype } => {
                let mut out = joined("mount ", device.as_str());
                out.append(" (");
                out.append(fstype.as_str());
                out.append(") at ");
                out.append(target.as_str());
                out
            },
            Step::OpenRepo(_) => "opening composefs repository on data partition".to_string(),
            Step::MountCore { version: _, key: _, target: _ } =>
                "mounting composefs /Core".to_string(),
            Step::Fail(e) => e.message().to_string(),
            Step::BindIfPresent { source, target } => {
                let mut out = joined("bind ", source.as_str());
                out.append(" -> ");
                out.append(target.as_str());
                out
            },
            Step::Carry { from, to: _ } => {
                let mut out = joined("moving ", from.as_str());
                out.append(" into ");
                out.append(SYSROOT);
                out
            },
            Step::MoveRoot => "mount --move /sysroot /".to_string(),
            Step::ChangeDir(path) => joined("chdir ", path.as_str()),
            Step::ChangeRoot(path) => joined("chroot ", path.as_str()),
            Step::Exec(path) => joined("exec ", path.as_str()),
        }
    }

    /// Whether a failure of this step ends the boot. A directory that cannot be
    /// bound is done without.
    pub fn is_fatal(&self) -> (r: bool)
        ensures
            r == !(self@ is BindIfPresent),
            r == !(*self is BindIfPresent),
    {
        match self {
            Step::BindIfPresent { source: _, target: _ } => false,
            _ => true,
        }
    }
}

/// The place of `name` in the new root.
pub open spec fn in_sysroot(name: Seq<char>) -> Seq<char> {
    SYSROOT@ + "/"@ + name
}

/// The place of `name` on the data partition.
pub open spec fn on_data(name: Seq<char>) -> Seq<char> {
    DATA@ + "/"@ + name
}

/// The place of `name` in the early root.
pub open spec fn in_root(name: Seq<char>) -> Seq<char> {
    "/"@ + name
}

/// The early virtual filesystems, and where they are mounted.
pub open spec fn early_steps() -> Seq<StepView> {
    seq![
        StepView::MakeDir("/proc"@),
        StepView::MakeDir("/sys"@),
        StepView::MakeDir("/dev"@),
        StepView::MakeDir("/run"@),
        StepView::Mount { source: "proc"@, target: "/proc"@, fstype: "proc"@ },
        StepView::Mount { source: "sysfs"@, target: "/sys"@, fstype: "sysfs"@ },
        StepView::Mount { source: "devtmpfs"@, target: "/dev"@, fstype: "devtmpfs"@ },
        StepView::Mount { source: "tmpfs"@, target: "/run"@, fstype: "tmpfs"@ },
    ]
}

/// The mount of the data partition.
pub open spec fn data_steps(cmd: CmdlineView) -> Seq<StepView> {
    seq![
        StepView::MakeDir(DATA@),
        StepView::MountDevice { device: cmd.data, target: DATA@, fstype: cmd.datafs },
    ]
}

/// The directories of the new root.
pub open spec fn root_dirs() -> Seq<Seq<char>> {
    seq![
        "Core"@,
        "Vault"@,
        "Space"@,
        "Construct"@,
        "Transit"@,
        "proc"@,
        "sys"@,
        "dev"@,
        "run"@,
    ]
}

/// The scratch filesystem of the new root with its directories, and the
/// repository.
pub open spec fn bare_root_steps() -> Seq<StepView> {
    seq![StepView::Mount { source: "tmpfs"@, target: SYSROOT@, fstype: "tmpfs"@ }]
        + root_dirs().map_values(|d: Seq<char>| StepView::MakeDir(in_sysroot(d))) + seq![
        StepView::OpenRepo(on_data("repo"@)),
    ]
}

/// What is mounted in the new root: the sealed `/Core` of `version`, found by its
/// verity hash where one is given, the writable scratch, and the directories that
/// persist on the data partition.
pub open spec fn filled_root_steps(version: Version, verity: Option<Seq<char>>) -> Seq<StepView> {
    seq![
        StepView::MountCore {
            version,
            key: mount_key_of(version, or_default(verity, ""@)),
            target: in_sysroot("Core"@),
        },
        StepView::Mount { source: "tmpfs"@, target: in_sysroot("Transit"@), fstype: "tmpfs"@ },
        StepView::BindIfPresent { source: on_data("Vault"@), target: in_sysroot("Vault"@) },
        StepView::BindIfPresent { source: on_data("Space"@), target: in_sysroot("Space"@) },
        StepView::BindIfPresent { source: on_data("Construct"@), target: in_sysroot("Construct"@) },
    ]
}

/// The assembly of the new root. Where the command line names no deployment, it
/// ends before anything is mounted as `/Core`.
pub open spec fn root_steps(cmd: CmdlineView) -> Seq<StepView> {
    bare_root_steps() + match deploy_version(cmd.deploy) {
        Some(v) => filled_root_steps(v, cmd.verity),
        None => seq![StepView::Fail(CmdlineError::BadDeploy)],
    }
}

/// The early mounts that are carried across into the new root.
pub open spec fn carried_dirs() -> Seq<Seq<char>> {
    seq!["proc"@, "sys"@, "dev"@, "run"@]
}

/// The switch of roots: carry the early mounts across, make the new root `/`,
/// and become the real init.
pub open spec fn switch_steps(cmd: CmdlineView) -> Seq<StepView> {
    carried_dirs().map_values(
        |d: Seq<char>| StepView::Carry { from: in_root(d), to: in_sysroot(d) },
    ) + seq![
        StepView::ChangeDir(SYSROOT@),
        StepView::MoveRoot,
        StepView::ChangeRoot("."@),
        StepView::ChangeDir("/"@),
        StepView::Exec(cmd.init),
    ]
}

/// A step that mounts a virtual filesystem.
fn vfs(source: &str, target: &str, fstype: &str) -> (r: Step)
    ensures
        r@ == (StepView::Mount { source: source@, target: target@, fstype: fstype@ }),
{
    Step::Mount {
        source: source.to_string(),
        target: target.to_string(),
        fstype: fstype.to_string(),
    }
}

/// A step that makes a directory.
fn mkdir(path: &str) -> (r: Step)
    ensures
        r@ == StepView::MakeDir(path@),
{
    Step::MakeDir(path.to_string())
}

/// `base`, a slash, and `name`.
fn path_under(base: &str, name: &str) -> (r: String)
    ensures
        r@ == base@ + "/"@ + name@,
{
    let mut out = joined(base, "/");
    out.append(name);
    out
}

/// A step that binds a directory of the data partition into the new root.
fn bind_data(name: &str) -> (r: Step)
    ensures
        r@ == (StepView::BindIfPresent { source: on_data(name@), target: in_sysroot(name@) }),
{
    Step::BindIfPresent { source: path_under(DATA, name), target: path_under(SYSROOT, name) }
}

/// Mounts the early virtual filesystems.
pub fn early_mounts() -> (r: Vec<Step>)
    ensures
        steps(r@) == early_steps(),
{
    let mut r: Vec<Step> = Vec::new();
    r.push(mkdir("/proc"));
    r.push(mkdir("/sys"));
    r.push(mkdir("/dev"));
    r.push(mkdir("/run"));
    r.push(vfs("proc", "/proc", "proc"));
    r.push(vfs("sysfs", "/sys", "sysfs"));
    r.push(vfs("devtmpfs", "/dev", "devtmpfs"));
    r.push(vfs("tmpfs", "/run", "tmpfs"));
    assert(steps(r@) =~= early_steps());
    r
}

/// Mounts the data partition.
pub fn mount_data(cmd: &Cmdline) -> (r: Vec<Step>)
    ensures
        steps(r@) == data_steps(cmd@),
{
    let mut r: Vec<Step> = Vec::new();
    r.push(mkdir(DATA));
    r.push(
        Step::MountDevice {
            device: cmd.data.clone(),
            target: DATA.to_string(),
            fstype: cmd.datafs.clone(),
        },
    );
    assert(steps(r@) =~= data_steps(cmd@));
    r
}

/// Assembles the new root, with the deployment that the command line names as
/// its `/Core`.
pub fn assemble_root(cmd: &Cmdline) -> (r: Vec<Step>)
    ensures
        steps(r@) == root_steps(cmd@),
{
    let mut r: Vec<Step> = Vec::new();
    r.push(vfs("tmpfs", SYSROOT, "tmpfs"));
    r.push(Step::MakeDir(path_under(SYSROOT, "Core")));
    r.push(Step::MakeDir(path_under(SYSROOT, "Vault")));
    r.push(Step::MakeDir(path_under(SYSROOT, "Space")));
    r.push(Step::MakeDir(path_under(SYSROOT, "Construct")));
    r.push(Step::MakeDir(path_under(SYSROOT, "Transit")));
    r.push(Step::MakeDir(path_under(SYSROOT, "proc")));
    r.push(Step::MakeDir(path_under(SYSROOT, "sys")));
    r.push(Step::MakeDir(path_under(SYSROOT, "dev")));
    r.push(Step::MakeDir(path_under(SYSROOT, "run")));
    r.push(Step::OpenRepo(path_under(DATA, "repo")));
    assert(steps(r@) =~= bare_root_steps());
    let deployment = match cmd.deployment() {
        Ok(deployment) => deployment,
        Err(e) => {
            r.push(Step::Fail(e));
            assert(steps(r@) =~= root_steps(cmd@));
            return r;
        },
    };
    r.push(
        Step::MountCore {
            version: deployment.version,
            key: deployment.mount_key(),
            target: path_under(SYSROOT, "Core"),
        },
    );
    let transit = path_under(SYSROOT, "Transit");
    r.push(vfs("tmpfs", transit.as_str(), "tmpfs"));
    r.push(bind_data("Vault"));
    r.push(bind_data("Space"));
    r.push(bind_data("Construct"));
    assert(steps(r@) =~= root_steps(cmd@));
    r
}

/// A step that carries an early mount into the new root.
fn carry(name: &str) -> (r: Step)
    ensures
        r@ == (StepView::Carry { from: in_root(name@), to: in_sysroot(name@) }),
{
    Step::Carry { from: joined("/", name), to: path_under(SYSROOT, name) }
}

/// Switches into the new root and becomes the real init.
pub fn switch_root_exec(cmd: &Cmdline) -> (r: Vec<Step>)
    ensures
        steps(r@) == switch_steps(cmd@),
{
    let mut r: Vec<Step> = Vec::new();
    r.push(carry("proc"));
    r.push(carry("sys"));
    r.push(carry("dev"));
    r.push(carry("run"));
    r.push(Step::ChangeDir(SYSROOT.to_string()));
    r.push(Step::MoveRoot);
    r.push(Step::ChangeRoot(".".to_string()));
    r.push(Step::ChangeDir("/".to_string()));
    r.push(Step::Exec(cmd.init.clone()));
    assert(steps(r@) =~= switch_steps(cmd@));
    r
}

/// What to log of a bind: nothing where it was made.
pub fn bind_report(source: &str, target: &str, present: bool, failure: Option<&str>) -> (r: Option<
    String,
>)
    ensures
        optional_text(r) == (if !present {
            Some("note: "@ + source@ + " absent, skipping bind"@)
        } else {
            match failure {
                Some(e) => Some(
                    "warn: bind "@ + source@ + " -> "@ + target@ + " failed: "@ + e@,
                ),
                None => None,
            }
        }),
{
    if !present {
        let mut out = joined("note: ", source);
        out.append(" absent, skipping bind");
        return Some(out);
    }
    match failure {
        Some(e) => {
            let mut out = joined("warn: bind ", source);
            out.append(" -> ");
            out.append(target);
            out.append(" failed: ");
            out.append(e);
            Some(out)
        },
        None => None,
    }
}

// ---- the boot, stage by stage ----

/// The stages of a boot, in their order.
#[derive(Clone, Copy, Debug, PartialEq, Eq, Structural)]
pub enum Stage {
    /// The early virtual filesystems.
    Early,
    /// The reading of the kernel command line.
    Cmdline,
    /// The data partition.
    Data,
    /// The assembly of the new root.
    Root,
    /// The switch of roots.
    Switch,
}

impl Stage {
    /// What is said of the stage when it fails.
    pub open spec fn text(self) -> Seq<char> {
        match self {
            Stage::Early => "early virtual filesystem mounts"@,
            Stage::Cmdline => "reading kernel cmdline"@,
            Stage::Data => "mounting data partition"@,
            Stage::Root => "assembling /Core root"@,
            Stage::Switch => "switch_root into the new root"@,
        }
    }

    /// What is said of the stage when it fails.
    pub fn describe(&self) -> (r: &'static str)
        ensures
            r@ == self.text(),
            *self == Stage::Early ==> r@ == "early virtual filesystem mounts"@,
            *self == Stage::Cmdline ==> r@ == "reading kernel cmdline"@,
            *self == Stage::Data ==> r@ == "mounting data partition"@,
            *self == Stage::Root ==> r@ == "assembling /Core root"@,
            *self == Stage::Switch ==> r@ == "switch_root into the new root"@,
    {
        match self {
            Stage::Early => "early virtual filesystem mounts",
            Stage::Cmdline => "reading kernel cmdline",
            Stage::Data => "mounting data partition",
            Stage::Root => "assembling /Core root",
            Stage::Switch => "switch_root into the new root",
        }
    }
}

/// The steps of a stage. Only the first two go without the command line.
pub open spec fn stage_steps(stage: Stage, cmd: Option<CmdlineView>) -> Seq<StepView> {
    match stage {
        Stage::Early => early_steps(),
        Stage::Cmdline => Seq::empty(),
        Stage::Data => data_steps(cmd->0),
        Stage::Root => root_steps(cmd->0),
        Stage::Switch => switch_steps(cmd->0),
    }
}

/// What came of a task.
pub enum Outcome {
    /// The step was performed.
    Done,
    /// The kernel command line was read, and this is it.
    Read(String),
    /// The step or the reading failed, and this is why.
    Failed(String),
}

/// An outcome with its texts as sequences of characters.
pub enum OutcomeView {
    Done,
    Read(Seq<char>),
    Failed(Seq<char>),
}

impl View for Outcome {
    type V = OutcomeView;

    open spec fn view(&self) -> OutcomeView {
        match *self {
            Outcome::Done => OutcomeView::Done,
            Outcome::Read(line) => OutcomeView::Read(line@),
            Outcome::Failed(why) => OutcomeView::Failed(why@),
        }
    }
}

/// What is to be done next.
pub enum Task<'a> {
    /// Perform this step.
    Perform(&'a Step),
    /// Read the kernel command line.
    ReadCmdline,
    /// Say this, and stop.
    Park(&'a str),
}

/// A task with its texts as sequences of characters.
pub enum TaskView {
    Perform(StepView),
    ReadCmdline,
    Park(Seq<char>),
}

impl<'a> View for Task<'a> {
    type V = TaskView;

    open spec fn view(&self) -> TaskView {
        match *self {
            Task::Perform(step) => TaskView::Perform(step@),
            Task::ReadCmdline => TaskView::ReadCmdline,
            Task::Park(why) => TaskView::Park(why@),
        }
    }
}

/// A boot in progress, as a value.
pub struct BootView {
    pub stage: Stage,
    /// The steps of the stage.
    pub steps: Seq<StepView>,
    /// How many of them are behind.
    pub next: nat,
    pub cmd: Option<CmdlineView>,
    /// Why the boot was given up.
    pub failure: Option<Seq<char>>,
}

/// A boot that has not begun.
pub open spec fn boot_start() -> BootView {
    BootView { stage: Stage::Early, steps: early_steps(), next: 0, cmd: None, failure: None }
}

/// What is said of the end of a boot that got past its last step.
pub open spec fn no_exec_text() -> Seq<char> {
    "switch_root returned without exec - unreachable"@
}

impl BootView {
    /// What is to be done in this state.
    pub open spec fn task(self) -> TaskView {
        match self.failure {
            Some(why) => TaskView::Park(why),
            None => if self.stage == Stage::Cmdline {
                TaskView::ReadCmdline
            } else {
                TaskView::Perform(self.steps[self.next as int])
            },
        }
    }

    /// Whether an outcome of this kind can come of the task.
    pub open spec fn awaits(self, o: OutcomeView) -> bool {
        match self.task() {
            TaskView::Perform(_) => !(o is Read),
            TaskView::ReadCmdline => !(o is Done),
            TaskView::Park(_) => false,
        }
    }

    /// The boot given up, in this stage and for this reason.
    pub open spec fn failed(self, why: Seq<char>) -> BootView {
        BootView { failure: Some(self.stage.text() + ": "@ + why), ..self }
    }

    /// The boot at the first step of a stage.
    pub open spec fn entered(self, stage: Stage) -> BootView {
        BootView { stage, steps: stage_steps(stage, self.cmd), next: 0, ..self }
    }

    /// The boot with one more step behind: at the next step, which can be to give
    /// up, or in the next stage.
    pub open spec fn passed(self) -> BootView {
        let next = BootView { next: self.next + 1, ..self };
        if next.next < self.steps.len() {
            match self.steps[next.next as int] {
                StepView::Fail(e) => next.failed(e.text()),
                _ => next,
            }
        } else {
            match self.stage {
                Stage::Early => next.entered(Stage::Cmdline),
                Stage::Data => next.entered(Stage::Root),
                Stage::Root => next.entered(Stage::Switch),
                _ => BootView { failure: Some(no_exec_text()), ..next },
            }
        }
    }

    /// The boot after the outcome of its task. The first step that fails ends it,
    /// unless the step is one that can be done without.
    pub open spec fn after(self, o: OutcomeView) -> BootView {
        match o {
            OutcomeView::Done => self.passed(),
            OutcomeView::Read(line) => match cmdline_in(line) {
                Ok(cmd) => BootView { cmd: Some(cmd), ..self }.entered(Stage::Data),
                Err(e) => self.failed(e.text()),
            },
            OutcomeView::Failed(why) => if self.stage == Stage::Cmdline {
                self.failed("reading /proc/cmdline: "@ + why)
            } else {
                let step = self.steps[self.next as int];
                if step is BindIfPresent {
                    self.passed()
                } else {
                    self.failed(step.text() + ": "@ + why)
                }
            },
        }
    }

    /// What holds of every boot: the steps are those of the stage, the stages
    /// behind the command line have it, and a boot that goes on is at a step that
    /// can be performed.
    pub open spec fn wf(self) -> bool {
        &&& self.steps == stage_steps(self.stage, self.cmd)
        &&& self.cmd is None <==> self.stage == Stage::Early || self.stage == Stage::Cmdline
        &&& self.failure is None && self.stage != Stage::Cmdline ==> self.next < self.steps.len()
            && !(self.steps[self.next as int] is Fail)
    }
}

/// No stage begins with giving up, and only the assembly of the root can end so:
/// it does where the command line names no deployment.
proof fn lemma_stage_steps(stage: Stage, cmd: Option<CmdlineView>, i: int)
    requires
        0 <= i < stage_steps(stage, cmd).len(),
    ensures
        stage_steps(stage, cmd)[i] is Fail <==> stage == Stage::Root && deploy_version(
            cmd->0.deploy,
        ) is None && i == stage_steps(stage, cmd).len() - 1,
        stage_steps(stage, cmd).len() > 1,
{
}

/// A boot. The caller performs its tasks and hands the outcomes back, until the
/// real init has taken over or the boot parks.
pub struct Boot {
    stage: Stage,
    steps: Vec<Step>,
    next: usize,
    cmd: Option<Cmdline>,
    failure: Option<String>,
}

impl View for Boot {
    type V = BootView;

    closed spec fn view(&self) -> BootView {
        BootView {
            stage: self.stage,
            steps: steps(self.steps@),
            next: self.next as nat,
            cmd: match self.cmd {
                Some(cmd) => Some(cmd@),
                None => None,
            },
            failure: optional_text(self.failure),
        }
    }
}

impl Boot {
    /// A boot that has not begun.
    pub fn new() -> (r: Self)
        ensures
            r@ == boot_start(),
            r@.wf(),
    {
        Boot { stage: Stage::Early, steps: early_mounts(), next: 0, cmd: None, failure: None }
    }

    /// What is to be done next.
    pub fn task(&self) -> (r: Task<'_>)
        requires
            self@.wf(),
        ensures
            r@ == self@.task(),
    {
        match &self.failure {
            Some(why) => Task::Park(why.as_str()),
            None => match self.stage {
                Stage::Cmdline => Task::ReadCmdline,
                _ => Task::Perform(&self.steps[self.next]),
            },
        }
    }

    /// The kernel command line, once it was read.
    pub fn cmdline(&self) -> (r: Option<&Cmdline>)
        ensures
            match r {
                Some(cmd) => self@.cmd == Some(cmd@),
                None => self@.cmd is None,
            },
    {
        match &self.cmd {
            Some(cmd) => Some(cmd),
            None => None,
        }
    }

    /// Gives the boot up, in this stage and for this reason.
    fn fail(&mut self, why: &str)
        ensures
            final(self)@ == old(self)@.failed(why@),
    {
        let mut out = joined(self.stage.describe(), ": ");
        out.append(why);
        self.failure = Some(out);
    }

    /// Puts one more step behind.
    fn pass(&mut self)
        requires
            old(self)@.wf(),
            old(self)@.failure is None,
            old(self)@.stage != Stage::Cmdline,
        ensures
            final(self)@ == old(self)@.passed(),
            final(self)@.wf(),
    {
        proof {
            lemma_stage_steps(self.stage, self@.cmd, self.next as int);
        }
        let total = self.steps.len();
        self.next = self.next + 1;
        if self.next < total {
            proof {
                lemma_stage_steps(self.stage, self@.cmd, self.next as int);
                assert(self@.steps[self.next as int] == self.steps@[self.next as int]@);
            }
            let reason: Option<CmdlineError> = match &self.steps[self.next] {
                Step::Fail(e) => Some(*e),
                _ => None,
            };
            if let Some(e) = reason {
                self.fail(e.message());
            }
            return ;
        }
        match (self.stage, &self.cmd) {
            (Stage::Early, _) => {
                self.stage = Stage::Cmdline;
                self.steps = Vec::new();
                self.next = 0;
                assert(self@.steps =~= Seq::<StepView>::empty());
            },
            (Stage::Data, Some(cmd)) => {
                self.steps = assemble_root(cmd);
                self.stage = Stage::Root;
                self.next = 0;
                proof {
                    lemma_stage_steps(Stage::Root, self@.cmd, 0);
                }
            },
            (Stage::Root, Some(cmd)) => {
                self.steps = switch_root_exec(cmd);
                self.stage = Stage::Switch;
                self.next = 0;
                proof {
                    lemma_stage_steps(Stage::Switch, self@.cmd, 0);
                }
            },
            _ => {
                self.failure = Some(
                    "switch_root returned without exec - unreachable".to_string(),
                );
            },
        }
    }

    /// Takes the outcome of the task in.
    pub fn advance(&mut self, outcome: Outcome)
        requires
            old(self)@.wf(),
            old(self)@.awaits(outcome@),
        ensures
            final(self)@ == old(self)@.after(outcome@),
            final(self)@.wf(),
    {
        match outcome {
            Outcome::Done => self.pass(),
            Outcome::Read(line) => {
                match parse_cmdline(line.as_str()) {
                    Ok(cmd) => {
                        self.steps = mount_data(&cmd);
                        self.stage = Stage::Data;
                        self.next = 0;
                        self.cmd = Some(cmd);
                        proof {
                            lemma_stage_steps(Stage::Data, self@.cmd, 0);
                        }
                    },
                    Err(e) => self.fail(e.message()),
                }
            },
            Outcome::Failed(why) => {
                if self.stage == Stage::Cmdline {
                    let text = joined("reading /proc/cmdline: ", why.as_str());
                    self.fail(text.as_str());
                } else {
                    assert(self@.steps[self.next as int] == self.steps@[self.next as int]@);
                    if self.steps[self.next].is_fatal() {
                        let mut text = self.steps[self.next].describe();
                        text.append(": ");
                        text.append(why.as_str());
                        self.fail(text.as_str());
                    } else {
                        self.pass();
                    }
                }
            },
        }
    }
}

// ---- what holds of the whole way ----

/// All steps, from the first mount to the real init. Where the command line names
/// no deployment, they end in giving up.
pub open spec fn boot_steps(cmd: CmdlineView) -> Seq<StepView> {
    early_steps() + data_steps(cmd) + root_steps(cmd) + match deploy_version(cmd.deploy) {
        Some(_) => switch_steps(cmd),
        None => Seq::empty(),
    }
}

/// Where a step mounts something.
pub open spec fn mount_point(s: StepView) -> Option<Seq<char>> {
    match s {
        StepView::Mount { source, target, fstype } => Some(target),
        StepView::MountDevice { device, target, fstype } => Some(target),
        StepView::MountCore { version, key, target } => Some(target),
        StepView::BindIfPresent { source, target } => Some(target),
        StepView::Carry { from, to } => Some(to),
        _ => None,
    }
}

/// Every place that is mounted on was made before, but for the place of the new
/// root, which the initramfs brings along.
pub proof fn law_mount_points_are_made(cmd: CmdlineView, i: int)
    requires
        0 <= i < boot_steps(cmd).len(),
        mount_point(boot_steps(cmd)[i]) is Some,
        mount_point(boot_steps(cmd)[i]) != Some(SYSROOT@),
    ensures
        exists|j: int|
            0 <= j < i && #[trigger] boot_steps(cmd)[j] == StepView::MakeDir(
                mount_point(boot_steps(cmd)[i])->0,
            ),
{
    let b = boot_steps(cmd);
    let j = if i < 8 {
        i - 4
    } else if i == 9 {
        8
    } else if i == 21 {
        11
    } else if i == 22 {
        15
    } else if i < 26 {
        i - 11
    } else {
        i - 10
    };
    assert(0 <= j < i && b[j] == StepView::MakeDir(mount_point(b[i])->0));
}

/// Every virtual filesystem that is mounted early is carried to the same place
/// in the new root.
pub proof fn law_early_mounts_are_carried(cmd: CmdlineView, i: int)
    requires
        0 <= i < early_steps().len(),
        early_steps()[i] is Mount,
    ensures
        switch_steps(cmd).contains(
            StepView::Carry {
                from: early_steps()[i]->Mount_target,
                to: SYSROOT@ + early_steps()[i]->Mount_target,
            },
        ),
{
    reveal_strlit("/");
    reveal_strlit("proc");
    reveal_strlit("sys");
    reveal_strlit("dev");
    reveal_strlit("run");
    reveal_strlit("/proc");
    reveal_strlit("/sys");
    reveal_strlit("/dev");
    reveal_strlit("/run");
    let name = carried_dirs()[i - 4];
    assert(early_steps()[i]->Mount_target =~= in_root(name));
    assert(in_sysroot(name) =~= SYSROOT@ + in_root(name));
    assert(switch_steps(cmd)[i - 4] == (StepView::Carry {
        from: in_root(name),
        to: in_sysroot(name),
    }));
}

/// What is mounted as `/Core` is the image of the deployment that the command
/// line names, out of the repository on the data partition. The partition is
/// mounted before, and the repository opened. Nothing is mounted as `/Core` where
/// the command line names no deployment.
pub proof fn law_core_is_the_named_deployment(cmd: CmdlineView, i: int)
    requires
        0 <= i < boot_steps(cmd).len(),
        boot_steps(cmd)[i] is MountCore,
    ensures
        deploy_version(cmd.deploy) is Some,
        boot_steps(cmd)[i] == (StepView::MountCore {
            version: deploy_version(cmd.deploy)->0,
            key: mount_key_of(deploy_version(cmd.deploy)->0, or_default(cmd.verity, ""@)),
            target: in_sysroot("Core"@),
        }),
        exists|j: int, k: int|
            0 <= j < k < i && #[trigger] boot_steps(cmd)[j] == (StepView::MountDevice {
                device: cmd.data,
                target: DATA@,
                fstype: cmd.datafs,
            }) && #[trigger] boot_steps(cmd)[k] == StepView::OpenRepo(on_data("repo"@)),
{
    assert(boot_steps(cmd)[9] == data_steps(cmd)[1]);
    assert(boot_steps(cmd)[20] == StepView::OpenRepo(on_data("repo"@)));
}

/// The real init is started at the very end, and nothing else is; it is started
/// where the command line names a deployment, and not otherwise.
pub proof fn law_init_is_last(cmd: CmdlineView, i: int)
    requires
        0 <= i < boot_steps(cmd).len(),
    ensures
        boot_steps(cmd)[i] is Exec <==> deploy_version(cmd.deploy) is Some && i == boot_steps(
            cmd,
        ).len() - 1,
        boot_steps(cmd).last() == (match deploy_version(cmd.deploy) {
            Some(_) => StepView::Exec(cmd.init),
            None => StepView::Fail(CmdlineError::BadDeploy),
        }),
{
}

/// The boot after a row of outcomes.
pub open spec fn boot_run(outcomes: Seq<OutcomeView>) -> BootView
    decreases outcomes.len(),
{
    if outcomes.len() == 0 {
        boot_start()
    } else {
        boot_run(outcomes.drop_last()).after(outcomes.last())
    }
}

/// Whether each outcome is one that the boot waits for when it comes.
pub open spec fn is_boot_trace(outcomes: Seq<OutcomeView>) -> bool
    decreases outcomes.len(),
{
    outcomes.len() > 0 ==> {
        &&& is_boot_trace(outcomes.drop_last())
        &&& boot_run(outcomes.drop_last()).awaits(outcomes.last())
    }
}

/// The steps that were performed, or tried, in the course of the outcomes.
pub open spec fn performed(outcomes: Seq<OutcomeView>) -> Seq<StepView>
    decreases outcomes.len(),
{
    if outcomes.len() == 0 {
        Seq::empty()
    } else {
        let before = outcomes.drop_last();
        match boot_run(before).task() {
            TaskView::Perform(step) => performed(before).push(step),
            _ => performed(before),
        }
    }
}

/// The steps of the stages before this one.
spec fn steps_before(stage: Stage, cmd: Option<CmdlineView>) -> Seq<StepView> {
    match stage {
        Stage::Early => Seq::empty(),
        Stage::Cmdline | Stage::Data => early_steps(),
        Stage::Root => early_steps() + data_steps(cmd->0),
        Stage::Switch => early_steps() + data_steps(cmd->0) + root_steps(cmd->0),
    }
}

/// Whether `cmd` can be the command line of the boot.
pub open spec fn is_cmdline_of(s: BootView, cmd: CmdlineView) -> bool {
    s.cmd is None || s.cmd == Some(cmd)
}

/// Where a boot is: the steps behind it are those of the earlier stages and the
/// first ones of its own. A boot that was given up has tried one more, or not.
spec fn is_placed(outcomes: Seq<OutcomeView>) -> bool {
    let s = boot_run(outcomes);
    let behind = steps_before(s.stage, s.cmd);
    &&& s.wf()
    &&& s.next <= s.steps.len()
    &&& s.stage == Stage::Switch ==> deploy_version(s.cmd->0.deploy) is Some
    &&& performed(outcomes) == behind + s.steps.take(s.next as int) || (s.failure is Some && s.next
        < s.steps.len() && performed(outcomes) == behind + s.steps.take((s.next + 1) as int))
    &&& s.failure is None ==> performed(outcomes) == behind + s.steps.take(s.next as int)
}

/// Every boot is in its place.
proof fn lemma_placed(outcomes: Seq<OutcomeView>)
    requires
        is_boot_trace(outcomes),
    ensures
        is_placed(outcomes),
    decreases outcomes.len(),
{
    if outcomes.len() == 0 {
        assert(performed(outcomes) =~= steps_before(Stage::Early, None) + early_steps().take(0));
        lemma_stage_steps(Stage::Early, None, 0);
    } else {
        let before = outcomes.drop_last();
        lemma_placed(before);
        let s = boot_run(before);
        let t = boot_run(outcomes);
        let behind = steps_before(s.stage, s.cmd);
        if s.stage == Stage::Cmdline {
            assert(behind + s.steps.take(s.next as int) =~= early_steps());
            match outcomes.last() {
                OutcomeView::Read(line) => {
                    match cmdline_in(line) {
                        Ok(cmd) => {
                            lemma_stage_steps(Stage::Data, t.cmd, 0);
                            assert(early_steps() + t.steps.take(0) =~= early_steps());
                        },
                        Err(_) => {},
                    }
                },
                _ => {},
            }
        } else {
            let n = s.next as int;
            lemma_stage_steps(s.stage, s.cmd, n);
            assert(s.steps.take(n).push(s.steps[n]) =~= s.steps.take(n + 1));
            assert((behind + s.steps.take(n)).push(s.steps[n]) =~= behind + s.steps.take(n + 1));
            if n + 1 < s.steps.len() {
                lemma_stage_steps(s.stage, s.cmd, n + 1);
            } else {
                assert(s.steps.take(n + 1) =~= s.steps);
                if t.stage != s.stage {
                    assert(t.steps.take(0) =~= Seq::<StepView>::empty());
                    assert(behind + s.steps =~= steps_before(t.stage, t.cmd) + t.steps.take(0));
                    if t.stage != Stage::Cmdline {
                        lemma_stage_steps(t.stage, t.cmd, 0);
                    }
                }
            }
        }
    }
}

/// The steps of one stage, with those of the stages before, begin the whole way.
proof fn lemma_stage_in_way(s: BootView, cmd: CmdlineView, n: int)
    requires
        s.wf(),
        is_cmdline_of(s, cmd),
        s.stage == Stage::Switch ==> deploy_version(cmd.deploy) is Some,
        0 <= n <= s.steps.len(),
    ensures
        (steps_before(s.stage, s.cmd) + s.steps.take(n)).is_prefix_of(boot_steps(cmd)),
{
    let p = steps_before(s.stage, s.cmd) + s.steps.take(n);
    assert(p =~= boot_steps(cmd).subrange(0, p.len() as int));
}

/// A boot performs the steps of the whole way in their order, and skips none.
pub proof fn law_boot_goes_in_order(outcomes: Seq<OutcomeView>, cmd: CmdlineView)
    requires
        is_boot_trace(outcomes),
        is_cmdline_of(boot_run(outcomes), cmd),
    ensures
        performed(outcomes).is_prefix_of(boot_steps(cmd)),
{
    lemma_placed(outcomes);
    let s = boot_run(outcomes);
    lemma_stage_in_way(s, cmd, s.next as int);
    if s.next < s.steps.len() {
        lemma_stage_in_way(s, cmd, (s.next + 1) as int);
    }
}

/// The real init is started only when all the other steps are behind.
pub proof fn law_init_comes_after_all_else(outcomes: Seq<OutcomeView>, path: Seq<char>)
    requires
        is_boot_trace(outcomes),
        boot_run(outcomes).task() == TaskView::Perform(StepView::Exec(path)),
    ensures
        boot_run(outcomes).cmd is Some,
        path == boot_run(outcomes).cmd->0.init,
        performed(outcomes) == boot_steps(boot_run(outcomes).cmd->0).drop_last(),
{
    lemma_placed(outcomes);
    let s = boot_run(outcomes);
    let cmd = s.cmd->0;
    assert(s.stage == Stage::Switch && s.next == 8);
    assert(performed(outcomes) =~= boot_steps(cmd).drop_last());
}

/// A boot stops at the first failure: nothing comes after a step that failed,
/// unless it is one that can be done without, nor after a command line that could
/// not be read. What stopped it is what is said.
pub proof fn law_boot_stops_at_failure(outcomes: Seq<OutcomeView>, why: Seq<char>, o: OutcomeView)
    requires
        is_boot_trace(outcomes),
        boot_run(outcomes).awaits(OutcomeView::Failed(why)),
        boot_run(outcomes).task() matches TaskView::Perform(step) ==> !(step is BindIfPresent),
    ensures
        ({
            let stopped = boot_run(outcomes.push(OutcomeView::Failed(why)));
            &&& stopped.task() == TaskView::Park(
                boot_run(outcomes).stage.text() + ": "@ + (match boot_run(outcomes).task() {
                    TaskView::Perform(step) => step.text() + ": "@ + why,
                    _ => "reading /proc/cmdline: "@ + why,
                }),
            )
            &&& !stopped.awaits(o)
        }),
{
    assert(outcomes.push(OutcomeView::Failed(why)).drop_last() =~= outcomes);
}

/// A directory that cannot be bound changes nothing of how a boot goes on.
pub proof fn law_failed_bind_is_passed_over(s: BootView, why: Seq<char>)
    requires
        s.wf(),
        s.task() matches TaskView::Perform(step) && step is BindIfPresent,
    ensures
        s.after(OutcomeView::Failed(why)) == s.after(OutcomeView::Done),
        s.after(OutcomeView::Done).failure is None,
{
    lemma_stage_steps(s.stage, s.cmd, s.next as int);
    if s.next + 1 < s.steps.len() {
        lemma_stage_steps(s.stage, s.cmd, (s.next + 1) as int);
    }
}

// ---- the plan in plain words ----

/// A step stands for itself: its texts are those of its fields, and a list of
/// steps stands for them one for one.
pub proof fn law_steps_stand_for_themselves(v: Seq<Step>, i: int)
    requires
        0 <= i < v.len(),
    ensures
        steps(v).len() == v.len(),
        steps(v)[i] == v[i]@,
        match v[i] {
            Step::MakeDir(path) => v[i]@ == StepView::MakeDir(path@),
            Step::Mount { source, target, fstype } => v[i]@ == (StepView::Mount {
                source: source@,
                target: target@,
                fstype: fstype@,
            }),
            Step::MountDevice { device, target, fstype } => v[i]@ == (StepView::MountDevice {
                device: device@,
                target: target@,
                fstype: fstype@,
            }),
            Step::OpenRepo(path) => v[i]@ == StepView::OpenRepo(path@),
            Step::MountCore { version, key, target } => v[i]@ == (StepView::MountCore {
                version,
                key: key@,
                target: target@,
            }),
            Step::Fail(e) => v[i]@ == StepView::Fail(e),
            Step::BindIfPresent { source, target } => v[i]@ == (StepView::BindIfPresent {
                source: source@,
                target: target@,
            }),
            Step::Carry { from, to } => v[i]@ == (StepView::Carry { from: from@, to: to@ }),
            Step::MoveRoot => v[i]@ == StepView::MoveRoot,
            Step::ChangeDir(path) => v[i]@ == StepView::ChangeDir(path@),
            Step::ChangeRoot(path) => v[i]@ == StepView::ChangeRoot(path@),
            Step::Exec(path) => v[i]@ == StepView::Exec(path@),
        },
{
}

/// The early virtual filesystems are those at /proc, /sys, /dev and /run, each on
/// a directory of its own.
pub proof fn law_early_filesystems()
    ensures
        early_steps() == seq![
            StepView::MakeDir("/proc"@),
            StepView::MakeDir("/sys"@),
            StepView::MakeDir("/dev"@),
            StepView::MakeDir("/run"@),
            StepView::Mount { source: "proc"@, target: "/proc"@, fstype: "proc"@ },
            StepView::Mount { source: "sysfs"@, target: "/sys"@, fstype: "sysfs"@ },
            StepView::Mount { source: "devtmpfs"@, target: "/dev"@, fstype: "devtmpfs"@ },
            StepView::Mount { source: "tmpfs"@, target: "/run"@, fstype: "tmpfs"@ },
        ],
{
}

/// Places in the new root and on the data partition, written out.
proof fn lemma_places(name: Seq<char>)
    ensures
        in_sysroot(name) == "/sysroot/"@ + name,
        on_data(name) == "/run/data/"@ + name,
        SYSROOT@ == "/sysroot"@,
        DATA@ == "/run/data"@,
{
    reveal_strlit("/");
    reveal_strlit("/sysroot");
    reveal_strlit("/sysroot/");
    reveal_strlit("/run/data");
    reveal_strlit("/run/data/");
    assert(in_sysroot(name) =~= "/sysroot/"@ + name);
    assert(on_data(name) =~= "/run/data/"@ + name);
}

/// The device that the command line names is mounted at /run/data, with the
/// filesystem that it names, once and before anything of it is used.
pub proof fn law_data_device_is_mounted(cmd: CmdlineView, i: int)
    requires
        0 <= i < boot_steps(cmd).len(),
    ensures
        boot_steps(cmd)[i] is MountDevice <==> boot_steps(cmd)[i] == (StepView::MountDevice {
            device: cmd.data,
            target: "/run/data"@,
            fstype: cmd.datafs,
        }) && i == 9,
        boot_steps(cmd)[9] is MountDevice,
        i > 0 && (boot_steps(cmd)[i] is OpenRepo || boot_steps(cmd)[i] is BindIfPresent) ==> i > 9,
{
    lemma_places(Seq::empty());
}

/// Where the command line names a deployment, with or without a verity hash, the
/// directories that persist on the data partition are bound into the new root:
/// after the partition is mounted, and before the roots are switched.
pub proof fn law_persistent_directories_are_bound(cmd: CmdlineView, name: Seq<char>)
    requires
        deploy_version(cmd.deploy) is Some,
        name == "Vault"@ || name == "Space"@ || name == "Construct"@,
    ensures
        exists|i: int, j: int, k: int|
            0 <= i < j < k < boot_steps(cmd).len() && #[trigger] boot_steps(cmd)[i] == (
            StepView::MountDevice {
                device: cmd.data,
                target: "/run/data"@,
                fstype: cmd.datafs,
            }) && #[trigger] boot_steps(cmd)[j] == (StepView::BindIfPresent {
                source: "/run/data/"@ + name,
                target: "/sysroot/"@ + name,
            }) && #[trigger] boot_steps(cmd)[k] == StepView::ChangeDir("/sysroot"@),
{
    lemma_places(name);
    let b = boot_steps(cmd);
    let j: int = if name == "Vault"@ {
        23
    } else if name == "Space"@ {
        24
    } else {
        25
    };
    assert(b[9] == (StepView::MountDevice {
        device: cmd.data,
        target: "/run/data"@,
        fstype: cmd.datafs,
    }));
    assert(b[j] == (StepView::BindIfPresent {
        source: "/run/data/"@ + name,
        target: "/sysroot/"@ + name,
    }));
    assert(b[30] == StepView::ChangeDir("/sysroot"@));
}

/// Where the command line names a deployment, the new root has a writable scratch
/// directory of its own before the roots are switched.
pub proof fn law_scratch_is_mounted(cmd: CmdlineView)
    requires
        deploy_version(cmd.deploy) is Some,
    ensures
        exists|j: int, k: int|
            0 <= j < k < boot_steps(cmd).len() && #[trigger] boot_steps(cmd)[j] == (
            StepView::Mount {
                source: "tmpfs"@,
                target: "/sysroot/"@ + "Transit"@,
                fstype: "tmpfs"@,
            }) && #[trigger] boot_steps(cmd)[k] == StepView::ChangeDir("/sysroot"@),
{
    lemma_places("Transit"@);
    let b = boot_steps(cmd);
    assert(b[22] == (StepView::Mount {
        source: "tmpfs"@,
        target: "/sysroot/"@ + "Transit"@,
        fstype: "tmpfs"@,
    }));
    assert(b[30] == StepView::ChangeDir("/sysroot"@));
}

/// The new root is a scratch filesystem at /sysroot, and each of its directories is
/// made after that and before `/Core` is mounted.
pub proof fn law_root_directories_are_made(cmd: CmdlineView, name: Seq<char>)
    requires
        name == "Core"@ || name == "Vault"@ || name == "Space"@ || name == "Construct"@ || name
            == "Transit"@ || name == "proc"@ || name == "sys"@ || name == "dev"@ || name == "run"@,
    ensures
        boot_steps(cmd).len() > 20,
        boot_steps(cmd)[10] == (StepView::Mount {
            source: "tmpfs"@,
            target: "/sysroot"@,
            fstype: "tmpfs"@,
        }),
        exists|j: int|
            10 < j < 20 && #[trigger] boot_steps(cmd)[j] == StepView::MakeDir("/sysroot/"@ + name),
        boot_steps(cmd)[20] == StepView::OpenRepo("/run/data/"@ + "repo"@),
{
    lemma_places(name);
    lemma_places("repo"@);
    let b = boot_steps(cmd);
    let d = root_dirs();
    let j: int = if name == "Core"@ {
        11
    } else if name == "Vault"@ {
        12
    } else if name == "Space"@ {
        13
    } else if name == "Construct"@ {
        14
    } else if name == "Transit"@ {
        15
    } else if name == "proc"@ {
        16
    } else if name == "sys"@ {
        17
    } else if name == "dev"@ {
        18
    } else {
        19
    };
    assert(d[j - 11] == name);
    assert(b[j] == StepView::MakeDir("/sysroot/"@ + name));
}

/// What is mounted as `/Core`, at /sysroot/Core: the image under the verity hash of
/// the command line, or else under the alias of the version that it names.
pub proof fn law_core_by_hash_or_by_name(cmd: CmdlineView, v: Version)
    requires
        deploy_version(cmd.deploy) == Some(v),
    ensures
        boot_steps(cmd).len() > 21,
        boot_steps(cmd)[21] == (StepView::MountCore {
            version: v,
            key: match cmd.verity {
                Some(hash) => if hash.len() > 0 {
                    hash
                } else {
                    "refs/"@ + ("core-"@ + v.text())
                },
                None => "refs/"@ + ("core-"@ + v.text()),
            },
            target: "/sysroot/"@ + "Core"@,
        }),
{
    lemma_places("Core"@);
    law_mount_key(v, or_default(cmd.verity, ""@));
    reveal_strlit("");
    assert(""@.len() == 0);
}

/// The switch of roots, step by step: the early mounts are carried across, the new
/// root becomes `/`, and the init of the command line takes over.
pub proof fn law_switch_of_roots(cmd: CmdlineView)
    requires
        deploy_version(cmd.deploy) is Some,
    ensures
        boot_steps(cmd).len() == 35,
        boot_steps(cmd).subrange(26, 35) == seq![
            StepView::Carry { from: "/proc"@, to: "/sysroot/"@ + "proc"@ },
            StepView::Carry { from: "/sys"@, to: "/sysroot/"@ + "sys"@ },
            StepView::Carry { from: "/dev"@, to: "/sysroot/"@ + "dev"@ },
            StepView::Carry { from: "/run"@, to: "/sysroot/"@ + "run"@ },
            StepView::ChangeDir("/sysroot"@),
            StepView::MoveRoot,
            StepView::ChangeRoot("."@),
            StepView::ChangeDir("/"@),
            StepView::Exec(cmd.init),
        ],
{
    lemma_places("proc"@);
    lemma_places("sys"@);
    lemma_places("dev"@);
    lemma_places("run"@);
    reveal_strlit("/");
    reveal_strlit("proc");
    reveal_strlit("sys");
    reveal_strlit("dev");
    reveal_strlit("run");
    reveal_strlit("/proc");
    reveal_strlit("/sys");
    reveal_strlit("/dev");
    reveal_strlit("/run");
    assert("/"@ + "proc"@ =~= "/proc"@);
    assert("/"@ + "sys"@ =~= "/sys"@);
    assert("/"@ + "dev"@ =~= "/dev"@);
    assert("/"@ + "run"@ =~= "/run"@);
    assert(boot_steps(cmd).subrange(26, 35) =~= switch_steps(cmd));
}

/// The first three parts of a deployment's name are its version, and must be
/// numbers; what comes behind a third dot does not matter.
pub proof fn law_deploy_version_is_three_numbers(
    x: Seq<char>,
    y: Seq<char>,
    z: Seq<char>,
    rest: Seq<char>,
    v: Version,
)
    requires
        !x.contains('.'),
        !y.contains('.'),
        !z.contains('.'),
    ensures
        deploy_version(x + seq!['.'] + y + seq!['.'] + z) == Some(v) <==> text::u32_in(x) == Some(
            v.major,
        ) && text::u32_in(y) == Some(v.minor) && text::u32_in(z) == Some(v.patch),
        deploy_version(x + seq!['.'] + y + seq!['.'] + z + seq!['.'] + rest) == deploy_version(
            x + seq!['.'] + y + seq!['.'] + z,
        ),
        deploy_version(x) is None,
        deploy_version(x + seq!['.'] + y) is None,
{
    text::lemma_split_none(x, '.');
    text::lemma_split_none(y, '.');
    text::lemma_split_none(z, '.');
    text::lemma_split_first(x, y, '.');
    text::lemma_split_first(y, z, '.');
    text::lemma_split_first(x, y + seq!['.'] + z, '.');
    assert(x + seq!['.'] + (y + seq!['.'] + z) =~= x + seq!['.'] + y + seq!['.'] + z);
    assert(seq![x] + (seq![y] + seq![z]) =~= seq![x, y, z]);
    assert(seq![x] + seq![y] =~= seq![x, y]);
    let t = z + seq!['.'] + rest;
    let u = y + seq!['.'] + t;
    text::lemma_split_first(z, rest, '.');
    text::lemma_split_first(y, t, '.');
    text::lemma_split_first(x, u, '.');
    text::law_split_joins_again(rest, '.');
    assert(x + seq!['.'] + u =~= x + seq!['.'] + y + seq!['.'] + z + seq!['.'] + rest);
}

/// Whether some word begins with `key` and an equals sign.
pub open spec fn is_named(words: Seq<Seq<char>>, key: Seq<char>) -> bool {
    exists|i: int| 0 <= i < words.len() && (key + seq!['=']).is_prefix_of(#[trigger] words[i])
}

/// Whether the last word that begins with `key` and an equals sign goes on with
/// `value`.
pub open spec fn is_set(words: Seq<Seq<char>>, key: Seq<char>, value: Seq<char>) -> bool {
    exists|i: int|
        0 <= i < words.len() && #[trigger] words[i] == key + seq!['='] + value && forall|j: int|
            i < j < words.len() ==> !(key + seq!['=']).is_prefix_of(#[trigger] words[j])
}

/// The value of a key is what the last word that names it says, and a key has none
/// exactly if no word names it.
pub proof fn law_setting_is_the_last_word(words: Seq<Seq<char>>, key: Seq<char>, value: Seq<char>)
    requires
        !key.contains('='),
    ensures
        setting(words, key) == Some(value) ==> is_set(words, key, value),
        setting(words, key) is None <==> !is_named(words, key),
    decreases words.len(),
{
    if words.len() > 0 {
        let w = words.last();
        let n = words.len() - 1;
        let rest = words.drop_last();
        let head = key + seq!['='];
        law_setting_is_the_last_word(rest, key, value);
        lemma_value_in(w, key);
        if value_in(w, key) is Some {
            assert(head.is_prefix_of(words[n]));
            if setting(words, key) == Some(value) {
                assert(words[n] == key + seq!['='] + value);
            }
        } else {
            if setting(words, key) == Some(value) {
                let i = choose|i: int|
                    0 <= i < rest.len() && #[trigger] rest[i] == key + seq!['='] + value && forall|
                        j: int,
                    |
                        i < j < rest.len() ==> !head.is_prefix_of(#[trigger] rest[j]);
                assert(words[i] == rest[i]);
                assert forall|j: int| i < j < words.len() implies !head.is_prefix_of(
                    #[trigger] words[j],
                ) by {
                    if j < n {
                        assert(words[j] == rest[j]);
                    }
                }
            }
            if is_named(rest, key) {
                let i = choose|i: int|
                    0 <= i < rest.len() && head.is_prefix_of(#[trigger] rest[i]);
                assert(head.is_prefix_of(words[i]));
            }
            if is_named(words, key) {
                let i = choose|i: int|
                    0 <= i < words.len() && head.is_prefix_of(#[trigger] words[i]);
                assert(i < n);
                assert(head.is_prefix_of(rest[i]));
            }
        }
    }
}

/// A word sets a key exactly if it begins with the key and an equals sign, and to
/// what comes behind.
proof fn lemma_value_in(word: Seq<char>, key: Seq<char>)
    requires
        !key.contains('='),
    ensures
        value_in(word, key) is Some <==> (key + seq!['=']).is_prefix_of(word),
        value_in(word, key) matches Some(v) ==> word == key + seq!['='] + v,
{
    let head = key + seq!['='];
    let eq = text::is_char('=');
    text::lemma_first_index(word, eq);
    if head.is_prefix_of(word) {
        let v = word.skip(head.len() as int);
        assert(word =~= key + seq!['='] + v) by {
            assert(word.subrange(0, head.len() as int) == head);
            assert forall|i: int| 0 <= i < head.len() implies word[i] == head[i] by {
                assert(word.subrange(0, head.len() as int)[i] == word[i]);
            }
        }
        text::law_split_once(key, '=', v);
    }
    if value_in(word, key) is Some {
        let n = text::first_index(word, eq);
        let v = word.skip(n + 1);
        assert(word =~= word.take(n) + seq!['='] + v);
        assert(head =~= word.subrange(0, head.len() as int));
    }
}

/// What is read from the command line: for each key the last word that names it
/// counts. The deployment and the data device have to be named; the filesystem is
/// btrfs and the init /Core/Bin/rev unless they are.
pub proof fn law_command_line(s: Seq<char>)
    ensures
        ({
            let w = text::words(s);
            match cmdline_in(s) {
                Ok(c) => {
                    &&& is_set(w, "runix.deploy"@, c.deploy)
                    &&& is_set(w, "runix.data"@, c.data)
                    &&& is_set(w, "runix.datafs"@, c.datafs) || !is_named(w, "runix.datafs"@)
                        && c.datafs == "btrfs"@
                    &&& c.verity is None <==> !is_named(w, "runix.verity"@)
                    &&& c.verity matches Some(hash) ==> is_set(w, "runix.verity"@, hash)
                    &&& is_set(w, "init"@, c.init) || !is_named(w, "init"@) && c.init
                        == "/Core/Bin/rev"@
                },
                Err(CmdlineError::MissingDeploy) => !is_named(w, "runix.deploy"@),
                Err(CmdlineError::MissingData) => is_named(w, "runix.deploy"@) && !is_named(
                    w,
                    "runix.data"@,
                ),
                Err(CmdlineError::BadDeploy) => false,
            }
        }),
        cmdline_in(s) is Ok <==> is_named(text::words(s), "runix.deploy"@) && is_named(
            text::words(s),
            "runix.data"@,
        ),
{
    let w = text::words(s);
    reveal_strlit("runix.deploy");
    reveal_strlit("runix.data");
    reveal_strlit("runix.datafs");
    reveal_strlit("runix.verity");
    reveal_strlit("init");
    let none = Seq::<char>::empty();
    law_setting_is_the_last_word(w, "runix.deploy"@, or_default(setting(w, "runix.deploy"@), none));
    law_setting_is_the_last_word(w, "runix.data"@, or_default(setting(w, "runix.data"@), none));
    law_setting_is_the_last_word(w, "runix.datafs"@, or_default(setting(w, "runix.datafs"@), none));
    law_setting_is_the_last_word(w, "runix.verity"@, or_default(setting(w, "runix.verity"@), none));
    law_setting_is_the_last_word(w, "init"@, or_default(setting(w, "init"@), none));
}

/// A step that was done brings the next one, or the next stage. Only two things
/// end a boot without a failure: a deployment that has no version, which is said
/// before anything is mounted as `/Core`, and an init that gave control back.
pub proof fn law_boot_goes_on(s: BootView)
    requires
        s.wf(),
        s.task() is Perform,
    ensures
        ({
            let t = s.after(OutcomeView::Done);
            let last = s.next + 1 == s.steps.len();
            &&& t.cmd == s.cmd
            &&& !last ==> t.stage == s.stage && t.next == s.next + 1
            &&& last && s.stage == Stage::Early ==> t.task() == TaskView::ReadCmdline
            &&& last && s.stage == Stage::Data ==> t.stage == Stage::Root && t.next == 0
            &&& last && s.stage == Stage::Root ==> t.stage == Stage::Switch && t.next == 0
            &&& t.failure is Some <==> {
                ||| last && s.stage == Stage::Switch
                ||| s.stage == Stage::Root && deploy_version(s.cmd->0.deploy) is None && s.next + 2
                    == s.steps.len()
            }
            &&& last && s.stage == Stage::Switch ==> t.failure == Some(
                "switch_root returned without exec - unreachable"@,
            )
            &&& !last && t.failure is Some ==> t.failure == Some(
                "assembling /Core root"@ + ": "@ + "runix.deploy must be MAJOR.MINOR.PATCH"@,
            )
        }),
{
    lemma_stage_steps(s.stage, s.cmd, s.next as int);
    if s.next + 1 < s.steps.len() {
        lemma_stage_steps(s.stage, s.cmd, (s.next + 1) as int);
    }
}

/// A boot goes on from the command line exactly if that names a deployment and a
/// data device, and keeps what it says; otherwise what is missing is said.
pub proof fn law_boot_reads_the_command_line(s: BootView, line: Seq<char>)
    requires
        s.wf(),
        s.task() == TaskView::ReadCmdline,
    ensures
        ({
            let t = s.after(OutcomeView::Read(line));
            match cmdline_in(line) {
                Ok(c) => t.failure is None && t.cmd == Some(c) && t.stage == Stage::Data && t.next
                    == 0,
                Err(CmdlineError::MissingDeploy) => t.failure == Some(
                    "reading kernel cmdline"@ + ": "@ + "missing runix.deploy on kernel cmdline"@,
                ),
                Err(CmdlineError::MissingData) => t.failure == Some(
                    "reading kernel cmdline"@ + ": "@ + "missing runix.data on kernel cmdline"@,
                ),
                Err(CmdlineError::BadDeploy) => true,
            }
        }),
{
}

/// A boot begins with the early virtual filesystems.
pub proof fn law_boot_begins_early()
    ensures
        boot_start().task() == TaskView::Perform(StepView::MakeDir("/proc"@)),
        boot_start().stage == Stage::Early,
        boot_start().next == 0,
        boot_start().cmd is None,
        boot_start().failure is None,
{
}

/// A boot takes the outcome of its task, whatever the outcome is; when it is given
/// up it takes none.
pub proof fn law_boot_takes_any_outcome(s: BootView, line: Seq<char>, why: Seq<char>)
    ensures
        s.awaits(OutcomeView::Done) <==> s.failure is None && s.stage != Stage::Cmdline,
        s.awaits(OutcomeView::Read(line)) <==> s.failure is None && s.stage == Stage::Cmdline,
        s.awaits(OutcomeView::Failed(why)) <==> s.failure is None,
{
}

/// Outcomes, tasks and command lines stand for themselves, with their texts.
pub proof fn law_outcomes_and_tasks_stand_for_themselves<'a>(
    o: Outcome,
    t: Task<'a>,
    cmd: Cmdline,
)
    ensures
        match o {
            Outcome::Done => o@ == OutcomeView::Done,
            Outcome::Read(line) => o@ == OutcomeView::Read(line@),
            Outcome::Failed(why) => o@ == OutcomeView::Failed(why@),
        },
        match t {
            Task::Perform(step) => t@ == TaskView::Perform(step@),
            Task::ReadCmdline => t@ == TaskView::ReadCmdline,
            Task::Park(why) => t@ == TaskView::Park(why@),
        },
        cmd@.deploy == cmd.deploy@ && cmd@.data == cmd.data@ && cmd@.datafs == cmd.datafs@
            && cmd@.init == cmd.init@,
        cmd.verity is None <==> cmd@.verity is None,
        cmd.verity matches Some(v) ==> cmd@.verity == Some(v@),
{
}

/// What a boot has to do in a state: what it says where it was given up, else to
/// read the command line in that stage, else its next step.
pub proof fn law_boot_task(s: BootView)
    ensures
        s.failure matches Some(why) ==> s.task() == TaskView::Park(why),
        s.failure is None && s.stage == Stage::Cmdline ==> s.task() == TaskView::ReadCmdline,
        s.failure is None && s.stage != Stage::Cmdline ==> s.task() == TaskView::Perform(
            s.steps[s.next as int],
        ),
{
}

} // verus!
