use runix_update::bootctl::Version;
use runix_update::init::{
    assemble_root, bind_report, early_mounts, mount_data, parse_cmdline, switch_root_exec, Boot,
    Cmdline, CmdlineError, Outcome, Stage, Step, Task, DEFAULT_DATAFS, DEFAULT_INIT,
};

#[test]
fn parses_full_cmdline() {
    let c = parse_cmdline(
        "ro quiet runix.deploy=7.0.12 runix.data=/dev/sda2 runix.datafs=f2fs init=/Core/Bin/rev runix.verity=abcd",
    )
    .unwrap();
    assert_eq!(c.deploy, "7.0.12");
    assert_eq!(c.data, "/dev/sda2");
    assert_eq!(c.datafs, "f2fs");
    assert_eq!(c.init, "/Core/Bin/rev");
    assert_eq!(c.verity.as_deref(), Some("abcd"));
    let v = c.version().unwrap();
    assert_eq!((v.major, v.minor, v.patch), (7, 0, 12));
}

#[test]
fn applies_defaults() {
    let c = parse_cmdline("runix.deploy=1.2.3 runix.data=/dev/vda1").unwrap();
    assert_eq!(c.datafs, DEFAULT_DATAFS);
    assert_eq!(c.init, DEFAULT_INIT);
    assert!(c.verity.is_none());
}

#[test]
fn requires_deploy_and_data() {
    assert!(parse_cmdline("runix.data=/dev/sda2").is_err());
    assert!(parse_cmdline("runix.deploy=1.0.0").is_err());
}

#[test]
fn rejects_bad_version() {
    let c = parse_cmdline("runix.deploy=7.x runix.data=/dev/sda2").unwrap();
    assert!(c.version().is_err());
}

#[test]
fn defaults_have_their_values() {
    assert_eq!(DEFAULT_DATAFS, "btrfs");
    assert_eq!(DEFAULT_INIT, "/Core/Bin/rev");
}

#[test]
fn missing_settings_are_told_apart() {
    assert!(matches!(parse_cmdline(""), Err(CmdlineError::MissingDeploy)));
    assert!(matches!(parse_cmdline("runix.data=x"), Err(CmdlineError::MissingDeploy)));
    assert!(matches!(parse_cmdline("runix.deploy=x"), Err(CmdlineError::MissingData)));
    assert_eq!(
        CmdlineError::MissingDeploy.message(),
        "missing runix.deploy on kernel cmdline"
    );
    assert_eq!(CmdlineError::MissingData.message(), "missing runix.data on kernel cmdline");
    assert_eq!(CmdlineError::BadDeploy.message(), "runix.deploy must be MAJOR.MINOR.PATCH");
}

#[test]
fn last_setting_wins() {
    let c = parse_cmdline("runix.deploy=1.0.0 runix.data=/a runix.deploy=2.0.0 runix.data=/b=c\n")
        .unwrap();
    assert_eq!(c.deploy, "2.0.0");
    assert_eq!(c.data, "/b=c");
}

#[test]
fn other_words_are_passed_over() {
    let c = parse_cmdline("runix.deploy xrunix.data=/x runix.deploy=1.0.0 =y runix.data= root=/z")
        .unwrap();
    assert_eq!((c.deploy.as_str(), c.data.as_str()), ("1.0.0", ""));
}

#[test]
fn version_takes_the_first_three_parts() {
    let with = |deploy: &str| Cmdline {
        deploy: deploy.to_string(),
        data: String::new(),
        datafs: String::new(),
        verity: None,
        init: String::new(),
    };
    assert_eq!(with("7.0.12").version(), Ok(Version::new(7, 0, 12)));
    assert_eq!(with("7.0.12.9").version(), Ok(Version::new(7, 0, 12)));
    assert_eq!(with("7.0.12.x").version(), Ok(Version::new(7, 0, 12)));
    for deploy in ["", "7", "7.0", "7.0.", "7..0", "7.0.x", "7.0.12-rc"] {
        assert_eq!(with(deploy).version(), Err(CmdlineError::BadDeploy), "{deploy:?}");
    }
    assert_eq!(with(&Version::new(1, 2, 3).to_text()).version(), Ok(Version::new(1, 2, 3)));
}

#[test]
fn deployment_carries_the_verity_hash() {
    let mut c = parse_cmdline("runix.deploy=7.0.12 runix.data=/d runix.verity=abcd").unwrap();
    let d = c.deployment().unwrap();
    assert_eq!((d.version, d.verity_id.as_str()), (Version::new(7, 0, 12), "abcd"));
    c.verity = None;
    assert_eq!(c.deployment().unwrap().verity_id, "");
    c.deploy = "7".to_string();
    assert!(matches!(c.deployment(), Err(CmdlineError::BadDeploy)));
}

#[test]
fn command_line_is_described() {
    let c = parse_cmdline("runix.deploy=7.0.12 runix.data=/dev/sda2").unwrap();
    assert_eq!(c.describe(), "deploy=7.0.12 data=/dev/sda2 datafs=btrfs init=/Core/Bin/rev");
}

fn lines(steps: &[Step]) -> Vec<String> {
    steps.iter().map(Step::describe).collect()
}

#[test]
fn early_mounts_come_after_their_directories() {
    assert_eq!(
        lines(&early_mounts()),
        vec![
            "mkdir /proc",
            "mkdir /sys",
            "mkdir /dev",
            "mkdir /run",
            "mount proc at /proc",
            "mount sysfs at /sys",
            "mount devtmpfs at /dev",
            "mount tmpfs at /run",
        ]
    );
}

#[test]
fn data_partition_is_mounted() {
    let c = parse_cmdline("runix.deploy=7.0.12 runix.data=/dev/sda2").unwrap();
    assert_eq!(
        lines(&mount_data(&c)),
        vec!["mkdir /run/data", "mount /dev/sda2 (btrfs) at /run/data"]
    );
}

#[test]
fn root_is_assembled() {
    let c = parse_cmdline("runix.deploy=7.0.12 runix.data=/d runix.verity=abcd").unwrap();
    let steps = assemble_root(&c);
    assert_eq!(
        lines(&steps),
        vec![
            "mount tmpfs at /sysroot",
            "mkdir /sysroot/Core",
            "mkdir /sysroot/Vault",
            "mkdir /sysroot/Space",
            "mkdir /sysroot/Construct",
            "mkdir /sysroot/Transit",
            "mkdir /sysroot/proc",
            "mkdir /sysroot/sys",
            "mkdir /sysroot/dev",
            "mkdir /sysroot/run",
            "opening composefs repository on data partition",
            "mounting composefs /Core",
            "mount tmpfs at /sysroot/Transit",
            "bind /run/data/Vault -> /sysroot/Vault",
            "bind /run/data/Space -> /sysroot/Space",
            "bind /run/data/Construct -> /sysroot/Construct",
        ]
    );
    match &steps[10] {
        Step::OpenRepo(path) => assert_eq!(path, "/run/data/repo"),
        other => panic!("{other:?}"),
    }
}

#[test]
fn core_is_the_deployment_of_the_command_line() {
    let core = |line: &str| match assemble_root(&parse_cmdline(line).unwrap()).remove(11) {
        Step::MountCore { version, key, target } => (version, key, target),
        other => panic!("{other:?}"),
    };
    assert_eq!(
        core("runix.deploy=7.0.12 runix.data=/d runix.verity=abcd"),
        (Version::new(7, 0, 12), "abcd".to_string(), "/sysroot/Core".to_string())
    );
    assert_eq!(
        core("runix.deploy=7.0.12 runix.data=/d"),
        (Version::new(7, 0, 12), "refs/core-7.0.12".to_string(), "/sysroot/Core".to_string())
    );
}

#[test]
fn bad_version_ends_the_assembly_before_core() {
    let c = parse_cmdline("runix.deploy=7.x runix.data=/d").unwrap();
    let steps = assemble_root(&c);
    assert_eq!(steps.len(), 12);
    assert!(matches!(steps[11], Step::Fail(CmdlineError::BadDeploy)));
    assert_eq!(steps[11].describe(), "runix.deploy must be MAJOR.MINOR.PATCH");
    assert!(!steps.iter().any(|s| matches!(s, Step::MountCore { .. })));
}

#[test]
fn only_binds_can_be_done_without() {
    let c = parse_cmdline("runix.deploy=7.0.12 runix.data=/d").unwrap();
    for step in early_mounts()
        .into_iter()
        .chain(mount_data(&c))
        .chain(assemble_root(&c))
        .chain(switch_root_exec(&c))
    {
        assert_eq!(step.is_fatal(), !matches!(step, Step::BindIfPresent { .. }), "{step:?}");
    }
    assert!(Step::Fail(CmdlineError::BadDeploy).is_fatal());
}

/// Runs a boot with the given command line. A step fails where its description
/// contains `broken`. Gives what was performed and what was said at the end.
fn boot(line: Option<&str>, broken: &str) -> (Vec<String>, String) {
    let mut boot = Boot::new();
    let mut seen = vec![];
    loop {
        let outcome = match boot.task() {
            Task::Perform(step) => {
                let text = step.describe();
                seen.push(text.clone());
                if !broken.is_empty() && text.contains(broken) {
                    Outcome::Failed("broken".to_string())
                } else {
                    Outcome::Done
                }
            }
            Task::ReadCmdline => match line {
                Some(line) => Outcome::Read(line.to_string()),
                None => Outcome::Failed("gone".to_string()),
            },
            Task::Park(why) => return (seen, why.to_string()),
        };
        boot.advance(outcome);
    }
}

fn whole_way(line: &str) -> Vec<String> {
    let c = parse_cmdline(line).unwrap();
    let mut all = lines(&early_mounts());
    all.extend(lines(&mount_data(&c)));
    all.extend(lines(&assemble_root(&c)));
    all.extend(lines(&switch_root_exec(&c)));
    all
}

const LINE: &str = "runix.deploy=7.0.12 runix.data=/dev/sda2";

#[test]
fn boot_performs_all_steps_in_order() {
    let (seen, why) = boot(Some(LINE), "");
    assert_eq!(seen, whole_way(LINE));
    assert_eq!(why, "switch_root returned without exec - unreachable");
    assert_eq!(seen.last().unwrap(), "exec /Core/Bin/rev");
}

#[test]
fn boot_stops_at_the_first_failure() {
    for (broken, said) in [
        ("mkdir /dev", "early virtual filesystem mounts: mkdir /dev: broken"),
        ("mount /dev/sda2", "mounting data partition: mount /dev/sda2 (btrfs) at /run/data: broken"),
        (
            "opening composefs",
            "assembling /Core root: opening composefs repository on data partition: broken",
        ),
        ("mounting composefs", "assembling /Core root: mounting composefs /Core: broken"),
        ("moving /sys", "switch_root into the new root: moving /sys into /sysroot: broken"),
        ("exec", "switch_root into the new root: exec /Core/Bin/rev: broken"),
    ] {
        let (seen, why) = boot(Some(LINE), broken);
        assert_eq!(why, said);
        assert!(seen.last().unwrap().contains(broken));
        assert_eq!(seen[..], whole_way(LINE)[..seen.len()]);
    }
}

#[test]
fn failed_binds_are_passed_over() {
    let (seen, why) = boot(Some(LINE), "bind ");
    assert_eq!(seen, whole_way(LINE));
    assert_eq!(why, "switch_root returned without exec - unreachable");
}

#[test]
fn command_line_errors_end_the_boot() {
    let (seen, why) = boot(None, "");
    assert_eq!(seen, lines(&early_mounts()));
    assert_eq!(why, "reading kernel cmdline: reading /proc/cmdline: gone");
    let (_, why) = boot(Some("runix.data=/d"), "");
    assert_eq!(why, "reading kernel cmdline: missing runix.deploy on kernel cmdline");
    let (_, why) = boot(Some("runix.deploy=1.0.0"), "");
    assert_eq!(why, "reading kernel cmdline: missing runix.data on kernel cmdline");
    let (seen, why) = boot(Some("runix.deploy=7.x runix.data=/d"), "");
    assert_eq!(why, "assembling /Core root: runix.deploy must be MAJOR.MINOR.PATCH");
    assert_eq!(seen.last().unwrap(), "opening composefs repository on data partition");
}

#[test]
fn boot_knows_its_command_line() {
    let mut boot = Boot::new();
    assert!(boot.cmdline().is_none());
    for _ in 0..8 {
        assert!(matches!(boot.task(), Task::Perform(_)));
        boot.advance(Outcome::Done);
    }
    assert!(matches!(boot.task(), Task::ReadCmdline));
    boot.advance(Outcome::Read(LINE.to_string()));
    assert_eq!(boot.cmdline().unwrap().data, "/dev/sda2");
    assert_eq!(Stage::Cmdline.describe(), "reading kernel cmdline");
}

#[test]
fn roots_are_switched() {
    let c = parse_cmdline("runix.deploy=7.0.12 runix.data=/d init=/sbin/x").unwrap();
    let steps = switch_root_exec(&c);
    assert_eq!(
        lines(&steps),
        vec![
            "moving /proc into /sysroot",
            "moving /sys into /sysroot",
            "moving /dev into /sysroot",
            "moving /run into /sysroot",
            "chdir /sysroot",
            "mount --move /sysroot /",
            "chroot .",
            "chdir /",
            "exec /sbin/x",
        ]
    );
    match &steps[2] {
        Step::Carry { from, to } => {
            assert_eq!((from.as_str(), to.as_str()), ("/dev", "/sysroot/dev"));
        }
        other => panic!("{other:?}"),
    }
}

#[test]
fn every_mount_point_is_made_before() {
    let c = parse_cmdline("runix.deploy=7.0.12 runix.data=/d").unwrap();
    let mut made = vec!["/sysroot".to_string()];
    let mut seen_exec = false;
    for step in early_mounts()
        .into_iter()
        .chain(mount_data(&c))
        .chain(assemble_root(&c))
        .chain(switch_root_exec(&c))
    {
        assert!(!seen_exec);
        match step {
            Step::MakeDir(path) => made.push(path),
            Step::Mount { target, .. }
            | Step::MountDevice { target, .. }
            | Step::MountCore { target, .. }
            | Step::BindIfPresent { target, .. } => assert!(made.contains(&target), "{target}"),
            Step::Carry { from, to } => {
                assert!(made.contains(&from) && made.contains(&to), "{from} {to}");
            }
            Step::Exec(path) => {
                assert_eq!(path, "/Core/Bin/rev");
                seen_exec = true;
            }
            Step::OpenRepo(path) => assert_eq!(path, "/run/data/repo"),
            Step::MoveRoot | Step::ChangeDir(_) | Step::ChangeRoot(_) => {}
            Step::Fail(e) => panic!("{e:?}"),
        }
    }
    assert!(seen_exec);
}

#[test]
fn binds_are_reported() {
    assert_eq!(bind_report("/a", "/b", true, None), None);
    assert_eq!(
        bind_report("/a", "/b", false, None).unwrap(),
        "note: /a absent, skipping bind"
    );
    assert_eq!(
        bind_report("/a", "/b", true, Some("busy")).unwrap(),
        "warn: bind /a -> /b failed: busy"
    );
}
