use runix_update::bootctl::{
    BootControl, Slot, SlotMeta, Version, BLOCK_SIZE, DEFAULT_TRIES, USED_SIZE,
};

fn v(p: u32) -> Version {
    Version::new(26, p, 0)
}

fn meta(priority: u8, tries: u8, successful: bool) -> SlotMeta {
    SlotMeta { version: Some(v(priority as u32)), priority, tries, successful }
}

#[test]
fn happy_path_stage_boot_confirm() {
    let mut bc = BootControl::initial(v(2));
    assert_eq!(bc.inactive(), Slot::B);
    bc.stage(Slot::B, v(3));
    assert_eq!(bc.select(), Some(Slot::B));
    bc.begin_boot(Slot::B);
    assert_eq!(bc.b.tries, DEFAULT_TRIES - 1);
    bc.mark_successful();
    assert!(bc.b.successful);
    assert_eq!(bc.select(), Some(Slot::B));
}

#[test]
fn rollback_when_trial_never_confirmed() {
    let mut bc = BootControl::initial(v(2));
    bc.stage(Slot::B, v(3));
    for _ in 0..DEFAULT_TRIES {
        let s = bc.select().unwrap();
        bc.begin_boot(s);
    }
    assert_eq!(bc.select(), Some(Slot::A));
    assert!(!bc.b.bootable());
}

#[test]
fn confirm_within_tries_keeps_new_slot() {
    let mut bc = BootControl::initial(v(2));
    bc.stage(Slot::B, v(3));
    let s = bc.select().unwrap();
    bc.begin_boot(s);
    bc.mark_successful();
    for _ in 0..5 {
        let s = bc.select().unwrap();
        bc.begin_boot(s);
    }
    assert_eq!(bc.select(), Some(Slot::B));
}

#[test]
fn binary_roundtrip() {
    let mut bc = BootControl::initial(v(2));
    bc.stage(Slot::B, v(3));
    bc.begin_boot(Slot::B);
    let bytes = bc.to_bytes();
    let back = BootControl::from_bytes(&bytes).unwrap();
    assert_eq!(back.current, Slot::B);
    assert_eq!(back.a.version, Some(v(2)));
    assert_eq!(back.b.version, Some(v(3)));
    assert_eq!(back.b.tries, DEFAULT_TRIES - 1);
    assert!(back.a.successful);
    assert!(!back.b.successful);
}

#[test]
fn rejects_bad_magic() {
    assert!(BootControl::from_bytes(&[0u8; BLOCK_SIZE]).is_none());
}

#[test]
fn block_has_the_documented_layout() {
    let mut bc = BootControl::initial(Version::new(1, 0x0203, 0x04050607));
    bc.stage(Slot::B, v(3));
    bc.begin_boot(Slot::B);
    let mut expected = [0u8; BLOCK_SIZE];
    expected[0..6].copy_from_slice(&[b'R', b'B', b'C', b'T', 1, 1]);
    expected[6..22].copy_from_slice(&[1, 0, 0, 0, 3, 2, 0, 0, 7, 6, 5, 4, bc.a.priority, 0, 1, 1]);
    expected[22..38].copy_from_slice(&[26, 0, 0, 0, 3, 0, 0, 0, 0, 0, 0, 0, bc.b.priority, 2, 0, 1]);
    assert_eq!(bc.to_bytes(), expected);
}

#[test]
fn reserved_bytes_are_ignored() {
    let mut bytes = BootControl::initial(v(2)).to_bytes();
    for b in bytes[USED_SIZE..].iter_mut() {
        *b = 0xAA;
    }
    let back = BootControl::from_bytes(&bytes).unwrap();
    assert_eq!(back.a.version, Some(v(2)));
    assert!(back.b.version.is_none());
    assert_eq!(back.current, Slot::A);
}

#[test]
fn short_and_foreign_blocks_are_rejected() {
    let bytes = BootControl::initial(v(2)).to_bytes();
    assert!(BootControl::from_bytes(&bytes[..USED_SIZE]).is_some());
    assert!(BootControl::from_bytes(&bytes[..USED_SIZE - 1]).is_none());
    assert!(BootControl::from_bytes(&[]).is_none());
    let mut other = bytes;
    other[4] = 2;
    assert!(BootControl::from_bytes(&other).is_none());
    let mut third_slot = bytes;
    third_slot[5] = 2;
    assert!(BootControl::from_bytes(&third_slot).is_none());
    let mut longer = bytes.to_vec();
    longer.push(9);
    assert!(BootControl::from_bytes(&longer).is_some());
}

#[test]
fn ties_prefer_the_current_slot() {
    let both = |current| BootControl { current, a: meta(4, 0, true), b: meta(4, 0, true) };
    assert_eq!(both(Slot::A).select(), Some(Slot::A));
    assert_eq!(both(Slot::B).select(), Some(Slot::B));
}

#[test]
fn nothing_is_selected_where_nothing_is_bootable() {
    let bc = BootControl { current: Slot::A, a: meta(4, 0, false), b: meta(0, 3, true) };
    assert_eq!(bc.select(), None);
}

#[test]
fn confirmation_on_the_last_try_commits() {
    for priority in [1, 2, 3, 254, 255] {
        let mut bc = BootControl::initial(v(2));
        bc.a.priority = priority;
        bc.stage(Slot::B, v(3));
        for _ in 0..DEFAULT_TRIES {
            let s = bc.select().unwrap();
            assert_eq!(s, Slot::B);
            bc.begin_boot(s);
        }
        assert_eq!((bc.b.tries, bc.b.priority), (0, 0));
        bc.mark_successful();
        assert_eq!(bc.b.priority, bc.a.priority);
        for _ in 0..5 {
            assert_eq!(bc.select(), Some(Slot::B));
            bc.begin_boot(Slot::B);
        }
    }
}

#[test]
fn confirmation_without_a_rival_gives_priority_one() {
    let mut bc = BootControl { current: Slot::B, a: SlotMeta::default(), b: meta(0, 0, false) };
    bc.mark_successful();
    assert_eq!((bc.b.priority, bc.b.successful), (1, true));
    assert_eq!(bc.select(), Some(Slot::B));
}

#[test]
fn confirmation_beside_an_unbootable_slot_gives_priority_one() {
    for priority in [1, 2, 200, 255] {
        let mut bc =
            BootControl { current: Slot::B, a: meta(priority, 0, false), b: meta(0, 0, false) };
        assert!(!bc.a.bootable());
        bc.mark_successful();
        assert_eq!((bc.b.priority, bc.a.priority), (1, priority));
        assert_eq!(bc.select(), Some(Slot::B));
        let once = bc.to_bytes();
        bc.mark_successful();
        assert_eq!(bc.to_bytes(), once);
        bc.stage(Slot::A, v(3));
        assert_eq!(bc.a.priority, 2);
    }
}

#[test]
fn confirmation_keeps_a_priority_that_is_there() {
    let mut bc = BootControl { current: Slot::B, a: meta(9, 0, true), b: meta(3, 2, false) };
    bc.mark_successful();
    assert_eq!((bc.b.priority, bc.b.tries, bc.b.successful), (3, 2, true));
    assert_eq!(bc.a.priority, 9);
}

#[test]
fn staging_next_to_the_highest_priority_makes_room() {
    let mut bc = BootControl { current: Slot::A, a: meta(255, 0, true), b: SlotMeta::default() };
    let version = bc.a.version;
    bc.stage(Slot::B, v(3));
    assert_eq!((bc.a.priority, bc.b.priority), (254, 255));
    assert_eq!((bc.a.version, bc.a.tries, bc.a.successful), (version, 0, true));
    assert!(bc.b.bootable());
    assert_eq!(bc.select(), Some(Slot::B));
    let mut below = BootControl { current: Slot::A, a: meta(254, 0, true), b: SlotMeta::default() };
    below.stage(Slot::B, v(3));
    assert_eq!((below.a.priority, below.b.priority), (254, 255));
}

#[test]
fn slots_and_versions_have_text() {
    assert_eq!(Slot::A.as_str(), "A");
    assert_eq!(Slot::B.as_str(), "B");
    assert_eq!(Slot::A.other(), Slot::B);
    assert_eq!(Slot::A.other().other(), Slot::A);
    assert_eq!(Version::new(7, 0, 4294967295).to_text(), "7.0.4294967295");
}

#[test]
fn default_slot_is_empty() {
    let m = SlotMeta::default();
    assert!(m.version.is_none() && m.priority == 0 && m.tries == 0 && !m.successful);
    assert!(!m.bootable());
}

#[test]
fn meta_mut_changes_one_slot() {
    let mut bc = BootControl::initial(v(2));
    bc.meta_mut(Slot::B).priority = 9;
    assert_eq!(bc.meta(Slot::B).priority, 9);
    assert_eq!(bc.meta(Slot::A).version, Some(v(2)));
}

#[test]
fn staging_and_booting_leave_the_other_slot_alone() {
    let mut bc = BootControl::initial(v(2));
    let a = bc.to_bytes()[6..22].to_vec();
    bc.stage(Slot::B, v(3));
    assert_eq!(bc.current, Slot::A);
    assert!(bc.a.bootable() && bc.a.successful);
    for _ in 0..5 {
        let s = bc.select().unwrap();
        bc.begin_boot(s);
        assert_eq!(bc.to_bytes()[6..22].to_vec(), a);
        assert!(bc.select().is_some());
    }
}
