use runix_update::bootctl::{BootControl, Slot, SlotMeta, Version};
use runix_update::rignite_sim::{boot_once, describe};

#[test]
fn slots_are_described() {
    let mut bc = BootControl::initial(Version::new(26, 2, 0));
    bc.a.priority = 1;
    bc.stage(Slot::B, Version::new(26, 3, 0));
    assert_eq!(describe(&bc, Slot::A), "slot A [26.2.0] prio=1 good (current)");
    assert_eq!(describe(&bc, Slot::B), "slot B [26.3.0] prio=2 trial, 3 tries left");
    bc.b = SlotMeta::default();
    assert_eq!(describe(&bc, Slot::B), "slot B [empty] prio=0 unbootable");
}

#[test]
fn trial_boots_end_in_rollback() {
    let mut bc = BootControl::initial(Version::new(26, 2, 0));
    bc.stage(Slot::B, Version::new(26, 3, 0));
    assert_eq!(boot_once(&mut bc), Some(Slot::B));
    assert_eq!(boot_once(&mut bc), Some(Slot::B));
    assert_eq!(boot_once(&mut bc), Some(Slot::B));
    assert_eq!(boot_once(&mut bc), Some(Slot::A));
    assert_eq!(bc.current, Slot::A);
    assert_eq!(boot_once(&mut bc), Some(Slot::A));
}

#[test]
fn nothing_changes_where_nothing_boots() {
    let mut bc = BootControl::initial(Version::new(26, 2, 0));
    bc.a = SlotMeta::default();
    let before = bc.to_bytes();
    assert_eq!(boot_once(&mut bc), None);
    assert_eq!(bc.to_bytes(), before);
}
