//! The decisions of the boot simulator: which slot a boot picks, and how a slot
//! is described.

use crate::bootctl::{BootControl, Slot, SlotMeta};
use crate::text;
use vstd::prelude::*;
use vstd::string::*;

verus! {

/// The version of a slot as text, or that it is empty.
pub open spec fn version_text(m: SlotMeta) -> Seq<char> {
    match m.version {
        Some(v) => v.text(),
        None => "empty"@,
    }
}

/// The state of a slot as text.
pub open spec fn state_text(m: SlotMeta) -> Seq<char> {
    if !m.bootable() {
        "unbootable"@
    } else if m.successful {
        "good"@
    } else {
        "trial, "@ + text::decimal_text(m.tries as nat) + " tries left"@
    }
}

/// One line on a slot: its version, priority and state, and whether it is the
/// current one.
pub open spec fn description(bc: BootControl, s: Slot) -> Seq<char> {
    let m = bc.slot(s);
    "slot "@ + (match s {
        Slot::A => "A"@,
        Slot::B => "B"@,
    }) + " ["@ + version_text(m) + "] prio="@ + text::decimal_text(m.priority as nat) + " "@
        + state_text(m) + (if bc.current == s {
        " (current)"@
    } else {
        Seq::<char>::empty()
    })
}

/// One line on a slot: its version, priority and state, and whether it is the
/// current one.
pub fn describe(bc: &BootControl, s: Slot) -> (r: String)
    ensures
        r@ == description(*bc, s),
{
    let m = bc.meta(s);
    let mut out = String::new();
    out.append("slot ");
    out.append(s.as_str());
    out.append(" [");
    match m.version {
        Some(v) => text::push_dotted(&mut out, v.major, v.minor, v.patch),
        None => out.append("empty"),
    }
    out.append("] prio=");
    text::push_decimal(&mut out, m.priority as u64);
    out.append(" ");
    if !m.bootable() {
        out.append("unbootable");
    } else if m.successful {
        out.append("good");
    } else {
        out.append("trial, ");
        text::push_decimal(&mut out, m.tries as u64);
        out.append(" tries left");
    }
    if bc.current == s {
        out.append(" (current)");
    }
    assert(out@ =~= description(*bc, s));
    out
}

/// One boot: selects a slot and accounts for booting it. `None` means that
/// nothing is bootable, and then nothing changes.
pub fn boot_once(bc: &mut BootControl) -> (r: Option<Slot>)
    ensures
        r == old(bc).selected(),
        *final(bc) == old(bc).boot_step(),
        r is None <==> !old(bc).a.bootable() && !old(bc).b.bootable(),
        r is None ==> *final(bc) == *old(bc),
        r matches Some(s) ==> {
            &&& old(bc).slot(s).bootable()
            &&& old(bc).slot(s.other()).bootable() ==> old(bc).slot(s.other()).priority <= old(
                bc,
            ).slot(s).priority
            &&& final(bc).current == s
            &&& final(bc).slot(s).version == old(bc).slot(s).version
            &&& final(bc).slot(s.other()) == old(bc).slot(s.other())
        },
{
    let selected = bc.select();
    if let Some(s) = selected {
        bc.begin_boot(s);
    }
    selected
}

/// A slot's line names the slot, what it holds, its priority and its state, and
/// says of the current slot that it is that.
pub proof fn law_description(bc: BootControl, s: Slot)
    ensures
        ({
            let m = bc.slot(s);
            let name = if s == Slot::A {
                "slot A ["@
            } else {
                "slot B ["@
            };
            let held = match m.version {
                Some(v) => v.text(),
                None => "empty"@,
            };
            let state = if m.priority == 0 || (!m.successful && m.tries == 0) {
                "unbootable"@
            } else if m.successful {
                "good"@
            } else {
                "trial, "@ + text::decimal_text(m.tries as nat) + " tries left"@
            };
            let line = name + held + "] prio="@ + text::decimal_text(m.priority as nat) + " "@
                + state;
            description(bc, s) == (if bc.current == s {
                line + " (current)"@
            } else {
                line
            })
        }),
{
    reveal_strlit("slot A [");
    reveal_strlit("slot B [");
    reveal_strlit("slot ");
    reveal_strlit("A");
    reveal_strlit("B");
    reveal_strlit(" [");
    assert("slot "@ + "A"@ + " ["@ =~= "slot A ["@);
    assert("slot "@ + "B"@ + " ["@ =~= "slot B ["@);
    let d = description(bc, s);
    assert(d =~= (if bc.current == s {
        d
    } else {
        d + Seq::<char>::empty()
    }));
}

/// The line of the current slot is that of the same slot while it is not current,
/// with a mark behind.
pub proof fn law_description_shows_the_current_slot(bc: BootControl)
    ensures
        description(bc, bc.current) == description(
            BootControl { current: bc.current.other(), ..bc },
            bc.current,
        ) + " (current)"@,
{
    let other = BootControl { current: bc.current.other(), ..bc };
    law_description(bc, bc.current);
    law_description(other, bc.current);
}

} // verus!
