//! A/B boot-control: per-slot priority, a trial-boot try counter and a
//! "successful" flag, as the bootloader and the updater share them.
//!
//! An update is staged into the inactive slot at higher priority with a number
//! of tries and not yet successful. The bootloader boots the highest-priority
//! bootable slot; each trial boot burns a try; if the tries run out before the
//! slot is confirmed good, it becomes unbootable and the bootloader falls back
//! to the previous good slot.
//!
//! The state has a fixed 64-byte binary format. Reading and writing the block
//! itself is left to the caller.

use crate::text;
use vstd::prelude::*;
use vstd::slice::*;

verus! {

/// Trial boots allowed for a freshly staged slot before rollback.
pub const DEFAULT_TRIES: u8 = 3;

/// Fixed size of the serialized boot-control block.
pub const BLOCK_SIZE: usize = 64;

/// How many bytes of the block carry data; the others are reserved.
pub const USED_SIZE: usize = 38;

const FORMAT_VERSION: u8 = 1;

#[derive(Clone, Copy, Debug, PartialEq, Eq, Structural)]
pub struct Version {
    pub major: u32,
    pub minor: u32,
    pub patch: u32,
}

impl Version {
    pub fn new(major: u32, minor: u32, patch: u32) -> (r: Self)
        ensures
            r == (Version { major, minor, patch }),
    {
        Version { major, minor, patch }
    }

    /// The version as text, `MAJOR.MINOR.PATCH`.
    pub open spec fn text(self) -> Seq<char> {
        text::dotted_text(self.major, self.minor, self.patch)
    }

    /// The version as text, `MAJOR.MINOR.PATCH`.
    pub fn to_text(&self) -> (r: String)
        ensures
            r@ == self.text(),
    {
        let mut out = String::new();
        text::push_dotted(&mut out, self.major, self.minor, self.patch);
        assert(out@ =~= self.text());
        out
    }
}

#[derive(Clone, Copy, Debug, PartialEq, Eq, Structural)]
pub enum Slot {
    A,
    B,
}

impl Slot {
    pub open spec fn spec_other(self) -> Slot {
        match self {
            Slot::A => Slot::B,
            Slot::B => Slot::A,
        }
    }

    #[verifier::when_used_as_spec(spec_other)]
    pub fn other(self) -> (r: Slot)
        ensures
            r == self.other(),
    {
        match self {
            Slot::A => Slot::B,
            Slot::B => Slot::A,
        }
    }

    pub fn as_str(self) -> (r: &'static str)
        ensures
            r@ == (match self {
                Slot::A => "A"@,
                Slot::B => "B"@,
            }),
    {
        match self {
            Slot::A => "A",
            Slot::B => "B",
        }
    }
}

#[derive(Clone, Copy, Debug)]
pub struct SlotMeta {
    pub version: Option<Version>,
    /// Higher wins. 0 = unbootable.
    pub priority: u8,
    /// Remaining trial-boot attempts.
    pub tries: u8,
    /// Confirmed-good (post-boot). Once true, tries no longer matter.
    pub successful: bool,
}

impl Default for SlotMeta {
    /// An empty slot.
    fn default() -> (r: Self)
        ensures
            r == (SlotMeta { version: None, priority: 0, tries: 0, successful: false }),
    {
        SlotMeta { version: None, priority: 0, tries: 0, successful: false }
    }
}

impl SlotMeta {
    pub open spec fn spec_bootable(&self) -> bool {
        self.priority > 0 && (self.successful || self.tries > 0)
    }

    #[verifier::when_used_as_spec(spec_bootable)]
    pub fn bootable(&self) -> (r: bool)
        ensures
            r == self.bootable(),
            r == (self.priority > 0 && (self.successful || self.tries > 0)),
    {
        self.priority > 0 && (self.successful || self.tries > 0)
    }
}

#[derive(Clone, Copy, Debug)]
pub struct BootControl {
    /// The slot currently running (set by the bootloader at boot).
    pub current: Slot,
    pub a: SlotMeta,
    pub b: SlotMeta,
}

impl BootControl {
    /// What is known of a slot.
    pub open spec fn slot(self, s: Slot) -> SlotMeta {
        match s {
            Slot::A => self.a,
            Slot::B => self.b,
        }
    }

    /// The state with one slot replaced.
    pub open spec fn with_slot(self, s: Slot, m: SlotMeta) -> BootControl {
        match s {
            Slot::A => BootControl { current: self.current, a: m, b: self.b },
            Slot::B => BootControl { current: self.current, a: self.a, b: m },
        }
    }

    /// What staging leaves of the slot that is not its target: the same, but for
    /// the highest priority there is, which is lowered by one to leave room above.
    pub open spec fn yielded(m: SlotMeta) -> SlotMeta {
        SlotMeta {
            priority: if m.priority == u8::MAX {
                (u8::MAX - 1) as u8
            } else {
                m.priority
            },
            ..m
        }
    }

    /// The priority that staging gives its target: one above the other slot.
    pub open spec fn staged_priority(self, target: Slot) -> int {
        let other = Self::yielded(self.slot(target.other())).priority;
        (if other > 1 {
            other as int
        } else {
            1
        }) + 1
    }

    /// The state after an update to `version` was staged into `target`.
    pub open spec fn staged(self, target: Slot, version: Version) -> BootControl {
        self.with_slot(target.other(), Self::yielded(self.slot(target.other()))).with_slot(
            target,
            SlotMeta {
                version: Some(version),
                priority: self.staged_priority(target) as u8,
                tries: DEFAULT_TRIES,
                successful: false,
            },
        )
    }

    /// The slot to boot: the bootable one of highest priority, and the current
    /// one on a tie.
    pub open spec fn selected(self) -> Option<Slot> {
        if self.a.bootable() && self.b.bootable() {
            if self.a.priority > self.b.priority {
                Some(Slot::A)
            } else if self.b.priority > self.a.priority {
                Some(Slot::B)
            } else {
                Some(self.current)
            }
        } else if self.a.bootable() {
            Some(Slot::A)
        } else if self.b.bootable() {
            Some(Slot::B)
        } else {
            None
        }
    }

    /// What a boot makes of the metadata of the slot that is booted.
    pub open spec fn after_try(m: SlotMeta) -> SlotMeta {
        if m.successful || m.tries == 0 {
            m
        } else {
            SlotMeta {
                version: m.version,
                priority: if m.tries == 1 {
                    0
                } else {
                    m.priority
                },
                tries: (m.tries - 1) as u8,
                successful: false,
            }
        }
    }

    /// The state after `s` was booted.
    pub open spec fn booted(self, s: Slot) -> BootControl {
        let next = self.with_slot(s, Self::after_try(self.slot(s)));
        BootControl { current: s, a: next.a, b: next.b }
    }

    /// The state after the current slot was confirmed good. A slot that was booted
    /// on its last try has lost its priority: it gets that of the other slot where
    /// that one could be booted, and wins the tie as the current one.
    pub open spec fn confirmed(self) -> BootControl {
        let m = self.slot(self.current);
        let other = self.slot(self.current.other());
        self.with_slot(
            self.current,
            SlotMeta {
                version: m.version,
                priority: if m.priority != 0 {
                    m.priority
                } else if other.bootable() {
                    other.priority
                } else {
                    1
                },
                tries: m.tries,
                successful: true,
            },
        )
    }

    /// First install: slot A holds `version`, good and current; B empty.
    pub fn initial(version: Version) -> (r: Self)
        ensures
            r.current == Slot::A,
            r.a == (SlotMeta { version: Some(version), priority: 1, tries: 0, successful: true }),
            r.b == (SlotMeta { version: None, priority: 0, tries: 0, successful: false }),
    {
        BootControl {
            current: Slot::A,
            a: SlotMeta { version: Some(version), priority: 1, tries: 0, successful: true },
            b: SlotMeta::default(),
        }
    }

    pub fn meta(&self, s: Slot) -> (r: &SlotMeta)
        ensures
            *r == self.slot(s),
            s == Slot::A ==> *r == self.a,
            s == Slot::B ==> *r == self.b,
    {
        match s {
            Slot::A => &self.a,
            Slot::B => &self.b,
        }
    }

    pub fn meta_mut(&mut self, s: Slot) -> (r: &mut SlotMeta)
        ensures
            *r == old(self).slot(s),
            *final(self) == old(self).with_slot(s, *final(r)),
            final(self).current == old(self).current,
            s == Slot::A ==> *r == old(self).a && final(self).a == *final(r) && final(self).b
                == old(self).b,
            s == Slot::B ==> *r == old(self).b && final(self).b == *final(r) && final(self).a
                == old(self).a,
    {
        match s {
            Slot::A => &mut self.a,
            Slot::B => &mut self.b,
        }
    }

    /// The slot an update should be written to (the one not running).
    pub fn inactive(&self) -> (r: Slot)
        ensures
            r == self.current.other(),
            r != self.current,
    {
        self.current.other()
    }

    /// Stage an update written to `target`: highest-priority trial slot.
    pub fn stage(&mut self, target: Slot, version: Version)
        ensures
            *final(self) == old(self).staged(target, version),
            final(self).current == old(self).current,
            final(self).slot(target).version == Some(version),
            final(self).slot(target).tries == 3,
            !final(self).slot(target).successful,
            final(self).slot(target).priority > final(self).slot(target.other()).priority,
            final(self).slot(target.other()).version == old(self).slot(target.other()).version,
    {
        let o = self.meta_mut(target.other());
        if o.priority == u8::MAX {
            o.priority = u8::MAX - 1;
        }
        let other = self.meta(target.other()).priority;
        let rollback_prio: u8 = if other > 1 {
            other
        } else {
            1
        };
        let m = self.meta_mut(target);
        m.version = Some(version);
        m.priority = rollback_prio + 1;
        m.tries = DEFAULT_TRIES;
        m.successful = false;
    }

    /// Bootloader: pick the slot to boot = highest-priority bootable slot
    /// (preferring current on a tie). None means nothing is bootable.
    pub fn select(&self) -> (r: Option<Slot>)
        ensures
            r == self.selected(),
    {
        let mut best: Option<Slot> = None;
        if self.meta(Slot::A).bootable() {
            best = Some(Slot::A);
        }
        if self.meta(Slot::B).bootable() {
            best = match best {
                None => Some(Slot::B),
                Some(b) => {
                    let ps = self.meta(Slot::B).priority;
                    let pb = self.meta(b).priority;
                    if ps > pb || (ps == pb && Slot::B == self.current) {
                        Some(Slot::B)
                    } else {
                        Some(b)
                    }
                },
            };
        }
        best
    }

    /// Bootloader: account for booting `slot` (call once per boot, after select).
    /// Burns a trial try; when exhausted unconfirmed, the slot becomes
    /// unbootable so the next select falls back (rollback).
    pub fn begin_boot(&mut self, slot: Slot)
        ensures
            *final(self) == old(self).booted(slot),
            final(self).current == slot,
            final(self).slot(slot).version == old(self).slot(slot).version,
            final(self).slot(slot).successful == old(self).slot(slot).successful,
            final(self).slot(slot.other()) == old(self).slot(slot.other()),
    {
        self.current = slot;
        let m = self.meta_mut(slot);
        if !m.successful && m.tries > 0 {
            m.tries = m.tries - 1;
            if m.tries == 0 {
                m.priority = 0;
            }
        }
    }

    /// Post-boot: confirm the current slot is good (commits the update).
    pub fn mark_successful(&mut self)
        ensures
            *final(self) == old(self).confirmed(),
            final(self).current == old(self).current,
            final(self).slot(old(self).current).version == old(self).slot(
                old(self).current,
            ).version,
            final(self).slot(old(self).current).tries == old(self).slot(old(self).current).tries,
            final(self).slot(old(self).current).successful,
            final(self).slot(old(self).current.other()) == old(self).slot(
                old(self).current.other(),
            ),
    {
        let cur = self.current;
        let other = *self.meta(cur.other());
        let m = self.meta_mut(cur);
        m.successful = true;
        if m.priority == 0 {
            m.priority = if other.bootable() {
                other.priority
            } else {
                1
            };
        }
    }
}

// ---- fixed 64-byte binary format ----
// [0..4] magic "RBCT" | [4] format ver | [5] current (0=A,1=B)
// [6..22] slot A meta | [22..38] slot B meta | [38..64] reserved (0)
// slot meta (16B): major u32, minor u32, patch u32 (LE), priority, tries,
//                  successful (0/1), has_version (0/1)

/// The four bytes of `x`, the lowest first.
pub open spec fn le_bytes(x: u32) -> Seq<u8> {
    seq![
        (x % 256) as u8,
        (x / 256 % 256) as u8,
        (x / 65536 % 256) as u8,
        (x / 16777216) as u8,
    ]
}

/// The number whose four bytes, the lowest first, begin `b`.
pub open spec fn le_value(b: Seq<u8>) -> u32 {
    (b[0] + 256 * b[1] + 65536 * b[2] + 16777216 * b[3]) as u32
}

/// A flag as a byte.
pub open spec fn flag_byte(x: bool) -> u8 {
    if x {
        1
    } else {
        0
    }
}

/// The 16 bytes of a slot's metadata. An absent version is written as zeros.
pub open spec fn slot_bytes(m: SlotMeta) -> Seq<u8> {
    let v = match m.version {
        Some(v) => v,
        None => Version { major: 0, minor: 0, patch: 0 },
    };
    le_bytes(v.major) + le_bytes(v.minor) + le_bytes(v.patch) + seq![
        m.priority,
        m.tries,
        flag_byte(m.successful),
        flag_byte(m.version is Some),
    ]
}

/// The metadata that 16 bytes stand for. A flag is set when its byte is not 0.
pub open spec fn slot_of(b: Seq<u8>) -> SlotMeta {
    SlotMeta {
        version: if b[15] != 0 {
            Some(
                Version {
                    major: le_value(b.subrange(0, 4)),
                    minor: le_value(b.subrange(4, 8)),
                    patch: le_value(b.subrange(8, 12)),
                },
            )
        } else {
            None
        },
        priority: b[12],
        tries: b[13],
        successful: b[14] != 0,
    }
}

/// The bytes that begin every block: the magic and the format version.
pub open spec fn block_head() -> Seq<u8> {
    seq![0x52, 0x42, 0x43, 0x54, 1]
}

/// The byte that names a slot.
pub open spec fn slot_byte(s: Slot) -> u8 {
    match s {
        Slot::A => 0,
        Slot::B => 1,
    }
}

/// The block of a boot-control state.
pub open spec fn block_of(bc: BootControl) -> Seq<u8> {
    block_head() + seq![slot_byte(bc.current)] + slot_bytes(bc.a) + slot_bytes(bc.b) + Seq::new(
        (BLOCK_SIZE - USED_SIZE) as nat,
        |i: int| 0u8,
    )
}

/// Whether `b` holds a boot-control state: long enough, with the right magic
/// and format version, and a current slot that exists.
pub open spec fn is_block(b: Seq<u8>) -> bool {
    &&& b.len() >= USED_SIZE
    &&& b.subrange(0, 5) == block_head()
    &&& b[5] == 0 || b[5] == 1
}

/// The boot-control state that `b` holds.
pub open spec fn state_in(b: Seq<u8>) -> BootControl {
    BootControl {
        current: if b[5] == 0 {
            Slot::A
        } else {
            Slot::B
        },
        a: slot_of(b.subrange(6, 22)),
        b: slot_of(b.subrange(22, 38)),
    }
}

impl BootControl {
    /// The state as a boot-control block.
    pub fn to_bytes(&self) -> (r: [u8; BLOCK_SIZE])
        ensures
            r@ == block_of(*self),
    {
        let mut b: [u8; BLOCK_SIZE] = [0; BLOCK_SIZE];
        b[0] = 0x52;
        b[1] = 0x42;
        b[2] = 0x43;
        b[3] = 0x54;
        b[4] = FORMAT_VERSION;
        b[5] = match self.current {
            Slot::A => 0,
            Slot::B => 1,
        };
        write_slot(&mut b, 6, &self.a);
        write_slot(&mut b, 22, &self.b);
        assert(b@ =~= block_of(*self));
        b
    }

    /// The state in a boot-control block, if `b` holds one.
    pub fn from_bytes(b: &[u8]) -> (r: Option<Self>)
        ensures
            r == (if is_block(b@) {
                Some(state_in(b@))
            } else {
                None
            }),
    {
        if b.len() < USED_SIZE {
            return None;
        }
        if b[0] != 0x52 || b[1] != 0x42 || b[2] != 0x43 || b[3] != 0x54 || b[4] != FORMAT_VERSION {
            proof {
                let head = b@.subrange(0, 5);
                assert(head[0] == b@[0] && head[1] == b@[1] && head[2] == b@[2] && head[3] == b@[3]
                    && head[4] == b@[4]);
                let want = block_head();
                assert(want[0] == 0x52 && want[1] == 0x42 && want[2] == 0x43 && want[3] == 0x54
                    && want[4] == 1);
            }
            return None;
        }
        assert(b@.subrange(0, 5) =~= block_head());
        let current = match b[5] {
            0 => Slot::A,
            1 => Slot::B,
            _ => return None,
        };
        Some(
            BootControl {
                current,
                a: read_slot(slice_subrange(b, 6, 22)),
                b: read_slot(slice_subrange(b, 22, 38)),
            },
        )
    }
}

/// Writes the four bytes of `x` into `out`, from `at` on.
fn write_le(out: &mut [u8; BLOCK_SIZE], at: usize, x: u32)
    requires
        at + 4 <= BLOCK_SIZE,
    ensures
        forall|i: int|
            0 <= i < BLOCK_SIZE ==> #[trigger] final(out)@[i] == (if at <= i < at + 4 {
                le_bytes(x)[i - at]
            } else {
                old(out)@[i]
            }),
{
    out[at] = (x % 256) as u8;
    out[at + 1] = (x / 256 % 256) as u8;
    out[at + 2] = (x / 65536 % 256) as u8;
    out[at + 3] = (x / 16777216) as u8;
}

/// Writes the 16 bytes of a slot's metadata into `out`, from `at` on.
fn write_slot(out: &mut [u8; BLOCK_SIZE], at: usize, m: &SlotMeta)
    requires
        at + 16 <= BLOCK_SIZE,
    ensures
        forall|i: int|
            0 <= i < BLOCK_SIZE ==> #[trigger] final(out)@[i] == (if at <= i < at + 16 {
                slot_bytes(*m)[i - at]
            } else {
                old(out)@[i]
            }),
{
    let v = m.version.unwrap_or(Version::new(0, 0, 0));
    write_le(out, at, v.major);
    write_le(out, at + 4, v.minor);
    write_le(out, at + 8, v.patch);
    out[at + 12] = m.priority;
    out[at + 13] = m.tries;
    out[at + 14] = if m.successful {
        1
    } else {
        0
    };
    out[at + 15] = if m.version.is_some() {
        1
    } else {
        0
    };
}

/// Reads the number whose four bytes, the lowest first, are in `b` at `at`.
fn read_le(b: &[u8], at: usize) -> (r: u32)
    requires
        at + 4 <= b@.len(),
    ensures
        r == le_value(b@.subrange(at as int, at + 4)),
{
    b[at] as u32 + 256 * (b[at + 1] as u32) + 65536 * (b[at + 2] as u32) + 16777216 * (b[at
        + 3] as u32)
}

/// Reads a slot's metadata from its 16 bytes.
fn read_slot(b: &[u8]) -> (r: SlotMeta)
    requires
        b@.len() == 16,
    ensures
        r == slot_of(b@),
{
    let version = if b[15] != 0 {
        Some(Version::new(read_le(b, 0), read_le(b, 4), read_le(b, 8)))
    } else {
        None
    };
    SlotMeta { version, priority: b[12], tries: b[13], successful: b[14] != 0 }
}

// ---- laws ----

impl BootControl {
    /// The state after one boot: the selected slot is booted. Nothing happens
    /// when no slot is bootable.
    pub open spec fn boot_step(self) -> BootControl {
        match self.selected() {
            Some(s) => self.booted(s),
            None => self,
        }
    }

    /// The state after `n` boots.
    pub open spec fn boots(self, n: nat) -> BootControl
        decreases n,
    {
        if n == 0 {
            self
        } else {
            self.boots((n - 1) as nat).boot_step()
        }
    }

    /// Whether `s` is confirmed good and not disabled.
    pub open spec fn is_good(self, s: Slot) -> bool {
        self.slot(s).successful && self.slot(s).priority > 0
    }
}

/// Reading back a block gives the state that was written, whatever it is.
pub proof fn law_block_round_trip(bc: BootControl)
    ensures
        block_of(bc).len() == BLOCK_SIZE,
        is_block(block_of(bc)),
        state_in(block_of(bc)) == bc,
{
    lemma_slot_round_trip(bc.a);
    lemma_slot_round_trip(bc.b);
    lemma_block_parts(
        block_head(),
        seq![slot_byte(bc.current)],
        slot_bytes(bc.a),
        slot_bytes(bc.b),
        Seq::new((BLOCK_SIZE - USED_SIZE) as nat, |i: int| 0u8),
    );
}

/// Where the parts of a block lie.
proof fn lemma_block_parts(
    head: Seq<u8>,
    current: Seq<u8>,
    a: Seq<u8>,
    b: Seq<u8>,
    reserved: Seq<u8>,
)
    requires
        head.len() == 5,
        current.len() == 1,
        a.len() == 16,
        b.len() == 16,
    ensures
        ({
            let block = head + current + a + b + reserved;
            &&& block.len() == USED_SIZE + reserved.len()
            &&& block.subrange(0, 5) == head
            &&& block[5] == current[0]
            &&& block.subrange(6, 22) == a
            &&& block.subrange(22, 38) == b
        }),
{
    let block = head + current + a + b + reserved;
    assert(block.subrange(0, 5) =~= head);
    assert(block.subrange(6, 22) =~= a);
    assert(block.subrange(22, 38) =~= b);
}

proof fn lemma_le_round_trip(x: u32)
    ensures
        le_value(le_bytes(x)) == x,
{
    let b = le_bytes(x);
    assert(b[0] == x % 256 && b[1] == x / 256 % 256 && b[2] == x / 65536 % 256 && b[3] == x
        / 16777216);
}

proof fn lemma_slot_round_trip(m: SlotMeta)
    ensures
        slot_bytes(m).len() == 16,
        slot_of(slot_bytes(m)) == m,
{
    let b = slot_bytes(m);
    if let Some(v) = m.version {
        assert(b.subrange(0, 4) =~= le_bytes(v.major));
        assert(b.subrange(4, 8) =~= le_bytes(v.minor));
        assert(b.subrange(8, 12) =~= le_bytes(v.patch));
        lemma_le_round_trip(v.major);
        lemma_le_round_trip(v.minor);
        lemma_le_round_trip(v.patch);
    }
}

/// Only the first 38 bytes of a block matter: the reserved ones are ignored.
pub proof fn law_reserved_bytes_are_ignored(b: Seq<u8>, c: Seq<u8>)
    requires
        b.len() >= USED_SIZE,
        c.len() >= USED_SIZE,
        b.take(USED_SIZE as int) == c.take(USED_SIZE as int),
    ensures
        is_block(b) == is_block(c),
        state_in(b) == state_in(c),
{
    assert forall|i: int| 0 <= i < USED_SIZE implies b[i] == c[i] by {
        assert(b.take(USED_SIZE as int)[i] == b[i]);
        assert(c.take(USED_SIZE as int)[i] == c[i]);
    }
    assert(b.subrange(0, 5) =~= c.subrange(0, 5));
    assert(b.subrange(6, 22) =~= c.subrange(6, 22));
    assert(b.subrange(22, 38) =~= c.subrange(22, 38));
}

/// A staged slot is the one that is booted next. The other slot is as bootable as
/// it was, and the same but for the highest priority, which it yields.
pub proof fn law_staged_slot_is_selected(bc: BootControl, target: Slot, version: Version)
    ensures
        bc.staged(target, version).selected() == Some(target),
        bc.staged(target, version).slot(target).version == Some(version),
        bc.staged(target, version).slot(target.other()) == BootControl::yielded(
            bc.slot(target.other()),
        ),
        bc.staged(target, version).slot(target.other()).bootable() == bc.slot(
            target.other(),
        ).bootable(),
        bc.staged(target, version).current == bc.current,
{
}

/// A staged slot is selected for every trial boot while it has tries left. A
/// trial boot burns one try and leaves the other slot alone.
pub proof fn law_trial_boots(bc: BootControl, target: Slot, version: Version, n: nat)
    requires
        n < DEFAULT_TRIES,
    ensures
        ({
            let after = bc.staged(target, version).boots(n);
            &&& after.selected() == Some(target)
            &&& after.slot(target).tries == DEFAULT_TRIES - n
            &&& after.slot(target).priority == bc.staged_priority(target)
            &&& after.slot(target).version == Some(version)
            &&& !after.slot(target).successful
            &&& after.slot(target.other()) == BootControl::yielded(bc.slot(target.other()))
            &&& n > 0 ==> after.current == target
        }),
    decreases n,
{
    if n > 0 {
        law_trial_boots(bc, target, version, (n - 1) as nat);
    }
}

/// Rollback: a staged slot that is never confirmed is unbootable once its tries
/// are used up. The other slot is as staging left it and is selected from then on, if it
/// is bootable.
pub proof fn law_rollback(bc: BootControl, target: Slot, version: Version)
    ensures
        ({
            let after = bc.staged(target, version).boots(DEFAULT_TRIES as nat);
            &&& !after.slot(target).bootable()
            &&& after.slot(target.other()) == BootControl::yielded(bc.slot(target.other()))
            &&& after.selected() == (if bc.slot(target.other()).bootable() {
                Some(target.other())
            } else {
                None
            })
        }),
{
    law_trial_boots(bc, target, version, (DEFAULT_TRIES - 1) as nat);
}

/// A good slot that outranks the other one stays selected over any number of
/// boots, and neither slot changes.
pub proof fn law_good_slot_stays_selected(bc: BootControl, s: Slot, n: nat)
    requires
        bc.is_good(s),
        bc.selected() == Some(s),
    ensures
        bc.boots(n).selected() == Some(s),
        bc.boots(n).a == bc.a,
        bc.boots(n).b == bc.b,
    decreases n,
{
    if n > 0 {
        law_good_slot_stays_selected(bc, s, (n - 1) as nat);
    }
}

/// Commit: a staged slot that is confirmed during one of its trial boots, the
/// last one included, stays selected over any number of later boots.
pub proof fn law_confirmed_slot_is_kept(
    bc: BootControl,
    target: Slot,
    version: Version,
    trials: nat,
    n: nat,
)
    requires
        0 < trials <= DEFAULT_TRIES,
    ensures
        ({
            let confirmed = bc.staged(target, version).boots(trials).confirmed();
            &&& confirmed.is_good(target)
            &&& confirmed.boots(n).selected() == Some(target)
            &&& confirmed.boots(n).slot(target).version == Some(version)
            &&& confirmed.boots(n).slot(target).successful
            &&& confirmed.boots(n).slot(target).bootable()
            &&& confirmed.boots(n).slot(target.other()) == BootControl::yielded(
                bc.slot(target.other()),
            )
        }),
{
    law_trial_boots(bc, target, version, (trials - 1) as nat);
    let confirmed = bc.staged(target, version).boots(trials).confirmed();
    law_good_slot_stays_selected(confirmed, target, n);
}

/// While a slot is good the system is bootable: over any number of boots that
/// slot stays as it is, and some slot is selected.
pub proof fn law_good_slot_keeps_system_bootable(bc: BootControl, s: Slot, n: nat)
    requires
        bc.is_good(s),
    ensures
        bc.boots(n).slot(s) == bc.slot(s),
        bc.boots(n).selected() is Some,
    decreases n,
{
    if n > 0 {
        law_good_slot_keeps_system_bootable(bc, s, (n - 1) as nat);
    }
}

/// Staging into the inactive slot and confirming the current one both keep a
/// good current slot good.
pub proof fn law_update_keeps_current_good(bc: BootControl, version: Version)
    requires
        bc.is_good(bc.current),
    ensures
        bc.staged(bc.current.other(), version).is_good(bc.current),
        bc.confirmed().is_good(bc.current),
{
}

/// Only a bootable slot is ever selected, no bootable slot outranks it, and the
/// current slot wins a tie.
pub proof fn law_selected_is_best(bc: BootControl, s: Slot)
    ensures
        bc.selected() is None <==> !bc.a.bootable() && !bc.b.bootable(),
        bc.selected() == Some(s) ==> {
            &&& bc.slot(s).bootable()
            &&& bc.slot(s.other()).bootable() ==> bc.slot(s.other()).priority <= bc.slot(s).priority
            &&& bc.slot(s.other()).bootable() && bc.slot(s.other()).priority == bc.slot(s).priority
                ==> bc.current == s
        },
{
}

/// Booting a slot changes nothing of the other slot, and nothing of the slot
/// itself once it is confirmed good.
pub proof fn law_boot_is_local(bc: BootControl, s: Slot)
    ensures
        bc.booted(s).current == s,
        bc.booted(s).slot(s.other()) == bc.slot(s.other()),
        bc.slot(s).successful ==> bc.booted(s).slot(s) == bc.slot(s),
{
}

/// Confirming the current slot makes it bootable, leaves the other slot alone,
/// and doing it twice is the same as doing it once. A slot that was booted on its
/// last try is selected again. What the slot holds stays, and so do its tries and a
/// priority that is there.
pub proof fn law_confirm(bc: BootControl)
    ensures
        bc.confirmed().is_good(bc.current),
        bc.confirmed().slot(bc.current).bootable(),
        bc.slot(bc.current).priority == 0 ==> bc.confirmed().selected() == Some(bc.current),
        bc.confirmed().slot(bc.current.other()) == bc.slot(bc.current.other()),
        bc.confirmed().confirmed() == bc.confirmed(),
        bc.confirmed().current == bc.current,
        bc.confirmed().slot(bc.current).successful,
        bc.confirmed().slot(bc.current).version == bc.slot(bc.current).version,
        bc.confirmed().slot(bc.current).tries == bc.slot(bc.current).tries,
        bc.slot(bc.current).priority > 0 ==> bc.confirmed().slot(bc.current).priority == bc.slot(
            bc.current,
        ).priority,
        bc.slot(bc.current).priority == 0 && !bc.slot(bc.current.other()).bootable()
            ==> bc.confirmed().slot(bc.current).priority == 1,
        bc.slot(bc.current).priority == 0 && bc.slot(bc.current.other()).bootable()
            ==> bc.confirmed().slot(bc.current).priority == bc.slot(bc.current.other()).priority,
{
}

/// The other slot of the other slot is the slot itself.
pub proof fn law_other_is_involution(s: Slot)
    ensures
        s.other().other() == s,
        s.other() != s,
{
}

/// A slot's metadata is the field of its name, and replacing it changes that field
/// alone.
pub proof fn law_slots_are_the_fields(bc: BootControl, m: SlotMeta)
    ensures
        bc.slot(Slot::A) == bc.a,
        bc.slot(Slot::B) == bc.b,
        bc.with_slot(Slot::A, m) == (BootControl { current: bc.current, a: m, b: bc.b }),
        bc.with_slot(Slot::B, m) == (BootControl { current: bc.current, a: bc.a, b: m }),
        Slot::A.other() == Slot::B,
        Slot::B.other() == Slot::A,
{
}

/// A slot is bootable exactly if it has a priority and is confirmed or has tries.
pub proof fn law_bootable(m: SlotMeta)
    ensures
        m.bootable() <==> m.priority > 0 && (m.successful || m.tries > 0),
{
}

/// Staging gives the target the version, three tries and a priority one above the
/// other slot, or two where the other one has none. The other slot keeps what it
/// holds, and its priority unless that is the highest there is.
pub proof fn law_stage(bc: BootControl, target: Slot, version: Version)
    ensures
        ({
            let after = bc.staged(target, version);
            let t = after.slot(target);
            let (o, was) = (after.slot(target.other()), bc.slot(target.other()));
            &&& after.current == bc.current
            &&& t.version == Some(version) && t.tries == 3 && !t.successful
            &&& o.version == was.version && o.tries == was.tries && o.successful == was.successful
            &&& was.priority < 255 ==> o.priority == was.priority
            &&& was.priority == 255 ==> o.priority == 254
            &&& o.priority > 0 ==> t.priority == o.priority + 1
            &&& o.priority == 0 ==> t.priority == 2
        }),
{
}

/// A boot makes its slot the current one. It burns one try of a slot that is not
/// confirmed, and takes the priority with the last one; all else stays.
pub proof fn law_boot(bc: BootControl, s: Slot)
    ensures
        ({
            let (m, was) = (bc.booted(s).slot(s), bc.slot(s));
            &&& bc.booted(s).current == s
            &&& bc.booted(s).slot(s.other()) == bc.slot(s.other())
            &&& m.version == was.version && m.successful == was.successful
            &&& was.successful || was.tries == 0 ==> m.tries == was.tries && m.priority
                == was.priority
            &&& !was.successful && was.tries > 0 ==> m.tries == was.tries - 1
            &&& !was.successful && was.tries == 1 ==> m.priority == 0
            &&& !was.successful && was.tries > 1 ==> m.priority == was.priority
        }),
{
}

/// Boots follow one another: each boots the slot that is selected then, if any.
pub proof fn law_boots_follow_the_selection(bc: BootControl, n: nat)
    ensures
        bc.boots(0) == bc,
        bc.boots(n).selected() is None ==> bc.boots(n + 1) == bc.boots(n),
        bc.boots(n).selected() matches Some(s) ==> bc.boots(n + 1) == bc.boots(n).booted(s),
{
}

/// The 16 bytes of a slot: three numbers of four bytes, the lowest byte first,
/// then priority, tries, whether it is confirmed, and whether it has a version.
pub proof fn law_slot_layout(m: SlotMeta)
    ensures
        ({
            let b = slot_bytes(m);
            let v = match m.version {
                Some(v) => v,
                None => Version { major: 0, minor: 0, patch: 0 },
            };
            &&& b.len() == 16
            &&& v.major == b[0] + 256 * b[1] + 65536 * b[2] + 16777216 * b[3]
            &&& v.minor == b[4] + 256 * b[5] + 65536 * b[6] + 16777216 * b[7]
            &&& v.patch == b[8] + 256 * b[9] + 65536 * b[10] + 16777216 * b[11]
            &&& b[12] == m.priority
            &&& b[13] == m.tries
            &&& b[14] == (if m.successful {
                1u8
            } else {
                0u8
            })
            &&& b[15] == (if m.version is Some {
                1u8
            } else {
                0u8
            })
        }),
{
    lemma_le_sum(m.version->0.major);
    lemma_le_sum(m.version->0.minor);
    lemma_le_sum(m.version->0.patch);
    lemma_le_sum(0);
    let v = match m.version {
        Some(v) => v,
        None => Version { major: 0, minor: 0, patch: 0 },
    };
    let b = slot_bytes(m);
    let (x, y, z) = (le_bytes(v.major), le_bytes(v.minor), le_bytes(v.patch));
    assert(b[0] == x[0] && b[1] == x[1] && b[2] == x[2] && b[3] == x[3]);
    assert(b[4] == y[0] && b[5] == y[1] && b[6] == y[2] && b[7] == y[3]);
    assert(b[8] == z[0] && b[9] == z[1] && b[10] == z[2] && b[11] == z[3]);
}

/// A number is made of its four bytes.
proof fn lemma_le_sum(x: u32)
    ensures
        x == le_bytes(x)[0] + 256 * le_bytes(x)[1] + 65536 * le_bytes(x)[2] + 16777216 * le_bytes(
            x,
        )[3],
{
    let (a, b, c, d) = (x % 256, x / 256 % 256, x / 65536 % 256, x / 16777216);
    assert(x == x % 256 + 256 * (x / 256 % 256) + 65536 * (x / 65536 % 256) + 16777216 * (x
        / 16777216)) by (bit_vector);
    assert(d < 256) by (bit_vector)
        requires
            d == x / 16777216,
    ;
    assert(le_bytes(x) =~= seq![a as u8, b as u8, c as u8, d as u8]);
}

/// The 64 bytes of a block: `RBCT`, the format version 1, the current slot, the
/// two slots, and zeros.
pub proof fn law_block_layout(bc: BootControl)
    ensures
        ({
            let b = block_of(bc);
            &&& b.len() == 64
            &&& b[0] == 0x52 && b[1] == 0x42 && b[2] == 0x43 && b[3] == 0x54 && b[4] == 1
            &&& bc.current == Slot::A ==> b[5] == 0
            &&& bc.current == Slot::B ==> b[5] == 1
            &&& b.subrange(6, 22) == slot_bytes(bc.a)
            &&& b.subrange(22, 38) == slot_bytes(bc.b)
            &&& forall|i: int| 38 <= i < 64 ==> #[trigger] b[i] == 0
        }),
{
    let b = block_of(bc);
    assert(b.subrange(6, 22) =~= slot_bytes(bc.a));
    assert(b.subrange(22, 38) =~= slot_bytes(bc.b));
}

/// Bytes hold a state exactly if there are at least 38 of them, they begin with
/// `RBCT` and the format version 1, and name a slot that exists.
pub proof fn law_which_bytes_are_a_block(b: Seq<u8>)
    ensures
        is_block(b) <==> {
            &&& b.len() >= 38
            &&& b[0] == 0x52 && b[1] == 0x42 && b[2] == 0x43 && b[3] == 0x54 && b[4] == 1
            &&& b[5] == 0 || b[5] == 1
        },
{
    if b.len() >= 38 {
        let head = b.subrange(0, 5);
        let want = block_head();
        assert(head[0] == b[0] && head[1] == b[1] && head[2] == b[2] && head[3] == b[3] && head[4]
            == b[4]);
        assert(want[0] == 0x52 && want[1] == 0x42 && want[2] == 0x43 && want[3] == 0x54 && want[4]
            == 1);
        if b[0] == 0x52 && b[1] == 0x42 && b[2] == 0x43 && b[3] == 0x54 && b[4] == 1 {
            assert(head =~= want);
        }
    }
}

/// How a block is read: byte 5 names the current slot, and each slot's 16 bytes
/// are three numbers, the lowest byte first, priority, tries, and two flags.
pub proof fn law_block_reading(b: Seq<u8>, s: Slot)
    requires
        is_block(b),
    ensures
        state_in(b).current == (if b[5] == 0 {
            Slot::A
        } else {
            Slot::B
        }),
        ({
            let at: int = if s == Slot::A {
                6
            } else {
                22
            };
            let m = state_in(b).slot(s);
            &&& m.priority == b[at + 12]
            &&& m.tries == b[at + 13]
            &&& m.successful == (b[at + 14] != 0)
            &&& m.version is Some == (b[at + 15] != 0)
            &&& m.version matches Some(v) ==> {
                &&& v.major == b[at] + 256 * b[at + 1] + 65536 * b[at + 2] + 16777216 * b[at + 3]
                &&& v.minor == b[at + 4] + 256 * b[at + 5] + 65536 * b[at + 6] + 16777216 * b[at
                    + 7]
                &&& v.patch == b[at + 8] + 256 * b[at + 9] + 65536 * b[at + 10] + 16777216 * b[at
                    + 11]
            }
        }),
{
    let at: int = if s == Slot::A {
        6
    } else {
        22
    };
    let part = b.subrange(at, at + 16);
    assert forall|i: int| 0 <= i < 16 implies #[trigger] part[i] == b[at + i] by {}
    assert(state_in(b).slot(s) == slot_of(part));
}

/// A number that is written in decimal between dots: the text of a version.
pub proof fn law_version_text(v: Version)
    ensures
        v.text() == text::decimal_text(v.major as nat) + seq!['.'] + text::decimal_text(
            v.minor as nat,
        ) + seq!['.'] + text::decimal_text(v.patch as nat),
{
}

/// A slot is good exactly if it is confirmed and has a priority.
pub proof fn law_good_slot(bc: BootControl, s: Slot)
    ensures
        bc.is_good(s) <==> bc.slot(s).successful && bc.slot(s).priority > 0,
{
}

} // verus!
