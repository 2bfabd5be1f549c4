//! Virtual memory areas: a fixed table of regions of the virtual address
//! space, each with a kind and permission flags. The page-fault handler
//! consults it to tell a recoverable fault from a fatal one, and the
//! diagnostics list it.
use vstd::prelude::*;

verus! {

/// What a region is used for.
#[derive(Clone, Copy, PartialEq, Eq, Structural, Debug)]
pub enum VmaKind {
    /// Identity map (virtual == physical).
    Identity,
    /// Kernel code, data and bss.
    KernelImage,
    /// Kernel stack (grows downward).
    KernelStack,
    /// User-mode stack (grows downward).
    UserStack,
    /// Guard page, unmapped on purpose to catch overflows.
    Guard,
    /// Kernel heap, pages allocated on demand.
    Heap,
    /// Memory-mapped I/O (such as the VGA text buffer).
    Mmio,
}

/// No access.
pub const VMA_NONE: u8 = 0;
/// Readable.
pub const VMA_READ: u8 = 1;
/// Writable.
pub const VMA_WRITE: u8 = 2;
/// Executable.
pub const VMA_EXEC: u8 = 4;
/// Accessible from user mode.
pub const VMA_USER: u8 = 8;
/// Pages are mapped on first access (demand paging).
pub const VMA_DEMAND: u8 = 16;

/// Bit flags describing what accesses a region permits.
#[derive(Clone, Copy)]
pub struct VmaFlags(pub u8);

impl VmaFlags {
    /// Flags with the given bits.
    pub fn new(bits: u8) -> (r: Self)
        ensures
            r.0 == bits,
    {
        VmaFlags(bits)
    }

    /// Whether any of the bits of `bit` is set.
    pub fn contains(&self, bit: u8) -> (r: bool)
        ensures
            r == (self.0 & bit != 0),
    {
        self.0 & bit != 0
    }

    /// Whether the region is readable.
    pub fn readable(&self) -> (r: bool)
        ensures
            r == (self.0 & VMA_READ != 0),
    {
        self.contains(VMA_READ)
    }

    /// Whether the region is writable.
    pub fn writable(&self) -> (r: bool)
        ensures
            r == (self.0 & VMA_WRITE != 0),
    {
        self.contains(VMA_WRITE)
    }

    /// Whether the region is accessible from user mode.
    pub fn user(&self) -> (r: bool)
        ensures
            r == (self.0 & VMA_USER != 0),
    {
        self.contains(VMA_USER)
    }

    /// Whether the region's pages are mapped on demand.
    pub fn demand(&self) -> (r: bool)
        ensures
            r == (self.0 & VMA_DEMAND != 0),
    {
        self.contains(VMA_DEMAND)
    }
}

/// One contiguous region `[start, end)` of virtual address space.
#[derive(Clone, Copy)]
pub struct Vma {
    /// First byte of the region (page-aligned).
    pub start: u32,
    /// One past the end (page-aligned).
    pub end: u32,
    /// What the region is for.
    pub kind: VmaKind,
    /// Permission and behaviour flags.
    pub flags: VmaFlags,
    /// Whether this slot is in use.
    pub active: bool,
}

/// The name a kind is shown under.
pub open spec fn kind_label(k: VmaKind) -> Seq<char> {
    match k {
        VmaKind::Identity => "Identity"@,
        VmaKind::KernelImage => "KernelImg"@,
        VmaKind::KernelStack => "KernStack"@,
        VmaKind::UserStack => "UserStack"@,
        VmaKind::Guard => "Guard"@,
        VmaKind::Heap => "Heap"@,
        VmaKind::Mmio => "MMIO"@,
    }
}

impl Vma {
    /// Whether the region is in use and holds `addr`.
    pub open spec fn holds(self, addr: u32) -> bool {
        self.active && self.start <= addr && addr < self.end
    }

    /// An unused slot.
    pub fn empty() -> (r: Self)
        ensures
            r.start == 0,
            r.end == 0,
            r.kind == VmaKind::Identity,
            r.flags.0 == VMA_NONE,
            !r.active,
    {
        Vma { start: 0, end: 0, kind: VmaKind::Identity, flags: VmaFlags::new(VMA_NONE), active: false }
    }

    /// Size in bytes.
    pub fn size(&self) -> (r: u32)
        requires
            self.start <= self.end,
        ensures
            r == self.end - self.start,
    {
        self.end - self.start
    }

    /// Whether the region is in use and contains `addr`.
    pub fn contains(&self, addr: u32) -> (r: bool)
        ensures
            r == self.holds(addr),
    {
        self.active && addr >= self.start && addr < self.end
    }

    /// The kind's name.
    pub fn kind_name(&self) -> (r: &'static str)
        ensures
            r@ == kind_label(self.kind),
    {
        match self.kind {
            VmaKind::Identity => "Identity",
            VmaKind::KernelImage => "KernelImg",
            VmaKind::KernelStack => "KernStack",
            VmaKind::UserStack => "UserStack",
            VmaKind::Guard => "Guard",
            VmaKind::Heap => "Heap",
            VmaKind::Mmio => "MMIO",
        }
    }

    /// The flags as a four-column string such as "RW--" or "RWX-": `R`
    /// (82), `W` (87), `X` (88), `U` (85) for each set flag (read, write,
    /// exec, user), `-` (45) for each clear one.
    pub fn flags_str(&self) -> (r: [u8; 4])
        ensures
            r@ == seq![
                if self.flags.0 & VMA_READ != 0 { 82u8 } else { 45u8 },
                if self.flags.0 & VMA_WRITE != 0 { 87u8 } else { 45u8 },
                if self.flags.0 & VMA_EXEC != 0 { 88u8 } else { 45u8 },
                if self.flags.0 & VMA_USER != 0 { 85u8 } else { 45u8 },
            ],
    {
        let f = self.flags;
        let r = [
            if f.readable() { 82u8 } else { 45u8 },
            if f.writable() { 87u8 } else { 45u8 },
            if f.contains(VMA_EXEC) { 88u8 } else { 45u8 },
            if f.user() { 85u8 } else { 45u8 },
        ];
        assert(r@ =~= seq![r[0], r[1], r[2], r[3]]);
        r
    }
}

/// Maximum number of tracked regions.
pub const MAX_VMAS: usize = 32;

/// `end` rounded up to a page boundary.
pub open spec fn round_up_page(end: u32) -> u32 {
    ((end + 4095) as u32) & 0xFFFF_F000u32
}

/// Number of active slots among the first `n`.
pub open spec fn count_active(s: Seq<Vma>, n: int) -> nat
    decreases n,
{
    if n <= 0 {
        0
    } else {
        count_active(s, n - 1) + if s[n - 1].active { 1nat } else { 0nat }
    }
}

/// `k` is the lowest inactive slot of `s`.
pub open spec fn first_inactive(s: Seq<Vma>, k: int) -> bool {
    &&& 0 <= k < s.len()
    &&& !s[k].active
    &&& forall|j: int| 0 <= j < k ==> (#[trigger] s[j]).active
}

/// `k` is the lowest active slot of `s` that starts at `start`.
pub open spec fn first_starting_at(s: Seq<Vma>, k: int, start: u32) -> bool {
    &&& 0 <= k < s.len()
    &&& s[k].active && s[k].start == start
    &&& forall|j: int| 0 <= j < k ==> !((#[trigger] s[j]).active && s[j].start == start)
}

/// `k` is the lowest slot of `s` that holds `addr`.
pub open spec fn first_holding(s: Seq<Vma>, k: int, addr: u32) -> bool {
    &&& 0 <= k < s.len()
    &&& s[k].holds(addr)
    &&& forall|j: int| 0 <= j < k ==> !(#[trigger] s[j]).holds(addr)
}

/// `s` with `v` put in its first inactive slot; `s` itself when every slot
/// is active.
pub open spec fn with_registered(s: Seq<Vma>, v: Vma) -> Seq<Vma> {
    if exists|k: int| first_inactive(s, k) {
        s.update(choose|k: int| first_inactive(s, k), v)
    } else {
        s
    }
}

/// The region `register(start, end, kind, flags)` records: start taken down
/// and end rounded up to a page.
pub open spec fn region_for(start: u32, end: u32, kind: VmaKind, flags: VmaFlags) -> Vma {
    Vma { start: start & 0xFFFF_F000u32, end: round_up_page(end), kind, flags, active: true }
}

/// Only one slot can be the first inactive one.
proof fn lemma_first_inactive_unique(s: Seq<Vma>, k1: int, k2: int)
    requires
        first_inactive(s, k1),
        first_inactive(s, k2),
    ensures
        k1 == k2,
{
    if k1 < k2 {
        assert(s[k1].active);
    } else if k2 < k1 {
        assert(s[k2].active);
    }
}

/// When every one of the first `n` slots is counted active, each of them is.
proof fn lemma_count_all_active(s: Seq<Vma>, n: int)
    requires
        0 <= n <= s.len(),
        count_active(s, n) == n,
    ensures
        forall|k: int| 0 <= k < n ==> (#[trigger] s[k]).active,
    decreases n,
{
    if n > 0 {
        lemma_count_active_bounded(s, n - 1);
        lemma_count_all_active(s, n - 1);
    }
}

/// The first region of `s` that holds `addr`, if any.
pub open spec fn region_of(s: Seq<Vma>, addr: u32) -> Option<Vma> {
    if exists|k: int| first_holding(s, k, addr) {
        Some(s[choose|k: int| first_holding(s, k, addr)])
    } else {
        None
    }
}

/// `k` is the lowest slot of `s` that is a guard region holding `addr`.
pub open spec fn first_guard(s: Seq<Vma>, k: int, addr: u32) -> bool {
    &&& 0 <= k < s.len()
    &&& s[k].holds(addr) && s[k].kind == VmaKind::Guard
    &&& forall|j: int| 0 <= j < k ==> !((#[trigger] s[j]).holds(addr) && s[j].kind == VmaKind::Guard)
}

/// The first guard region of `s` that holds `addr`, if any.
pub open spec fn guard_of(s: Seq<Vma>, addr: u32) -> Option<Vma> {
    if exists|k: int| first_guard(s, k, addr) {
        Some(s[choose|k: int| first_guard(s, k, addr)])
    } else {
        None
    }
}

/// Only one slot can be the first guard region holding an address.
proof fn lemma_first_guard_unique(s: Seq<Vma>, k1: int, k2: int, addr: u32)
    requires
        first_guard(s, k1, addr),
        first_guard(s, k2, addr),
    ensures
        k1 == k2,
{
    if k1 < k2 {
        assert(s[k1].holds(addr) && s[k1].kind == VmaKind::Guard);
    } else if k2 < k1 {
        assert(s[k2].holds(addr) && s[k2].kind == VmaKind::Guard);
    }
}

/// When the first region holding `addr` is a guard region, some guard
/// region holds it.
pub proof fn lemma_guard_region_found(s: Seq<Vma>, addr: u32)
    ensures
        region_of(s, addr) matches Some(v) && v.kind == VmaKind::Guard ==> guard_of(s, addr) is Some,
{
    if exists|k: int| first_holding(s, k, addr) {
        let k = choose|k: int| first_holding(s, k, addr);
        if s[k].kind == VmaKind::Guard {
            lemma_first_guard_exists(s, addr, k + 1);
        }
    }
}

/// When some slot below `n` is a guard region holding `addr`, there is a
/// first one.
proof fn lemma_first_guard_exists(s: Seq<Vma>, addr: u32, n: int)
    requires
        0 <= n <= s.len(),
        exists|k: int| 0 <= k < n && (#[trigger] s[k]).holds(addr) && s[k].kind == VmaKind::Guard,
    ensures
        exists|k: int| first_guard(s, k, addr),
    decreases n,
{
    if exists|k: int| 0 <= k < n - 1 && (#[trigger] s[k]).holds(addr) && s[k].kind == VmaKind::Guard {
        lemma_first_guard_exists(s, addr, n - 1);
    } else {
        assert(first_guard(s, n - 1, addr));
    }
}

/// Only one slot can be the first to hold an address.
proof fn lemma_first_holding_unique(s: Seq<Vma>, k1: int, k2: int, addr: u32)
    requires
        first_holding(s, k1, addr),
        first_holding(s, k2, addr),
    ensures
        k1 == k2,
{
    if k1 < k2 {
        assert(!s[k1].holds(addr));
    } else if k2 < k1 {
        assert(!s[k2].holds(addr));
    }
}

/// `t` is `s` with the end of the first active region starting at `start`
/// set to `new_end` rounded up to a page; `s` itself when there is none.
pub open spec fn extended(s: Seq<Vma>, start: u32, new_end: u32, t: Seq<Vma>) -> bool {
    if exists|k: int| 0 <= k < s.len() && (#[trigger] s[k]).active && s[k].start == start {
        exists|k: int| #![trigger s[k]]
            first_starting_at(s, k, start) && t == s.update(k, Vma { end: round_up_page(new_end), ..s[k] })
    } else {
        t == s
    }
}

/// The table of regions.
pub struct VmaTable {
    slots: [Vma; 32],
    count: usize,
}

impl VmaTable {
    /// The slots, in table order.
    pub closed spec fn slots(&self) -> Seq<Vma> {
        self.slots@
    }

    /// The number of active regions, as counted.
    pub closed spec fn count_spec(&self) -> nat {
        self.count as nat
    }

    /// The invariant: the counter is the number of active slots.
    pub open spec fn wf(&self) -> bool {
        &&& self.slots().len() == MAX_VMAS
        &&& self.count_spec() == count_active(self.slots(), MAX_VMAS as int)
    }

    /// An empty table.
    pub fn new() -> (r: Self)
        ensures
            r.wf(),
            r.count_spec() == 0,
            forall|i: int| 0 <= i < MAX_VMAS ==> !(#[trigger] r.slots()[i]).active,
    {
        let r = VmaTable { slots: [Vma::empty(); 32], count: 0 };
        proof {
            lemma_count_active_none(r.slots(), 32);
        }
        r
    }

    /// Register the region `[start, end)` (start taken down and end rounded
    /// up to a page) in the first free slot. `false` when the table is full.
    pub fn register(&mut self, start: u32, end: u32, kind: VmaKind, flags: VmaFlags) -> (r: bool)
        requires
            old(self).wf(),
            old(self).count_spec() < MAX_VMAS ==> end + 4096 <= u32::MAX,
        ensures
            final(self).wf(),
            r == (old(self).count_spec() < MAX_VMAS),
            r ==> exists|k: int| #![trigger final(self).slots()[k]]
                first_inactive(old(self).slots(), k)
                && final(self).slots() == old(self).slots().update(k, Vma {
                    start: start & 0xFFFF_F000u32,
                    end: round_up_page(end),
                    kind,
                    flags,
                    active: true,
                }),
            !r ==> *final(self) == *old(self),
            final(self).count_spec() == old(self).count_spec() + if r { 1int } else { 0int },
            final(self).slots() == with_registered(old(self).slots(), region_for(start, end, kind, flags)),
    {
        if self.count >= MAX_VMAS {
            proof {
                lemma_count_active_bounded(self.slots(), 32);
                lemma_count_all_active(self.slots(), 32);
                if exists|k: int| first_inactive(self.slots(), k) {
                    let k = choose|k: int| first_inactive(self.slots(), k);
                    assert(self.slots()[k].active);
                }
            }
            return false;
        }
        proof {
            lemma_inactive_exists(self.slots(), 32);
        }
        let mut i: usize = 0;
        while i < MAX_VMAS
            invariant
                i <= 32,
                *self == *old(self),
                self.wf(),
                self.count_spec() < MAX_VMAS,
                end + 4096 <= u32::MAX,
                exists|k: int| i <= k < 32 && !self.slots()[k].active,
                forall|j: int| 0 <= j < i ==> (#[trigger] self.slots()[j]).active,
            decreases 32 - i,
        {
            if !self.slots[i].active {
                let ghost before = self.slots();
                let v = Vma {
                    start: start & 0xFFFF_F000,
                    end: (end + 4096 - 1) & 0xFFFF_F000,
                    kind,
                    flags,
                    active: true,
                };
                self.slots[i] = v;
                self.count = self.count + 1;
                proof {
                    lemma_count_active_update(before, 32, i as int, v);
                    assert(first_inactive(before, i as int));
                    assert(self.slots() == before.update(i as int, v));
                    assert(self.slots()[i as int] == v);
                    let k = choose|k: int| first_inactive(before, k);
                    lemma_first_inactive_unique(before, i as int, k);
                }
                return true;
            }
            i = i + 1;
        }
        false
    }

    /// Remove the first active region starting at `start`; `false` when
    /// there is none.
    pub fn unregister(&mut self, start: u32) -> (r: bool)
        requires
            old(self).wf(),
        ensures
            final(self).wf(),
            r == exists|k: int| 0 <= k < MAX_VMAS && (#[trigger] old(self).slots()[k]).active && old(self).slots()[k].start == start,
            r ==> exists|k: int| #![trigger final(self).slots()[k]]
                first_starting_at(old(self).slots(), k, start)
                && final(self).slots() == old(self).slots().update(k, Vma { active: false, ..old(self).slots()[k] }),
            !r ==> *final(self) == *old(self),
            final(self).count_spec() == old(self).count_spec() - if r { 1int } else { 0int },
    {
        let mut i: usize = 0;
        while i < MAX_VMAS
            invariant
                i <= 32,
                *self == *old(self),
                self.wf(),
                forall|j: int| 0 <= j < i ==> !((#[trigger] self.slots()[j]).active && self.slots()[j].start == start),
            decreases 32 - i,
        {
            if self.slots[i].active && self.slots[i].start == start {
                let ghost before = self.slots();
                let v = Vma { active: false, ..self.slots[i] };
                self.slots[i] = v;
                proof {
                    lemma_count_active_update(before, 32, i as int, v);
                    lemma_count_active_bounded(before, 32);
                    assert(first_starting_at(before, i as int, start));
                    assert(self.slots() == before.update(i as int, v));
                    assert(self.slots()[i as int] == v);
                }
                self.count = self.count - 1;
                return true;
            }
            i = i + 1;
        }
        false
    }

    /// The first region that contains `addr`, `None` when none does.
    pub fn find(&self, addr: u32) -> (r: Option<Vma>)
        requires
            self.wf(),
        ensures
            match r {
                Some(v) => exists|k: int| #![trigger self.slots()[k]]
                    first_holding(self.slots(), k, addr) && v == self.slots()[k],
                None => forall|k: int| 0 <= k < MAX_VMAS ==> !(#[trigger] self.slots()[k]).holds(addr),
            },
            r == region_of(self.slots(), addr),
    {
        let mut i: usize = 0;
        while i < MAX_VMAS
            invariant
                i <= 32,
                self.wf(),
                forall|j: int| 0 <= j < i ==> !(#[trigger] self.slots()[j]).holds(addr),
            decreases 32 - i,
        {
            if self.slots[i].contains(addr) {
                proof {
                    assert(first_holding(self.slots(), i as int, addr));
                    let k = choose|k: int| first_holding(self.slots(), k, addr);
                    lemma_first_holding_unique(self.slots(), i as int, k, addr);
                }
                return Some(self.slots[i]);
            }
            i = i + 1;
        }
        None
    }

    /// The first guard region that contains `addr`, `None` when none does.
    pub fn find_guard(&self, addr: u32) -> (r: Option<Vma>)
        requires
            self.wf(),
        ensures
            r == guard_of(self.slots(), addr),
    {
        let mut i: usize = 0;
        while i < MAX_VMAS
            invariant
                i <= 32,
                self.wf(),
                forall|j: int| 0 <= j < i ==> !((#[trigger] self.slots()[j]).holds(addr) && self.slots()[j].kind == VmaKind::Guard),
            decreases 32 - i,
        {
            if self.slots[i].contains(addr) && self.slots[i].kind == VmaKind::Guard {
                proof {
                    assert(first_guard(self.slots(), i as int, addr));
                    let k = choose|k: int| first_guard(self.slots(), k, addr);
                    lemma_first_guard_unique(self.slots(), i as int, k, addr);
                }
                return Some(self.slots[i]);
            }
            i = i + 1;
        }
        None
    }

    /// Set the end of the first active region starting at `start` to
    /// `new_end` rounded up to a page; `false` when there is none.
    pub fn extend(&mut self, start: u32, new_end: u32) -> (r: bool)
        requires
            old(self).wf(),
            new_end + 4096 <= u32::MAX || !exists|k: int| 0 <= k < MAX_VMAS && (#[trigger] old(self).slots()[k]).active
                && old(self).slots()[k].start == start,
        ensures
            final(self).wf(),
            r == exists|k: int| 0 <= k < MAX_VMAS && (#[trigger] old(self).slots()[k]).active && old(self).slots()[k].start == start,
            r ==> exists|k: int| #![trigger final(self).slots()[k]]
                first_starting_at(old(self).slots(), k, start)
                && final(self).slots() == old(self).slots().update(k, Vma { end: round_up_page(new_end), ..old(self).slots()[k] }),
            !r ==> *final(self) == *old(self),
            final(self).count_spec() == old(self).count_spec(),
            extended(old(self).slots(), start, new_end, final(self).slots()),
    {
        let mut i: usize = 0;
        while i < MAX_VMAS
            invariant
                i <= 32,
                *self == *old(self),
                self.wf(),
                new_end + 4096 <= u32::MAX || !exists|k: int| 0 <= k < MAX_VMAS && (#[trigger] self.slots()[k]).active
                    && self.slots()[k].start == start,
                forall|j: int| 0 <= j < i ==> !((#[trigger] self.slots()[j]).active && self.slots()[j].start == start),
            decreases 32 - i,
        {
            if self.slots[i].active && self.slots[i].start == start {
                let ghost before = self.slots();
                let v = Vma { end: (new_end + 4096 - 1) & 0xFFFF_F000, ..self.slots[i] };
                self.slots[i] = v;
                proof {
                    lemma_count_active_update(before, 32, i as int, v);
                    assert(first_starting_at(before, i as int, start));
                    assert(self.slots() == before.update(i as int, v));
                    assert(self.slots()[i as int] == v);
                }
                return true;
            }
            i = i + 1;
        }
        false
    }

    /// The number of active regions.
    pub fn count(&self) -> (r: usize)
        ensures
            r == self.count_spec(),
    {
        self.count
    }

    /// The active regions, in table order.
    pub fn active_regions(&self) -> (r: Vec<Vma>)
        requires
            self.wf(),
        ensures
            r@ == self.slots().filter(|v: Vma| v.active),
    {
        let mut r: Vec<Vma> = Vec::new();
        let mut i: usize = 0;
        while i < MAX_VMAS
            invariant
                i <= 32,
                self.wf(),
                r@ == self.slots().take(i as int).filter(|v: Vma| v.active),
            decreases 32 - i,
        {
            proof {
                reveal(Seq::filter);
                assert(self.slots().take(i as int + 1).drop_last() =~= self.slots().take(i as int));
            }
            if self.slots[i].active {
                r.push(self.slots[i]);
            }
            i = i + 1;
        }
        proof {
            assert(self.slots().take(32) =~= self.slots());
        }
        r
    }
}

/// Replacing one slot changes the count of active slots by the difference.
proof fn lemma_count_active_update(s: Seq<Vma>, n: int, j: int, v: Vma)
    requires
        0 <= n <= s.len(),
        0 <= j < n,
    ensures
        count_active(s.update(j, v), n) == count_active(s, n) - (if s[j].active { 1int } else { 0int }) + (if v.active { 1int } else { 0int }),
    decreases n,
{
    if n > 0 && j < n - 1 {
        lemma_count_active_update(s, n - 1, j, v);
    } else if n > 0 {
        assert(s.update(j, v).take(n - 1) =~= s.take(n - 1));
        lemma_count_active_same(s.update(j, v), s, n - 1);
    }
}

/// Sequences agreeing on the first `n` slots have the same count.
proof fn lemma_count_active_same(a: Seq<Vma>, b: Seq<Vma>, n: int)
    requires
        0 <= n <= a.len(),
        n <= b.len(),
        forall|i: int| 0 <= i < n ==> a[i] == b[i],
    ensures
        count_active(a, n) == count_active(b, n),
    decreases n,
{
    if n > 0 {
        lemma_count_active_same(a, b, n - 1);
    }
}

proof fn lemma_count_active_bounded(s: Seq<Vma>, n: int)
    requires
        0 <= n <= s.len(),
    ensures
        count_active(s, n) <= n,
    decreases n,
{
    if n > 0 {
        lemma_count_active_bounded(s, n - 1);
    }
}

proof fn lemma_count_active_none(s: Seq<Vma>, n: int)
    requires
        0 <= n <= s.len(),
        forall|i: int| 0 <= i < n ==> !s[i].active,
    ensures
        count_active(s, n) == 0,
    decreases n,
{
    if n > 0 {
        lemma_count_active_none(s, n - 1);
    }
}

/// Fewer active slots than slots means some slot is inactive.
proof fn lemma_inactive_exists(s: Seq<Vma>, n: int)
    requires
        0 <= n <= s.len(),
        count_active(s, n) < n,
    ensures
        exists|k: int| 0 <= k < n && !s[k].active,
    decreases n,
{
    if n > 0 {
        if s[n - 1].active {
            lemma_inactive_exists(s, n - 1);
            let k = choose|k: int| 0 <= k < n - 1 && !s[k].active;
            assert(0 <= k < n && !s[k].active);
        }
    }
}


/// A region registered in a table with a free slot is what `find` gives for
/// each of its addresses that no region already in the table holds.
pub proof fn law_registered_region_found(s: Seq<Vma>, v: Vma, addr: u32)
    requires
        s.len() == MAX_VMAS,
        exists|k: int| 0 <= k < s.len() && !(#[trigger] s[k]).active,
        v.holds(addr),
        forall|k: int| 0 <= k < s.len() ==> !(#[trigger] s[k]).holds(addr),
    ensures
        region_of(with_registered(s, v), addr) == Some(v),
{
    lemma_first_inactive_exists(s, s.len() as int);
    let k = choose|k: int| first_inactive(s, k);
    let t = with_registered(s, v);
    assert(t == s.update(k, v));
    assert(first_holding(t, k, addr)) by {
        assert forall|j: int| 0 <= j < k implies !(#[trigger] t[j]).holds(addr) by {
            assert(t[j] == s[j]);
        }
    }
    let k2 = choose|k2: int| first_holding(t, k2, addr);
    lemma_first_holding_unique(t, k, k2, addr);
}

/// When some slot among the first `n` is inactive, there is a first one.
proof fn lemma_first_inactive_exists(s: Seq<Vma>, n: int)
    requires
        0 <= n <= s.len(),
        exists|k: int| 0 <= k < n && !(#[trigger] s[k]).active,
    ensures
        exists|k: int| first_inactive(s, k),
    decreases n,
{
    if exists|k: int| 0 <= k < n - 1 && !(#[trigger] s[k]).active {
        lemma_first_inactive_exists(s, n - 1);
    } else {
        assert(!s[n - 1].active);
        assert(first_inactive(s, n - 1));
    }
}


/// Registering a region whose start no active region shares, in a table
/// with a free slot, then unregistering that start, leaves every slot's
/// active flag, every active region, the count of active regions and the
/// region found for every address as they were.
pub proof fn law_unregister_undoes_register(s: Seq<Vma>, v: Vma, k: int)
    requires
        s.len() == MAX_VMAS,
        v.active,
        exists|j: int| first_inactive(s, j),
        forall|j: int| 0 <= j < s.len() ==> !((#[trigger] s[j]).active && s[j].start == v.start),
        first_starting_at(with_registered(s, v), k, v.start),
    ensures
        ({
            let w = with_registered(s, v);
            let t = w.update(k, Vma { active: false, ..w[k] });
            &&& t.len() == s.len()
            &&& forall|j: int| 0 <= j < s.len() ==> (#[trigger] t[j]).active == s[j].active
            &&& forall|j: int| 0 <= j < s.len() && s[j].active ==> #[trigger] t[j] == s[j]
            &&& count_active(t, MAX_VMAS as int) == count_active(s, MAX_VMAS as int)
            &&& forall|addr: u32| #[trigger] region_of(t, addr) == region_of(s, addr)
        }),
{
    let w = with_registered(s, v);
    let k0 = choose|j: int| first_inactive(s, j);
    assert(w == s.update(k0, v));
    assert(k == k0) by {
        if k != k0 {
            assert(w[k] == s[k]);
        }
    }
    let t = w.update(k, Vma { active: false, ..w[k] });
    lemma_count_active_update(s, MAX_VMAS as int, k0, v);
    lemma_count_active_update(w, MAX_VMAS as int, k, Vma { active: false, ..w[k] });
    assert forall|j: int| 0 <= j < s.len() && j != k0 implies #[trigger] t[j] == s[j] by {}
    assert forall|addr: u32| #[trigger] region_of(t, addr) == region_of(s, addr) by {
        assert forall|j: int| #![trigger t[j]] #![trigger s[j]] 0 <= j < s.len() implies t[j].holds(addr) == s[j].holds(addr) by {
            if j != k0 {
                assert(t[j] == s[j]);
            }
        }
        if exists|j: int| first_holding(s, j, addr) {
            let a = choose|j: int| first_holding(s, j, addr);
            assert(first_holding(t, a, addr));
            let b = choose|j: int| first_holding(t, j, addr);
            assert(first_holding(s, b, addr));
            lemma_first_holding_unique(s, a, b, addr);
            assert(a != k0);
        } else {
            assert forall|j: int| !first_holding(t, j, addr) by {
                if first_holding(t, j, addr) {
                    assert(first_holding(s, j, addr));
                }
            }
        }
    }
}

} // verus!
