//! Paging: frame allocator, page directory and page tables, the mapper and
//! the virtual memory area table, and the boot-time set-up that ties them
//! together (identity map, frame allocator, regions, guard pages).

pub mod enable;
pub mod frame_allocator;
pub mod mapper;
pub mod page_table;
pub mod page_directory;
pub mod vma;

use vstd::prelude::*;
use crate::paging::vma::{Vma, VmaKind, VmaFlags, VmaTable, region_for, with_registered, MAX_VMAS};
use crate::paging::mapper::{AddressSpace, PAGE_SIZE};
use crate::paging::frame_allocator::{FrameAllocator, MAX_MEMORY};

verus! {

/// Where the linker placed the kernel: the end of its image, its two stacks
/// and the guard page below each.
#[derive(Clone, Copy)]
pub struct BootLayout {
    pub kernel_end: u32,
    pub kernel_stack_bottom: u32,
    pub kernel_stack_top: u32,
    pub user_stack_bottom: u32,
    pub user_stack_top: u32,
    pub kernel_guard_page: u32,
    pub user_guard_page: u32,
}

/// The layout's region ends leave room to round up to a page.
pub open spec fn layout_fits(l: BootLayout) -> bool {
    &&& l.kernel_end + 4096 <= u32::MAX
    &&& l.kernel_stack_top + 4096 <= u32::MAX
    &&& l.user_stack_top + 4096 <= u32::MAX
    &&& l.kernel_guard_page + 8192 <= u32::MAX
    &&& l.user_guard_page + 8192 <= u32::MAX
}

/// The regions known at boot, in the order they are registered: the
/// identity map, the VGA text buffer, the kernel image, the kernel stack's
/// guard page and stack, the user stack's guard page and stack, and the
/// initial heap (mapped on demand).
pub open spec fn boot_regions(l: BootLayout) -> Seq<Vma> {
    seq![
        region_for(0, 0x0400_0000, VmaKind::Identity, VmaFlags(7)),
        region_for(0x000B_8000, 0x000B_9000, VmaKind::Mmio, VmaFlags(3)),
        region_for(0x0010_0000, l.kernel_end, VmaKind::KernelImage, VmaFlags(7)),
        region_for(l.kernel_guard_page, (l.kernel_guard_page + 4096) as u32, VmaKind::Guard, VmaFlags(0)),
        region_for(l.kernel_stack_bottom, l.kernel_stack_top, VmaKind::KernelStack, VmaFlags(3)),
        region_for(l.user_guard_page, (l.user_guard_page + 4096) as u32, VmaKind::Guard, VmaFlags(0)),
        region_for(l.user_stack_bottom, l.user_stack_top, VmaKind::UserStack, VmaFlags(11)),
        region_for(0x0400_0000, 0x0401_0000, VmaKind::Heap, VmaFlags(19)),
    ]
}

/// `s` with each region of `vs` registered in turn.
pub open spec fn register_all(s: Seq<Vma>, vs: Seq<Vma>) -> Seq<Vma>
    decreases vs.len(),
{
    if vs.len() == 0 {
        s
    } else {
        with_registered(register_all(s, vs.drop_last()), vs.last())
    }
}

/// Register every region known at boot in `vmas`, in order. A region that
/// finds the table full is dropped.
pub fn register_boot_vmas(vmas: &mut VmaTable, layout: &BootLayout)
    requires
        old(vmas).wf(),
        layout_fits(*layout),
    ensures
        final(vmas).wf(),
        final(vmas).slots() == register_all(old(vmas).slots(), boot_regions(*layout)),
        old(vmas).count_spec() + 8 <= MAX_VMAS ==> final(vmas).count_spec() == old(vmas).count_spec() + 8,
{
    let ghost s0 = vmas.slots();
    let rw = VmaFlags::new(vma::VMA_READ | vma::VMA_WRITE);
    let rwx = VmaFlags::new(vma::VMA_READ | vma::VMA_WRITE | vma::VMA_EXEC);
    let none = VmaFlags::new(vma::VMA_NONE);
    let user_rw = VmaFlags::new(vma::VMA_READ | vma::VMA_WRITE | vma::VMA_USER);
    let heap_rw = VmaFlags::new(vma::VMA_READ | vma::VMA_WRITE | vma::VMA_DEMAND);
    assert(vma::VMA_READ | vma::VMA_WRITE == 3u8) by (bit_vector);
    assert(vma::VMA_READ | vma::VMA_WRITE | vma::VMA_EXEC == 7u8) by (bit_vector);
    assert(vma::VMA_READ | vma::VMA_WRITE | vma::VMA_USER == 11u8) by (bit_vector);
    assert(vma::VMA_READ | vma::VMA_WRITE | vma::VMA_DEMAND == 19u8) by (bit_vector);
    vmas.register(0x0000_0000, MAX_MEMORY as u32, VmaKind::Identity, rwx);
    vmas.register(0x000B_8000, 0x000B_8000 + PAGE_SIZE as u32, VmaKind::Mmio, rw);
    vmas.register(0x0010_0000, layout.kernel_end, VmaKind::KernelImage, rwx);
    let kguard = layout.kernel_guard_page;
    vmas.register(kguard, kguard + PAGE_SIZE as u32, VmaKind::Guard, none);
    vmas.register(layout.kernel_stack_bottom, layout.kernel_stack_top, VmaKind::KernelStack, rw);
    let uguard = layout.user_guard_page;
    vmas.register(uguard, uguard + PAGE_SIZE as u32, VmaKind::Guard, none);
    vmas.register(layout.user_stack_bottom, layout.user_stack_top, VmaKind::UserStack, user_rw);
    vmas.register(
        crate::heap::HEAP_START as u32,
        (crate::heap::HEAP_START + crate::heap::HEAP_INIT_SIZE) as u32,
        VmaKind::Heap,
        heap_rw,
    );
    proof {
        let b = boot_regions(*layout);
        reveal_with_fuel(register_all, 9);
        assert(b.take(0) =~= Seq::<Vma>::empty());
        assert forall|n: int| 0 < n <= 8 implies #[trigger] b.take(n).drop_last() =~= b.take(n - 1) by {}
        assert(b.take(8) =~= b);
    }
}

/// Unmap the guard page below each stack, so that running off the bottom
/// of a stack faults instead of silently overwriting what lies below.
pub fn setup_guard_pages(space: &mut AddressSpace, frames: &mut FrameAllocator, layout: &BootLayout)
    requires
        old(space).wf(),
        old(frames).wf(),
    ensures
        final(space).wf(),
        final(frames).wf(),
        final(frames).total() == old(frames).total(),
        forall|w: u32| #[trigger] final(space).translate(w) == if mapper::same_page(w, layout.kernel_guard_page)
            || mapper::same_page(w, layout.user_guard_page) {
            None
        } else {
            old(space).translate(w)
        },
        mapper::pd_index(layout.kernel_guard_page) < mapper::NUM_IDENTITY_PTS && mapper::pd_index(layout.user_guard_page)
            < mapper::NUM_IDENTITY_PTS ==> *final(frames) == *old(frames),
{
    space.unmap_page(frames, layout.kernel_guard_page);
    space.unmap_page(frames, layout.user_guard_page);
}

/// Set up paging before it is switched on: identity map the first 64 MB
/// with the page tables at `table_addrs`, track the frames above the kernel
/// image as free, register the regions known at boot, and unmap the guard
/// pages.
pub fn init(
    space: &mut AddressSpace,
    frames: &mut FrameAllocator,
    vmas: &mut VmaTable,
    layout: &BootLayout,
    table_addrs: [u32; 16],
)
    requires
        old(space).wf(),
        old(vmas).wf(),
        layout_fits(*layout),
        forall|i: int| 0 <= i < 16 ==> table_addrs@[i] & 0xFFFu32 == 0,
    ensures
        final(space).wf(),
        final(frames).wf(),
        final(vmas).wf(),
        forall|v: u32| #[trigger] final(space).translate(v) == if mapper::same_page(v, layout.kernel_guard_page)
            || mapper::same_page(v, layout.user_guard_page) {
            None
        } else if mapper::pd_index(v) < 16 {
            Some(v)
        } else {
            old(space).translate(v)
        },
        final(frames).total() == MAX_MEMORY / PAGE_SIZE,
        mapper::pd_index(layout.kernel_guard_page) < mapper::NUM_IDENTITY_PTS && mapper::pd_index(layout.user_guard_page)
            < mapper::NUM_IDENTITY_PTS ==> forall|i: int| 0 <= i < frame_allocator::MAX_FRAMES ==> #[trigger] final(frames).used_view()[i]
            == !((layout.kernel_end + PAGE_SIZE - 1) / PAGE_SIZE as int <= i < final(frames).total()),
        final(vmas).slots() == register_all(old(vmas).slots(), boot_regions(*layout)),
{
    space.identity_map(table_addrs);
    frames.init(MAX_MEMORY, layout.kernel_end as usize);
    register_boot_vmas(vmas, layout);
    setup_guard_pages(space, frames, layout);
}

/// Registering regions one by one into a table with no active slot puts
/// them in the first slots, in order, and leaves the other slots inactive.
pub proof fn law_regions_fill_in_order(s: Seq<Vma>, vs: Seq<Vma>)
    requires
        s.len() == MAX_VMAS,
        forall|k: int| 0 <= k < s.len() ==> !(#[trigger] s[k]).active,
        vs.len() <= MAX_VMAS,
        forall|i: int| 0 <= i < vs.len() ==> (#[trigger] vs[i]).active,
    ensures
        register_all(s, vs).len() == MAX_VMAS,
        forall|i: int| 0 <= i < vs.len() ==> #[trigger] register_all(s, vs)[i] == vs[i],
        forall|k: int| vs.len() <= k < MAX_VMAS ==> !(#[trigger] register_all(s, vs)[k]).active,
    decreases vs.len(),
{
    if vs.len() > 0 {
        let init = vs.drop_last();
        law_regions_fill_in_order(s, init);
        let r = register_all(s, init);
        let n = init.len() as int;
        assert(vma::first_inactive(r, n)) by {
            assert forall|j: int| 0 <= j < n implies (#[trigger] r[j]).active by {
                assert(r[j] == init[j]);
                assert(init[j] == vs[j]);
            }
        }
        let k = choose|k: int| vma::first_inactive(r, k);
        if k < n {
            assert(r[k] == init[k] && init[k] == vs[k]);
        } else if k > n {
            assert(r[n].active);
        }
        assert forall|i: int| 0 <= i < vs.len() implies #[trigger] register_all(s, vs)[i] == vs[i] by {
            if i < n {
                assert(init[i] == vs[i]);
            }
        }
    }
}

/// After the boot regions are registered in a table with no active slot,
/// the first region holding any address of the first 64 MB is the identity
/// region, which comes first.
pub proof fn law_identity_region_found_first(s: Seq<Vma>, l: BootLayout, addr: u32)
    requires
        s.len() == MAX_VMAS,
        forall|k: int| 0 <= k < s.len() ==> !(#[trigger] s[k]).active,
        addr < 0x0400_0000,
    ensures
        vma::region_of(register_all(s, boot_regions(l)), addr) == Some(boot_regions(l)[0]),
{
    let b = boot_regions(l);
    assert forall|i: int| 0 <= i < b.len() implies (#[trigger] b[i]).active by {}
    law_regions_fill_in_order(s, b);
    let t = register_all(s, b);
    assert(t[0] == b[0]);
    assert(0u32 & 0xFFFF_F000u32 == 0u32) by (bit_vector);
    assert(((0x0400_0000u32 + 4095) as u32) & 0xFFFF_F000u32 == 0x0400_0000u32) by (bit_vector);
    assert(vma::first_holding(t, 0, addr));
    let k = choose|k: int| vma::first_holding(t, k, addr);
    assert(k == 0) by {
        if k > 0 {
            assert(!t[0].holds(addr));
        }
    }
}


/// After the boot regions are registered in a table with no active slot,
/// the guard region found for an address is the kernel stack's guard page
/// when it holds the address, else the user stack's guard page when that
/// holds it, else none: a fault in either guard page is seen as a guard hit
/// although the identity region holds it too.
pub proof fn law_guard_pages_found_after_boot(s: Seq<Vma>, l: BootLayout, addr: u32)
    requires
        s.len() == MAX_VMAS,
        forall|k: int| 0 <= k < s.len() ==> !(#[trigger] s[k]).active,
    ensures
        vma::guard_of(register_all(s, boot_regions(l)), addr) == if boot_regions(l)[3].holds(addr) {
            Some(boot_regions(l)[3])
        } else if boot_regions(l)[5].holds(addr) {
            Some(boot_regions(l)[5])
        } else {
            None
        },
{
    let b = boot_regions(l);
    assert forall|i: int| 0 <= i < b.len() implies (#[trigger] b[i]).active by {}
    law_regions_fill_in_order(s, b);
    let t = register_all(s, b);
    assert(t[0] == b[0] && t[1] == b[1] && t[2] == b[2] && t[3] == b[3] && t[4] == b[4] && t[5] == b[5] && t[6]
        == b[6] && t[7] == b[7]);
    let is_guard = |k: int| t[k].holds(addr) && t[k].kind == VmaKind::Guard;
    assert(!is_guard(0) && !is_guard(1) && !is_guard(2) && !is_guard(4) && !is_guard(6) && !is_guard(7));
    assert forall|k: int| 8 <= k < MAX_VMAS implies !(#[trigger] t[k]).active by {}
    if b[3].holds(addr) {
        assert(vma::first_guard(t, 3, addr));
        let k = choose|k: int| vma::first_guard(t, k, addr);
        assert(k == 3) by {
            if k < 3 {
                assert(!is_guard(k));
            } else if k > 3 {
                assert(t[3].holds(addr) && t[3].kind == VmaKind::Guard);
            }
        }
    } else if b[5].holds(addr) {
        assert(vma::first_guard(t, 5, addr));
        let k = choose|k: int| vma::first_guard(t, k, addr);
        assert(k == 5) by {
            if k < 5 {
                assert(!is_guard(k));
            } else if k > 5 {
                assert(t[5].holds(addr) && t[5].kind == VmaKind::Guard);
            }
        }
    } else {
        assert forall|k: int| !vma::first_guard(t, k, addr) by {
            if 0 <= k < 8 {
                assert(!is_guard(k));
            } else if 8 <= k < MAX_VMAS {
                assert(!t[k].active);
            }
        }
    }
}

} // verus!
