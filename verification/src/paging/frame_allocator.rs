//! Bitmap-based physical frame allocator.
//!
//! Each bit of the bitmap stands for one 4 KB frame: 0 = free, 1 = used.
//! Everything below the end of the kernel image is kept used after `init`;
//! the frames from there up to the top of memory are handed out.
use vstd::prelude::*;
use crate::paging::mapper::PAGE_SIZE;

verus! {

/// Maximum physical memory tracked (64 MB).
pub const MAX_MEMORY: usize = 64 * 1024 * 1024;

/// Number of 4 KB frames in `MAX_MEMORY` (64 MB / 4 KB).
pub const MAX_FRAMES: usize = 16384;

/// Each bitmap word tracks 32 consecutive frames.
pub const BITS_PER_WORD: usize = 32;

/// Number of words in the bitmap (`MAX_FRAMES / BITS_PER_WORD`).
pub const BITMAP_SIZE: usize = 512;

/// Whether bit `b` of `w` is set.
pub open spec fn bit_of(w: u32, b: u32) -> bool {
    w & (1u32 << b) != 0u32
}

/// Number of `true` entries among the first `n` of `s`.
pub open spec fn count_true(s: Seq<bool>, n: int) -> nat
    decreases n,
{
    if n <= 0 {
        0
    } else {
        count_true(s, n - 1) + if s[n - 1] { 1nat } else { 0nat }
    }
}

/// The largest frame index an address of the machine can name: the
/// difference between the used counter and the number of used frames
/// never exceeds it.
pub open spec fn max_surplus() -> nat {
    (usize::MAX / PAGE_SIZE) as nat
}

/// One flag per frame of a bitmap: bit `i % 32` of word `i / 32`.
pub open spec fn bitmap_view(bitmap: [u32; 512]) -> Seq<bool> {
    Seq::new(MAX_FRAMES as nat, |i: int| bit_of(bitmap@[i / 32], (i % 32) as u32))
}

/// Bitmap-based physical frame allocator.
pub struct FrameAllocator {
    bitmap: [u32; 512],
    total_frames: usize,
    used_frames: usize,
    next_free_hint: usize,
}

impl FrameAllocator {
    /// The bitmap, one flag per frame (`true` = used), for all `MAX_FRAMES` frames.
    pub closed spec fn used_view(&self) -> Seq<bool> {
        bitmap_view(self.bitmap)
    }

    /// Number of frames the machine has (the tracked range).
    pub closed spec fn total(&self) -> nat {
        self.total_frames as nat
    }

    /// The used-frames counter.
    pub closed spec fn used(&self) -> nat {
        self.used_frames as nat
    }

    /// Word index where the next allocation starts scanning.
    pub closed spec fn hint(&self) -> nat {
        self.next_free_hint as nat
    }

    /// Number of used frames among the tracked ones.
    pub open spec fn used_in_range(&self) -> nat {
        count_true(self.used_view(), self.total() as int)
    }

    /// Number of tracked frames that are free.
    pub open spec fn free_frames(&self) -> int {
        self.total() - self.used_in_range()
    }

    /// Every tracked frame below the hint's word is used.
    pub open spec fn below_hint_used(&self) -> bool {
        forall|i: int| 0 <= i < self.total() && i < self.hint() * 32 ==> #[trigger] self.used_view()[i]
    }

    /// The allocator's invariant.
    pub open spec fn wf(&self) -> bool {
        &&& self.used_view().len() == MAX_FRAMES
        &&& self.total() <= MAX_FRAMES
        &&& self.used_in_range() <= self.used()
        &&& self.used() <= self.used_in_range() + max_surplus()
        &&& self.below_hint_used()
    }

    /// Whether some frame of `[lo, hi)` is free.
    pub open spec fn has_free_in(&self, lo: int, hi: int) -> bool {
        exists|i: int| lo <= i < hi && !self.used_view()[i]
    }

    /// `i` is the lowest free frame of `[lo, hi)`.
    pub open spec fn lowest_free_in(&self, i: int, lo: int, hi: int) -> bool {
        &&& lo <= i < hi
        &&& !self.used_view()[i]
        &&& forall|j: int| lo <= j < i ==> self.used_view()[j]
    }

    /// Where the first scan starts: the hint's first frame, but not past the end.
    pub open spec fn scan_start(&self) -> int {
        if self.hint() * 32 < self.total() { (self.hint() * 32) as int } else { self.total() as int }
    }

    /// The frame index that the next `alloc_frame` hands out: the lowest free
    /// frame at or after the hint, else the lowest free frame before it.
    pub open spec fn next_alloc_index(&self) -> Option<int> {
        let lo = self.scan_start();
        if self.has_free_in(lo, self.total() as int) {
            Some(choose|i: int| self.lowest_free_in(i, lo, self.total() as int))
        } else if self.has_free_in(0, lo) {
            Some(choose|i: int| self.lowest_free_in(i, 0, lo))
        } else {
            None
        }
    }

    /// The alloc scan cannot run past the bitmap: either the hint lies in it,
    /// or some bit of the bitmap is clear so the scan stops before its end.
    pub open spec fn alloc_in_bounds(&self) -> bool {
        self.hint() <= BITMAP_SIZE || exists|i: int| 0 <= i < MAX_FRAMES && !self.used_view()[i]
    }

    /// `after` is `self` with frame `idx` marked used by an allocation.
    pub open spec fn took_frame(&self, after: &Self, idx: int) -> bool {
        &&& after.used_view() == self.used_view().update(idx, true)
        &&& after.used() == self.used() + 1
        &&& after.total() == self.total()
        &&& after.hint() == idx / 32
    }

    /// `after` is what `free_frame(phys)` makes of `self`.
    pub open spec fn freed(&self, after: &Self, phys: u32) -> bool {
        let idx = phys as int / PAGE_SIZE as int;
        if idx < self.total() && self.used_view()[idx] {
            &&& after.used_view() == self.used_view().update(idx, false)
            &&& after.used() == self.used() - 1
            &&& after.total() == self.total()
            &&& after.hint() == if idx / 32 < self.hint() { (idx / 32) as nat } else { self.hint() }
        } else {
            after == self
        }
    }

    /// `after` is what `mark_used(phys)` makes of `self`.
    pub open spec fn marked(&self, after: &Self, phys: u32) -> bool {
        let idx = phys as int / PAGE_SIZE as int;
        if idx < self.total() && !self.used_view()[idx] {
            &&& after.used_view() == self.used_view().update(idx, true)
            &&& after.used() == self.used() + 1
            &&& after.total() == self.total()
            &&& after.hint() == self.hint()
        } else {
            after == self
        }
    }
}

impl FrameAllocator {
    /// Setting bit `bit` of word `word` marks frame `word * 32 + bit` used and nothing else.
    proof fn lemma_word_set(a: &FrameAllocator, b: &FrameAllocator, word: int, bit: u32)
        requires
            0 <= word < 512,
            bit < 32,
            b.bitmap@ == a.bitmap@.update(word, a.bitmap@[word] | (1u32 << bit)),
        ensures
            b.used_view() == a.used_view().update(word * 32 + bit, true),
    {
        assert forall|i: int| 0 <= i < MAX_FRAMES implies b.used_view()[i] == a.used_view().update(
            word * 32 + bit,
            true,
        )[i] by {
            if i / 32 == word {
                lemma_set_bit(a.bitmap@[word], bit, (i % 32) as u32);
            }
        }
        assert(b.used_view() =~= a.used_view().update(word * 32 + bit, true));
    }

    /// Clearing bit `bit` of word `word` marks frame `word * 32 + bit` free and nothing else.
    proof fn lemma_word_clear(a: &FrameAllocator, b: &FrameAllocator, word: int, bit: u32)
        requires
            0 <= word < 512,
            bit < 32,
            b.bitmap@ == a.bitmap@.update(word, a.bitmap@[word] & !(1u32 << bit)),
        ensures
            b.used_view() == a.used_view().update(word * 32 + bit, false),
    {
        assert forall|i: int| 0 <= i < MAX_FRAMES implies b.used_view()[i] == a.used_view().update(
            word * 32 + bit,
            false,
        )[i] by {
            if i / 32 == word {
                lemma_clear_bit(a.bitmap@[word], bit, (i % 32) as u32);
            }
        }
        assert(b.used_view() =~= a.used_view().update(word * 32 + bit, false));
    }
}

impl FrameAllocator {
    /// A new allocator: nothing tracked, every bit clear. `init` must be
    /// called before it hands out frames.
    pub fn new() -> (r: Self)
        ensures
            r.wf(),
            r.total() == 0,
            r.used() == 0,
            r.hint() == 0,
            forall|i: int| 0 <= i < MAX_FRAMES ==> !r.used_view()[i],
    {
        let r = FrameAllocator { bitmap: [0u32; 512], total_frames: 0, used_frames: 0, next_free_hint: 0 };
        assert forall|i: int| 0 <= i < MAX_FRAMES implies !r.used_view()[i] by {
            lemma_zero_word((i % 32) as u32);
        }
        r
    }

    /// Clear the bit of frame `frame_idx`; the counters are left alone.
    fn clear_bit(&mut self, frame_idx: usize)
        requires
            frame_idx < MAX_FRAMES,
        ensures
            final(self).used_view() == old(self).used_view().update(frame_idx as int, false),
            final(self).total() == old(self).total(),
            final(self).used() == old(self).used(),
            final(self).hint() == old(self).hint(),
    {
        let word = frame_idx / BITS_PER_WORD;
        let bit = frame_idx % BITS_PER_WORD;
        let ghost before = *self;
        self.bitmap[word] = self.bitmap[word] & !(1u32 << (bit as u32));
        proof {
            FrameAllocator::lemma_word_clear(&before, self, word as int, bit as u32);
        }
    }

    /// Initialise for a machine with `total_memory` bytes (clamped to
    /// `MAX_MEMORY`) whose kernel image ends at `kernel_end`: the frames from
    /// `kernel_end` rounded up to a page, up to the top of memory, are free;
    /// every other frame is used. The counter holds the number of frames below
    /// the first free one, and the hint points at that frame's word.
    pub fn init(&mut self, total_memory: usize, kernel_end: usize)
        requires
            kernel_end + PAGE_SIZE <= usize::MAX,
        ensures
            final(self).wf(),
            final(self).total() == (if total_memory > MAX_MEMORY { MAX_MEMORY } else { total_memory }) / PAGE_SIZE,
            final(self).used() == (kernel_end + PAGE_SIZE - 1) / PAGE_SIZE as int,
            final(self).hint() == (kernel_end + PAGE_SIZE - 1) / PAGE_SIZE as int / 32,
            forall|i: int| 0 <= i < MAX_FRAMES ==> final(self).used_view()[i] == !(
                (kernel_end + PAGE_SIZE - 1) / PAGE_SIZE as int <= i < final(self).total()),
    {
        let memory = if total_memory > MAX_MEMORY { MAX_MEMORY } else { total_memory };
        self.total_frames = memory / PAGE_SIZE;
        let mut w: usize = 0;
        while w < BITMAP_SIZE
            invariant
                w <= BITMAP_SIZE,
                self.total_frames == memory / PAGE_SIZE,
                forall|j: int| 0 <= j < w ==> self.bitmap@[j] == 0xFFFF_FFFFu32,
            decreases BITMAP_SIZE - w,
        {
            self.bitmap[w] = 0xFFFF_FFFF;
            w = w + 1;
        }
        self.used_frames = self.total_frames;
        let first_free_addr = (kernel_end + PAGE_SIZE - 1) & !(PAGE_SIZE - 1);
        let first_free_frame = first_free_addr / PAGE_SIZE;
        proof {
            lemma_round_down_page((kernel_end + PAGE_SIZE - 1) as usize);
        }
        let ghost ff = first_free_frame as int;
        let mut idx = first_free_frame;
        proof {
            lemma_all_set(self.bitmap);
        }

        while idx < self.total_frames
            invariant
                self.total_frames == memory / PAGE_SIZE,
                self.total_frames <= MAX_FRAMES,
                idx == ff || idx <= self.total_frames,
                idx >= ff,
                forall|i: int| 0 <= i < MAX_FRAMES ==> self.used_view()[i] == !(ff <= i < idx),
            decreases self.total_frames - idx,
        {
            self.clear_bit(idx);
            idx = idx + 1;
        }
        let ghost bits = self.used_view();
        assert forall|i: int| 0 <= i < MAX_FRAMES implies bits[i] == !(ff <= i < memory / PAGE_SIZE) by {}
        self.used_frames = first_free_frame;
        self.next_free_hint = first_free_frame / BITS_PER_WORD;
        assert(self.used_view() == bits);
        proof {
            lemma_count_prefix(bits, self.total() as int, ff);
        }
    }

    /// Return the frame at `phys_addr` to the free pool. Out-of-range
    /// addresses and frames already free are left alone; the hint moves back
    /// to the freed frame's word when that lies before it.
    pub fn free_frame(&mut self, phys_addr: u32)
        requires
            old(self).wf(),
        ensures
            final(self).wf(),
            old(self).freed(final(self), phys_addr),
    {
        let idx = phys_addr as usize / PAGE_SIZE;
        if idx >= self.total_frames {
            return;
        }
        let word = idx / BITS_PER_WORD;
        let bit = idx % BITS_PER_WORD;
        assert(idx == word * 32 + bit);
        let set = self.bitmap[word] & (1u32 << (bit as u32)) != 0;
        assert(set == self.used_view()[idx as int]);
        if set {
            let ghost before = *self;
            proof {
                lemma_count_update(before.used_view(), before.total() as int, idx as int, false);
            }
            self.bitmap[word] = self.bitmap[word] & !(1u32 << (bit as u32));
            proof {
                FrameAllocator::lemma_word_clear(&before, self, word as int, bit as u32);
            }
            self.used_frames = self.used_frames - 1;
            if word < self.next_free_hint {
                self.next_free_hint = word;
            }
        }
    }

    /// Force-mark the frame at `phys_addr` used; out-of-range addresses and
    /// frames already used are left alone.
    pub fn mark_used(&mut self, phys_addr: u32)
        requires
            old(self).wf(),
        ensures
            final(self).wf(),
            old(self).marked(final(self), phys_addr),
    {
        let idx = phys_addr as usize / PAGE_SIZE;
        if idx >= self.total_frames {
            return;
        }
        let word = idx / BITS_PER_WORD;
        let bit = idx % BITS_PER_WORD;
        assert(idx == word * 32 + bit);
        let clear = self.bitmap[word] & (1u32 << (bit as u32)) == 0;
        assert(clear == !self.used_view()[idx as int]);
        if clear {
            let ghost before = *self;
            proof {
                lemma_count_update(before.used_view(), before.total() as int, idx as int, true);
                lemma_count_bounded(before.used_view(), before.total() as int);
            }
            self.bitmap[word] = self.bitmap[word] | (1u32 << (bit as u32));
            proof {
                FrameAllocator::lemma_word_set(&before, self, word as int, bit as u32);
            }
            self.used_frames = self.used_frames + 1;
        }
    }

    /// Force-mark the frame at `phys_addr` free: the same as `free_frame`.
    pub fn mark_free(&mut self, phys_addr: u32)
        requires
            old(self).wf(),
        ensures
            final(self).wf(),
            old(self).freed(final(self), phys_addr),
    {
        self.free_frame(phys_addr);
    }

    /// Whether the frame at `phys_addr` is used; addresses past the tracked
    /// frames count as used.
    pub fn is_used(&self, phys_addr: u32) -> (r: bool)
        requires
            self.wf(),
        ensures
            r == (phys_addr as int / PAGE_SIZE as int >= self.total() || self.used_view()[phys_addr
                as int / PAGE_SIZE as int]),
    {
        let idx = phys_addr as usize / PAGE_SIZE;
        if idx >= self.total_frames {
            return true;
        }
        let word = idx / BITS_PER_WORD;
        let bit = idx % BITS_PER_WORD;
        self.bitmap[word] & (1u32 << (bit as u32)) != 0
    }

    /// Some bit of frame index `lo` or above is clear.
    pub open spec fn has_clear_bit_from(&self, lo: int) -> bool {
        exists|i: int| lo <= i < MAX_FRAMES && !self.used_view()[i]
    }

    /// Allocate one 4 KB frame, returning its physical address. The scan
    /// starts at the hint's word and wraps around to the start of the bitmap;
    /// `None` when every tracked frame is used.
    pub fn alloc_frame(&mut self) -> (r: Option<u32>)
        requires
            old(self).wf(),
            old(self).alloc_in_bounds(),
        ensures
            final(self).wf(),
            match old(self).next_alloc_index() {
                Some(idx) => r == Some((idx * PAGE_SIZE) as u32) && old(self).took_frame(final(self), idx)
                    && old(self).lowest_free_in(idx, 0, old(self).total() as int),
                None => r is None && *final(self) == *old(self),
            },
    {
        let ghost start = *self;
        proof {
            law_alloc_takes_lowest_free_frame(start);
            let lo = start.scan_start();
            if start.has_free_in(lo, start.total() as int) {
                lemma_lowest_exists(start, lo, start.total() as int);
            }
            if start.has_free_in(0, lo) {
                lemma_lowest_exists(start, 0, lo);
            }
        }
        let first = self.scan_and_alloc(self.next_free_hint, BITMAP_SIZE);
        if first.is_some() {
            proof {
                let lo = start.scan_start();
                let i = choose|i: int| #[trigger] start.lowest_free_in(i, lo, start.total() as int);
                let j = choose|j: int| #[trigger] start.lowest_free_in(j, (start.hint() * 32) as int, start.total() as int);
                assert(start.lowest_free_in(j, lo, start.total() as int));
                lemma_lowest_unique(start, i, j, lo, start.total() as int);
            }
            return first;
        }
        let second = self.scan_and_alloc(0, self.next_free_hint);
        proof {
            let lo = start.scan_start();
            if second.is_some() {
                let i = choose|i: int| #[trigger] start.lowest_free_in(i, 0, lo);
                let hi2 = if start.hint() * 32 < start.total() { (start.hint() * 32) as int } else { start.total() as int };
                let j = choose|j: int| #[trigger] start.lowest_free_in(j, 0, hi2);
                lemma_lowest_unique(start, i, j, 0, lo);
            }
        }
        second
    }

    /// Scan words `[from, to)` for the lowest clear bit; when it names a
    /// tracked frame, mark it used, point the hint at its word and return its
    /// physical address.
    fn scan_and_alloc(&mut self, from: usize, to: usize) -> (r: Option<u32>)
        requires
            old(self).wf(),
            to <= BITMAP_SIZE || old(self).has_clear_bit_from(from * 32),
            forall|i: int| 0 <= i < old(self).total() && i < from * 32 ==> #[trigger] old(self).used_view()[i],
        ensures
            final(self).wf(),
            ({
                let hi = if to * 32 < old(self).total() { to * 32 } else { old(self).total() as int };
                if old(self).has_free_in(from * 32, hi) {
                    let idx = choose|i: int| #[trigger] old(self).lowest_free_in(i, from * 32, hi);
                    &&& r == Some((idx * PAGE_SIZE) as u32)
                    &&& old(self).took_frame(final(self), idx)
                } else {
                    r is None && *final(self) == *old(self)
                }
            }),
    {
        let ghost start = *self;
        let ghost hi = if to * 32 < start.total() { to * 32 } else { start.total() as int };
        proof {
            if start.has_free_in(from * 32, hi) {
                lemma_lowest_exists(start, from * 32, hi);
            }
        }
        let mut word_idx = from;
        while word_idx < to
            invariant
                *self == start,
                start == *old(self),
                start.wf(),
                forall|i: int| 0 <= i < start.total() && i < from * 32 ==> #[trigger] start.used_view()[i],
                from <= word_idx,
                to <= BITMAP_SIZE || start.has_clear_bit_from(word_idx * 32),
                forall|i: int| from * 32 <= i < word_idx * 32 && i < MAX_FRAMES ==> start.used_view()[i],
                hi == if to * 32 < start.total() { to * 32 } else { start.total() as int },
            decreases to - word_idx,
        {
            proof {
                if to > BITMAP_SIZE {
                    let k = choose|k: int| word_idx * 32 <= k < MAX_FRAMES && !start.used_view()[k];
                }
            }
            let word = self.bitmap[word_idx];
            if word == 0xFFFF_FFFF {
                proof {
                    assert forall|i: int| from * 32 <= i < (word_idx + 1) * 32 && i < MAX_FRAMES implies start.used_view()[i] by {
                        if i >= word_idx * 32 {
                            lemma_all_ones((i % 32) as u32);
                        }
                    }
                }
                word_idx = word_idx + 1;
                continue;
            }
            let mut bit: usize = 0;
            while bit < BITS_PER_WORD
                invariant
                    *self == start,
                    start == *old(self),
                    start.wf(),
                    forall|i: int| 0 <= i < start.total() && i < from * 32 ==> #[trigger] start.used_view()[i],
                    from <= word_idx < to,
                    word_idx < BITMAP_SIZE,
                    word == start.bitmap@[word_idx as int],
                    bit <= 32,
                    forall|i: int| from * 32 <= i < word_idx * 32 + bit && i < MAX_FRAMES ==> start.used_view()[i],
                    hi == if to * 32 < start.total() { to * 32 } else { start.total() as int },
                decreases 32 - bit,
            {
                let ghost cur = (word_idx * 32 + bit) as int;
                assert(cur / 32 == word_idx && cur % 32 == bit);
                if word & (1u32 << (bit as u32)) == 0 {
                    let frame_idx = word_idx * BITS_PER_WORD + bit;
                    assert(!start.used_view()[cur]);
                    if frame_idx >= self.total_frames {
                        proof {
                            assert forall|i: int| from * 32 <= i < hi implies start.used_view()[i] by {
                                assert(i < cur);
                            }
                            assert(!start.has_free_in(from * 32, hi));
                        }
                        return None;
                    }
                    proof {
                        assert(start.lowest_free_in(cur, from * 32, hi));
                        let c = choose|i: int| #[trigger] start.lowest_free_in(i, from * 32, hi);
                        lemma_lowest_unique(start, c, cur, from * 32, hi);
                        lemma_count_update(start.used_view(), start.total() as int, cur, true);
                        lemma_count_bounded(start.used_view(), start.total() as int);
                    }
                    self.bitmap[word_idx] = word | (1u32 << (bit as u32));
                    proof {
                        FrameAllocator::lemma_word_set(&start, self, word_idx as int, bit as u32);
                    }
                    self.used_frames = self.used_frames + 1;
                    self.next_free_hint = word_idx;
                    assert(start.took_frame(self, cur));
                    assert(self.wf());
                    assert(frame_idx * PAGE_SIZE == cur * PAGE_SIZE);
                    return Some((frame_idx * PAGE_SIZE) as u32);
                }
                bit = bit + 1;
            }
            word_idx = word_idx + 1;
        }
        None
    }

    /// The used-frames counter.
    pub fn used_count(&self) -> (r: usize)
        ensures
            r == self.used(),
    {
        self.used_frames
    }

    /// Tracked frames minus used ones, or 0 when the counter exceeds them.
    pub fn free_count(&self) -> (r: usize)
        ensures
            r == if self.used() <= self.total() { self.total() - self.used() } else { 0 },
    {
        self.total_frames.saturating_sub(self.used_frames)
    }

    /// Number of tracked frames.
    pub fn total_count(&self) -> (r: usize)
        ensures
            r == self.total(),
    {
        self.total_frames
    }
}

/// The frame `alloc_frame` picks is a tracked frame that was free; it picks
/// one exactly when some tracked frame is free.
pub proof fn law_alloc_picks_free_frame(a: FrameAllocator)
    ensures
        a.next_alloc_index() is Some <==> a.has_free_in(0, a.total() as int),
        a.next_alloc_index() matches Some(idx) ==> 0 <= idx < a.total() && !a.used_view()[idx],
{
    let lo = a.scan_start();
    if a.has_free_in(lo, a.total() as int) {
        lemma_lowest_exists(a, lo, a.total() as int);
    } else if a.has_free_in(0, lo) {
        lemma_lowest_exists(a, 0, lo);
    } else if a.has_free_in(0, a.total() as int) {
        let k = choose|k: int| 0 <= k < a.total() && !a.used_view()[k];
        assert(k < lo || lo <= k);
    }
}

/// Right after `init`, allocation never hands out a frame of the kernel
/// image: every frame below the kernel's end (rounded up to a page) is used.
pub proof fn law_alloc_skips_the_kernel(a: FrameAllocator, first_free: int)
    requires
        a.wf(),
        forall|i: int| 0 <= i < MAX_FRAMES ==> a.used_view()[i] == !(first_free <= i < a.total()),
    ensures
        a.next_alloc_index() matches Some(idx) ==> first_free <= idx < a.total(),
{
    law_alloc_picks_free_frame(a);
}

/// Right after `init`, when the kernel ends inside the tracked memory, the
/// used counter is exactly the number of used tracked frames.
pub proof fn law_init_counts_exactly(a: FrameAllocator, first_free: int)
    requires
        a.wf(),
        0 <= first_free <= a.total(),
        a.used() == first_free,
        forall|i: int| 0 <= i < MAX_FRAMES ==> a.used_view()[i] == !(first_free <= i < a.total()),
    ensures
        a.used() == a.used_in_range(),
{
    lemma_count_prefix(a.used_view(), a.total() as int, first_free);
}

/// An allocation keeps the used counter equal to the number of used tracked
/// frames.
pub proof fn law_alloc_keeps_count_exact(a: FrameAllocator, b: FrameAllocator, idx: int)
    requires
        a.wf(),
        a.used() == a.used_in_range(),
        a.next_alloc_index() == Some(idx),
        a.took_frame(&b, idx),
    ensures
        b.used() == b.used_in_range(),
{
    lemma_alloc_counts(a, b, idx);
}

/// Freeing a frame keeps the used counter equal to the number of used
/// tracked frames.
pub proof fn law_free_keeps_count_exact(a: FrameAllocator, b: FrameAllocator, phys: u32)
    requires
        a.wf(),
        a.used() == a.used_in_range(),
        a.freed(&b, phys),
    ensures
        b.used() == b.used_in_range(),
{
    let idx = phys as int / PAGE_SIZE as int;
    if idx < a.total() && a.used_view()[idx] {
        lemma_count_update(a.used_view(), a.total() as int, idx, false);
    }
}

/// Marking a frame used keeps the used counter equal to the number of used
/// tracked frames.
pub proof fn law_mark_keeps_count_exact(a: FrameAllocator, b: FrameAllocator, phys: u32)
    requires
        a.wf(),
        a.used() == a.used_in_range(),
        a.marked(&b, phys),
    ensures
        b.used() == b.used_in_range(),
{
    let idx = phys as int / PAGE_SIZE as int;
    if idx < a.total() && !a.used_view()[idx] {
        lemma_count_update(a.used_view(), a.total() as int, idx, true);
    }
}

/// One call of `alloc_frame`, `free_frame`, `mark_used` or `mark_free`
/// taking `a` to `b`, as their contracts describe it.
pub open spec fn frame_step(a: FrameAllocator, b: FrameAllocator) -> bool {
    ||| (a.next_alloc_index() matches Some(idx) && a.took_frame(&b, idx))
    ||| (a.next_alloc_index() is None && b == a)
    ||| exists|phys: u32| #[trigger] a.freed(&b, phys)
    ||| exists|phys: u32| #[trigger] a.marked(&b, phys)
}

/// Along any run of calls from the state `init` leaves, when the kernel
/// ends inside the tracked memory: the used counter is the number of used
/// tracked frames, it never exceeds the tracked frames, and their number
/// stays what `init` set.
pub proof fn law_counts_exact_along(trace: Seq<FrameAllocator>, first_free: int)
    requires
        trace.len() > 0,
        0 <= first_free <= trace[0].total(),
        trace[0].used() == first_free,
        forall|i: int| 0 <= i < MAX_FRAMES ==> trace[0].used_view()[i] == !(first_free <= i < trace[0].total()),
        forall|k: int| 0 <= k < trace.len() ==> (#[trigger] trace[k]).wf(),
        forall|k: int| 0 <= k < trace.len() - 1 ==> frame_step(#[trigger] trace[k], trace[k + 1]),
    ensures
        forall|k: int| 0 <= k < trace.len() ==> {
            &&& (#[trigger] trace[k]).used() == trace[k].used_in_range()
            &&& trace[k].used() <= trace[k].total()
            &&& trace[k].total() == trace[0].total()
        },
    decreases trace.len(),
{
    if trace.len() == 1 {
        law_init_counts_exactly(trace[0], first_free);
        lemma_count_bounded(trace[0].used_view(), trace[0].total() as int);
    } else {
        let n = trace.len() - 1;
        let init = trace.drop_last();
        assert forall|k: int| 0 <= k < init.len() - 1 implies frame_step(#[trigger] init[k], init[k + 1]) by {
            assert(init[k] == trace[k] && init[k + 1] == trace[k + 1]);
            assert(frame_step(trace[k], trace[k + 1]));
        }
        assert forall|k: int| 0 <= k < init.len() implies (#[trigger] init[k]).wf() by {
            assert(init[k] == trace[k]);
        }
        law_counts_exact_along(init, first_free);
        let a = trace[n - 1];
        let b = trace[n];
        assert(init[n - 1] == a);
        assert(frame_step(a, b));
        if a.next_alloc_index() is Some && a.took_frame(&b, a.next_alloc_index()->0) {
            law_alloc_keeps_count_exact(a, b, a.next_alloc_index()->0);
        } else if a.next_alloc_index() is None && b == a {
        } else if exists|phys: u32| #[trigger] a.freed(&b, phys) {
            let phys = choose|phys: u32| #[trigger] a.freed(&b, phys);
            law_free_keeps_count_exact(a, b, phys);
        } else {
            let phys = choose|phys: u32| #[trigger] a.marked(&b, phys);
            law_mark_keeps_count_exact(a, b, phys);
        }
        lemma_count_bounded(b.used_view(), b.total() as int);
        assert forall|k: int| 0 <= k < trace.len() implies {
            &&& (#[trigger] trace[k]).used() == trace[k].used_in_range()
            &&& trace[k].used() <= trace[k].total()
            &&& trace[k].total() == trace[0].total()
        } by {
            if k < n {
                assert(init[k] == trace[k]);
            }
        }
    }
}

/// Two allocators with the same bitmap, tracked frames and hint hand out
/// the same frame next; the contracts of every call fix these three, so
/// such allocators go on to hand out the same frames.
pub proof fn law_equal_views_allocate_alike(a: FrameAllocator, b: FrameAllocator)
    requires
        a.used_view() == b.used_view(),
        a.total() == b.total(),
        a.hint() == b.hint(),
    ensures
        a.next_alloc_index() == b.next_alloc_index(),
{
    let lo = a.scan_start();
    let hi = a.total() as int;
    if a.has_free_in(lo, hi) {
        lemma_lowest_exists(a, lo, hi);
        lemma_lowest_exists(b, lo, hi);
        let i = choose|i: int| a.lowest_free_in(i, lo, hi);
        let j = choose|j: int| b.lowest_free_in(j, lo, hi);
        assert(a.lowest_free_in(j, lo, hi));
        lemma_lowest_unique(a, i, j, lo, hi);
    } else if a.has_free_in(0, lo) {
        lemma_lowest_exists(a, 0, lo);
        lemma_lowest_exists(b, 0, lo);
        let i = choose|i: int| a.lowest_free_in(i, 0, lo);
        let j = choose|j: int| b.lowest_free_in(j, 0, lo);
        assert(a.lowest_free_in(j, 0, lo));
        lemma_lowest_unique(a, i, j, 0, lo);
    }
}

/// `mark_free` and `free_frame` of the same frame from the same state leave
/// the same bitmap, counter, tracked frames and hint, and the next
/// allocation hands out the same frame after either.
pub proof fn law_mark_free_is_free_frame(a: FrameAllocator, b: FrameAllocator, c: FrameAllocator, phys: u32)
    requires
        a.freed(&b, phys),
        a.freed(&c, phys),
    ensures
        b.used_view() == c.used_view(),
        b.used() == c.used(),
        b.total() == c.total(),
        b.hint() == c.hint(),
        b.next_alloc_index() == c.next_alloc_index(),
{
    law_equal_views_allocate_alike(b, c);
}

/// Freeing the frame that an allocation handed out gives back the bitmap
/// and the counter that were there before the allocation, and the next
/// allocation hands out that same frame again.
pub proof fn law_free_undoes_alloc(a: FrameAllocator, b: FrameAllocator, c: FrameAllocator, idx: int)
    requires
        a.wf(),
        a.next_alloc_index() == Some(idx),
        a.took_frame(&b, idx),
        b.freed(&c, (idx * PAGE_SIZE) as u32),
    ensures
        c.used_view() == a.used_view(),
        c.used() == a.used(),
        c.total() == a.total(),
        c.next_alloc_index() == Some(idx),
{
    law_alloc_picks_free_frame(a);
    assert(0 <= idx * PAGE_SIZE < 0x1_0000_0000);
    assert(((idx * PAGE_SIZE) as u32) as int == idx * PAGE_SIZE);
    assert(((idx * PAGE_SIZE) as u32) as int / PAGE_SIZE as int == idx);
    assert(c.used_view() =~= a.used_view());
    let lo = c.scan_start();
    assert(c.hint() == idx / 32);
    assert(lo == (idx / 32) * 32);
    let alo = a.scan_start();
    assert forall|j: int| lo <= j < idx implies c.used_view()[j] by {
        if a.has_free_in(alo, a.total() as int) {
            lemma_lowest_exists(a, alo, a.total() as int);
            assert(a.lowest_free_in(idx, alo, a.total() as int));
            assert(alo <= lo || alo > idx);
        } else {
            lemma_lowest_exists(a, 0, alo);
            assert(a.lowest_free_in(idx, 0, alo));
        }
    }
    assert(c.lowest_free_in(idx, lo, c.total() as int));
    lemma_lowest_exists(c, lo, c.total() as int);
    let i = choose|i: int| c.lowest_free_in(i, lo, c.total() as int);
    lemma_lowest_unique(c, i, idx, lo, c.total() as int);
}

/// A tracked frame is free after `free_frame`, used after `mark_used`.
pub proof fn law_free_and_mark_set_the_bit(a: FrameAllocator, b: FrameAllocator, c: FrameAllocator, phys: u32)
    requires
        a.freed(&b, phys),
        a.marked(&c, phys),
        a.wf(),
        (phys as int / PAGE_SIZE as int) < a.total(),
    ensures
        !b.used_view()[phys as int / PAGE_SIZE as int],
        c.used_view()[phys as int / PAGE_SIZE as int],
{
}

/// Freeing a frame twice is the same as freeing it once.
pub proof fn law_double_free_ignored(a: FrameAllocator, b: FrameAllocator, c: FrameAllocator, phys: u32)
    requires
        a.wf(),
        a.freed(&b, phys),
        b.freed(&c, phys),
    ensures
        c == b,
{
}

/// The frame the next allocation hands out is the lowest free tracked
/// frame: every tracked frame below it is used, although the scan starts at
/// the hint.
pub proof fn law_alloc_takes_lowest_free_frame(a: FrameAllocator)
    requires
        a.wf(),
    ensures
        a.next_alloc_index() matches Some(idx) ==> a.lowest_free_in(idx, 0, a.total() as int),
{
    law_alloc_picks_free_frame(a);
    let lo = a.scan_start();
    if a.has_free_in(lo, a.total() as int) {
        lemma_lowest_exists(a, lo, a.total() as int);
        let idx = a.next_alloc_index()->0;
        assert(a.lowest_free_in(idx, lo, a.total() as int));
        assert forall|j: int| 0 <= j < idx implies a.used_view()[j] by {
            if j < lo {
                assert(j < a.hint() * 32);
            }
        }
    } else if a.has_free_in(0, lo) {
        lemma_lowest_exists(a, 0, lo);
        let idx = a.next_alloc_index()->0;
        assert(a.lowest_free_in(idx, 0, lo));
    }
}

/// An allocation adds one to the number of used tracked frames, and a
/// tracked frame is free whenever their number is below the total.
pub proof fn lemma_alloc_counts(a: FrameAllocator, b: FrameAllocator, idx: int)
    requires
        a.wf(),
        a.next_alloc_index() == Some(idx),
        a.took_frame(&b, idx),
    ensures
        b.used_in_range() == a.used_in_range() + 1,
        b.wf(),
        b.hint() < BITMAP_SIZE,
{
    law_alloc_picks_free_frame(a);
    law_alloc_takes_lowest_free_frame(a);
    assert forall|i: int| 0 <= i < b.total() && i < b.hint() * 32 implies #[trigger] b.used_view()[i] by {
        assert(i < idx);
    }
    lemma_count_update(a.used_view(), a.total() as int, idx, true);
    lemma_count_bounded(a.used_view(), a.total() as int);
}

/// Fewer used tracked frames than tracked frames means some tracked frame is free.
pub proof fn lemma_free_frame_exists(a: FrameAllocator)
    requires
        a.wf(),
        a.free_frames() > 0,
    ensures
        a.has_free_in(0, a.total() as int),
{
    if !a.has_free_in(0, a.total() as int) {
        lemma_count_all(a.used_view(), a.total() as int);
    }
}

/// The number of free tracked frames is not negative.
pub proof fn lemma_free_frames_nonneg(a: FrameAllocator)
    requires
        a.wf(),
    ensures
        a.free_frames() >= 0,
{
    lemma_count_bounded(a.used_view(), a.total() as int);
}

/// A free tracked frame means fewer used tracked frames than tracked frames.
pub proof fn lemma_free_frames_positive(a: FrameAllocator)
    requires
        a.wf(),
        a.has_free_in(0, a.total() as int),
    ensures
        a.free_frames() > 0,
{
    let k = choose|k: int| 0 <= k < a.total() && !a.used_view()[k];
    lemma_count_below(a.used_view(), a.total() as int, k);
}

/// A false entry below `n` keeps the count below `n`.
proof fn lemma_count_below(s: Seq<bool>, n: int, k: int)
    requires
        0 <= k < n <= s.len(),
        !s[k],
    ensures
        count_true(s, n) < n,
    decreases n,
{
    if n - 1 > k {
        lemma_count_below(s, n - 1, k);
    } else {
        lemma_count_bounded(s, n - 1);
    }
}

/// All entries below `n` true means a count of `n`.
proof fn lemma_count_all(s: Seq<bool>, n: int)
    requires
        0 <= n <= s.len(),
        forall|i: int| 0 <= i < n ==> s[i],
    ensures
        count_true(s, n) == n,
    decreases n,
{
    if n > 0 {
        lemma_count_all(s, n - 1);
    }
}

/// A range with a free frame has a lowest one.
proof fn lemma_lowest_exists(a: FrameAllocator, lo: int, hi: int)
    requires
        a.has_free_in(lo, hi),
    ensures
        exists|i: int| #[trigger] a.lowest_free_in(i, lo, hi),
    decreases hi - lo,
{
    if !a.used_view()[lo] {
        assert(a.lowest_free_in(lo, lo, hi));
    } else {
        let k = choose|k: int| lo <= k < hi && !a.used_view()[k];
        assert(lo + 1 <= k);
        lemma_lowest_exists(a, lo + 1, hi);
        let i = choose|i: int| #[trigger] a.lowest_free_in(i, lo + 1, hi);
        assert(a.lowest_free_in(i, lo, hi));
    }
}

/// The lowest free frame of a range is unique.
proof fn lemma_lowest_unique(a: FrameAllocator, i: int, j: int, lo: int, hi: int)
    requires
        a.lowest_free_in(i, lo, hi),
        a.lowest_free_in(j, lo, hi),
    ensures
        i == j,
{
}

proof fn lemma_set_bit(w: u32, b: u32, c: u32)
    requires
        b < 32,
        c < 32,
    ensures
        bit_of(w | (1u32 << b), c) == (c == b || bit_of(w, c)),
{
    assert(bit_of(w | (1u32 << b), c) == (c == b || bit_of(w, c))) by (bit_vector)
        requires
            b < 32,
            c < 32,
    ;
}

proof fn lemma_clear_bit(w: u32, b: u32, c: u32)
    requires
        b < 32,
        c < 32,
    ensures
        bit_of(w & !(1u32 << b), c) == (c != b && bit_of(w, c)),
{
    assert(bit_of(w & !(1u32 << b), c) == (c != b && bit_of(w, c))) by (bit_vector)
        requires
            b < 32,
            c < 32,
    ;
}

proof fn lemma_all_ones(c: u32)
    requires
        c < 32,
    ensures
        bit_of(0xFFFF_FFFFu32, c),
{
    assert(bit_of(0xFFFF_FFFFu32, c)) by (bit_vector)
        requires
            c < 32,
    ;
}

/// A bitmap whose words are all ones marks every frame used.
proof fn lemma_all_set(bitmap: [u32; 512])
    requires
        forall|j: int| 0 <= j < 512 ==> bitmap@[j] == 0xFFFF_FFFFu32,
    ensures
        forall|i: int| 0 <= i < MAX_FRAMES ==> #[trigger] bitmap_view(bitmap)[i],
{
    assert forall|i: int| 0 <= i < MAX_FRAMES implies #[trigger] bitmap_view(bitmap)[i] by {
        assert(0 <= i / 32 < 512);
        lemma_all_ones((i % 32) as u32);
    }
}

proof fn lemma_zero_word(c: u32)
    requires
        c < 32,
    ensures
        !bit_of(0u32, c),
{
    assert(!bit_of(0u32, c)) by (bit_vector)
        requires
            c < 32,
    ;
}

proof fn lemma_round_down_page(j: usize)
    ensures
        (j & !(4095usize)) / 4096 == j / 4096,
{
    assert((j & !(4095usize)) / 4096 == j / 4096) by (bit_vector);
}

/// Updating entry `j` changes the count of the first `n` entries only when `j < n`.
proof fn lemma_count_update(s: Seq<bool>, n: int, j: int, v: bool)
    requires
        0 <= n <= s.len(),
        0 <= j < s.len(),
    ensures
        count_true(s.update(j, v), n) == if j < n {
            count_true(s, n) - (if s[j] { 1int } else { 0int }) + (if v { 1int } else { 0int })
        } else {
            count_true(s, n) as int
        },
    decreases n,
{
    if n > 0 {
        lemma_count_update(s, n - 1, j, v);
    }
}

proof fn lemma_count_bounded(s: Seq<bool>, n: int)
    requires
        0 <= n <= s.len(),
    ensures
        count_true(s, n) <= n,
    decreases n,
{
    if n > 0 {
        lemma_count_bounded(s, n - 1);
    }
}

/// A sequence whose entries below `n` are `i < k` has `min(k, n)` true entries.
proof fn lemma_count_prefix(s: Seq<bool>, n: int, k: int)
    requires
        0 <= n <= s.len(),
        0 <= k,
        forall|i: int| 0 <= i < n ==> s[i] == (i < k),
    ensures
        count_true(s, n) == if k < n { k } else { n },
    decreases n,
{
    if n > 0 {
        lemma_count_prefix(s, n - 1, k);
    }
}

/// All entries below `n` false means a count of zero.
proof fn lemma_count_none(s: Seq<bool>, n: int)
    requires
        0 <= n <= s.len(),
        forall|i: int| 0 <= i < n ==> !s[i],
    ensures
        count_true(s, n) == 0,
    decreases n,
{
    if n > 0 {
        lemma_count_none(s, n - 1);
    }
}

} // verus!
