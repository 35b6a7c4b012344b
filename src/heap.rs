//! The arena allocator: a first-fit heap over one fixed arena that never
//! takes memory back. Blocks are modelled by their address and length; the
//! heap's free memory is modelled as a set of addresses.
use core::alloc::Layout;
use core::mem::MaybeUninit;
use linked_list_allocator::Heap;
use vstd::arithmetic::power2::{lemma2_to64, pow2};
use vstd::prelude::*;
use vstd::set_lib::{lemma_int_range, lemma_len_subset, set_int_range};

verus! {

#[verifier::external_type_specification]
#[verifier::external_body]
pub struct ExHeap(Heap);

/// The addresses that the heap's holes cover: the memory it can still hand out.
pub uninterp spec fn heap_free(h: Heap) -> Set<int>;

/// Relies on `Heap::empty`: a heap that holds no hole.
pub assume_specification[ Heap::empty ]() -> (r: Heap)
    ensures
        heap_free(r) == Set::<int>::empty(),
;

/// Fewest bytes an arena must have: the heap keeps a hole header of two words
/// in it, after aligning its start to a word.
pub const MIN_ARENA: usize = 24;

/// Bytes that a block of `len` bytes is known to occupy: the heap never hands
/// out less than one byte.
pub open spec fn extent(len: int) -> int {
    if len == 0 {
        1
    } else {
        len
    }
}

/// The addresses a block, given as (address, length), occupies.
pub open spec fn block_addrs(b: (int, int)) -> Set<int> {
    set_int_range(b.0, b.0 + extent(b.1))
}

/// Two blocks share no address.
pub open spec fn blocks_disjoint(p: (int, int), q: (int, int)) -> bool {
    p.0 + extent(p.1) <= q.0 || q.0 + extent(q.1) <= p.0
}

/// Whether an alignment is a power of two.
pub open spec fn is_pow2(align: usize) -> bool {
    exists|k: nat| pow2(k) == align
}

/// A size and an alignment that make a memory layout the heap serves from
/// word-aligned holes: a power of two no larger than a word.
pub open spec fn valid_layout(size: usize, align: usize) -> bool {
    is_pow2(align) && align <= 8 && size + align - 1 <= isize::MAX
}

/// A size rounded up to a multiple of the word alignment, 8 bytes.
pub open spec fn round_to_word(size: int) -> int {
    (size + 7) / 8 * 8
}

/// Bytes the heap takes for a block of `size` bytes: at least a hole header
/// (two 8-byte words on the 64-bit target), rounded up to a word.
pub open spec fn need(size: int) -> int {
    round_to_word(if size < 16 {
        16
    } else {
        size
    })
}

/// Whether a block of `size` bytes can be cut from a free run of `room`
/// bytes: it takes the run whole, or leaves room for a hole header behind it.
pub open spec fn fits(size: int, room: int) -> bool {
    need(size) == room || need(size) + 16 <= room
}

/// The heap's free memory is one word-aligned run `[lo, hi)`, with `lo` not
/// null, of all but at most 14 of `len` bytes.
pub open spec fn holds_one_run(h: Heap, len: int) -> bool {
    exists|lo: int, hi: int|
        {
            &&& heap_free(h) == #[trigger] set_int_range(lo, hi)
            &&& 0 < lo <= hi
            &&& lo % 8 == 0
            &&& len - 14 <= hi - lo <= len
        }
}

/// Relies on `Heap::from_slice`: the heap holds one hole, whose start is the
/// slice's start aligned up to a word and whose length is what is left, cut
/// down to a word; so at most 14 bytes are lost. `HoleList::new` panics where
/// that memory cannot hold a hole header.
#[verifier::external_body]
fn heap_over_arena(mem: &'static mut [MaybeUninit<u8>]) -> (r: Heap)
    requires
        old(mem)@.len() >= MIN_ARENA,
    ensures
        holds_one_run(r, old(mem)@.len() as int),
{
    Heap::from_slice(mem)
}

/// Relies on `Heap::allocate_first_fit`: a block of at least the size asked
/// for is cut out of one hole, so its addresses were free and are free no
/// longer, and the new holes are what was left of that hole; where no hole
/// fits, the list of holes is left as it was. From a single word-aligned hole
/// `[lo, hi)` with an alignment of at most a word, no front padding is made:
/// the block starts at `lo` and takes `need(size)` bytes, and the call fails
/// only where the bytes left behind the block are neither none nor enough for
/// a hole header. The layout is valid by `requires`.
#[verifier::external_body]
fn heap_allocate(h: &mut Heap, size: usize, align: usize) -> (r: Option<usize>)
    requires
        valid_layout(size, align),
    ensures
        match r {
            Some(a) => {
                &&& a > 0
                &&& a % align == 0
                &&& block_addrs((a as int, size as int)).subset_of(heap_free(*old(h)))
                &&& heap_free(*final(h)).subset_of(
                    heap_free(*old(h)).difference(block_addrs((a as int, size as int))),
                )
            },
            None => heap_free(*final(h)) == heap_free(*old(h)),
        },
        forall|lo: int, hi: int|
            heap_free(*old(h)) == #[trigger] set_int_range(lo, hi) && lo <= hi && lo % 8 == 0
                ==> if fits(size as int, hi - lo) {
                r == Some(lo as usize) && heap_free(*final(h)) == set_int_range(
                    lo + need(size as int),
                    hi,
                )
            } else {
                r is None
            },
{
    match h.allocate_first_fit(Layout::from_size_align(size, align).unwrap()) {
        Ok(p) => Some(p.addr().get()),
        Err(()) => None,
    }
}

/// Why the arena could not be set up.
#[derive(Clone, Copy, Debug, PartialEq, Eq, Structural)]
pub enum InitError {
    /// `init` was called a second time.
    AlreadyInitialized,
    /// The arena cannot hold the heap's bookkeeping.
    ArenaTooSmall,
}

/// The allocator over a fixed arena. Before `init` it holds no memory; after
/// it, each block it hands out stays out for good.
pub struct StaticAlloc {
    capacity: usize,
    ready: bool,
    heap: Heap,
    live: Ghost<Seq<(int, int)>>,
    run: Ghost<(int, int)>,
}

impl StaticAlloc {
    /// Bytes of the arena.
    pub closed spec fn capacity(self) -> nat {
        self.capacity as nat
    }

    /// Whether the arena has been set up.
    pub closed spec fn is_ready(self) -> bool {
        self.ready
    }

    /// Every block handed out so far, as (address, length), in order.
    pub closed spec fn live(self) -> Seq<(int, int)> {
        self.live@
    }

    /// Bytes that are still free to hand out.
    pub closed spec fn remaining(self) -> nat {
        heap_free(self.heap).len()
    }

    /// The free memory is one word-aligned run `[lo, hi)` that fits in the
    /// arena, and is empty before `init`; every block handed out has a
    /// length, lies outside the free memory, and shares no address with any
    /// other block.
    pub closed spec fn wf(self) -> bool {
        &&& heap_free(self.heap) == set_int_range(self.run@.0, self.run@.1)
        &&& self.run@.0 <= self.run@.1
        &&& self.run@.0 % 8 == 0
        &&& self.run@.1 - self.run@.0 <= self.capacity
        &&& !self.ready ==> self.live@.len() == 0 && self.run@.0 == self.run@.1
        &&& forall|i: int| 0 <= i < self.live@.len() ==> (#[trigger] self.live@[i]).1 >= 0
        &&& forall|i: int, x: int|
            0 <= i < self.live@.len() && #[trigger] block_addrs(self.live@[i]).contains(x)
                ==> !heap_free(self.heap).contains(x)
        &&& forall|i: int, j: int|
            0 <= i < self.live@.len() && 0 <= j < self.live@.len() && i != j
                ==> blocks_disjoint(#[trigger] self.live@[i], #[trigger] self.live@[j])
    }

    /// An allocator that holds no arena yet.
    pub fn new() -> (r: StaticAlloc)
        ensures
            r.wf(),
            !r.is_ready(),
            r.capacity() == 0,
            r.live() == Seq::<(int, int)>::empty(),
            r.remaining() == 0,
    {
        proof {
            assert(set_int_range(0, 0) =~= Set::<int>::empty());
        }
        StaticAlloc {
            capacity: 0,
            ready: false,
            heap: Heap::empty(),
            live: Ghost(Seq::empty()),
            run: Ghost((0, 0)),
        }
    }

    /// Sets the allocator up over `arena`, which it keeps for good; allowed
    /// once. All of the arena but at most 14 bytes of alignment is then free.
    pub fn init(&mut self, arena: &'static mut [MaybeUninit<u8>]) -> (r: Result<(), InitError>)
        requires
            old(self).wf(),
        ensures
            final(self).wf(),
            final(self).live() == old(self).live(),
            old(self).is_ready() ==> r == Err::<(), InitError>(InitError::AlreadyInitialized),
            !old(self).is_ready() && old(arena)@.len() < MIN_ARENA ==> r == Err::<(), InitError>(
                InitError::ArenaTooSmall,
            ),
            !old(self).is_ready() && old(arena)@.len() >= MIN_ARENA ==> r is Ok,
            r is Ok ==> {
                &&& final(self).is_ready()
                &&& final(self).capacity() == old(arena)@.len()
                &&& old(arena)@.len() - 14 <= final(self).remaining() <= old(arena)@.len()
            },
            r is Err ==> *final(self) == *old(self),
    {
        if self.ready {
            return Err(InitError::AlreadyInitialized);
        }
        let len = arena.len();
        if len < MIN_ARENA {
            return Err(InitError::ArenaTooSmall);
        }
        self.heap = heap_over_arena(arena);
        let ghost run = choose|lo: int, hi: int|
            {
                &&& heap_free(self.heap) == #[trigger] set_int_range(lo, hi)
                &&& 0 < lo <= hi
                &&& lo % 8 == 0
                &&& len - 14 <= hi - lo <= len
            };
        proof {
            lemma_int_range(run.0, run.1);
        }
        self.run = Ghost(run);
        self.capacity = len;
        self.ready = true;
        Ok(())
    }

    /// Hands out a block of `size` bytes aligned to `align`. Once the arena
    /// is set up, a block is owed exactly where `need(size)` bytes fit the
    /// free memory: it takes all of it, or leaves room for a hole header.
    pub fn allocate(&mut self, size: usize, align: usize) -> (r: Option<usize>)
        requires
            old(self).wf(),
            valid_layout(size, align),
        ensures
            final(self).wf(),
            final(self).capacity() == old(self).capacity(),
            final(self).is_ready() == old(self).is_ready(),
            !old(self).is_ready() ==> r is None,
            old(self).is_ready() ==> (r is Some <==> fits(size as int, old(self).remaining() as int)),
            extent(size as int) > old(self).remaining() ==> r is None,
            match r {
                Some(a) => {
                    &&& a > 0
                    &&& a % align == 0
                    &&& final(self).live() == old(self).live().push((a as int, size as int))
                    &&& final(self).remaining() == old(self).remaining() - need(size as int)
                },
                None => {
                    &&& final(self).live() == old(self).live()
                    &&& final(self).remaining() == old(self).remaining()
                },
            },
    {
        let ghost before = heap_free(self.heap);
        let ghost run = self.run@;
        proof {
            lemma_int_range(run.0, run.1);
        }
        let r = heap_allocate(&mut self.heap, size, align);
        match r {
            Some(a) => {
                let ghost blk = (a as int, size as int);
                let ghost old_live = self.live@;
                self.live = Ghost(old_live.push(blk));
                proof {
                    let after = heap_free(self.heap);
                    let region = block_addrs(blk);
                    lemma_int_range(blk.0, blk.0 + extent(blk.1));
                    lemma_len_subset(region, before);
                    assert(region.contains(blk.0));
                    assert(fits(size as int, run.1 - run.0));
                    let nrun = (run.0 + need(size as int), run.1);
                    lemma_int_range(nrun.0, nrun.1);
                    self.run = Ghost(nrun);
                    assert forall|i: int, j: int|
                        0 <= i < self.live@.len() && 0 <= j < self.live@.len() && i != j
                            implies blocks_disjoint(#[trigger] self.live@[i], #[trigger] self.live@[j]) by {
                        if i == old_live.len() || j == old_live.len() {
                            let o = if i == old_live.len() { j } else { i };
                            let q = old_live[o];
                            if !blocks_disjoint(blk, q) {
                                let x = if blk.0 <= q.0 { q.0 } else { blk.0 };
                                assert(block_addrs(q).contains(x));
                                assert(region.contains(x));
                            }
                        }
                    }
                    assert forall|i: int, x: int|
                        0 <= i < self.live@.len() && #[trigger] block_addrs(self.live@[i]).contains(x)
                            implies !after.contains(x) by {
                        if i < old_live.len() {
                            assert(block_addrs(old_live[i]).contains(x));
                        }
                    }
                }
                Some(a)
            },
            None => None,
        }
    }

    /// `malloc`: `size` rounded up to a multiple of the word alignment (8
    /// bytes), aligned to it; `None` stands for the null pointer. Once the
    /// arena is set up, a block is owed exactly where the rounded size fits
    /// the free memory.
    pub fn malloc(&mut self, size: usize) -> (r: Option<usize>)
        requires
            old(self).wf(),
        ensures
            final(self).wf(),
            final(self).capacity() == old(self).capacity(),
            final(self).is_ready() == old(self).is_ready(),
            !old(self).is_ready() ==> r is None,
            size > isize::MAX - 14 ==> r is None,
            old(self).is_ready() && size <= isize::MAX - 14 ==> (r is Some <==> fits(
                round_to_word(size as int),
                old(self).remaining() as int,
            )),
            round_to_word(size as int) > old(self).remaining() ==> r is None,
            match r {
                Some(a) => {
                    &&& a > 0
                    &&& a % 8 == 0
                    &&& final(self).live() == old(self).live().push(
                        (a as int, round_to_word(size as int)),
                    )
                    &&& final(self).remaining() == old(self).remaining() - need(
                        round_to_word(size as int),
                    )
                },
                None => {
                    &&& final(self).live() == old(self).live()
                    &&& final(self).remaining() == old(self).remaining()
                },
            },
    {
        // The rounded size, plus the slack of its alignment, must stay within
        // `isize::MAX` to make a layout.
        if size > isize::MAX as usize - 14 {
            return None;
        }
        let rounded = (size + 7) / 8 * 8;
        proof {
            lemma2_to64();
            assert(pow2(3) == 8);
            assert(is_pow2(8usize));
        }
        self.allocate(rounded, 8)
    }

    /// `free`: blocks are never taken back, so the arena is left as it is.
    pub fn free(&mut self, addr: usize)
        requires
            old(self).wf(),
        ensures
            *final(self) == *old(self),
    {
    }
}

/// No two blocks the allocator has handed out share an address.
pub proof fn lemma_blocks_never_overlap(a: StaticAlloc, i: int, j: int)
    requires
        a.wf(),
        0 <= i < a.live().len(),
        0 <= j < a.live().len(),
        i != j,
    ensures
        blocks_disjoint(a.live()[i], a.live()[j]),
{
}

/// The bytes still free never exceed the arena.
pub proof fn lemma_remaining_within_capacity(a: StaticAlloc)
    requires
        a.wf(),
    ensures
        a.remaining() <= a.capacity(),
{
    lemma_int_range(a.run@.0, a.run@.1);
}

} // verus!
