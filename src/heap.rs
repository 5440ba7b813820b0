use crate::inline::zeroed;
use crate::layout::{AllocError, Layout};
use crate::traits::{
    MultipleStorage, PinningStorage, Regions, SharedMutabilityStorage, Storage, created, regions_sized, resized,
};
use vstd::prelude::*;

verus! {

/// A source of blocks of memory, each named by its address.
///
/// An allocator is modelled by its live blocks: for each address, the layout
/// the block was allocated at and the bytes it holds. Whether an allocation
/// succeeds is the allocator's own affair; what a success gives is not.
pub trait Allocator: Sized {
    /// The allocator's own state is consistent.
    spec fn wf(&self) -> bool;

    /// The live blocks of this allocator.
    spec fn blocks(&self) -> Regions<usize>;

    /// A request for a block of `layout` is owed success. An allocator whose
    /// failures depend on more than its own state owes none.
    spec fn grants(&self, layout: Layout) -> bool;

    /// A consistent allocator has blocks of the size of their layouts.
    proof fn lemma_blocks_sized(&self)
        requires
            self.wf(),
        ensures
            regions_sized(self.blocks()),
    ;

    /// A new block of `layout`, at an address that no live block has.
    fn allocate(&mut self, layout: Layout) -> (r: Result<usize, AllocError>)
        requires
            old(self).wf(),
            layout.valid(),
        ensures
            final(self).wf(),
            old(self).grants(layout) ==> r is Ok,
            r matches Ok(a) ==> created(old(self).blocks(), final(self).blocks(), a, layout, true),
            r is Err ==> final(self).blocks() == old(self).blocks(),
    ;

    /// Give back a live block.
    fn deallocate(&mut self, ptr: usize, layout: Layout)
        requires
            old(self).wf(),
            old(self).blocks().contains_key(ptr),
            old(self).blocks()[ptr].0 == layout,
        ensures
            final(self).wf(),
            final(self).blocks() == old(self).blocks().remove(ptr),
    ;

    /// Move a live block to a larger layout, keeping its bytes.
    fn grow(&mut self, ptr: usize, old_layout: Layout, new_layout: Layout) -> (r: Result<
        usize,
        AllocError,
    >)
        requires
            old(self).wf(),
            old(self).blocks().contains_key(ptr),
            old(self).blocks()[ptr].0 == old_layout,
            new_layout.valid(),
            new_layout.size >= old_layout.size,
        ensures
            final(self).wf(),
            old(self).grants(new_layout) ==> r is Ok,
            r matches Ok(a) ==> resized(
                old(self).blocks(),
                final(self).blocks(),
                ptr,
                a,
                new_layout,
                old_layout.size as nat,
            ),
            r is Err ==> final(self).blocks() == old(self).blocks(),
    ;

    /// Move a live block to a smaller layout, keeping its first bytes.
    fn shrink(&mut self, ptr: usize, old_layout: Layout, new_layout: Layout) -> (r: Result<
        usize,
        AllocError,
    >)
        requires
            old(self).wf(),
            old(self).blocks().contains_key(ptr),
            old(self).blocks()[ptr].0 == old_layout,
            new_layout.valid(),
            new_layout.size <= old_layout.size,
        ensures
            final(self).wf(),
            old(self).grants(new_layout) ==> r is Ok,
            r matches Ok(a) ==> resized(
                old(self).blocks(),
                final(self).blocks(),
                ptr,
                a,
                new_layout,
                new_layout.size as nat,
            ),
            r is Err ==> final(self).blocks() == old(self).blocks(),
    ;

    /// The bytes of a live block.
    fn read(&self, ptr: usize, layout: Layout) -> (r: &[u8])
        requires
            self.wf(),
            self.blocks().contains_key(ptr),
            self.blocks()[ptr].0 == layout,
        ensures
            r@ == self.blocks()[ptr].1,
    ;

    /// The bytes of a live block, for reading and writing.
    fn read_mut(&mut self, ptr: usize, layout: Layout) -> (r: &mut [u8])
        requires
            old(self).wf(),
            old(self).blocks().contains_key(ptr),
            old(self).blocks()[ptr].0 == layout,
        ensures
            r@ == old(self).blocks()[ptr].1,
            final(r)@.len() == r@.len() ==> final(self).wf() && final(self).blocks() == old(
                self,
            ).blocks().insert(ptr, (layout, final(r)@)),
    ;
}

/// An allocator that has no memory: every allocation fails.
#[derive(Debug, Clone, Copy)]
pub struct NullAlloc;

impl Allocator for NullAlloc {
    open spec fn wf(&self) -> bool {
        true
    }

    open spec fn blocks(&self) -> Regions<usize> {
        Map::empty()
    }

    open spec fn grants(&self, layout: Layout) -> bool {
        false
    }

    proof fn lemma_blocks_sized(&self) {
    }

    fn allocate(&mut self, layout: Layout) -> (r: Result<usize, AllocError>)
        ensures
            r is Err,
    {
        Err(AllocError)
    }

    fn deallocate(&mut self, ptr: usize, layout: Layout) {
    }

    fn grow(&mut self, ptr: usize, old_layout: Layout, new_layout: Layout) -> (r: Result<
        usize,
        AllocError,
    >) {
        Err(AllocError)
    }

    fn shrink(&mut self, ptr: usize, old_layout: Layout, new_layout: Layout) -> (r: Result<
        usize,
        AllocError,
    >) {
        Err(AllocError)
    }

    fn read(&self, ptr: usize, layout: Layout) -> (r: &[u8]) {
        proof {
            assert(false);
        }
        &[]
    }

    fn read_mut(&mut self, ptr: usize, layout: Layout) -> (r: &mut [u8]) {
        proof {
            assert(false);
        }
        &mut []
    }
}

/// An allocator that keeps each block in a buffer of its own, taken from the
/// program's global allocator. Addresses are slot numbers and are not reused;
/// allocation fails only once every address is spent.
pub struct Heap {
    slots: Vec<Option<Vec<u8>>>,
    layouts: Ghost<Map<usize, Layout>>,
}

impl Heap {
    /// A heap with no blocks.
    pub fn new() -> (r: Heap)
        ensures
            r.wf(),
            r.blocks().is_empty(),
            r.next_address() == 0,
    {
        let r = Heap { slots: Vec::new(), layouts: Ghost(Map::empty()) };
        assert(r.blocks() =~= Map::empty());
        r
    }

    /// The address the next block will have: no address is used twice.
    pub closed spec fn next_address(&self) -> nat {
        self.slots@.len()
    }
}

impl Allocator for Heap {
    closed spec fn wf(&self) -> bool {
        forall|a: usize|
            a < self.slots@.len() && #[trigger] self.slots@[a as int] is Some ==> {
                &&& self.layouts@.contains_key(a)
                &&& self.layouts@[a].valid()
                &&& self.slots@[a as int]->0@.len() == self.layouts@[a].size
            }
    }

    closed spec fn blocks(&self) -> Regions<usize> {
        Map::new(
            |a: usize| a < self.slots@.len() && self.slots@[a as int] is Some,
            |a: usize| (self.layouts@[a], self.slots@[a as int]->0@),
        )
    }

    open spec fn grants(&self, layout: Layout) -> bool {
        self.next_address() < usize::MAX
    }

    proof fn lemma_blocks_sized(&self) {
    }

    fn allocate(&mut self, layout: Layout) -> (r: Result<usize, AllocError>)
        ensures
            r is Ok <==> old(self).next_address() < usize::MAX,
            r matches Ok(a) ==> a == old(self).next_address(),
    {
        if self.slots.len() == usize::MAX {
            return Err(AllocError);
        }
        let a = self.slots.len();
        self.slots.push(Some(zeroed(layout.size)));
        self.layouts = Ghost(self.layouts@.insert(a, layout));
        assert(self.blocks().remove(a) =~= old(self).blocks());
        Ok(a)
    }

    fn deallocate(&mut self, ptr: usize, layout: Layout) {
        self.slots.set(ptr, None);
        assert(self.blocks() =~= old(self).blocks().remove(ptr));
    }

    fn grow(&mut self, ptr: usize, old_layout: Layout, new_layout: Layout) -> (r: Result<
        usize,
        AllocError,
    >)
        ensures
            r == Ok::<usize, AllocError>(ptr),
    {
        let mut block = self.slots[ptr].take().unwrap();
        while block.len() < new_layout.size
            invariant
                old_layout.size <= block.len() <= new_layout.size,
                block@.subrange(0, old_layout.size as int) == old(self).blocks()[ptr].1,
            decreases new_layout.size - block.len(),
        {
            block.push(0);
            assert(block@.subrange(0, old_layout.size as int) =~= old(self).blocks()[ptr].1);
        }
        assert(old(self).blocks()[ptr].1.subrange(0, old_layout.size as int) =~= old(
            self,
        ).blocks()[ptr].1);
        self.slots.set(ptr, Some(block));
        self.layouts = Ghost(self.layouts@.insert(ptr, new_layout));
        assert(self.blocks().remove(ptr) =~= old(self).blocks().remove(ptr));
        Ok(ptr)
    }

    fn shrink(&mut self, ptr: usize, old_layout: Layout, new_layout: Layout) -> (r: Result<
        usize,
        AllocError,
    >)
        ensures
            r == Ok::<usize, AllocError>(ptr),
    {
        let mut block = self.slots[ptr].take().unwrap();
        block.truncate(new_layout.size);
        assert(block@.subrange(0, new_layout.size as int) =~= old(self).blocks()[ptr].1.subrange(
            0,
            new_layout.size as int,
        ));
        self.slots.set(ptr, Some(block));
        self.layouts = Ghost(self.layouts@.insert(ptr, new_layout));
        assert(self.blocks().remove(ptr) =~= old(self).blocks().remove(ptr));
        Ok(ptr)
    }

    fn read(&self, ptr: usize, layout: Layout) -> (r: &[u8]) {
        self.slots[ptr].as_ref().unwrap().as_slice()
    }

    fn read_mut(&mut self, ptr: usize, layout: Layout) -> (r: &mut [u8]) {
        let r = self.slots[ptr].as_mut().unwrap().as_mut_slice();
        r
    }
}

/// The handle of a region of an [`AllocStorage`]: the address of its block.
#[derive(Debug, Clone, Copy, PartialEq, Eq, PartialOrd, Ord, Hash, Structural)]
pub struct AllocHandle {
    pub(crate) pointer: usize,
}

impl AllocHandle {
    pub(crate) fn new(pointer: usize) -> (r: AllocHandle)
        ensures
            r == (AllocHandle { pointer }),
    {
        AllocHandle { pointer }
    }

    /// The address of the block.
    pub closed spec fn address(self) -> usize {
        self.pointer
    }

    pub(crate) fn pointer(&self) -> (r: usize)
        ensures
            r == self.pointer,
    {
        self.pointer
    }
}

/// A storage whose regions are blocks of an [`Allocator`]. It keeps any
/// number of regions live at once.
pub struct AllocStorage<A: Allocator> {
    alloc: A,
}

impl<A: Allocator> AllocStorage<A> {
    /// A storage over `alloc`.
    pub fn new(alloc: A) -> (r: Self)
        ensures
            r.allocator() == alloc,
            r.wf() == alloc.wf(),
    {
        Self { alloc }
    }

    /// The allocator the regions come from.
    pub closed spec fn allocator(&self) -> A {
        self.alloc
    }

    /// The allocator the regions come from.
    pub fn get_allocator(&self) -> (r: &A)
        ensures
            *r == self.allocator(),
    {
        &self.alloc
    }

    /// Each block of the allocator is the region of the handle of its
    /// address.
    pub open spec fn regions_of(blocks: Regions<usize>) -> Regions<AllocHandle> {
        Map::new(
            |h: AllocHandle| blocks.contains_key(h.address()),
            |h: AllocHandle| blocks[h.address()],
        )
    }

    proof fn lemma_regions_of(before: Regions<usize>, after: Regions<usize>)
        ensures
            forall|a: usize, v: (Layout, Seq<u8>)|
                after == #[trigger] before.insert(a, v) ==> Self::regions_of(after)
                    == Self::regions_of(before).insert(AllocHandle { pointer: a }, v),
            forall|a: usize|
                after == #[trigger] before.remove(a) ==> Self::regions_of(after)
                    == Self::regions_of(before).remove(AllocHandle { pointer: a }),
    {
        assert forall|a: usize, v: (Layout, Seq<u8>)|
            after == #[trigger] before.insert(a, v) implies Self::regions_of(after)
            == Self::regions_of(before).insert(AllocHandle { pointer: a }, v) by {
            assert(Self::regions_of(after) =~= Self::regions_of(before).insert(
                AllocHandle { pointer: a },
                v,
            ));
        }
        assert forall|a: usize|
            after == #[trigger] before.remove(a) implies Self::regions_of(after)
            == Self::regions_of(before).remove(AllocHandle { pointer: a }) by {
            assert(Self::regions_of(after) =~= Self::regions_of(before).remove(
                AllocHandle { pointer: a },
            ));
        }
    }
}

impl<A: Allocator> Storage for AllocStorage<A> {
    type Handle = AllocHandle;

    closed spec fn wf(&self) -> bool {
        self.alloc.wf()
    }

    open spec fn live(&self) -> Regions<AllocHandle> {
        Self::regions_of(self.allocator().blocks())
    }

    open spec fn multiple() -> bool {
        true
    }

    proof fn lemma_regions_sized(&self) {
        self.alloc.lemma_blocks_sized();
        assert forall|h: AllocHandle| #[trigger] self.live().contains_key(h) implies self.live()[h].1.len()
            == self.live()[h].0.size by {
            assert(self.alloc.blocks().contains_key(h.pointer));
        }
    }

    fn allocate(&mut self, layout: Layout) -> (r: Result<AllocHandle, AllocError>)
        ensures
            old(self).allocator().grants(layout) ==> r is Ok,
            r matches Ok(h) ==> created(
                old(self).allocator().blocks(),
                final(self).allocator().blocks(),
                h.address(),
                layout,
                true,
            ),
            r is Err ==> final(self).allocator().blocks() == old(self).allocator().blocks(),
    {
        match self.alloc.allocate(layout) {
            Ok(ptr) => {
                let h = AllocHandle::new(ptr);
                proof {
                    let (b0, b1) = (old(self).alloc.blocks(), self.alloc.blocks());
                    assert(b1 == b0.insert(ptr, b1[ptr])) by {
                        assert(b1 =~= b0.insert(ptr, b1[ptr]));
                    }
                    Self::lemma_regions_of(b0, b1);
                    assert(self.live().remove(h) =~= old(self).live());
                }
                Ok(h)
            },
            Err(e) => Err(e),
        }
    }

    fn deallocate(&mut self, handle: AllocHandle, layout: Layout) {
        self.alloc.deallocate(handle.pointer(), layout);
        proof {
            Self::lemma_regions_of(old(self).alloc.blocks(), self.alloc.blocks());
        }
    }

    fn resolve(&self, handle: AllocHandle, layout: Layout) -> (r: &[u8]) {
        self.alloc.read(handle.pointer(), layout)
    }

    fn resolve_mut(&mut self, handle: AllocHandle, layout: Layout) -> (r: &mut [u8]) {
        proof {
            Self::lemma_regions_of(old(self).alloc.blocks(), old(self).alloc.blocks().insert(handle.pointer, (layout, seq![])));
        }
        self.alloc.read_mut(handle.pointer(), layout)
    }

    fn grow(&mut self, handle: AllocHandle, old_layout: Layout, new_layout: Layout) -> (r: Result<
        AllocHandle,
        AllocError,
    >)
        ensures
            old(self).allocator().grants(new_layout) ==> r is Ok,
    {
        match self.alloc.grow(handle.pointer(), old_layout, new_layout) {
            Ok(ptr) => {
                let h = AllocHandle::new(ptr);
                proof {
                    let (b0, b1) = (old(self).alloc.blocks(), self.alloc.blocks());
                    assert forall|k: AllocHandle| #[trigger]
                        self.live().remove(h).contains_key(k) == old(self).live().remove(
                            handle,
                        ).contains_key(k) by {
                        assert(b1.remove(ptr).contains_key(k.pointer) == b0.remove(
                            handle.pointer,
                        ).contains_key(k.pointer));
                    }
                    assert(self.live().remove(h) =~= old(self).live().remove(handle)) by {
                        assert forall|k: AllocHandle| #[trigger]
                            self.live().remove(h).contains_key(k) implies self.live().remove(
                            h,
                        )[k] == old(self).live().remove(handle)[k] by {
                            assert(b1.remove(ptr)[k.pointer] == b0.remove(handle.pointer)[k.pointer]);
                        }
                    }
                }
                Ok(h)
            },
            Err(e) => Err(e),
        }
    }

    fn shrink(&mut self, handle: AllocHandle, old_layout: Layout, new_layout: Layout) -> (r: Result<
        AllocHandle,
        AllocError,
    >)
        ensures
            old(self).allocator().grants(new_layout) ==> r is Ok,
    {
        match self.alloc.shrink(handle.pointer(), old_layout, new_layout) {
            Ok(ptr) => {
                let h = AllocHandle::new(ptr);
                proof {
                    let (b0, b1) = (old(self).alloc.blocks(), self.alloc.blocks());
                    assert forall|k: AllocHandle| #[trigger]
                        self.live().remove(h).contains_key(k) == old(self).live().remove(
                            handle,
                        ).contains_key(k) by {
                        assert(b1.remove(ptr).contains_key(k.pointer) == b0.remove(
                            handle.pointer,
                        ).contains_key(k.pointer));
                    }
                    assert(self.live().remove(h) =~= old(self).live().remove(handle)) by {
                        assert forall|k: AllocHandle| #[trigger]
                            self.live().remove(h).contains_key(k) implies self.live().remove(
                            h,
                        )[k] == old(self).live().remove(handle)[k] by {
                            assert(b1.remove(ptr)[k.pointer] == b0.remove(handle.pointer)[k.pointer]);
                        }
                    }
                }
                Ok(h)
            },
            Err(e) => Err(e),
        }
    }
}

impl<A: Allocator> MultipleStorage for AllocStorage<A> {
    proof fn lemma_multiple() {
    }
}

impl<A: Allocator> PinningStorage for AllocStorage<A> {}

impl<A: Allocator> SharedMutabilityStorage for AllocStorage<A> {}

} // verus!
