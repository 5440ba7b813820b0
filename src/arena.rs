use crate::inline::zeroed;
use crate::layout::{AllocError, Layout, fits_in, layout_fits_in};
use crate::traits::{MultipleStorage, Regions, Storage};
use vstd::prelude::*;

verus! {

/// A storage with room for `N` regions of the size and alignment of `T`,
/// handed out in order, once each. Deallocating a region does not make its
/// room available again.
pub struct OneUseArenaStorage<T, const N: usize> {
    data: Vec<Vec<u8>>,
    next: usize,
    layouts: Ghost<Map<usize, Layout>>,
    element: core::marker::PhantomData<T>,
}

/// The handle of a region of a [`OneUseArenaStorage`]: its place in order.
#[derive(Debug, Clone, Copy, PartialEq, Eq, PartialOrd, Ord, Hash, Structural)]
pub struct OneUseArenaStorageHandle {
    index: usize,
}

impl OneUseArenaStorageHandle {
    pub fn new(index: usize) -> (r: Self)
        ensures
            r.index() == index,
    {
        OneUseArenaStorageHandle { index }
    }

    /// The place of the region in order.
    pub closed spec fn index(self) -> usize {
        self.index
    }
}

impl<T, const N: usize> OneUseArenaStorage<T, N> {
    /// The layout of the room for one region.
    pub open spec fn element() -> Layout {
        Layout {
            size: vstd::layout::size_of::<T>() as usize,
            align: vstd::layout::align_of::<T>() as usize,
        }
    }

    /// The number of regions handed out so far.
    pub closed spec fn issued(&self) -> nat {
        self.next as nat
    }

    /// An arena that has handed out nothing.
    pub fn new() -> (r: Self)
        ensures
            r.wf(),
            r.live().is_empty(),
            r.issued() == 0,
    {
        let element = Layout::new::<T>();
        let mut data: Vec<Vec<u8>> = Vec::new();
        while data.len() < N
            invariant
                data.len() <= N,
                element == Self::element(),
                forall|i: int| 0 <= i < data.len() ==> (#[trigger] data@[i])@.len() == element.size,
            decreases N - data.len(),
        {
            data.push(zeroed(element.size));
        }
        let r = Self { data, next: 0, layouts: Ghost(Map::empty()), element: core::marker::PhantomData };
        assert(r.live() =~= Map::empty());
        r
    }
}

impl<T, const N: usize> Storage for OneUseArenaStorage<T, N> {
    type Handle = OneUseArenaStorageHandle;

    closed spec fn wf(&self) -> bool {
        &&& Self::element().valid()
        &&& self.data@.len() == N
        &&& self.next <= N
        &&& forall|i: int| 0 <= i < N ==> (#[trigger] self.data@[i])@.len() == Self::element().size
        &&& forall|i: usize| #[trigger] self.layouts@.contains_key(i) ==> i < self.next && self.layouts@[i].valid() && fits_in(self.layouts@[i], Self::element())
    }

    closed spec fn live(&self) -> Regions<OneUseArenaStorageHandle> {
        Map::new(
            |h: OneUseArenaStorageHandle| self.layouts@.contains_key(h.index),
            |h: OneUseArenaStorageHandle|
                (
                    self.layouts@[h.index],
                    self.data@[h.index as int]@.subrange(0, self.layouts@[h.index].size as int),
                ),
        )
    }

    open spec fn multiple() -> bool {
        true
    }

    proof fn lemma_regions_sized(&self) {
    }

    fn allocate(&mut self, layout: Layout) -> (r: Result<OneUseArenaStorageHandle, AllocError>)
        ensures
            r is Ok <==> old(self).issued() < N && fits_in(layout, Self::element()),
            r matches Ok(h) ==> h.index() == old(self).issued(),
            final(self).issued() == old(self).issued() + if r is Ok { 1nat } else { 0nat },
    {
        let element = Layout::new::<T>();
        if self.next < N && layout_fits_in(layout, element) {
            let handle = OneUseArenaStorageHandle::new(self.next);
            self.layouts = Ghost(self.layouts@.insert(self.next, layout));
            self.next = self.next + 1;
            assert(self.live().remove(handle) =~= old(self).live());
            Ok(handle)
        } else {
            Err(AllocError)
        }
    }

    fn deallocate(&mut self, handle: OneUseArenaStorageHandle, layout: Layout) {
        self.layouts = Ghost(self.layouts@.remove(handle.index));
        assert(self.live() =~= old(self).live().remove(handle));
    }

    fn resolve(&self, handle: OneUseArenaStorageHandle, layout: Layout) -> (r: &[u8]) {
        let (head, _) = self.data[handle.index].as_slice().split_at(layout.size);
        head
    }

    fn resolve_mut(&mut self, handle: OneUseArenaStorageHandle, layout: Layout) -> (r: &mut [u8]) {
        let whole = self.data[handle.index].as_mut_slice();
        let (head, tail) = whole.split_at_mut(layout.size);
        assert(has_resolved(tail));
        assert(final(head)@.len() == head@.len() ==> (final(head)@ + tail@).subrange(
            0,
            layout.size as int,
        ) =~= final(head)@);
        head
    }

    /// Regions do not move: this always fails.
    fn grow(
        &mut self,
        handle: OneUseArenaStorageHandle,
        old_layout: Layout,
        new_layout: Layout,
    ) -> (r: Result<OneUseArenaStorageHandle, AllocError>)
        ensures
            r is Err,
    {
        Err(AllocError)
    }

    /// Regions do not move: this always fails.
    fn shrink(
        &mut self,
        handle: OneUseArenaStorageHandle,
        old_layout: Layout,
        new_layout: Layout,
    ) -> (r: Result<OneUseArenaStorageHandle, AllocError>)
        ensures
            r is Err,
    {
        Err(AllocError)
    }
}

impl<T, const N: usize> MultipleStorage for OneUseArenaStorage<T, N> {
    proof fn lemma_multiple() {
    }
}

} // verus!
