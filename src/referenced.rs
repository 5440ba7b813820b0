use crate::layout::{AllocError, Layout};
use crate::traits::{Regions, Storage};
use vstd::prelude::*;

verus! {

/// A storage around a mutable reference to a value that lives elsewhere.
///
/// It cannot create regions: from the start it has one, the referenced
/// value, under the one [`RefStorageHandle`]. Deallocating that handle gives
/// nothing back; the value stays with its owner.
pub struct RefStorage<'a, T> {
    data: &'a mut T,
    released: Ghost<bool>,
}

/// The handle of the region of a [`RefStorage`].
#[derive(Debug, Clone, Copy, PartialEq, Eq, PartialOrd, Ord, Hash, Structural)]
pub struct RefStorageHandle;

impl RefStorageHandle {
    pub fn new() -> (r: Self) {
        RefStorageHandle
    }
}

impl<'a, T> RefStorage<'a, T> {
    /// The referenced value.
    pub closed spec fn value(&self) -> T {
        *self.data
    }

    /// A storage around `data`.
    pub fn new(data: &'a mut T) -> (r: Self)
        ensures
            r.value() == *old(data),
            r.is_holding(),
    {
        Self { data, released: Ghost(false) }
    }

    /// The region has not been deallocated.
    pub closed spec fn is_holding(&self) -> bool {
        !self.released@
    }

    /// The wrapped reference, without going through a handle.
    pub fn get(&self) -> (r: &T)
        ensures
            *r == self.value(),
    {
        self.data
    }

    /// The wrapped reference, without going through a handle.
    pub fn get_mut(&mut self) -> (r: &mut T)
        ensures
            *r == old(self).value(),
            final(self).value() == *final(r),
            final(self).is_holding() == old(self).is_holding(),
    {
        self.data
    }
}

impl<'a> RefStorage<'a, Vec<u8>> {
    /// The layout of the region: the bytes of the referenced buffer.
    pub open spec fn spec_layout(&self) -> Layout {
        Layout { size: self.value()@.len() as usize, align: 1 }
    }

    /// The layout of the region.
    pub fn layout(&self) -> (r: Layout)
        requires
            self.wf(),
        ensures
            r == self.spec_layout(),
    {
        Layout::bytes(self.data.len())
    }

    /// A storage around a buffer of a length that a layout can have is
    /// consistent, and its region holds the buffer.
    pub proof fn lemma_new(&self)
        requires
            self.is_holding(),
            self.value()@.len() <= isize::MAX,
        ensures
            self.wf(),
            self.live() == map![RefStorageHandle => (self.spec_layout(), self.value()@)],
    {
        reveal(vstd::arithmetic::power2::is_pow2);
    }
}

impl<'a> Storage for RefStorage<'a, Vec<u8>> {
    type Handle = RefStorageHandle;

    closed spec fn wf(&self) -> bool {
        self.data@.len() <= isize::MAX
    }

    closed spec fn live(&self) -> Regions<RefStorageHandle> {
        if self.released@ {
            Map::empty()
        } else {
            map![RefStorageHandle => (self.spec_layout(), self.data@)]
        }
    }

    open spec fn multiple() -> bool {
        false
    }

    proof fn lemma_regions_sized(&self) {
        reveal(vstd::arithmetic::power2::is_pow2);
    }

    /// There is nothing to allocate from: this always fails.
    fn allocate(&mut self, layout: Layout) -> (r: Result<RefStorageHandle, AllocError>)
        ensures
            r is Err,
    {
        Err(AllocError)
    }

    /// Gives nothing back: the value stays, as it is, with its owner.
    fn deallocate(&mut self, handle: RefStorageHandle, layout: Layout)
        ensures
            final(self).value() == old(self).value(),
    {
        self.released = Ghost(true);
        assert(self.live() =~= old(self).live().remove(handle));
    }

    fn resolve(&self, handle: RefStorageHandle, layout: Layout) -> (r: &[u8]) {
        self.data.as_slice()
    }

    fn resolve_mut(&mut self, handle: RefStorageHandle, layout: Layout) -> (r: &mut [u8]) {
        assert forall|v: (Layout, Seq<u8>)| #[trigger] old(self).live().insert(handle, v) == map![
            RefStorageHandle => v] by {
            assert(old(self).live().insert(handle, v) =~= map![RefStorageHandle => v]);
        }
        self.data.as_mut_slice()
    }

    /// The region cannot move: this always fails.
    fn grow(&mut self, handle: RefStorageHandle, old_layout: Layout, new_layout: Layout) -> (r:
        Result<RefStorageHandle, AllocError>)
        ensures
            r is Err,
    {
        Err(AllocError)
    }

    /// The region cannot move: this always fails.
    fn shrink(&mut self, handle: RefStorageHandle, old_layout: Layout, new_layout: Layout) -> (r:
        Result<RefStorageHandle, AllocError>)
        ensures
            r is Err,
    {
        Err(AllocError)
    }
}

} // verus!
