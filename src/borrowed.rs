use crate::inline::lemma_sole_region;
use crate::layout::{AllocError, Layout, fits_in, layout_fits_in};
use crate::traits::{Regions, Storage};
use core::marker::PhantomData;
use vstd::prelude::*;

verus! {

/// A single storage whose region lies in a buffer borrowed from elsewhere.
///
/// The buffer stands for a place of type `DataStore`: it has its size, and
/// regions are held to its alignment.
pub struct BorrowedStorage<'a, DataStore> {
    data: &'a mut Vec<u8>,
    region: Ghost<Option<Layout>>,
    store: PhantomData<DataStore>,
}

impl<'a, DataStore> BorrowedStorage<'a, DataStore> {
    /// The layout of the buffer.
    pub open spec fn capacity() -> Layout {
        Layout {
            size: vstd::layout::size_of::<DataStore>() as usize,
            align: vstd::layout::align_of::<DataStore>() as usize,
        }
    }

    /// The bytes of the buffer.
    pub closed spec fn buffer(&self) -> Seq<u8> {
        self.data@
    }

    /// An empty storage over `store`, a place of type `DataStore`.
    pub fn new(store: &'a mut Vec<u8>) -> (r: Self)
        requires
            old(store)@.len() == vstd::layout::size_of::<DataStore>(),
        ensures
            r.wf(),
            r.live().is_empty(),
            r.buffer() == old(store)@,
    {
        Layout::new::<DataStore>();
        let r = BorrowedStorage { data: store, region: Ghost(None), store: PhantomData };
        assert(r.live() =~= Map::empty());
        r
    }

    /// A region of `needed_layout` fits in the buffer.
    pub fn fits(&self, needed_layout: Layout) -> (r: bool)
        ensures
            r == fits_in(needed_layout, Self::capacity()),
    {
        let available_layout = Layout::new::<DataStore>();
        layout_fits_in(needed_layout, available_layout)
    }
}

impl<'a, DataStore> Storage for BorrowedStorage<'a, DataStore> {
    type Handle = ();

    closed spec fn wf(&self) -> bool {
        &&& Self::capacity().valid()
        &&& self.data@.len() == Self::capacity().size
        &&& self.region@ matches Some(l) ==> l.valid() && fits_in(l, Self::capacity())
    }

    closed spec fn live(&self) -> Regions<()> {
        match self.region@ {
            Some(l) => map![() => (l, self.data@.subrange(0, l.size as int))],
            None => Map::empty(),
        }
    }

    open spec fn multiple() -> bool {
        false
    }

    proof fn lemma_regions_sized(&self) {
    }

    fn allocate(&mut self, layout: Layout) -> (r: Result<(), AllocError>)
        ensures
            r is Ok <==> fits_in(layout, Self::capacity()),
    {
        if self.fits(layout) {
            self.region = Ghost(Some(layout));
            assert(self.live().dom() =~= set![()]);
            Ok(())
        } else {
            Err(AllocError)
        }
    }

    fn deallocate(&mut self, handle: (), layout: Layout) {
        self.region = Ghost(None);
        assert(self.live() =~= old(self).live().remove(handle));
    }

    fn resolve(&self, handle: (), layout: Layout) -> (r: &[u8]) {
        let (head, _) = self.data.as_slice().split_at(layout.size);
        head
    }

    fn resolve_mut(&mut self, handle: (), layout: Layout) -> (r: &mut [u8]) {
        let whole = self.data.as_mut_slice();
        let (head, tail) = whole.split_at_mut(layout.size);
        assert(has_resolved(tail));
        assert(final(head)@.len() == head@.len() ==> (final(head)@ + tail@).subrange(
            0,
            layout.size as int,
        ) =~= final(head)@);
        proof {
            lemma_sole_region(old(self).live());
        }
        head
    }

    fn grow(&mut self, handle: (), old_layout: Layout, new_layout: Layout) -> (r: Result<
        (),
        AllocError,
    >)
        ensures
            r is Ok <==> fits_in(new_layout, Self::capacity()),
    {
        if self.fits(new_layout) {
            self.region = Ghost(Some(new_layout));
            assert(self.live().remove(()) =~= old(self).live().remove(()));
            assert(self.live()[()].1.subrange(0, old_layout.size as int) =~= old(
                self,
            ).live()[()].1.subrange(0, old_layout.size as int));
            Ok(())
        } else {
            Err(AllocError)
        }
    }

    fn shrink(&mut self, handle: (), old_layout: Layout, new_layout: Layout) -> (r: Result<
        (),
        AllocError,
    >)
        ensures
            r is Ok <==> fits_in(new_layout, Self::capacity()),
    {
        if self.fits(new_layout) {
            self.region = Ghost(Some(new_layout));
            assert(self.live().remove(()) =~= old(self).live().remove(()));
            assert(self.live()[()].1.subrange(0, new_layout.size as int) =~= old(
                self,
            ).live()[()].1.subrange(0, new_layout.size as int));
            Ok(())
        } else {
            Err(AllocError)
        }
    }
}

} // verus!
