use crate::layout::{AllocError, Layout, fits_in, layout_fits_in};
use crate::traits::{Regions, Storage};
use core::marker::PhantomData;
use vstd::prelude::*;

verus! {

/// A buffer of `n` zero bytes.
pub(crate) fn zeroed(n: usize) -> (r: Vec<u8>)
    ensures
        r@ == Seq::new(n as nat, |i: int| 0u8),
{
    let mut v: Vec<u8> = Vec::new();
    while v.len() < n
        invariant
            v.len() <= n,
            v@ == Seq::new(v.len() as nat, |i: int| 0u8),
        decreases n - v.len(),
    {
        v.push(0);
    }
    v
}

/// Replacing the region of a single storage that has one.
pub(crate) proof fn lemma_sole_region(m: Regions<()>)
    requires
        m.contains_key(()),
    ensures
        forall|v: (Layout, Seq<u8>)| #[trigger] m.insert((), v) == map![() => v],
{
    assert forall|v: (Layout, Seq<u8>)| #[trigger] m.insert((), v) == map![() => v] by {
        assert(m.insert((), v) =~= map![() => v]);
    }
}

/// A single storage whose region lies in its own buffer.
///
/// The buffer has the size and alignment of `DataStore`.
pub struct InlineStorage<DataStore> {
    data: Vec<u8>,
    region: Ghost<Option<Layout>>,
    store: PhantomData<DataStore>,
}

impl<DataStore> InlineStorage<DataStore> {
    /// The layout of the buffer.
    pub open spec fn capacity() -> Layout {
        Layout {
            size: vstd::layout::size_of::<DataStore>() as usize,
            align: vstd::layout::align_of::<DataStore>() as usize,
        }
    }

    /// The bytes of the buffer.
    pub closed spec fn buffer(&self) -> Seq<u8> {
        self.data@
    }

    /// An empty storage.
    pub fn new() -> (r: Self)
        ensures
            r.wf(),
            r.live().is_empty(),
    {
        let capacity = Layout::new::<DataStore>();
        let r = InlineStorage { data: zeroed(capacity.size), region: Ghost(None), store: PhantomData };
        assert(r.live() =~= Map::empty());
        r
    }

    /// A region of `needed_layout` fits in the buffer.
    pub fn fits(&self, needed_layout: Layout) -> (r: bool)
        ensures
            r == fits_in(needed_layout, Self::capacity()),
    {
        let available_layout = Layout::new::<DataStore>();
        layout_fits_in(needed_layout, available_layout)
    }
}

impl<DataStore> InlineStorage<DataStore> {
    /// A region that fits in the buffer can always be created, and a live
    /// region lies at the start of the buffer, which is at least as aligned
    /// as the region asks: what `resolve` and `resolve_mut` hand out is the
    /// region's room in the buffer and nothing past its end.
    pub proof fn lemma_region_in_buffer(&self)
        requires
            self.wf(),
        ensures
            self.live().contains_key(()) ==> {
                let l = self.live()[()].0;
                &&& self.live()[()].1 == self.buffer().subrange(0, l.size as int)
                &&& l.size <= self.buffer().len()
                &&& l.align <= Self::capacity().align
            },
    {
    }

    /// A live region fits in the buffer.
    pub proof fn lemma_live_fits(&self)
        requires
            self.wf(),
        ensures
            self.live().contains_key(()) ==> fits_in(self.live()[()].0, Self::capacity()),
    {
    }

    /// Forget the region, if there is one.
    pub(crate) fn deallocate_all(&mut self)
        requires
            old(self).wf(),
        ensures
            final(self).wf(),
            final(self).live().is_empty(),
    {
        self.region = Ghost(None);
        assert(self.live() =~= Map::empty());
    }
}

impl<DataStore> Storage for InlineStorage<DataStore> {
    type Handle = ();

    closed spec fn wf(&self) -> bool {
        &&& Self::capacity().valid()
        &&& self.data@.len() == Self::capacity().size
        &&& self.region@ matches Some(l) ==> l.valid() && fits_in(l, Self::capacity())
    }

    closed spec fn live(&self) -> Regions<()> {
        match self.region@ {
            Some(l) => map![() => (l, self.data@.subrange(0, l.size as int))],
            None => Map::empty(),
        }
    }

    open spec fn multiple() -> bool {
        false
    }

    proof fn lemma_regions_sized(&self) {
    }

    fn allocate(&mut self, layout: Layout) -> (r: Result<(), AllocError>)
        ensures
            r is Ok <==> fits_in(layout, Self::capacity()),
    {
        if self.fits(layout) {
            self.region = Ghost(Some(layout));
            assert(self.live().dom() =~= set![()]);
            Ok(())
        } else {
            Err(AllocError)
        }
    }

    fn deallocate(&mut self, handle: (), layout: Layout) {
        self.region = Ghost(None);
        assert(self.live() =~= old(self).live().remove(handle));
    }

    fn resolve(&self, handle: (), layout: Layout) -> (r: &[u8]) {
        let (head, _) = self.data.as_slice().split_at(layout.size);
        head
    }

    fn resolve_mut(&mut self, handle: (), layout: Layout) -> (r: &mut [u8]) {
        let whole = self.data.as_mut_slice();
        let (head, tail) = whole.split_at_mut(layout.size);
        assert(has_resolved(tail));
        assert(final(head)@.len() == head@.len() ==> (final(head)@ + tail@).subrange(
            0,
            layout.size as int,
        ) =~= final(head)@);
        proof {
            lemma_sole_region(old(self).live());
        }
        head
    }

    fn grow(&mut self, handle: (), old_layout: Layout, new_layout: Layout) -> (r: Result<
        (),
        AllocError,
    >)
        ensures
            r is Ok <==> fits_in(new_layout, Self::capacity()),
    {
        if self.fits(new_layout) {
            self.region = Ghost(Some(new_layout));
            assert(self.live().remove(()) =~= old(self).live().remove(()));
            assert(self.live()[()].1.subrange(0, old_layout.size as int) =~= old(
                self,
            ).live()[()].1.subrange(0, old_layout.size as int));
            Ok(())
        } else {
            Err(AllocError)
        }
    }

    fn shrink(&mut self, handle: (), old_layout: Layout, new_layout: Layout) -> (r: Result<
        (),
        AllocError,
    >)
        ensures
            r is Ok <==> fits_in(new_layout, Self::capacity()),
    {
        if self.fits(new_layout) {
            self.region = Ghost(Some(new_layout));
            assert(self.live().remove(()) =~= old(self).live().remove(()));
            assert(self.live()[()].1.subrange(0, new_layout.size as int) =~= old(
                self,
            ).live()[()].1.subrange(0, new_layout.size as int));
            Ok(())
        } else {
            Err(AllocError)
        }
    }
}

} // verus!
