use crate::bytes::{copy_prefix, from_le_bytes, le_bytes, lemma_le_bytes_round_trip, read_u64, write_u64};
use crate::heap::{AllocHandle, AllocStorage, Allocator};
use crate::inline::{InlineStorage, lemma_sole_region};
use crate::layout::{AllocError, Layout, fits_in};
use crate::traits::{Regions, Storage, created, resized};
use vstd::prelude::*;

verus! {

broadcast use vstd::layout::layout_of_primitives;

/// A single storage that keeps its region inline when it fits in the buffer
/// and in a block of an [`Allocator`] otherwise.
///
/// Which of the two holds is decided by the region's layout alone: when it
/// does not fit, the buffer holds the address of the block.
pub struct SmallStorage<DataStore, A: Allocator> {
    inline: InlineStorage<DataStore>,
    outline: AllocStorage<A>,
    region: Ghost<Option<Layout>>,
}

impl<DataStore, A: Allocator> SmallStorage<DataStore, A> {
    /// A region of `l` is kept inline.
    pub open spec fn inline_fits(l: Layout) -> bool {
        fits_in(l, InlineStorage::<DataStore>::capacity())
    }

    /// The layout of the address of a block, as the buffer holds it.
    pub open spec fn slot_layout() -> Layout {
        Layout { size: 8, align: vstd::layout::align_of::<u64>() as usize }
    }

    /// The handle of the block whose address the buffer holds.
    pub closed spec fn outline_handle(&self) -> AllocHandle {
        AllocHandle { pointer: from_le_bytes(self.inline.live()[()].1) as usize }
    }

    /// The regions of the allocator side.
    pub open spec fn outline_live(&self) -> Regions<AllocHandle> {
        AllocStorage::<A>::regions_of(self.allocator().blocks())
    }

    /// The allocator the blocks come from.
    pub closed spec fn allocator(&self) -> A {
        self.outline.allocator()
    }

    /// A live region that does not fit in the buffer is the allocator's
    /// block whose address the buffer holds, not any part of the buffer.
    pub proof fn lemma_outline_region(&self)
        requires
            self.wf(),
            self.live().contains_key(()),
            !Self::inline_fits(self.live()[()].0),
        ensures
            self.outline_live().contains_key(self.outline_handle()),
            self.live()[()] == self.outline_live()[self.outline_handle()],
    {
    }

    /// An empty storage over `alloc`.
    pub fn new(alloc: A) -> (r: Self)
        requires
            alloc.wf(),
        ensures
            r.wf(),
            r.live().is_empty(),
            r.allocator() == alloc,
    {
        let r = Self { inline: InlineStorage::new(), outline: AllocStorage::new(alloc), region: Ghost(None) };
        assert(r.live() =~= Map::empty());
        r
    }

    fn slot_layout_exec() -> (r: Layout)
        ensures
            r == Self::slot_layout(),
            r.valid(),
    {
        Layout::new::<u64>()
    }

    /// The handle of the block whose address the buffer holds.
    fn stored_handle(&self) -> (r: AllocHandle)
        requires
            self.inline.wf(),
            self.inline.live().contains_key(()),
            self.inline.live()[()].0 == Self::slot_layout(),
        ensures
            r == self.outline_handle(),
    {
        let slot = Self::slot_layout_exec();
        proof {
            self.inline.lemma_regions_sized();
        }
        let address = read_u64(self.inline.resolve((), slot));
        AllocHandle::new(address as usize)
    }

    /// Write the address of `h` in the buffer, which holds no region.
    fn store_handle(&mut self, h: AllocHandle)
        requires
            old(self).inline.wf(),
            old(self).inline.live().is_empty(),
            Self::inline_fits(Self::slot_layout()),
        ensures
            final(self).inline.wf(),
            final(self).inline.live().contains_key(()),
            final(self).inline.live()[()].0 == Self::slot_layout(),
            final(self).outline_handle() == h,
            final(self).outline == old(self).outline,
            final(self).region == old(self).region,
    {
        let slot = Self::slot_layout_exec();
        let r = self.inline.allocate(slot);
        assert(r is Ok);
        proof {
            self.inline.lemma_regions_sized();
            lemma_le_bytes_round_trip(h.pointer as u64);
        }
        let bytes = self.inline.resolve_mut((), slot);
        assert(bytes@.len() == 8);
        write_u64(bytes, h.pointer() as u64);
        assert(bytes@.len() == 8);
        assert(bytes@.subrange(0, 8) == bytes@);
        assert(bytes@ =~= le_bytes(h.pointer as u64));
    }

    /// Move an inline region to a new block of `new_layout`, keeping its
    /// first `kept` bytes.
    fn promote(&mut self, old_layout: Layout, new_layout: Layout, kept: usize) -> (r: Result<
        (),
        AllocError,
    >)
        requires
            old(self).wf(),
            old(self).region@ == Some(old_layout),
            Self::inline_fits(old_layout),
            !Self::inline_fits(new_layout),
            new_layout.valid(),
            kept <= old_layout.size,
            kept <= new_layout.size,
        ensures
            final(self).wf(),
            r is Ok ==> resized(old(self).live(), final(self).live(), (), (), new_layout, kept as nat),
            r is Ok ==> final(self).region@ == Some(new_layout),
            r is Err ==> final(self).live() == old(self).live(),
            r is Err ==> final(self).outline_live() == old(self).outline_live(),
            Self::inline_fits(Self::slot_layout()) && old(self).allocator().grants(new_layout) ==> r is Ok,
            !Self::inline_fits(Self::slot_layout()) ==> r is Err,
    {
        let slot = Self::slot_layout_exec();
        if !self.inline.fits(slot) {
            return Err(AllocError);
        }
        let h = match self.outline.allocate(new_layout) {
            Ok(h) => h,
            Err(e) => {
                return Err(e);
            },
        };
        proof {
            self.inline.lemma_regions_sized();
            self.outline.lemma_regions_sized();
        }
        let ghost before = self.inline.live()[()].1;
        let src = self.inline.resolve((), old_layout);
        let dst = self.outline.resolve_mut(h, new_layout);
        copy_prefix(dst, src, kept);
        let ghost moved = dst@;
        assert(moved.subrange(0, kept as int) =~= before.subrange(0, kept as int));
        self.inline.deallocate((), old_layout);
        self.store_handle(h);
        self.region = Ghost(Some(new_layout));
        assert(self.live().remove(()) =~= old(self).live().remove(()));
        Ok(())
    }

    /// Move a region out of its block into the buffer at `new_layout`,
    /// keeping its first `kept` bytes, and then give the block back.
    fn demote(&mut self, old_layout: Layout, new_layout: Layout, kept: usize)
        requires
            old(self).wf(),
            old(self).region@ == Some(old_layout),
            !Self::inline_fits(old_layout),
            Self::inline_fits(new_layout),
            new_layout.valid(),
            kept <= old_layout.size,
            kept <= new_layout.size,
        ensures
            final(self).wf(),
            resized(old(self).live(), final(self).live(), (), (), new_layout, kept as nat),
            final(self).region@ == Some(new_layout),
            final(self).outline_live() == old(self).outline_live().remove(old(self).outline_handle()),
    {
        let h = self.stored_handle();
        self.inline.deallocate_all();
        let r = self.inline.allocate(new_layout);
        assert(r is Ok);
        proof {
            self.inline.lemma_regions_sized();
            self.outline.lemma_regions_sized();
        }
        let ghost before = self.outline.live()[h].1;
        let src = self.outline.resolve(h, old_layout);
        let dst = self.inline.resolve_mut((), new_layout);
        copy_prefix(dst, src, kept);
        let ghost moved = dst@;
        assert(moved.subrange(0, kept as int) =~= before.subrange(0, kept as int));
        self.outline.deallocate(h, old_layout);
        self.region = Ghost(Some(new_layout));
        assert(self.live().remove(()) =~= old(self).live().remove(()));
    }

    /// Give the block a new layout through the allocator, keeping its first
    /// `kept` bytes.
    fn resize_outline(&mut self, old_layout: Layout, new_layout: Layout, growing: bool) -> (r: Result<
        (),
        AllocError,
    >)
        requires
            old(self).wf(),
            old(self).region@ == Some(old_layout),
            !Self::inline_fits(old_layout),
            !Self::inline_fits(new_layout),
            new_layout.valid(),
            growing ==> new_layout.size >= old_layout.size,
            !growing ==> new_layout.size <= old_layout.size,
        ensures
            final(self).wf(),
            r is Ok ==> resized(
                old(self).live(),
                final(self).live(),
                (),
                (),
                new_layout,
                if growing { old_layout.size as nat } else { new_layout.size as nat },
            ),
            r is Ok ==> final(self).region@ == Some(new_layout),
            r is Err ==> final(self).live() == old(self).live(),
            r is Err ==> final(self).outline_live() == old(self).outline_live(),
            old(self).allocator().grants(new_layout) ==> r is Ok,
    {
        let h = self.stored_handle();
        proof {
            self.inline.lemma_live_fits();
        }
        let moved = if growing {
            self.outline.grow(h, old_layout, new_layout)
        } else {
            self.outline.shrink(h, old_layout, new_layout)
        };
        match moved {
            Ok(nh) => {
                self.inline.deallocate_all();
                self.store_handle(nh);
                self.region = Ghost(Some(new_layout));
                assert(self.live().remove(()) =~= old(self).live().remove(()));
                Ok(())
            },
            Err(e) => Err(e),
        }
    }
}

impl<DataStore, A: Allocator> Storage for SmallStorage<DataStore, A> {
    type Handle = ();

    closed spec fn wf(&self) -> bool {
        &&& self.inline.wf()
        &&& self.outline.wf()
        &&& match self.region@ {
            None => self.inline.live().is_empty(),
            Some(l) => {
                &&& l.valid()
                &&& self.inline.live().contains_key(())
                &&& if Self::inline_fits(l) {
                    self.inline.live()[()].0 == l
                } else {
                    &&& self.inline.live()[()].0 == Self::slot_layout()
                    &&& self.outline.live().contains_key(self.outline_handle())
                    &&& self.outline.live()[self.outline_handle()].0 == l
                }
            },
        }
    }

    closed spec fn live(&self) -> Regions<()> {
        match self.region@ {
            None => Map::empty(),
            Some(l) => if Self::inline_fits(l) {
                self.inline.live()
            } else {
                map![() => self.outline.live()[self.outline_handle()]]
            },
        }
    }

    open spec fn multiple() -> bool {
        false
    }

    proof fn lemma_regions_sized(&self) {
        self.inline.lemma_regions_sized();
        self.outline.lemma_regions_sized();
    }

    fn allocate(&mut self, layout: Layout) -> (r: Result<(), AllocError>)
        ensures
            Self::inline_fits(layout) ==> r is Ok && final(self).outline_live() == old(self).outline_live(),
            !Self::inline_fits(layout) && r is Ok ==> created(
                old(self).outline_live(),
                final(self).outline_live(),
                final(self).outline_handle(),
                layout,
                true,
            ),
            !Self::inline_fits(layout) && r is Ok ==> final(self).live()[()]
                == final(self).outline_live()[final(self).outline_handle()],
            !Self::inline_fits(layout) && Self::inline_fits(Self::slot_layout()) && old(self).allocator().grants(layout) ==> r is Ok,
            r is Err ==> final(self).outline_live() == old(self).outline_live(),
            r is Err ==> !Self::inline_fits(layout),
            !Self::inline_fits(layout) && !Self::inline_fits(Self::slot_layout()) ==> r is Err,
    {
        if self.inline.fits(layout) {
            let r = self.inline.allocate(layout);
            self.region = Ghost(Some(layout));
            r
        } else {
            let slot = Self::slot_layout_exec();
            if !self.inline.fits(slot) {
                return Err(AllocError);
            }
            match self.outline.allocate(layout) {
                Ok(h) => {
                    self.inline.deallocate_all();
                    self.store_handle(h);
                    self.region = Ghost(Some(layout));
                    assert(self.live().dom() =~= set![()]);
                    Ok(())
                },
                Err(e) => Err(e),
            }
        }
    }

    /// A region in the buffer is simply forgotten; a region in a block gives
    /// the block back to the allocator.
    fn deallocate(&mut self, handle: (), layout: Layout)
        ensures
            Self::inline_fits(layout) ==> final(self).outline_live() == old(self).outline_live(),
            !Self::inline_fits(layout) ==> final(self).outline_live() == old(self).outline_live().remove(old(self).outline_handle()),
    {
        if self.inline.fits(layout) {
            self.inline.deallocate(handle, layout);
        } else {
            let h = self.stored_handle();
            let slot = Self::slot_layout_exec();
            self.inline.deallocate((), slot);
            self.outline.deallocate(h, layout);
        }
        self.region = Ghost(None);
        assert(self.live() =~= old(self).live().remove(handle));
    }

    fn resolve(&self, handle: (), layout: Layout) -> (r: &[u8]) {
        if self.inline.fits(layout) {
            self.inline.resolve(handle, layout)
        } else {
            let h = self.stored_handle();
            self.outline.resolve(h, layout)
        }
    }

    fn resolve_mut(&mut self, handle: (), layout: Layout) -> (r: &mut [u8]) {
        proof {
            lemma_sole_region(old(self).live());
        }
        if self.inline.fits(layout) {
            self.inline.resolve_mut(handle, layout)
        } else {
            let h = self.stored_handle();
            self.outline.resolve_mut(h, layout)
        }
    }

    /// A region that stays in the buffer, or stays in its block, is resized
    /// where it is. One that no longer fits in the buffer is promoted to a new
    /// block; one that now fits (a smaller alignment can bring that about) is
    /// moved back into the buffer.
    fn grow(&mut self, handle: (), old_layout: Layout, new_layout: Layout) -> (r: Result<
        (),
        AllocError,
    >)
        ensures
            Self::inline_fits(new_layout) ==> r is Ok,
            Self::inline_fits(Self::slot_layout()) && old(self).allocator().grants(new_layout)
                ==> r is Ok,
            r is Err ==> final(self).outline_live() == old(self).outline_live(),
            Self::inline_fits(old_layout) && Self::inline_fits(new_layout) ==> final(self).outline_live() == old(self).outline_live(),
            Self::inline_fits(old_layout) && !Self::inline_fits(new_layout) && !Self::inline_fits(
                Self::slot_layout(),
            ) ==> r is Err,
            !Self::inline_fits(old_layout) && Self::inline_fits(new_layout) ==> final(self).outline_live() == old(self).outline_live().remove(old(self).outline_handle()),
    {
        match (self.inline.fits(old_layout), self.inline.fits(new_layout)) {
            (true, true) => {
                let r = self.inline.grow(handle, old_layout, new_layout);
                self.region = Ghost(Some(new_layout));
                r
            },
            (true, false) => self.promote(old_layout, new_layout, old_layout.size),
            (false, false) => self.resize_outline(old_layout, new_layout, true),
            (false, true) => {
                self.demote(old_layout, new_layout, old_layout.size);
                Ok(())
            },
        }
    }

    /// Like [`grow`](Self::grow): a region that comes to fit in the buffer is
    /// copied into it, and only then is its block given back.
    fn shrink(&mut self, handle: (), old_layout: Layout, new_layout: Layout) -> (r: Result<
        (),
        AllocError,
    >)
        ensures
            Self::inline_fits(new_layout) ==> r is Ok,
            Self::inline_fits(Self::slot_layout()) && old(self).allocator().grants(new_layout)
                ==> r is Ok,
            r is Err ==> final(self).outline_live() == old(self).outline_live(),
            Self::inline_fits(old_layout) && Self::inline_fits(new_layout) ==> final(self).outline_live() == old(self).outline_live(),
            Self::inline_fits(old_layout) && !Self::inline_fits(new_layout) && !Self::inline_fits(
                Self::slot_layout(),
            ) ==> r is Err,
            !Self::inline_fits(old_layout) && Self::inline_fits(new_layout) ==> final(self).outline_live() == old(self).outline_live().remove(old(self).outline_handle()),
    {
        match (self.inline.fits(old_layout), self.inline.fits(new_layout)) {
            (true, true) => {
                let r = self.inline.shrink(handle, old_layout, new_layout);
                self.region = Ghost(Some(new_layout));
                r
            },
            (true, false) => self.promote(old_layout, new_layout, new_layout.size),
            (false, false) => self.resize_outline(old_layout, new_layout, false),
            (false, true) => {
                self.demote(old_layout, new_layout, new_layout.size);
                Ok(())
            },
        }
    }
}

} // verus!
