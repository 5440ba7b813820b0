use crate::bytes::{copy_prefix, to_vec};
use crate::layout::{AllocError, Layout};
use vstd::prelude::*;

verus! {

/// What a storage knows of its live regions: for each live handle, the
/// layout it was created at and the bytes it holds.
pub type Regions<H> = Map<H, (Layout, Seq<u8>)>;

/// Each live region has a valid layout and holds exactly as many bytes as
/// its layout asks for.
pub open spec fn regions_sized<H>(m: Regions<H>) -> bool {
    forall|h: H| #[trigger] m.contains_key(h) ==> m[h].0.valid() && m[h].1.len() == m[h].0.size
}

/// `after` is `before` with a new region `h` of `layout`. A storage that
/// keeps several handles adds it beside the others; a single storage is left
/// with it alone.
pub open spec fn created<H>(
    before: Regions<H>,
    after: Regions<H>,
    h: H,
    layout: Layout,
    multiple: bool,
) -> bool {
    &&& after.contains_key(h)
    &&& after[h].0 == layout
    &&& after[h].1.len() == layout.size
    &&& if multiple {
        !before.contains_key(h) && after.remove(h) == before
    } else {
        after.dom() == set![h]
    }
}

/// `after` is `before` with region `old_h` replaced by region `new_h` of
/// `layout`, whose first `kept` bytes are those of the old region.
pub open spec fn resized<H>(
    before: Regions<H>,
    after: Regions<H>,
    old_h: H,
    new_h: H,
    layout: Layout,
    kept: nat,
) -> bool {
    &&& after.contains_key(new_h)
    &&& after[new_h].0 == layout
    &&& after[new_h].1.len() == layout.size
    &&& after[new_h].1.subrange(0, kept as int) == before[old_h].1.subrange(0, kept as int)
    &&& after.remove(new_h) == before.remove(old_h)
}

/// Types which manage regions of memory through handles.
///
/// A handle is valid from the call that creates it until it is deallocated or
/// replaced by a resize; the operations ask for a live handle and the layout
/// it was created at. A failed operation leaves every region as it was.
pub trait Storage: Sized {
    /// The token that names a region of this storage.
    type Handle;

    /// The storage's own state is consistent.
    spec fn wf(&self) -> bool;

    /// The live regions of this storage.
    spec fn live(&self) -> Regions<Self::Handle>;

    /// Creating a region keeps the other live regions live.
    spec fn multiple() -> bool;

    /// A consistent storage has regions of the size of their layouts.
    proof fn lemma_regions_sized(&self)
        requires
            self.wf(),
        ensures
            regions_sized(self.live()),
    ;

    /// Reserve a region of `layout`. Its bytes are unspecified.
    fn allocate(&mut self, layout: Layout) -> (r: Result<Self::Handle, AllocError>)
        requires
            old(self).wf(),
            layout.valid(),
        ensures
            final(self).wf(),
            r matches Ok(h) ==> created(old(self).live(), final(self).live(), h, layout, Self::multiple()),
            r is Err ==> final(self).live() == old(self).live(),
    ;

    /// Release a live region; its handle is no longer valid.
    fn deallocate(&mut self, handle: Self::Handle, layout: Layout)
        requires
            old(self).wf(),
            old(self).live().contains_key(handle),
            old(self).live()[handle].0 == layout,
        ensures
            final(self).wf(),
            final(self).live() == old(self).live().remove(handle),
    ;

    /// The bytes of a live region.
    fn resolve(&self, handle: Self::Handle, layout: Layout) -> (r: &[u8])
        requires
            self.wf(),
            self.live().contains_key(handle),
            self.live()[handle].0 == layout,
        ensures
            r@ == self.live()[handle].1,
    ;

    /// The bytes of a live region, for reading and writing. What is written
    /// through the result is what the region holds afterwards (a slice keeps
    /// its length, which is all the first clause asks of it).
    fn resolve_mut(&mut self, handle: Self::Handle, layout: Layout) -> (r: &mut [u8])
        requires
            old(self).wf(),
            old(self).live().contains_key(handle),
            old(self).live()[handle].0 == layout,
        ensures
            r@ == old(self).live()[handle].1,
            final(r)@.len() == r@.len() ==> final(self).wf() && final(self).live() == old(
                self,
            ).live().insert(handle, (layout, final(r)@)),
    ;

    /// Give a live region a larger layout. On success the old handle is no
    /// longer valid and the new region starts with the old region's bytes.
    fn grow(&mut self, handle: Self::Handle, old_layout: Layout, new_layout: Layout) -> (r: Result<
        Self::Handle,
        AllocError,
    >)
        requires
            old(self).wf(),
            old(self).live().contains_key(handle),
            old(self).live()[handle].0 == old_layout,
            new_layout.valid(),
            new_layout.size >= old_layout.size,
        ensures
            final(self).wf(),
            r matches Ok(h) ==> resized(
                old(self).live(),
                final(self).live(),
                handle,
                h,
                new_layout,
                old_layout.size as nat,
            ),
            r is Err ==> final(self).live() == old(self).live(),
    ;

    /// Give a live region a smaller layout. On success the old handle is no
    /// longer valid and the new region holds the first bytes of the old one.
    fn shrink(&mut self, handle: Self::Handle, old_layout: Layout, new_layout: Layout) -> (r: Result<
        Self::Handle,
        AllocError,
    >)
        requires
            old(self).wf(),
            old(self).live().contains_key(handle),
            old(self).live()[handle].0 == old_layout,
            new_layout.valid(),
            new_layout.size <= old_layout.size,
        ensures
            final(self).wf(),
            r matches Ok(h) ==> resized(
                old(self).live(),
                final(self).live(),
                handle,
                h,
                new_layout,
                new_layout.size as nat,
            ),
            r is Err ==> final(self).live() == old(self).live(),
    ;
}

/// A storage whose regions keep their place until they are deallocated, so
/// that what they hold may be pinned.
pub trait PinningStorage: Storage {}

/// A storage whose regions do not lie in the storage's own bytes, so that the
/// right to write them does not come from where the storage value is. Here
/// writing still goes through `resolve_mut`; the mark records the capability.
pub trait SharedMutabilityStorage: Storage {}

/// A storage that keeps several regions live at once: creating a region
/// leaves the others as they are.
pub trait MultipleStorage: Storage {
    proof fn lemma_multiple()
        ensures
            Self::multiple(),
    ;
}

/// What is written through `resolve_mut` is what `resolve` reads back: once
/// a storage holds the written bytes in place of a live region, as
/// `resolve_mut` promises, the region is still live at its layout and holds
/// exactly those bytes, which is all that `resolve` asks and returns.
pub proof fn lemma_round_trip<S: Storage>(
    before: S,
    after: S,
    handle: S::Handle,
    layout: Layout,
    written: Seq<u8>,
)
    requires
        before.wf(),
        before.live().contains_key(handle),
        before.live()[handle].0 == layout,
        after.wf(),
        after.live() == before.live().insert(handle, (layout, written)),
    ensures
        after.live().contains_key(handle),
        after.live()[handle].0 == layout,
        after.live()[handle].1 == written,
        after.live().remove(handle) == before.live().remove(handle),
{
    assert(after.live().remove(handle) =~= before.live().remove(handle));
}

/// Move the contents of region `handle` into the distinct live region
/// `new_handle`: its first `kept` bytes are copied over, and then region
/// `handle` is released.
pub fn move_into<S: MultipleStorage>(
    storage: &mut S,
    handle: S::Handle,
    new_handle: S::Handle,
    old_layout: Layout,
    new_layout: Layout,
    kept: usize,
) where S::Handle: Copy
    requires
        old(storage).wf(),
        handle != new_handle,
        old(storage).live().contains_key(handle),
        old(storage).live()[handle].0 == old_layout,
        old(storage).live().contains_key(new_handle),
        old(storage).live()[new_handle].0 == new_layout,
        kept <= old_layout.size,
        kept <= new_layout.size,
    ensures
        final(storage).wf(),
        final(storage).live().contains_key(new_handle),
        final(storage).live()[new_handle].0 == new_layout,
        final(storage).live()[new_handle].1.len() == new_layout.size,
        final(storage).live()[new_handle].1.subrange(0, kept as int) == old(
            storage,
        ).live()[handle].1.subrange(0, kept as int),
        final(storage).live()[new_handle].1.subrange(kept as int, new_layout.size as int) == old(
            storage,
        ).live()[new_handle].1.subrange(kept as int, new_layout.size as int),
        final(storage).live().remove(new_handle) == old(storage).live().remove(handle).remove(
            new_handle,
        ),
{
    proof {
        old(storage).lemma_regions_sized();
    }
    let saved = to_vec(storage.resolve(handle, old_layout));
    let dst = storage.resolve_mut(new_handle, new_layout);
    copy_prefix(dst, saved.as_slice(), kept);
    let ghost moved = dst@;
    assert(moved.subrange(0, kept as int) =~= old(storage).live()[handle].1.subrange(0, kept as int));
    assert(moved.subrange(kept as int, new_layout.size as int) =~= old(storage).live()[new_handle].1.subrange(kept as int, new_layout.size as int));
    storage.deallocate(handle, old_layout);
    assert(storage.live().remove(new_handle) =~= old(storage).live().remove(handle).remove(new_handle));
}

/// Create a region of `new_layout` and move region `handle` into it,
/// keeping its first `kept` bytes.
fn move_by_copy<S: MultipleStorage>(
    storage: &mut S,
    handle: S::Handle,
    old_layout: Layout,
    new_layout: Layout,
    kept: usize,
) -> (r: Result<S::Handle, AllocError>) where S::Handle: Copy
    requires
        old(storage).wf(),
        old(storage).live().contains_key(handle),
        old(storage).live()[handle].0 == old_layout,
        new_layout.valid(),
        kept <= old_layout.size,
        kept <= new_layout.size,
    ensures
        final(storage).wf(),
        r matches Ok(h) ==> resized(
            old(storage).live(),
            final(storage).live(),
            handle,
            h,
            new_layout,
            kept as nat,
        ),
        r is Err ==> final(storage).live() == old(storage).live(),
{
    proof {
        S::lemma_multiple();
    }
    match storage.allocate(new_layout) {
        Ok(new_handle) => {
            let ghost mid = storage.live();
            assert(mid.remove(new_handle) == old(storage).live());
            move_into(storage, handle, new_handle, old_layout, new_layout, kept);
            assert(storage.live().remove(new_handle) =~= old(storage).live().remove(handle));
            Ok(new_handle)
        },
        Err(e) => Err(e),
    }
}

/// Grow a region of a storage that keeps several regions, by copying it to
/// a new region.
pub fn grow_by_copy<S: MultipleStorage>(
    storage: &mut S,
    handle: S::Handle,
    old_layout: Layout,
    new_layout: Layout,
) -> (r: Result<S::Handle, AllocError>) where S::Handle: Copy
    requires
        old(storage).wf(),
        old(storage).live().contains_key(handle),
        old(storage).live()[handle].0 == old_layout,
        new_layout.valid(),
        new_layout.size >= old_layout.size,
    ensures
        final(storage).wf(),
        r matches Ok(h) ==> resized(
            old(storage).live(),
            final(storage).live(),
            handle,
            h,
            new_layout,
            old_layout.size as nat,
        ),
        r is Err ==> final(storage).live() == old(storage).live(),
{
    move_by_copy(storage, handle, old_layout, new_layout, old_layout.size)
}

/// Shrink a region of a storage that keeps several regions, by copying its
/// first bytes to a new region.
pub fn shrink_by_copy<S: MultipleStorage>(
    storage: &mut S,
    handle: S::Handle,
    old_layout: Layout,
    new_layout: Layout,
) -> (r: Result<S::Handle, AllocError>) where S::Handle: Copy
    requires
        old(storage).wf(),
        old(storage).live().contains_key(handle),
        old(storage).live()[handle].0 == old_layout,
        new_layout.valid(),
        new_layout.size <= old_layout.size,
    ensures
        final(storage).wf(),
        r matches Ok(h) ==> resized(
            old(storage).live(),
            final(storage).live(),
            handle,
            h,
            new_layout,
            new_layout.size as nat,
        ),
        r is Err ==> final(storage).live() == old(storage).live(),
{
    move_by_copy(storage, handle, old_layout, new_layout, new_layout.size)
}

} // verus!
