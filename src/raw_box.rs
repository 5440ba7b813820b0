use crate::layout::Layout;
use crate::traits::{Storage, created};
use vstd::prelude::*;

verus! {

/// One region of a storage together with the storage and the region's
/// handle: a box whose contents are bytes not yet given a meaning.
pub struct RawBox<S: Storage> {
    handle: S::Handle,
    metadata: Layout,
    storage: S,
}

impl<S: Storage> RawBox<S> where S::Handle: Copy {
    /// The storage is consistent and the handle names a live region of the
    /// layout the box describes.
    pub closed spec fn wf(&self) -> bool {
        &&& self.storage.wf()
        &&& self.storage.live().contains_key(self.handle)
        &&& self.storage.live()[self.handle].0 == self.metadata
    }

    /// The layout of the boxed region.
    pub closed spec fn spec_metadata(&self) -> Layout {
        self.metadata
    }

    /// The bytes of the boxed region.
    pub closed spec fn bytes(&self) -> Seq<u8> {
        self.storage.live()[self.handle].1
    }

    /// The storage the region lives in.
    pub closed spec fn storage(&self) -> S {
        self.storage
    }

    /// The handle of the boxed region.
    pub closed spec fn handle(&self) -> S::Handle {
        self.handle
    }

    /// What a consistent box is made of.
    pub proof fn lemma_parts(&self)
        requires
            self.wf(),
        ensures
            self.storage().wf(),
            self.storage().live().contains_key(self.handle()),
            self.storage().live()[self.handle()] == (self.spec_metadata(), self.bytes()),
    {
    }

    /// A box for a region of `metadata` created in `storage`, or the storage
    /// back, unchanged in what it holds, when it cannot make one.
    pub fn new(metadata: Layout, storage: S) -> (r: Result<Self, S>)
        requires
            storage.wf(),
            metadata.valid(),
        ensures
            r matches Ok(b) ==> b.wf() && b.spec_metadata() == metadata && b.bytes().len() == metadata.size,
            r matches Ok(b) ==> b.storage().live().remove(b.handle()).submap_of(storage.live()),
            r matches Ok(b) ==> created(storage.live(), b.storage().live(), b.handle(), metadata, S::multiple()),
            r matches Err(s) ==> s.wf() && s.live() == storage.live(),
    {
        let mut storage = storage;
        let ghost before = storage.live();
        match storage.allocate(metadata) {
            Ok(handle) => {
                proof {
                    if !S::multiple() {
                        assert(storage.live().remove(handle) =~= Map::empty());
                    }
                }
                Ok(RawBox { handle, metadata, storage })
            },
            Err(_) => Err(storage),
        }
    }

    /// The bytes of the boxed region.
    pub fn as_ref(&self) -> (r: &[u8])
        requires
            self.wf(),
        ensures
            r@ == self.bytes(),
    {
        self.storage.resolve(self.handle, self.metadata)
    }

    /// The bytes of the boxed region, for reading and writing.
    pub fn as_mut(&mut self) -> (r: &mut [u8])
        requires
            old(self).wf(),
        ensures
            r@ == old(self).bytes(),
            final(r)@.len() == r@.len() ==> final(self).wf() && final(self).bytes() == final(r)@,
            final(r)@.len() == r@.len() ==> final(self).spec_metadata() == old(self).spec_metadata(),
    {
        self.storage.resolve_mut(self.handle, self.metadata)
    }

    /// The layout of the boxed region.
    pub fn metadata(&self) -> (r: Layout)
        ensures
            r == self.spec_metadata(),
    {
        self.metadata
    }

    /// The handle, the layout and the storage of the box.
    pub fn into_raw_parts(self) -> (r: (S::Handle, Layout, S))
        ensures
            r == (self.handle(), self.spec_metadata(), self.storage()),
    {
        (self.handle, self.metadata, self.storage)
    }

    /// A box from the parts [`into_raw_parts`](Self::into_raw_parts) gives.
    pub fn from_raw_parts(handle: S::Handle, metadata: Layout, storage: S) -> (r: Self)
        requires
            storage.wf(),
            storage.live().contains_key(handle),
            storage.live()[handle].0 == metadata,
        ensures
            r.wf(),
            r.handle() == handle,
            r.spec_metadata() == metadata,
            r.storage() == storage,
    {
        RawBox { handle, metadata, storage }
    }

    /// Release the region and give back the storage.
    pub fn free(self) -> (r: S)
        requires
            self.wf(),
        ensures
            r.wf(),
            r.live() == self.storage().live().remove(self.handle()),
    {
        let mut storage = self.storage;
        storage.deallocate(self.handle, self.metadata);
        storage
    }
}

/// A box whose region holds a value written when it was made.
pub struct Box<S: Storage> {
    raw: RawBox<S>,
}

impl<S: Storage> Box<S> where S::Handle: Copy {
    pub closed spec fn wf(&self) -> bool {
        self.raw.wf()
    }

    /// The bytes of the boxed value.
    pub closed spec fn bytes(&self) -> Seq<u8> {
        self.raw.bytes()
    }

    /// The layout of the boxed value.
    pub closed spec fn spec_metadata(&self) -> Layout {
        self.raw.spec_metadata()
    }

    /// The raw box underneath.
    pub closed spec fn raw(&self) -> RawBox<S> {
        self.raw
    }

    /// What a consistent box is made of.
    pub proof fn lemma_parts(&self)
        requires
            self.wf(),
        ensures
            self.raw().wf(),
            self.raw().bytes() == self.bytes(),
            self.raw().spec_metadata() == self.spec_metadata(),
    {
    }

    /// A box in `storage` holding `value` at `layout`, or the storage back
    /// when it has no room.
    pub fn new_in(value: &[u8], layout: Layout, storage: S) -> (r: Result<Self, S>)
        requires
            storage.wf(),
            layout.valid(),
            layout.size == value@.len(),
        ensures
            r matches Ok(b) ==> b.wf() && b.bytes() == value@ && b.spec_metadata() == layout,
            r matches Err(s) ==> s.wf() && s.live() == storage.live(),
    {
        match RawBox::new(layout, storage) {
            Ok(raw) => {
                let mut raw = raw;
                let dst = raw.as_mut();
                crate::bytes::copy_prefix(dst, value, layout.size);
                assert(dst@ =~= value@);
                Ok(Box { raw })
            },
            Err(s) => Err(s),
        }
    }

    /// The bytes of the boxed value.
    pub fn get(&self) -> (r: &[u8])
        requires
            self.wf(),
        ensures
            r@ == self.bytes(),
    {
        self.raw.as_ref()
    }

    /// The bytes of the boxed value, for reading and writing.
    pub fn get_mut(&mut self) -> (r: &mut [u8])
        requires
            old(self).wf(),
        ensures
            r@ == old(self).bytes(),
            final(r)@.len() == r@.len() ==> final(self).wf() && final(self).bytes() == final(r)@,
            final(r)@.len() == r@.len() ==> final(self).spec_metadata() == old(self).spec_metadata(),
    {
        self.raw.as_mut()
    }

    /// The handle, the layout and the storage of the box.
    pub fn into_raw_parts(this: Self) -> (r: (S::Handle, Layout, S))
        ensures
            r == (this.raw().handle(), this.raw().spec_metadata(), this.raw().storage()),
    {
        this.raw.into_raw_parts()
    }

    /// A box from the parts [`into_raw_parts`](Self::into_raw_parts) gives.
    pub fn from_raw_parts(handle: S::Handle, metadata: Layout, storage: S) -> (r: Self)
        requires
            storage.wf(),
            storage.live().contains_key(handle),
            storage.live()[handle].0 == metadata,
        ensures
            r.wf(),
            r.raw().handle() == handle,
            r.spec_metadata() == metadata,
            r.raw().storage() == storage,
            r.bytes() == storage.live()[handle].1,
    {
        Box { raw: RawBox::from_raw_parts(handle, metadata, storage) }
    }
}

} // verus!
