use crate::layout::{AllocError, Layout};
use crate::traits::Storage;
use core::marker::PhantomData;
use vstd::prelude::*;

verus! {

/// A region of a storage that holds a run of `len` elements of type `T`, and
/// can be given another length. It grows exactly as far as it is asked to.
pub struct RawVec<T, S: Storage> {
    handle: S::Handle,
    metadata: usize,
    storage: S,
    element: PhantomData<T>,
}

/// The layout of `len` elements of type `T`, if its size fits in a valid
/// layout.
pub open spec fn slice_layout<T>(len: nat) -> Option<Layout> {
    let size = len * vstd::layout::size_of::<T>();
    let align = vstd::layout::align_of::<T>() as usize;
    if size <= usize::MAX && vstd::layout::valid_layout(size as usize, align) {
        Some(Layout { size: size as usize, align })
    } else {
        None
    }
}

impl<T, S: Storage> RawVec<T, S> where S::Handle: Copy {
    pub closed spec fn wf(&self) -> bool {
        &&& self.storage.wf()
        &&& self.storage.live().contains_key(self.handle)
        &&& slice_layout::<T>(self.metadata as nat) == Some(self.storage.live()[self.handle].0)
    }

    /// The number of elements.
    pub closed spec fn spec_len(&self) -> usize {
        self.metadata
    }

    /// The bytes of the region.
    pub closed spec fn bytes(&self) -> Seq<u8> {
        self.storage.live()[self.handle].1
    }

    /// The storage the region lives in.
    pub closed spec fn storage(&self) -> S {
        self.storage
    }

    /// The region holds the bytes of exactly `len` elements.
    pub proof fn lemma_bytes_len(&self)
        requires
            self.wf(),
        ensures
            self.bytes().len() == self.spec_len() * vstd::layout::size_of::<T>(),
    {
        self.storage.lemma_regions_sized();
    }

    fn heap_layout(&self) -> (r: Layout)
        requires
            self.wf(),
        ensures
            r == self.storage().live()[self.handle].0,
    {
        Self::heap_layout_for(self.metadata).unwrap()
    }

    /// The layout of `len` elements.
    fn heap_layout_for(len: usize) -> (r: Option<Layout>)
        ensures
            r == slice_layout::<T>(len as nat),
    {
        let element = Layout::new::<T>();
        match len.checked_mul(element.size) {
            Some(size) => Layout::from_size_align(size, element.align),
            None => None,
        }
    }

    /// An empty run in `storage`, or the storage back, unchanged in what it
    /// holds, when it cannot make one.
    pub fn new(storage: S) -> (r: Result<Self, S>)
        requires
            storage.wf(),
        ensures
            r matches Ok(v) ==> v.wf() && v.spec_len() == 0,
            r matches Err(s) ==> s.wf() && s.live() == storage.live(),
    {
        let mut storage = storage;
        let element = Layout::new::<T>();
        assert(0 * vstd::layout::size_of::<T>() == 0);
        let layout = Self::heap_layout_for(0).unwrap();
        match storage.allocate(layout) {
            Ok(handle) => Ok(Self { handle, metadata: 0, storage, element: PhantomData }),
            Err(_) => Err(storage),
        }
    }

    /// The bytes of the region.
    pub fn as_ref(&self) -> (r: &[u8])
        requires
            self.wf(),
        ensures
            r@ == self.bytes(),
    {
        let layout = self.heap_layout();
        self.storage.resolve(self.handle, layout)
    }

    /// The bytes of the region, for reading and writing.
    pub fn as_mut(&mut self) -> (r: &mut [u8])
        requires
            old(self).wf(),
        ensures
            r@ == old(self).bytes(),
            final(r)@.len() == r@.len() ==> final(self).wf() && final(self).bytes() == final(r)@,
            final(r)@.len() == r@.len() ==> final(self).spec_len() == old(self).spec_len(),
    {
        let layout = self.heap_layout();
        self.storage.resolve_mut(self.handle, layout)
    }

    /// The number of elements.
    pub fn len(&self) -> (r: usize)
        ensures
            r == self.spec_len(),
    {
        self.metadata
    }

    /// Make room for `new_len` elements, keeping the bytes there are. A run
    /// that is already as long is left alone. On failure nothing changes.
    pub fn grow_to(&mut self, new_len: usize) -> (r: Result<(), AllocError>)
        requires
            old(self).wf(),
        ensures
            final(self).wf(),
            new_len <= old(self).spec_len() ==> r is Ok && final(self).spec_len() == old(self).spec_len()
                && final(self).bytes() == old(self).bytes() && final(self).storage() == old(self).storage(),
            new_len > old(self).spec_len() && r is Ok ==> final(self).spec_len() == new_len
                && final(self).bytes().subrange(0, old(self).bytes().len() as int) == old(self).bytes(),
            final(self).bytes().len() == final(self).spec_len() * vstd::layout::size_of::<T>(),
            slice_layout::<T>(new_len as nat) is None ==> (new_len > old(self).spec_len() ==> r is Err),
            r is Err ==> final(self).spec_len() == old(self).spec_len() && final(self).bytes() == old(self).bytes(),
    {
        proof {
            self.lemma_bytes_len();
        }
        if new_len <= self.metadata {
            return Ok(());
        }
        let old_layout = self.heap_layout();
        let new_layout = match Self::heap_layout_for(new_len) {
            Some(l) => l,
            None => {
                return Err(AllocError);
            },
        };
        proof {
            self.storage.lemma_regions_sized();
            assert(new_layout.size >= old_layout.size) by (nonlinear_arith)
                requires
                    new_layout.size == new_len * vstd::layout::size_of::<T>(),
                    old_layout.size == self.metadata * vstd::layout::size_of::<T>(),
                    new_len > self.metadata,
            ;
        }
        match self.storage.grow(self.handle, old_layout, new_layout) {
            Ok(handle) => {
                self.handle = handle;
                self.metadata = new_len;
                proof {
                    self.lemma_bytes_len();
                }
                assert(self.bytes().subrange(0, old(self).bytes().len() as int) =~= old(self).bytes());
                Ok(())
            },
            Err(e) => Err(e),
        }
    }

    /// Cut the run to `new_len` elements, keeping the bytes of those. A run
    /// that is already as short is left alone. On failure nothing changes.
    pub fn shrink_to(&mut self, new_len: usize) -> (r: Result<(), AllocError>)
        requires
            old(self).wf(),
        ensures
            final(self).wf(),
            new_len >= old(self).spec_len() ==> r is Ok && final(self).spec_len() == old(self).spec_len()
                && final(self).bytes() == old(self).bytes() && final(self).storage() == old(self).storage(),
            new_len < old(self).spec_len() && r is Ok ==> final(self).spec_len() == new_len
                && final(self).bytes() == old(self).bytes().subrange(0, new_len * vstd::layout::size_of::<T>()),
            r is Err ==> final(self).spec_len() == old(self).spec_len() && final(self).bytes() == old(self).bytes(),
    {
        if new_len >= self.metadata {
            return Ok(());
        }
        let old_layout = self.heap_layout();
        let new_layout = Self::heap_layout_for(new_len);
        proof {
            self.storage.lemma_regions_sized();
            let size = new_len * vstd::layout::size_of::<T>();
            assert(size <= self.metadata * vstd::layout::size_of::<T>()) by (nonlinear_arith)
                requires
                    size == new_len * vstd::layout::size_of::<T>(),
                    new_len < self.metadata,
            ;
            assert(isize::MAX as int % old_layout.align as int == isize::MAX as int % vstd::layout::align_of::<T>() as usize as int);
        }
        let new_layout = new_layout.unwrap();
        match self.storage.shrink(self.handle, old_layout, new_layout) {
            Ok(handle) => {
                self.handle = handle;
                self.metadata = new_len;
                proof {
                    self.storage.lemma_regions_sized();
                }
                Ok(())
            },
            Err(e) => Err(e),
        }
    }
}

} // verus!
