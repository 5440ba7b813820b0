use crate::bytes::{copy_prefix, to_vec};
use crate::heap::{AllocStorage, Allocator};
use crate::inline::{InlineStorage, lemma_sole_region, zeroed};
use crate::layout::{AllocError, Layout, fits_in, layout_fits_in};
use crate::raw_box::Box;
use crate::traits::{Regions, Storage};
use vstd::prelude::*;

verus! {

/// Where the value of a [`DynStorage`] lives when it does not fit in a word.
enum Place<'a> {
    /// Nowhere else: the value is in the word.
    Word,
    /// In a buffer taken over from a heap box.
    Owned(Vec<u8>),
    /// In a place borrowed from its owner, who gave up the value.
    Borrowed(&'a mut Vec<u8>),
}

/// A single storage that holds one value of any layout, however it was first
/// stored: a value that fits in a machine word is kept in the word itself;
/// any other is kept where it was placed.
///
/// Which of the two holds is decided by the value's layout alone. The storage
/// is made only from a box that already holds a value, and it never creates,
/// grows or shrinks a region.
pub struct DynStorage<'a> {
    word: Vec<u8>,
    place: Place<'a>,
    region: Ghost<Option<Layout>>,
}

/// The layout of a machine word.
pub open spec fn word_layout() -> Layout {
    Layout {
        size: vstd::layout::size_of::<usize>() as usize,
        align: vstd::layout::align_of::<usize>() as usize,
    }
}

/// A value of layout `l` is kept in the word.
pub open spec fn fits_word(l: Layout) -> bool {
    fits_in(l, word_layout())
}

impl<'a> DynStorage<'a> {
    spec fn outline_bytes(&self) -> Seq<u8> {
        match self.place {
            Place::Word => Seq::empty(),
            Place::Owned(v) => v@,
            Place::Borrowed(r) => r@,
        }
    }

    /// Decides [`fits_word`].
    pub fn is_inline(layout: Layout) -> (r: bool)
        ensures
            r == fits_word(layout),
    {
        layout_fits_in(layout, Layout::new::<usize>())
    }

    /// A storage holding `bytes`, a value of `layout`, in its word.
    fn in_word(bytes: &[u8], layout: Layout) -> (r: Self)
        requires
            layout.valid(),
            fits_word(layout),
            bytes@.len() == layout.size,
        ensures
            r.wf(),
            r.live() == map![() => (layout, bytes@)],
    {
        let word_layout = Layout::new::<usize>();
        let mut word = zeroed(word_layout.size);
        copy_prefix(word.as_mut_slice(), bytes, layout.size);
        let r = DynStorage { word, place: Place::Word, region: Ghost(Some(layout)) };
        assert(r.word@.subrange(0, layout.size as int) =~= bytes@);
        r
    }

    /// A storage holding a value of `layout` in `place`.
    fn in_place(place: Place<'a>, layout: Layout) -> (r: Self)
        requires
            layout.valid(),
            !fits_word(layout),
            !(place is Word),
            place is Owned ==> place->Owned_0@.len() == layout.size,
            place is Borrowed ==> place->Borrowed_0@.len() == layout.size,
        ensures
            r.wf(),
            r.live() == map![() => (layout, match place {
                Place::Owned(v) => v@,
                Place::Borrowed(b) => b@,
                Place::Word => Seq::empty(),
            })],
    {
        let word_layout = Layout::new::<usize>();
        DynStorage { word: zeroed(word_layout.size), place, region: Ghost(Some(layout)) }
    }
}

impl<'a> Storage for DynStorage<'a> {
    type Handle = ();

    closed spec fn wf(&self) -> bool {
        &&& word_layout().valid()
        &&& self.word@.len() == word_layout().size
        &&& self.region@ matches Some(l) ==> {
            &&& l.valid()
            &&& fits_word(l) || (!(self.place is Word) && self.outline_bytes().len() == l.size)
        }
    }

    closed spec fn live(&self) -> Regions<()> {
        match self.region@ {
            None => Map::empty(),
            Some(l) => if fits_word(l) {
                map![() => (l, self.word@.subrange(0, l.size as int))]
            } else {
                map![() => (l, self.outline_bytes())]
            },
        }
    }

    open spec fn multiple() -> bool {
        false
    }

    proof fn lemma_regions_sized(&self) {
    }

    /// The storage only holds what it was made with: this always fails.
    fn allocate(&mut self, layout: Layout) -> (r: Result<(), AllocError>)
        ensures
            r is Err,
    {
        Err(AllocError)
    }

    /// Gives nothing back: dropping the value, and freeing where it lived,
    /// belong to the box that holds the storage.
    fn deallocate(&mut self, handle: (), layout: Layout) {
        self.region = Ghost(None);
        assert(self.live() =~= old(self).live().remove(handle));
    }

    fn resolve(&self, handle: (), layout: Layout) -> (r: &[u8]) {
        if Self::is_inline(layout) {
            let (head, _) = self.word.as_slice().split_at(layout.size);
            head
        } else {
            match &self.place {
                Place::Owned(v) => v.as_slice(),
                Place::Borrowed(b) => b.as_slice(),
                Place::Word => {
                    proof {
                        assert(false);
                    }
                    &[]
                },
            }
        }
    }

    fn resolve_mut(&mut self, handle: (), layout: Layout) -> (r: &mut [u8]) {
        proof {
            lemma_sole_region(old(self).live());
        }
        if Self::is_inline(layout) {
            let whole = self.word.as_mut_slice();
            let (head, tail) = whole.split_at_mut(layout.size);
            assert(has_resolved(tail));
            assert(final(head)@.len() == head@.len() ==> (final(head)@ + tail@).subrange(
                0,
                layout.size as int,
            ) =~= final(head)@);
            head
        } else {
            match &mut self.place {
                Place::Owned(v) => v.as_mut_slice(),
                Place::Borrowed(b) => b.as_mut_slice(),
                Place::Word => {
                    proof {
                        assert(false);
                    }
                    &mut []
                },
            }
        }
    }

    /// The storage never moves its value: this always fails.
    fn grow(&mut self, handle: (), old_layout: Layout, new_layout: Layout) -> (r: Result<
        (),
        AllocError,
    >)
        ensures
            r is Err,
    {
        Err(AllocError)
    }

    /// The storage never moves its value: this always fails.
    fn shrink(&mut self, handle: (), old_layout: Layout, new_layout: Layout) -> (r: Result<
        (),
        AllocError,
    >)
        ensures
            r is Err,
    {
        Err(AllocError)
    }
}

impl<'a> Box<DynStorage<'a>> {
    /// Erase a box whose value is on the heap. A value that fits in a word is
    /// moved into the word; any other is moved to a buffer of its own. The
    /// block is given back to the allocator either way.
    pub fn boxed<A: Allocator>(boxed: Box<AllocStorage<A>>) -> (r: Self)
        requires
            boxed.wf(),
        ensures
            r.wf(),
            r.bytes() == boxed.bytes(),
            r.spec_metadata() == boxed.spec_metadata(),
    {
        proof {
            boxed.lemma_parts();
            boxed.raw().lemma_parts();
        }
        let (handle, layout, storage) = Box::into_raw_parts(boxed);
        proof {
            storage.lemma_regions_sized();
        }
        let bytes = to_vec(storage.resolve(handle, layout));
        let mut storage = storage;
        storage.deallocate(handle, layout);
        let erased = if DynStorage::is_inline(layout) {
            DynStorage::in_word(bytes.as_slice(), layout)
        } else {
            DynStorage::in_place(Place::Owned(bytes), layout)
        };
        Box::from_raw_parts((), layout, erased)
    }

    /// Erase a box whose value is in a word-sized inline buffer.
    pub fn inline(boxed: Box<InlineStorage<usize>>) -> (r: Self)
        requires
            boxed.wf(),
        ensures
            r.wf(),
            r.bytes() == boxed.bytes(),
            r.spec_metadata() == boxed.spec_metadata(),
    {
        proof {
            boxed.lemma_parts();
            boxed.raw().lemma_parts();
        }
        let (handle, layout, storage) = Box::into_raw_parts(boxed);
        proof {
            storage.lemma_regions_sized();
            storage.lemma_live_fits();
        }
        let erased = DynStorage::in_word(storage.resolve(handle, layout), layout);
        Box::from_raw_parts((), layout, erased)
    }

    /// Erase a value of `layout` by taking over its place, whose owner gives
    /// up the value. A value that fits in a word is moved into the word; any
    /// other stays where it is.
    pub fn take(taken: &'a mut Vec<u8>, layout: Layout) -> (r: Self)
        requires
            layout.valid(),
            old(taken)@.len() == layout.size,
        ensures
            r.wf(),
            r.bytes() == old(taken)@,
            r.spec_metadata() == layout,
    {
        let erased = if DynStorage::is_inline(layout) {
            DynStorage::in_word(taken.as_slice(), layout)
        } else {
            DynStorage::in_place(Place::Borrowed(taken), layout)
        };
        Box::from_raw_parts((), layout, erased)
    }
}

} // verus!
