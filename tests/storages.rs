use std::cell::Cell;
use std::mem::size_of;

use storage_api::{
    grow_by_copy, is_zst, move_into, layout_fits_in, shrink_by_copy, AllocError, AllocStorage, Box,
    BorrowedStorage, DynStorage, Heap, InlineStorage, Layout, NullAlloc, OneUseArenaStorage,
    RawBox, RawVec, RefStorage, RefStorageHandle, SmallStorage, Storage,
};

fn layout(size: usize, align: usize) -> Layout {
    Layout::from_size_align(size, align).unwrap()
}

#[test]
fn sizes() {
    // The allocator side of a hybrid storage over a zero-sized allocator
    // takes no room: a hybrid box is exactly as large as an inline one.
    assert_eq!(
        size_of::<RawBox<SmallStorage<usize, NullAlloc>>>(),
        size_of::<RawBox<InlineStorage<usize>>>()
    );
    assert_eq!(
        size_of::<SmallStorage<usize, NullAlloc>>(),
        size_of::<InlineStorage<usize>>()
    );
}

#[test]
fn does_not_alloc() {
    let storage = SmallStorage::<usize, NullAlloc>::new(NullAlloc);
    let mut boxed = RawBox::new(Layout::new::<usize>(), storage).unwrap_or_else(|_| panic!());
    boxed.as_mut().copy_from_slice(&0usize.to_ne_bytes());
    assert_eq!(boxed.as_ref(), &0usize.to_ne_bytes()[..]);
}

#[test]
fn heap_allocated() {
    let text = b"Hello, world!";
    let storage = AllocStorage::new(Heap::new());
    let boxed = Box::new_in(text, layout(text.len(), 1), storage).unwrap_or_else(|_| panic!());
    let erased = Box::boxed(boxed);
    assert_eq!(erased.get(), &text[..]);
}

#[test]
fn inline_allocated() {
    let number = 42u16.to_ne_bytes();
    let boxed = Box::new_in(&number, Layout::new::<u16>(), InlineStorage::<usize>::new())
        .unwrap_or_else(|_| panic!());
    let erased = Box::inline(boxed);
    assert_eq!(erased.get(), &number[..]);
    assert_eq!(u16::from_ne_bytes([erased.get()[0], erased.get()[1]]), 42);
}

#[test]
fn stolen_allocation() {
    let mut place = b"Hello, world!".to_vec();
    {
        let erased = Box::take(&mut place, layout(13, 1));
        assert_eq!(erased.get(), &b"Hello, world!"[..]);
    }
    // Nothing was freed: the bytes are still in their place.
    assert_eq!(place, b"Hello, world!".to_vec());
}

struct CountDrops<'a> {
    drops: &'a Cell<u32>,
}

impl Drop for CountDrops<'_> {
    fn drop(&mut self) {
        self.drops.set(self.drops.get() + 1);
    }
}

#[test]
fn move_ref() {
    let drops = Cell::new(0);
    let mut value = CountDrops { drops: &drops };
    {
        let storage = RefStorage::new(&mut value);
        assert_eq!(size_of::<RefStorage<'_, CountDrops<'_>>>(), size_of::<&mut CountDrops<'_>>());
        assert_eq!(storage.get().drops.get(), 0);
    }
    assert_eq!(drops.get(), 0);
    drop(value);
    assert_eq!(drops.get(), 1);
}

#[test]
fn inline_eight_byte_buffer() {
    let mut storage = InlineStorage::<u64>::new();
    assert!(storage.fits(layout(4, 4)));
    assert_eq!(storage.allocate(layout(4, 4)), Ok(()));
    let mut other = InlineStorage::<u64>::new();
    assert_eq!(other.allocate(layout(16, 8)), Err(AllocError));
    assert!(!other.fits(layout(16, 8)));
}

#[test]
fn inline_region_lies_in_buffer() {
    let mut storage = InlineStorage::<u64>::new();
    let l = layout(3, 2);
    storage.allocate(l).unwrap();
    assert_eq!(storage.resolve((), l).len(), 3);
    assert_eq!(storage.resolve_mut((), l).len(), 3);
    // A wider layout resolves to the same bytes, extended.
    storage.resolve_mut((), l).copy_from_slice(&[7, 8, 9]);
    storage.grow((), l, layout(8, 8)).unwrap();
    assert_eq!(&storage.resolve((), layout(8, 8))[..3], &[7, 8, 9]);
}

#[test]
fn hybrid_null_alloc_fails_large() {
    let mut storage = SmallStorage::<usize, NullAlloc>::new(NullAlloc);
    assert_eq!(storage.allocate(layout(64, 8)), Err(AllocError));
    // A small payload still fits inline without the allocator.
    assert_eq!(storage.allocate(layout(8, 8)), Ok(()));
}

#[test]
fn hybrid_large_goes_to_heap() {
    let mut storage = SmallStorage::<usize, Heap>::new(Heap::new());
    let l = layout(32, 8);
    assert_eq!(storage.allocate(l), Ok(()));
    let data: Vec<u8> = (0..32).collect();
    storage.resolve_mut((), l).copy_from_slice(&data);
    assert_eq!(storage.resolve((), l), &data[..]);
    storage.deallocate((), l);
}

#[test]
fn round_trip_every_backend() {
    let bytes = [1u8, 2, 3, 4];
    let l = layout(4, 1);

    let mut inline = InlineStorage::<u64>::new();
    inline.allocate(l).unwrap();
    inline.resolve_mut((), l).copy_from_slice(&bytes);
    assert_eq!(inline.resolve((), l), &bytes);

    let mut heap = AllocStorage::new(Heap::new());
    let h = heap.allocate(l).unwrap();
    let h2 = heap.allocate(l).unwrap();
    assert_ne!(h, h2);
    heap.resolve_mut(h, l).copy_from_slice(&bytes);
    heap.resolve_mut(h2, l).copy_from_slice(&[9, 9, 9, 9]);
    assert_eq!(heap.resolve(h, l), &bytes);
    assert_eq!(heap.resolve(h2, l), &[9, 9, 9, 9]);

    let mut place = vec![0u8; 8];
    let mut borrowed = BorrowedStorage::<u64>::new(&mut place);
    borrowed.allocate(l).unwrap();
    borrowed.resolve_mut((), l).copy_from_slice(&bytes);
    assert_eq!(borrowed.resolve((), l), &bytes);
    drop(borrowed);
    assert_eq!(&place[..4], &bytes);

    let mut target = vec![0u8; 4];
    let mut by_ref = RefStorage::new(&mut target);
    let rl = by_ref.layout();
    by_ref.resolve_mut(RefStorageHandle::new(), rl).copy_from_slice(&bytes);
    assert_eq!(by_ref.resolve(RefStorageHandle::new(), rl), &bytes);
    assert_eq!(by_ref.allocate(l), Err(AllocError));

    let mut arena = OneUseArenaStorage::<u32, 2>::new();
    let a = arena.allocate(Layout::new::<u32>()).unwrap();
    arena.resolve_mut(a, Layout::new::<u32>()).copy_from_slice(&bytes);
    assert_eq!(arena.resolve(a, Layout::new::<u32>()), &bytes);

    let mut place = vec![0u8; 4];
    let mut erased = Box::take(&mut place, l);
    erased.get_mut().copy_from_slice(&[5, 6, 7, 8]);
    assert_eq!(erased.get(), &[5, 6, 7, 8]);
}

#[test]
fn hybrid_promotion_keeps_bytes() {
    let mut storage = SmallStorage::<usize, Heap>::new(Heap::new());
    let small = layout(4, 4);
    storage.allocate(small).unwrap();
    storage.resolve_mut((), small).copy_from_slice(&[1, 2, 3, 4]);
    let big = layout(40, 8);
    assert_eq!(storage.grow((), small, big), Ok(()));
    assert_eq!(storage.resolve((), big).len(), 40);
    assert_eq!(&storage.resolve((), big)[..4], &[1, 2, 3, 4]);
    storage.resolve_mut((), big)[39] = 77;
    let bigger = layout(100, 8);
    assert_eq!(storage.grow((), big, bigger), Ok(()));
    assert_eq!(&storage.resolve((), bigger)[..4], &[1, 2, 3, 4]);
    assert_eq!(storage.resolve((), bigger)[39], 77);
    // Shrinking back into the buffer brings the first bytes home.
    let tiny = layout(2, 2);
    assert_eq!(storage.shrink((), bigger, tiny), Ok(()));
    assert_eq!(storage.resolve((), tiny), &[1, 2]);
}

#[test]
fn hybrid_promotion_failure_keeps_region() {
    let mut storage = SmallStorage::<usize, NullAlloc>::new(NullAlloc);
    let small = layout(4, 4);
    storage.allocate(small).unwrap();
    storage.resolve_mut((), small).copy_from_slice(&[1, 2, 3, 4]);
    assert_eq!(storage.grow((), small, layout(40, 8)), Err(AllocError));
    assert_eq!(storage.resolve((), small), &[1, 2, 3, 4]);
}

#[test]
fn erased_small_value_stays_in_word() {
    let storage = AllocStorage::new(Heap::new());
    let boxed = Box::new_in(&[3, 1, 4], layout(3, 1), storage).unwrap_or_else(|_| panic!());
    let erased = Box::boxed(boxed);
    assert_eq!(erased.get(), &[3, 1, 4]);
    assert!(DynStorage::is_inline(layout(3, 1)));
    assert!(!DynStorage::is_inline(layout(13, 1)));
}

#[test]
fn erased_storage_never_allocates() {
    let mut place = vec![1u8; 32];
    let erased = Box::take(&mut place, layout(32, 1));
    let (handle, meta, mut storage) = Box::into_raw_parts(erased);
    assert_eq!(meta, layout(32, 1));
    assert_eq!(storage.allocate(layout(1, 1)), Err(AllocError));
    assert_eq!(storage.grow(handle, meta, layout(64, 1)), Err(AllocError));
    assert_eq!(storage.shrink(handle, meta, layout(1, 1)), Err(AllocError));
    assert_eq!(storage.resolve(handle, meta), &[1u8; 32][..]);
}

#[test]
fn layouts() {
    assert_eq!(Layout::from_size_align(8, 3), None);
    assert_eq!(Layout::from_size_align(8, 0), None);
    assert_eq!(Layout::from_size_align(usize::MAX, 1), None);
    assert_eq!(Layout::from_size_align(isize::MAX as usize, 1).map(|l| l.size()), Some(isize::MAX as usize));
    assert_eq!(Layout::from_size_align(isize::MAX as usize, 2), None);
    let l = Layout::from_size_align(12, 4).unwrap();
    assert_eq!((l.size(), l.align()), (12, 4));
    assert!(layout_fits_in(layout(4, 4), layout(8, 8)));
    assert!(!layout_fits_in(layout(4, 16), layout(8, 8)));
    assert!(!layout_fits_in(layout(9, 1), layout(8, 8)));
    assert!(is_zst::<()>());
    assert!(!is_zst::<u8>());
}

#[test]
fn arena_hands_out_each_room_once() {
    let mut arena = OneUseArenaStorage::<u64, 2>::new();
    let l = Layout::new::<u64>();
    let a = arena.allocate(l).unwrap();
    let b = arena.allocate(l).unwrap();
    assert!(a < b);
    arena.deallocate(a, l);
    assert_eq!(arena.allocate(l), Err(AllocError));
    let mut wide = OneUseArenaStorage::<u8, 4>::new();
    assert_eq!(wide.allocate(layout(2, 1)), Err(AllocError));
}

#[test]
fn raw_vec_grows_and_shrinks() {
    let mut v = RawVec::<u32, _>::new(AllocStorage::new(Heap::new())).unwrap_or_else(|_| panic!());
    assert_eq!(v.len(), 0);
    assert_eq!(v.grow_to(3), Ok(()));
    assert_eq!(v.len(), 3);
    assert_eq!(v.as_ref().len(), 12);
    v.as_mut()[..4].copy_from_slice(&[1, 2, 3, 4]);
    assert_eq!(v.grow_to(2), Ok(()));
    assert_eq!(v.len(), 3);
    assert_eq!(v.shrink_to(1), Ok(()));
    assert_eq!(v.len(), 1);
    assert_eq!(v.as_ref(), &[1, 2, 3, 4]);
    assert_eq!(v.grow_to(usize::MAX), Err(AllocError));
    assert_eq!(v.len(), 1);
}

#[test]
fn raw_vec_in_inline_storage() {
    let mut v = RawVec::<u16, _>::new(InlineStorage::<u64>::new()).unwrap_or_else(|_| panic!());
    assert_eq!(v.grow_to(4), Ok(()));
    assert_eq!(v.grow_to(5), Err(AllocError));
    assert_eq!(v.len(), 4);
}

#[test]
fn copy_fallback_moves_regions() {
    let mut heap = AllocStorage::new(Heap::new());
    let l = layout(4, 1);
    let h = heap.allocate(l).unwrap();
    heap.resolve_mut(h, l).copy_from_slice(&[4, 3, 2, 1]);
    let bigger = layout(10, 2);
    let g = grow_by_copy(&mut heap, h, l, bigger).unwrap();
    assert_ne!(g, h);
    assert_eq!(&heap.resolve(g, bigger)[..4], &[4, 3, 2, 1]);
    let smaller = layout(2, 1);
    let s = shrink_by_copy(&mut heap, g, bigger, smaller).unwrap();
    assert_eq!(heap.resolve(s, smaller), &[4, 3]);
}

#[test]
fn null_alloc_storage_fails() {
    let mut storage = AllocStorage::new(NullAlloc);
    assert_eq!(storage.allocate(layout(1, 1)), Err(AllocError));
    assert!(RawVec::<u8, _>::new(AllocStorage::new(NullAlloc)).is_err());
}

#[test]
fn raw_box_parts_and_free() {
    let storage = AllocStorage::new(Heap::new());
    let mut boxed = RawBox::new(layout(6, 2), storage).unwrap_or_else(|_| panic!());
    assert_eq!(boxed.metadata(), layout(6, 2));
    boxed.as_mut().copy_from_slice(b"abcdef");
    let (handle, meta, storage) = boxed.into_raw_parts();
    let boxed = RawBox::from_raw_parts(handle, meta, storage);
    assert_eq!(boxed.as_ref(), b"abcdef");
    let mut storage = boxed.free();
    let again = storage.allocate(layout(6, 2)).unwrap();
    assert_ne!(again, handle);
}

#[test]
fn raw_box_refused_gives_storage_back() {
    let storage = InlineStorage::<u32>::new();
    let back = RawBox::new(layout(8, 8), storage);
    assert!(back.is_err());
    let mut storage = back.err().unwrap();
    assert_eq!(storage.allocate(layout(4, 4)), Ok(()));
}

#[test]
fn move_into_copies_then_releases() {
    let mut heap = AllocStorage::new(Heap::new());
    let from = heap.allocate(layout(4, 1)).unwrap();
    let to = heap.allocate(layout(6, 1)).unwrap();
    heap.resolve_mut(from, layout(4, 1)).copy_from_slice(&[1, 2, 3, 4]);
    heap.resolve_mut(to, layout(6, 1)).copy_from_slice(&[0, 0, 0, 0, 8, 9]);
    move_into(&mut heap, from, to, layout(4, 1), layout(6, 1), 3);
    assert_eq!(heap.resolve(to, layout(6, 1)), &[1, 2, 3, 0, 8, 9]);
}
