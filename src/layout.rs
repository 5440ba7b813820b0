use vstd::prelude::*;
use vstd::arithmetic::power2::is_pow2;
use vstd::layout::valid_layout;

verus! {

/// The only way a storage operation fails: there is not enough room, in an
/// inline buffer, an allocator or an arena.
#[derive(Debug, Clone, Copy, PartialEq, Eq, Structural)]
pub struct AllocError;

/// The size and alignment of a region of memory. Operations that take a
/// layout ask for a [valid](Layout::valid) one.
#[derive(Debug, Clone, Copy, PartialEq, Eq, Structural)]
pub struct Layout {
    pub size: usize,
    pub align: usize,
}

impl Layout {
    /// The alignment is a power of two, and the size rounded up to it does
    /// not exceed `isize::MAX`.
    pub open spec fn valid(self) -> bool {
        valid_layout(self.size, self.align)
    }

    /// A layout of the given size and alignment, if that pair is valid.
    pub fn from_size_align(size: usize, align: usize) -> (r: Option<Layout>)
        ensures
            r is Some <==> valid_layout(size, align),
            r matches Some(l) ==> l.size == size && l.align == align,
    {
        if !is_power_of_two(align) {
            return None;
        }
        proof {
            reveal(is_pow2);
        }
        let max: usize = isize::MAX as usize;
        let rem: usize = max % align;
        assert(rem <= max) by (nonlinear_arith)
            requires
                rem == max % align,
                align > 0,
        ;
        if size <= max - rem {
            Some(Layout { size, align })
        } else {
            None
        }
    }

    /// The layout of values of type `T`.
    pub fn new<T>() -> (r: Layout)
        ensures
            r.valid(),
            r.size as nat == vstd::layout::size_of::<T>(),
            r.align as nat == vstd::layout::align_of::<T>(),
    {
        vstd::layout::layout_for_type_is_valid::<T>();
        Layout { size: core::mem::size_of::<T>(), align: core::mem::align_of::<T>() }
    }

    /// The layout of `n` bytes at alignment one: the region of a byte slice
    /// of length `n`.
    pub fn bytes(n: usize) -> (r: Layout)
        requires
            n <= isize::MAX,
        ensures
            r.valid(),
            r.size == n,
            r.align == 1,
    {
        proof {
            reveal(is_pow2);
        }
        Layout { size: n, align: 1 }
    }

    pub fn size(&self) -> (r: usize)
        ensures
            r == self.size,
    {
        self.size
    }

    pub fn align(&self) -> (r: usize)
        ensures
            r == self.align,
    {
        self.align
    }
}

/// Whether `n` is a power of two, decided by halving.
fn is_power_of_two(n: usize) -> (r: bool)
    ensures
        r == is_pow2(n as int),
{
    let mut m: usize = n;
    while m > 1 && m % 2 == 0
        invariant
            is_pow2(n as int) == is_pow2(m as int),
        decreases m,
    {
        proof {
            reveal(is_pow2);
        }
        m = m / 2;
    }
    proof {
        reveal(is_pow2);
    }
    m == 1
}

/// A region of layout `inner` can be placed at the start of a region of
/// layout `outer`.
pub open spec fn fits_in(inner: Layout, outer: Layout) -> bool {
    inner.align <= outer.align && inner.size <= outer.size
}

/// Decides [`fits_in`].
pub fn layout_fits_in(inner: Layout, outer: Layout) -> (r: bool)
    ensures
        r == fits_in(inner, outer),
{
    inner.align() <= outer.align() && inner.size() <= outer.size()
}

/// Whether values of type `T` take no bytes.
pub fn is_zst<T: Copy>() -> (r: bool)
    ensures
        r == (vstd::layout::size_of::<T>() == 0),
{
    vstd::layout::layout_for_type_is_valid::<T>();
    core::mem::size_of::<T>() == 0
}

} // verus!
