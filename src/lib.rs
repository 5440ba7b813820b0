//! Storages: a uniform contract for where the bytes of an object live.
//!
//! A storage hands out opaque handles to regions of bytes and is the only
//! authority that turns a handle back into memory. Each storage is modelled by
//! the map of its live handles to the layout each was created at and the bytes
//! it holds ([`Storage::live`]); every operation states how it changes that map.
//!
//! - [`Storage`]: the contract, refined by [`MultipleStorage`] and [`PinningStorage`]
//! - [`InlineStorage`]: one region inside the storage's own buffer
//! - [`AllocStorage`]: regions obtained from an [`Allocator`]
//! - [`SmallStorage`]: inline when the region fits, from an allocator otherwise
//! - [`BorrowedStorage`]: one region inside a buffer borrowed from elsewhere
//! - [`RefStorage`]: the one region a borrowed value already is
//! - [`DynStorage`]: one value of any layout in a word or in the place it was put
//! - [`OneUseArenaStorage`]: a fixed number of regions, each handed out once
//!
//! [`RawBox`], [`Box`] and [`RawVec`] bundle a storage with a handle.
pub mod arena;
pub mod borrowed;
pub mod bytes;
pub mod dynamic;
pub mod heap;
pub mod inline;
pub mod layout;
pub mod raw_box;
pub mod raw_vec;
pub mod referenced;
pub mod small;
pub mod traits;

pub use arena::{OneUseArenaStorage, OneUseArenaStorageHandle};
pub use borrowed::BorrowedStorage;
pub use dynamic::DynStorage;
pub use heap::{AllocHandle, AllocStorage, Allocator, Heap, NullAlloc};
pub use inline::InlineStorage;
pub use layout::{AllocError, Layout, is_zst, layout_fits_in};
pub use raw_box::{Box, RawBox};
pub use raw_vec::RawVec;
pub use referenced::{RefStorage, RefStorageHandle};
pub use small::SmallStorage;
pub use traits::{
    MultipleStorage, PinningStorage, SharedMutabilityStorage, Storage, grow_by_copy, move_into,
    shrink_by_copy,
};
