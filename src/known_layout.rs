use crate::layout::{DstLayout, SizeInfo, TrailingSliceLayout};
use vstd::layout::{align_of, size_of};
use vstd::prelude::*;

verus! {

/// The extra information a reference to a type carries: nothing for a sized
/// type, an element count for a slice-tailed one.
pub trait PointerMetadata: Sized {
    /// The element count this metadata stands for, if it stands for one.
    spec fn spec_elems(&self) -> Option<usize>;

    /// The layouts this kind of metadata belongs to.
    spec fn suits(layout: DstLayout) -> bool;

    /// The metadata for `elems` trailing elements.
    fn from_elem_count(elems: usize) -> (r: Self)
        ensures
            r.spec_elems() matches Some(n) ==> n == elems,
    ;

    /// The size of a value with this metadata under `layout`, or `None`
    /// where it exceeds `usize`.
    fn size_for_metadata(&self, layout: DstLayout) -> (r: Option<usize>)
        requires
            layout.wf(),
            Self::suits(layout),
        ensures
            ({
                let size = layout.size_for_elems(
                    match self.spec_elems() {
                        Some(n) => n as int,
                        None => 0,
                    },
                );
                r == if size <= usize::MAX {
                    Some(size as usize)
                } else {
                    None::<usize>
                }
            }),
    ;
}

impl PointerMetadata for () {
    open spec fn spec_elems(&self) -> Option<usize> {
        None
    }

    open spec fn suits(layout: DstLayout) -> bool {
        layout.is_sized()
    }

    fn from_elem_count(_elems: usize) -> (r: ()) {
    }

    fn size_for_metadata(&self, layout: DstLayout) -> (r: Option<usize>) {
        match layout.size_info {
            SizeInfo::Sized { size } => Some(size),
            SizeInfo::SliceDst(_) => None,
        }
    }
}

impl PointerMetadata for usize {
    open spec fn spec_elems(&self) -> Option<usize> {
        Some(*self)
    }

    open spec fn suits(layout: DstLayout) -> bool {
        layout.is_slice_dst()
    }

    fn from_elem_count(elems: usize) -> (r: usize) {
        elems
    }

    fn size_for_metadata(&self, layout: DstLayout) -> (r: Option<usize>) {
        layout.size_for_elems_checked(*self)
    }
}

/// The layout of a sized type as the compiler lays it out.
pub open spec fn spec_layout_of<T>() -> DstLayout {
    DstLayout {
        align: align_of::<T>() as usize,
        size_info: SizeInfo::Sized { size: size_of::<T>() as usize },
    }
}

/// The layout of a slice of `T` as the compiler lays it out.
pub open spec fn spec_slice_layout_of<T>() -> DstLayout {
    DstLayout {
        align: align_of::<T>() as usize,
        size_info: SizeInfo::SliceDst(
            TrailingSliceLayout { offset: 0, elem_size: size_of::<T>() as usize },
        ),
    }
}

/// A type whose layout is known: its alignment, and its size or the layout
/// of its trailing slice.
pub trait KnownLayout {
    /// `()` for a sized type, `usize` (an element count) for a slice-tailed
    /// one.
    type PointerMetadata: PointerMetadata;

    spec fn spec_layout() -> DstLayout;

    fn layout() -> (r: DstLayout)
        ensures
            r == Self::spec_layout(),
            r.is_type_layout(),
            <Self::PointerMetadata as PointerMetadata>::suits(r),
    ;
}

/// The size of a value of a sized layout.
pub fn size_of_sized(layout: DstLayout) -> (r: usize)
    requires
        layout.is_sized(),
    ensures
        r == layout.size_for_elems(0),
{
    match layout.size_info {
        SizeInfo::Sized { size } => size,
        SizeInfo::SliceDst(t) => t.offset,
    }
}

/// The layout of a sized type as the compiler lays it out.
fn layout_of<T>() -> (r: DstLayout)
    ensures
        r == spec_layout_of::<T>(),
        r.is_type_layout(),
        <() as PointerMetadata>::suits(r),
{
    let r = DstLayout::for_type::<T>();
    assert(r.is_sized());
    r
}

/// The layout of a one-byte type: size and alignment 1.
pub open spec fn spec_byte_layout() -> DstLayout {
    DstLayout { align: 1, size_info: SizeInfo::Sized { size: 1 } }
}

fn byte_layout() -> (r: DstLayout)
    ensures
        r == spec_byte_layout(),
        r.is_type_layout(),
{
    proof {
        crate::layout::lemma_one_is_pow2();
    }
    DstLayout { align: 1, size_info: SizeInfo::Sized { size: 1 } }
}

impl KnownLayout for u8 {
    type PointerMetadata = ();

    open spec fn spec_layout() -> DstLayout {
        spec_byte_layout()
    }

    fn layout() -> (r: DstLayout) {
        byte_layout()
    }
}

impl KnownLayout for bool {
    type PointerMetadata = ();

    open spec fn spec_layout() -> DstLayout {
        spec_byte_layout()
    }

    fn layout() -> (r: DstLayout) {
        byte_layout()
    }
}

impl KnownLayout for u16 {
    type PointerMetadata = ();

    open spec fn spec_layout() -> DstLayout {
        spec_layout_of::<u16>()
    }

    fn layout() -> (r: DstLayout) {
        layout_of::<u16>()
    }
}

impl KnownLayout for u32 {
    type PointerMetadata = ();

    open spec fn spec_layout() -> DstLayout {
        spec_layout_of::<u32>()
    }

    fn layout() -> (r: DstLayout) {
        layout_of::<u32>()
    }
}

impl KnownLayout for u64 {
    type PointerMetadata = ();

    open spec fn spec_layout() -> DstLayout {
        spec_layout_of::<u64>()
    }

    fn layout() -> (r: DstLayout) {
        layout_of::<u64>()
    }
}

impl KnownLayout for usize {
    type PointerMetadata = ();

    open spec fn spec_layout() -> DstLayout {
        spec_layout_of::<usize>()
    }

    fn layout() -> (r: DstLayout) {
        layout_of::<usize>()
    }
}

impl KnownLayout for [u8] {
    type PointerMetadata = usize;

    open spec fn spec_layout() -> DstLayout {
        DstLayout {
            align: 1,
            size_info: SizeInfo::SliceDst(TrailingSliceLayout { offset: 0, elem_size: 1 }),
        }
    }

    fn layout() -> (r: DstLayout) {
        proof {
            crate::layout::lemma_one_is_pow2();
        }
        DstLayout {
            align: 1,
            size_info: SizeInfo::SliceDst(TrailingSliceLayout { offset: 0, elem_size: 1 }),
        }
    }
}

impl KnownLayout for () {
    type PointerMetadata = ();

    open spec fn spec_layout() -> DstLayout {
        DstLayout { align: 1, size_info: SizeInfo::Sized { size: 0 } }
    }

    fn layout() -> (r: DstLayout) {
        DstLayout::new_zst(None)
    }
}

impl<const N: usize> KnownLayout for [[u8; N]] {
    type PointerMetadata = usize;

    open spec fn spec_layout() -> DstLayout {
        DstLayout {
            align: 1,
            size_info: SizeInfo::SliceDst(TrailingSliceLayout { offset: 0, elem_size: N }),
        }
    }

    fn layout() -> (r: DstLayout) {
        proof {
            crate::layout::lemma_one_is_pow2();
        }
        DstLayout {
            align: 1,
            size_info: SizeInfo::SliceDst(TrailingSliceLayout { offset: 0, elem_size: N }),
        }
    }
}

impl KnownLayout for [u64] {
    type PointerMetadata = usize;

    open spec fn spec_layout() -> DstLayout {
        spec_slice_layout_of::<u64>()
    }

    fn layout() -> (r: DstLayout) {
        DstLayout::for_slice::<u64>()
    }
}

impl KnownLayout for [u16] {
    type PointerMetadata = usize;

    open spec fn spec_layout() -> DstLayout {
        spec_slice_layout_of::<u16>()
    }

    fn layout() -> (r: DstLayout) {
        DstLayout::for_slice::<u16>()
    }
}

} // verus!
