use zerocopy::known_layout::{KnownLayout, PointerMetadata};
use zerocopy::layout::{CastType, DstLayout, MetadataCastError, SizeInfo, TrailingSliceLayout};

fn sized(size: usize, align: usize) -> DstLayout {
    DstLayout { align, size_info: SizeInfo::Sized { size } }
}

fn slice_dst(offset: usize, elem_size: usize, align: usize) -> DstLayout {
    DstLayout { align, size_info: SizeInfo::SliceDst(TrailingSliceLayout { offset, elem_size }) }
}

#[test]
fn extend_u16_then_u8_pads_to_four() {
    let base = DstLayout::new_zst(None);
    assert_eq!(base, sized(0, 1));
    let l = base.extend(sized(2, 2), None);
    assert_eq!(l, sized(2, 2));
    let l = l.extend(sized(1, 1), None);
    assert_eq!(l, sized(3, 2));
    assert_eq!(l.pad_to_align(), sized(4, 2));
}

#[test]
fn extend_with_real_types() {
    let l = DstLayout::new_zst(None)
        .extend(DstLayout::for_type::<u16>(), None)
        .extend(DstLayout::for_type::<u8>(), None)
        .pad_to_align();
    assert_eq!(l, sized(4, 2));
}

#[test]
fn extend_with_packed_cap() {
    // A u32 field after a u8 in a packed(1) aggregate lands at offset 1.
    let l = sized(1, 1).extend(sized(4, 4), Some(1));
    assert_eq!(l, sized(5, 1));
    // packed(2) caps alignment 4 at 2.
    let l = sized(1, 1).extend(sized(4, 4), Some(2));
    assert_eq!(l, sized(6, 2));
}

#[test]
fn extend_zero_sized_with_zero_sized() {
    let l = sized(0, 1).extend(sized(0, 8), None);
    assert_eq!(l, sized(0, 8));
}

#[test]
fn extend_with_trailing_slice() {
    let l = sized(3, 1).extend(slice_dst(0, 2, 2), None);
    assert_eq!(l, slice_dst(4, 2, 2));
    // Padding of a slice-tailed layout is left to the cast.
    assert_eq!(l.pad_to_align(), l);
}

#[test]
fn repr_align_is_a_floor() {
    let l = DstLayout::new_zst(Some(8)).extend(sized(2, 2), None).pad_to_align();
    assert_eq!(l, sized(8, 8));
}

#[test]
fn for_slice_layout() {
    assert_eq!(DstLayout::for_slice::<u8>(), slice_dst(0, 1, 1));
    assert_eq!(<[u8] as KnownLayout>::layout(), slice_dst(0, 1, 1));
    assert_eq!(<[u16] as KnownLayout>::layout(), DstLayout::for_slice::<u16>());
    assert_eq!(DstLayout::for_slice::<u16>().size_info, slice_dst(0, 2, 1).size_info);
}

#[test]
fn known_layouts_of_scalars_and_arrays() {
    assert_eq!(<u8 as KnownLayout>::layout(), sized(1, 1));
    assert_eq!(<bool as KnownLayout>::layout(), sized(1, 1));
    assert_eq!(<u16 as KnownLayout>::layout(), DstLayout::for_type::<u16>());
    assert_eq!(<u64 as KnownLayout>::layout().size_info, SizeInfo::Sized { size: 8 });
    assert_eq!(<[u8; 5] as KnownLayout>::layout(), sized(5, 1));
    assert_eq!(<[[u8; 2]; 4] as KnownLayout>::layout(), sized(8, 1));
}

#[test]
fn size_for_metadata_of_unit_and_count() {
    assert_eq!(().size_for_metadata(sized(12, 4)), Some(12));
    let l = slice_dst(2, 1, 2);
    assert_eq!(8usize.size_for_metadata(l), Some(10));
    assert_eq!(9usize.size_for_metadata(l), Some(12));
    assert_eq!(0usize.size_for_metadata(l), Some(2));
    // Overflow is reported, not wrapped.
    assert_eq!(usize::MAX.size_for_metadata(slice_dst(2, 2, 2)), None);
    assert_eq!((usize::MAX - 1).size_for_metadata(slice_dst(1, 1, 2)), None);
    assert_eq!(usize::from_elem_count(7), 7);
}

#[test]
fn dst_cast_with_explicit_count() {
    let l = slice_dst(2, 1, 2);
    assert_eq!(l.validate_cast_and_convert_metadata(0, 10, CastType::Exact, Some(8)), Ok((8, 10)));
    assert_eq!(
        l.validate_cast_and_convert_metadata(0, 10, CastType::Prefix, Some(9)),
        Err(MetadataCastError::Size)
    );
    assert_eq!(
        l.validate_cast_and_convert_metadata(0, 10, CastType::Exact, Some(9)),
        Err(MetadataCastError::Size)
    );
}

#[test]
fn dst_cast_infers_greatest_count() {
    let l = slice_dst(2, 1, 2);
    assert_eq!(l.validate_cast_and_convert_metadata(0, 11, CastType::Prefix, None), Ok((8, 10)));
    assert_eq!(l.validate_cast_and_convert_metadata(1, 11, CastType::Suffix, None), Ok((8, 1)));
    assert_eq!(
        l.validate_cast_and_convert_metadata(0, 11, CastType::Suffix, None),
        Err(MetadataCastError::Alignment)
    );
    assert_eq!(
        l.validate_cast_and_convert_metadata(0, 11, CastType::Exact, None),
        Err(MetadataCastError::Size)
    );
    assert_eq!(
        l.validate_cast_and_convert_metadata(0, 1, CastType::Prefix, None),
        Err(MetadataCastError::Size)
    );
    let l3 = slice_dst(0, 3, 1);
    assert_eq!(l3.validate_cast_and_convert_metadata(5, 7, CastType::Prefix, None), Ok((2, 6)));
}

#[test]
fn misaligned_buffer_gives_alignment_error() {
    let l = sized(4, 4);
    assert_eq!(
        l.validate_cast_and_convert_metadata(2, 4, CastType::Exact, None),
        Err(MetadataCastError::Alignment)
    );
    assert_eq!(
        l.validate_cast_and_convert_metadata(1, 16, CastType::Prefix, None),
        Err(MetadataCastError::Alignment)
    );
    // A suffix cast is checked at the address of the suffix.
    assert_eq!(l.validate_cast_and_convert_metadata(1, 7, CastType::Suffix, None), Ok((0, 3)));
    assert_eq!(
        l.validate_cast_and_convert_metadata(0, 7, CastType::Suffix, None),
        Err(MetadataCastError::Alignment)
    );
}

#[test]
fn size_is_checked_before_alignment() {
    let l = sized(4, 4);
    assert_eq!(
        l.validate_cast_and_convert_metadata(1, 3, CastType::Exact, None),
        Err(MetadataCastError::Size)
    );
    assert_eq!(
        l.validate_cast_and_convert_metadata(1, 3, CastType::Prefix, None),
        Err(MetadataCastError::Size)
    );
    assert_eq!(
        l.validate_cast_and_convert_metadata(1, 5, CastType::Exact, None),
        Err(MetadataCastError::Size)
    );
}

#[test]
fn prefix_and_suffix_split_points() {
    let l = sized(4, 1);
    assert_eq!(l.validate_cast_and_convert_metadata(0, 8, CastType::Prefix, None), Ok((0, 4)));
    assert_eq!(l.validate_cast_and_convert_metadata(0, 8, CastType::Suffix, None), Ok((0, 4)));
    assert_eq!(l.validate_cast_and_convert_metadata(0, 10, CastType::Prefix, None), Ok((0, 4)));
    assert_eq!(l.validate_cast_and_convert_metadata(0, 10, CastType::Suffix, None), Ok((0, 6)));
    assert_eq!(l.validate_cast_and_convert_metadata(0, 4, CastType::Exact, None), Ok((0, 4)));
}

#[test]
fn size_for_elems_checked_values() {
    assert_eq!(slice_dst(3, 4, 4).size_for_elems_checked(2), Some(12));
    assert_eq!(slice_dst(3, 4, 4).size_for_elems_checked(0), Some(4));
    assert_eq!(sized(6, 2).size_for_elems_checked(100), Some(6));
    assert_eq!(slice_dst(0, 2, 1).size_for_elems_checked(usize::MAX), None);
}
