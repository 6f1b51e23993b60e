use vstd::arithmetic::power2::is_pow2;
use vstd::layout::{align_of, layout_for_type_is_valid, size_of};
use vstd::prelude::*;

verus! {

/// Bytes of padding that bring `len` up to the next multiple of `align`.
pub open spec fn padding_needed_for(len: int, align: int) -> int {
    (align - len % align) % align
}

/// The smallest multiple of `align` that is at least `len`.
pub open spec fn round_up(len: int, align: int) -> int {
    len + padding_needed_for(len, align)
}

/// The greatest multiple of `align` that is at most `len`.
pub open spec fn round_down(len: int, align: int) -> int {
    len - len % align
}

/// The layout of the trailing slice of a slice-tailed type.
#[derive(Clone, Copy, Debug, PartialEq, Eq, Structural)]
pub struct TrailingSliceLayout {
    /// Byte offset at which the trailing slice begins.
    pub offset: usize,
    /// Size of one element of the trailing slice.
    pub elem_size: usize,
}

/// Size information of a layout.
#[derive(Clone, Copy, Debug, PartialEq, Eq, Structural)]
pub enum SizeInfo {
    /// A type of fixed size.
    Sized { size: usize },
    /// A type that ends in a slice of identical elements.
    SliceDst(TrailingSliceLayout),
}

/// The alignment and size information of a type.
#[derive(Clone, Copy, Debug, PartialEq, Eq, Structural)]
pub struct DstLayout {
    pub align: usize,
    pub size_info: SizeInfo,
}

impl DstLayout {
    /// The alignment is a power of two.
    pub open spec fn wf(self) -> bool {
        is_pow2(self.align as int)
    }

    /// A layout that a type can have: well formed, and a fixed size is a
    /// multiple of the alignment.
    pub open spec fn is_type_layout(self) -> bool {
        &&& self.wf()
        &&& match self.size_info {
            SizeInfo::Sized { size } => size % self.align == 0,
            SizeInfo::SliceDst(_) => true,
        }
    }

    pub open spec fn is_sized(self) -> bool {
        self.size_info is Sized
    }

    pub open spec fn is_slice_dst(self) -> bool {
        self.size_info is SliceDst
    }

    /// A slice-tailed layout's elements are not zero-sized.
    pub open spec fn has_nonzero_elems(self) -> bool {
        match self.size_info {
            SizeInfo::Sized { .. } => true,
            SizeInfo::SliceDst(t) => t.elem_size > 0,
        }
    }

    /// `len` is the size of some value of this layout.
    pub open spec fn valid_len(self, len: int) -> bool {
        exists|elems: int| elems >= 0 && #[trigger] self.size_for_elems(elems) == len
    }

    /// The size of a value with `elems` trailing elements; a fixed size
    /// ignores `elems`.
    pub open spec fn size_for_elems(self, elems: int) -> int {
        match self.size_info {
            SizeInfo::Sized { size } => size as int,
            SizeInfo::SliceDst(t) => round_up(
                t.offset + t.elem_size * elems,
                self.align as int,
            ),
        }
    }

    /// The alignment under which a field is placed when field alignments are
    /// capped at `repr_packed`.
    pub open spec fn spec_field_align(field: DstLayout, repr_packed: Option<usize>) -> int {
        match repr_packed {
            Some(p) => if (p as int) < field.align as int { p as int } else { field.align as int },
            None => field.align as int,
        }
    }

    /// The byte offset at which `field` is placed after this (sized) layout.
    pub open spec fn spec_field_offset(self, field: DstLayout, repr_packed: Option<usize>) -> int {
        match self.size_info {
            SizeInfo::Sized { size } => round_up(
                size as int,
                Self::spec_field_align(field, repr_packed),
            ),
            SizeInfo::SliceDst(_) => 0,
        }
    }

    /// Appending `field` stays within `usize`.
    pub open spec fn extend_fits(self, field: DstLayout, repr_packed: Option<usize>) -> bool {
        let offset = self.spec_field_offset(field, repr_packed);
        match field.size_info {
            SizeInfo::Sized { size } => offset + size <= usize::MAX,
            SizeInfo::SliceDst(t) => offset + t.offset <= usize::MAX,
        }
    }

    /// The layout of an aggregate made of this layout followed by `field`.
    pub open spec fn spec_extend(self, field: DstLayout, repr_packed: Option<usize>) -> DstLayout {
        let field_align = Self::spec_field_align(field, repr_packed);
        let align = if field_align > self.align as int { field_align } else { self.align as int };
        let offset = self.spec_field_offset(field, repr_packed);
        DstLayout {
            align: align as usize,
            size_info: match field.size_info {
                SizeInfo::Sized { size } => SizeInfo::Sized { size: (offset + size) as usize },
                SizeInfo::SliceDst(t) => SizeInfo::SliceDst(
                    TrailingSliceLayout {
                        offset: (offset + t.offset) as usize,
                        elem_size: t.elem_size,
                    },
                ),
            },
        }
    }

    /// Rounding a fixed size up to the alignment stays within `usize`.
    pub open spec fn pad_fits(self) -> bool {
        match self.size_info {
            SizeInfo::Sized { size } => round_up(size as int, self.align as int) <= usize::MAX,
            SizeInfo::SliceDst(_) => true,
        }
    }

    /// This layout with a fixed size rounded up to the alignment.
    pub open spec fn spec_pad_to_align(self) -> DstLayout {
        match self.size_info {
            SizeInfo::Sized { size } => DstLayout {
                align: self.align,
                size_info: SizeInfo::Sized {
                    size: round_up(size as int, self.align as int) as usize,
                },
            },
            SizeInfo::SliceDst(_) => self,
        }
    }

    /// The layout of a zero-sized type, aligned to `repr_align` if given and
    /// to 1 otherwise.
    pub fn new_zst(repr_align: Option<usize>) -> (r: DstLayout)
        requires
            repr_align matches Some(a) ==> is_pow2(a as int),
        ensures
            r.align == (match repr_align {
                Some(a) => a,
                None => 1usize,
            }),
            r.size_info == (SizeInfo::Sized { size: 0 }),
            r.is_type_layout(),
    {
        let align: usize = match repr_align {
            Some(a) => a,
            None => 1,
        };
        proof {
            if repr_align is None {
                lemma_one_is_pow2();
            }
            lemma_pow2_positive(align as int);
            vstd::arithmetic::div_mod::lemma_small_mod(0, align as nat);
        }
        DstLayout { align, size_info: SizeInfo::Sized { size: 0 } }
    }

    /// The layout of the sized type `T`.
    pub fn for_type<T>() -> (r: DstLayout)
        ensures
            r.align as int == align_of::<T>(),
            r.size_info == (SizeInfo::Sized { size: size_of::<T>() as usize }),
            size_of::<T>() == size_of::<T>() as usize as int,
            r.is_type_layout(),
    {
        layout_for_type_is_valid::<T>();
        DstLayout {
            align: core::mem::align_of::<T>(),
            size_info: SizeInfo::Sized { size: core::mem::size_of::<T>() },
        }
    }

    /// The layout of a slice of `T`.
    pub fn for_slice<T>() -> (r: DstLayout)
        ensures
            r.align as int == align_of::<T>(),
            r.size_info == (SizeInfo::SliceDst(
                TrailingSliceLayout { offset: 0, elem_size: size_of::<T>() as usize },
            )),
            size_of::<T>() == size_of::<T>() as usize as int,
            r.is_type_layout(),
    {
        layout_for_type_is_valid::<T>();
        DstLayout {
            align: core::mem::align_of::<T>(),
            size_info: SizeInfo::SliceDst(
                TrailingSliceLayout { offset: 0, elem_size: core::mem::size_of::<T>() },
            ),
        }
    }

    /// The layout of an aggregate made of this layout followed by `field`,
    /// with field alignments capped at `repr_packed` if given. Only the last
    /// field of an aggregate may end in a slice, so `self` must be sized.
    pub fn extend(self, field: DstLayout, repr_packed: Option<usize>) -> (r: DstLayout)
        requires
            self.wf(),
            field.wf(),
            self.is_sized(),
            repr_packed matches Some(p) ==> is_pow2(p as int),
            self.extend_fits(field, repr_packed),
        ensures
            r == self.spec_extend(field, repr_packed),
            r.wf(),
    {
        let field_align: usize = match repr_packed {
            Some(p) => if p < field.align { p } else { field.align },
            None => field.align,
        };
        let align: usize = if field_align > self.align { field_align } else { self.align };
        let base_size: usize = match self.size_info {
            SizeInfo::Sized { size } => size,
            SizeInfo::SliceDst(_) => 0,
        };
        proof {
            lemma_pow2_positive(field_align as int);
        }
        let padding: usize = (field_align - base_size % field_align) % field_align;
        let offset: usize = base_size + padding;
        let size_info = match field.size_info {
            SizeInfo::Sized { size } => SizeInfo::Sized { size: offset + size },
            SizeInfo::SliceDst(t) => SizeInfo::SliceDst(
                TrailingSliceLayout { offset: offset + t.offset, elem_size: t.elem_size },
            ),
        };
        DstLayout { align, size_info }
    }

    /// This layout with a fixed size rounded up to its alignment; a
    /// slice-tailed layout is returned unchanged.
    pub fn pad_to_align(self) -> (r: DstLayout)
        requires
            self.wf(),
            self.pad_fits(),
        ensures
            r == self.spec_pad_to_align(),
            r.wf(),
            r.is_sized() ==> r.is_type_layout(),
    {
        match self.size_info {
            SizeInfo::Sized { size } => {
                proof {
                    lemma_pow2_positive(self.align as int);
                    lemma_round_up_multiple(size as int, self.align as int);
                }
                let padding: usize = (self.align - size % self.align) % self.align;
                DstLayout { align: self.align, size_info: SizeInfo::Sized { size: size + padding } }
            },
            SizeInfo::SliceDst(_) => self,
        }
    }
}

/// Which part of a buffer a cast takes.
#[derive(Clone, Copy, Debug, PartialEq, Eq, Structural)]
pub enum CastType {
    /// The whole buffer, which must have exactly the required size.
    Exact,
    /// The first bytes of the buffer.
    Prefix,
    /// The last bytes of the buffer.
    Suffix,
}

/// Why a buffer cannot be cast to a layout.
#[derive(Clone, Copy, Debug, PartialEq, Eq, Structural)]
pub enum MetadataCastError {
    /// The part of the buffer to be cast is not suitably aligned.
    Alignment,
    /// The buffer has the wrong size.
    Size,
}

impl DstLayout {
    /// The number of trailing elements a cast of a `len`-byte buffer uses:
    /// `meta` where given; otherwise none for a sized layout, and for a
    /// slice-tailed one as many as fit (`None` where not even zero fit).
    pub open spec fn spec_cast_elems(self, len: int, meta: Option<usize>) -> Option<int> {
        match meta {
            Some(n) => Some(n as int),
            None => match self.size_info {
                SizeInfo::Sized { .. } => Some(0),
                SizeInfo::SliceDst(t) => {
                    let avail = round_down(len, self.align as int);
                    if avail < t.offset {
                        None
                    } else {
                        Some((avail - t.offset) / (t.elem_size as int))
                    }
                },
            },
        }
    }

    /// The outcome of casting the `len` bytes at address `addr` to this
    /// layout: the number of trailing elements and the split point between
    /// the matched part and the rest, or why the cast fails. The size is
    /// checked before the alignment.
    pub open spec fn spec_cast(
        self,
        addr: int,
        len: int,
        cast_type: CastType,
        meta: Option<usize>,
    ) -> Result<(usize, usize), MetadataCastError> {
        if !self.size_fits(len, cast_type, meta) {
            Err(MetadataCastError::Size)
        } else if self.cast_start(addr, len, cast_type, meta) % (self.align as int) != 0 {
            Err(MetadataCastError::Alignment)
        } else {
            Ok(
                (
                    self.spec_cast_elems(len, meta).unwrap() as usize,
                    self.cast_split(len, cast_type, meta) as usize,
                ),
            )
        }
    }

    /// The size of the matched part of a cast of a `len`-byte buffer.
    pub open spec fn cast_size(self, len: int, meta: Option<usize>) -> int {
        self.size_for_elems(self.spec_cast_elems(len, meta).unwrap())
    }

    /// A `len`-byte buffer has room for the matched part: at least its size,
    /// and exactly its size for an exact cast.
    pub open spec fn size_fits(self, len: int, cast_type: CastType, meta: Option<usize>) -> bool {
        &&& self.spec_cast_elems(len, meta) is Some
        &&& self.cast_size(len, meta) <= len
        &&& (cast_type == CastType::Exact ==> self.cast_size(len, meta) == len)
    }

    /// Where a cast splits the buffer: the matched part is before the split
    /// point for an exact or prefix cast, after it for a suffix cast.
    pub open spec fn cast_split(self, len: int, cast_type: CastType, meta: Option<usize>) -> int {
        match cast_type {
            CastType::Exact => len,
            CastType::Prefix => self.cast_size(len, meta),
            CastType::Suffix => len - self.cast_size(len, meta),
        }
    }

    /// The address at which the matched part of a cast begins.
    pub open spec fn cast_start(
        self,
        addr: int,
        len: int,
        cast_type: CastType,
        meta: Option<usize>,
    ) -> int {
        match cast_type {
            CastType::Suffix => addr + self.cast_split(len, cast_type, meta),
            _ => addr,
        }
    }

    /// The size of a value with `elems` trailing elements, or `None` where
    /// it exceeds `usize`.
    pub fn size_for_elems_checked(&self, elems: usize) -> (r: Option<usize>)
        requires
            self.wf(),
        ensures
            r == (if self.size_for_elems(elems as int) <= usize::MAX {
                Some(self.size_for_elems(elems as int) as usize)
            } else {
                None::<usize>
            }),
    {
        match self.size_info {
            SizeInfo::Sized { size } => Some(size),
            SizeInfo::SliceDst(t) => {
                proof {
                    lemma_pow2_positive(self.align as int);
                    lemma_round_up_multiple(
                        t.offset + t.elem_size * elems,
                        self.align as int,
                    );
                }
                let slice_len = match t.elem_size.checked_mul(elems) {
                    Some(n) => n,
                    None => {
                        assert(t.elem_size * elems >= 0) by (nonlinear_arith);
                        return None;
                    },
                };
                let unpadded = match t.offset.checked_add(slice_len) {
                    Some(n) => n,
                    None => return None,
                };
                let padding: usize = (self.align - unpadded % self.align) % self.align;
                unpadded.checked_add(padding)
            },
        }
    }

    /// Decides whether the `bytes_len` bytes at address `addr` can be cast to
    /// this layout, taking the whole buffer, its prefix or its suffix as
    /// `cast_type` says, with `meta` trailing elements where given. Returns
    /// the number of trailing elements and the split point.
    pub fn validate_cast_and_convert_metadata(
        &self,
        addr: usize,
        bytes_len: usize,
        cast_type: CastType,
        meta: Option<usize>,
    ) -> (r: Result<(usize, usize), MetadataCastError>)
        requires
            self.wf(),
            addr + bytes_len <= usize::MAX,
            meta is None ==> self.has_nonzero_elems(),
        ensures
            r == self.spec_cast(addr as int, bytes_len as int, cast_type, meta),
    {
        proof {
            lemma_pow2_positive(self.align as int);
        }
        let align = self.align;
        let (elems, size): (usize, usize) = match meta {
            Some(n) => match self.size_for_elems_checked(n) {
                Some(size) => (n, size),
                None => return Err(MetadataCastError::Size),
            },
            None => match self.size_info {
                SizeInfo::Sized { size } => (0, size),
                SizeInfo::SliceDst(t) => {
                    proof {
                        vstd::arithmetic::div_mod::lemma_mod_decreases(
                            bytes_len as nat,
                            align as nat,
                        );
                    }
                    let avail: usize = bytes_len - bytes_len % align;
                    if avail < t.offset {
                        return Err(MetadataCastError::Size);
                    }
                    let elems: usize = (avail - t.offset) / t.elem_size;
                    proof {
                        lemma_fill_within(
                            avail as int,
                            t.offset as int,
                            t.elem_size as int,
                            align as int,
                            bytes_len as int,
                        );
                    }
                    let unpadded: usize = t.offset + t.elem_size * elems;
                    let padding: usize = (align - unpadded % align) % align;
                    (elems, unpadded + padding)
                },
            },
        };
        if size > bytes_len {
            return Err(MetadataCastError::Size);
        }
        let split: usize = match cast_type {
            CastType::Exact => {
                if size != bytes_len {
                    return Err(MetadataCastError::Size);
                }
                bytes_len
            },
            CastType::Prefix => size,
            CastType::Suffix => bytes_len - size,
        };
        let start: usize = match cast_type {
            CastType::Suffix => addr + split,
            _ => addr,
        };
        if start % align != 0 {
            return Err(MetadataCastError::Alignment);
        }
        Ok((elems, split))
    }
}

/// The elements that fit in the aligned part `avail` of a `len`-byte buffer,
/// padded to the alignment, still fit in it.
proof fn lemma_fill_within(avail: int, offset: int, elem_size: int, align: int, len: int)
    requires
        align > 0,
        elem_size > 0,
        0 <= offset <= avail <= len,
        avail == round_down(len, align),
    ensures
        ({
            let elems = (avail - offset) / elem_size;
            &&& 0 <= elems
            &&& offset + elem_size * elems <= avail
            &&& round_up(offset + elem_size * elems, align) <= avail
        }),
{
    let elems = (avail - offset) / elem_size;
    vstd::arithmetic::div_mod::lemma_fundamental_div_mod(avail - offset, elem_size);
    vstd::arithmetic::div_mod::lemma_div_pos_is_pos(avail - offset, elem_size);
    assert(elem_size * elems <= avail - offset) by {
        vstd::arithmetic::div_mod::lemma_mod_pos_bound(avail - offset, elem_size);
    }
    vstd::arithmetic::div_mod::lemma_fundamental_div_mod(len, align);
    vstd::arithmetic::div_mod::lemma_mod_multiples_basic(len / align, align);
    assert(avail == align * (len / align));
    lemma_round_up_within(offset + elem_size * elems, align, avail);
}

/// Rounding up to the alignment does not pass a multiple of it.
pub proof fn lemma_round_up_within(x: int, align: int, m: int)
    requires
        align > 0,
        0 <= x <= m,
        m % align == 0,
    ensures
        round_up(x, align) <= m,
{
    lemma_round_up_multiple(x, align);
    let r = round_up(x, align);
    if r > m {
        vstd::arithmetic::div_mod::lemma_fundamental_div_mod(r, align);
        vstd::arithmetic::div_mod::lemma_fundamental_div_mod(m, align);
        assert(r - m < align);
        assert(r == align * (r / align));
        assert(m == align * (m / align));
        assert(r / align > m / align) by (nonlinear_arith)
            requires
                r == align * (r / align),
                m == align * (m / align),
                r > m,
                align > 0,
        ;
        assert(r - m >= align) by (nonlinear_arith)
            requires
                r == align * (r / align),
                m == align * (m / align),
                r / align >= m / align + 1,
                align > 0,
        ;
    }
}

/// Appending a field places it at the first multiple of its (capped)
/// alignment at or after the end of the base, and the aggregate is aligned
/// at least as strictly as the base and the placed field; a slice-tailed
/// field makes the aggregate slice-tailed with the same element size.
pub proof fn lemma_extend_places_field(
    base: DstLayout,
    field: DstLayout,
    repr_packed: Option<usize>,
)
    requires
        base.wf(),
        field.wf(),
        base.is_sized(),
        repr_packed matches Some(p) ==> is_pow2(p as int),
    ensures
        ({
            let field_align = DstLayout::spec_field_align(field, repr_packed);
            let offset = base.spec_field_offset(field, repr_packed);
            let base_size = base.size_for_elems(0);
            let r = base.spec_extend(field, repr_packed);
            &&& offset % field_align == 0
            &&& base_size <= offset < base_size + field_align
            &&& r.align >= base.align && r.align >= field_align
            &&& (r.align == base.align || r.align == field_align)
            &&& r.is_sized() <==> field.is_sized()
            &&& field.size_info matches SizeInfo::SliceDst(t) ==> r.size_info matches SizeInfo::SliceDst(
                u,
            ) && u.elem_size == t.elem_size
        }),
{
    lemma_pow2_positive(field.align as int);
    if let Some(p) = repr_packed {
        lemma_pow2_positive(p as int);
    }
    let field_align = DstLayout::spec_field_align(field, repr_packed);
    lemma_round_up_multiple(base.size_for_elems(0), field_align);
}

/// Padding a sized layout rounds its size up to the first multiple of its
/// alignment and keeps the alignment; a slice-tailed layout is unchanged.
pub proof fn lemma_pad_to_align_rounds_up(layout: DstLayout)
    requires
        layout.wf(),
        layout.pad_fits(),
    ensures
        ({
            let r = layout.spec_pad_to_align();
            &&& r.align == layout.align
            &&& r.is_sized() <==> layout.is_sized()
            &&& layout.is_sized() ==> r.size_for_elems(0) % (layout.align as int) == 0
                && layout.size_for_elems(0) <= r.size_for_elems(0) < layout.size_for_elems(0)
                + layout.align
            &&& layout.is_slice_dst() ==> r == layout
        }),
{
    lemma_pow2_positive(layout.align as int);
    if layout.is_sized() {
        lemma_round_up_multiple(layout.size_for_elems(0), layout.align as int);
    }
}

/// A cast whose matched part would begin at an address that is not a
/// multiple of the alignment fails with an alignment error whenever the
/// buffer is large enough, and never succeeds. For an exact or prefix cast
/// that address is the buffer's own.
pub proof fn lemma_misaligned_cast_fails(
    layout: DstLayout,
    addr: int,
    len: int,
    cast_type: CastType,
    meta: Option<usize>,
)
    requires
        layout.wf(),
        layout.align > 1,
        layout.cast_start(addr, len, cast_type, meta) % (layout.align as int) != 0,
    ensures
        layout.spec_cast(addr, len, cast_type, meta) is Err,
        layout.size_fits(len, cast_type, meta) ==> layout.spec_cast(addr, len, cast_type, meta)
            == Err::<(usize, usize), _>(MetadataCastError::Alignment),
        cast_type != CastType::Suffix ==> layout.cast_start(addr, len, cast_type, meta) == addr,
{
}

/// A buffer without room for the matched part fails with a size error,
/// whatever its address.
pub proof fn lemma_size_checked_first(
    layout: DstLayout,
    addr: int,
    len: int,
    cast_type: CastType,
    meta: Option<usize>,
)
    requires
        !layout.size_fits(len, cast_type, meta),
    ensures
        layout.spec_cast(addr, len, cast_type, meta) == Err::<(usize, usize), _>(
            MetadataCastError::Size,
        ),
{
}

/// A prefix cast matches the first `S` bytes and leaves the rest, a suffix
/// cast leaves the first `len - S` bytes and matches the last `S`, where `S`
/// is the size of the matched part. When the buffer holds exactly two such
/// parts, the two casts match different, disjoint parts.
pub proof fn lemma_prefix_suffix_complement(
    layout: DstLayout,
    addr: int,
    len: int,
    meta: Option<usize>,
)
    requires
        layout.wf(),
        0 <= len <= usize::MAX,
        meta is None ==> layout.has_nonzero_elems(),
    ensures
        ({
            let size = layout.cast_size(len, meta);
            &&& layout.spec_cast(addr, len, CastType::Prefix, meta) matches Ok((_, split))
                ==> split == size
            &&& layout.spec_cast(addr, len, CastType::Suffix, meta) matches Ok((_, split))
                ==> split == len - size
            &&& layout.size_fits(len, CastType::Prefix, meta) <==> layout.size_fits(
                len,
                CastType::Suffix,
                meta,
            )
            &&& (len == 2 * size && size > 0) ==> size <= len - size && 0 != len - size
        }),
{
    lemma_pow2_positive(layout.align as int);
    if layout.spec_cast_elems(len, meta) is Some {
        let elems = layout.spec_cast_elems(len, meta).unwrap();
        if let SizeInfo::SliceDst(t) = layout.size_info {
            if meta is None {
                vstd::arithmetic::div_mod::lemma_mod_decreases(
                    len as nat,
                    layout.align as nat,
                );
                vstd::arithmetic::div_mod::lemma_div_pos_is_pos(
                    round_down(len, layout.align as int) - t.offset,
                    t.elem_size as int,
                );
            }
            assert(elems >= 0);
            assert(t.elem_size * elems >= 0) by (nonlinear_arith)
                requires
                    elems >= 0,
            ;
            lemma_round_up_multiple(t.offset + t.elem_size * elems, layout.align as int);
        }
    }
}

/// With no element count given, a slice-tailed cast takes as many elements
/// as fit in the buffer: that many fit and one more would not.
pub proof fn lemma_inferred_elems_are_greatest(layout: DstLayout, len: int)
    requires
        layout.wf(),
        layout.has_nonzero_elems(),
        layout.is_slice_dst(),
        len >= 0,
        layout.spec_cast_elems(len, None) is Some,
    ensures
        ({
            let elems = layout.spec_cast_elems(len, None).unwrap();
            &&& elems >= 0
            &&& layout.size_for_elems(elems) <= len
            &&& layout.size_for_elems(elems + 1) > len
        }),
{
    let t = layout.size_info->SliceDst_0;
    let align = layout.align as int;
    lemma_pow2_positive(align);
    let avail = round_down(len, align);
    let es = t.elem_size as int;
    let elems = (avail - t.offset) / es;
    vstd::arithmetic::div_mod::lemma_mod_decreases(len as nat, align as nat);
    lemma_fill_within(avail, t.offset as int, es, align, len);
    vstd::arithmetic::div_mod::lemma_fundamental_div_mod(avail - t.offset, es);
    vstd::arithmetic::div_mod::lemma_mod_pos_bound(avail - t.offset, es);
    assert(t.offset + es * (elems + 1) > avail) by (nonlinear_arith)
        requires
            avail - t.offset == es * elems + (avail - t.offset) % es,
            (avail - t.offset) % es < es,
    ;
    let next = t.offset + es * (elems + 1);
    lemma_round_up_multiple(next, align);
    if round_up(next, align) <= len {
        vstd::arithmetic::div_mod::lemma_fundamental_div_mod(len, align);
        vstd::arithmetic::div_mod::lemma_mod_pos_bound(len, align);
        vstd::arithmetic::div_mod::lemma_fundamental_div_mod(round_up(next, align), align);
        let q = round_up(next, align) / align;
        assert(round_up(next, align) == align * q);
        assert(avail == align * (len / align));
        assert(align * q > align * (len / align));
        assert(q > len / align) by (nonlinear_arith)
            requires
                align * q > align * (len / align),
                align > 0,
        ;
        assert(align * q >= align * (len / align) + align) by (nonlinear_arith)
            requires
                q >= len / align + 1,
                align > 0,
        ;
    }
}

/// The matched part of a successful cast has a size that values of the
/// layout have.
pub proof fn lemma_cast_matches_a_value(layout: DstLayout, len: int, meta: Option<usize>)
    requires
        layout.wf(),
        len >= 0,
        meta is None ==> layout.has_nonzero_elems(),
        layout.spec_cast_elems(len, meta) is Some,
    ensures
        layout.spec_cast_elems(len, meta).unwrap() >= 0,
        layout.cast_size(len, meta) >= 0,
        layout.valid_len(layout.cast_size(len, meta)),
{
    lemma_pow2_positive(layout.align as int);
    let elems = layout.spec_cast_elems(len, meta).unwrap();
    if let SizeInfo::SliceDst(t) = layout.size_info {
        if meta is None {
            vstd::arithmetic::div_mod::lemma_mod_decreases(len as nat, layout.align as nat);
            vstd::arithmetic::div_mod::lemma_div_pos_is_pos(
                round_down(len, layout.align as int) - t.offset,
                t.elem_size as int,
            );
        }
        assert(t.elem_size * elems >= 0) by (nonlinear_arith)
            requires
                elems >= 0,
        ;
        lemma_round_up_multiple(t.offset + t.elem_size * elems, layout.align as int);
    }
    assert(layout.size_for_elems(elems) == layout.cast_size(len, meta));
}

/// A power of two is positive.
pub proof fn lemma_pow2_positive(n: int)
    requires
        is_pow2(n),
    ensures
        n > 0,
{
    reveal(is_pow2);
}

/// One is a power of two.
pub proof fn lemma_one_is_pow2()
    ensures
        is_pow2(1),
{
    reveal(is_pow2);
}

/// A rounded-up length is a multiple of the alignment.
pub proof fn lemma_round_up_multiple(len: int, align: int)
    requires
        align > 0,
        len >= 0,
    ensures
        round_up(len, align) % align == 0,
        len <= round_up(len, align) < len + align,
{
    let r = len % align;
    vstd::arithmetic::div_mod::lemma_fundamental_div_mod(len, align);
    if r == 0 {
        vstd::arithmetic::div_mod::lemma_mod_self_0(align);
        assert(padding_needed_for(len, align) == 0);
    } else {
        assert(padding_needed_for(len, align) == align - r) by {
            vstd::arithmetic::div_mod::lemma_small_mod((align - r) as nat, align as nat);
        }
        assert(round_up(len, align) == (len / align + 1) * align) by (nonlinear_arith)
            requires
                len == align * (len / align) + r,
                round_up(len, align) == len + align - r,
        ;
        vstd::arithmetic::div_mod::lemma_mod_multiples_basic(len / align + 1, align);
    }
}

} // verus!
