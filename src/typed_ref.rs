use crate::byte_slice::{address_of, ByteSlice, ByteSliceMut, SplitByteSlice};
use crate::capability::{FromBytes, Immutable, IntoBytes, TryFromBytes, Unaligned};
use crate::error::{AlignmentError, CastError, SizeError};
use crate::known_layout::KnownLayout;
use crate::layout::{lemma_cast_matches_a_value, CastType, MetadataCastError};
use core::marker::PhantomData;
use vstd::prelude::*;

verus! {

/// A byte buffer that has been checked to be suitably sized and aligned
/// for a value of type `T`.
pub struct Ref<B, T: ?Sized> {
    bytes: B,
    marker: PhantomData<T>,
}

/// Runs the cast engine on the bytes of `bytes` at their address.
pub(crate) fn cast_bytes<B: ByteSlice, T: KnownLayout + ?Sized>(
    bytes: &B,
    cast_type: CastType,
    meta: Option<usize>,
) -> (r: Result<(usize, usize), MetadataCastError>)
    requires
        meta is None ==> T::spec_layout().has_nonzero_elems(),
    ensures
        ({
            let layout = T::spec_layout();
            let len = bytes.spec_bytes().len() as int;
            &&& (r == Err::<(usize, usize), _>(MetadataCastError::Size)) <==> !layout.size_fits(
                len,
                cast_type,
                meta,
            )
            &&& r == Err::<(usize, usize), _>(MetadataCastError::Alignment) ==> layout.align > 1
            &&& r matches Ok((_, split)) ==> split == layout.cast_split(len, cast_type, meta)
                && layout.size_fits(len, cast_type, meta) && layout.valid_len(
                layout.cast_size(len, meta),
            ) && 0 <= layout.cast_size(len, meta) <= len
        }),
{
    let layout = T::layout();
    let b = bytes.as_bytes();
    let addr = address_of(b);
    let r = layout.validate_cast_and_convert_metadata(addr, b.len(), cast_type, meta);
    proof {
        if layout.spec_cast_elems(b@.len() as int, meta) is Some {
            lemma_cast_matches_a_value(layout, b@.len() as int, meta);
        }
        let start = layout.cast_start(addr as int, b@.len() as int, cast_type, meta);
        crate::layout::lemma_pow2_positive(layout.align as int);
        if layout.align == 1 {
            assert(start % 1 == 0) by (nonlinear_arith);
        }
    }
    r
}

/// Views the first bytes of `bytes` as a `T` with `meta` trailing elements
/// where given, and as many as fit otherwise.
fn cast_prefix<B: SplitByteSlice, T: KnownLayout + ?Sized>(bytes: B, meta: Option<usize>) -> (r:
    Result<(Ref<B, T>, B), CastError<B, T>>)
    requires
        meta is None ==> T::spec_layout().has_nonzero_elems(),
    ensures
        ({
            let layout = T::spec_layout();
            let len = bytes.spec_bytes().len() as int;
            let size = layout.cast_size(len, meta);
            &&& (r matches Err(CastError::Size(_))) <==> !layout.size_fits(
                len,
                CastType::Prefix,
                meta,
            )
            &&& (r matches Err(CastError::Alignment(_))) ==> layout.align > 1
            &&& r matches Ok((v, rest)) ==> v.spec_bytes() == bytes.spec_bytes().subrange(0, size)
                && rest.spec_bytes() == bytes.spec_bytes().subrange(size, len) && v.wf()
            &&& r matches Err(e) ==> e.spec_src() == bytes
        }),
{
    match cast_bytes::<B, T>(&bytes, CastType::Prefix, meta) {
        Ok((_, split)) => {
            let (matched, rest) = bytes.split_at(split);
            Ok((Ref { bytes: matched, marker: PhantomData }, rest))
        },
        Err(MetadataCastError::Size) => Err(CastError::Size(SizeError::new(bytes))),
        Err(MetadataCastError::Alignment) => Err(CastError::Alignment(AlignmentError::new(bytes))),
    }
}

/// Views the last bytes of `bytes` as a `T` with `meta` trailing elements
/// where given, and as many as fit otherwise.
fn cast_suffix<B: SplitByteSlice, T: KnownLayout + ?Sized>(bytes: B, meta: Option<usize>) -> (r:
    Result<(B, Ref<B, T>), CastError<B, T>>)
    requires
        meta is None ==> T::spec_layout().has_nonzero_elems(),
    ensures
        ({
            let layout = T::spec_layout();
            let len = bytes.spec_bytes().len() as int;
            let size = layout.cast_size(len, meta);
            &&& (r matches Err(CastError::Size(_))) <==> !layout.size_fits(
                len,
                CastType::Suffix,
                meta,
            )
            &&& (r matches Err(CastError::Alignment(_))) ==> layout.align > 1
            &&& r matches Ok((rest, v)) ==> v.spec_bytes() == bytes.spec_bytes().subrange(
                len - size,
                len,
            ) && rest.spec_bytes() == bytes.spec_bytes().subrange(0, len - size) && v.wf()
            &&& r matches Err(e) ==> e.spec_src() == bytes
        }),
{
    match cast_bytes::<B, T>(&bytes, CastType::Suffix, meta) {
        Ok((_, split)) => {
            let (rest, matched) = bytes.split_at(split);
            Ok((rest, Ref { bytes: matched, marker: PhantomData }))
        },
        Err(MetadataCastError::Size) => Err(CastError::Size(SizeError::new(bytes))),
        Err(MetadataCastError::Alignment) => Err(CastError::Alignment(AlignmentError::new(bytes))),
    }
}

/// The size error of a cast to a type of alignment 1, which cannot fail
/// on alignment.
fn size_error_of<B, T: ?Sized>(e: CastError<B, T>) -> (r: SizeError<B, T>)
    requires
        e is Size,
    ensures
        r.spec_src() == e.spec_src(),
{
    match e {
        CastError::Size(e) => e,
        CastError::Alignment(_) => vstd::pervasive::unreached(),
    }
}

impl<B: ByteSlice, T: ?Sized> Ref<B, T> {
    /// The bytes the view refers to.
    pub closed spec fn spec_bytes(&self) -> Seq<u8> {
        self.bytes.spec_bytes()
    }

    /// The bytes the view refers to.
    pub fn bytes(&self) -> (r: &[u8])
        ensures
            r@ == self.spec_bytes(),
    {
        self.bytes.as_bytes()
    }
}

impl<B: ByteSlice, T: KnownLayout + ?Sized> Ref<B, T> {
    /// The bytes have the size of some value of `T`.
    pub open spec fn wf(&self) -> bool {
        T::spec_layout().valid_len(self.spec_bytes().len() as int)
    }

    /// A view of `bytes`, which the caller has checked to be aligned for `T`.
    pub(crate) fn new_checked(bytes: B) -> (r: Ref<B, T>)
        requires
            T::spec_layout().valid_len(bytes.spec_bytes().len() as int),
        ensures
            r.spec_bytes() == bytes.spec_bytes(),
            r.wf(),
    {
        Ref { bytes, marker: PhantomData }
    }
}

impl<B: ByteSliceMut, T: ?Sized> Ref<B, T> {
    /// Exclusive access to the bytes the view refers to.
    pub fn bytes_mut(&mut self) -> (r: &mut [u8])
        ensures
            r@ == old(self).spec_bytes(),
            final(self).spec_bytes() == final(r)@,
    {
        self.bytes.as_bytes_mut()
    }
}

impl<B, T> Ref<B, T> where B: ByteSlice, T: KnownLayout + Immutable + ?Sized {
    /// Views the whole of `bytes` as a `T`. Fails with a size error where
    /// `bytes` does not have the size of a value of `T`, and otherwise with
    /// an alignment error where `bytes` is not aligned for `T`.
    pub fn from(bytes: B) -> (r: Result<Ref<B, T>, CastError<B, T>>)
        requires
            T::spec_layout().has_nonzero_elems(),
        ensures
            (r matches Err(CastError::Size(_))) <==> !T::spec_layout().size_fits(
                bytes.spec_bytes().len() as int,
                CastType::Exact,
                None,
            ),
            (r matches Err(CastError::Alignment(_))) ==> T::spec_layout().align > 1,
            r matches Ok(v) ==> v.spec_bytes() == bytes.spec_bytes() && v.wf(),
            r matches Err(e) ==> e.spec_src() == bytes,
    {
        match cast_bytes::<B, T>(&bytes, CastType::Exact, None) {
            Ok(_) => Ok(Ref { bytes, marker: PhantomData }),
            Err(MetadataCastError::Size) => Err(CastError::Size(SizeError::new(bytes))),
            Err(MetadataCastError::Alignment) => Err(
                CastError::Alignment(AlignmentError::new(bytes)),
            ),
        }
    }
}

impl<B, T> Ref<B, T> where B: SplitByteSlice, T: KnownLayout + Immutable + ?Sized {
    /// Views the first bytes of `bytes` as a `T`, taking as many trailing
    /// elements as fit, and returns the bytes after them.
    pub fn from_prefix(bytes: B) -> (r: Result<(Ref<B, T>, B), CastError<B, T>>)
        requires
            T::spec_layout().has_nonzero_elems(),
        ensures
            ({
                let layout = T::spec_layout();
                let len = bytes.spec_bytes().len() as int;
                let size = layout.cast_size(len, None);
                &&& (r matches Err(CastError::Size(_))) <==> !layout.size_fits(
                    len,
                    CastType::Prefix,
                    None,
                )
                &&& (r matches Err(CastError::Alignment(_))) ==> layout.align > 1
                &&& r matches Ok((v, rest)) ==> v.spec_bytes() == bytes.spec_bytes().subrange(
                    0,
                    size,
                ) && rest.spec_bytes() == bytes.spec_bytes().subrange(size, len) && v.wf()
                &&& r matches Err(e) ==> e.spec_src() == bytes
            }),
    {
        cast_prefix(bytes, None)
    }

    /// Views the last bytes of `bytes` as a `T`, taking as many trailing
    /// elements as fit, and returns the bytes before them.
    pub fn from_suffix(bytes: B) -> (r: Result<(B, Ref<B, T>), CastError<B, T>>)
        requires
            T::spec_layout().has_nonzero_elems(),
        ensures
            ({
                let layout = T::spec_layout();
                let len = bytes.spec_bytes().len() as int;
                let size = layout.cast_size(len, None);
                &&& (r matches Err(CastError::Size(_))) <==> !layout.size_fits(
                    len,
                    CastType::Suffix,
                    None,
                )
                &&& (r matches Err(CastError::Alignment(_))) ==> layout.align > 1
                &&& r matches Ok((rest, v)) ==> v.spec_bytes() == bytes.spec_bytes().subrange(
                    len - size,
                    len,
                ) && rest.spec_bytes() == bytes.spec_bytes().subrange(0, len - size) && v.wf()
                &&& r matches Err(e) ==> e.spec_src() == bytes
            }),
    {
        cast_suffix(bytes, None)
    }
}

impl<B, T> Ref<B, T> where
    B: SplitByteSlice,
    T: KnownLayout<PointerMetadata = usize> + Immutable + ?Sized,
 {
    /// Views the first bytes of `bytes` as a `T` with `count` trailing
    /// elements, and returns the bytes after them.
    pub fn from_prefix_with_elems(bytes: B, count: usize) -> (r: Result<
        (Ref<B, T>, B),
        CastError<B, T>,
    >)
        requires
            T::spec_layout().has_nonzero_elems(),
        ensures
            ({
                let layout = T::spec_layout();
                let len = bytes.spec_bytes().len() as int;
                let size = layout.size_for_elems(count as int);
                &&& (r matches Err(CastError::Size(_))) <==> size > len
                &&& (r matches Err(CastError::Alignment(_))) ==> layout.align > 1
                &&& r matches Ok((v, rest)) ==> v.spec_bytes() == bytes.spec_bytes().subrange(
                    0,
                    size,
                ) && rest.spec_bytes() == bytes.spec_bytes().subrange(size, len) && v.wf()
                &&& r matches Err(e) ==> e.spec_src() == bytes
            }),
    {
        cast_prefix(bytes, Some(count))
    }

    /// Views the last bytes of `bytes` as a `T` with `count` trailing
    /// elements, and returns the bytes before them.
    pub fn from_suffix_with_elems(bytes: B, count: usize) -> (r: Result<
        (B, Ref<B, T>),
        CastError<B, T>,
    >)
        requires
            T::spec_layout().has_nonzero_elems(),
        ensures
            ({
                let layout = T::spec_layout();
                let len = bytes.spec_bytes().len() as int;
                let size = layout.size_for_elems(count as int);
                &&& (r matches Err(CastError::Size(_))) <==> size > len
                &&& (r matches Err(CastError::Alignment(_))) ==> layout.align > 1
                &&& r matches Ok((rest, v)) ==> v.spec_bytes() == bytes.spec_bytes().subrange(
                    len - size,
                    len,
                ) && rest.spec_bytes() == bytes.spec_bytes().subrange(0, len - size) && v.wf()
                &&& r matches Err(e) ==> e.spec_src() == bytes
            }),
    {
        cast_suffix(bytes, Some(count))
    }
}

impl<B, T> Ref<B, T> where B: ByteSlice, T: Unaligned + KnownLayout + Immutable + ?Sized {
    /// Views the whole of `bytes` as a `T` of alignment 1, which fails only
    /// where `bytes` does not have the size of a value of `T`.
    pub fn unaligned_from(bytes: B) -> (r: Result<Ref<B, T>, SizeError<B, T>>)
        requires
            T::spec_layout().has_nonzero_elems(),
        ensures
            (r is Err) <==> !T::spec_layout().size_fits(
                bytes.spec_bytes().len() as int,
                CastType::Exact,
                None,
            ),
            r matches Ok(v) ==> v.spec_bytes() == bytes.spec_bytes() && v.wf(),
            r matches Err(e) ==> e.spec_src() == bytes,
    {
        proof {
            T::lemma_align_one();
        }
        match Ref::from(bytes) {
            Ok(dst) => Ok(dst),
            Err(e) => Err(size_error_of(e)),
        }
    }
}

impl<B, T> Ref<B, T> where B: SplitByteSlice, T: Unaligned + KnownLayout + Immutable + ?Sized {
    /// Views the first bytes of `bytes` as a `T` of alignment 1, taking as
    /// many trailing elements as fit, and returns the bytes after them.
    pub fn unaligned_from_prefix(bytes: B) -> (r: Result<(Ref<B, T>, B), SizeError<B, T>>)
        requires
            T::spec_layout().has_nonzero_elems(),
        ensures
            ({
                let layout = T::spec_layout();
                let len = bytes.spec_bytes().len() as int;
                let size = layout.cast_size(len, None);
                &&& (r is Err) <==> !layout.size_fits(len, CastType::Prefix, None)
                &&& r matches Ok((v, rest)) ==> v.spec_bytes() == bytes.spec_bytes().subrange(
                    0,
                    size,
                ) && rest.spec_bytes() == bytes.spec_bytes().subrange(size, len) && v.wf()
                &&& r matches Err(e) ==> e.spec_src() == bytes
            }),
    {
        proof {
            T::lemma_align_one();
        }
        match Ref::from_prefix(bytes) {
            Ok(parts) => Ok(parts),
            Err(e) => Err(size_error_of(e)),
        }
    }

    /// Views the last bytes of `bytes` as a `T` of alignment 1, taking as
    /// many trailing elements as fit, and returns the bytes before them.
    pub fn unaligned_from_suffix(bytes: B) -> (r: Result<(B, Ref<B, T>), SizeError<B, T>>)
        requires
            T::spec_layout().has_nonzero_elems(),
        ensures
            ({
                let layout = T::spec_layout();
                let len = bytes.spec_bytes().len() as int;
                let size = layout.cast_size(len, None);
                &&& (r is Err) <==> !layout.size_fits(len, CastType::Suffix, None)
                &&& r matches Ok((rest, v)) ==> v.spec_bytes() == bytes.spec_bytes().subrange(
                    len - size,
                    len,
                ) && rest.spec_bytes() == bytes.spec_bytes().subrange(0, len - size) && v.wf()
                &&& r matches Err(e) ==> e.spec_src() == bytes
            }),
    {
        proof {
            T::lemma_align_one();
        }
        match Ref::from_suffix(bytes) {
            Ok(parts) => Ok(parts),
            Err(e) => Err(size_error_of(e)),
        }
    }
}

impl<B, T> Ref<B, T> where
    B: SplitByteSlice,
    T: KnownLayout<PointerMetadata = usize> + Unaligned + Immutable + ?Sized,
 {
    /// Views the first bytes of `bytes` as a `T` of alignment 1 with `count`
    /// trailing elements, and returns the bytes after them.
    pub fn unaligned_from_prefix_with_elems(bytes: B, count: usize) -> (r: Result<
        (Ref<B, T>, B),
        SizeError<B, T>,
    >)
        requires
            T::spec_layout().has_nonzero_elems(),
        ensures
            ({
                let layout = T::spec_layout();
                let len = bytes.spec_bytes().len() as int;
                let size = layout.size_for_elems(count as int);
                &&& (r is Err) <==> size > len
                &&& r matches Ok((v, rest)) ==> v.spec_bytes() == bytes.spec_bytes().subrange(
                    0,
                    size,
                ) && rest.spec_bytes() == bytes.spec_bytes().subrange(size, len) && v.wf()
                &&& r matches Err(e) ==> e.spec_src() == bytes
            }),
    {
        proof {
            T::lemma_align_one();
        }
        match Ref::from_prefix_with_elems(bytes, count) {
            Ok(parts) => Ok(parts),
            Err(e) => Err(size_error_of(e)),
        }
    }

    /// Views the last bytes of `bytes` as a `T` of alignment 1 with `count`
    /// trailing elements, and returns the bytes before them.
    pub fn unaligned_from_suffix_with_elems(bytes: B, count: usize) -> (r: Result<
        (B, Ref<B, T>),
        SizeError<B, T>,
    >)
        requires
            T::spec_layout().has_nonzero_elems(),
        ensures
            ({
                let layout = T::spec_layout();
                let len = bytes.spec_bytes().len() as int;
                let size = layout.size_for_elems(count as int);
                &&& (r is Err) <==> size > len
                &&& r matches Ok((rest, v)) ==> v.spec_bytes() == bytes.spec_bytes().subrange(
                    len - size,
                    len,
                ) && rest.spec_bytes() == bytes.spec_bytes().subrange(0, len - size) && v.wf()
                &&& r matches Err(e) ==> e.spec_src() == bytes
            }),
    {
        proof {
            T::lemma_align_one();
        }
        match Ref::from_suffix_with_elems(bytes, count) {
            Ok(parts) => Ok(parts),
            Err(e) => Err(size_error_of(e)),
        }
    }
}

impl<B: ByteSlice, T: FromBytes> Ref<B, T> {
    /// Copies the value the bytes form out of the view.
    pub fn read(&self) -> (r: T)
        requires
            self.wf(),
        ensures
            r == T::spec_from_bytes(self.spec_bytes()),
    {
        proof {
            T::lemma_sized();
            T::lemma_all_valid(self.spec_bytes());
        }
        T::read_valid(self.bytes.as_bytes())
    }
}

impl<B: ByteSlice, T: TryFromBytes> Ref<B, T> {
    /// Copies the value out of a view whose bytes are known to form a value
    /// of `T`, without checking them again.
    pub fn read_valid(&self) -> (r: T)
        requires
            self.wf(),
            T::spec_is_bit_valid(self.spec_bytes()),
        ensures
            r == T::spec_from_bytes(self.spec_bytes()),
    {
        proof {
            T::lemma_sized();
        }
        T::read_valid(self.bytes.as_bytes())
    }
}

impl<B: ByteSliceMut, T: IntoBytes> Ref<B, T> {
    /// Overwrites the bytes of the view with the bytes of `t`.
    pub fn write(&mut self, t: T)
        requires
            T::image_fits(),
            old(self).wf(),
        ensures
            final(self).spec_bytes() == t.spec_to_bytes(),
            final(self).wf(),
    {
        proof {
            T::lemma_sized();
        }
        let out = self.bytes.as_bytes_mut();
        t.write_bytes(out);
        proof {
            T::lemma_round_trip(t);
            assert(T::spec_layout().size_for_elems(0) == t.spec_to_bytes().len());
        }
    }
}

/// Writing `v` into a view and then reading the view gives back `v`, for a
/// type every byte pattern of which is a value: `view` stands for the view
/// after the write, whose bytes are those of `v`.
pub proof fn lemma_write_then_read<B: ByteSliceMut, T: FromBytes + IntoBytes>(
    view: Ref<B, T>,
    v: T,
)
    requires
        T::image_fits(),
        view.spec_bytes() == v.spec_to_bytes(),
    ensures
        view.wf(),
        T::spec_from_bytes(view.spec_bytes()) == v,
{
    T::lemma_sized();
    T::lemma_round_trip(v);
    assert(T::spec_layout().size_for_elems(0) == view.spec_bytes().len());
}

} // verus!
