use crate::error::{
    AlignmentError, CastError, SizeError, TryCastError, TryReadError, ValidityError,
};
use crate::known_layout::{size_of_sized, KnownLayout};
use crate::layout::{CastType, MetadataCastError};
use crate::typed_ref::{cast_bytes, Ref};
use vstd::prelude::*;

verus! {

broadcast use vstd::layout::layout_of_primitives;

/// The size of a value of the sized type `T`.
pub open spec fn spec_size<T: KnownLayout + ?Sized>() -> int {
    T::spec_layout().size_for_elems(0)
}

/// `n` zero bytes.
pub open spec fn zeros(n: int) -> Seq<u8> {
    Seq::new(n as nat, |i: int| 0u8)
}

/// A type that holds no interior mutability, so that a shared view of its
/// bytes is enough to check them.
pub trait Immutable {

}

/// A type whose alignment is 1, so that it can be viewed at any address.
pub trait Unaligned: KnownLayout {
    proof fn lemma_align_one()
        ensures
            Self::spec_layout().align == 1,
    ;
}

/// A sized type some of whose byte patterns are values of it.
pub trait TryFromBytes: KnownLayout + Sized {
    /// The bytes (as many as the type's size) form a value of the type.
    spec fn spec_is_bit_valid(bytes: Seq<u8>) -> bool;

    /// The value that valid bytes form.
    spec fn spec_from_bytes(bytes: Seq<u8>) -> Self;

    proof fn lemma_sized()
        ensures
            Self::spec_layout().is_sized(),
    ;

    /// Whether the bytes of `candidate` form a value of the type.
    fn is_bit_valid(candidate: &[u8]) -> (r: bool)
        requires
            candidate@.len() == spec_size::<Self>(),
        ensures
            r == Self::spec_is_bit_valid(candidate@),
    ;

    /// The value that the valid bytes of `bytes` form.
    fn read_valid(bytes: &[u8]) -> (r: Self)
        requires
            bytes@.len() == spec_size::<Self>(),
            Self::spec_is_bit_valid(bytes@),
        ensures
            r == Self::spec_from_bytes(bytes@),
    ;

    /// Views the whole of `candidate` as a value of the type: fails with a
    /// size error where it does not have the type's size, otherwise with an
    /// alignment error where it is misaligned, and otherwise with a validity
    /// error where its bytes do not form a value.
    fn try_ref_from(candidate: &[u8]) -> (r: Result<Ref<&[u8], Self>, TryCastError<&[u8], Self>>)
        where Self: Immutable
        ensures
            (r matches Err(TryCastError::Size(_))) <==> candidate@.len() != spec_size::<Self>(),
            (r matches Err(TryCastError::Alignment(_))) ==> Self::spec_layout().align > 1,
            (r matches Err(TryCastError::Validity(_))) <==> (candidate@.len() == spec_size::<
                Self,
            >() && !(r matches Err(TryCastError::Alignment(_))) && !Self::spec_is_bit_valid(
                candidate@,
            )),
            r matches Ok(v) ==> v.spec_bytes() == candidate@ && v.wf() && Self::spec_is_bit_valid(
                v.spec_bytes(),
            ),
            r matches Err(e) ==> e.spec_src() == candidate,
    {
        proof {
            Self::lemma_sized();
        }
        match Ref::<&[u8], Self>::from(candidate) {
            Ok(view) => {
                if Self::is_bit_valid(view.bytes()) {
                    Ok(view)
                } else {
                    Err(TryCastError::Validity(ValidityError::new(candidate)))
                }
            },
            Err(CastError::Size(e)) => Err(TryCastError::Size(e)),
            Err(CastError::Alignment(e)) => Err(TryCastError::Alignment(e)),
        }
    }

    /// Views the first bytes of `candidate` as a value of the type, and
    /// returns the bytes after them.
    fn try_ref_from_prefix(candidate: &[u8]) -> (r: Result<
        (Ref<&[u8], Self>, &[u8]),
        TryCastError<&[u8], Self>,
    >)
        where Self: Immutable
        ensures
            ({
                let size = spec_size::<Self>();
                let len = candidate@.len() as int;
                &&& (r matches Err(TryCastError::Size(_))) <==> len < size
                &&& (r matches Err(TryCastError::Alignment(_))) ==> Self::spec_layout().align > 1
                &&& (r matches Err(TryCastError::Validity(_))) <==> (len >= size && !(r matches Err(
                    TryCastError::Alignment(_),
                )) && !Self::spec_is_bit_valid(candidate@.subrange(0, size)))
                &&& r matches Ok((v, rest)) ==> v.spec_bytes() == candidate@.subrange(0, size)
                    && rest@ == candidate@.subrange(size, len) && v.wf()
                    && Self::spec_is_bit_valid(v.spec_bytes())
                &&& r matches Err(e) ==> e.spec_src() == candidate
            }),
    {
        proof {
            Self::lemma_sized();
        }
        match Ref::<&[u8], Self>::from_prefix(candidate) {
            Ok((view, rest)) => {
                if Self::is_bit_valid(view.bytes()) {
                    Ok((view, rest))
                } else {
                    Err(TryCastError::Validity(ValidityError::new(candidate)))
                }
            },
            Err(CastError::Size(e)) => Err(TryCastError::Size(e)),
            Err(CastError::Alignment(e)) => Err(TryCastError::Alignment(e)),
        }
    }

    /// Views the last bytes of `candidate` as a value of the type, and
    /// returns the bytes before them.
    fn try_ref_from_suffix(candidate: &[u8]) -> (r: Result<
        (&[u8], Ref<&[u8], Self>),
        TryCastError<&[u8], Self>,
    >)
        where Self: Immutable
        ensures
            ({
                let size = spec_size::<Self>();
                let len = candidate@.len() as int;
                &&& (r matches Err(TryCastError::Size(_))) <==> len < size
                &&& (r matches Err(TryCastError::Alignment(_))) ==> Self::spec_layout().align > 1
                &&& (r matches Err(TryCastError::Validity(_))) <==> (len >= size && !(r matches Err(
                    TryCastError::Alignment(_),
                )) && !Self::spec_is_bit_valid(candidate@.subrange(len - size, len)))
                &&& r matches Ok((rest, v)) ==> v.spec_bytes() == candidate@.subrange(
                    len - size,
                    len,
                ) && rest@ == candidate@.subrange(0, len - size) && v.wf()
                    && Self::spec_is_bit_valid(v.spec_bytes())
                &&& r matches Err(e) ==> e.spec_src() == candidate
            }),
    {
        proof {
            Self::lemma_sized();
        }
        match Ref::<&[u8], Self>::from_suffix(candidate) {
            Ok((rest, view)) => {
                if Self::is_bit_valid(view.bytes()) {
                    Ok((rest, view))
                } else {
                    Err(TryCastError::Validity(ValidityError::new(candidate)))
                }
            },
            Err(CastError::Size(e)) => Err(TryCastError::Size(e)),
            Err(CastError::Alignment(e)) => Err(TryCastError::Alignment(e)),
        }
    }

    /// Views the whole of `bytes`, held exclusively, as a value of the type:
    /// fails with a size error where it does not have the type's size,
    /// otherwise with an alignment error where it is misaligned, and
    /// otherwise with a validity error where its bytes do not form a value.
    fn try_mut_from(bytes: &mut [u8]) -> (r: Result<
        Ref<&mut [u8], Self>,
        TryCastError<&mut [u8], Self>,
    >)
        ensures
            (r matches Err(TryCastError::Size(_))) <==> old(bytes)@.len() != spec_size::<Self>(),
            (r matches Err(TryCastError::Alignment(_))) ==> Self::spec_layout().align > 1,
            (r matches Err(TryCastError::Validity(_))) <==> (old(bytes)@.len() == spec_size::<
                Self,
            >() && !(r matches Err(TryCastError::Alignment(_))) && !Self::spec_is_bit_valid(
                old(bytes)@,
            )),
            r matches Ok(v) ==> v.spec_bytes() == old(bytes)@ && v.wf()
                && Self::spec_is_bit_valid(v.spec_bytes()),
            r matches Err(e) ==> e.spec_src()@ == old(bytes)@,
    {
        proof {
            Self::lemma_sized();
        }
        match cast_bytes::<&mut [u8], Self>(&bytes, CastType::Exact, None) {
            Ok(_) => {
                if Self::is_bit_valid(&*bytes) {
                    Ok(Ref::new_checked(bytes))
                } else {
                    Err(TryCastError::Validity(ValidityError::new(bytes)))
                }
            },
            Err(MetadataCastError::Size) => Err(TryCastError::Size(SizeError::new(bytes))),
            Err(MetadataCastError::Alignment) => Err(
                TryCastError::Alignment(AlignmentError::new(bytes)),
            ),
        }
    }

    /// Views the first bytes of `bytes`, held exclusively, as a value of the
    /// type, and returns the bytes after them.
    fn try_mut_from_prefix(bytes: &mut [u8]) -> (r: Result<
        (Ref<&mut [u8], Self>, &mut [u8]),
        TryCastError<&mut [u8], Self>,
    >)
        ensures
            ({
                let size = spec_size::<Self>();
                let len = old(bytes)@.len() as int;
                &&& (r matches Err(TryCastError::Size(_))) <==> len < size
                &&& (r matches Err(TryCastError::Alignment(_))) ==> Self::spec_layout().align > 1
                &&& (r matches Err(TryCastError::Validity(_))) <==> (len >= size && !(r matches Err(
                    TryCastError::Alignment(_),
                )) && !Self::spec_is_bit_valid(old(bytes)@.subrange(0, size)))
                &&& r matches Ok((v, rest)) ==> v.spec_bytes() == old(bytes)@.subrange(0, size)
                    && rest@ == old(bytes)@.subrange(size, len) && v.wf()
                    && Self::spec_is_bit_valid(v.spec_bytes())
                &&& r matches Err(e) ==> e.spec_src()@ == old(bytes)@
            }),
    {
        proof {
            Self::lemma_sized();
        }
        match cast_bytes::<&mut [u8], Self>(&bytes, CastType::Prefix, None) {
            Ok((_, split)) => {
                let (head, _) = <[u8]>::split_at(&*bytes, split);
                if Self::is_bit_valid(head) {
                    let (head, rest) = bytes.split_at_mut(split);
                    Ok((Ref::new_checked(head), rest))
                } else {
                    Err(TryCastError::Validity(ValidityError::new(bytes)))
                }
            },
            Err(MetadataCastError::Size) => Err(TryCastError::Size(SizeError::new(bytes))),
            Err(MetadataCastError::Alignment) => Err(
                TryCastError::Alignment(AlignmentError::new(bytes)),
            ),
        }
    }

    /// Views the last bytes of `bytes`, held exclusively, as a value of the
    /// type, and returns the bytes before them.
    fn try_mut_from_suffix(bytes: &mut [u8]) -> (r: Result<
        (&mut [u8], Ref<&mut [u8], Self>),
        TryCastError<&mut [u8], Self>,
    >)
        ensures
            ({
                let size = spec_size::<Self>();
                let len = old(bytes)@.len() as int;
                &&& (r matches Err(TryCastError::Size(_))) <==> len < size
                &&& (r matches Err(TryCastError::Alignment(_))) ==> Self::spec_layout().align > 1
                &&& (r matches Err(TryCastError::Validity(_))) <==> (len >= size && !(r matches Err(
                    TryCastError::Alignment(_),
                )) && !Self::spec_is_bit_valid(old(bytes)@.subrange(len - size, len)))
                &&& r matches Ok((rest, v)) ==> v.spec_bytes() == old(bytes)@.subrange(
                    len - size,
                    len,
                ) && rest@ == old(bytes)@.subrange(0, len - size) && v.wf()
                    && Self::spec_is_bit_valid(v.spec_bytes())
                &&& r matches Err(e) ==> e.spec_src()@ == old(bytes)@
            }),
    {
        proof {
            Self::lemma_sized();
        }
        match cast_bytes::<&mut [u8], Self>(&bytes, CastType::Suffix, None) {
            Ok((_, split)) => {
                let (_, tail) = <[u8]>::split_at(&*bytes, split);
                if Self::is_bit_valid(tail) {
                    let (rest, tail) = bytes.split_at_mut(split);
                    Ok((rest, Ref::new_checked(tail)))
                } else {
                    Err(TryCastError::Validity(ValidityError::new(bytes)))
                }
            },
            Err(MetadataCastError::Size) => Err(TryCastError::Size(SizeError::new(bytes))),
            Err(MetadataCastError::Alignment) => Err(
                TryCastError::Alignment(AlignmentError::new(bytes)),
            ),
        }
    }

    /// Copies a value out of `bytes`, which must have the type's size and
    /// form a valid value.
    fn try_read_from(bytes: &[u8]) -> (r: Result<Self, TryReadError<&[u8], Self>>)
        ensures
            (r is Ok) <==> (bytes@.len() == spec_size::<Self>() && Self::spec_is_bit_valid(
                bytes@,
            )),
            r matches Ok(v) ==> v == Self::spec_from_bytes(bytes@),
            (r matches Err(TryReadError::Size(_))) <==> bytes@.len() != spec_size::<Self>(),
            r matches Err(e) ==> e.spec_src() == bytes,
    {
        proof {
            Self::lemma_sized();
        }
        let size = size_of_sized(Self::layout());
        if bytes.len() != size {
            return Err(TryReadError::Size(SizeError::new(bytes)));
        }
        if !Self::is_bit_valid(bytes) {
            return Err(TryReadError::Validity(ValidityError::new(bytes)));
        }
        Ok(Self::read_valid(bytes))
    }
}

/// A type for which the all-zero bytes form a value.
pub trait FromZeros: TryFromBytes {
    proof fn lemma_zeros_valid()
        ensures
            Self::spec_is_bit_valid(zeros(spec_size::<Self>())),
    ;

    /// The value whose bytes are all zero.
    fn new_zeroed() -> (r: Self)
        ensures
            r == Self::spec_from_bytes(zeros(spec_size::<Self>())),
    {
        proof {
            Self::lemma_sized();
            Self::lemma_zeros_valid();
        }
        let size = size_of_sized(Self::layout());
        let bytes: Vec<u8> = vec![0u8; size];
        assert(bytes@ =~= zeros(spec_size::<Self>()));
        Self::read_valid(bytes.as_slice())
    }

    /// Overwrites `self` with the value whose bytes are all zero.
    fn zero(&mut self)
        ensures
            *final(self) == Self::spec_from_bytes(zeros(spec_size::<Self>())),
    {
        *self = Self::new_zeroed();
    }
}

/// A type for which every byte pattern of its size forms a value.
pub trait FromBytes: FromZeros {
    proof fn lemma_all_valid(bytes: Seq<u8>)
        requires
            bytes.len() == spec_size::<Self>(),
        ensures
            Self::spec_is_bit_valid(bytes),
    ;

    /// Views the whole of `bytes` as a value of the type.
    fn ref_from(bytes: &[u8]) -> (r: Result<Ref<&[u8], Self>, CastError<&[u8], Self>>)
        where Self: Immutable
        ensures
            (r matches Err(CastError::Size(_))) <==> bytes@.len() != spec_size::<Self>(),
            (r matches Err(CastError::Alignment(_))) ==> Self::spec_layout().align > 1,
            r matches Ok(v) ==> v.spec_bytes() == bytes@ && v.wf(),
            r matches Err(e) ==> e.spec_src() == bytes,
    {
        proof {
            Self::lemma_sized();
        }
        Ref::from(bytes)
    }

    /// Views the first bytes of `bytes` as a value of the type, and returns
    /// the bytes after them.
    fn ref_from_prefix(bytes: &[u8]) -> (r: Result<(Ref<&[u8], Self>, &[u8]), CastError<&[u8], Self>>)
        where Self: Immutable
        ensures
            ({
                let size = spec_size::<Self>();
                let len = bytes@.len() as int;
                &&& (r matches Err(CastError::Size(_))) <==> len < size
                &&& (r matches Err(CastError::Alignment(_))) ==> Self::spec_layout().align > 1
                &&& r matches Ok((v, rest)) ==> v.spec_bytes() == bytes@.subrange(0, size)
                    && rest@ == bytes@.subrange(size, len) && v.wf()
                &&& r matches Err(e) ==> e.spec_src() == bytes
            }),
    {
        proof {
            Self::lemma_sized();
        }
        Ref::from_prefix(bytes)
    }

    /// Views the last bytes of `bytes` as a value of the type, and returns
    /// the bytes before them.
    fn ref_from_suffix(bytes: &[u8]) -> (r: Result<(&[u8], Ref<&[u8], Self>), CastError<&[u8], Self>>)
        where Self: Immutable
        ensures
            ({
                let size = spec_size::<Self>();
                let len = bytes@.len() as int;
                &&& (r matches Err(CastError::Size(_))) <==> len < size
                &&& (r matches Err(CastError::Alignment(_))) ==> Self::spec_layout().align > 1
                &&& r matches Ok((rest, v)) ==> v.spec_bytes() == bytes@.subrange(len - size, len)
                    && rest@ == bytes@.subrange(0, len - size) && v.wf()
                &&& r matches Err(e) ==> e.spec_src() == bytes
            }),
    {
        proof {
            Self::lemma_sized();
        }
        Ref::from_suffix(bytes)
    }

    /// Views the whole of `bytes`, held exclusively, as a value of the type.
    fn mut_from(bytes: &mut [u8]) -> (r: Result<Ref<&mut [u8], Self>, CastError<&mut [u8], Self>>)
        where Self: IntoBytes
        ensures
            (r matches Err(CastError::Size(_))) <==> old(bytes)@.len() != spec_size::<Self>(),
            (r matches Err(CastError::Alignment(_))) ==> Self::spec_layout().align > 1,
            r matches Ok(v) ==> v.spec_bytes() == old(bytes)@ && v.wf(),
            r matches Err(e) ==> e.spec_src()@ == old(bytes)@,
    {
        proof {
            Self::lemma_sized();
        }
        match cast_bytes::<&mut [u8], Self>(&bytes, CastType::Exact, None) {
            Ok(_) => Ok(Ref::new_checked(bytes)),
            Err(MetadataCastError::Size) => Err(CastError::Size(SizeError::new(bytes))),
            Err(MetadataCastError::Alignment) => Err(CastError::Alignment(AlignmentError::new(bytes))),
        }
    }

    /// Views the first bytes of `bytes`, held exclusively, as a value of the
    /// type, and returns the bytes after them.
    fn mut_from_prefix(bytes: &mut [u8]) -> (r: Result<
        (Ref<&mut [u8], Self>, &mut [u8]),
        CastError<&mut [u8], Self>,
    >)
        where Self: IntoBytes
        ensures
            ({
                let size = spec_size::<Self>();
                let len = old(bytes)@.len() as int;
                &&& (r matches Err(CastError::Size(_))) <==> len < size
                &&& (r matches Err(CastError::Alignment(_))) ==> Self::spec_layout().align > 1
                &&& r matches Ok((v, rest)) ==> v.spec_bytes() == old(bytes)@.subrange(0, size)
                    && rest@ == old(bytes)@.subrange(size, len) && v.wf()
                &&& r matches Err(e) ==> e.spec_src()@ == old(bytes)@
            }),
    {
        proof {
            Self::lemma_sized();
        }
        match cast_bytes::<&mut [u8], Self>(&bytes, CastType::Prefix, None) {
            Ok((_, split)) => {
                let (head, rest) = bytes.split_at_mut(split);
                Ok((Ref::new_checked(head), rest))
            },
            Err(MetadataCastError::Size) => Err(CastError::Size(SizeError::new(bytes))),
            Err(MetadataCastError::Alignment) => Err(CastError::Alignment(AlignmentError::new(bytes))),
        }
    }

    /// Views the last bytes of `bytes`, held exclusively, as a value of the
    /// type, and returns the bytes before them.
    fn mut_from_suffix(bytes: &mut [u8]) -> (r: Result<
        (&mut [u8], Ref<&mut [u8], Self>),
        CastError<&mut [u8], Self>,
    >)
        where Self: IntoBytes
        ensures
            ({
                let size = spec_size::<Self>();
                let len = old(bytes)@.len() as int;
                &&& (r matches Err(CastError::Size(_))) <==> len < size
                &&& (r matches Err(CastError::Alignment(_))) ==> Self::spec_layout().align > 1
                &&& r matches Ok((rest, v)) ==> v.spec_bytes() == old(bytes)@.subrange(
                    len - size,
                    len,
                ) && rest@ == old(bytes)@.subrange(0, len - size) && v.wf()
                &&& r matches Err(e) ==> e.spec_src()@ == old(bytes)@
            }),
    {
        proof {
            Self::lemma_sized();
        }
        match cast_bytes::<&mut [u8], Self>(&bytes, CastType::Suffix, None) {
            Ok((_, split)) => {
                let (rest, tail) = bytes.split_at_mut(split);
                Ok((rest, Ref::new_checked(tail)))
            },
            Err(MetadataCastError::Size) => Err(CastError::Size(SizeError::new(bytes))),
            Err(MetadataCastError::Alignment) => Err(CastError::Alignment(AlignmentError::new(bytes))),
        }
    }

    /// Copies a value out of `bytes`, which must have exactly the type's
    /// size.
    fn read_from(bytes: &[u8]) -> (r: Result<Self, SizeError<&[u8], Self>>)
        ensures
            (r is Ok) <==> bytes@.len() == spec_size::<Self>(),
            r matches Ok(v) ==> v == Self::spec_from_bytes(bytes@),
            r matches Err(e) ==> e.spec_src() == bytes,
    {
        proof {
            Self::lemma_sized();
        }
        let size = size_of_sized(Self::layout());
        if bytes.len() != size {
            return Err(SizeError::new(bytes));
        }
        proof {
            Self::lemma_all_valid(bytes@);
        }
        Ok(Self::read_valid(bytes))
    }

    /// Copies a value out of the first bytes of `bytes`.
    fn read_from_prefix(bytes: &[u8]) -> (r: Result<Self, SizeError<&[u8], Self>>)
        ensures
            (r is Ok) <==> bytes@.len() >= spec_size::<Self>(),
            r matches Ok(v) ==> v == Self::spec_from_bytes(
                bytes@.subrange(0, spec_size::<Self>()),
            ),
            r matches Err(e) ==> e.spec_src() == bytes,
    {
        proof {
            Self::lemma_sized();
        }
        let size = size_of_sized(Self::layout());
        if bytes.len() < size {
            return Err(SizeError::new(bytes));
        }
        let (head, _) = bytes.split_at(size);
        proof {
            Self::lemma_all_valid(head@);
        }
        Ok(Self::read_valid(head))
    }

    /// Copies a value out of the last bytes of `bytes`. Reading copies, so
    /// the only error is a size error.
    fn read_from_suffix(bytes: &[u8]) -> (r: Result<Self, CastError<&[u8], Self>>)
        ensures
            (r is Ok) <==> bytes@.len() >= spec_size::<Self>(),
            r matches Ok(v) ==> v == Self::spec_from_bytes(
                bytes@.subrange(bytes@.len() - spec_size::<Self>(), bytes@.len() as int),
            ),
            r is Err ==> r matches Err(CastError::Size(_)),
            r matches Err(e) ==> e.spec_src() == bytes,
    {
        proof {
            Self::lemma_sized();
        }
        let size = size_of_sized(Self::layout());
        if bytes.len() < size {
            return Err(CastError::Size(SizeError::new(bytes)));
        }
        let (_, tail) = bytes.split_at(bytes.len() - size);
        proof {
            Self::lemma_all_valid(tail@);
        }
        Ok(Self::read_valid(tail))
    }
}

/// A type whose values have a byte image that reads back as the same value.
pub trait IntoBytes: TryFromBytes {
    /// The bytes of a value.
    spec fn spec_to_bytes(&self) -> Seq<u8>;

    /// The byte image of a value has the type's size, which no type that
    /// can exist exceeds `usize` with.
    spec fn image_fits() -> bool;

    proof fn lemma_round_trip(v: Self)
        requires
            Self::image_fits(),
        ensures
            v.spec_to_bytes().len() == spec_size::<Self>(),
            Self::spec_is_bit_valid(v.spec_to_bytes()),
            Self::spec_from_bytes(v.spec_to_bytes()) == v,
    ;

    /// Writes the bytes of `self` to `out`, which has the type's size.
    fn write_bytes(&self, out: &mut [u8])
        requires
            Self::image_fits(),
            old(out)@.len() == spec_size::<Self>(),
        ensures
            final(out)@ == self.spec_to_bytes(),
    ;

    /// Writes the bytes of `self` to `bytes`, which must have exactly the
    /// type's size; on a size error `bytes` is left as it was.
    fn write_to(&self, bytes: &mut [u8]) -> (r: Result<(), SizeError<&Self, &mut [u8]>>)
        requires
            Self::image_fits(),
        ensures
            (r is Ok) <==> old(bytes)@.len() == spec_size::<Self>(),
            r is Ok ==> final(bytes)@ == self.spec_to_bytes(),
            r is Err ==> final(bytes)@ == old(bytes)@,
            r matches Err(e) ==> e.spec_src() == self,
    {
        proof {
            Self::lemma_sized();
        }
        let size = size_of_sized(Self::layout());
        if bytes.len() != size {
            return Err(SizeError::new(self));
        }
        self.write_bytes(bytes);
        Ok(())
    }

    /// Writes the bytes of `self` to the first bytes of `bytes`, leaving the
    /// rest as it was.
    fn write_to_prefix(&self, bytes: &mut [u8]) -> (r: Result<(), SizeError<&Self, &mut [u8]>>)
        requires
            Self::image_fits(),
        ensures
            (r is Ok) <==> old(bytes)@.len() >= spec_size::<Self>(),
            r is Ok ==> final(bytes)@ == self.spec_to_bytes() + old(bytes)@.subrange(
                spec_size::<Self>(),
                old(bytes)@.len() as int,
            ),
            r is Err ==> final(bytes)@ == old(bytes)@,
            r matches Err(e) ==> e.spec_src() == self,
    {
        proof {
            Self::lemma_sized();
        }
        let size = size_of_sized(Self::layout());
        if bytes.len() < size {
            return Err(SizeError::new(self));
        }
        let (head, _rest) = bytes.split_at_mut(size);
        self.write_bytes(head);
        Ok(())
    }

    /// Writes the bytes of `self` to the last bytes of `bytes`, leaving the
    /// rest as it was.
    fn write_to_suffix(&self, bytes: &mut [u8]) -> (r: Result<(), SizeError<&Self, &mut [u8]>>)
        requires
            Self::image_fits(),
        ensures
            (r is Ok) <==> old(bytes)@.len() >= spec_size::<Self>(),
            r is Ok ==> final(bytes)@ == old(bytes)@.subrange(
                0,
                old(bytes)@.len() - spec_size::<Self>(),
            ) + self.spec_to_bytes(),
            r is Err ==> final(bytes)@ == old(bytes)@,
            r matches Err(e) ==> e.spec_src() == self,
    {
        proof {
            Self::lemma_sized();
        }
        let size = size_of_sized(Self::layout());
        if bytes.len() < size {
            return Err(SizeError::new(self));
        }
        let split = bytes.len() - size;
        let (_rest, tail) = bytes.split_at_mut(split);
        self.write_bytes(tail);
        Ok(())
    }
}

impl FromZeros for u8 {
    proof fn lemma_zeros_valid() {
    }
}

impl FromBytes for u8 {
    proof fn lemma_all_valid(bytes: Seq<u8>) {
    }
}

impl IntoBytes for u8 {
    open spec fn spec_to_bytes(&self) -> Seq<u8> {
        seq![*self]
    }

    open spec fn image_fits() -> bool {
        true
    }

    proof fn lemma_round_trip(v: u8) {
    }

    fn write_bytes(&self, out: &mut [u8]) {
        out[0] = *self;
        assert(out@ =~= seq![*self]);
    }
}

impl FromZeros for bool {
    proof fn lemma_zeros_valid() {
    }
}

impl IntoBytes for bool {
    open spec fn spec_to_bytes(&self) -> Seq<u8> {
        seq![if *self { 1u8 } else { 0u8 }]
    }

    open spec fn image_fits() -> bool {
        true
    }

    proof fn lemma_round_trip(v: bool) {
    }

    fn write_bytes(&self, out: &mut [u8]) {
        out[0] = if *self { 1u8 } else { 0u8 };
        assert(out@ =~= self.spec_to_bytes());
    }
}

impl TryFromBytes for u16 {
    /// The bytes hold the value least significant byte first.
    open spec fn spec_is_bit_valid(bytes: Seq<u8>) -> bool {
        true
    }

    open spec fn spec_from_bytes(bytes: Seq<u8>) -> u16 {
        (bytes[0] as u16) | ((bytes[1] as u16) << 8u16)
    }

    proof fn lemma_sized() {
    }

    fn is_bit_valid(candidate: &[u8]) -> (r: bool) {
        true
    }

    fn read_valid(bytes: &[u8]) -> (r: u16) {
        (bytes[0] as u16) | ((bytes[1] as u16) << 8u16)
    }
}

impl FromZeros for u16 {
    proof fn lemma_zeros_valid() {
    }
}

impl FromBytes for u16 {
    proof fn lemma_all_valid(bytes: Seq<u8>) {
    }
}

impl IntoBytes for u16 {
    open spec fn spec_to_bytes(&self) -> Seq<u8> {
        seq![(*self as u8), ((*self >> 8u16) as u8)]
    }

    open spec fn image_fits() -> bool {
        true
    }

    proof fn lemma_round_trip(v: u16) {
        assert(((v as u8) as u16) | ((((v >> 8u16) as u8) as u16) << 8u16) == v) by (bit_vector);
        let b = v.spec_to_bytes();
        assert(b =~= seq![(v as u8), ((v >> 8u16) as u8)]);
    }

    fn write_bytes(&self, out: &mut [u8]) {
        out[0] = *self as u8;
        out[1] = (*self >> 8u16) as u8;
        assert(out@ =~= self.spec_to_bytes());
    }
}

impl TryFromBytes for u32 {
    /// The bytes hold the value least significant byte first.
    open spec fn spec_is_bit_valid(bytes: Seq<u8>) -> bool {
        true
    }

    open spec fn spec_from_bytes(bytes: Seq<u8>) -> u32 {
        (bytes[0] as u32) | ((bytes[1] as u32) << 8u32) | ((bytes[2] as u32) << 16u32) | ((bytes[3] as u32) << 24u32)
    }

    proof fn lemma_sized() {
    }

    fn is_bit_valid(candidate: &[u8]) -> (r: bool) {
        true
    }

    fn read_valid(bytes: &[u8]) -> (r: u32) {
        (bytes[0] as u32) | ((bytes[1] as u32) << 8u32) | ((bytes[2] as u32) << 16u32) | ((bytes[3] as u32) << 24u32)
    }
}

impl FromZeros for u32 {
    proof fn lemma_zeros_valid() {
    }
}

impl FromBytes for u32 {
    proof fn lemma_all_valid(bytes: Seq<u8>) {
    }
}

impl IntoBytes for u32 {
    open spec fn spec_to_bytes(&self) -> Seq<u8> {
        seq![(*self as u8), ((*self >> 8u32) as u8), ((*self >> 16u32) as u8), ((*self >> 24u32) as u8)]
    }

    open spec fn image_fits() -> bool {
        true
    }

    proof fn lemma_round_trip(v: u32) {
        assert(((v as u8) as u32) | ((((v >> 8u32) as u8) as u32) << 8u32) | ((((v >> 16u32) as u8) as u32) << 16u32) | ((((v >> 24u32) as u8) as u32) << 24u32) == v) by (bit_vector);
        let b = v.spec_to_bytes();
        assert(b =~= seq![(v as u8), ((v >> 8u32) as u8), ((v >> 16u32) as u8), ((v >> 24u32) as u8)]);
    }

    fn write_bytes(&self, out: &mut [u8]) {
        out[0] = *self as u8;
        out[1] = (*self >> 8u32) as u8;
        out[2] = (*self >> 16u32) as u8;
        out[3] = (*self >> 24u32) as u8;
        assert(out@ =~= self.spec_to_bytes());
    }
}

impl TryFromBytes for u64 {
    /// The bytes hold the value least significant byte first.
    open spec fn spec_is_bit_valid(bytes: Seq<u8>) -> bool {
        true
    }

    open spec fn spec_from_bytes(bytes: Seq<u8>) -> u64 {
        (bytes[0] as u64) | ((bytes[1] as u64) << 8u64) | ((bytes[2] as u64) << 16u64) | ((bytes[3] as u64) << 24u64) | ((bytes[4] as u64) << 32u64) | ((bytes[5] as u64) << 40u64) | ((bytes[6] as u64) << 48u64) | ((bytes[7] as u64) << 56u64)
    }

    proof fn lemma_sized() {
    }

    fn is_bit_valid(candidate: &[u8]) -> (r: bool) {
        true
    }

    fn read_valid(bytes: &[u8]) -> (r: u64) {
        (bytes[0] as u64) | ((bytes[1] as u64) << 8u64) | ((bytes[2] as u64) << 16u64) | ((bytes[3] as u64) << 24u64) | ((bytes[4] as u64) << 32u64) | ((bytes[5] as u64) << 40u64) | ((bytes[6] as u64) << 48u64) | ((bytes[7] as u64) << 56u64)
    }
}

impl FromZeros for u64 {
    proof fn lemma_zeros_valid() {
    }
}

impl FromBytes for u64 {
    proof fn lemma_all_valid(bytes: Seq<u8>) {
    }
}

impl IntoBytes for u64 {
    open spec fn spec_to_bytes(&self) -> Seq<u8> {
        seq![(*self as u8), ((*self >> 8u64) as u8), ((*self >> 16u64) as u8), ((*self >> 24u64) as u8), ((*self >> 32u64) as u8), ((*self >> 40u64) as u8), ((*self >> 48u64) as u8), ((*self >> 56u64) as u8)]
    }

    open spec fn image_fits() -> bool {
        true
    }

    proof fn lemma_round_trip(v: u64) {
        assert(((v as u8) as u64) | ((((v >> 8u64) as u8) as u64) << 8u64) | ((((v >> 16u64) as u8) as u64) << 16u64) | ((((v >> 24u64) as u8) as u64) << 24u64) | ((((v >> 32u64) as u8) as u64) << 32u64) | ((((v >> 40u64) as u8) as u64) << 40u64) | ((((v >> 48u64) as u8) as u64) << 48u64) | ((((v >> 56u64) as u8) as u64) << 56u64) == v) by (bit_vector);
        let b = v.spec_to_bytes();
        assert(b =~= seq![(v as u8), ((v >> 8u64) as u8), ((v >> 16u64) as u8), ((v >> 24u64) as u8), ((v >> 32u64) as u8), ((v >> 40u64) as u8), ((v >> 48u64) as u8), ((v >> 56u64) as u8)]);
    }

    fn write_bytes(&self, out: &mut [u8]) {
        out[0] = *self as u8;
        out[1] = (*self >> 8u64) as u8;
        out[2] = (*self >> 16u64) as u8;
        out[3] = (*self >> 24u64) as u8;
        out[4] = (*self >> 32u64) as u8;
        out[5] = (*self >> 40u64) as u8;
        out[6] = (*self >> 48u64) as u8;
        out[7] = (*self >> 56u64) as u8;
        assert(out@ =~= self.spec_to_bytes());
    }
}

impl TryFromBytes for usize {
    /// The bytes hold the value least significant byte first, in as many
    /// bytes as a `usize` has.
    open spec fn spec_is_bit_valid(bytes: Seq<u8>) -> bool {
        true
    }

    open spec fn spec_from_bytes(bytes: Seq<u8>) -> usize {
        if bytes.len() == 8 {
            u64::spec_from_bytes(bytes) as usize
        } else {
            u32::spec_from_bytes(bytes) as usize
        }
    }

    proof fn lemma_sized() {
    }

    fn is_bit_valid(candidate: &[u8]) -> (r: bool) {
        true
    }

    fn read_valid(bytes: &[u8]) -> (r: usize) {
        if bytes.len() == 8 {
            u64::read_valid(bytes) as usize
        } else {
            u32::read_valid(bytes) as usize
        }
    }
}

impl FromZeros for usize {
    proof fn lemma_zeros_valid() {
    }
}

impl FromBytes for usize {
    proof fn lemma_all_valid(bytes: Seq<u8>) {
    }
}

impl IntoBytes for usize {
    open spec fn spec_to_bytes(&self) -> Seq<u8> {
        if usize::BITS == 64 {
            (*self as u64).spec_to_bytes()
        } else {
            (*self as u32).spec_to_bytes()
        }
    }

    open spec fn image_fits() -> bool {
        true
    }

    proof fn lemma_round_trip(v: usize) {
        if usize::BITS == 64 {
            u64::lemma_round_trip(v as u64);
        } else {
            u32::lemma_round_trip(v as u32);
        }
    }

    fn write_bytes(&self, out: &mut [u8]) {
        if usize::BITS == 64 {
            (*self as u64).write_bytes(out);
        } else {
            (*self as u32).write_bytes(out);
        }
    }
}

impl Immutable for usize {

}

impl Immutable for u8 {

}

impl Immutable for bool {

}

impl Immutable for u16 {

}

impl Immutable for u32 {

}

impl Immutable for u64 {

}

impl Immutable for [u8] {

}

impl Immutable for [u64] {

}

impl<const N: usize> Immutable for [[u8; N]] {

}

impl Immutable for () {

}

impl<const N: usize> Unaligned for [[u8; N]] {
    proof fn lemma_align_one() {
    }
}

impl Unaligned for () {
    proof fn lemma_align_one() {
    }
}

impl TryFromBytes for () {
    open spec fn spec_is_bit_valid(bytes: Seq<u8>) -> bool {
        true
    }

    open spec fn spec_from_bytes(bytes: Seq<u8>) -> () {
        ()
    }

    proof fn lemma_sized() {
    }

    fn is_bit_valid(candidate: &[u8]) -> (r: bool) {
        true
    }

    fn read_valid(bytes: &[u8]) -> (r: ()) {
    }
}

impl FromZeros for () {
    proof fn lemma_zeros_valid() {
    }
}

impl FromBytes for () {
    proof fn lemma_all_valid(bytes: Seq<u8>) {
    }
}

impl IntoBytes for () {
    open spec fn spec_to_bytes(&self) -> Seq<u8> {
        Seq::empty()
    }

    open spec fn image_fits() -> bool {
        true
    }

    proof fn lemma_round_trip(v: ()) {
    }

    fn write_bytes(&self, out: &mut [u8]) {
        assert(out@ =~= Seq::<u8>::empty());
    }
}

impl Immutable for [u16] {

}

impl Unaligned for u8 {
    proof fn lemma_align_one() {
    }
}

impl Unaligned for bool {
    proof fn lemma_align_one() {
    }
}

impl Unaligned for [u8] {
    proof fn lemma_align_one() {
    }
}

impl TryFromBytes for u8 {
    open spec fn spec_is_bit_valid(bytes: Seq<u8>) -> bool {
        true
    }

    open spec fn spec_from_bytes(bytes: Seq<u8>) -> u8 {
        bytes[0]
    }

    proof fn lemma_sized() {
    }

    fn is_bit_valid(candidate: &[u8]) -> (r: bool) {
        true
    }

    fn read_valid(bytes: &[u8]) -> (r: u8) {
        bytes[0]
    }
}

impl TryFromBytes for bool {
    /// Only the bytes 0 (`false`) and 1 (`true`) are booleans.
    open spec fn spec_is_bit_valid(bytes: Seq<u8>) -> bool {
        bytes[0] < 2
    }

    open spec fn spec_from_bytes(bytes: Seq<u8>) -> bool {
        bytes[0] == 1
    }

    proof fn lemma_sized() {
    }

    fn is_bit_valid(candidate: &[u8]) -> (r: bool) {
        candidate[0] < 2
    }

    fn read_valid(bytes: &[u8]) -> (r: bool) {
        bytes[0] == 1
    }
}

} // verus!
