use core::marker::PhantomData;
use vstd::prelude::*;

verus! {

/// The source has the wrong size for the destination type `Dst`.
pub struct SizeError<Src, Dst: ?Sized> {
    src: Src,
    dst: PhantomData<Dst>,
}

/// The source is not suitably aligned for the destination type `Dst`.
pub struct AlignmentError<Src, Dst: ?Sized> {
    src: Src,
    dst: PhantomData<Dst>,
}

/// The source's bytes are not a valid value of the destination type `Dst`.
pub struct ValidityError<Src, Dst: ?Sized> {
    src: Src,
    dst: PhantomData<Dst>,
}

impl<Src, Dst: ?Sized> SizeError<Src, Dst> {
    pub closed spec fn spec_src(&self) -> Src {
        self.src
    }

    pub fn new(src: Src) -> (r: Self)
        ensures
            r.spec_src() == src,
    {
        SizeError { src, dst: PhantomData }
    }

    /// The rejected source.
    pub fn into_src(self) -> (r: Src)
        ensures
            r == self.spec_src(),
    {
        self.src
    }

    /// A reference to the rejected source.
    pub fn src(&self) -> (r: &Src)
        ensures
            *r == self.spec_src(),
    {
        &self.src
    }
}

impl<Src, Dst: ?Sized> AlignmentError<Src, Dst> {
    pub closed spec fn spec_src(&self) -> Src {
        self.src
    }

    pub fn new(src: Src) -> (r: Self)
        ensures
            r.spec_src() == src,
    {
        AlignmentError { src, dst: PhantomData }
    }

    /// The rejected source.
    pub fn into_src(self) -> (r: Src)
        ensures
            r == self.spec_src(),
    {
        self.src
    }

    /// A reference to the rejected source.
    pub fn src(&self) -> (r: &Src)
        ensures
            *r == self.spec_src(),
    {
        &self.src
    }
}

impl<Src, Dst: ?Sized> ValidityError<Src, Dst> {
    pub closed spec fn spec_src(&self) -> Src {
        self.src
    }

    pub fn new(src: Src) -> (r: Self)
        ensures
            r.spec_src() == src,
    {
        ValidityError { src, dst: PhantomData }
    }

    /// The rejected source.
    pub fn into_src(self) -> (r: Src)
        ensures
            r == self.spec_src(),
    {
        self.src
    }

    /// A reference to the rejected source.
    pub fn src(&self) -> (r: &Src)
        ensures
            *r == self.spec_src(),
    {
        &self.src
    }
}

/// Why a byte buffer cannot be viewed as a `Dst` of a type whose every bit
/// pattern is valid.
pub enum CastError<Src, Dst: ?Sized> {
    Alignment(AlignmentError<Src, Dst>),
    Size(SizeError<Src, Dst>),
}

/// Why a byte buffer cannot be viewed as a `Dst`.
pub enum TryCastError<Src, Dst: ?Sized> {
    Alignment(AlignmentError<Src, Dst>),
    Size(SizeError<Src, Dst>),
    Validity(ValidityError<Src, Dst>),
}

/// Why a `Dst` cannot be read from a byte buffer.
pub enum TryReadError<Src, Dst: ?Sized> {
    Size(SizeError<Src, Dst>),
    Validity(ValidityError<Src, Dst>),
}

impl<Src, Dst: ?Sized> CastError<Src, Dst> {
    /// The rejected source.
    pub open spec fn spec_src(&self) -> Src {
        match self {
            CastError::Alignment(e) => e.spec_src(),
            CastError::Size(e) => e.spec_src(),
        }
    }

    /// The rejected source.
    pub fn into_src(self) -> (r: Src)
        ensures
            r == self.spec_src(),
    {
        match self {
            CastError::Alignment(e) => e.into_src(),
            CastError::Size(e) => e.into_src(),
        }
    }
}

impl<Src, Dst: ?Sized> TryCastError<Src, Dst> {
    /// The rejected source.
    pub open spec fn spec_src(&self) -> Src {
        match self {
            TryCastError::Alignment(e) => e.spec_src(),
            TryCastError::Size(e) => e.spec_src(),
            TryCastError::Validity(e) => e.spec_src(),
        }
    }

    /// The rejected source.
    pub fn into_src(self) -> (r: Src)
        ensures
            r == self.spec_src(),
    {
        match self {
            TryCastError::Alignment(e) => e.into_src(),
            TryCastError::Size(e) => e.into_src(),
            TryCastError::Validity(e) => e.into_src(),
        }
    }
}

impl<Src, Dst: ?Sized> TryReadError<Src, Dst> {
    /// The rejected source.
    pub open spec fn spec_src(&self) -> Src {
        match self {
            TryReadError::Size(e) => e.spec_src(),
            TryReadError::Validity(e) => e.spec_src(),
        }
    }

    /// The rejected source.
    pub fn into_src(self) -> (r: Src)
        ensures
            r == self.spec_src(),
    {
        match self {
            TryReadError::Size(e) => e.into_src(),
            TryReadError::Validity(e) => e.into_src(),
        }
    }
}

} // verus!
