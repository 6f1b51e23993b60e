use vstd::prelude::*;

verus! {

/// A buffer of bytes whose contents and length stay what they were as long
/// as it is only used through these traits.
pub trait ByteSlice: Sized {
    /// The bytes of the buffer.
    spec fn spec_bytes(&self) -> Seq<u8>;

    fn as_bytes(&self) -> (r: &[u8])
        ensures
            r@ == self.spec_bytes(),
    ;
}

/// A byte buffer that can be written.
pub trait ByteSliceMut: ByteSlice {
    fn as_bytes_mut(&mut self) -> (r: &mut [u8])
        ensures
            r@ == old(self).spec_bytes(),
            final(self).spec_bytes() == final(r)@,
    ;
}

/// A byte buffer whose copies refer to the same bytes.
pub trait CopyableByteSlice: ByteSlice + Copy + CloneableByteSlice {

}

/// A byte buffer whose clones refer to the same bytes.
pub trait CloneableByteSlice: ByteSlice + Clone {

}

/// A byte buffer that can be split in two at a position.
pub trait SplitByteSlice: ByteSlice {
    /// The bytes before `mid` and the bytes from `mid` on.
    fn split_at(self, mid: usize) -> (r: (Self, Self))
        requires
            mid <= self.spec_bytes().len(),
        ensures
            r.0.spec_bytes() == self.spec_bytes().subrange(0, mid as int),
            r.1.spec_bytes() == self.spec_bytes().subrange(
                mid as int,
                self.spec_bytes().len() as int,
            ),
    ;
}

/// A byte buffer that can be split and written.
pub trait SplitByteSliceMut: SplitByteSlice + ByteSliceMut {

}

/// A byte buffer that can be turned into a shared slice of lifetime `'a`.
pub trait IntoByteSlice<'a>: ByteSlice {
    fn into_byte_slice(self) -> (r: &'a [u8])
        ensures
            r@ == self.spec_bytes(),
    ;
}

/// A byte buffer that can be turned into an exclusive slice of lifetime
/// `'a`.
pub trait IntoByteSliceMut<'a>: ByteSliceMut {
    fn into_byte_slice_mut(self) -> (r: &'a mut [u8])
        ensures
            r@ == self.spec_bytes(),
    ;
}

impl<'a> ByteSlice for &'a [u8] {
    open spec fn spec_bytes(&self) -> Seq<u8> {
        (*self)@
    }

    fn as_bytes(&self) -> (r: &[u8]) {
        *self
    }
}

impl<'a> CloneableByteSlice for &'a [u8] {

}

impl<'a> CopyableByteSlice for &'a [u8] {

}

impl<'a> SplitByteSlice for &'a [u8] {
    fn split_at(self, mid: usize) -> (r: (Self, Self)) {
        <[u8]>::split_at(self, mid)
    }
}

impl<'a> IntoByteSlice<'a> for &'a [u8] {
    fn into_byte_slice(self) -> (r: &'a [u8]) {
        self
    }
}

impl<'a> ByteSlice for &'a mut [u8] {
    open spec fn spec_bytes(&self) -> Seq<u8> {
        (**self)@
    }

    fn as_bytes(&self) -> (r: &[u8]) {
        &**self
    }
}

impl<'a> ByteSliceMut for &'a mut [u8] {
    fn as_bytes_mut(&mut self) -> (r: &mut [u8]) {
        &mut **self
    }
}

impl<'a> SplitByteSlice for &'a mut [u8] {
    fn split_at(self, mid: usize) -> (r: (Self, Self)) {
        <[u8]>::split_at_mut(self, mid)
    }
}

impl<'a> SplitByteSliceMut for &'a mut [u8] {

}

impl<'a> IntoByteSliceMut<'a> for &'a mut [u8] {
    fn into_byte_slice_mut(self) -> (r: &'a mut [u8]) {
        self
    }
}

/// Splits `slice` at `mid`, or hands it back where `mid` is past its end.
pub fn try_split_at<S: SplitByteSlice>(slice: S, mid: usize) -> (r: Result<(S, S), S>)
    ensures
        mid <= slice.spec_bytes().len() <==> r is Ok,
        r matches Ok((a, b)) ==> a.spec_bytes() == slice.spec_bytes().subrange(0, mid as int)
            && b.spec_bytes() == slice.spec_bytes().subrange(
            mid as int,
            slice.spec_bytes().len() as int,
        ),
        r matches Err(s) ==> s == slice,
{
    if mid <= slice.as_bytes().len() {
        Ok(slice.split_at(mid))
    } else {
        Err(slice)
    }
}

/// Relies on `<[u8]>::as_ptr` and the pointer's address: where a slice
/// begins in memory. The slice does not wrap around the address space.
#[verifier::external_body]
pub(crate) fn address_of(bytes: &[u8]) -> (r: usize)
    ensures
        r + bytes@.len() <= usize::MAX,
{
    bytes.as_ptr().addr()
}

} // verus!
