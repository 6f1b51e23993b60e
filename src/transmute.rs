use crate::capability::{spec_size, FromBytes, IntoBytes};
use crate::known_layout::{size_of_sized, KnownLayout};
use vstd::prelude::*;

verus! {

/// Reads the bytes of `src` as a value of `Dst`, a type of the same size
/// every byte pattern of which is a value.
pub fn transmute<Src: IntoBytes, Dst: FromBytes>(src: Src) -> (r: Dst)
    requires
        Src::image_fits(),
        spec_size::<Src>() == spec_size::<Dst>(),
    ensures
        r == Dst::spec_from_bytes(src.spec_to_bytes()),
{
    transmute_ref(&src)
}

/// Reads the bytes of `*src` as a value of `Dst`, a type of the same size
/// every byte pattern of which is a value. The bytes are copied.
pub fn transmute_ref<Src: IntoBytes, Dst: FromBytes>(src: &Src) -> (r: Dst)
    requires
        Src::image_fits(),
        spec_size::<Src>() == spec_size::<Dst>(),
    ensures
        r == Dst::spec_from_bytes(src.spec_to_bytes()),
{
    proof {
        Src::lemma_sized();
        Dst::lemma_sized();
    }
    let size = size_of_sized(Src::layout());
    let mut buf: Vec<u8> = vec![0u8; size];
    src.write_bytes(buf.as_mut_slice());
    proof {
        Src::lemma_round_trip(*src);
        Dst::lemma_all_valid(buf@);
    }
    Dst::read_valid(buf.as_slice())
}

} // verus!
