use crate::capability::{
    spec_size, zeros, FromBytes, FromZeros, Immutable, IntoBytes, TryFromBytes, Unaligned,
};
use crate::known_layout::{size_of_sized, KnownLayout};
use crate::layout::{DstLayout, SizeInfo};
use vstd::prelude::*;

verus! {

broadcast use vstd::array::group_array_axioms;

/// `n` elements of `T` fit in `usize` bytes.
pub open spec fn array_fits<T: KnownLayout>(n: int) -> bool {
    spec_size::<T>() * n <= usize::MAX
}

/// The layout of `[T; n]`: the element's alignment and `n` times its size
/// (0 for an array too large to exist).
pub open spec fn spec_array_layout<T: KnownLayout>(n: int) -> DstLayout {
    DstLayout {
        align: T::spec_layout().align,
        size_info: SizeInfo::Sized {
            size: if array_fits::<T>(n) {
                (spec_size::<T>() * n) as usize
            } else {
                0
            },
        },
    }
}

/// The bytes of element `j` of an array of `T` whose bytes are `bytes`:
/// `spec_size::<T>()` bytes at `j` times that size, or zeros for an array
/// too large to exist.
pub open spec fn elem_bytes<T: KnownLayout>(bytes: Seq<u8>, j: int, n: int) -> Seq<u8> {
    let s = spec_size::<T>();
    if array_fits::<T>(n) {
        bytes.subrange(j * s, j * s + s)
    } else {
        zeros(s)
    }
}

/// Each element of `a` is the value its element bytes of `bytes` form.
pub open spec fn reads_as<T: TryFromBytes, const N: usize>(a: [T; N], bytes: Seq<u8>) -> bool {
    forall|j: int|
        0 <= j < N ==> #[trigger] a@[j] == T::spec_from_bytes(elem_bytes::<T>(bytes, j, N as int))
}

impl<T: TryFromBytes, const N: usize> KnownLayout for [T; N] {
    type PointerMetadata = ();

    open spec fn spec_layout() -> DstLayout {
        spec_array_layout::<T>(N as int)
    }

    fn layout() -> (r: DstLayout) {
        proof {
            T::lemma_sized();
        }
        let elem = T::layout();
        let s = size_of_sized(elem);
        let size: usize = match s.checked_mul(N) {
            Some(size) => size,
            None => 0,
        };
        proof {
            crate::layout::lemma_pow2_positive(elem.align as int);
            let a = elem.align as int;
            vstd::arithmetic::div_mod::lemma_fundamental_div_mod(s as int, a);
            assert(s * N == a * ((s as int / a) * N)) by (nonlinear_arith)
                requires
                    s == a * (s as int / a),
            ;
            vstd::arithmetic::div_mod::lemma_mod_multiples_basic((s as int / a) * N, a);
            assert(a * ((s as int / a) * N) == ((s as int / a) * N) * a) by (nonlinear_arith);
            vstd::arithmetic::div_mod::lemma_small_mod(0, a as nat);
        }
        DstLayout { align: elem.align, size_info: SizeInfo::Sized { size } }
    }
}

impl<T: Immutable, const N: usize> Immutable for [T; N] {

}

impl<T: Unaligned + TryFromBytes, const N: usize> Unaligned for [T; N] {
    proof fn lemma_align_one() {
        T::lemma_align_one();
    }
}

impl<T: FromZeros + Copy, const N: usize> TryFromBytes for [T; N] {
    /// The bytes of every element form a value of the element type.
    open spec fn spec_is_bit_valid(bytes: Seq<u8>) -> bool {
        forall|j: int|
            0 <= j < N ==> #[trigger] T::spec_is_bit_valid(elem_bytes::<T>(bytes, j, N as int))
    }

    /// Element `j` is read from the element-sized bytes at `j` times the
    /// element size.
    open spec fn spec_from_bytes(bytes: Seq<u8>) -> [T; N] {
        choose|a: [T; N]| #[trigger] reads_as(a, bytes)
    }

    proof fn lemma_sized() {
    }

    fn is_bit_valid(candidate: &[u8]) -> (r: bool) {
        proof {
            T::lemma_sized();
        }
        let s = size_of_sized(T::layout());
        if s.checked_mul(N).is_none() {
            proof {
                T::lemma_zeros_valid();
            }
            return true;
        }
        let mut j: usize = 0;
        while j < N
            invariant
                0 <= j <= N,
                s == spec_size::<T>(),
                array_fits::<T>(N as int),
                candidate@.len() == spec_size::<T>() * N,
                forall|i: int|
                    0 <= i < j ==> #[trigger] T::spec_is_bit_valid(
                        elem_bytes::<T>(candidate@, i, N as int),
                    ),
            decreases N - j,
        {
            assert(j * s + s <= s * N) by (nonlinear_arith)
                requires
                    j < N,
                    s >= 0,
            ;
            let lo: usize = j * s;
            let piece = &candidate[lo..lo + s];
            assert(piece@ =~= elem_bytes::<T>(candidate@, j as int, N as int));
            if !T::is_bit_valid(piece) {
                return false;
            }
            j += 1;
        }
        true
    }

    fn read_valid(bytes: &[u8]) -> (r: [T; N]) {
        proof {
            T::lemma_sized();
            T::lemma_zeros_valid();
        }
        let s = size_of_sized(T::layout());
        let zero = T::new_zeroed();
        let mut a: [T; N] = [zero; N];
        let fits = s.checked_mul(N).is_some();
        if fits {
            let mut j: usize = 0;
            while j < N
                invariant
                    0 <= j <= N,
                    s == spec_size::<T>(),
                    array_fits::<T>(N as int),
                    bytes@.len() == spec_size::<T>() * N,
                    Self::spec_is_bit_valid(bytes@),
                    forall|i: int|
                        0 <= i < j ==> #[trigger] a@[i] == T::spec_from_bytes(
                            elem_bytes::<T>(bytes@, i, N as int),
                        ),
                decreases N - j,
            {
                assert(j * s + s <= s * N) by (nonlinear_arith)
                    requires
                        j < N,
                        s >= 0,
                ;
                let lo: usize = j * s;
                let piece = &bytes[lo..lo + s];
                assert(piece@ =~= elem_bytes::<T>(bytes@, j as int, N as int));
                a[j] = T::read_valid(piece);
                j += 1;
            }
        }
        proof {
            assert(reads_as(a, bytes@));
            let c = Self::spec_from_bytes(bytes@);
            assert(c@ =~= a@);
            assert(c =~= a);
        }
        a
    }
}

impl<T: FromZeros + Copy, const N: usize> FromZeros for [T; N] {
    proof fn lemma_zeros_valid() {
        T::lemma_sized();
        T::lemma_zeros_valid();
        let s = spec_size::<T>();
        let all = zeros(spec_size::<Self>());
        assert forall|j: int| 0 <= j < N implies #[trigger] T::spec_is_bit_valid(
            elem_bytes::<T>(all, j, N as int),
        ) by {
            if array_fits::<T>(N as int) {
                assert(j * s + s <= s * N) by (nonlinear_arith)
                    requires
                        j < N,
                        s >= 0,
                ;
                assert(j * s >= 0) by (nonlinear_arith)
                    requires
                        j >= 0,
                        s >= 0,
                ;
                assert(elem_bytes::<T>(all, j, N as int) =~= zeros(s));
            }
        }
    }
}

impl<T: FromBytes + Copy, const N: usize> FromBytes for [T; N] {
    proof fn lemma_all_valid(bytes: Seq<u8>) {
        T::lemma_sized();
        let s = spec_size::<T>();
        assert forall|j: int| 0 <= j < N implies #[trigger] T::spec_is_bit_valid(
            elem_bytes::<T>(bytes, j, N as int),
        ) by {
            if array_fits::<T>(N as int) {
                assert(j * s + s <= s * N) by (nonlinear_arith)
                    requires
                        j < N,
                        s >= 0,
                ;
                assert(j * s >= 0) by (nonlinear_arith)
                    requires
                        j >= 0,
                        s >= 0,
                ;
                T::lemma_all_valid(elem_bytes::<T>(bytes, j, N as int));
            } else {
                T::lemma_zeros_valid();
            }
        }
    }
}

/// The bytes of an array of `T`: the bytes of each element in turn.
pub open spec fn array_image<T: IntoBytes, const N: usize>(a: [T; N]) -> Seq<u8> {
    let s = spec_size::<T>();
    Seq::new((s * N) as nat, |k: int| a@[k / s].spec_to_bytes()[k % s])
}

/// Byte `j * s + i` of an array's bytes is byte `i` of element `j`.
proof fn lemma_image_at<T: IntoBytes, const N: usize>(a: [T; N], j: int, i: int)
    requires
        0 <= j < N,
        0 <= i < spec_size::<T>(),
    ensures
        j * spec_size::<T>() + i < spec_size::<T>() * N,
        array_image(a)[j * spec_size::<T>() + i] == a@[j].spec_to_bytes()[i],
{
    let s = spec_size::<T>();
    vstd::arithmetic::div_mod::lemma_fundamental_div_mod_converse(j * s + i, s, j, i);
    assert(j * s + s <= s * N) by (nonlinear_arith)
        requires
            j < N,
            s >= 0,
    ;
}

/// The element bytes of element `j` of an array's bytes are the bytes of
/// element `j`.
proof fn lemma_elem_image<T: IntoBytes, const N: usize>(a: [T; N], j: int)
    requires
        0 <= j < N,
        array_fits::<T>(N as int),
        T::image_fits(),
    ensures
        elem_bytes::<T>(array_image(a), j, N as int) == a@[j].spec_to_bytes(),
{
    T::lemma_round_trip(a@[j]);
    let s = spec_size::<T>();
    assert(j * s + s <= s * N) by (nonlinear_arith)
        requires
            j < N,
            s >= 0,
    ;
    assert(j * s >= 0) by (nonlinear_arith)
        requires
            j >= 0,
            s >= 0,
    ;
    assert forall|i: int| 0 <= i < s implies #[trigger] array_image(a).subrange(
        j * s,
        j * s + s,
    )[i] == a@[j].spec_to_bytes()[i] by {
        lemma_image_at(a, j, i);
    }
    assert(array_image(a).subrange(j * s, j * s + s) =~= a@[j].spec_to_bytes());
}

impl<T: FromZeros + IntoBytes + Copy, const N: usize> IntoBytes for [T; N] {
    open spec fn spec_to_bytes(&self) -> Seq<u8> {
        array_image(*self)
    }

    open spec fn image_fits() -> bool {
        array_fits::<T>(N as int) && T::image_fits()
    }

    proof fn lemma_round_trip(v: [T; N]) {
        T::lemma_sized();
        let image = array_image(v);
        assert forall|j: int| 0 <= j < N implies #[trigger] T::spec_is_bit_valid(
            elem_bytes::<T>(image, j, N as int),
        ) by {
            lemma_elem_image(v, j);
            T::lemma_round_trip(v@[j]);
        }
        assert forall|j: int| 0 <= j < N implies #[trigger] v@[j] == T::spec_from_bytes(
            elem_bytes::<T>(image, j, N as int),
        ) by {
            lemma_elem_image(v, j);
            T::lemma_round_trip(v@[j]);
        }
        assert(reads_as(v, image));
        let c = Self::spec_from_bytes(image);
        assert(c@ =~= v@);
        assert(c =~= v);
    }

    fn write_bytes(&self, out: &mut [u8]) {
        proof {
            T::lemma_sized();
        }
        let s = size_of_sized(T::layout());
        let mut j: usize = 0;
        while j < N
            invariant
                0 <= j <= N,
                s == spec_size::<T>(),
                array_fits::<T>(N as int),
                T::image_fits(),
                out@.len() == s * N,
                forall|k: int| 0 <= k < j * s ==> #[trigger] out@[k] == array_image(*self)[k],
            decreases N - j,
        {
            let mut chunk: Vec<u8> = vec![0u8; s];
            self[j].write_bytes(chunk.as_mut_slice());
            proof {
                T::lemma_round_trip(self@[j as int]);
            }
            assert(j * s + s <= s * N) by (nonlinear_arith)
                requires
                    j < N,
                    s >= 0,
            ;
            let mut i: usize = 0;
            while i < s
                invariant
                    0 <= i <= s,
                    0 <= j < N,
                    j * s + s <= s * N,
                    s == spec_size::<T>(),
                    array_fits::<T>(N as int),
                    out@.len() == s * N,
                    chunk@ == self@[j as int].spec_to_bytes(),
                    chunk@.len() == s,
                    forall|k: int|
                        0 <= k < j * s + i ==> #[trigger] out@[k] == array_image(*self)[k],
                decreases s - i,
            {
                proof {
                    lemma_image_at(*self, j as int, i as int);
                }
                out[j * s + i] = chunk[i];
                i += 1;
            }
            assert((j + 1) * s == j * s + s) by (nonlinear_arith);
            j += 1;
        }
        assert(N * s == s * N) by (nonlinear_arith);
        assert(out@ =~= array_image(*self));
    }
}

} // verus!
