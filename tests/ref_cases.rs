use zerocopy::capability::FromBytes;
use zerocopy::typed_ref::Ref;

/// `len` bytes of `storage` starting at an address that is a multiple of 8.
fn aligned(storage: &mut Vec<u8>, len: usize) -> &mut [u8] {
    let base = storage.as_ptr().addr();
    let start = (8 - base % 8) % 8;
    &mut storage[start..start + len]
}

// Values written through a `Ref` show in its bytes, and bytes written show
// in the values read.
fn check_u64_view(mut r: Ref<&mut [u8], u64>) {
    assert_eq!(r.read(), 0);

    const VAL1: u64 = 0xFF00FF00FF00FF00;
    r.write(VAL1);
    assert_eq!(r.bytes(), &VAL1.to_le_bytes());
    r.write(0);
    r.write(VAL1);
    assert_eq!(r.bytes(), &VAL1.to_le_bytes());

    const VAL2: u64 = !VAL1;
    r.bytes_mut().copy_from_slice(&VAL2.to_le_bytes()[..]);
    assert_eq!(r.read(), VAL2);
}

// The same for a view of `typed_len` `u64`s.
fn check_u64_slice_view(mut r: Ref<&mut [u8], [u64]>, typed_len: usize) {
    assert_eq!(r.bytes(), vec![0u8; typed_len * 8].as_slice());
    let untyped_len = typed_len * 8;
    assert_eq!(r.bytes().len(), untyped_len);

    const VAL1: u64 = 0xFF00FF00FF00FF00;
    r.bytes_mut().copy_from_slice(&VAL1.to_le_bytes().repeat(typed_len));
    assert_eq!(r.bytes(), VAL1.to_le_bytes().repeat(typed_len).as_slice());

    const VAL2: u64 = !VAL1;
    r.bytes_mut().copy_from_slice(&VAL2.to_le_bytes().repeat(typed_len));
    assert!(r.bytes().chunks(8).all(|c| u64::read_from(c).ok() == Some(VAL2)));
}

fn check_array_view(mut r: Ref<&mut [u8], [u8; 8]>) {
    assert_eq!(r.read(), [0; 8]);

    const VAL1: [u8; 8] = [0xFF, 0x00, 0xFF, 0x00, 0xFF, 0x00, 0xFF, 0x00];
    r.write(VAL1);
    assert_eq!(r.bytes(), &VAL1);
    r.write([0; 8]);
    r.write(VAL1);
    assert_eq!(r.bytes(), &VAL1);

    const VAL2: [u8; 8] = [0x00, 0xFF, 0x00, 0xFF, 0x00, 0xFF, 0x00, 0xFF];
    r.bytes_mut().copy_from_slice(&VAL2[..]);
    assert_eq!(r.read(), VAL2);
}

fn check_byte_slice_view(mut r: Ref<&mut [u8], [u8]>, len: usize) {
    assert_eq!(r.bytes(), vec![0u8; len].as_slice());
    assert_eq!(r.bytes().len(), len);

    let mut expected_bytes = [0xFF, 0x00].iter().copied().cycle().take(len).collect::<Vec<_>>();
    r.bytes_mut().copy_from_slice(&expected_bytes);
    assert_eq!(r.bytes(), expected_bytes.as_slice());

    for byte in &mut expected_bytes {
        *byte = !*byte;
    }
    r.bytes_mut().copy_from_slice(&expected_bytes);
    assert_eq!(r.bytes(), expected_bytes.as_slice());
}

#[test]
fn test_new_aligned_sized() {
    let mut storage = vec![0u8; 40];
    let buf = aligned(&mut storage, 8);
    check_u64_view(Ref::<_, u64>::from(&mut buf[..]).ok().unwrap());
    {
        buf.fill(0);
        let (r, suffix) = Ref::<_, u64>::from_prefix(&mut buf[..]).ok().unwrap();
        assert!(suffix.is_empty());
        check_u64_view(r);
    }
    {
        buf.fill(0);
        let (prefix, r) = Ref::<_, u64>::from_suffix(&mut buf[..]).ok().unwrap();
        assert!(prefix.is_empty());
        check_u64_view(r);
    }

    // Length 24 rather than 16, so that the prefix and suffix lengths differ.
    let mut storage = vec![0u8; 40];
    let buf = aligned(&mut storage, 24);
    check_u64_slice_view(Ref::<_, [u64]>::from(&mut buf[..]).ok().unwrap(), 3);
    let ascending: Vec<u8> = (0..24).collect();
    let mut ascending_prefix = ascending.clone();
    ascending_prefix[16..].copy_from_slice(&[0, 0, 0, 0, 0, 0, 0, 0]);
    let mut ascending_suffix = ascending.clone();
    ascending_suffix[..8].copy_from_slice(&[0, 0, 0, 0, 0, 0, 0, 0]);

    {
        buf.copy_from_slice(&ascending_suffix);
        let (r, suffix) = Ref::<_, [u64]>::from_prefix_with_elems(&mut buf[..], 1).ok().unwrap();
        assert_eq!(suffix, &ascending[8..]);
        check_u64_slice_view(r, 1);
    }
    {
        buf.copy_from_slice(&ascending_prefix);
        let (prefix, r) = Ref::<_, [u64]>::from_suffix_with_elems(&mut buf[..], 1).ok().unwrap();
        assert_eq!(prefix, &ascending[..16]);
        check_u64_slice_view(r, 1);
    }
}

#[test]
fn test_new_unaligned_sized() {
    let mut buf = [0u8; 8];
    check_array_view(Ref::<_, [u8; 8]>::unaligned_from(&mut buf[..]).ok().unwrap());
    {
        buf = [0u8; 8];
        let (r, suffix) = Ref::<_, [u8; 8]>::unaligned_from_prefix(&mut buf[..]).ok().unwrap();
        assert!(suffix.is_empty());
        check_array_view(r);
    }
    {
        buf = [0u8; 8];
        let (prefix, r) = Ref::<_, [u8; 8]>::unaligned_from_suffix(&mut buf[..]).ok().unwrap();
        assert!(prefix.is_empty());
        check_array_view(r);
    }

    let mut buf = [0u8; 16];
    check_byte_slice_view(Ref::<_, [u8]>::unaligned_from(&mut buf[..]).ok().unwrap(), 16);

    {
        buf = [0u8; 16];
        let (r, suffix) =
            Ref::<_, [u8]>::unaligned_from_prefix_with_elems(&mut buf[..], 8).ok().unwrap();
        assert_eq!(suffix, [0; 8]);
        check_byte_slice_view(r, 8);
    }
    {
        buf = [0u8; 16];
        let (prefix, r) =
            Ref::<_, [u8]>::unaligned_from_suffix_with_elems(&mut buf[..], 8).ok().unwrap();
        assert_eq!(prefix, [0; 8]);
        check_byte_slice_view(r, 8);
    }
}

#[test]
fn test_new_oversized() {
    let mut storage = vec![0u8; 40];
    let buf = aligned(&mut storage, 16);
    {
        let (r, suffix) = Ref::<_, u64>::from_prefix(&mut buf[..]).ok().unwrap();
        assert_eq!(suffix.len(), 8);
        check_u64_view(r);
    }
    {
        buf.fill(0);
        let (prefix, r) = Ref::<_, u64>::from_suffix(&mut buf[..]).ok().unwrap();
        assert_eq!(prefix.len(), 8);
        check_u64_view(r);
    }
}

#[test]
fn test_new_unaligned_oversized() {
    let mut buf = [0u8; 16];
    {
        let (r, suffix) = Ref::<_, [u8; 8]>::unaligned_from_prefix(&mut buf[..]).ok().unwrap();
        assert_eq!(suffix.len(), 8);
        check_array_view(r);
    }
    {
        buf = [0u8; 16];
        let (prefix, r) = Ref::<_, [u8; 8]>::unaligned_from_suffix(&mut buf[..]).ok().unwrap();
        assert_eq!(prefix.len(), 8);
        check_array_view(r);
    }
}

#[test]
fn test_ref_from_mut_from() {
    let mut storage = vec![0u8; 40];
    let buf = aligned(&mut storage, 16);
    buf.copy_from_slice(&[0, 1, 2, 3, 4, 5, 6, 7, 8, 9, 10, 11, 12, 13, 14, 15]);

    assert_eq!(
        u64::ref_from(&buf[8..]).ok().unwrap().read().to_le_bytes(),
        [8, 9, 10, 11, 12, 13, 14, 15]
    );
    let mut suffix = u64::mut_from(&mut buf[8..]).ok().unwrap();
    suffix.write(0x0101010101010101);
    // A size that is not half the buffer catches a prefix cast that behaves
    // as a suffix cast.
    let (prefix, v) = <[u8; 9]>::ref_from_suffix(&buf[..]).ok().unwrap();
    assert_eq!((prefix, v.read()), (&[0, 1, 2, 3, 4, 5, 6][..], [7u8, 1, 1, 1, 1, 1, 1, 1, 1]));
    let (prefix, mut suffix) = u64::mut_from_suffix(&mut buf[1..]).ok().unwrap();
    assert_eq!(prefix, &mut [1u8, 2, 3, 4, 5, 6, 7][..]);
    suffix.write(0x0202020202020202);
    let (prefix, mut suffix) = <[u8; 10]>::mut_from_suffix(&mut buf[..]).ok().unwrap();
    assert_eq!(prefix, &mut [0u8, 1, 2, 3, 4, 5][..]);
    suffix.bytes_mut()[0] = 42;
    let (v, rest) = <[u8; 9]>::ref_from_prefix(&buf[..]).ok().unwrap();
    assert_eq!((v.read(), rest), ([0u8, 1, 2, 3, 4, 5, 42, 7, 2], &[2u8, 2, 2, 2, 2, 2, 2][..]));
    <[u8; 2]>::mut_from_prefix(&mut buf[..]).ok().unwrap().0.bytes_mut()[1] = 30;
    assert_eq!(buf, [0, 30, 2, 3, 4, 5, 42, 7, 2, 2, 2, 2, 2, 2, 2, 2]);
}

#[test]
fn test_new_error() {
    // Fail because the buffer is too large.
    let mut storage = vec![0u8; 40];
    let buf = aligned(&mut storage, 16);
    assert!(Ref::<_, u64>::from(&buf[..]).is_err());
    assert!(Ref::<_, [u8; 8]>::unaligned_from(&buf[..]).is_err());

    // Fail because the buffer is too small.
    let mut storage = vec![0u8; 40];
    let buf = aligned(&mut storage, 4);
    assert!(Ref::<_, u64>::from(&buf[..]).is_err());
    assert!(Ref::<_, [u8; 8]>::unaligned_from(&buf[..]).is_err());
    assert!(Ref::<_, u64>::from_prefix(&buf[..]).is_err());
    assert!(Ref::<_, u64>::from_suffix(&buf[..]).is_err());
    assert!(Ref::<_, [u8; 8]>::unaligned_from_prefix(&buf[..]).is_err());
    assert!(Ref::<_, [u8; 8]>::unaligned_from_suffix(&buf[..]).is_err());

    // Fail because the length is not a multiple of the element size.
    let mut storage = vec![0u8; 40];
    let buf = aligned(&mut storage, 12);
    assert!(Ref::<_, [u64]>::from(&buf[..]).is_err());
    assert!(Ref::<_, [[u8; 8]]>::unaligned_from(&buf[..]).is_err());

    // Fail because the buffer is too short for two elements.
    assert!(Ref::<_, [u64]>::from_prefix_with_elems(&buf[..], 2).is_err());
    assert!(Ref::<_, [u64]>::from_suffix_with_elems(&buf[..], 2).is_err());
    assert!(Ref::<_, [[u8; 8]]>::unaligned_from_prefix_with_elems(&buf[..], 2).is_err());
    assert!(Ref::<_, [[u8; 8]]>::unaligned_from_suffix_with_elems(&buf[..], 2).is_err());

    // Fail because the alignment is insufficient: from 1 on, 12 bytes remain
    // (enough for the length check) at an address that is odd.
    let mut storage = vec![0u8; 40];
    let buf = aligned(&mut storage, 13);
    assert!(Ref::<_, u64>::from(&buf[1..]).is_err());
    assert!(Ref::<_, u64>::from_prefix(&buf[1..]).is_err());
    assert!(Ref::<_, [u64]>::from(&buf[1..]).is_err());
    assert!(Ref::<_, [u64]>::from_prefix_with_elems(&buf[1..], 1).is_err());
    assert!(Ref::<_, [u64]>::from_suffix_with_elems(&buf[1..], 1).is_err());
    // The suffix of the whole buffer begins at an odd address.
    assert!(Ref::<_, u64>::from_suffix(&buf[..]).is_err());

    // Fail on arithmetic overflow.
    let mut storage = vec![0u8; 40];
    let buf = aligned(&mut storage, 16);
    let unreasonable_len = usize::MAX / core::mem::size_of::<u64>() + 1;
    assert!(Ref::<_, [u64]>::from_prefix_with_elems(&buf[..], unreasonable_len).is_err());
    assert!(Ref::<_, [u64]>::from_suffix_with_elems(&buf[..], unreasonable_len).is_err());
    assert!(Ref::<_, [[u8; 8]]>::unaligned_from_prefix_with_elems(&buf[..], unreasonable_len)
        .is_err());
    assert!(Ref::<_, [[u8; 8]]>::unaligned_from_suffix_with_elems(&buf[..], unreasonable_len)
        .is_err());
}

#[test]
fn test_ref_from_mut_from_error() {
    // Fail because the buffer is too large.
    let mut storage = vec![0u8; 40];
    let buf = aligned(&mut storage, 16);
    assert!(u64::ref_from(&buf[..]).is_err());
    assert!(u64::mut_from(&mut buf[..]).is_err());
    assert!(<[u8; 8]>::ref_from(&buf[..]).is_err());
    assert!(<[u8; 8]>::mut_from(&mut buf[..]).is_err());

    // Fail because the buffer is too small.
    let mut storage = vec![0u8; 40];
    let buf = aligned(&mut storage, 4);
    assert!(u64::ref_from(&buf[..]).is_err());
    assert!(u64::mut_from(&mut buf[..]).is_err());
    assert!(<[u8; 8]>::ref_from(&buf[..]).is_err());
    assert!(<[u8; 8]>::mut_from(&mut buf[..]).is_err());
    assert!(u64::ref_from_prefix(&buf[..]).is_err());
    assert!(u64::mut_from_prefix(&mut buf[..]).is_err());
    assert!(u64::ref_from_suffix(&buf[..]).is_err());
    assert!(u64::mut_from_suffix(&mut buf[..]).is_err());
    assert!(<[u8; 8]>::ref_from_prefix(&buf[..]).is_err());
    assert!(<[u8; 8]>::mut_from_prefix(&mut buf[..]).is_err());
    assert!(<[u8; 8]>::ref_from_suffix(&buf[..]).is_err());
    assert!(<[u8; 8]>::mut_from_suffix(&mut buf[..]).is_err());

    // Fail because the alignment is insufficient.
    let mut storage = vec![0u8; 40];
    let buf = aligned(&mut storage, 13);
    assert!(u64::ref_from(&buf[1..]).is_err());
    assert!(u64::mut_from(&mut buf[1..]).is_err());
    assert!(u64::ref_from(&buf[1..]).is_err());
    assert!(u64::mut_from(&mut buf[1..]).is_err());
    assert!(u64::ref_from_prefix(&buf[1..]).is_err());
    assert!(u64::mut_from_prefix(&mut buf[1..]).is_err());
    assert!(u64::ref_from_suffix(&buf[..]).is_err());
    assert!(u64::mut_from_suffix(&mut buf[..]).is_err());
}
