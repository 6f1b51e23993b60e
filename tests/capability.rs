use zerocopy::capability::{FromBytes, FromZeros, IntoBytes, TryFromBytes};
use zerocopy::error::{TryCastError, TryReadError};

#[test]
fn bool_accepts_only_zero_and_one() {
    assert_eq!(bool::try_read_from(&[1]).ok(), Some(true));
    assert_eq!(bool::try_read_from(&[0]).ok(), Some(false));
    assert!(matches!(bool::try_read_from(&[2]), Err(TryReadError::Validity(_))));
    for b in 2..=255u8 {
        assert!(matches!(bool::try_read_from(&[b]), Err(TryReadError::Validity(_))));
    }
    assert!(matches!(bool::try_read_from(&[1, 0]), Err(TryReadError::Size(_))));
    let bytes = [3u8];
    let e = bool::try_read_from(&bytes).err().unwrap();
    assert_eq!(e.into_src(), &[3u8]);
}

#[test]
fn try_read_from_integers() {
    assert_eq!(u16::try_read_from(&[0x34, 0x12]).ok(), Some(0x1234));
    assert!(matches!(u16::try_read_from(&[0x34]), Err(TryReadError::Size(_))));
}

#[test]
fn read_from_exact_prefix_suffix() {
    let bytes = [1u8, 0, 0, 0, 2, 0];
    assert!(u32::read_from(&bytes).is_err());
    assert_eq!(u32::read_from(&bytes[..4]).ok(), Some(1));
    assert_eq!(u32::read_from_prefix(&bytes).ok(), Some(1));
    assert_eq!(u16::read_from_suffix(&bytes).ok(), Some(2));
    assert!(u64::read_from_prefix(&bytes).is_err());
    match u64::read_from_suffix(&bytes) {
        Err(zerocopy::error::CastError::Size(e)) => assert_eq!(e.into_src(), &bytes[..]),
        _ => panic!("expected a size error"),
    }
}

#[test]
fn write_to_exact_prefix_suffix() {
    let mut bytes = [9u8; 6];
    assert!(0x0102u16.write_to(&mut bytes).is_err());
    assert_eq!(bytes, [9; 6]);
    assert!(0x0102u16.write_to_prefix(&mut bytes).is_ok());
    assert_eq!(bytes, [2, 1, 9, 9, 9, 9]);
    assert!(0x0304u16.write_to_suffix(&mut bytes).is_ok());
    assert_eq!(bytes, [2, 1, 9, 9, 4, 3]);
    assert!(0u64.write_to_prefix(&mut bytes).is_err());
    assert!(0u64.write_to_suffix(&mut bytes).is_err());
    assert_eq!(bytes, [2, 1, 9, 9, 4, 3]);
    let mut four = [0u8; 4];
    assert!(0xA1B2C3D4u32.write_to(&mut four).is_ok());
    assert_eq!(four, [0xD4, 0xC3, 0xB2, 0xA1]);
}

#[test]
fn zeroed_values() {
    assert_eq!(u64::new_zeroed(), 0);
    assert!(!bool::new_zeroed());
    assert_eq!(<[u16; 3]>::new_zeroed(), [0, 0, 0]);
    let mut x = 77u32;
    x.zero();
    assert_eq!(x, 0);
    let mut b = true;
    b.zero();
    assert!(!b);
}

#[test]
fn write_then_read_round_trips() {
    let mut bytes = [0u8; 8];
    for v in [0u64, 1, 0xDEAD_BEEF, u64::MAX] {
        assert!(v.write_to(&mut bytes).is_ok());
        assert_eq!(u64::read_from(&bytes).ok(), Some(v));
    }
    let mut two = [0u8; 2];
    assert!([0x1234u16].write_to(&mut two).is_ok());
    assert_eq!(<[u16; 1]>::read_from(&two).ok(), Some([0x1234]));
    let mut one = [0u8; 1];
    assert!(true.write_to(&mut one).is_ok());
    assert_eq!(bool::try_read_from(&one).ok(), Some(true));
    let mut word = [0u8; core::mem::size_of::<usize>()];
    assert!(12345usize.write_to(&mut word).is_ok());
    assert_eq!(usize::read_from(&word).ok(), Some(12345));
}

#[test]
fn is_bit_valid_of_bool() {
    assert!(bool::is_bit_valid(&[0]));
    assert!(bool::is_bit_valid(&[1]));
    assert!(!bool::is_bit_valid(&[200]));
}

#[test]
fn try_ref_from_checks_size_alignment_then_validity() {
    assert!(matches!(bool::try_ref_from(&[1, 1]), Err(TryCastError::Size(_))));
    assert!(matches!(bool::try_ref_from(&[]), Err(TryCastError::Size(_))));
    assert!(matches!(bool::try_ref_from(&[2]), Err(TryCastError::Validity(_))));
    let v = bool::try_ref_from(&[1]).ok().unwrap();
    assert!(v.read_valid());
    let e = bool::try_ref_from(&[7]).err().unwrap();
    assert_eq!(e.into_src(), &[7u8]);
}

#[test]
fn try_ref_from_prefix_and_suffix() {
    let bytes = [1u8, 0, 2];
    let (v, rest) = bool::try_ref_from_prefix(&bytes).ok().unwrap();
    assert!(v.read_valid());
    assert_eq!(rest, &[0, 2]);
    assert!(matches!(bool::try_ref_from_suffix(&bytes), Err(TryCastError::Validity(_))));
    let (rest, v) = bool::try_ref_from_suffix(&bytes[..2]).ok().unwrap();
    assert!(!v.read_valid());
    assert_eq!(rest, &[1]);
    assert!(matches!(bool::try_ref_from_prefix(&[]), Err(TryCastError::Size(_))));
    assert!(matches!(bool::try_ref_from_suffix(&[]), Err(TryCastError::Size(_))));
    let (v, _) = <[bool; 2]>::try_ref_from_prefix(&bytes).ok().unwrap();
    assert_eq!(v.read_valid(), [true, false]);
}

#[test]
fn try_mut_from_checks_and_hands_back_bytes() {
    let mut bytes = [1u8];
    {
        let mut v = bool::try_mut_from(&mut bytes[..]).ok().unwrap();
        assert!(v.read_valid());
        v.write(false);
    }
    assert_eq!(bytes, [0]);
    let mut bad = [5u8];
    match bool::try_mut_from(&mut bad[..]) {
        Err(TryCastError::Validity(e)) => assert_eq!(e.into_src(), &mut [5u8][..]),
        _ => panic!("expected a validity error"),
    }
    let mut long = [0u8, 0];
    assert!(matches!(bool::try_mut_from(&mut long[..]), Err(TryCastError::Size(_))));
}

#[test]
fn try_mut_from_prefix_and_suffix() {
    let mut bytes = [1u8, 9, 0];
    {
        let (v, rest) = bool::try_mut_from_prefix(&mut bytes[..]).ok().unwrap();
        assert!(v.read_valid());
        rest[0] = 1;
    }
    assert_eq!(bytes, [1, 1, 0]);
    {
        let (rest, mut v) = bool::try_mut_from_suffix(&mut bytes[..]).ok().unwrap();
        assert_eq!(rest, &mut [1u8, 1][..]);
        v.write(true);
    }
    assert_eq!(bytes, [1, 1, 1]);
    let mut bad = [3u8, 0];
    match bool::try_mut_from_prefix(&mut bad[..]) {
        Err(TryCastError::Validity(e)) => assert_eq!(e.into_src().len(), 2),
        _ => panic!("expected a validity error"),
    }
    assert!(matches!(bool::try_mut_from_suffix(&mut [][..]), Err(TryCastError::Size(_))));
}
