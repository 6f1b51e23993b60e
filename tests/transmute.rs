use zerocopy::transmute::{transmute, transmute_ref};

#[test]
fn test_transmute_ref() {
    // Memory is reinterpreted as expected.
    let array_of_u8s = [0u8, 1, 2, 3, 4, 5, 6, 7];
    let array_of_arrays = [[0, 1], [2, 3], [4, 5], [6, 7]];
    let x: [[u8; 2]; 4] = transmute_ref(&array_of_u8s);
    assert_eq!(x, array_of_arrays);
    let x: [u8; 8] = transmute_ref(&array_of_arrays);
    assert_eq!(x, array_of_u8s);

    const ARRAY_OF_U8S: [u8; 8] = [0u8, 1, 2, 3, 4, 5, 6, 7];
    const ARRAY_OF_ARRAYS: [[u8; 2]; 4] = [[0, 1], [2, 3], [4, 5], [6, 7]];
    let x_static: [[u8; 2]; 4] = transmute_ref(&ARRAY_OF_U8S);
    assert_eq!(x_static, ARRAY_OF_ARRAYS);

    let x: [u8; 8] = transmute_ref(&x_static);
    assert_eq!(x, ARRAY_OF_U8S);

    // From a more strictly aligned type to a less strictly aligned one.
    let u = 0u64;
    let array = [0, 0, 0, 0, 0, 0, 0, 0];
    let x: [u8; 8] = transmute_ref(&u);
    assert_eq!(x, array);

    // From a mutable reference.
    let mut x = 0u8;
    let y: u8 = transmute_ref(&mut x);
    assert_eq!(y, 0);
}

#[test]
fn test_macros_evaluate_args_once() {
    let mut ctr = 0;
    let _: usize = transmute({
        ctr += 1;
        0usize
    });
    assert_eq!(ctr, 1);

    let mut ctr = 0;
    let _: usize = transmute_ref({
        ctr += 1;
        &0usize
    });
    assert_eq!(ctr, 1);
}

#[test]
fn transmute_reads_little_endian_words() {
    let x: u32 = transmute([0x01u8, 0x02, 0x03, 0x04]);
    assert_eq!(x, 0x0403_0201);
    let y: [u8; 2] = transmute(0xBEEFu16);
    assert_eq!(y, [0xEF, 0xBE]);
    let z: [u16; 2] = transmute(0x1122_3344u32);
    assert_eq!(z, [0x3344, 0x1122]);
}
