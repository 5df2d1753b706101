use gpioline::wire::{
    get_name, get_u32, get_u64, put_name, put_u32, put_u32s, put_u64, put_zeros, Endian, NAME_SIZE,
};

#[test]
fn u32_is_written_in_little_endian_order() {
    let mut out = Vec::new();
    put_u32(&mut out, 0x0102_0304, Endian::Little);
    assert_eq!(out, vec![4, 3, 2, 1]);
}

#[test]
fn u32_is_written_in_big_endian_order() {
    let mut out = vec![9];
    put_u32(&mut out, 0x0102_0304, Endian::Big);
    assert_eq!(out, vec![9, 1, 2, 3, 4]);
}

#[test]
fn u64_is_written_in_both_orders() {
    let mut little = Vec::new();
    put_u64(&mut little, 0x0102_0304_0506_0708, Endian::Little);
    assert_eq!(little, vec![8, 7, 6, 5, 4, 3, 2, 1]);
    let mut big = Vec::new();
    put_u64(&mut big, 0x0102_0304_0506_0708, Endian::Big);
    assert_eq!(big, vec![1, 2, 3, 4, 5, 6, 7, 8]);
}

#[test]
fn integers_match_the_byte_order_of_std() {
    for x in [0u32, 1, 255, 256, 65_535, 65_536, 0x7fff_ffff, 0x8000_0000, u32::MAX] {
        let mut little = Vec::new();
        put_u32(&mut little, x, Endian::Little);
        assert_eq!(little, x.to_le_bytes().to_vec());
        let mut big = Vec::new();
        put_u32(&mut big, x, Endian::Big);
        assert_eq!(big, x.to_be_bytes().to_vec());
    }
    for x in [0u64, 1, 0xffff_ffff, 0x1_0000_0000, u64::MAX, 0x8000_0000_0000_0001] {
        let mut little = Vec::new();
        put_u64(&mut little, x, Endian::Little);
        assert_eq!(little, x.to_le_bytes().to_vec());
        let mut big = Vec::new();
        put_u64(&mut big, x, Endian::Big);
        assert_eq!(big, x.to_be_bytes().to_vec());
    }
}

#[test]
fn integers_are_read_where_they_were_written() {
    for e in [Endian::Little, Endian::Big] {
        let mut out = vec![0xaa, 0xbb];
        put_u32(&mut out, 0xdead_beef, e);
        put_u64(&mut out, 0x0123_4567_89ab_cdef, e);
        put_u32(&mut out, 7, e);
        assert_eq!(get_u32(&out, 2, e), 0xdead_beef);
        assert_eq!(get_u64(&out, 6, e), 0x0123_4567_89ab_cdef);
        assert_eq!(get_u32(&out, 14, e), 7);
    }
}

#[test]
fn a_run_of_integers_is_written_one_after_another() {
    let mut out = Vec::new();
    put_u32s(&mut out, &vec![1, 0x0200], Endian::Little);
    assert_eq!(out, vec![1, 0, 0, 0, 0, 2, 0, 0]);
}

#[test]
fn zeros_are_appended() {
    let mut out = vec![1];
    put_zeros(&mut out, 3);
    assert_eq!(out, vec![1, 0, 0, 0]);
    put_zeros(&mut out, 0);
    assert_eq!(out.len(), 4);
}

#[test]
fn a_short_label_is_padded_with_zeros() {
    let mut out = Vec::new();
    put_name(&mut out, b"get");
    assert_eq!(out.len(), NAME_SIZE);
    assert_eq!(&out[..3], b"get");
    assert!(out[3..].iter().all(|b| *b == 0));
    assert_eq!(get_name(&out, 0), b"get".to_vec());
}

#[test]
fn a_long_label_is_cut_to_31_bytes_without_error() {
    let label = b"0123456789012345678901234567890123456789";
    let mut out = Vec::new();
    put_name(&mut out, label);
    assert_eq!(out.len(), 32);
    assert_eq!(&out[..31], &label[..31]);
    assert_eq!(out[31], 0);
    assert_eq!(get_name(&out, 0), label[..31].to_vec());
}

#[test]
fn a_label_of_31_bytes_is_kept_whole() {
    let label = b"0123456789012345678901234567890";
    assert_eq!(label.len(), 31);
    let mut out = Vec::new();
    put_name(&mut out, label);
    assert_eq!(get_name(&out, 0), label.to_vec());
}

#[test]
fn a_field_without_a_zero_byte_is_read_whole() {
    let field = vec![b'x'; 32];
    assert_eq!(get_name(&field, 0), field);
}

#[test]
fn an_empty_field_holds_an_empty_name() {
    let field = vec![0u8; 40];
    assert_eq!(get_name(&field, 8), Vec::<u8>::new());
}
