use dmfs::wire::{
    align_to_next_u32, align_to_next_u64, pad_to_u32, pad_to_u64, push_bytes, push_string,
    push_u32, push_u64, read_string, read_u32, read_u64,
};
use dmfs::ByteOrder;

#[test]
fn a_32_bit_number_is_written_least_byte_first() {
    let mut buf = vec![0xAA];
    push_u32(&mut buf, 0xD105C001, ByteOrder::Little);
    assert_eq!(buf, vec![0xAA, 0x01, 0xC0, 0x05, 0xD1]);
}

#[test]
fn a_32_bit_number_is_written_most_byte_first() {
    let mut buf = vec![0xAA];
    push_u32(&mut buf, 0xD105C001, ByteOrder::Big);
    assert_eq!(buf, vec![0xAA, 0xD1, 0x05, 0xC0, 0x01]);
}

#[test]
fn a_64_bit_number_is_written_in_either_order() {
    let mut little = Vec::new();
    push_u64(&mut little, 0x0102030405060708, ByteOrder::Little);
    assert_eq!(little, vec![8, 7, 6, 5, 4, 3, 2, 1]);
    let mut big = Vec::new();
    push_u64(&mut big, 0x0102030405060708, ByteOrder::Big);
    assert_eq!(big, vec![1, 2, 3, 4, 5, 6, 7, 8]);
}

#[test]
fn written_numbers_agree_with_the_standard_library() {
    for value in [0u32, 1, 0xFF, 0x100, 0xD1015D4D, u32::MAX] {
        let mut little = Vec::new();
        push_u32(&mut little, value, ByteOrder::Little);
        assert_eq!(little, value.to_le_bytes().to_vec());
        let mut big = Vec::new();
        push_u32(&mut big, value, ByteOrder::Big);
        assert_eq!(big, value.to_be_bytes().to_vec());
    }
    for value in [0u64, 10, 0xFFFF_FFFF, 0x1_0000_0000, 0xFEDC_BA98_7654_3210, u64::MAX] {
        let mut little = Vec::new();
        push_u64(&mut little, value, ByteOrder::Little);
        assert_eq!(little, value.to_le_bytes().to_vec());
        let mut big = Vec::new();
        push_u64(&mut big, value, ByteOrder::Big);
        assert_eq!(big, value.to_be_bytes().to_vec());
    }
}

#[test]
fn a_number_is_read_as_it_was_written() {
    for order in [ByteOrder::Little, ByteOrder::Big] {
        let mut buf = vec![9, 9, 9];
        push_u32(&mut buf, 0xD1015D4D, order);
        push_u64(&mut buf, 0x0123_4567_89AB_CDEF, order);
        assert_eq!(read_u32(&buf, 3, order), Some(0xD1015D4D));
        assert_eq!(read_u64(&buf, 7, order), Some(0x0123_4567_89AB_CDEF));
    }
}

#[test]
fn the_two_orders_read_different_numbers() {
    let bytes = [0x01, 0x00, 0x00, 0x00];
    assert_eq!(read_u32(&bytes, 0, ByteOrder::Little), Some(1));
    assert_eq!(read_u32(&bytes, 0, ByteOrder::Big), Some(0x0100_0000));
}

#[test]
fn a_read_past_the_end_yields_nothing() {
    let bytes = [1u8, 2, 3, 4, 5, 6, 7, 8];
    assert_eq!(read_u32(&bytes, 4, ByteOrder::Little), Some(0x08070605));
    assert_eq!(read_u32(&bytes, 5, ByteOrder::Little), None);
    assert_eq!(read_u32(&bytes, 8, ByteOrder::Little), None);
    assert_eq!(read_u32(&bytes, usize::MAX, ByteOrder::Little), None);
    assert_eq!(read_u32(&[1, 2, 3], 0, ByteOrder::Big), None);
    assert_eq!(read_u64(&bytes, 0, ByteOrder::Little), Some(0x0807060504030201));
    assert_eq!(read_u64(&bytes, 1, ByteOrder::Little), None);
    assert_eq!(read_u64(&bytes, usize::MAX, ByteOrder::Big), None);
    assert_eq!(read_u64(&[], 0, ByteOrder::Big), None);
}

#[test]
fn a_string_is_written_with_its_closing_zero() {
    let mut buf = vec![1];
    push_string(&mut buf, "init");
    assert_eq!(buf, vec![1, b'i', b'n', b'i', b't', 0]);
    push_string(&mut buf, "");
    assert_eq!(buf, vec![1, b'i', b'n', b'i', b't', 0, 0]);
}

#[test]
fn a_string_beyond_ascii_is_written_as_utf8() {
    let mut buf = Vec::new();
    push_string(&mut buf, "é€😀");
    assert_eq!(buf, vec![0xC3, 0xA9, 0xE2, 0x82, 0xAC, 0xF0, 0x9F, 0x98, 0x80, 0]);
    assert_eq!(read_string(&buf, 0), Some(String::from("é€😀")));
}

#[test]
fn a_string_is_read_up_to_its_closing_zero() {
    let bytes = b"init\0Init service\0";
    assert_eq!(read_string(bytes, 0), Some(String::from("init")));
    assert_eq!(read_string(bytes, 2), Some(String::from("it")));
    assert_eq!(read_string(bytes, 4), Some(String::new()));
    assert_eq!(read_string(bytes, 5), Some(String::from("Init service")));
}

#[test]
fn a_string_without_a_closing_zero_yields_nothing() {
    assert_eq!(read_string(b"init", 0), None);
    assert_eq!(read_string(b"init\0more", 5), None);
    assert_eq!(read_string(b"init\0", 5), None);
    assert_eq!(read_string(b"init\0", usize::MAX), None);
    assert_eq!(read_string(b"", 0), None);
}

#[test]
fn bytes_that_are_not_utf8_yield_no_string() {
    assert_eq!(read_string(&[0xFF, 0xFE, 0x00], 0), None);
    assert_eq!(read_string(&[b'a', 0xC3, 0x00], 0), None);
    assert_eq!(read_string(&[0xED, 0xA0, 0x80, 0x00], 0), None);
}

#[test]
fn bytes_are_appended_as_they_are() {
    let mut buf = vec![1, 2];
    push_bytes(&mut buf, b"Hello");
    assert_eq!(buf, vec![1, 2, b'H', b'e', b'l', b'l', b'o']);
    push_bytes(&mut buf, &[]);
    assert_eq!(buf.len(), 7);
}

#[test]
fn padding_fills_up_to_a_multiple_of_four() {
    for len in 0..9usize {
        let mut buf = vec![7u8; len];
        pad_to_u32(&mut buf);
        let padded = (len + 3) / 4 * 4;
        assert_eq!(buf.len(), padded);
        assert_eq!(&buf[..len], &vec![7u8; len][..]);
        assert_eq!(&buf[len..], &vec![0u8; padded - len][..]);
    }
}

#[test]
fn padding_fills_up_to_a_multiple_of_eight() {
    for len in 0..17usize {
        let mut buf = vec![7u8; len];
        pad_to_u64(&mut buf);
        let padded = (len + 7) / 8 * 8;
        assert_eq!(buf.len(), padded);
        assert_eq!(&buf[..len], &vec![7u8; len][..]);
        assert_eq!(&buf[len..], &vec![0u8; padded - len][..]);
    }
}

#[test]
fn offsets_are_aligned_upwards() {
    assert_eq!(align_to_next_u32(0), Some(0));
    assert_eq!(align_to_next_u32(1), Some(4));
    assert_eq!(align_to_next_u32(4), Some(4));
    assert_eq!(align_to_next_u32(90), Some(92));
    assert_eq!(align_to_next_u64(0), Some(0));
    assert_eq!(align_to_next_u64(1), Some(8));
    assert_eq!(align_to_next_u64(8), Some(8));
    assert_eq!(align_to_next_u64(53), Some(56));
    assert_eq!(align_to_next_u64(106), Some(112));
}

#[test]
fn an_offset_with_no_multiple_above_it_is_not_aligned() {
    let top4 = usize::MAX - 3;
    let top8 = usize::MAX - 7;
    assert_eq!(align_to_next_u32(top4), Some(top4));
    assert_eq!(align_to_next_u32(top4 - 1), Some(top4));
    assert_eq!(align_to_next_u32(top4 + 1), None);
    assert_eq!(align_to_next_u32(usize::MAX), None);
    assert_eq!(align_to_next_u64(top8), Some(top8));
    assert_eq!(align_to_next_u64(top8 + 1), None);
    assert_eq!(align_to_next_u64(usize::MAX), None);
}

#[test]
fn the_bytes_of_one_show_their_order() {
    assert_eq!(ByteOrder::shown_by(&1u32.to_le_bytes()), ByteOrder::Little);
    assert_eq!(ByteOrder::shown_by(&1u32.to_be_bytes()), ByteOrder::Big);
    assert_eq!(ByteOrder::shown_by(&[1, 0, 0, 0]), ByteOrder::Little);
    assert_eq!(ByteOrder::shown_by(&[0, 0, 0, 1]), ByteOrder::Big);
}

#[test]
fn the_order_shown_writes_one_as_the_machine_does() {
    let order = ByteOrder::shown_by(&1u32.to_ne_bytes());
    for value in [1u32, 0xD105C001, u32::MAX - 1] {
        let mut buf = Vec::new();
        push_u32(&mut buf, value, order);
        assert_eq!(buf, value.to_ne_bytes().to_vec());
    }
}
