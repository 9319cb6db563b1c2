use psxember_core::encoders::{
    dchar_blocks_utf8, str_to_ascii_buf, BigEndian, ByteConst, DChar, DCharBuf, Encode, Fill, FillConst, LabelSpan,
    LittleEndian, PaddedConst, StrToAsciiError,
};

fn encoded<T: Encode>(value: &T) -> Vec<u8> {
    let mut out = Vec::new();
    value.encode(&mut out);
    out
}

#[test]
#[should_panic]
fn invalid_dchar() {
    DChar::new(b'a').unwrap();
}

#[test]
fn dchar_buffer() {
    let buffer = "HELLOWORLD_1".as_bytes();
    assert!(DCharBuf::new(buffer, buffer.len()).is_ok());
    let buffer = "HELLO_world_1".as_bytes();
    assert!(DCharBuf::new(buffer, buffer.len()).is_err())
}

#[test]
#[should_panic]
fn dchar_buffer_error() {
    let buffer = "HELLO_world_1".as_bytes();
    DCharBuf::new(buffer, buffer.len()).unwrap();
}

#[test]
fn dchar_accepts_digits_letters_underscore() {
    for b in [b'0', b'9', b'A', b'Z', b'_'] {
        assert!(DChar::new(b).is_ok());
    }
    for b in [b'a', b' ', b'.', b'/', b':', b'@', b'[', b'`', 0xc3] {
        assert!(DChar::new(b).is_err());
    }
}

#[test]
fn dchar_error_names_the_byte() {
    let err = DChar::new(b'a').unwrap_err();
    assert_eq!(err.src().as_str(), "a");
    assert_eq!(err.char_label(), LabelSpan { offset: 0, len: 1 });
}

#[test]
fn dchar_buffer_error_in_full_block() {
    let buffer = "HELLO_world_1".as_bytes();
    let err = DCharBuf::new(buffer, buffer.len()).unwrap_err();
    // the first bad byte, `w`, lies in the first block of eight
    assert_eq!(err.src().as_str(), "HELLO_wo");
    assert_eq!(err.char_label(), LabelSpan { offset: 6, len: 1 });
}

#[test]
fn dchar_buffer_error_in_remainder() {
    let buffer = "ABCDEFGH_x".as_bytes();
    let err = DCharBuf::new(buffer, buffer.len()).unwrap_err();
    assert_eq!(err.src().as_str(), "x");
    assert_eq!(err.char_label(), LabelSpan { offset: 0, len: 1 });
}

#[test]
fn dchar_buffer_checks_only_len_bytes() {
    let buffer = "AB cd".as_bytes();
    let buf = DCharBuf::new(buffer, 2).unwrap();
    assert_eq!(encoded(&buf), b"AB   ".to_vec());
    // a length past the end is cut to the buffer
    assert!(DCharBuf::new(buffer, 100).is_err());
    let owned: Vec<u8> = b"XY_1".to_vec();
    let buf = DCharBuf::new(owned, 10).unwrap();
    assert_eq!(encoded(&buf), b"XY_1".to_vec());
    let arr: [u8; 3] = *b"Q9_";
    let buf = DCharBuf::new(arr, 1).unwrap();
    assert_eq!(encoded(&buf), b"Q  ".to_vec());
}

#[test]
fn str_to_ascii_buf_pads_and_cuts() {
    let buf: [u8; 4] = str_to_ascii_buf("ab").unwrap();
    assert_eq!(buf, [b'a', b'b', 0, 0]);
    let buf: [u8; 4] = str_to_ascii_buf("abcdef").unwrap();
    assert_eq!(buf, *b"abcd");
    let buf: [u8; 0] = str_to_ascii_buf("abc").unwrap();
    assert_eq!(buf, []);
}

#[test]
fn str_to_ascii_buf_rejects_non_ascii() {
    match str_to_ascii_buf::<4>("dé") {
        Err(StrToAsciiError::NotAscii(s)) => assert_eq!(s, "dé"),
        Ok(_) => panic!("non-ASCII text was accepted"),
    }
}

#[test]
fn primitives_are_little_endian() {
    assert_eq!(encoded(&0x12u8), vec![0x12]);
    assert_eq!(encoded(&0x1234u16), vec![0x34, 0x12]);
    assert_eq!(encoded(&0x12345678u32), vec![0x78, 0x56, 0x34, 0x12]);
    assert_eq!(
        encoded(&0x0102030405060708u64),
        vec![8, 7, 6, 5, 4, 3, 2, 1]
    );
    let expected: Vec<u8> = 0x0102usize.to_le_bytes().to_vec();
    assert_eq!(encoded(&0x0102usize), expected);
}

#[test]
fn endian_wrappers() {
    assert_eq!(BigEndian(0x12345678u32).to_bytes(), [0x12, 0x34, 0x56, 0x78]);
    assert_eq!(LittleEndian(0x12345678u32).to_bytes(), [0x78, 0x56, 0x34, 0x12]);
    assert_eq!(BigEndian(0x1234u16).to_bytes(), [0x12, 0x34]);
    assert_eq!(LittleEndian(0x1234u16).to_bytes(), [0x34, 0x12]);
    assert_eq!(BigEndian(0xabu8).to_bytes(), [0xab]);
    assert_eq!(LittleEndian(0xabu8).to_bytes(), [0xab]);
    assert_eq!(
        BigEndian(0x0102030405060708u64).to_bytes(),
        [1, 2, 3, 4, 5, 6, 7, 8]
    );
    assert_eq!(
        LittleEndian(0x0102030405060708u64).to_bytes(),
        [8, 7, 6, 5, 4, 3, 2, 1]
    );
    assert_eq!(encoded(&BigEndian(0xbeefu16)), vec![0xbe, 0xef]);
    assert_eq!(encoded(&LittleEndian(0xbeefu16)), vec![0xef, 0xbe]);
    let le: LittleEndian<u32> = 7u32.into();
    assert_eq!(le.0, 7);
    let be: BigEndian<u32> = 7u32.into();
    assert_eq!(encoded(&be), vec![0, 0, 0, 7]);
}

#[test]
fn strings_slices_arrays_and_unit() {
    assert_eq!(encoded(&"CD001"), b"CD001".to_vec());
    let bytes: &[u8] = &[1, 2, 3];
    assert_eq!(encoded(&bytes), vec![1, 2, 3]);
    assert_eq!(encoded(&[0x0102u16, 0x0304u16]), vec![2, 1, 4, 3]);
    assert_eq!(encoded(&()), Vec::<u8>::new());
}

#[test]
fn fill_repeats_its_pattern() {
    assert_eq!(encoded(&Fill::new(5, &[1, 2])), vec![1, 2, 1, 2, 1]);
    assert_eq!(encoded(&Fill::zero(3)), vec![0, 0, 0]);
    assert_eq!(encoded(&Fill::new(0, &[])), Vec::<u8>::new());
    assert_eq!(encoded(&Fill::new(2, &[7, 8, 9])), vec![7, 8]);
}

#[test]
fn constant_fills() {
    assert_eq!(encoded(&FillConst::<7, 3>), vec![7, 7, 7]);
    assert_eq!(encoded(&ByteConst::<9>), vec![9]);
    assert_eq!(encoded(&FillConst::<7, 3>::default()), vec![7, 7, 7]);
}

#[test]
fn padded_const_pads_with_zeros() {
    let padded = PaddedConst::new::<5>([1u8, 2]);
    assert_eq!(encoded(&padded), vec![1, 2, 0, 0, 0]);
    let exact = PaddedConst::new::<2>([1u8, 2]);
    assert_eq!(encoded(&exact), vec![1, 2]);
    // a string reports its size in memory, so it is followed by as many
    // zeros as 40 exceeds that size
    let text = PaddedConst::new::<40>("XA");
    let mut expected = vec![b'X', b'A'];
    expected.extend(std::iter::repeat(0).take(40 - std::mem::size_of::<&str>()));
    assert_eq!(encoded(&text), expected);
    assert_eq!(text.size(), 40);
}

#[test]
fn sizes_follow_each_kind() {
    assert_eq!(0x12u8.size(), 1);
    assert_eq!(0x1234u16.size(), 2);
    assert_eq!(0x12345678u32.size(), 4);
    assert_eq!(0x0102030405060708u64.size(), 8);
    assert_eq!(7usize.size(), std::mem::size_of::<usize>());
    assert_eq!(BigEndian(0xbeefu16).size(), 2);
    assert_eq!(LittleEndian(0xbeefu32).size(), 4);
    assert_eq!(Fill::new(5, &[1, 2]).size(), 5);
    assert_eq!(FillConst::<7, 3>.size(), 3);
    assert_eq!(ByteConst::<9>.size(), 1);
    assert_eq!(PaddedConst::new::<5>([1u8, 2]).size(), 5);
    assert_eq!(().size(), 0);
    // the others report their size in memory
    assert_eq!([0x0102u16, 0x0304u16].size(), 4);
    assert_eq!("CD001".size(), std::mem::size_of::<&str>());
    let bytes: &[u8] = &[1, 2, 3];
    assert_eq!(bytes.size(), std::mem::size_of::<&[u8]>());
    let buffer = "HELLO".as_bytes();
    let buf = DCharBuf::new(buffer, buffer.len()).unwrap();
    assert_eq!(buf.size(), std::mem::size_of_val(&buf));
}

#[test]
fn dchar_blocks_utf8_tells_when_new_can_be_called() {
    let text = "HELLO_world_1".as_bytes();
    assert!(dchar_blocks_utf8(text, text.len()));
    assert!(dchar_blocks_utf8(b"ABC", 3));
    let bad = [0xffu8; 8];
    assert!(!dchar_blocks_utf8(&bad, 8));
    // the bad byte is not in a full block of eight: no text is decoded
    assert!(dchar_blocks_utf8(&bad, 7));
    assert!(dchar_blocks_utf8(&bad, 0));
    let mut mixed = b"ABCDEFGH".to_vec();
    mixed.extend_from_slice(&[b'I', 0xc3, 0x28, b'J', b'K', b'L', b'M', b'N']);
    assert!(!dchar_blocks_utf8(&mixed, 16));
    assert!(dchar_blocks_utf8(&mixed, 15));
    let fine = "HELLO_world_1".as_bytes();
    assert!(DCharBuf::new(fine, fine.len()).is_err());
}
