use idx::{ByteSource, DynIdxReader, F32Bits, F64Bits, IdxErr, IdxReader, NumericKind, ReadError};
use idx::{Value, ValueExtractor, parse_header};

fn source(bytes: &[u8]) -> ByteSource {
    ByteSource::new(bytes.to_vec())
}

#[test]
fn u8_matrix_two_by_three() {
    let bytes = [0, 0, 0x08, 2, 0, 0, 0, 2, 0, 0, 0, 3, 1, 2, 3, 4, 5, 6];
    let mut rd = IdxReader::<u8>::new(source(&bytes)).unwrap();
    assert_eq!(rd.header().kind(), NumericKind::U8);
    assert_eq!(rd.header().dimensions().clone(), vec![2u32, 3]);
    assert_eq!(rd.element_count(), Some(6));
    assert_eq!(rd.read_all().unwrap(), vec![1u8, 2, 3, 4, 5, 6]);
    assert_eq!(rd.next(), Ok(None));
}

#[test]
fn scalar_without_payload_fails() {
    let bytes = [0, 0, 0x0C, 0];
    let mut rd = IdxReader::<i32>::new(source(&bytes)).unwrap();
    assert_eq!(rd.header().kind(), NumericKind::I32);
    assert!(rd.header().dimensions().is_empty());
    assert_eq!(rd.element_count(), Some(1));
    assert_eq!(rd.next(), Err(IdxErr::IOError(ReadError::UnexpectedEnd)));
    // a failed reader stays failed
    assert_eq!(rd.next(), Err(IdxErr::IOError(ReadError::UnexpectedEnd)));
}

#[test]
fn nonzero_magic_is_wrong_header() {
    let bytes = [1, 0, 0x08, 0];
    assert_eq!(IdxReader::<u8>::new(source(&bytes)).err(), Some(IdxErr::WrongHeader));
    let bytes = [0, 7, 0x08, 0, 1, 2, 3];
    let mut src = source(&bytes);
    assert_eq!(parse_header(&mut src).err(), Some(IdxErr::WrongHeader));
    assert_eq!(src.position(), 4);
}

#[test]
fn unknown_tags_are_refused() {
    for tag in [0x00u8, 0x07, 0x0A, 0x0F, 0xFF] {
        let bytes = [0, 0, tag, 0];
        assert_eq!(DynIdxReader::open(source(&bytes)).err(), Some(IdxErr::UnknownDataType));
    }
}

#[test]
fn every_known_tag_maps_to_its_kind() {
    let table = [
        (0x08u8, NumericKind::U8, 1usize),
        (0x09, NumericKind::I8, 1),
        (0x0B, NumericKind::I16, 2),
        (0x0C, NumericKind::I32, 4),
        (0x0D, NumericKind::F32, 4),
        (0x0E, NumericKind::F64, 8),
    ];
    for (tag, kind, width) in table {
        assert_eq!(NumericKind::from_tag(tag), Some(kind));
        assert_eq!(kind.width(), width);
        let rd = DynIdxReader::open(source(&[0, 0, tag, 0])).unwrap();
        assert_eq!(rd.kind(), kind);
    }
}

#[test]
fn truncated_header_is_io_error() {
    assert_eq!(
        parse_header(&mut source(&[0, 0, 0x08])).err(),
        Some(IdxErr::IOError(ReadError::UnexpectedEnd))
    );
    assert_eq!(parse_header(&mut source(&[])).err(), Some(IdxErr::IOError(ReadError::UnexpectedEnd)));
    // two dimensions declared, one and a half present
    let bytes = [0, 0, 0x08, 2, 0, 0, 0, 1, 0, 0];
    assert_eq!(parse_header(&mut source(&bytes)).err(), Some(IdxErr::IOError(ReadError::UnexpectedEnd)));
}

#[test]
fn dimensions_are_big_endian_and_in_order() {
    let bytes = [0, 0, 0x0E, 3, 0x01, 0x02, 0x03, 0x04, 0, 0, 0, 0, 0xFF, 0xFF, 0xFF, 0xFF, 9];
    let mut src = source(&bytes);
    let h = parse_header(&mut src).unwrap();
    assert_eq!(h.kind(), NumericKind::F64);
    assert_eq!(h.dimensions().clone(), vec![0x0102_0304u32, 0, 0xFFFF_FFFF]);
    assert_eq!(h.element_count(), Some(0));
    assert_eq!(src.position(), 16);
    assert_eq!(src.remaining(), 1);
}

#[test]
fn element_count_overflow_is_none() {
    let bytes = [0, 0, 0x08, 3, 0xFF, 0xFF, 0xFF, 0xFF, 0xFF, 0xFF, 0xFF, 0xFF, 0, 0, 0, 2];
    let h = parse_header(&mut source(&bytes)).unwrap();
    assert_eq!(h.element_count(), None);
    let bytes = [0, 0, 0x08, 2, 0xFF, 0xFF, 0xFF, 0xFF, 0xFF, 0xFF, 0xFF, 0xFF];
    let h = parse_header(&mut source(&bytes)).unwrap();
    assert_eq!(h.element_count(), Some(0xFFFF_FFFE_0000_0001));
}

#[test]
fn type_mismatch_is_refused() {
    let bytes = [0, 0, 0x08, 1, 0, 0, 0, 1, 5];
    assert_eq!(IdxReader::<i8>::new(source(&bytes)).err(), Some(IdxErr::TypeMismatch));
    assert_eq!(IdxReader::<u8>::new(source(&bytes)).unwrap().read_all().unwrap(), vec![5u8]);
}

#[test]
fn signed_values_are_twos_complement() {
    let bytes = [0, 0, 0x09, 1, 0, 0, 0, 3, 0x80, 0xFF, 0x7F];
    let mut rd = IdxReader::<i8>::new(source(&bytes)).unwrap();
    assert_eq!(rd.read_all().unwrap(), vec![-128i8, -1, 127]);

    let bytes = [0, 0, 0x0B, 1, 0, 0, 0, 3, 0x80, 0x00, 0xFF, 0xFE, 0x01, 0x02];
    let mut rd = IdxReader::<i16>::new(source(&bytes)).unwrap();
    assert_eq!(rd.read_all().unwrap(), vec![i16::MIN, -2, 0x0102]);

    let bytes = [0, 0, 0x0C, 1, 0, 0, 0, 2, 0x80, 0, 0, 0, 0x12, 0x34, 0x56, 0x78];
    let mut rd = IdxReader::<i32>::new(source(&bytes)).unwrap();
    assert_eq!(rd.read_all().unwrap(), vec![i32::MIN, 0x1234_5678]);
}

#[test]
fn floats_are_big_endian_bit_patterns() {
    let one = 1.5f32.to_be_bytes();
    let mut bytes = vec![0, 0, 0x0D, 1, 0, 0, 0, 1];
    bytes.extend_from_slice(&one);
    let mut rd = IdxReader::<F32Bits>::new(ByteSource::new(bytes)).unwrap();
    let v = rd.next().unwrap().unwrap();
    assert_eq!(f32::from_bits(v.bits), 1.5f32);

    let mut bytes = vec![0, 0, 0x0E, 0];
    bytes.extend_from_slice(&(-2.25f64).to_be_bytes());
    let mut rd = DynIdxReader::open(ByteSource::new(bytes)).unwrap();
    match rd.next().unwrap().unwrap() {
        Value::F64(F64Bits { bits }) => assert_eq!(f64::from_bits(bits), -2.25f64),
        other => panic!("unexpected element {:?}", other),
    }
    assert_eq!(rd.next(), Ok(None));
}

#[test]
fn dynamic_reader_tags_elements_and_stops_at_count() {
    // one dimension of two, followed by bytes that are never read
    let bytes = [0, 0, 0x0B, 1, 0, 0, 0, 2, 0x00, 0x01, 0xFF, 0xFF, 0xAA, 0xBB];
    let mut rd = DynIdxReader::open(source(&bytes)).unwrap();
    assert_eq!(rd.next(), Ok(Some(Value::I16(1))));
    assert_eq!(rd.next(), Ok(Some(Value::I16(-1))));
    assert_eq!(rd.next(), Ok(None));
    assert_eq!(rd.next(), Ok(None));
    assert_eq!(Value::I16(-1).kind(), NumericKind::I16);
}

#[test]
fn payload_truncated_mid_element_fails() {
    let bytes = [0, 0, 0x0C, 1, 0, 0, 0, 2, 0, 0, 0, 7, 0, 0];
    let mut rd = IdxReader::<i32>::new(source(&bytes)).unwrap();
    assert_eq!(rd.read_all(), Err(IdxErr::IOError(ReadError::UnexpectedEnd)));
    assert_eq!(rd.next(), Err(IdxErr::IOError(ReadError::UnexpectedEnd)));
}

#[test]
fn extract_reads_big_endian_and_advances() {
    let mut src = source(&[0x12, 0x34, 0x56, 0x78, 0x9A]);
    assert_eq!(u32::extract(&mut src), Ok(0x1234_5678));
    assert_eq!(src.position(), 4);
    assert_eq!(i16::extract(&mut src), Err(ReadError::UnexpectedEnd));
    assert_eq!(src.position(), 4);
    assert_eq!(u8::extract(&mut src), Ok(0x9A));
    assert_eq!(src.remaining(), 0);
}

#[test]
fn empty_tensor_is_exhausted_at_once() {
    let bytes = [0, 0, 0x08, 2, 0, 0, 0, 0, 0, 0, 0, 5, 1, 2];
    let mut rd = IdxReader::<u8>::new(source(&bytes)).unwrap();
    assert_eq!(rd.element_count(), Some(0));
    assert_eq!(rd.read_all(), Ok(vec![]));
    assert_eq!(rd.next(), Ok(None));
}

#[test]
fn dynamic_reader_falls_back_to_typed() {
    let bytes = [0, 0, 0x0C, 1, 0, 0, 0, 1, 0xFF, 0xFF, 0xFF, 0xF6];
    let rd = DynIdxReader::open(source(&bytes)).unwrap();
    let rd = match rd.into_typed::<u8>() {
        Ok(_) => panic!("a reader of i32 elements was committed to u8"),
        Err(back) => back,
    };
    let mut typed = match rd.into_typed::<i32>() {
        Ok(t) => t,
        Err(_) => panic!("a reader of i32 elements refused i32"),
    };
    assert_eq!(typed.read_all(), Ok(vec![-10i32]));
}
