//! Bit-level I/O and OBU framing.

use stillcast::bitio::{leb128_encode, BitReader, BitWriter};
use stillcast::error::Error;
use stillcast::obu::{parse_obus, Obu, ObuType};

#[test]
fn roundtrip_bits() {
    let mut w = BitWriter::new();
    w.f(1, 1);
    w.f(3, 0b001);
    w.trailing_bits();
    let bytes = w.into_bytes();
    assert_eq!(bytes, vec![0b1001_1000]);

    let mut r = BitReader::new(&bytes);
    assert_eq!(r.f(1).unwrap(), 1);
    assert_eq!(r.f(3).unwrap(), 1);
}

#[test]
fn leb128_roundtrip() {
    for v in [0u64, 1, 127, 128, 300, 16384, u32::MAX as u64] {
        let enc = leb128_encode(v);
        let (dec, len) = BitReader::leb128(&enc).unwrap();
        assert_eq!(dec, v);
        assert_eq!(len, enc.len());
    }
}

#[test]
fn leb128_of_three_hundred_is_two_bytes() {
    assert_eq!(leb128_encode(300), vec![0xac, 0x02]);
    // What follows the number is not looked at.
    assert_eq!(BitReader::leb128(&[0xac, 0x02, 0xff]).unwrap(), (300, 2));
}

#[test]
fn leb128_reads_back_the_largest_eight_byte_value() {
    let v = (1u64 << 56) - 1;
    let enc = leb128_encode(v);
    assert_eq!(enc.len(), 8);
    assert_eq!(BitReader::leb128(&enc).unwrap(), (v, 8));
}

#[test]
fn leb128_errors() {
    assert_eq!(BitReader::leb128(&[]), Err(Error::Leb128Unterminated));
    assert_eq!(BitReader::leb128(&[0x80]), Err(Error::Leb128Unterminated));
    assert_eq!(BitReader::leb128(&[0x80; 9]), Err(Error::Leb128TooLong));
    assert_eq!(Error::Leb128TooLong.message(), "leb128 too long");
    assert_eq!(Error::Leb128Unterminated.message(), "unterminated leb128");
}

#[test]
fn reader_errors_and_position() {
    let mut r = BitReader::new(&[0b1010_0000]);
    assert_eq!(r.f(65), Err(Error::FieldTooWide));
    assert_eq!(r.f(3).unwrap(), 0b101);
    assert_eq!(r.position(), 3);
    assert_eq!(r.f(6), Err(Error::UnexpectedEnd));
    assert_eq!(r.f(5).unwrap(), 0);
    assert_eq!(r.flag(), Err(Error::UnexpectedEnd));
    assert_eq!(r.f(0).unwrap(), 0);
}

#[test]
fn uvlc_roundtrip() {
    for v in [0u64, 1, 2, 6, 7, 255, 0xffff_fffe] {
        let mut w = BitWriter::new();
        w.uvlc(v);
        w.f(3, 0b101);
        w.byte_alignment();
        let bytes = w.into_bytes();
        let mut r = BitReader::new(&bytes);
        assert_eq!(r.uvlc().unwrap(), v);
        assert_eq!(r.f(3).unwrap(), 0b101);
    }
    // One leading zero, a one, one suffix bit: 1 + 1 = 2.
    let mut r = BitReader::new(&[0b0111_0000]);
    assert_eq!(r.uvlc().unwrap(), 2);
}

#[test]
fn uvlc_with_too_many_zeros() {
    let mut r = BitReader::new(&[0; 8]);
    assert_eq!(r.uvlc(), Err(Error::UvlcTooLarge));
    let mut r = BitReader::new(&[0; 2]);
    assert_eq!(r.uvlc(), Err(Error::UnexpectedEnd));
}

#[test]
fn writer_aligns_with_zeros_or_a_trailing_one() {
    let mut w = BitWriter::new();
    w.f(5, 0b11111);
    w.byte_alignment();
    assert_eq!(w.into_bytes(), vec![0b1111_1000]);

    let mut w = BitWriter::new();
    w.f(8, 0xab);
    w.trailing_bits();
    assert_eq!(w.into_bytes(), vec![0xab, 0x80]);

    let mut w = BitWriter::new();
    w.flag(true);
    w.flag(false);
    w.f(64, u64::MAX);
    w.byte_alignment();
    let bytes = w.into_bytes();
    assert_eq!(bytes.len(), 9);
    assert_eq!(bytes[0], 0b1011_1111);
    assert_eq!(bytes[8], 0b1100_0000);
}

#[test]
fn parse_then_write_roundtrip() {
    let mut buf = Vec::new();
    Obu::temporal_delimiter().write(&mut buf);
    Obu {
        obu_type: ObuType::SequenceHeader,
        extension: None,
        payload: vec![0xde, 0xad, 0xbe, 0xef],
    }
    .write(&mut buf);

    let obus = parse_obus(&buf).unwrap();
    assert_eq!(obus.len(), 2);
    assert_eq!(obus[0].obu_type, ObuType::TemporalDelimiter);
    assert_eq!(obus[1].payload, vec![0xde, 0xad, 0xbe, 0xef]);
}

#[test]
fn obu_bytes_are_header_extension_size_payload() {
    let mut buf = Vec::new();
    Obu::temporal_delimiter().write(&mut buf);
    assert_eq!(buf, vec![0x12, 0x00]);

    let mut buf = Vec::new();
    Obu {
        obu_type: ObuType::Frame,
        extension: Some(0x28),
        payload: vec![7; 200],
    }
    .write(&mut buf);
    assert_eq!(&buf[..4], &[0x36, 0x28, 0xc8, 0x01]);
    assert_eq!(buf.len(), 204);

    let obus = parse_obus(&buf).unwrap();
    assert_eq!(obus.len(), 1);
    assert_eq!(obus[0].obu_type, ObuType::Frame);
    assert_eq!(obus[0].extension, Some(0x28));
    assert_eq!(obus[0].payload, vec![7; 200]);
}

#[test]
fn last_obu_may_omit_its_size() {
    // Frame header OBU without a size field: the payload runs to the end.
    let obus = parse_obus(&[0x12, 0x00, 0x18, 0xaa, 0xbb]).unwrap();
    assert_eq!(obus.len(), 2);
    assert_eq!(obus[1].obu_type, ObuType::FrameHeader);
    assert_eq!(obus[1].payload, vec![0xaa, 0xbb]);
    assert!(parse_obus(&[]).unwrap().is_empty());
}

#[test]
fn obu_errors() {
    let err = |data: &[u8]| parse_obus(data).unwrap_err();
    assert_eq!(err(&[0x80]), Error::ObuForbiddenBit);
    assert_eq!(err(&[0x4a, 0x00]), Error::UnknownObuType(9));
    assert_eq!(Error::UnknownObuType(9).message(), "unknown OBU type 9");
    assert_eq!(err(&[0x16]), Error::TruncatedObuExtension);
    assert_eq!(err(&[0x12]), Error::ObuSizeUnterminated);
    assert_eq!(err(&[0x12, 0x80, 0x80, 0x80, 0x80, 0x80, 0x80, 0x80, 0x80, 0x80]), Error::ObuSizeTooLong);
    assert_eq!(err(&[0x32, 0x02, 0x00]), Error::ObuOverrun);
    // A size far beyond any packet is an overrun too.
    assert_eq!(
        err(&[0x32, 0xff, 0xff, 0xff, 0xff, 0xff, 0xff, 0xff, 0x7f, 0x00]),
        Error::ObuOverrun
    );
    assert_eq!(Error::ObuSizeTooLong.message(), "bad leb128 OBU size");
    assert_eq!(Error::ObuSizeTooLong.chain(), "bad leb128 OBU size: leb128 too long");
    assert_eq!(Error::ObuSizeUnterminated.chain(), "bad leb128 OBU size: unterminated leb128");
}

#[test]
fn obu_types_have_their_codes() {
    for (code, t) in [
        (1u8, ObuType::SequenceHeader),
        (2, ObuType::TemporalDelimiter),
        (3, ObuType::FrameHeader),
        (4, ObuType::TileGroup),
        (5, ObuType::Metadata),
        (6, ObuType::Frame),
        (7, ObuType::RedundantFrameHeader),
        (8, ObuType::TileList),
        (15, ObuType::Padding),
    ] {
        assert_eq!(ObuType::from_u8(code).unwrap(), t);
        assert_eq!(t.to_u8(), code);
    }
    assert_eq!(ObuType::from_u8(14), Err(Error::UnknownObuType(14)));
}
