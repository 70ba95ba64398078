use byteorder::{BigEndian, LittleEndian, WriteBytesExt};
use untrusted::{EndOfInput, Input, Reader};
use untrustended::{Error, FromReader, Ipv4Addr, Ipv6Addr, Readable, ReaderExt};

fn over(buf: &[u8]) -> Reader<'_> {
    Reader::new(Input::from(buf))
}

#[test]
fn unsigned_boundaries_round_trip_both_orders() {
    for v in [0u16, 1, u16::MAX - 1, u16::MAX] {
        let mut be = Vec::new();
        be.write_u16::<BigEndian>(v).unwrap();
        let mut le = Vec::new();
        le.write_u16::<LittleEndian>(v).unwrap();
        assert_eq!(over(&be).read_u16be().unwrap(), v);
        assert_eq!(over(&le).read_u16le().unwrap(), v);
    }
    for v in [0u32, 1, 0xFF_FFFE, 0xFF_FFFF] {
        let mut be = Vec::new();
        be.write_u24::<BigEndian>(v).unwrap();
        let mut le = Vec::new();
        le.write_u24::<LittleEndian>(v).unwrap();
        assert_eq!(over(&be).read_u24be().unwrap(), v);
        assert_eq!(over(&le).read_u24le().unwrap(), v);
    }
    for v in [0u32, 1, u32::MAX - 1, u32::MAX] {
        let mut be = Vec::new();
        be.write_u32::<BigEndian>(v).unwrap();
        let mut le = Vec::new();
        le.write_u32::<LittleEndian>(v).unwrap();
        assert_eq!(over(&be).read_u32be().unwrap(), v);
        assert_eq!(over(&le).read_u32le().unwrap(), v);
    }
    for v in [0u64, 1, 0xFFFF_FFFF_FFFE, 0xFFFF_FFFF_FFFF] {
        let mut be = Vec::new();
        be.write_u48::<BigEndian>(v).unwrap();
        let mut le = Vec::new();
        le.write_u48::<LittleEndian>(v).unwrap();
        assert_eq!(over(&be).read_u48be().unwrap(), v);
        assert_eq!(over(&le).read_u48le().unwrap(), v);
    }
    for v in [0u64, 1, u64::MAX - 1, u64::MAX] {
        let mut be = Vec::new();
        be.write_u64::<BigEndian>(v).unwrap();
        let mut le = Vec::new();
        le.write_u64::<LittleEndian>(v).unwrap();
        assert_eq!(over(&be).read_u64be().unwrap(), v);
        assert_eq!(over(&le).read_u64le().unwrap(), v);
    }
    for v in [0u128, 1, u128::MAX - 1, u128::MAX] {
        let mut be = Vec::new();
        be.write_u128::<BigEndian>(v).unwrap();
        let mut le = Vec::new();
        le.write_u128::<LittleEndian>(v).unwrap();
        assert_eq!(over(&be).read_u128be().unwrap(), v);
        assert_eq!(over(&le).read_u128le().unwrap(), v);
    }
    for v in [0u8, 1, 254, 255] {
        assert_eq!(over(&[v]).read_u8().unwrap(), v);
    }
}

#[test]
fn signed_boundaries_round_trip_both_orders() {
    for v in [i128::MIN, i128::MIN + 1, -1, 0, 1, i128::MAX - 1, i128::MAX] {
        let mut be = Vec::new();
        be.write_i128::<BigEndian>(v).unwrap();
        let mut le = Vec::new();
        le.write_i128::<LittleEndian>(v).unwrap();
        assert_eq!(over(&be).read_i128be().unwrap(), v);
        assert_eq!(over(&le).read_i128le().unwrap(), v);
    }
    for v in [i32::MIN, i32::MIN + 1, -1, 0, 1, i32::MAX - 1, i32::MAX] {
        let mut be = Vec::new();
        be.write_i32::<BigEndian>(v).unwrap();
        assert_eq!(over(&be).read_i32be().unwrap(), v);
    }
    for v in [-140_737_488_355_328i64, -1, 0, 140_737_488_355_327] {
        let mut be = Vec::new();
        be.write_i48::<BigEndian>(v).unwrap();
        let mut le = Vec::new();
        le.write_i48::<LittleEndian>(v).unwrap();
        assert_eq!(over(&be).read_i48be().unwrap(), v);
        assert_eq!(over(&le).read_i48le().unwrap(), v);
    }
}

#[test]
fn composed_widths_exact_values() {
    let buf = [0x01u8, 0x02, 0x03, 0x04, 0x05, 0x06];
    assert_eq!(over(&buf).read_u24be().unwrap(), 0x01_0203);
    assert_eq!(over(&buf).read_u24le().unwrap(), 0x03_0201);
    assert_eq!(over(&buf).read_u48be().unwrap(), 0x0102_0304_0506);
    assert_eq!(over(&buf).read_u48le().unwrap(), 0x0605_0403_0201);
    assert_eq!(over(&[0xFF, 0xFF, 0xFE]).read_i24be().unwrap(), -2);
    assert_eq!(over(&[0xFE, 0xFF, 0xFF]).read_i24le().unwrap(), -2);
    assert_eq!(over(&[0x80, 0, 0, 0, 0, 0]).read_i48be().unwrap(), -140_737_488_355_328);
    assert_eq!(over(&[0, 0, 0, 0, 0, 0x80]).read_i48le().unwrap(), -140_737_488_355_328);
    assert_eq!(over(&[0x80]).read_i8().unwrap(), -128);
}

#[test]
fn byte_order_gives_different_values_unless_symmetric() {
    assert_eq!(over(&[0x01, 0x00]).read_u16be().unwrap(), 256);
    assert_eq!(over(&[0x01, 0x00]).read_u16le().unwrap(), 1);
    assert_eq!(over(&[0xAB, 0xAB]).read_u16be().unwrap(), over(&[0xAB, 0xAB]).read_u16le().unwrap());
    assert_ne!(over(&[1, 2, 3, 4]).read_i32be().unwrap(), over(&[1, 2, 3, 4]).read_i32le().unwrap());
}

#[test]
fn each_read_consumes_exactly_its_width() {
    let buf: Vec<u8> = (1..=40).collect();
    let mut r = over(&buf);
    assert_eq!(r.read_u8().unwrap(), 1);
    assert_eq!(r.read_u16be().unwrap(), 0x0203);
    assert_eq!(r.read_u24le().unwrap(), 0x06_0504);
    assert_eq!(r.read_u32be().unwrap(), 0x0708_090A);
    assert_eq!(r.read_u48be().unwrap(), 0x0B0C_0D0E_0F10);
    assert_eq!(r.read_u64le().unwrap(), 0x1817_1615_1413_1211);
    assert_eq!(r.read_u128be().unwrap(), 0x191A_1B1C_1D1E_1F20_2122_2324_2526_2728);
    assert!(r.at_end());
    assert_eq!(r.read_u8(), Err(Error::EndOfInput));
}

#[test]
fn short_input_fails_whatever_its_content() {
    for fill in [0x00u8, 0x5A, 0xFF] {
        let buf = [fill; 15];
        assert_eq!(over(&buf[..0]).read_u8(), Err(Error::EndOfInput));
        assert_eq!(over(&buf[..1]).read_u16be(), Err(Error::EndOfInput));
        assert_eq!(over(&buf[..2]).read_u24be(), Err(Error::EndOfInput));
        assert_eq!(over(&buf[..2]).read_u24le(), Err(Error::EndOfInput));
        assert_eq!(over(&buf[..3]).read_i32le(), Err(Error::EndOfInput));
        assert_eq!(over(&buf[..5]).read_u48be(), Err(Error::EndOfInput));
        assert_eq!(over(&buf[..5]).read_i48le(), Err(Error::EndOfInput));
        assert_eq!(over(&buf[..7]).read_u64be(), Err(Error::EndOfInput));
        assert_eq!(over(&buf[..15]).read_i128le(), Err(Error::EndOfInput));
        assert_eq!(over(&buf[..3]).read_ipv4addr(), Err(Error::EndOfInput));
        assert_eq!(over(&buf[..15]).read_ipv6addr(), Err(Error::EndOfInput));
        assert_eq!(over(&buf[..4]).read_bytes_less_safe(5), Err(Error::EndOfInput));
        assert_eq!(over(&buf[..4]).read_utf8(5), Err(Error::EndOfInput));
        assert_eq!(over(&buf[..4]).read_utf16(6), Err(Error::EndOfInput));
    }
}

#[test]
fn utf16_odd_length_is_refused_before_reading() {
    let buf = [0x00u8, 0x41, 0x00, 0x42];
    let mut r = over(&buf);
    assert_eq!(r.read_utf16(3), Err(Error::ParseError));
    assert_eq!(r.read_u8().unwrap(), 0x00);
    assert_eq!(r.read_u8().unwrap(), 0x41);
}

#[test]
fn text_round_trips() {
    for text in ["", "plain ascii", "h\u{e9}llo w\u{f6}rld", "\u{1f980} crab \u{20ac}"] {
        let bytes = text.as_bytes();
        assert_eq!(over(bytes).read_utf8(bytes.len()).unwrap(), text);
        let mut units = Vec::new();
        for unit in text.encode_utf16() {
            units.write_u16::<BigEndian>(unit).unwrap();
        }
        assert_eq!(over(&units).read_utf16(units.len()).unwrap(), text);
    }
}

#[test]
fn read_utf8_decodes_part_of_the_input() {
    let buf = b"abcdef";
    let mut r = over(buf);
    assert_eq!(r.read_utf8(3).unwrap(), "abc");
    assert_eq!(r.read_utf8(3).unwrap(), "def");
    assert!(r.at_end());
}

#[test]
fn malformed_text_is_a_parse_error() {
    let mut r = over(&[0xFF, 0x41]);
    assert_eq!(r.read_utf8(1), Err(Error::ParseError));
    assert_eq!(r.read_u8().unwrap(), 0x41);
    assert_eq!(over(&[0xC0, 0x80]).read_utf8(2), Err(Error::ParseError));
    assert_eq!(over(&[0xD8, 0x00]).read_utf16(2), Err(Error::ParseError));
    assert_eq!(over(&[0xDC, 0x00, 0x00, 0x41]).read_utf16(4), Err(Error::ParseError));
    assert_eq!(over(&[0xD8, 0x3E, 0xDD, 0x80]).read_utf16(4).unwrap(), "\u{1f980}");
}

#[test]
fn read_bytes_less_safe_hands_out_the_next_bytes() {
    let buf = [9u8, 8, 7, 6, 5];
    let mut r = over(&buf);
    assert_eq!(r.read_u8().unwrap(), 9);
    assert_eq!(r.read_bytes_less_safe(3).unwrap(), &[8u8, 7, 6][..]);
    assert_eq!(r.read_bytes_less_safe(2), Err(Error::EndOfInput));
    assert_eq!(r.read_bytes_less_safe(1).unwrap(), &[5u8][..]);
    assert_eq!(r.read_bytes_less_safe(0).unwrap(), &[] as &[u8]);
}

#[test]
fn address_examples_match_their_octets() {
    let v4 = over(&[192, 0, 2, 1]).read_ipv4addr().unwrap();
    assert_eq!(v4.octets(), [192, 0, 2, 1]);
    assert_eq!(v4.to_bits(), 0xC000_0201);
    assert_eq!(v4, Ipv4Addr::from_bits(0xC000_0201));
    // 2001:db8::ff00:42:8329
    let octets = [
        0x20u8, 0x01, 0x0d, 0xb8, 0, 0, 0, 0, 0, 0, 0xff, 0x00, 0x00, 0x42, 0x83, 0x29,
    ];
    let v6 = over(&octets).read_ipv6addr().unwrap();
    assert_eq!(v6.octets(), octets);
    assert_eq!(v6, Ipv6Addr::from_bits(0x2001_0db8_0000_0000_0000_ff00_0042_8329));
}

#[test]
fn addresses_through_from_reader() {
    let buf = [1u8, 2, 3, 4];
    assert_eq!(over(&buf).read_be::<Ipv4Addr>().unwrap(), Ipv4Addr::from(0x0102_0304));
    assert_eq!(over(&buf).read_le::<Ipv4Addr>().unwrap(), Ipv4Addr::from(0x0403_0201));
    let mut r = over(&buf);
    assert_eq!(Ipv4Addr::read_be(&mut r).unwrap().octets(), [1, 2, 3, 4]);
    assert!(r.at_end());
    let wide = [0xFFu8; 16];
    assert_eq!(over(&wide).read_le::<Ipv6Addr>().unwrap().to_bits(), u128::MAX);
}

#[test]
fn generic_reads_agree_with_named_ones() {
    let buf = [0xF0u8, 0x0F, 0x12, 0x34];
    assert_eq!(over(&buf).read_be::<u32>().unwrap(), over(&buf).read_u32be().unwrap());
    assert_eq!(over(&buf).read_le::<i16>().unwrap(), 0x0FF0);
    assert_eq!(over(&buf).read_be::<i16>().unwrap(), -4081);
    assert_eq!(u8::read_le(&mut over(&buf)).unwrap(), 0xF0);
    assert_eq!(over(&buf[..1]).read_be::<u16>(), Err(Error::EndOfInput));
}

struct Tlv {
    tag: u16,
    value: Vec<u8>,
}

impl Readable for Tlv {
    type Output = Tlv;

    fn read(input: &mut Reader<'_>) -> Result<Tlv, Error> {
        let tag = input.read_u16be()?;
        if tag == 0 {
            return Err(Error::InvalidValue);
        }
        let len = input.read_u16be()?;
        let value = input.read_bytes_less_safe(usize::from(len))?.to_vec();
        Ok(Tlv { tag, value })
    }
}

fn tlv_buffer(tag: u16, len: u16) -> Vec<u8> {
    let mut buf = Vec::new();
    buf.write_u16::<BigEndian>(tag).unwrap();
    buf.write_u16::<BigEndian>(len).unwrap();
    buf.extend_from_slice(&[0xAA, 0xBB, 0xCC, 0xDD, 0xEE, 0xFF, 0x11, 0x22]);
    buf
}

#[test]
fn record_must_fill_the_whole_buffer() {
    let exact = tlv_buffer(7, 8);
    assert_eq!(exact.len(), 12);
    let record = Input::from(&exact[..]).read_all(Error::UnknownError, Tlv::read).unwrap();
    assert_eq!(record.tag, 7);
    assert_eq!(record.value, exact[4..].to_vec());

    let trailing = tlv_buffer(7, 7);
    let res = Input::from(&trailing[..]).read_all(Error::UnknownError, Tlv::read);
    assert!(matches!(res, Err(Error::UnknownError)));

    let missing = tlv_buffer(7, 9);
    let res = Input::from(&missing[..]).read_all(Error::UnknownError, Tlv::read);
    assert!(matches!(res, Err(Error::EndOfInput)));

    let unknown = tlv_buffer(0, 8);
    let res = Input::from(&unknown[..]).read_all(Error::UnknownError, Tlv::read);
    assert!(matches!(res, Err(Error::InvalidValue)));
}

#[test]
fn error_messages_and_conversion() {
    assert_eq!(Error::EndOfInput.message(), "end of input was reached unexpectedly");
    assert_eq!(Error::ParseError.message(), "failed to parse data into a more specific type");
    assert_eq!(Error::InvalidValue.message(), "parsed data contained invalid value");
    assert_eq!(Error::UnknownError.message(), "reading failed with an unknown error");
    assert_eq!(Error::from(EndOfInput), Error::EndOfInput);
    let bad = String::from_utf16(&[0xD800]).unwrap_err();
    assert_eq!(Error::from(bad), Error::ParseError);
}

#[test]
fn raw_byte_reads_of_the_substrate() {
    let buf = [3u8, 4, 5];
    let mut r = over(&buf);
    assert_eq!(ReaderExt::read_byte(&mut r), Ok(3));
    let rest = ReaderExt::read_bytes(&mut r, 2).unwrap();
    assert_eq!(rest.as_slice_less_safe(), &[4u8, 5][..]);
    assert_eq!(ReaderExt::read_byte(&mut r), Err(EndOfInput));
}
