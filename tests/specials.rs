use std::io::Write;

use byteorder::{BigEndian, LittleEndian, WriteBytesExt};
use untrusted::{Input, Reader};
use untrustended::ReaderExt;

fn reader(buf: &[u8]) -> Reader<'_> {
    Reader::new(Input::from(buf))
}

#[test]
fn read_i8_specials() {
    let specials = vec![
        i8::min_value(),
        i8::min_value() + 1,
        -1,
        0,
        1,
        i8::max_value() - 1,
        i8::max_value(),
    ];
    for s in specials {
        let mut buf = Vec::new();
        buf.write_i8(s).expect("write_i8");
        let mut reader = reader(&buf);
        assert_eq!(s, reader.read_i8().expect("read_i8"));
    }
}

#[test]
fn read_i16be_specials() {
    let specials = vec![
        i16::min_value(),
        i16::min_value() + 1,
        -1,
        0,
        1,
        i16::max_value() - 1,
        i16::max_value(),
    ];
    for s in specials {
        let mut buf = Vec::new();
        buf.write_i16::<BigEndian>(s).expect("write_i16");
        let mut reader = reader(&buf);
        assert_eq!(s, reader.read_i16be().expect("read_i16be"));
    }
}

#[test]
fn read_i24be_specials() {
    let specials = vec![-8_388_608, -8_388_607, -1, 0, 1, 8_388_606, 8_388_607];
    for s in specials {
        let mut buf = Vec::new();
        buf.write_i24::<BigEndian>(s).expect("write_i24");
        let mut reader = reader(&buf);
        assert_eq!(s, reader.read_i24be().expect("read_i24be"));
    }
}

#[test]
fn read_i32be_specials() {
    let specials = vec![
        i32::min_value(),
        i32::min_value() + 1,
        -1,
        0,
        1,
        i32::max_value() - 1,
        i32::max_value(),
    ];
    for s in specials {
        let mut buf = Vec::new();
        buf.write_i32::<BigEndian>(s).expect("write_i32");
        let mut reader = reader(&buf);
        assert_eq!(s, reader.read_i32be().expect("read_i32be"));
    }
}

#[test]
fn read_i48be_specials() {
    let specials = vec![
        -140_737_488_355_328,
        -140_737_488_355_327,
        -1,
        0,
        1,
        140_737_488_355_326,
        140_737_488_355_327,
    ];
    for s in specials {
        let mut buf = Vec::new();
        let b1: u16 = ((s & 0xFFFF_0000_0000) >> 32) as u16;
        let b2: u16 = ((s & 0x0000_FFFF_0000) >> 16) as u16;
        let b3: u16 = (s & 0x0000_0000_FFFF) as u16;
        buf.write_u16::<BigEndian>(b1).expect("write_u16");
        buf.write_u16::<BigEndian>(b2).expect("write_u16");
        buf.write_u16::<BigEndian>(b3).expect("write_u16");
        let mut reader = reader(&buf);
        assert_eq!(s, reader.read_i48be().expect("read_i48be"));
    }
}

#[test]
fn read_i64be_specials() {
    let specials = vec![
        i64::min_value(),
        i64::min_value() + 1,
        -1,
        0,
        1,
        i64::max_value() - 1,
        i64::max_value(),
    ];
    for s in specials {
        let mut buf = Vec::new();
        buf.write_i64::<BigEndian>(s).expect("write_i64");
        let mut reader = reader(&buf);
        assert_eq!(s, reader.read_i64be().expect("read_i64be"));
    }
}

#[test]
fn read_i16le_specials() {
    let specials = vec![
        i16::min_value(),
        i16::min_value() + 1,
        -1,
        0,
        1,
        i16::max_value() - 1,
        i16::max_value(),
    ];
    for s in specials {
        let mut buf = Vec::new();
        buf.write_i16::<LittleEndian>(s).expect("write_i16");
        let mut reader = reader(&buf);
        assert_eq!(s, reader.read_i16le().expect("read_i16le"));
    }
}

#[test]
fn read_i24le_specials() {
    let specials = vec![-8_388_608, -8_388_607, -1, 0, 1, 8_388_606, 8_388_607];
    for s in specials {
        let mut buf = Vec::new();
        buf.write_i24::<LittleEndian>(s).expect("write_i24");
        let mut reader = reader(&buf);
        assert_eq!(s, reader.read_i24le().expect("read_i24le"));
    }
}

#[test]
fn read_i32le_specials() {
    let specials = vec![
        i32::min_value(),
        i32::min_value() + 1,
        -1,
        0,
        1,
        i32::max_value() - 1,
        i32::max_value(),
    ];

    for s in specials {
        let mut buf = Vec::new();
        buf.write_i32::<LittleEndian>(s).expect("write_i32");
        let mut reader = reader(&buf);
        assert_eq!(s, reader.read_i32le().expect("read_i32le"));
    }
}

#[test]
fn read_i48le_specials() {
    let specials = vec![
        -140_737_488_355_328,
        -140_737_488_355_327,
        -1,
        0,
        1,
        140_737_488_355_326,
        140_737_488_355_327,
    ];
    for s in specials {
        let mut buf = Vec::new();
        let b1: u16 = ((s & 0xFFFF_0000_0000) >> 32) as u16;
        let b2: u16 = ((s & 0x0000_FFFF_0000) >> 16) as u16;
        let b3: u16 = (s & 0x0000_0000_FFFF) as u16;
        buf.write_u16::<LittleEndian>(b3).expect("write_u16");
        buf.write_u16::<LittleEndian>(b2).expect("write_u16");
        buf.write_u16::<LittleEndian>(b1).expect("write_u16");
        let mut reader = reader(&buf);
        assert_eq!(s, reader.read_i48le().expect("read_i48le"));
    }
}

#[test]
fn read_i64le_specials() {
    let specials = vec![
        i64::min_value(),
        i64::min_value() + 1,
        -1,
        0,
        1,
        i64::max_value() - 1,
        i64::max_value(),
    ];
    for s in specials {
        let mut buf = Vec::new();
        buf.write_i64::<LittleEndian>(s).expect("write_i64");
        let mut reader = reader(&buf);
        assert_eq!(s, reader.read_i64le().expect("read_i64le"));
    }
}

#[test]
fn read_utf16_with_odd_length() {
    let mut reader = reader(&[]);
    match reader.read_utf16(3) {
        Err(err) => assert_eq!(err, untrustended::Error::ParseError),
        _ => panic!("Test shouldn't reach here"),
    }
}

#[test]
fn read_ipv4addr() {
    // 0.0.0.0, 192.0.2.1, 198.51.100.128, 203.0.113.255, 255.255.255.255
    let addrs: Vec<[u8; 4]> = vec![
        [0, 0, 0, 0],
        [192, 0, 2, 1],
        [198, 51, 100, 128],
        [203, 0, 113, 255],
        [255, 255, 255, 255],
    ];
    for addr in addrs {
        let mut buf = Vec::new();
        buf.write_all(&addr).expect("write_all");
        let mut reader = reader(&buf);
        assert_eq!(addr, reader.read_ipv4addr().expect("read_ipv4addr").octets());
    }
}

#[test]
fn read_ipv6addr() {
    // 2001:DB8::, 2001:DB8:ff00:00ff:f00f:0ff0:0000:ffff,
    // 2001:DB8:ffff:ffff:ffff:ffff:ffff:ffff
    let addrs: Vec<[u8; 16]> = vec![
        [0x20, 0x01, 0x0D, 0xB8, 0, 0, 0, 0, 0, 0, 0, 0, 0, 0, 0, 0],
        [
            0x20, 0x01, 0x0D, 0xB8, 0xFF, 0x00, 0x00, 0xFF, 0xF0, 0x0F, 0x0F, 0xF0, 0x00, 0x00,
            0xFF, 0xFF,
        ],
        [
            0x20, 0x01, 0x0D, 0xB8, 0xFF, 0xFF, 0xFF, 0xFF, 0xFF, 0xFF, 0xFF, 0xFF, 0xFF, 0xFF,
            0xFF, 0xFF,
        ],
    ];
    for addr in addrs {
        let mut buf = Vec::new();
        buf.write_all(&addr).expect("write_all");
        let mut reader = reader(&buf);
        assert_eq!(addr, reader.read_ipv6addr().expect("read_ipv6addr").octets());
    }
}
