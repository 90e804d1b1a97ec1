use prpr::bin::{BinaryError, BinaryReader, BinaryWriter};

fn written(f: impl FnOnce(&mut BinaryWriter)) -> Vec<u8> {
    let mut w = BinaryWriter::new(Vec::new());
    f(&mut w);
    w.into_inner()
}

#[test]
fn uleb_small_and_large_values() {
    assert_eq!(written(|w| w.uleb(0).unwrap()), vec![0x00]);
    assert_eq!(written(|w| w.uleb(127).unwrap()), vec![0x7f]);
    assert_eq!(written(|w| w.uleb(128).unwrap()), vec![0x80, 0x01]);
    assert_eq!(written(|w| w.uleb(300).unwrap()), vec![0xac, 0x02]);
    assert_eq!(
        written(|w| w.uleb(u64::MAX).unwrap()),
        vec![0xff, 0xff, 0xff, 0xff, 0xff, 0xff, 0xff, 0xff, 0xff, 0x01]
    );
}

#[test]
fn uleb_roundtrip_values() {
    for v in [0u64, 1, 127, 128, 255, 300, 16383, 16384, 1 << 35, u64::MAX - 1, u64::MAX] {
        let mut bytes = written(|w| w.uleb(v).unwrap());
        bytes.push(0x42);
        let mut r = BinaryReader::new(bytes);
        assert_eq!(r.uleb(), Ok(v));
        assert_eq!(r.read::<u8>(), Ok(0x42));
    }
}

#[test]
fn uleb_errors() {
    let mut r = BinaryReader::new(vec![]);
    assert_eq!(r.uleb(), Err(BinaryError::UnexpectedEof));
    let mut r = BinaryReader::new(vec![0x80, 0x80]);
    assert_eq!(r.uleb(), Err(BinaryError::UnexpectedEof));
    let mut r = BinaryReader::new(vec![0x80; 11]);
    assert_eq!(r.uleb(), Err(BinaryError::UlebTooLong));
    let mut r = BinaryReader::new(vec![0x80; 10]);
    assert_eq!(r.uleb(), Err(BinaryError::UnexpectedEof));
}

#[test]
fn uleb_tenth_byte_keeps_only_its_low_bit() {
    // 0x7f in the tenth byte: only bit 63 survives.
    let mut bytes = vec![0x80; 9];
    bytes.push(0x7f);
    let mut r = BinaryReader::new(bytes);
    assert_eq!(r.uleb(), Ok(1u64 << 63));
    let mut bytes = vec![0x81; 9];
    bytes.push(0x02);
    let mut r = BinaryReader::new(bytes);
    assert_eq!(r.uleb(), Ok(0x0102_0408_1020_4081));
}

#[test]
fn i32_little_endian() {
    assert_eq!(written(|w| w.write_val(1i32).unwrap()), vec![1, 0, 0, 0]);
    assert_eq!(written(|w| w.write_val(-1i32).unwrap()), vec![0xff, 0xff, 0xff, 0xff]);
    assert_eq!(written(|w| w.write_val(0x1234_5678i32).unwrap()), vec![0x78, 0x56, 0x34, 0x12]);
    for v in [0i32, 1, -1, i32::MIN, i32::MAX, -1_000_000, 1_000_000] {
        let mut r = BinaryReader::new(written(|w| w.write(&v).unwrap()));
        assert_eq!(r.read::<i32>(), Ok(v));
    }
    let mut r = BinaryReader::new(vec![1, 2, 3]);
    assert_eq!(r.read::<i32>(), Err(BinaryError::UnexpectedEof));
}

#[test]
fn bool_encoding() {
    assert_eq!(written(|w| w.write_val(true).unwrap()), vec![1]);
    assert_eq!(written(|w| w.write_val(false).unwrap()), vec![0]);
    let mut r = BinaryReader::new(vec![1, 0, 2]);
    assert_eq!(r.read::<bool>(), Ok(true));
    assert_eq!(r.read::<bool>(), Ok(false));
    assert_eq!(r.read::<bool>(), Ok(false));
    assert_eq!(r.read::<bool>(), Err(BinaryError::UnexpectedEof));
}

#[test]
fn writing_a_value_or_its_clone_gives_the_same_bytes() {
    let s = String::from("ab");
    assert_eq!(written(|w| w.write(&s).unwrap()), vec![2, 0x61, 0x62]);
    assert_eq!(written(|w| w.write_val(s.clone()).unwrap()), vec![2, 0x61, 0x62]);
    let n = -2i32;
    assert_eq!(written(|w| w.write(&n).unwrap()), written(|w| w.write_val(n.clone()).unwrap()));
}

#[test]
fn string_encoding() {
    let s = "héllo, 世界".to_string();
    let bytes = written(|w| w.write(&s).unwrap());
    assert_eq!(bytes[0] as usize, s.len());
    assert_eq!(&bytes[1..], s.as_bytes());
    let mut r = BinaryReader::new(bytes);
    assert_eq!(r.read::<String>(), Ok(s));
    let mut r = BinaryReader::new(vec![2, 0xff, 0xfe]);
    assert_eq!(r.read::<String>(), Err(BinaryError::InvalidUtf8));
    let mut r = BinaryReader::new(vec![3, b'a']);
    assert_eq!(r.read::<String>(), Err(BinaryError::UnexpectedEof));
}

#[test]
fn array_roundtrip() {
    let v = vec![5i32, -7, 100_000];
    let bytes = written(|w| w.array(&v).unwrap());
    assert_eq!(bytes.len(), 1 + 12);
    let mut r = BinaryReader::new(bytes);
    assert_eq!(r.array::<i32>(), Ok(v));
    let strings = vec!["a".to_string(), String::new(), "bc".to_string()];
    let mut r = BinaryReader::new(written(|w| w.array(&strings).unwrap()));
    assert_eq!(r.array::<String>(), Ok(strings));
    let mut r = BinaryReader::new(vec![2, 1]);
    assert_eq!(r.array::<u8>(), Err(BinaryError::UnexpectedEof));
}

#[test]
fn time_deltas_roundtrip() {
    let mut w = BinaryWriter::new(Vec::new());
    for t in [0u32, 5, 5, 1000, 70_000] {
        w.time_ms_delta(t).unwrap();
    }
    w.reset_time();
    w.time_ms_delta(3).unwrap();
    let bytes = w.into_inner();
    assert_eq!(bytes, vec![0, 5, 0, 0xe3, 0x07, 0x88, 0x9b, 0x04, 3]);
    let mut r = BinaryReader::new(bytes);
    for t in [0u32, 5, 5, 1000, 70_000] {
        assert_eq!(r.time_ms_delta(), Ok(t));
    }
    r.reset_time();
    assert_eq!(r.time_ms_delta(), Ok(3));
}

#[test]
fn time_overflow() {
    let mut w = BinaryWriter::new(Vec::new());
    w.uleb(u32::MAX as u64).unwrap();
    w.uleb(1).unwrap();
    let mut r = BinaryReader::new(w.into_inner());
    assert_eq!(r.time_ms_delta(), Ok(u32::MAX));
    assert_eq!(r.time_ms_delta(), Err(BinaryError::TimeOverflow));
    // The delta keeps only its low 32 bits.
    let mut w = BinaryWriter::new(Vec::new());
    w.uleb((1u64 << 32) + 7).unwrap();
    let mut r = BinaryReader::new(w.into_inner());
    assert_eq!(r.time_ms_delta(), Ok(7));
}

#[test]
fn writer_appends_to_initial_bytes() {
    let mut w = BinaryWriter::new(vec![9, 9]);
    w.write_val(7u8).unwrap();
    assert_eq!(w.into_inner(), vec![9, 9, 7]);
}
