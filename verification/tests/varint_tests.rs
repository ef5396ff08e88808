use binserde::varint::{encode_min, decode_min, varint_write, varint_read};

#[test]
fn varint_test_encode_min() {
    for i in -5i64..5 {
        let r = encode_min(i);
        println!("{} = {:016X}", i, r);
        assert_eq!(i, decode_min(r));
    }

    for i in i64::MAX - 5..=i64::MAX {
        let r = encode_min(i);
        println!("{} = {:016X}", i, r);
        assert_eq!(i, decode_min(r));
    }

    for i in i64::MIN..i64::MIN + 5 {
        let r = encode_min(i);
        println!("{} = {:016X}", i, r);
        assert_eq!(i, decode_min(r));
    }
}

#[test]
fn test_encode_min() {
    for i in -5i32..5 {
        let r = encode_min(i as i64);
        println!("{} = {:08X}", i, r);
        assert_eq!(i as i64, decode_min(r));
    }

    for i in i32::MAX - 5..=i32::MAX {
        let r = encode_min(i as i64);
        println!("{} = {:08X}", i, r);
        assert_eq!(i as i64, decode_min(r));
    }

    for i in i32::MIN..i32::MIN + 5 {
        let r = encode_min(i as i64);
        println!("{} = {:08X}", i, r);
        assert_eq!(i as i64, decode_min(r));
    }
}

#[test]
fn test_varint() {
    let mut buf: Vec<u8> = Vec::new();

    varint_write(0, &mut buf);
    varint_write(16, &mut buf);
    varint_write(234567892322414124, &mut buf);
    varint_write(encode_min(-18), &mut buf);
    varint_write(encode_min(20000000), &mut buf);

    for item in buf.iter() {
        if item & 0b10000000 == 0 {
            println!("{:02X}]", item);
        } else {
            println!("{:02X}", item);
        }
    }

    let mut pos = 0;
    let (v, next) = varint_read(&buf, pos).unwrap();
    assert_eq!(0, v);
    pos = next;
    let (v, next) = varint_read(&buf, pos).unwrap();
    assert_eq!(16, v);
    pos = next;
    let (v, next) = varint_read(&buf, pos).unwrap();
    assert_eq!(234567892322414124, v);
    pos = next;
    let (v, next) = varint_read(&buf, pos).unwrap();
    assert_eq!(encode_min(-18), v);
    pos = next;
    let (v, _) = varint_read(&buf, pos).unwrap();
    assert_eq!(encode_min(20000000), v);
}

#[test]
fn varint_zero_is_one_byte() {
    let mut buf: Vec<u8> = Vec::new();
    let n = varint_write(0, &mut buf);
    assert_eq!(n, 1);
    assert_eq!(buf, vec![0u8]);
}

#[test]
fn varint_max_is_ten_bytes() {
    let mut buf: Vec<u8> = Vec::new();
    let n = varint_write(u64::MAX, &mut buf);
    assert_eq!(n, 10);
    let (v, end) = varint_read(&buf, 0).unwrap();
    assert_eq!(v, u64::MAX);
    assert_eq!(end, 10);
}

#[test]
fn varint_truncated_is_io_error() {
    let buf = vec![0x80u8, 0x80];
    assert!(matches!(varint_read(&buf, 0), Err(binserde::Error::Io)));
}
