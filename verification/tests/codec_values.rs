use rusty_torrent::codec::{
    copy_range, push_all, push_i32, push_i64, push_u16, push_u32, push_u64, read_i32, read_i64,
    read_u16, read_u32, read_u64, to_signed32, to_signed64, to_unsigned32, to_unsigned64,
};

#[test]
fn reads_are_big_endian() {
    let buf = [0x01, 0x02, 0x03, 0x04, 0x05, 0x06, 0x07, 0x08, 0x09];
    assert_eq!(read_u16(&buf, 0), Some(0x0102));
    assert_eq!(read_u16(&buf, 7), Some(0x0809));
    assert_eq!(read_u32(&buf, 1), Some(0x0203_0405));
    assert_eq!(read_u64(&buf, 1), Some(0x0203_0405_0607_0809));
    assert_eq!(read_i32(&buf, 0), Some(0x0102_0304));
    assert_eq!(read_i64(&buf, 0), Some(0x0102_0304_0506_0708));
}

#[test]
fn reads_past_the_end_give_none() {
    let buf = [0u8; 9];
    assert_eq!(read_u16(&buf, 8), None);
    assert_eq!(read_u32(&buf, 6), None);
    assert_eq!(read_u64(&buf, 2), None);
    assert_eq!(read_i32(&buf, usize::MAX), None);
    assert_eq!(read_i64(&buf, usize::MAX - 3), None);
    assert_eq!(read_u16(&[], 0), None);
}

#[test]
fn signed_reads_use_twos_complement() {
    assert_eq!(read_i32(&[0xff, 0xff, 0xff, 0xff], 0), Some(-1));
    assert_eq!(read_i32(&[0x80, 0, 0, 0], 0), Some(i32::MIN));
    assert_eq!(read_i32(&[0x7f, 0xff, 0xff, 0xff], 0), Some(i32::MAX));
    assert_eq!(read_i64(&[0xff; 8], 0), Some(-1));
    assert_eq!(read_i64(&[0x80, 0, 0, 0, 0, 0, 0, 0], 0), Some(i64::MIN));
    assert_eq!(to_signed32(0xffff_fffe), -2);
    assert_eq!(to_signed64(u64::MAX), -1);
    assert_eq!(to_unsigned32(-2), 0xffff_fffe);
    assert_eq!(to_unsigned64(i64::MIN), 0x8000_0000_0000_0000);
}

#[test]
fn pushes_agree_with_std() {
    let mut buf = vec![0xaa];
    push_u16(&mut buf, 61389);
    push_u32(&mut buf, 0xdead_beef);
    push_u64(&mut buf, 0x0123_4567_89ab_cdef);
    push_i32(&mut buf, -1);
    push_i64(&mut buf, 0x417_2710_1980);
    push_all(&mut buf, &[1, 2, 3]);

    let mut expected = vec![0xaa];
    expected.extend_from_slice(&61389u16.to_be_bytes());
    expected.extend_from_slice(&0xdead_beefu32.to_be_bytes());
    expected.extend_from_slice(&0x0123_4567_89ab_cdefu64.to_be_bytes());
    expected.extend_from_slice(&(-1i32).to_be_bytes());
    expected.extend_from_slice(&0x417_2710_1980i64.to_be_bytes());
    expected.extend_from_slice(&[1, 2, 3]);
    assert_eq!(buf, expected);
}

#[test]
fn pack_then_read_round_trips() {
    for v in [0u32, 1, 255, 256, 16384, 0x00ff_00ff, u32::MAX] {
        let mut buf = Vec::new();
        push_u32(&mut buf, v);
        assert_eq!(buf.len(), 4);
        assert_eq!(read_u32(&buf, 0), Some(v));
    }
    for v in [i64::MIN, -1, 0, 1, 4497486125440, i64::MAX] {
        let mut buf = Vec::new();
        push_i64(&mut buf, v);
        assert_eq!(buf.len(), 8);
        assert_eq!(read_i64(&buf, 0), Some(v));
    }
    for v in [i32::MIN, -1, 0, 1800, i32::MAX] {
        let mut buf = Vec::new();
        push_i32(&mut buf, v);
        assert_eq!(read_i32(&buf, 0), Some(v));
    }
}

#[test]
fn copy_range_copies_or_refuses() {
    let buf = [10, 11, 12, 13];
    assert_eq!(copy_range(&buf, 1, 3), Some(vec![11, 12]));
    assert_eq!(copy_range(&buf, 4, 4), Some(vec![]));
    assert_eq!(copy_range(&buf, 3, 2), None);
    assert_eq!(copy_range(&buf, 0, 5), None);
}
