use qualisys::cursor::Cursor;
use qualisys::{ByteOrder, Error};

#[test]
fn reads_little_endian_fields() {
    let data = [0x01, 0x00, 0x00, 0x00, 0x02, 0x00];
    let mut c = Cursor::new(&data, ByteOrder::Little);
    assert_eq!(c.u32().unwrap(), 1);
    assert_eq!(c.u16().unwrap(), 2);
    assert_eq!(c.remaining(), 0);
}

#[test]
fn reads_big_endian_fields() {
    let data = [0x00, 0x00, 0x00, 0x01];
    let mut c = Cursor::new(&data, ByteOrder::Big);
    assert_eq!(c.u32().unwrap(), 1);
}

#[test]
fn short_read_is_an_error_not_a_panic() {
    let data = [0x01, 0x02];
    let mut c = Cursor::new(&data, ByteOrder::Little);
    assert!(matches!(c.u32(), Err(Error::ShortPacket { .. })));
}

#[test]
fn bytes_returns_an_owned_copy() {
    let data = vec![1u8, 2, 3, 4];
    let mut c = Cursor::new(&data, ByteOrder::Little);
    let taken = c.bytes(4).unwrap();
    assert_eq!(taken, vec![1, 2, 3, 4]);
}

#[test]
fn check_count_rejects_impossible_counts() {
    let data = [0u8; 8];
    let c = Cursor::new(&data, ByteOrder::Little);
    assert!(c.check_count(1_000_000, 32).is_err());
    assert!(c.check_count(2, 4).is_ok());
}

#[test]
fn short_read_reports_what_was_needed_and_what_was_left() {
    let data = [0x01, 0x02, 0x03];
    let mut c = Cursor::new(&data, ByteOrder::Little);
    assert_eq!(c.u8().unwrap(), 1);
    match c.u32() {
        Err(Error::ShortPacket { needed, offset, available }) => {
            assert_eq!((needed, offset, available), (4, 1, 2));
        }
        other => panic!("got {other:?}"),
    }
    // A failed read leaves the cursor where it was.
    assert_eq!(c.remaining(), 2);
    assert_eq!(c.u16().unwrap(), 0x0302);
}

#[test]
fn reads_a_u64_in_both_byte_orders() {
    let data = [1u8, 2, 3, 4, 5, 6, 7, 8];
    let mut little = Cursor::new(&data, ByteOrder::Little);
    assert_eq!(little.u64().unwrap(), 0x0807_0605_0403_0201);
    let mut big = Cursor::new(&data, ByteOrder::Big);
    assert_eq!(big.u64().unwrap(), 0x0102_0304_0506_0708);
}

#[test]
fn float_bits_are_kept_as_they_arrived() {
    let data = 1.5f32.to_le_bytes();
    let mut c = Cursor::new(&data, ByteOrder::Little);
    assert_eq!(f32::from_bits(c.float_bits().unwrap()), 1.5);
}

#[test]
fn check_count_reports_the_shortfall() {
    let data = [0u8; 8];
    let c = Cursor::new(&data, ByteOrder::Little);
    match c.check_count(3, 4) {
        Err(Error::ShortPacket { needed, offset, available }) => {
            assert_eq!((needed, offset, available), (12, 0, 8));
        }
        other => panic!("got {other:?}"),
    }
    assert!(c.check_count(0, 1_000_000).is_ok());
}

#[test]
fn byte_order_round_trips_a_u32() {
    for order in [ByteOrder::Little, ByteOrder::Big] {
        let bytes = order.put_u32(0xA1B2_C3D4);
        assert_eq!(order.u32(bytes), 0xA1B2_C3D4);
    }
    assert_eq!(ByteOrder::Little.put_u32(1), [1, 0, 0, 0]);
    assert_eq!(ByteOrder::Big.put_u32(1), [0, 0, 0, 1]);
    assert_eq!(ByteOrder::Big.u16([0x12, 0x34]), 0x1234);
    assert_eq!(ByteOrder::Little.u16([0x12, 0x34]), 0x3412);
}

#[test]
fn a_failed_multi_word_read_consumes_the_whole_words_it_found() {
    let data = [0u8; 10];
    let mut c = Cursor::new(&data, ByteOrder::Little);
    assert!(matches!(c.point(), Err(Error::ShortPacket { needed: 4, offset: 8, available: 2 })));
    assert_eq!(c.remaining(), 2);
    let mut c = Cursor::new(&data[..3], ByteOrder::Little);
    assert!(c.words4().is_err());
    assert_eq!(c.remaining(), 3);
}
