use mumbot::cursor::{ByteSink, ByteSource, Cursor, FixedCursor, ReadError};
use mumbot::varint::{VarintReader, VarintWriter};

/// A generator of numbers that look random.
struct Rnd {
    state: u64,
}

impl Rnd {
    fn new(seed: u64) -> Rnd {
        Rnd { state: seed }
    }

    fn next(&mut self) -> u64 {
        self.state = self.state.wrapping_add(0x9E37_79B9_7F4A_7C15);
        let mut z = self.state;
        z = (z ^ (z >> 30)).wrapping_mul(0xBF58_476D_1CE4_E5B9);
        z = (z ^ (z >> 27)).wrapping_mul(0x94D0_49BB_1331_11EB);
        z ^ (z >> 31)
    }
}

#[test]
fn random() {
    let mut rnd = Rnd::new(1024);
    let m: Vec<u64> = vec![0xF, 0xFF, 0xFFFF, 0xFFFFFFFF, 0xFFFFFFFFFFFFFFFF];
    for _ in 0..1_000_000 {
        let rnd_num = rnd.next();
        let rnd_num = rnd_num & m[rnd_num as usize % 5];
        let buf = Vec::<u8>::new();
        let mut wtr = Cursor::new(buf);
        wtr.write_varint(rnd_num).unwrap();
        let buf = wtr.into_inner();
        let buf_len = buf.len();
        let mut rdr = Cursor::new(buf);
        let num = rdr.read_varint().unwrap();
        assert_eq!(num, rnd_num);
        println!("{:10} {:20}", buf_len, rnd_num);
    }
}

#[test]
fn limits() {
    let large_uint8 = 0xFF;
    let large_uint16 = 0xFFFF;
    let large_uint32 = 0xFFFFFFFF;
    let large_uint64 = 0xFFFFFFFFFFFFFFFF;

    let small_int8 = -0x7Fi64;
    let small_int16 = -0x7FFFi64;
    let small_int32 = -0x7FFFFFFFi64;
    let small_int64 = -0x7FFFFFFFFFFFFFFFi64;

    let mut buf = vec![0u8; 20];

    {
        let mut wtr = FixedCursor::new(buf);
        wtr.write_varint(large_uint8).unwrap();
        buf = wtr.into_inner();
    }
    {
        let mut rdr = Cursor::new(buf);
        let num = rdr.read_varint().unwrap();
        assert_eq!(num, large_uint8);
        buf = rdr.into_inner();
    }

    {
        let mut wtr = FixedCursor::new(buf);
        wtr.write_varint(large_uint16).unwrap();
        buf = wtr.into_inner();
    }
    {
        let mut rdr = Cursor::new(buf);
        let num = rdr.read_varint().unwrap();
        assert_eq!(num, large_uint16);
        buf = rdr.into_inner();
    }

    {
        let mut wtr = FixedCursor::new(buf);
        wtr.write_varint(large_uint32).unwrap();
        buf = wtr.into_inner();
    }
    {
        let mut rdr = Cursor::new(buf);
        let num = rdr.read_varint().unwrap();
        assert_eq!(num, large_uint32);
        buf = rdr.into_inner();
    }

    {
        let mut wtr = FixedCursor::new(buf);
        wtr.write_varint(large_uint64).unwrap();
        buf = wtr.into_inner();
    }
    {
        let mut rdr = Cursor::new(buf);
        let num = rdr.read_varint().unwrap();
        assert_eq!(num, large_uint64);
        buf = rdr.into_inner();
    }

    {
        let mut wtr = FixedCursor::new(buf);
        wtr.write_varint(small_int8 as u64).unwrap();
        buf = wtr.into_inner();
    }
    {
        let mut rdr = Cursor::new(buf);
        let num = rdr.read_varint().unwrap();
        assert_eq!(num as i64, small_int8);
        buf = rdr.into_inner();
    }

    {
        let mut wtr = FixedCursor::new(buf);
        wtr.write_varint(small_int16 as u64).unwrap();
        buf = wtr.into_inner();
    }
    {
        let mut rdr = Cursor::new(buf);
        let num = rdr.read_varint().unwrap();
        assert_eq!(num as i64, small_int16);
        buf = rdr.into_inner();
    }

    {
        let mut wtr = FixedCursor::new(buf);
        wtr.write_varint(small_int32 as u64).unwrap();
        buf = wtr.into_inner();
    }
    {
        let mut rdr = Cursor::new(buf);
        let num = rdr.read_varint().unwrap();
        assert_eq!(num as i64, small_int32);
        buf = rdr.into_inner();
    }

    {
        let mut wtr = FixedCursor::new(buf);
        wtr.write_varint(small_int64 as u64).unwrap();
        buf = wtr.into_inner();
    }
    {
        let mut rdr = Cursor::new(buf);
        let num = rdr.read_varint().unwrap();
        assert_eq!(num as i64, small_int64);
    }
}

fn written(value: u64) -> Vec<u8> {
    let mut buf = Vec::<u8>::new();
    buf.write_varint(value).unwrap();
    buf
}

#[test]
fn varint_forms() {
    assert_eq!(written(0), vec![0x00]);
    assert_eq!(written(0x7F), vec![0x7F]);
    assert_eq!(written(0x80), vec![0x80, 0x80]);
    assert_eq!(written(0x3FFF), vec![0xBF, 0xFF]);
    assert_eq!(written(0x4000), vec![0xC0, 0x40, 0x00]);
    assert_eq!(written(0x1F_FFFF), vec![0xDF, 0xFF, 0xFF]);
    assert_eq!(written(0x20_0000), vec![0xE0, 0x20, 0x00, 0x00]);
    assert_eq!(written(0x0FFF_FFFF), vec![0xEF, 0xFF, 0xFF, 0xFF]);
    assert_eq!(written(0x1000_0000), vec![0xF0, 0x10, 0x00, 0x00, 0x00]);
    assert_eq!(written(0xFFFF_FFFF), vec![0xF0, 0xFF, 0xFF, 0xFF, 0xFF]);
    assert_eq!(written(0x1_0000_0000), vec![0xF4, 0, 0, 0, 1, 0, 0, 0, 0]);
    assert_eq!(written(!0), vec![0xFC]);
    assert_eq!(written(!3), vec![0xFF]);
    assert_eq!(written(!4), vec![0xF8, 0x04]);
    assert_eq!(written(!0xFFFF_FFFF), vec![0xF8, 0xF0, 0xFF, 0xFF, 0xFF, 0xFF]);
    assert_eq!(written(!0x1_0000_0000), vec![0xF4, 0xFF, 0xFF, 0xFF, 0xFE, 0xFF, 0xFF, 0xFF, 0xFF]);
}

#[test]
fn varint_reads_longer_forms() {
    assert_eq!(Cursor::new(vec![0x80, 0x05]).read_varint(), Ok(5));
    assert_eq!(Cursor::new(vec![0xF8, 0xF8, 0x05]).read_varint(), Ok(5));
    assert_eq!(Cursor::new(vec![0xF7, 0, 0, 0, 0, 0, 0, 0, 9]).read_varint(), Ok(9));
}

#[test]
fn varint_cut_short() {
    assert_eq!(Cursor::new(vec![]).read_varint(), Err(ReadError::UnexpectedEof));
    assert_eq!(Cursor::new(vec![0x80]).read_varint(), Err(ReadError::UnexpectedEof));
    assert_eq!(Cursor::new(vec![0xF8]).read_varint(), Err(ReadError::UnexpectedEof));
    let mut rdr = Cursor::new(vec![0xF4, 1, 2]);
    assert_eq!(rdr.read_varint(), Err(ReadError::UnexpectedEof));
    assert_eq!(rdr.read_byte(), Err(ReadError::UnexpectedEof));
}

#[test]
fn varints_one_after_the_other() {
    let mut buf = Vec::<u8>::new();
    for v in [3u64, 300, 70000, !2, !70000, u64::MAX / 2] {
        buf.write_varint(v).unwrap();
    }
    let mut rdr = Cursor::new(buf);
    for v in [3u64, 300, 70000, !2, !70000, u64::MAX / 2] {
        assert_eq!(rdr.read_varint(), Ok(v));
    }
    assert_eq!(rdr.read_varint(), Err(ReadError::UnexpectedEof));
}

#[test]
fn a_full_buffer_takes_what_fits() {
    let mut wtr = FixedCursor::new(vec![9u8; 2]);
    assert_eq!(wtr.write_varint(0x4001), Ok(2));
    assert_eq!(wtr.write_varint(1), Ok(0));
    assert_eq!(wtr.write_bytes(&[1]), Ok(0));
    assert_eq!(wtr.into_inner(), vec![0xC0, 0x40]);
}

#[test]
fn a_cursor_reads_its_buffer() {
    let mut rdr = Cursor::new(vec![1, 2, 3, 4]);
    assert_eq!(rdr.read_byte(), Ok(1));
    assert_eq!(rdr.read_exact(2), Ok(vec![2, 3]));
    assert_eq!(rdr.read_exact(2), Err(ReadError::UnexpectedEof));
    assert_eq!(rdr.read_to_end(), Vec::<u8>::new());
    let mut rdr = Cursor::new(vec![1, 2, 3]);
    assert_eq!(rdr.read_byte(), Ok(1));
    assert_eq!(rdr.read_to_end(), vec![2, 3]);
}

#[test]
fn a_cursor_grows() {
    let mut wtr = Cursor::new(vec![9u8; 2]);
    assert_eq!(wtr.write_varint(1), Ok(1));
    assert_eq!(wtr.write_varint(0x4001), Ok(3));
    assert_eq!(wtr.write_varint(2), Ok(1));
    assert_eq!(wtr.into_inner(), vec![1, 0xC0, 0x40, 0x01, 2]);
}

#[test]
fn writing_and_reading_keep_the_rest() {
    let mut wtr = Cursor::new(vec![9, 8, 7, 6]);
    assert_eq!(wtr.read_varint(), Ok(9));
    assert_eq!(wtr.write_varint(0x80), Ok(2));
    assert_eq!(wtr.len_unread(), 1);
    assert_eq!(wtr.into_inner(), vec![9, 0x80, 0x80, 6]);
    let mut wtr = FixedCursor::new(vec![9, 8, 7]);
    assert_eq!(wtr.write_varint(0x80), Ok(2));
    assert_eq!(wtr.into_inner(), vec![0x80, 0x80, 7]);
}
