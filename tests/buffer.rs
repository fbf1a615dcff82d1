use protocol::buffer::ByteBuffer;
use protocol::error::CodecError;
use protocol::schema::{field_width, value_kind, FieldKind, Value};

#[test]
fn short_is_big_endian_twos_complement() {
    let mut buf = ByteBuffer::new();
    buf.write_short(999);
    buf.write_short(-1);
    buf.write_short(i16::MIN);
    assert_eq!(buf.as_slice(), &[0x03, 0xE7, 0xFF, 0xFF, 0x80, 0x00]);
    assert_eq!(buf.read_short(), Ok(999));
    assert_eq!(buf.read_short(), Ok(-1));
    assert_eq!(buf.read_short(), Ok(i16::MIN));
    assert_eq!(buf.read_short(), Err(CodecError::Underflow));
}

#[test]
fn int_and_long_layout() {
    let mut buf = ByteBuffer::new();
    buf.write_int(-2);
    buf.write_long(0x0102_0304_0506_0708);
    assert_eq!(
        buf.as_slice(),
        &[0xFF, 0xFF, 0xFF, 0xFE, 0x01, 0x02, 0x03, 0x04, 0x05, 0x06, 0x07, 0x08]
    );
    assert_eq!(buf.read_int(), Ok(-2));
    assert_eq!(buf.read_long(), Ok(0x0102_0304_0506_0708));
}

#[test]
fn bool_and_byte_layout() {
    let mut buf = ByteBuffer::new();
    buf.write_bool(true);
    buf.write_bool(false);
    buf.write_byte(-128);
    assert_eq!(buf.as_slice(), &[0x01, 0x00, 0x80]);
    assert_eq!(buf.read_bool(), Ok(true));
    assert_eq!(buf.read_bool(), Ok(false));
    assert_eq!(buf.read_byte(), Ok(-128));
    assert_eq!(buf.read_bool(), Err(CodecError::Underflow));
    assert_eq!(buf.read_byte(), Err(CodecError::Underflow));
}

#[test]
fn any_nonzero_byte_reads_as_true() {
    let mut buf = ByteBuffer::from_bytes(vec![0x02, 0xFF]);
    assert_eq!(buf.read_bool(), Ok(true));
    assert_eq!(buf.read_bool(), Ok(true));
}

#[test]
fn underflow_consumes_nothing() {
    let mut buf = ByteBuffer::from_bytes(vec![0x01, 0x02, 0x03]);
    assert_eq!(buf.read_int(), Err(CodecError::Underflow));
    assert_eq!(buf.read_long(), Err(CodecError::Underflow));
    assert_eq!(buf.read_position(), 0);
    assert_eq!(buf.remaining(), 3);
    assert_eq!(buf.read_short(), Ok(0x0102));
    assert_eq!(buf.remaining(), 1);
}

#[test]
fn writes_do_not_move_the_read_cursor() {
    let mut buf = ByteBuffer::from_bytes(vec![0x00, 0x05]);
    assert_eq!(buf.read_short(), Ok(5));
    buf.write_int(7);
    assert_eq!(buf.read_position(), 2);
    assert_eq!(buf.len(), 6);
    assert_eq!(buf.read_int(), Ok(7));
}

#[test]
fn kinds_and_widths() {
    assert_eq!(value_kind(&Value::Bool(true)), FieldKind::Bool);
    assert_eq!(value_kind(&Value::Long(3)), FieldKind::Long);
    assert_eq!(field_width(FieldKind::Bool), 1);
    assert_eq!(field_width(FieldKind::Byte), 1);
    assert_eq!(field_width(FieldKind::Short), 2);
    assert_eq!(field_width(FieldKind::Int), 4);
    assert_eq!(field_width(FieldKind::Long), 8);
}
