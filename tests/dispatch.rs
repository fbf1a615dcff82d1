use protocol::buffer::ByteBuffer;
use protocol::dispatch::{read, readNoProtocolId, writeNoProtocolId, Decoded};
use protocol::error::CodecError;
use protocol::registry::HandlerTable;
use protocol::schema::{FieldKind, Packet, Value};

fn all_kinds() -> Vec<FieldKind> {
    vec![
        FieldKind::Bool,
        FieldKind::Byte,
        FieldKind::Short,
        FieldKind::Int,
        FieldKind::Long,
    ]
}

fn table_with(id: i16, schema: Vec<FieldKind>) -> HandlerTable {
    let mut table = HandlerTable::new();
    assert_eq!(table.register(id, schema), Ok(()));
    table
}

#[test]
fn ping_writes_only_its_id_and_reads_back() {
    let table = table_with(1, vec![]);
    let mut buf = ByteBuffer::new();
    let ping = Packet::new(vec![]);
    assert_eq!(protocol::dispatch::write(&table, &mut buf, &ping, 1), Ok(()));
    assert_eq!(buf.as_slice(), &[0x00, 0x01]);
    let got = read(&table, &mut buf);
    assert_eq!(
        got,
        Ok(Decoded::Packet {
            id: 1,
            packet: Packet { fields: vec![] }
        })
    );
    assert_eq!(buf.remaining(), 0);
}

#[test]
fn unregistered_id_reads_as_not_found() {
    let table = HandlerTable::new();
    let mut buf = ByteBuffer::from_bytes(vec![0x03, 0xE7]);
    assert_eq!(read(&table, &mut buf), Ok(Decoded::NotFound(999)));
    assert_eq!(buf.remaining(), 0);
    assert_eq!(buf.read_position(), 2);
}

#[test]
fn unregistered_id_read_consumes_only_the_id() {
    let table = table_with(1, vec![FieldKind::Int]);
    let mut buf = ByteBuffer::from_bytes(vec![0x03, 0xE7, 0xAA, 0xBB]);
    assert_eq!(read(&table, &mut buf), Ok(Decoded::NotFound(999)));
    assert_eq!(buf.read_position(), 2);
    assert_eq!(buf.remaining(), 2);
}

#[test]
fn unregistered_id_write_leaves_payload_empty() {
    let table = table_with(1, vec![]);
    let mut buf = ByteBuffer::new();
    let packet = Packet::new(vec![Value::Int(5)]);
    assert_eq!(
        protocol::dispatch::write(&table, &mut buf, &packet, 999),
        Err(CodecError::UnknownProtocolId(999))
    );
    assert_eq!(buf.as_slice(), &[0x03, 0xE7]);

    let mut bare = ByteBuffer::from_bytes(vec![0x10]);
    assert_eq!(
        writeNoProtocolId(&table, &mut bare, &packet, 999),
        Err(CodecError::UnknownProtocolId(999))
    );
    assert_eq!(bare.as_slice(), &[0x10]);
}

#[test]
fn round_trip_of_every_field_kind() {
    let table = table_with(7, all_kinds());
    let packet = Packet::new(vec![
        Value::Bool(true),
        Value::Byte(-1),
        Value::Short(-2),
        Value::Int(0x0102_0304),
        Value::Long(i64::MIN),
    ]);
    let mut buf = ByteBuffer::new();
    assert_eq!(protocol::dispatch::write(&table, &mut buf, &packet, 7), Ok(()));
    assert_eq!(
        buf.as_slice(),
        &[
            0x00, 0x07, // id
            0x01, // bool
            0xFF, // byte
            0xFF, 0xFE, // short
            0x01, 0x02, 0x03, 0x04, // int
            0x80, 0x00, 0x00, 0x00, 0x00, 0x00, 0x00, 0x00, // long
        ]
    );
    assert_eq!(
        read(&table, &mut buf),
        Ok(Decoded::Packet {
            id: 7,
            packet: packet.clone()
        })
    );
    assert_eq!(buf.remaining(), 0);
}

#[test]
fn round_trip_of_extreme_values() {
    let table = table_with(-300, all_kinds());
    let packets = vec![
        Packet::new(vec![
            Value::Bool(false),
            Value::Byte(i8::MIN),
            Value::Short(i16::MIN),
            Value::Int(i32::MIN),
            Value::Long(i64::MIN),
        ]),
        Packet::new(vec![
            Value::Bool(true),
            Value::Byte(i8::MAX),
            Value::Short(i16::MAX),
            Value::Int(i32::MAX),
            Value::Long(i64::MAX),
        ]),
        Packet::new(vec![
            Value::Bool(false),
            Value::Byte(0),
            Value::Short(0),
            Value::Int(0),
            Value::Long(0),
        ]),
    ];
    let mut buf = ByteBuffer::new();
    for p in &packets {
        assert_eq!(protocol::dispatch::write(&table, &mut buf, p, -300), Ok(()));
    }
    assert_eq!(&buf.as_slice()[0..2], &[0xFE, 0xD4]);
    for p in &packets {
        assert_eq!(
            read(&table, &mut buf),
            Ok(Decoded::Packet {
                id: -300,
                packet: p.clone()
            })
        );
    }
    assert_eq!(buf.remaining(), 0);
}

#[test]
fn encoding_is_deterministic() {
    let table = table_with(42, vec![FieldKind::Short, FieldKind::Long]);
    let a = Packet::new(vec![Value::Short(12345), Value::Long(-987654321)]);
    let b = Packet::new(vec![Value::Short(12345), Value::Long(-987654321)]);
    let mut first = ByteBuffer::new();
    let mut second = ByteBuffer::new();
    assert_eq!(protocol::dispatch::write(&table, &mut first, &a, 42), Ok(()));
    assert_eq!(protocol::dispatch::write(&table, &mut second, &b, 42), Ok(()));
    assert_eq!(first.as_slice(), second.as_slice());

    let mut twice = ByteBuffer::new();
    assert_eq!(protocol::dispatch::write(&table, &mut twice, &a, 42), Ok(()));
    assert_eq!(protocol::dispatch::write(&table, &mut twice, &a, 42), Ok(()));
    let n = first.len();
    assert_eq!(twice.len(), 2 * n);
    assert_eq!(&twice.as_slice()[..n], &twice.as_slice()[n..]);
}

#[test]
fn mismatched_packet_writes_only_the_id() {
    let table = table_with(3, vec![FieldKind::Int, FieldKind::Bool]);
    let wrong_kind = Packet::new(vec![Value::Int(1), Value::Byte(1)]);
    let too_short = Packet::new(vec![Value::Int(1)]);
    let mut buf = ByteBuffer::new();
    assert_eq!(
        protocol::dispatch::write(&table, &mut buf, &wrong_kind, 3),
        Err(CodecError::SchemaMismatch(3))
    );
    assert_eq!(buf.as_slice(), &[0x00, 0x03]);
    assert_eq!(
        writeNoProtocolId(&table, &mut buf, &too_short, 3),
        Err(CodecError::SchemaMismatch(3))
    );
    assert_eq!(buf.as_slice(), &[0x00, 0x03]);
}

#[test]
fn write_without_id_appends_payload_only() {
    let table = table_with(5, vec![FieldKind::Short]);
    let mut buf = ByteBuffer::new();
    let packet = Packet::new(vec![Value::Short(999)]);
    assert_eq!(writeNoProtocolId(&table, &mut buf, &packet, 5), Ok(()));
    assert_eq!(buf.as_slice(), &[0x03, 0xE7]);
    assert_eq!(
        readNoProtocolId(&table, &mut buf, 5),
        Ok(Decoded::Packet {
            id: 5,
            packet: packet.clone()
        })
    );
    assert_eq!(buf.remaining(), 0);
}

#[test]
fn read_without_id_of_unknown_consumes_nothing() {
    let table = HandlerTable::new();
    let mut buf = ByteBuffer::from_bytes(vec![0x01, 0x02]);
    assert_eq!(readNoProtocolId(&table, &mut buf, 8), Ok(Decoded::NotFound(8)));
    assert_eq!(buf.read_position(), 0);
}

#[test]
fn read_of_empty_buffer_underflows() {
    let table = table_with(1, vec![]);
    let mut buf = ByteBuffer::new();
    assert_eq!(read(&table, &mut buf), Err(CodecError::Underflow));
    let mut one = ByteBuffer::from_bytes(vec![0x00]);
    assert_eq!(read(&table, &mut one), Err(CodecError::Underflow));
    assert_eq!(one.read_position(), 0);
}

#[test]
fn truncated_payload_underflows_after_the_id() {
    let table = table_with(2, vec![FieldKind::Int]);
    let mut buf = ByteBuffer::from_bytes(vec![0x00, 0x02, 0x01, 0x02, 0x03]);
    assert_eq!(read(&table, &mut buf), Err(CodecError::Underflow));
    assert_eq!(buf.read_position(), 2);
    assert_eq!(
        readNoProtocolId(&table, &mut buf, 2),
        Err(CodecError::Underflow)
    );
    assert_eq!(buf.read_position(), 2);
}

#[test]
fn duplicate_registration_is_refused() {
    let mut table = HandlerTable::new();
    assert_eq!(table.register(4, vec![FieldKind::Int]), Ok(()));
    assert_eq!(
        table.register(4, vec![FieldKind::Bool]),
        Err(CodecError::DuplicateProtocolId(4))
    );
    assert_eq!(table.lookup(4), Some(&vec![FieldKind::Int]));
    assert!(table.is_registered(4));
    assert!(!table.is_registered(5));
    assert_eq!(table.lookup(5), None);
}

#[test]
fn messages_follow_one_another() {
    let mut table = HandlerTable::new();
    assert_eq!(table.register(1, vec![]), Ok(()));
    assert_eq!(table.register(2, vec![FieldKind::Byte]), Ok(()));
    let mut buf = ByteBuffer::new();
    let ping = Packet::new(vec![]);
    let small = Packet::new(vec![Value::Byte(-128)]);
    assert_eq!(protocol::dispatch::write(&table, &mut buf, &small, 2), Ok(()));
    assert_eq!(protocol::dispatch::write(&table, &mut buf, &ping, 1), Ok(()));
    assert_eq!(buf.as_slice(), &[0x00, 0x02, 0x80, 0x00, 0x01]);
    assert_eq!(
        read(&table, &mut buf),
        Ok(Decoded::Packet {
            id: 2,
            packet: small.clone()
        })
    );
    assert_eq!(
        read(&table, &mut buf),
        Ok(Decoded::Packet {
            id: 1,
            packet: ping.clone()
        })
    );
    assert_eq!(read(&table, &mut buf), Err(CodecError::Underflow));
}
