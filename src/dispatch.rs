//! The protocol dispatcher: a message is a two-byte protocol id followed by
//! the payload that the schema registered under that id lays out.
#![allow(non_snake_case)]

use vstd::prelude::*;

use crate::buffer::ByteBuffer;
use crate::error::CodecError;
use crate::registry::HandlerTable;
use crate::schema::{
    conforms, conforms_to, decode_fields, encode_fields, read_fields, schema_size, write_fields,
    FieldKind, Packet, Value,
};
use crate::wire::{int_bytes, int_of_bytes};

verus! {

/// What a read hands back: a decoded packet with its id, or the marker for
/// an id that no schema is registered under.
#[derive(Clone, Debug, PartialEq, Eq)]
pub enum Decoded {
    Packet { id: i16, packet: Packet },
    NotFound(i16),
}

impl View for Decoded {
    /// The id read, and the packet's values if the id was registered.
    type V = (i16, Option<Seq<Value>>);

    open spec fn view(&self) -> (i16, Option<Seq<Value>>) {
        match self {
            Decoded::Packet { id, packet } => (*id, Some(packet@)),
            Decoded::NotFound(id) => (*id, None),
        }
    }
}

/// A read's outcome, with a decoded value seen through its view.
pub open spec fn outcome_view(r: Result<Decoded, CodecError>) -> Result<
    (i16, Option<Seq<Value>>),
    CodecError,
> {
    match r {
        Ok(d) => Ok(d@),
        Err(e) => Err(e),
    }
}

/// The payload that writing `vs` under `id` appends, or the reason it
/// appends none.
pub open spec fn encode_payload(schemas: Map<i16, Seq<FieldKind>>, id: i16, vs: Seq<Value>) -> Result<
    Seq<u8>,
    CodecError,
> {
    if !schemas.contains_key(id) {
        Err(CodecError::UnknownProtocolId(id))
    } else if !conforms(schemas[id], vs) {
        Err(CodecError::SchemaMismatch(id))
    } else {
        Ok(encode_fields(vs))
    }
}

/// Whether a write succeeded, and if not, why.
pub open spec fn write_status(payload: Result<Seq<u8>, CodecError>) -> Result<(), CodecError> {
    match payload {
        Ok(_) => Ok(()),
        Err(e) => Err(e),
    }
}

/// The payload bytes that a write appends: none when it fails.
pub open spec fn payload_bytes(payload: Result<Seq<u8>, CodecError>) -> Seq<u8> {
    match payload {
        Ok(p) => p,
        Err(_) => Seq::empty(),
    }
}

/// Everything that writing `vs` under `id` appends: the id, then the payload.
pub open spec fn encode_message(schemas: Map<i16, Seq<FieldKind>>, id: i16, vs: Seq<Value>) -> Seq<
    u8,
> {
    int_bytes(id as int, 2) + payload_bytes(encode_payload(schemas, id, vs))
}

/// What reading the payload of an `id` message from `rest` yields.
pub open spec fn decode_payload(schemas: Map<i16, Seq<FieldKind>>, id: i16, rest: Seq<u8>) -> Result<
    (i16, Option<Seq<Value>>),
    CodecError,
> {
    if !schemas.contains_key(id) {
        Ok((id, None))
    } else if rest.len() < schema_size(schemas[id]) {
        Err(CodecError::Underflow)
    } else {
        Ok((id, Some(decode_fields(schemas[id], rest))))
    }
}

/// How many bytes reading the payload of an `id` message from `rest` consumes.
pub open spec fn payload_len(schemas: Map<i16, Seq<FieldKind>>, id: i16, rest: Seq<u8>) -> nat {
    if schemas.contains_key(id) && schema_size(schemas[id]) <= rest.len() {
        schema_size(schemas[id])
    } else {
        0
    }
}

/// The protocol id at the start of `rest`.
pub open spec fn id_of(rest: Seq<u8>) -> i16 {
    int_of_bytes(rest.take(2)) as i16
}

/// What reading a whole message from `rest` yields.
pub open spec fn decode_message(schemas: Map<i16, Seq<FieldKind>>, rest: Seq<u8>) -> Result<
    (i16, Option<Seq<Value>>),
    CodecError,
> {
    if rest.len() < 2 {
        Err(CodecError::Underflow)
    } else {
        decode_payload(schemas, id_of(rest), rest.skip(2))
    }
}

/// How many bytes reading a whole message from `rest` consumes: the id,
/// once it is there, even when the payload falls short.
pub open spec fn message_len(schemas: Map<i16, Seq<FieldKind>>, rest: Seq<u8>) -> nat {
    if rest.len() < 2 {
        0
    } else {
        2 + payload_len(schemas, id_of(rest), rest.skip(2))
    }
}

/// Writes `protocolId`, then the payload of `packet` under its schema. The
/// id is written even when the payload is not; see [`writeNoProtocolId`].
pub fn write(table: &HandlerTable, buffer: &mut ByteBuffer, packet: &Packet, protocolId: i16) -> (r:
    Result<(), CodecError>)
    requires
        table.wf(),
    ensures
        r == write_status(encode_payload(table@, protocolId, packet@)),
        final(buffer).bytes() == old(buffer).bytes() + encode_message(
            table@,
            protocolId,
            packet@,
        ),
        final(buffer).position() == old(buffer).position(),
{
    buffer.write_short(protocolId);
    let r = writeNoProtocolId(table, buffer, packet, protocolId);
    assert(final(buffer).bytes() =~= old(buffer).bytes() + encode_message(
        table@,
        protocolId,
        packet@,
    ));
    r
}

/// Writes the payload of `packet` under the schema registered for
/// `protocolId`. Writes nothing, and says why, when the id is not registered
/// or the packet's fields do not fit its schema.
pub fn writeNoProtocolId(
    table: &HandlerTable,
    buffer: &mut ByteBuffer,
    packet: &Packet,
    protocolId: i16,
) -> (r: Result<(), CodecError>)
    requires
        table.wf(),
    ensures
        r == write_status(encode_payload(table@, protocolId, packet@)),
        final(buffer).bytes() == old(buffer).bytes() + payload_bytes(
            encode_payload(table@, protocolId, packet@),
        ),
        final(buffer).position() == old(buffer).position(),
{
    match table.lookup(protocolId) {
        None => {
            assert(old(buffer).bytes() + Seq::<u8>::empty() =~= old(buffer).bytes());
            Err(CodecError::UnknownProtocolId(protocolId))
        },
        Some(schema) => {
            if !conforms_to(schema, &packet.fields) {
                assert(old(buffer).bytes() + Seq::<u8>::empty() =~= old(buffer).bytes());
                Err(CodecError::SchemaMismatch(protocolId))
            } else {
                write_fields(buffer, &packet.fields);
                Ok(())
            }
        },
    }
}

/// Reads a protocol id, then the payload of a packet under the schema
/// registered for it; see [`readNoProtocolId`].
pub fn read(table: &HandlerTable, buffer: &mut ByteBuffer) -> (r: Result<Decoded, CodecError>)
    requires
        table.wf(),
        old(buffer).wf(),
    ensures
        final(buffer).wf(),
        outcome_view(r) == decode_message(table@, old(buffer).unread()),
        final(buffer).bytes() == old(buffer).bytes(),
        final(buffer).position() == old(buffer).position() + message_len(
            table@,
            old(buffer).unread(),
        ),
{
    match buffer.read_short() {
        Ok(protocolId) => {
            assert(buffer.unread() =~= old(buffer).unread().skip(2));
            readNoProtocolId(table, buffer, protocolId)
        },
        Err(e) => Err(e),
    }
}

/// Reads the payload of a packet under the schema registered for
/// `protocolId`. An id with no schema yields [`Decoded::NotFound`] and
/// consumes nothing; a payload cut short is an underflow and consumes nothing.
pub fn readNoProtocolId(table: &HandlerTable, buffer: &mut ByteBuffer, protocolId: i16) -> (r:
    Result<Decoded, CodecError>)
    requires
        table.wf(),
        old(buffer).wf(),
    ensures
        final(buffer).wf(),
        outcome_view(r) == decode_payload(table@, protocolId, old(buffer).unread()),
        final(buffer).bytes() == old(buffer).bytes(),
        final(buffer).position() == old(buffer).position() + payload_len(
            table@,
            protocolId,
            old(buffer).unread(),
        ),
{
    match table.lookup(protocolId) {
        None => Ok(Decoded::NotFound(protocolId)),
        Some(schema) => match read_fields(buffer, schema) {
            Ok(fields) => Ok(Decoded::Packet { id: protocolId, packet: Packet { fields } }),
            Err(e) => Err(e),
        },
    }
}

} // verus!
