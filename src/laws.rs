//! Properties of whole messages, stated over the specifications that
//! [`write`](crate::dispatch::write) and [`read`](crate::dispatch::read) meet.
use vstd::prelude::*;

use crate::dispatch::{
    decode_message, encode_message, encode_payload, id_of, message_len, write_status,
};
use crate::error::CodecError;
use crate::schema::{conforms, encode_fields, lemma_fields_round_trip, FieldKind, Packet, Value};
use crate::wire::{int_bytes, lemma_int_round_trip, lemma_pow256_values};

verus! {

/// The id bytes that begin a message read back as that id.
proof fn lemma_id_prefix(id: i16, rest: Seq<u8>)
    ensures
        (int_bytes(id as int, 2) + rest).len() >= 2,
        id_of(int_bytes(id as int, 2) + rest) == id,
        (int_bytes(id as int, 2) + rest).skip(2) == rest,
{
    lemma_pow256_values();
    lemma_int_round_trip(id as int, 2);
    let all = int_bytes(id as int, 2) + rest;
    assert(all.take(2) =~= int_bytes(id as int, 2));
    assert(all.skip(2) =~= rest);
}

/// Round trip: writing a packet whose values fit the schema registered under
/// `id`, and reading the bytes back, with anything after them, yields `id`
/// and those values, and consumes exactly the bytes written.
pub proof fn lemma_round_trip(
    schemas: Map<i16, Seq<FieldKind>>,
    id: i16,
    vs: Seq<Value>,
    tail: Seq<u8>,
)
    requires
        schemas.contains_key(id),
        conforms(schemas[id], vs),
    ensures
        write_status(encode_payload(schemas, id, vs)) == Ok::<(), CodecError>(()),
        decode_message(schemas, encode_message(schemas, id, vs) + tail) == Ok::<
            (i16, Option<Seq<Value>>),
            CodecError,
        >((id, Some(vs))),
        message_len(schemas, encode_message(schemas, id, vs) + tail) == encode_message(
            schemas,
            id,
            vs,
        ).len(),
{
    let msg = encode_message(schemas, id, vs);
    let payload = encode_fields(vs);
    lemma_fields_round_trip(schemas[id], vs, tail);
    assert(msg == int_bytes(id as int, 2) + payload);
    assert(msg + tail =~= int_bytes(id as int, 2) + (payload + tail));
    lemma_id_prefix(id, payload + tail);
}

/// Writing under an id with no registered schema appends the id and nothing
/// after it, and reports the id as unknown.
pub proof fn lemma_unknown_write(schemas: Map<i16, Seq<FieldKind>>, id: i16, vs: Seq<Value>)
    requires
        !schemas.contains_key(id),
    ensures
        write_status(encode_payload(schemas, id, vs)) == Err::<(), CodecError>(
            CodecError::UnknownProtocolId(id),
        ),
        encode_message(schemas, id, vs) == int_bytes(id as int, 2),
{
    assert(encode_message(schemas, id, vs) =~= int_bytes(id as int, 2));
}

/// Reading a message whose id has no registered schema yields the not-found
/// marker for that id and consumes the id alone, whatever follows it.
pub proof fn lemma_unknown_read(schemas: Map<i16, Seq<FieldKind>>, id: i16, rest: Seq<u8>)
    requires
        !schemas.contains_key(id),
    ensures
        decode_message(schemas, int_bytes(id as int, 2) + rest) == Ok::<
            (i16, Option<Seq<Value>>),
            CodecError,
        >((id, None)),
        message_len(schemas, int_bytes(id as int, 2) + rest) == 2,
{
    lemma_id_prefix(id, rest);
}

/// Encoding is deterministic: two packets with the same values, written
/// under the same id and table, give the same bytes.
pub proof fn lemma_deterministic(
    schemas: Map<i16, Seq<FieldKind>>,
    id: i16,
    p: Packet,
    q: Packet,
)
    requires
        p@ == q@,
    ensures
        encode_message(schemas, id, p@) == encode_message(schemas, id, q@),
        write_status(encode_payload(schemas, id, p@)) == write_status(
            encode_payload(schemas, id, q@),
        ),
{
}

} // verus!
