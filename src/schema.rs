//! Packet schemas: the field kinds a payload is laid out by, and the codec
//! for a packet's field values.
use vstd::prelude::*;

use crate::buffer::ByteBuffer;
use crate::error::CodecError;
use crate::wire::{
    bool_bytes, bool_of_bytes, int_bytes, int_of_bytes, lemma_int_round_trip, lemma_pow256_values,
};

verus! {

/// The kind of one payload field, which fixes its width on the wire.
#[derive(Clone, Copy, Debug, PartialEq, Eq, Structural)]
pub enum FieldKind {
    Bool,
    Byte,
    Short,
    Int,
    Long,
}

/// The value of one payload field.
#[derive(Clone, Copy, Debug, PartialEq, Eq, Structural)]
pub enum Value {
    Bool(bool),
    Byte(i8),
    Short(i16),
    Int(i32),
    Long(i64),
}

/// A packet: its field values, in schema order.
#[derive(Clone, Debug, PartialEq, Eq)]
pub struct Packet {
    pub fields: Vec<Value>,
}

impl View for Packet {
    type V = Seq<Value>;

    open spec fn view(&self) -> Seq<Value> {
        self.fields@
    }
}

impl Packet {
    /// A packet holding `fields`.
    pub fn new(fields: Vec<Value>) -> (r: Packet)
        ensures
            r@ == fields@,
    {
        Packet { fields }
    }
}

/// The kind that a value belongs to.
pub open spec fn kind_of(v: Value) -> FieldKind {
    match v {
        Value::Bool(_) => FieldKind::Bool,
        Value::Byte(_) => FieldKind::Byte,
        Value::Short(_) => FieldKind::Short,
        Value::Int(_) => FieldKind::Int,
        Value::Long(_) => FieldKind::Long,
    }
}

/// How many bytes a field of kind `k` takes on the wire.
pub open spec fn width(k: FieldKind) -> nat {
    match k {
        FieldKind::Bool => 1,
        FieldKind::Byte => 1,
        FieldKind::Short => 2,
        FieldKind::Int => 4,
        FieldKind::Long => 8,
    }
}

/// The wire bytes of one value.
pub open spec fn value_bytes(v: Value) -> Seq<u8> {
    match v {
        Value::Bool(b) => bool_bytes(b),
        Value::Byte(x) => int_bytes(x as int, 1),
        Value::Short(x) => int_bytes(x as int, 2),
        Value::Int(x) => int_bytes(x as int, 4),
        Value::Long(x) => int_bytes(x as int, 8),
    }
}

/// The value of kind `k` that the wire bytes `s` hold.
pub open spec fn decode_value(k: FieldKind, s: Seq<u8>) -> Value {
    match k {
        FieldKind::Bool => Value::Bool(bool_of_bytes(s)),
        FieldKind::Byte => Value::Byte(int_of_bytes(s) as i8),
        FieldKind::Short => Value::Short(int_of_bytes(s) as i16),
        FieldKind::Int => Value::Int(int_of_bytes(s) as i32),
        FieldKind::Long => Value::Long(int_of_bytes(s) as i64),
    }
}

/// The number of payload bytes that a schema lays out.
pub open spec fn schema_size(schema: Seq<FieldKind>) -> nat
    decreases schema.len(),
{
    if schema.len() == 0 {
        0
    } else {
        schema_size(schema.drop_last()) + width(schema.last())
    }
}

/// Whether the values `vs` are, one for one, of the kinds that `schema` lists.
pub open spec fn conforms(schema: Seq<FieldKind>, vs: Seq<Value>) -> bool {
    &&& vs.len() == schema.len()
    &&& forall|i: int| 0 <= i < vs.len() ==> kind_of(#[trigger] vs[i]) == schema[i]
}

/// The payload bytes of the values `vs`: their wire bytes, one after another.
pub open spec fn encode_fields(vs: Seq<Value>) -> Seq<u8>
    decreases vs.len(),
{
    if vs.len() == 0 {
        Seq::empty()
    } else {
        encode_fields(vs.drop_last()) + value_bytes(vs.last())
    }
}

/// The values that the payload at the start of `bytes` holds under `schema`.
pub open spec fn decode_fields(schema: Seq<FieldKind>, bytes: Seq<u8>) -> Seq<Value>
    decreases schema.len(),
{
    if schema.len() == 0 {
        Seq::empty()
    } else {
        let init = schema.drop_last();
        let off = schema_size(init) as int;
        decode_fields(init, bytes).push(
            decode_value(schema.last(), bytes.subrange(off, off + width(schema.last()))),
        )
    }
}

/// Each value's wire bytes are as wide as its kind, and decode back to it.
pub proof fn lemma_value_round_trip(v: Value)
    ensures
        value_bytes(v).len() == width(kind_of(v)),
        decode_value(kind_of(v), value_bytes(v)) == v,
{
    lemma_pow256_values();
    match v {
        Value::Bool(_) => {},
        Value::Byte(x) => lemma_int_round_trip(x as int, 1),
        Value::Short(x) => lemma_int_round_trip(x as int, 2),
        Value::Int(x) => lemma_int_round_trip(x as int, 4),
        Value::Long(x) => lemma_int_round_trip(x as int, 8),
    }
}

/// A prefix of a schema lays out no more bytes than the whole.
pub proof fn lemma_schema_size_prefix(schema: Seq<FieldKind>, j: int)
    requires
        0 <= j <= schema.len(),
    ensures
        schema_size(schema.take(j)) <= schema_size(schema),
    decreases schema.len(),
{
    if j < schema.len() {
        lemma_schema_size_prefix(schema.drop_last(), j);
        assert(schema.drop_last().take(j) =~= schema.take(j));
    } else {
        assert(schema.take(j) =~= schema);
    }
}

/// Conforming values fill exactly the schema's size, and decoding them, with
/// any bytes after them, gives them back.
pub proof fn lemma_fields_round_trip(schema: Seq<FieldKind>, vs: Seq<Value>, tail: Seq<u8>)
    requires
        conforms(schema, vs),
    ensures
        encode_fields(vs).len() == schema_size(schema),
        decode_fields(schema, encode_fields(vs) + tail) == vs,
    decreases vs.len(),
{
    if vs.len() == 0 {
        assert(decode_fields(schema, encode_fields(vs) + tail) =~= vs);
    } else {
        let init = schema.drop_last();
        let vi = vs.drop_last();
        let last = vs.last();
        let vb = value_bytes(last);
        assert(kind_of(vs[vs.len() - 1]) == schema[schema.len() - 1]);
        assert(conforms(init, vi)) by {
            assert forall|i: int| 0 <= i < vi.len() implies kind_of(#[trigger] vi[i]) == init[i] by {
                assert(kind_of(vs[i]) == schema[i]);
            }
        }
        lemma_fields_round_trip(init, vi, vb + tail);
        lemma_value_round_trip(last);
        let e = encode_fields(vi);
        let all = encode_fields(vs) + tail;
        assert(all =~= e + (vb + tail));
        let off = schema_size(init) as int;
        assert(all.subrange(off, off + width(schema.last())) =~= vb);
        assert(decode_fields(schema, all) =~= vs);
    }
}

/// Whether the values `vs` are, one for one, of the kinds that `schema` lists.
pub fn conforms_to(schema: &Vec<FieldKind>, vs: &Vec<Value>) -> (r: bool)
    ensures
        r == conforms(schema@, vs@),
{
    if schema.len() != vs.len() {
        return false;
    }
    let mut i: usize = 0;
    while i < vs.len()
        invariant
            vs@.len() == schema@.len(),
            i <= vs@.len(),
            forall|j: int| 0 <= j < i ==> kind_of(#[trigger] vs@[j]) == schema@[j],
        decreases vs@.len() - i,
    {
        if value_kind(&vs[i]) != schema[i] {
            return false;
        }
        i = i + 1;
    }
    true
}

/// The kind that `v` belongs to.
pub fn value_kind(v: &Value) -> (r: FieldKind)
    ensures
        r == kind_of(*v),
{
    match v {
        Value::Bool(_) => FieldKind::Bool,
        Value::Byte(_) => FieldKind::Byte,
        Value::Short(_) => FieldKind::Short,
        Value::Int(_) => FieldKind::Int,
        Value::Long(_) => FieldKind::Long,
    }
}

/// How many bytes a field of kind `k` takes on the wire.
pub fn field_width(k: FieldKind) -> (r: usize)
    ensures
        r == width(k),
{
    match k {
        FieldKind::Bool => 1,
        FieldKind::Byte => 1,
        FieldKind::Short => 2,
        FieldKind::Int => 4,
        FieldKind::Long => 8,
    }
}

/// Appends the wire bytes of one value.
pub fn write_value(buffer: &mut ByteBuffer, v: Value)
    ensures
        final(buffer).bytes() == old(buffer).bytes() + value_bytes(v),
        final(buffer).position() == old(buffer).position(),
{
    match v {
        Value::Bool(b) => buffer.write_bool(b),
        Value::Byte(x) => buffer.write_byte(x),
        Value::Short(x) => buffer.write_short(x),
        Value::Int(x) => buffer.write_int(x),
        Value::Long(x) => buffer.write_long(x),
    }
}

/// Consumes one value of kind `k`, or reports an underflow and consumes nothing.
pub fn read_value(buffer: &mut ByteBuffer, k: FieldKind) -> (r: Result<Value, CodecError>)
    requires
        old(buffer).wf(),
    ensures
        final(buffer).wf(),
        final(buffer).bytes() == old(buffer).bytes(),
        match r {
            Ok(v) => width(k) <= old(buffer).unread().len() && v == decode_value(
                k,
                old(buffer).unread().take(width(k) as int),
            ) && final(buffer).position() == old(buffer).position() + width(k),
            Err(e) => old(buffer).unread().len() < width(k) && e == CodecError::Underflow
                && final(buffer).position() == old(buffer).position(),
        },
{
    match k {
        FieldKind::Bool => match buffer.read_bool() {
            Ok(b) => Ok(Value::Bool(b)),
            Err(e) => Err(e),
        },
        FieldKind::Byte => match buffer.read_byte() {
            Ok(x) => Ok(Value::Byte(x)),
            Err(e) => Err(e),
        },
        FieldKind::Short => match buffer.read_short() {
            Ok(x) => Ok(Value::Short(x)),
            Err(e) => Err(e),
        },
        FieldKind::Int => match buffer.read_int() {
            Ok(x) => Ok(Value::Int(x)),
            Err(e) => Err(e),
        },
        FieldKind::Long => match buffer.read_long() {
            Ok(x) => Ok(Value::Long(x)),
            Err(e) => Err(e),
        },
    }
}

/// Appends the payload of the values `vs`.
pub fn write_fields(buffer: &mut ByteBuffer, vs: &Vec<Value>)
    ensures
        final(buffer).bytes() == old(buffer).bytes() + encode_fields(vs@),
        final(buffer).position() == old(buffer).position(),
{
    let mut i: usize = 0;
    while i < vs.len()
        invariant
            i <= vs@.len(),
            buffer.bytes() == old(buffer).bytes() + encode_fields(vs@.take(i as int)),
            buffer.position() == old(buffer).position(),
        decreases vs@.len() - i,
    {
        write_value(buffer, vs[i]);
        assert(vs@.take(i + 1).drop_last() =~= vs@.take(i as int));
        assert(buffer.bytes() =~= old(buffer).bytes() + encode_fields(vs@.take(i + 1)));
        i = i + 1;
    }
    assert(vs@.take(vs@.len() as int) =~= vs@);
}

/// Consumes a payload laid out by `schema` and returns its values. When
/// fewer bytes are left than the schema needs, reports an underflow and
/// consumes nothing.
pub fn read_fields(buffer: &mut ByteBuffer, schema: &Vec<FieldKind>) -> (r: Result<
    Vec<Value>,
    CodecError,
>)
    requires
        old(buffer).wf(),
    ensures
        final(buffer).wf(),
        final(buffer).bytes() == old(buffer).bytes(),
        match r {
            Ok(vs) => schema_size(schema@) <= old(buffer).unread().len() && vs@ == decode_fields(
                schema@,
                old(buffer).unread(),
            ) && final(buffer).position() == old(buffer).position() + schema_size(schema@),
            Err(e) => old(buffer).unread().len() < schema_size(schema@) && e
                == CodecError::Underflow && final(buffer).position() == old(buffer).position(),
        },
{
    let remaining = buffer.remaining();
    let mut need: usize = 0;
    let mut i: usize = 0;
    while i < schema.len()
        invariant
            i <= schema@.len(),
            need == schema_size(schema@.take(i as int)),
            need <= remaining,
            remaining == buffer.unread().len(),
            *buffer == *old(buffer),
            buffer.wf(),
        decreases schema@.len() - i,
    {
        let w = field_width(schema[i]);
        assert(schema@.take(i + 1).drop_last() =~= schema@.take(i as int));
        if w > remaining - need {
            proof {
                lemma_schema_size_prefix(schema@, i + 1);
            }
            return Err(CodecError::Underflow);
        }
        need = need + w;
        i = i + 1;
    }
    assert(schema@.take(schema@.len() as int) =~= schema@);
    let ghost rest = buffer.unread();
    let mut out: Vec<Value> = Vec::new();
    let mut j: usize = 0;
    while j < schema.len()
        invariant
            j <= schema@.len(),
            schema_size(schema@) <= rest.len(),
            rest == old(buffer).unread(),
            buffer.wf(),
            buffer.bytes() == old(buffer).bytes(),
            buffer.position() == old(buffer).position() + schema_size(schema@.take(j as int)),
            out@ == decode_fields(schema@.take(j as int), rest),
        decreases schema@.len() - j,
    {
        let ghost off = schema_size(schema@.take(j as int)) as int;
        let ghost w = width(schema@[j as int]);
        proof {
            assert(schema@.take(j + 1).drop_last() =~= schema@.take(j as int));
            lemma_schema_size_prefix(schema@, j + 1);
            assert(buffer.unread() =~= rest.skip(off));
            assert(buffer.unread().take(w as int) =~= rest.subrange(off, off + w));
        }
        match read_value(buffer, schema[j]) {
            Ok(v) => out.push(v),
            Err(e) => return Err(e),
        }
        j = j + 1;
    }
    Ok(out)
}

} // verus!
