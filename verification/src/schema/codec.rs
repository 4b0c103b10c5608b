//! Schemas as bytes.
//!
//! A schema is written in prefix form. A primitive is the byte 0 and the
//! byte of its kind; an opaque primitive adds its size and its alignment,
//! eight bytes each, least significant byte first. A struct is the byte 1,
//! the number of its fields in eight bytes, and the fields one after the
//! other. A vector is the byte 2 and its element.
//!
//! Reading goes no deeper than [`MAX_SCHEMA_DEPTH`] levels, so that bytes
//! from elsewhere cannot make it nest without end.

use vstd::bytes::{
    lemma_auto_spec_u64_to_from_le_bytes, spec_u64_from_le_bytes, spec_u64_to_le_bytes,
    u64_from_le_bytes, u64_to_le_bytes,
};
use vstd::prelude::*;
use vstd::slice::slice_subrange;
use crate::schema::{Primitive, Schema, SchemaModel};

verus! {

/// The number of levels that a schema read from bytes can have.
pub const MAX_SCHEMA_DEPTH: usize = 32;

/// Whether a schema has at most `depth` levels, and no struct in it more
/// fields than eight bytes can count.
pub open spec fn fits(m: SchemaModel, depth: nat) -> bool
    decreases m,
{
    match m {
        SchemaModel::Primitive(_) => depth >= 1,
        SchemaModel::Struct(fields) => depth >= 1 && fields.len() <= u64::MAX && forall|i: int|
            0 <= i < fields.len() ==> fits(#[trigger] fields[i], (depth - 1) as nat),
        SchemaModel::Vec(element) => depth >= 1 && fits(*element, (depth - 1) as nat),
    }
}

/// The bytes of a primitive, after the byte that says it is one.
pub open spec fn primitive_encoding(p: Primitive) -> Seq<u8> {
    match p {
        Primitive::Bool => seq![0u8],
        Primitive::U8 => seq![1u8],
        Primitive::U16 => seq![2u8],
        Primitive::U32 => seq![3u8],
        Primitive::U64 => seq![4u8],
        Primitive::U128 => seq![5u8],
        Primitive::I8 => seq![6u8],
        Primitive::I16 => seq![7u8],
        Primitive::I32 => seq![8u8],
        Primitive::I64 => seq![9u8],
        Primitive::I128 => seq![10u8],
        Primitive::F32 => seq![11u8],
        Primitive::F64 => seq![12u8],
        Primitive::String => seq![13u8],
        Primitive::Opaque { size, align } => seq![14u8] + spec_u64_to_le_bytes(size as u64)
            + spec_u64_to_le_bytes(align as u64),
    }
}

/// The bytes of a schema.
pub open spec fn encoding(m: SchemaModel) -> Seq<u8>
    decreases m, 0nat,
{
    match m {
        SchemaModel::Primitive(p) => seq![0u8] + primitive_encoding(p),
        SchemaModel::Struct(fields) => seq![1u8] + spec_u64_to_le_bytes(fields.len() as u64)
            + encoding_from(fields, 0),
        SchemaModel::Vec(element) => seq![2u8] + encoding(*element),
    }
}

/// The bytes of the fields from place `k` on, one after the other.
pub open spec fn encoding_from(fields: Seq<SchemaModel>, k: int) -> Seq<u8>
    decreases fields, fields.len() - k,
{
    if k < 0 || k >= fields.len() {
        Seq::empty()
    } else {
        encoding(fields[k]) + encoding_from(fields, k + 1)
    }
}

/// Reads a primitive from the front of the bytes: the primitive and the
/// bytes that follow it, or nothing if the bytes do not begin with one.
pub open spec fn parse_primitive(b: Seq<u8>) -> Option<(Primitive, Seq<u8>)> {
    if b.len() == 0 {
        None
    } else if b[0] == 14 {
        if b.len() < 17 {
            None
        } else {
            let size = spec_u64_from_le_bytes(b.subrange(1, 9));
            let align = spec_u64_from_le_bytes(b.subrange(9, 17));
            if size <= usize::MAX && align <= usize::MAX {
                Some((Primitive::Opaque { size: size as usize, align: align as usize }, b.skip(17)))
            } else {
                None
            }
        }
    } else {
        match plain_primitive(b[0]) {
            Some(p) => Some((p, b.skip(1))),
            None => None,
        }
    }
}

/// The primitive without parts that a byte stands for.
pub open spec fn plain_primitive(code: u8) -> Option<Primitive> {
    if code == 0 {
        Some(Primitive::Bool)
    } else if code == 1 {
        Some(Primitive::U8)
    } else if code == 2 {
        Some(Primitive::U16)
    } else if code == 3 {
        Some(Primitive::U32)
    } else if code == 4 {
        Some(Primitive::U64)
    } else if code == 5 {
        Some(Primitive::U128)
    } else if code == 6 {
        Some(Primitive::I8)
    } else if code == 7 {
        Some(Primitive::I16)
    } else if code == 8 {
        Some(Primitive::I32)
    } else if code == 9 {
        Some(Primitive::I64)
    } else if code == 10 {
        Some(Primitive::I128)
    } else if code == 11 {
        Some(Primitive::F32)
    } else if code == 12 {
        Some(Primitive::F64)
    } else if code == 13 {
        Some(Primitive::String)
    } else {
        None
    }
}

/// Reads a schema of at most `depth` levels from the front of the bytes:
/// the schema and the bytes that follow it, or nothing if the bytes do not
/// begin with one.
pub open spec fn parse(b: Seq<u8>, depth: nat) -> Option<(SchemaModel, Seq<u8>)>
    decreases b.len(), 0nat,
{
    if depth == 0 || b.len() == 0 {
        None
    } else if b[0] == 0 {
        match parse_primitive(b.skip(1)) {
            Some((p, rest)) => Some((SchemaModel::Primitive(p), rest)),
            None => None,
        }
    } else if b[0] == 1 {
        if b.len() < 9 {
            None
        } else {
            let count = spec_u64_from_le_bytes(b.subrange(1, 9));
            match parse_fields(b.skip(9), count as nat, (depth - 1) as nat) {
                Some((fields, rest)) => Some((SchemaModel::Struct(fields), rest)),
                None => None,
            }
        }
    } else if b[0] == 2 {
        match parse(b.skip(1), (depth - 1) as nat) {
            Some((element, rest)) => Some((SchemaModel::Vec(Box::new(element)), rest)),
            None => None,
        }
    } else {
        None
    }
}

/// Reads `count` schemas of at most `depth` levels, one after the other,
/// from the front of the bytes.
pub open spec fn parse_fields(b: Seq<u8>, count: nat, depth: nat) -> Option<
    (Seq<SchemaModel>, Seq<u8>),
>
    decreases b.len(), count + 1,
{
    if count == 0 {
        Some((Seq::empty(), b))
    } else {
        match parse(b, depth) {
            Some((first, rest)) => if rest.len() < b.len() {
                match parse_fields(rest, (count - 1) as nat, depth) {
                    Some((others, end)) => Some((seq![first] + others, end)),
                    None => None,
                }
            } else {
                None
            },
            None => None,
        }
    }
}

/// What a whole sequence of bytes stands for: the schema of at most
/// [`MAX_SCHEMA_DEPTH`] levels that it is the encoding of, if it is one.
pub open spec fn decoding(b: Seq<u8>) -> Option<SchemaModel> {
    match parse(b, MAX_SCHEMA_DEPTH as nat) {
        Some((m, rest)) => if rest.len() == 0 {
            Some(m)
        } else {
            None
        },
        None => None,
    }
}

/// The encoding of a schema is never empty.
pub proof fn lemma_encoding_not_empty(m: SchemaModel)
    ensures
        encoding(m).len() >= 1,
{
}

/// Reading a primitive back from its bytes, whatever follows them, gives
/// the primitive and what follows.
pub proof fn lemma_parse_primitive_encoding(p: Primitive, rest: Seq<u8>)
    ensures
        parse_primitive(primitive_encoding(p) + rest) == Some((p, rest)),
{
    let b = primitive_encoding(p) + rest;
    lemma_auto_spec_u64_to_from_le_bytes();
    match p {
        Primitive::Opaque { size, align } => {
            assert(b.subrange(1, 9) =~= spec_u64_to_le_bytes(size as u64));
            assert(b.subrange(9, 17) =~= spec_u64_to_le_bytes(align as u64));
            assert(b.skip(17) =~= rest);
        },
        _ => {
            assert(b.skip(1) =~= rest);
        },
    }
}

/// Reading a schema back from its bytes, whatever follows them, gives the
/// schema and what follows.
pub proof fn lemma_parse_encoding(m: SchemaModel, rest: Seq<u8>, depth: nat)
    requires
        fits(m, depth),
    ensures
        parse(encoding(m) + rest, depth) == Some((m, rest)),
    decreases m, 0nat,
{
    let b = encoding(m) + rest;
    match m {
        SchemaModel::Primitive(p) => {
            assert(b.skip(1) =~= primitive_encoding(p) + rest);
            lemma_parse_primitive_encoding(p, rest);
        },
        SchemaModel::Struct(fields) => {
            lemma_auto_spec_u64_to_from_le_bytes();
            assert(b.subrange(1, 9) =~= spec_u64_to_le_bytes(fields.len() as u64));
            assert(b.skip(9) =~= encoding_from(fields, 0) + rest);
            lemma_parse_fields_encoding(fields, 0, rest, (depth - 1) as nat);
            assert(fields.skip(0) =~= fields);
        },
        SchemaModel::Vec(element) => {
            assert(b.skip(1) =~= encoding(*element) + rest);
            lemma_parse_encoding(*element, rest, (depth - 1) as nat);
        },
    }
}

/// Reading the fields from place `k` on back from their bytes, whatever
/// follows them, gives those fields and what follows.
pub proof fn lemma_parse_fields_encoding(
    fields: Seq<SchemaModel>,
    k: int,
    rest: Seq<u8>,
    depth: nat,
)
    requires
        0 <= k <= fields.len(),
        forall|i: int| 0 <= i < fields.len() ==> fits(#[trigger] fields[i], depth),
    ensures
        parse_fields(encoding_from(fields, k) + rest, (fields.len() - k) as nat, depth) == Some(
            (fields.skip(k), rest),
        ),
    decreases fields, fields.len() - k,
{
    if k == fields.len() {
        assert(encoding_from(fields, k) + rest =~= rest);
        assert(fields.skip(k) =~= Seq::<SchemaModel>::empty());
    } else {
        let b = encoding_from(fields, k) + rest;
        let after = encoding_from(fields, k + 1) + rest;
        assert(b =~= encoding(fields[k]) + after);
        lemma_parse_encoding(fields[k], after, depth);
        lemma_encoding_not_empty(fields[k]);
        lemma_parse_fields_encoding(fields, k + 1, rest, depth);
        assert(seq![fields[k]] + fields.skip(k + 1) =~= fields.skip(k));
    }
}

/// Writing a schema and reading it back gives the schema again.
pub proof fn lemma_decoding_encoding(m: SchemaModel)
    requires
        fits(m, MAX_SCHEMA_DEPTH as nat),
    ensures
        decoding(encoding(m)) == Some(m),
{
    lemma_parse_encoding(m, Seq::empty(), MAX_SCHEMA_DEPTH as nat);
    assert(encoding(m) + Seq::<u8>::empty() =~= encoding(m));
}

/// What is read as a primitive from the front of bytes is written as the
/// bytes that were read.
pub proof fn lemma_parse_primitive_sound(b: Seq<u8>)
    ensures
        parse_primitive(b) matches Some((p, rest)) ==> b == primitive_encoding(p) + rest,
{
    lemma_auto_spec_u64_to_from_le_bytes();
    match parse_primitive(b) {
        Some((p, rest)) => {
            match p {
                Primitive::Opaque { size, align } => {
                    assert(spec_u64_to_le_bytes(size as u64) == b.subrange(1, 9));
                    assert(spec_u64_to_le_bytes(align as u64) == b.subrange(9, 17));
                    assert(b =~= primitive_encoding(p) + rest);
                },
                _ => {
                    assert(b =~= primitive_encoding(p) + rest);
                },
            }
        },
        None => {},
    }
}

/// The bytes of fields do not change when a field is put in front of them.
proof fn lemma_encoding_from_shift(first: SchemaModel, others: Seq<SchemaModel>, k: int)
    requires
        0 <= k,
    ensures
        encoding_from(seq![first] + others, k + 1) == encoding_from(others, k),
    decreases others.len() - k,
{
    let all = seq![first] + others;
    if k < others.len() {
        assert(all[k + 1] == others[k]);
        lemma_encoding_from_shift(first, others, k + 1);
    }
}

/// What is read as a schema from the front of bytes has at most the levels
/// that were allowed, and is written as the bytes that were read.
pub proof fn lemma_parse_sound(b: Seq<u8>, depth: nat)
    ensures
        parse(b, depth) matches Some((m, rest)) ==> b == encoding(m) + rest && fits(m, depth),
    decreases b.len(), 0nat,
{
    match parse(b, depth) {
        Some((m, rest)) => {
            if b[0] == 0 {
                lemma_parse_primitive_sound(b.skip(1));
                assert(b =~= seq![0u8] + b.skip(1));
            } else if b[0] == 1 {
                lemma_auto_spec_u64_to_from_le_bytes();
                let count = spec_u64_from_le_bytes(b.subrange(1, 9));
                lemma_parse_fields_sound(b.skip(9), count as nat, (depth - 1) as nat);
                assert(spec_u64_to_le_bytes(count) == b.subrange(1, 9));
                assert(b =~= seq![1u8] + b.subrange(1, 9) + b.skip(9));
            } else {
                lemma_parse_sound(b.skip(1), (depth - 1) as nat);
                assert(b =~= seq![2u8] + b.skip(1));
            }
        },
        None => {},
    }
}

/// What is read as fields from the front of bytes are as many as were asked
/// for, have at most the levels that were allowed, and are written as the
/// bytes that were read.
pub proof fn lemma_parse_fields_sound(b: Seq<u8>, count: nat, depth: nat)
    ensures
        parse_fields(b, count, depth) matches Some((fields, rest)) ==> fields.len() == count && b
            == encoding_from(fields, 0) + rest && forall|i: int|
            0 <= i < fields.len() ==> fits(#[trigger] fields[i], depth),
    decreases b.len(), count + 1,
{
    match parse_fields(b, count, depth) {
        Some((fields, rest)) => {
            if count == 0 {
                assert(b =~= encoding_from(fields, 0) + rest);
            } else {
                lemma_parse_sound(b, depth);
                let first = parse(b, depth).unwrap().0;
                let after = parse(b, depth).unwrap().1;
                lemma_parse_fields_sound(after, (count - 1) as nat, depth);
                let others = parse_fields(after, (count - 1) as nat, depth).unwrap().0;
                lemma_encoding_from_shift(first, others, 0);
                assert(fields == seq![first] + others);
                assert(b =~= encoding_from(fields, 0) + rest);
                assert forall|i: int| 0 <= i < fields.len() implies fits(
                    #[trigger] fields[i],
                    depth,
                ) by {
                    if i > 0 {
                        assert(fields[i] == others[i - 1]);
                    }
                }
            }
        },
        None => {},
    }
}

/// Bytes stand for a schema exactly when they are its encoding and it has
/// at most [`MAX_SCHEMA_DEPTH`] levels.
pub proof fn lemma_decoding(b: Seq<u8>, m: SchemaModel)
    ensures
        decoding(b) == Some(m) <==> b == encoding(m) && fits(m, MAX_SCHEMA_DEPTH as nat),
{
    lemma_parse_sound(b, MAX_SCHEMA_DEPTH as nat);
    if b == encoding(m) && fits(m, MAX_SCHEMA_DEPTH as nat) {
        lemma_decoding_encoding(m);
    }
    if decoding(b) == Some(m) {
        assert(encoding(m) + Seq::<u8>::empty() =~= encoding(m));
    }
}

/// The byte of a primitive's kind.
fn primitive_code(p: &Primitive) -> (code: u8)
    ensures
        code == primitive_encoding(*p)[0],
        code <= 14,
        (code == 14) == (*p is Opaque),
{
    match p {
        Primitive::Bool => 0,
        Primitive::U8 => 1,
        Primitive::U16 => 2,
        Primitive::U32 => 3,
        Primitive::U64 => 4,
        Primitive::U128 => 5,
        Primitive::I8 => 6,
        Primitive::I16 => 7,
        Primitive::I32 => 8,
        Primitive::I64 => 9,
        Primitive::I128 => 10,
        Primitive::F32 => 11,
        Primitive::F64 => 12,
        Primitive::String => 13,
        Primitive::Opaque { .. } => 14,
    }
}

/// The primitive without parts that a byte stands for.
fn primitive_of(code: u8) -> (p: Option<Primitive>)
    ensures
        p == plain_primitive(code),
{
    if code == 0 {
        Some(Primitive::Bool)
    } else if code == 1 {
        Some(Primitive::U8)
    } else if code == 2 {
        Some(Primitive::U16)
    } else if code == 3 {
        Some(Primitive::U32)
    } else if code == 4 {
        Some(Primitive::U64)
    } else if code == 5 {
        Some(Primitive::U128)
    } else if code == 6 {
        Some(Primitive::I8)
    } else if code == 7 {
        Some(Primitive::I16)
    } else if code == 8 {
        Some(Primitive::I32)
    } else if code == 9 {
        Some(Primitive::I64)
    } else if code == 10 {
        Some(Primitive::I128)
    } else if code == 11 {
        Some(Primitive::F32)
    } else if code == 12 {
        Some(Primitive::F64)
    } else if code == 13 {
        Some(Primitive::String)
    } else {
        None
    }
}

impl Schema {
    /// The bytes of the schema.
    pub fn encode(&self) -> (bytes: Vec<u8>)
        ensures
            bytes@ == encoding(self@),
    {
        let mut bytes: Vec<u8> = Vec::new();
        self.encode_into(&mut bytes);
        proof {
            assert(Seq::<u8>::empty() + encoding(self@) =~= encoding(self@));
        }
        bytes
    }

    /// Appends the bytes of the schema.
    pub fn encode_into(&self, out: &mut Vec<u8>)
        ensures
            final(out)@ == old(out)@ + encoding(self@),
        decreases self,
    {
        match self {
            Schema::Primitive(p) => {
                out.push(0);
                out.push(primitive_code(p));
                match p {
                    Primitive::Opaque { size, align } => {
                        let mut size_bytes = u64_to_le_bytes(*size as u64);
                        let mut align_bytes = u64_to_le_bytes(*align as u64);
                        out.append(&mut size_bytes);
                        out.append(&mut align_bytes);
                    },
                    _ => {},
                }
                proof {
                    assert(out@ =~= old(out)@ + encoding(self@));
                }
            },
            Schema::Struct(fields) => {
                out.push(1);
                let mut count_bytes = u64_to_le_bytes(fields.len() as u64);
                out.append(&mut count_bytes);
                let ghost models = self@->Struct_0;
                let ghost start = out@;
                let mut k: usize = 0;
                while k < fields.len()
                    invariant
                        k <= fields@.len(),
                        *self == Schema::Struct(*fields),
                        models == self@->Struct_0,
                        models.len() == fields@.len(),
                        out@ + encoding_from(models, k as int) == start + encoding_from(models, 0),
                    decreases fields@.len() - k,
                {
                    let ghost before = out@;
                    fields[k].encode_into(out);
                    proof {
                        assert(models[k as int] == fields@[k as int]@);
                        assert(out@ + encoding_from(models, k + 1) =~= before + encoding_from(
                            models,
                            k as int,
                        ));
                    }
                    k += 1;
                }
                proof {
                    assert(out@ =~= out@ + encoding_from(models, k as int));
                    assert(start + encoding_from(models, 0) =~= old(out)@ + encoding(self@));
                }
            },
            Schema::Vec(element) => {
                out.push(2);
                element.encode_into(out);
                proof {
                    assert(out@ =~= old(out)@ + encoding(self@));
                }
            },
        }
    }

    /// The schema that the bytes stand for, if they are the encoding of one
    /// that has at most [`MAX_SCHEMA_DEPTH`] levels.
    pub fn decode(bytes: &[u8]) -> (r: Option<Schema>)
        ensures
            match r {
                Some(schema) => decoding(bytes@) == Some(schema@) && bytes@ == encoding(schema@),
                None => decoding(bytes@) is None && forall|m: SchemaModel|
                    fits(m, MAX_SCHEMA_DEPTH as nat) ==> bytes@ != #[trigger] encoding(m),
            },
    {
        proof {
            assert(bytes@.skip(0) =~= bytes@);
            assert forall|m: SchemaModel| decoding(bytes@) is None && fits(
                m,
                MAX_SCHEMA_DEPTH as nat,
            ) implies bytes@ != #[trigger] encoding(m) by {
                lemma_decoding(bytes@, m);
            }
        }
        match decode_at(bytes, 0, MAX_SCHEMA_DEPTH) {
            Some((schema, end)) => {
                if end == bytes.len() {
                    proof {
                        lemma_decoding(bytes@, schema@);
                    }
                    Some(schema)
                } else {
                    None
                }
            },
            None => None,
        }
    }
}

/// Reads a schema of at most `depth` levels that begins at place `pos`.
/// Gives the schema and the place where it ends.
fn decode_at(bytes: &[u8], pos: usize, depth: usize) -> (r: Option<(Schema, usize)>)
    requires
        pos <= bytes@.len(),
    ensures
        match r {
            Some((schema, end)) => pos < end <= bytes@.len() && parse(
                bytes@.skip(pos as int),
                depth as nat,
            ) == Some((schema@, bytes@.skip(end as int))),
            None => parse(bytes@.skip(pos as int), depth as nat) is None,
        },
    decreases bytes@.len() - pos,
{
    let ghost b = bytes@.skip(pos as int);
    if depth == 0 || pos >= bytes.len() {
        return None;
    }
    let tag = bytes[pos];
    if tag == 0 {
        proof {
            assert(b.skip(1) =~= bytes@.skip(pos + 1));
        }
        if pos + 1 >= bytes.len() {
            return None;
        }
        let code = bytes[pos + 1];
        if code == 14 {
            if bytes.len() - pos < 18 {
                return None;
            }
            let size = u64_from_le_bytes(slice_subrange(bytes, pos + 2, pos + 10));
            let align = u64_from_le_bytes(slice_subrange(bytes, pos + 10, pos + 18));
            proof {
                assert(b.skip(1).subrange(1, 9) =~= bytes@.subrange(pos + 2, pos + 10));
                assert(b.skip(1).subrange(9, 17) =~= bytes@.subrange(pos + 10, pos + 18));
                assert(b.skip(1).skip(17) =~= bytes@.skip(pos + 18));
            }
            if size > usize::MAX as u64 || align > usize::MAX as u64 {
                return None;
            }
            Some(
                (
                    Schema::Primitive(Primitive::Opaque { size: size as usize, align: align as usize }),
                    pos + 18,
                ),
            )
        } else {
            proof {
                assert(b.skip(1).skip(1) =~= bytes@.skip(pos + 2));
            }
            match primitive_of(code) {
                Some(p) => Some((Schema::Primitive(p), pos + 2)),
                None => None,
            }
        }
    } else if tag == 1 {
        if bytes.len() - pos < 9 {
            return None;
        }
        let count = u64_from_le_bytes(slice_subrange(bytes, pos + 1, pos + 9));
        proof {
            assert(b.subrange(1, 9) =~= bytes@.subrange(pos + 1, pos + 9));
            assert(b.skip(9) =~= bytes@.skip(pos + 9));
        }
        let mut fields: Vec<Schema> = Vec::new();
        let mut at: usize = pos + 9;
        let mut k: u64 = 0;
        let ghost inner = (depth - 1) as nat;
        let ghost whole = parse_fields(bytes@.skip(pos + 9), count as nat, inner);
        while k < count
            invariant
                k <= count,
                pos + 9 <= at <= bytes@.len(),
                inner == depth - 1,
                depth >= 1,
                fields@.len() == k,
                whole == parse_fields(bytes@.skip(pos + 9), count as nat, inner),
                parse(bytes@.skip(pos as int), depth as nat) == (match whole {
                    Some((all, rest)) => Some((SchemaModel::Struct(all), rest)),
                    None => None,
                }),
                whole == (match parse_fields(bytes@.skip(at as int), (count - k) as nat, inner) {
                    Some((others, rest)) => Some(
                        (Seq::new(fields@.len(), |i: int| fields@[i]@) + others, rest),
                    ),
                    None => None,
                }),
            decreases count - k,
        {
            let ghost done = Seq::new(fields@.len(), |i: int| fields@[i]@);
            match decode_at(bytes, at, depth - 1) {
                Some((field, end)) => {
                    proof {
                        let after = parse_fields(
                            bytes@.skip(end as int),
                            (count - k - 1) as nat,
                            inner,
                        );
                        if after is Some {
                            let grown = Seq::new(fields@.len() + 1, |i: int| fields@.push(field)[i]@);
                            assert(grown + after.unwrap().0 =~= done + (seq![field@]
                                + after.unwrap().0));
                        }
                    }
                    fields.push(field);
                    at = end;
                },
                None => {
                    return None;
                },
            }
            k += 1;
        }
        proof {
            let models = Seq::new(fields@.len(), |i: int| fields@[i]@);
            assert(models + Seq::<SchemaModel>::empty() =~= models);
            assert(Schema::Struct(fields)@ == SchemaModel::Struct(models)) by {
                assert(Schema::Struct(fields)@->Struct_0 =~= models);
            }
        }
        Some((Schema::Struct(fields), at))
    } else if tag == 2 {
        proof {
            assert(b.skip(1) =~= bytes@.skip(pos + 1));
        }
        match decode_at(bytes, pos + 1, depth - 1) {
            Some((element, end)) => Some((Schema::Vec(Box::new(element)), end)),
            None => None,
        }
    } else {
        None
    }
}

} // verus!
