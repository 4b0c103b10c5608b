//! Runtime descriptions of component types.
//!
//! A store does not know the Rust type of what it holds; it knows a
//! [`Schema`], a closed structural description. Two schemas describe the same
//! type exactly when they are structurally identical.

use vstd::prelude::*;

pub mod codec;

verus! {

/// The kinds of value that have no parts.
#[derive(Clone, Copy, Debug, PartialEq, Eq, Structural)]
pub enum Primitive {
    Bool,
    U8,
    U16,
    U32,
    U64,
    U128,
    I8,
    I16,
    I32,
    I64,
    I128,
    F32,
    F64,
    /// A growable string.
    String,
    /// A value known by its size and alignment alone.
    Opaque { size: usize, align: usize },
}

/// A structural description of a type.
#[derive(Debug)]
pub enum Schema {
    /// A value without parts.
    Primitive(Primitive),
    /// A composite: the descriptions of its fields, in declaration order.
    Struct(Vec<Schema>),
    /// A growable container of values of one description.
    Vec(Box<Schema>),
}

/// A schema as plain mathematics.
pub enum SchemaModel {
    Primitive(Primitive),
    Struct(Seq<SchemaModel>),
    Vec(Box<SchemaModel>),
}

/// The model of a schema: the same tree, with sequences for vectors.
pub open spec fn model_of(schema: Schema) -> SchemaModel
    decreases schema,
{
    match schema {
        Schema::Primitive(p) => SchemaModel::Primitive(p),
        Schema::Struct(fields) => SchemaModel::Struct(
            Seq::new(
                fields@.len(),
                |i: int|
                    if 0 <= i < fields@.len() {
                        model_of(fields@[i])
                    } else {
                        SchemaModel::Struct(Seq::empty())
                    },
            ),
        ),
        Schema::Vec(element) => SchemaModel::Vec(Box::new(model_of(*element))),
    }
}

impl View for Schema {
    type V = SchemaModel;

    open spec fn view(&self) -> SchemaModel {
        model_of(*self)
    }
}

impl Schema {
    /// Whether two schemas are structurally identical.
    pub fn same_as(&self, other: &Schema) -> (r: bool)
        ensures
            r == (self@ == other@),
        decreases self,
    {
        match (self, other) {
            (Schema::Primitive(p), Schema::Primitive(q)) => *p == *q,
            (Schema::Struct(fields), Schema::Struct(others)) => {
                if fields.len() != others.len() {
                    proof {
                        assert(self@->Struct_0.len() != other@->Struct_0.len());
                    }
                    return false;
                }
                let mut i: usize = 0;
                while i < fields.len()
                    invariant
                        i <= fields@.len(),
                        fields@.len() == others@.len(),
                        *self == Schema::Struct(*fields),
                        *other == Schema::Struct(*others),
                        forall|j: int| 0 <= j < i ==> fields@[j]@ == others@[j]@,
                    decreases fields@.len() - i,
                {
                    if !fields[i].same_as(&others[i]) {
                        proof {
                            assert(self@->Struct_0[i as int] == fields@[i as int]@);
                            assert(other@->Struct_0[i as int] == others@[i as int]@);
                        }
                        return false;
                    }
                    i += 1;
                }
                proof {
                    assert(self@->Struct_0 =~= other@->Struct_0);
                }
                true
            },
            (Schema::Vec(element), Schema::Vec(other_element)) => element.same_as(other_element),
            _ => false,
        }
    }
}

/// The error of a store that is asked to hold, or to load, values of another
/// description than its own.
#[derive(Clone, Copy, Debug, PartialEq, Eq, Structural)]
pub struct SchemaMismatchError;

/// Types that have a schema.
pub trait HasSchema: Sized {
    /// The description of this type, as a model. An implementation that
    /// is verified says here what [`HasSchema::schema`] returns; one that
    /// is not leaves it open.
    open spec fn schema_model() -> SchemaModel {
        arbitrary()
    }

    /// The description of this type.
    fn schema() -> (s: Schema)
        ensures
            s@ == Self::schema_model(),
    ;
}

impl HasSchema for bool {
    open spec fn schema_model() -> SchemaModel {
        SchemaModel::Primitive(Primitive::Bool)
    }

    fn schema() -> (s: Schema) {
        Schema::Primitive(Primitive::Bool)
    }
}

impl HasSchema for u8 {
    open spec fn schema_model() -> SchemaModel {
        SchemaModel::Primitive(Primitive::U8)
    }

    fn schema() -> (s: Schema) {
        Schema::Primitive(Primitive::U8)
    }
}

impl HasSchema for u16 {
    open spec fn schema_model() -> SchemaModel {
        SchemaModel::Primitive(Primitive::U16)
    }

    fn schema() -> (s: Schema) {
        Schema::Primitive(Primitive::U16)
    }
}

impl HasSchema for u32 {
    open spec fn schema_model() -> SchemaModel {
        SchemaModel::Primitive(Primitive::U32)
    }

    fn schema() -> (s: Schema) {
        Schema::Primitive(Primitive::U32)
    }
}

impl HasSchema for u64 {
    open spec fn schema_model() -> SchemaModel {
        SchemaModel::Primitive(Primitive::U64)
    }

    fn schema() -> (s: Schema) {
        Schema::Primitive(Primitive::U64)
    }
}

impl HasSchema for u128 {
    open spec fn schema_model() -> SchemaModel {
        SchemaModel::Primitive(Primitive::U128)
    }

    fn schema() -> (s: Schema) {
        Schema::Primitive(Primitive::U128)
    }
}

impl HasSchema for i8 {
    open spec fn schema_model() -> SchemaModel {
        SchemaModel::Primitive(Primitive::I8)
    }

    fn schema() -> (s: Schema) {
        Schema::Primitive(Primitive::I8)
    }
}

impl HasSchema for i16 {
    open spec fn schema_model() -> SchemaModel {
        SchemaModel::Primitive(Primitive::I16)
    }

    fn schema() -> (s: Schema) {
        Schema::Primitive(Primitive::I16)
    }
}

impl HasSchema for i32 {
    open spec fn schema_model() -> SchemaModel {
        SchemaModel::Primitive(Primitive::I32)
    }

    fn schema() -> (s: Schema) {
        Schema::Primitive(Primitive::I32)
    }
}

impl HasSchema for i64 {
    open spec fn schema_model() -> SchemaModel {
        SchemaModel::Primitive(Primitive::I64)
    }

    fn schema() -> (s: Schema) {
        Schema::Primitive(Primitive::I64)
    }
}

impl HasSchema for i128 {
    open spec fn schema_model() -> SchemaModel {
        SchemaModel::Primitive(Primitive::I128)
    }

    fn schema() -> (s: Schema) {
        Schema::Primitive(Primitive::I128)
    }
}

impl HasSchema for String {
    open spec fn schema_model() -> SchemaModel {
        SchemaModel::Primitive(Primitive::String)
    }

    fn schema() -> (s: Schema) {
        Schema::Primitive(Primitive::String)
    }
}

} // verus!
