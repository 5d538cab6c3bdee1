//! The serialization contract: the three capabilities a type exposes to
//! participate, and their implementations for the built-in primitives and
//! strings.

use crate::bytes::{
    enc_str, i16_le, i32_le, i64_le, lemma_prefix_split, lemma_u16_prefix_value,
    lemma_u32_prefix_value, lemma_u64_from_le_concat, lemma_u64_prefix_value, prefix_of, u16_le,
    u32_le, u64_from_le, u64_le,
};
use crate::de::Deserializer;
use crate::error::SavefileError;
use crate::schema::{Schema, SchemaData, SchemaPrimitive};
use crate::ser::Serializer;
use vstd::prelude::*;

verus! {

/// A type that can describe its own save file format.
///
/// The schema is a pure function of the type and the version: two
/// computations of it, in any two processes built from the same type
/// definitions, give structurally equal trees.
pub trait WithSchema {
    /// The schema of this type at the given version.
    spec fn spec_schema(version: u32) -> SchemaData;

    /// Whether a value of this type may be written at the given version;
    /// only the removed-field placeholder refuses.
    spec fn serializable(&self, version: u32) -> bool;

    /// The exact bytes this value serializes to at the given version.
    spec fn spec_enc(&self, version: u32) -> Seq<u8>;

    /// Returns a representation of the schema used by this type for the
    /// given version.
    fn schema(version: u32) -> (r: Schema)
        ensures
            r@ == Self::spec_schema(version),
    ;
}

/// A type whose values can be written to a serializer.
pub trait Serialize: WithSchema {
    /// Appends exactly this value's wire form to the serializer's output;
    /// a removed-field placeholder refuses and writes nothing of its own.
    fn serialize(&self, serializer: &mut Serializer) -> (r: Result<(), SavefileError>)
        ensures
            final(serializer).version == old(serializer).version,
            r is Ok <==> self.serializable(old(serializer).version),
            r is Ok ==> final(serializer)@ == old(serializer)@ + self.spec_enc(
                old(serializer).version,
            ),
            r matches Err(e) ==> e is RemovedFieldWritten,
    ;
}

/// A type whose values can be read back from a deserializer.
pub trait Deserialize: WithSchema + DeepView + Sized {
    /// Reads one value. Whenever the unread bytes start with the wire form
    /// of some writable value of this type at the file's version, a value
    /// equal to it is returned and exactly its wire form is consumed:
    /// deserialization is the exact inverse of serialization.
    fn deserialize(d: &mut Deserializer) -> (r: Result<Self, SavefileError>)
        ensures
            final(d).file_version == old(d).file_version,
            final(d).memory_version == old(d).memory_version,
            final(d)@.len() <= old(d)@.len(),
            forall|x: Self|
                x.serializable(old(d).file_version) && #[trigger] prefix_of(
                    x.spec_enc(old(d).file_version),
                    old(d)@,
                ) ==> (r matches Ok(v) && v.deep_view() == x.deep_view() && old(d)@ == x.spec_enc(
                    old(d).file_version,
                ) + final(d)@),
    ;
}

/// Marker capability for types whose packed in-memory layout equals their
/// wire form, so a sequence of them may cross the wire as one raw buffer.
pub trait ReprC: Copy {
    /// Whether the bulk-copy optimization is allowed at the given version.
    spec fn spec_repr_c_safe(version: u32) -> bool;

    /// Returns true when the bulk-copy optimization is allowed for the
    /// given protocol version.
    fn repr_c_optimization_safe(version: u32) -> (r: bool)
        ensures
            r == Self::spec_repr_c_safe(version),
    ;
}

impl WithSchema for u8 {
    open spec fn spec_schema(version: u32) -> SchemaData {
        SchemaData::Primitive { prim: SchemaPrimitive::schema_u8 }
    }

    open spec fn serializable(&self, version: u32) -> bool {
        true
    }

    open spec fn spec_enc(&self, version: u32) -> Seq<u8> {
        seq![*self]
    }

    fn schema(version: u32) -> (r: Schema) {
        Schema::Primitive(SchemaPrimitive::schema_u8)
    }
}

impl Serialize for u8 {
    fn serialize(&self, serializer: &mut Serializer) -> (r: Result<(), SavefileError>) {
        serializer.write_u8(*self)
    }
}

impl Deserialize for u8 {
    fn deserialize(d: &mut Deserializer) -> (r: Result<Self, SavefileError>) {
        let ghost stream = old(d)@;
        match d.read_u8() {
            Ok(v) => {
                proof {
                    assert forall|x: u8|
                        x.serializable(old(d).file_version) && #[trigger] prefix_of(
                            x.spec_enc(old(d).file_version),
                            stream,
                        ) implies v == x && stream == x.spec_enc(old(d).file_version) + d@ by {
                        assert(stream.take(1) == seq![x]);
                        assert(stream.take(1)[0] == stream[0]);
                        assert(seq![x][0] == x);
                        assert((seq![v] + d@)[0] == v);
                        assert(seq![x] =~= seq![v]);
                    }
                }
                Ok(v)
            },
            Err(e) => Err(e),
        }
    }
}

impl WithSchema for i8 {
    open spec fn spec_schema(version: u32) -> SchemaData {
        SchemaData::Primitive { prim: SchemaPrimitive::schema_i8 }
    }

    open spec fn serializable(&self, version: u32) -> bool {
        true
    }

    open spec fn spec_enc(&self, version: u32) -> Seq<u8> {
        seq![*self as u8]
    }

    fn schema(version: u32) -> (r: Schema) {
        Schema::Primitive(SchemaPrimitive::schema_i8)
    }
}

impl Serialize for i8 {
    fn serialize(&self, serializer: &mut Serializer) -> (r: Result<(), SavefileError>) {
        serializer.write_i8(*self)
    }
}

impl Deserialize for i8 {
    fn deserialize(d: &mut Deserializer) -> (r: Result<Self, SavefileError>) {
        let ghost stream = old(d)@;
        match d.read_i8() {
            Ok(v) => {
                proof {
                    assert forall|x: i8|
                        x.serializable(old(d).file_version) && #[trigger] prefix_of(
                            x.spec_enc(old(d).file_version),
                            stream,
                        ) implies v == x && stream == x.spec_enc(old(d).file_version) + d@ by {
                        assert(stream.take(1) == seq![x as u8]);
                        assert(stream.take(1)[0] == stream[0]);
                        assert(seq![x as u8][0] == x as u8);
                        assert((seq![v as u8] + d@)[0] == v as u8);
                        let xa = x;
                        let va = v;
                        assert(xa as u8 == va as u8 ==> xa == va) by (bit_vector);
                        assert(seq![x as u8] =~= seq![v as u8]);
                    }
                }
                Ok(v)
            },
            Err(e) => Err(e),
        }
    }
}

impl WithSchema for u16 {
    open spec fn spec_schema(version: u32) -> SchemaData {
        SchemaData::Primitive { prim: SchemaPrimitive::schema_u16 }
    }

    open spec fn serializable(&self, version: u32) -> bool {
        true
    }

    open spec fn spec_enc(&self, version: u32) -> Seq<u8> {
        u16_le(*self)
    }

    fn schema(version: u32) -> (r: Schema) {
        Schema::Primitive(SchemaPrimitive::schema_u16)
    }
}

impl Serialize for u16 {
    fn serialize(&self, serializer: &mut Serializer) -> (r: Result<(), SavefileError>) {
        serializer.write_u16(*self)
    }
}

impl Deserialize for u16 {
    fn deserialize(d: &mut Deserializer) -> (r: Result<Self, SavefileError>) {
        let ghost stream = old(d)@;
        match d.read_u16() {
            Ok(v) => {
                proof {
                    assert forall|x: u16|
                        x.serializable(old(d).file_version) && #[trigger] prefix_of(
                            x.spec_enc(old(d).file_version),
                            stream,
                        ) implies v == x && stream == x.spec_enc(old(d).file_version) + d@ by {
                        lemma_u16_prefix_value(v, d@, x);
                    }
                }
                Ok(v)
            },
            Err(e) => Err(e),
        }
    }
}

impl WithSchema for i16 {
    open spec fn spec_schema(version: u32) -> SchemaData {
        SchemaData::Primitive { prim: SchemaPrimitive::schema_i16 }
    }

    open spec fn serializable(&self, version: u32) -> bool {
        true
    }

    open spec fn spec_enc(&self, version: u32) -> Seq<u8> {
        i16_le(*self)
    }

    fn schema(version: u32) -> (r: Schema) {
        Schema::Primitive(SchemaPrimitive::schema_i16)
    }
}

impl Serialize for i16 {
    fn serialize(&self, serializer: &mut Serializer) -> (r: Result<(), SavefileError>) {
        serializer.write_i16(*self)
    }
}

impl Deserialize for i16 {
    fn deserialize(d: &mut Deserializer) -> (r: Result<Self, SavefileError>) {
        let ghost stream = old(d)@;
        match d.read_i16() {
            Ok(v) => {
                proof {
                    assert forall|x: i16|
                        x.serializable(old(d).file_version) && #[trigger] prefix_of(
                            x.spec_enc(old(d).file_version),
                            stream,
                        ) implies v == x && stream == x.spec_enc(old(d).file_version) + d@ by {
                        lemma_u16_prefix_value(v as u16, d@, x as u16);
                        let xa = x;
                        let va = v;
                        assert(xa as u16 == va as u16 ==> xa == va) by (bit_vector);
                    }
                }
                Ok(v)
            },
            Err(e) => Err(e),
        }
    }
}

impl WithSchema for u32 {
    open spec fn spec_schema(version: u32) -> SchemaData {
        SchemaData::Primitive { prim: SchemaPrimitive::schema_u32 }
    }

    open spec fn serializable(&self, version: u32) -> bool {
        true
    }

    open spec fn spec_enc(&self, version: u32) -> Seq<u8> {
        u32_le(*self)
    }

    fn schema(version: u32) -> (r: Schema) {
        Schema::Primitive(SchemaPrimitive::schema_u32)
    }
}

impl Serialize for u32 {
    fn serialize(&self, serializer: &mut Serializer) -> (r: Result<(), SavefileError>) {
        serializer.write_u32(*self)
    }
}

impl Deserialize for u32 {
    fn deserialize(d: &mut Deserializer) -> (r: Result<Self, SavefileError>) {
        let ghost stream = old(d)@;
        match d.read_u32() {
            Ok(v) => {
                proof {
                    assert forall|x: u32|
                        x.serializable(old(d).file_version) && #[trigger] prefix_of(
                            x.spec_enc(old(d).file_version),
                            stream,
                        ) implies v == x && stream == x.spec_enc(old(d).file_version) + d@ by {
                        lemma_u32_prefix_value(v, d@, x);
                    }
                }
                Ok(v)
            },
            Err(e) => Err(e),
        }
    }
}

impl WithSchema for i32 {
    open spec fn spec_schema(version: u32) -> SchemaData {
        SchemaData::Primitive { prim: SchemaPrimitive::schema_i32 }
    }

    open spec fn serializable(&self, version: u32) -> bool {
        true
    }

    open spec fn spec_enc(&self, version: u32) -> Seq<u8> {
        i32_le(*self)
    }

    fn schema(version: u32) -> (r: Schema) {
        Schema::Primitive(SchemaPrimitive::schema_i32)
    }
}

impl Serialize for i32 {
    fn serialize(&self, serializer: &mut Serializer) -> (r: Result<(), SavefileError>) {
        serializer.write_i32(*self)
    }
}

impl Deserialize for i32 {
    fn deserialize(d: &mut Deserializer) -> (r: Result<Self, SavefileError>) {
        let ghost stream = old(d)@;
        match d.read_i32() {
            Ok(v) => {
                proof {
                    assert forall|x: i32|
                        x.serializable(old(d).file_version) && #[trigger] prefix_of(
                            x.spec_enc(old(d).file_version),
                            stream,
                        ) implies v == x && stream == x.spec_enc(old(d).file_version) + d@ by {
                        lemma_u32_prefix_value(v as u32, d@, x as u32);
                        let xa = x;
                        let va = v;
                        assert(xa as u32 == va as u32 ==> xa == va) by (bit_vector);
                    }
                }
                Ok(v)
            },
            Err(e) => Err(e),
        }
    }
}

impl WithSchema for u64 {
    open spec fn spec_schema(version: u32) -> SchemaData {
        SchemaData::Primitive { prim: SchemaPrimitive::schema_u64 }
    }

    open spec fn serializable(&self, version: u32) -> bool {
        true
    }

    open spec fn spec_enc(&self, version: u32) -> Seq<u8> {
        u64_le(*self)
    }

    fn schema(version: u32) -> (r: Schema) {
        Schema::Primitive(SchemaPrimitive::schema_u64)
    }
}

impl Serialize for u64 {
    fn serialize(&self, serializer: &mut Serializer) -> (r: Result<(), SavefileError>) {
        serializer.write_u64(*self)
    }
}

impl Deserialize for u64 {
    fn deserialize(d: &mut Deserializer) -> (r: Result<Self, SavefileError>) {
        let ghost stream = old(d)@;
        match d.read_u64() {
            Ok(v) => {
                proof {
                    assert forall|x: u64|
                        x.serializable(old(d).file_version) && #[trigger] prefix_of(
                            x.spec_enc(old(d).file_version),
                            stream,
                        ) implies v == x && stream == x.spec_enc(old(d).file_version) + d@ by {
                        lemma_u64_prefix_value(v, d@, x);
                    }
                }
                Ok(v)
            },
            Err(e) => Err(e),
        }
    }
}

impl WithSchema for i64 {
    open spec fn spec_schema(version: u32) -> SchemaData {
        SchemaData::Primitive { prim: SchemaPrimitive::schema_i64 }
    }

    open spec fn serializable(&self, version: u32) -> bool {
        true
    }

    open spec fn spec_enc(&self, version: u32) -> Seq<u8> {
        i64_le(*self)
    }

    fn schema(version: u32) -> (r: Schema) {
        Schema::Primitive(SchemaPrimitive::schema_i64)
    }
}

impl Serialize for i64 {
    fn serialize(&self, serializer: &mut Serializer) -> (r: Result<(), SavefileError>) {
        serializer.write_i64(*self)
    }
}

impl Deserialize for i64 {
    fn deserialize(d: &mut Deserializer) -> (r: Result<Self, SavefileError>) {
        let ghost stream = old(d)@;
        match d.read_i64() {
            Ok(v) => {
                proof {
                    assert forall|x: i64|
                        x.serializable(old(d).file_version) && #[trigger] prefix_of(
                            x.spec_enc(old(d).file_version),
                            stream,
                        ) implies v == x && stream == x.spec_enc(old(d).file_version) + d@ by {
                        lemma_u64_prefix_value(v as u64, d@, x as u64);
                        let xa = x;
                        let va = v;
                        assert(xa as u64 == va as u64 ==> xa == va) by (bit_vector);
                    }
                }
                Ok(v)
            },
            Err(e) => Err(e),
        }
    }
}

impl WithSchema for usize {
    open spec fn spec_schema(version: u32) -> SchemaData {
        SchemaData::Primitive { prim: SchemaPrimitive::schema_usize }
    }

    open spec fn serializable(&self, version: u32) -> bool {
        true
    }

    open spec fn spec_enc(&self, version: u32) -> Seq<u8> {
        u64_le(*self as u64)
    }

    fn schema(version: u32) -> (r: Schema) {
        Schema::Primitive(SchemaPrimitive::schema_usize)
    }
}

impl Serialize for usize {
    fn serialize(&self, serializer: &mut Serializer) -> (r: Result<(), SavefileError>) {
        serializer.write_usize(*self)
    }
}

impl Deserialize for usize {
    fn deserialize(d: &mut Deserializer) -> (r: Result<Self, SavefileError>) {
        let ghost stream = old(d)@;
        proof {
            assert forall|x: usize|
                x.serializable(old(d).file_version) && #[trigger] prefix_of(
                    x.spec_enc(old(d).file_version),
                    stream,
                ) implies stream.len() >= 8 && u64_from_le(stream) == x as u64 by {
                lemma_prefix_split(u64_le(x as u64), stream);
                lemma_u64_from_le_concat(x as u64, stream.skip(8));
            }
        }
        match d.read_usize() {
            Ok(v) => {
                proof {
                    assert forall|x: usize|
                        x.serializable(old(d).file_version) && #[trigger] prefix_of(
                            x.spec_enc(old(d).file_version),
                            stream,
                        ) implies v == x && stream == x.spec_enc(old(d).file_version) + d@ by {
                        lemma_prefix_split(u64_le(x as u64), stream);
                        lemma_u64_from_le_concat(x as u64, stream.skip(8));
                    }
                }
                Ok(v)
            },
            Err(e) => Err(e),
        }
    }
}

impl WithSchema for isize {
    open spec fn spec_schema(version: u32) -> SchemaData {
        SchemaData::Primitive { prim: SchemaPrimitive::schema_isize }
    }

    open spec fn serializable(&self, version: u32) -> bool {
        true
    }

    open spec fn spec_enc(&self, version: u32) -> Seq<u8> {
        i64_le(*self as i64)
    }

    fn schema(version: u32) -> (r: Schema) {
        Schema::Primitive(SchemaPrimitive::schema_isize)
    }
}

impl Serialize for isize {
    fn serialize(&self, serializer: &mut Serializer) -> (r: Result<(), SavefileError>) {
        serializer.write_isize(*self)
    }
}

impl Deserialize for isize {
    fn deserialize(d: &mut Deserializer) -> (r: Result<Self, SavefileError>) {
        let ghost stream = old(d)@;
        proof {
            assert forall|x: isize|
                x.serializable(old(d).file_version) && #[trigger] prefix_of(
                    x.spec_enc(old(d).file_version),
                    stream,
                ) implies stream.len() >= 8 && u64_from_le(stream) == x as i64 as u64
                && u64_from_le(stream) as i64 == x as i64 && isize::MIN as int <= u64_from_le(
                stream,
            ) as i64 as int <= isize::MAX as int by {
                lemma_prefix_split(u64_le(x as i64 as u64), stream);
                lemma_u64_from_le_concat(x as i64 as u64, stream.skip(8));
                let xa = x as i64;
                assert(xa as u64 as i64 == xa) by (bit_vector);
            }
        }
        match d.read_isize() {
            Ok(v) => {
                proof {
                    assert forall|x: isize|
                        x.serializable(old(d).file_version) && #[trigger] prefix_of(
                            x.spec_enc(old(d).file_version),
                            stream,
                        ) implies v == x && stream == x.spec_enc(old(d).file_version) + d@ by {
                        lemma_prefix_split(u64_le(x as i64 as u64), stream);
                        lemma_u64_from_le_concat(x as i64 as u64, stream.skip(8));
                        let xa = x as i64;
                        assert(xa as u64 as i64 == xa) by (bit_vector);
                    }
                }
                Ok(v)
            },
            Err(e) => Err(e),
        }
    }
}

impl WithSchema for String {
    open spec fn spec_schema(version: u32) -> SchemaData {
        SchemaData::Primitive { prim: SchemaPrimitive::schema_string }
    }

    open spec fn serializable(&self, version: u32) -> bool {
        true
    }

    open spec fn spec_enc(&self, version: u32) -> Seq<u8> {
        enc_str(self@)
    }

    fn schema(version: u32) -> (r: Schema) {
        Schema::Primitive(SchemaPrimitive::schema_string)
    }
}

impl Serialize for String {
    fn serialize(&self, serializer: &mut Serializer) -> (r: Result<(), SavefileError>) {
        serializer.write_string(self.as_str())
    }
}

impl Deserialize for String {
    fn deserialize(d: &mut Deserializer) -> (r: Result<Self, SavefileError>) {
        d.read_string()
    }
}

} // verus!
