//! The serialization contract for the schema types themselves: the schema
//! header is written at a meta level, so these types answer `Undefined`
//! from their own schema function and are never certified by the guard.

use crate::bytes::{
    enc_str, lemma_concat_prefix, lemma_prefix_chain, lemma_u16_from_le_concat,
    lemma_u16_prefix_value, prefix_of, u16_from_le, u16_le,
};
use crate::de::Deserializer;
use crate::error::SavefileError;
use crate::schema::{
    enc_field, enc_schema, enc_schema_payload, enc_variant, field_view, fields_view, prim_discr,
    schema_view, variant_view, variants_view, Field, FieldData, Schema, SchemaData, SchemaEnum,
    SchemaPrimitive, SchemaStruct, Variant, VariantData,
};
use crate::schema_codec::{
    deserialize_enum, deserialize_schema, deserialize_struct, deserialize_variant, prim_discr_of,
    serialize_fields, serialize_schema, serialize_variants,
};
use crate::ser::Serializer;
use crate::traits::{Deserialize, Serialize, WithSchema};
use vstd::prelude::*;

verus! {

impl DeepView for Field {
    type V = FieldData;

    open spec fn deep_view(&self) -> FieldData {
        field_view(*self)
    }
}

impl DeepView for Variant {
    type V = VariantData;

    open spec fn deep_view(&self) -> VariantData {
        variant_view(*self)
    }
}

impl DeepView for SchemaStruct {
    type V = SchemaData;

    open spec fn deep_view(&self) -> SchemaData {
        self.view()
    }
}

impl DeepView for SchemaEnum {
    type V = SchemaData;

    open spec fn deep_view(&self) -> SchemaData {
        self.view()
    }
}

impl DeepView for SchemaPrimitive {
    type V = SchemaPrimitive;

    open spec fn deep_view(&self) -> SchemaPrimitive {
        *self
    }
}

impl WithSchema for Field {
    open spec fn spec_schema(version: u32) -> SchemaData {
        SchemaData::Undefined
    }

    open spec fn serializable(&self, version: u32) -> bool {
        true
    }

    open spec fn spec_enc(&self, version: u32) -> Seq<u8> {
        enc_field(self@)
    }

    fn schema(version: u32) -> (r: Schema) {
        Schema::Undefined
    }
}

impl Serialize for Field {
    fn serialize(&self, serializer: &mut Serializer) -> (r: Result<(), SavefileError>) {
        crate::schema_codec::serialize_field(self, serializer)
    }
}

impl Deserialize for Field {
    fn deserialize(d: &mut Deserializer) -> (r: Result<Self, SavefileError>)
        ensures
            r matches Err(e) ==> (e is IOError || e is CorruptStream || e is InvalidUtf8),
    {
        let ghost stream = old(d)@;
        let name = match d.read_string() {
            Ok(n) => n,
            Err(e) => {
                proof {
                    assert forall|x: Field|
                        !(x.serializable(old(d).file_version) && #[trigger] prefix_of(
                            x.spec_enc(old(d).file_version),
                            stream,
                        )) by {
                        if prefix_of(x.spec_enc(old(d).file_version), stream) {
                            lemma_prefix_chain(
                                enc_str(x.name@),
                                enc_schema(schema_view(*x.value)),
                                stream,
                            );
                        }
                    }
                }
                return Err(e);
            },
        };
        let ghost s1 = d@;
        let value = match deserialize_schema(d) {
            Ok(v) => v,
            Err(e) => {
                proof {
                    assert forall|x: Field|
                        !(x.serializable(old(d).file_version) && #[trigger] prefix_of(
                            x.spec_enc(old(d).file_version),
                            stream,
                        )) by {
                        if prefix_of(x.spec_enc(old(d).file_version), stream) {
                            lemma_prefix_chain(
                                enc_str(x.name@),
                                enc_schema(schema_view(*x.value)),
                                stream,
                            );
                            lemma_concat_prefix(enc_str(x.name@), s1, stream);
                        }
                    }
                }
                return Err(e);
            },
        };
        let result = Field { name, value: Box::new(value) };
        proof {
            assert forall|x: Field|
                x.serializable(old(d).file_version) && #[trigger] prefix_of(
                    x.spec_enc(old(d).file_version),
                    stream,
                ) implies result.deep_view() == x.deep_view() && stream == x.spec_enc(
                old(d).file_version,
            ) + d@ by {
                lemma_prefix_chain(enc_str(x.name@), enc_schema(schema_view(*x.value)), stream);
                lemma_concat_prefix(enc_str(x.name@), s1, stream);
                assert(result.deep_view() =~~= x.deep_view());
                assert(stream =~= x.spec_enc(old(d).file_version) + d@);
            }
        }
        Ok(result)
    }
}

impl WithSchema for Variant {
    open spec fn spec_schema(version: u32) -> SchemaData {
        SchemaData::Undefined
    }

    open spec fn serializable(&self, version: u32) -> bool {
        true
    }

    open spec fn spec_enc(&self, version: u32) -> Seq<u8> {
        enc_variant(self@)
    }

    fn schema(version: u32) -> (r: Schema) {
        Schema::Undefined
    }
}

impl Serialize for Variant {
    fn serialize(&self, serializer: &mut Serializer) -> (r: Result<(), SavefileError>) {
        serializer.write_string(self.name.as_str())?;
        serializer.write_u16(self.discriminator)?;
        serializer.write_usize(self.fields.len())?;
        serialize_fields(&self.fields, 0, serializer)?;
        proof {
            assert(self.fields@.skip(0) =~= self.fields@);
            crate::schema::lemma_fields_view_len(self.fields@);
            assert(final(serializer)@ =~= old(serializer)@ + enc_variant(self@));
        }
        Ok(())
    }
}

impl Deserialize for Variant {
    fn deserialize(d: &mut Deserializer) -> (r: Result<Self, SavefileError>)
        ensures
            r matches Err(e) ==> (e is IOError || e is CorruptStream || e is InvalidUtf8),
    {
        let out = deserialize_variant(d);
        proof {
            assert forall|x: Variant|
                x.serializable(old(d).file_version) && #[trigger] prefix_of(
                    x.spec_enc(old(d).file_version),
                    old(d)@,
                ) implies (out matches Ok(v) && v.deep_view() == x.deep_view() && old(d)@
                == x.spec_enc(old(d).file_version) + d@) by {
                assert(prefix_of(enc_variant(x@), old(d)@));
            }
        }
        out
    }
}

impl WithSchema for SchemaStruct {
    open spec fn spec_schema(version: u32) -> SchemaData {
        SchemaData::Undefined
    }

    open spec fn serializable(&self, version: u32) -> bool {
        true
    }

    open spec fn spec_enc(&self, version: u32) -> Seq<u8> {
        enc_schema_payload(self@)
    }

    fn schema(version: u32) -> (r: Schema) {
        Schema::Undefined
    }
}

impl Serialize for SchemaStruct {
    fn serialize(&self, serializer: &mut Serializer) -> (r: Result<(), SavefileError>) {
        serializer.write_string(self.dbg_name.as_str())?;
        serializer.write_usize(self.fields.len())?;
        serialize_fields(&self.fields, 0, serializer)?;
        proof {
            assert(self.fields@.skip(0) =~= self.fields@);
            crate::schema::lemma_fields_view_len(self.fields@);
            assert(final(serializer)@ =~= old(serializer)@ + enc_schema_payload(self@));
        }
        Ok(())
    }
}

impl Deserialize for SchemaStruct {
    fn deserialize(d: &mut Deserializer) -> (r: Result<Self, SavefileError>)
        ensures
            r matches Err(e) ==> (e is IOError || e is CorruptStream || e is InvalidUtf8),
    {
        let out = deserialize_struct(d);
        proof {
            assert forall|x: SchemaStruct|
                x.serializable(old(d).file_version) && #[trigger] prefix_of(
                    x.spec_enc(old(d).file_version),
                    old(d)@,
                ) implies (out matches Ok(v) && v.deep_view() == x.deep_view() && old(d)@
                == x.spec_enc(old(d).file_version) + d@) by {
                assert(x@ == (SchemaData::Struct {
                    dbg_name: x.dbg_name@,
                    fields: fields_view(x.fields@),
                }));
                assert(prefix_of(
                    enc_schema_payload(
                        SchemaData::Struct {
                            dbg_name: x.dbg_name@,
                            fields: fields_view(x.fields@),
                        },
                    ),
                    old(d)@,
                ));
            }
        }
        out
    }
}

impl WithSchema for SchemaEnum {
    open spec fn spec_schema(version: u32) -> SchemaData {
        SchemaData::Undefined
    }

    open spec fn serializable(&self, version: u32) -> bool {
        true
    }

    open spec fn spec_enc(&self, version: u32) -> Seq<u8> {
        enc_schema_payload(self@)
    }

    fn schema(version: u32) -> (r: Schema) {
        Schema::Undefined
    }
}

impl Serialize for SchemaEnum {
    fn serialize(&self, serializer: &mut Serializer) -> (r: Result<(), SavefileError>) {
        serializer.write_usize(self.variants.len())?;
        serialize_variants(&self.variants, 0, serializer)?;
        proof {
            assert(self.variants@.skip(0) =~= self.variants@);
            crate::schema::lemma_variants_view_len(self.variants@);
            assert(final(serializer)@ =~= old(serializer)@ + enc_schema_payload(self@));
        }
        Ok(())
    }
}

impl Deserialize for SchemaEnum {
    fn deserialize(d: &mut Deserializer) -> (r: Result<Self, SavefileError>)
        ensures
            r matches Err(e) ==> (e is IOError || e is CorruptStream || e is InvalidUtf8),
    {
        let out = deserialize_enum(d);
        proof {
            assert forall|x: SchemaEnum|
                x.serializable(old(d).file_version) && #[trigger] prefix_of(
                    x.spec_enc(old(d).file_version),
                    old(d)@,
                ) implies (out matches Ok(v) && v.deep_view() == x.deep_view() && old(d)@
                == x.spec_enc(old(d).file_version) + d@) by {
                assert(x@ == (SchemaData::Enum { variants: variants_view(x.variants@) }));
                assert(prefix_of(
                    enc_schema_payload(
                        SchemaData::Enum { variants: variants_view(x.variants@) },
                    ),
                    old(d)@,
                ));
            }
        }
        out
    }
}

impl WithSchema for SchemaPrimitive {
    open spec fn spec_schema(version: u32) -> SchemaData {
        SchemaData::Undefined
    }

    open spec fn serializable(&self, version: u32) -> bool {
        true
    }

    open spec fn spec_enc(&self, version: u32) -> Seq<u8> {
        u16_le(prim_discr(*self))
    }

    fn schema(version: u32) -> (r: Schema) {
        Schema::Undefined
    }
}

impl Serialize for SchemaPrimitive {
    fn serialize(&self, serializer: &mut Serializer) -> (r: Result<(), SavefileError>) {
        serializer.write_u16(prim_discr_of(*self))
    }
}

impl Deserialize for SchemaPrimitive {
    /// A discriminator outside the closed set of the eleven primitive kinds
    /// is a corrupt stream.
    fn deserialize(d: &mut Deserializer) -> (r: Result<Self, SavefileError>)
        ensures
            r matches Err(e) ==> (e is IOError || e is CorruptStream),
            old(d)@.len() >= 2 && ((u16_from_le(old(d)@) as int) < 1 || (u16_from_le(old(d)@)
                as int) > 11) ==> (r matches Err(e) && e is CorruptStream),
    {
        let ghost stream = old(d)@;
        let discr = match d.read_u16() {
            Ok(x) => x,
            Err(e) => {
                return Err(e);
            },
        };
        proof {
            lemma_u16_from_le_concat(discr, d@);
            assert forall|x: SchemaPrimitive|
                x.serializable(old(d).file_version) && #[trigger] prefix_of(
                    x.spec_enc(old(d).file_version),
                    stream,
                ) implies prim_discr(x) == discr && stream == x.spec_enc(old(d).file_version)
                + d@ by {
                lemma_u16_prefix_value(discr, d@, prim_discr(x));
            }
        }
        let var = match discr {
            1 => SchemaPrimitive::schema_i8,
            2 => SchemaPrimitive::schema_u8,
            3 => SchemaPrimitive::schema_i16,
            4 => SchemaPrimitive::schema_u16,
            5 => SchemaPrimitive::schema_i32,
            6 => SchemaPrimitive::schema_u32,
            7 => SchemaPrimitive::schema_i64,
            8 => SchemaPrimitive::schema_u64,
            9 => SchemaPrimitive::schema_isize,
            10 => SchemaPrimitive::schema_usize,
            11 => SchemaPrimitive::schema_string,
            _ => {
                return Err(
                    SavefileError::CorruptStream {
                        msg: "unknown primitive discriminator".to_owned(),
                    },
                );
            },
        };
        Ok(var)
    }
}

impl WithSchema for Schema {
    open spec fn spec_schema(version: u32) -> SchemaData {
        SchemaData::Undefined
    }

    open spec fn serializable(&self, version: u32) -> bool {
        true
    }

    open spec fn spec_enc(&self, version: u32) -> Seq<u8> {
        enc_schema(self@)
    }

    fn schema(version: u32) -> (r: Schema) {
        Schema::Undefined
    }
}

impl Serialize for Schema {
    fn serialize(&self, serializer: &mut Serializer) -> (r: Result<(), SavefileError>) {
        serialize_schema(self, serializer)
    }
}

impl Deserialize for Schema {
    /// A schema tag or primitive discriminator outside its closed set is a
    /// corrupt stream.
    fn deserialize(d: &mut Deserializer) -> (r: Result<Self, SavefileError>)
        ensures
            r matches Err(e) ==> (e is IOError || e is CorruptStream || e is InvalidUtf8),
            old(d)@.len() >= 2 && ((u16_from_le(old(d)@) as int) < 1 || (u16_from_le(old(d)@)
                as int) > 5) ==> (r matches Err(e) && e is CorruptStream),
            old(d)@.len() >= 4 && u16_from_le(old(d)@) == 3 && ((u16_from_le(old(d)@.skip(2))
                as int) < 1 || (u16_from_le(old(d)@.skip(2)) as int) > 11) ==> (r matches Err(e)
                && e is CorruptStream),
    {
        let out = deserialize_schema(d);
        proof {
            assert forall|x: Schema|
                x.serializable(old(d).file_version) && #[trigger] prefix_of(
                    x.spec_enc(old(d).file_version),
                    old(d)@,
                ) implies (out matches Ok(v) && v.deep_view() == x.deep_view() && old(d)@
                == x.spec_enc(old(d).file_version) + d@) by {
                assert(prefix_of(enc_schema(x@), old(d)@));
            }
        }
        out
    }
}

} // verus!
