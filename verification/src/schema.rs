//! The schema algebra: a tagged tree describing a serializable type, the
//! mathematical mirror it is viewed as, and the wire form of each node.

use crate::bytes::{enc_str, u16_le, u64_le};
use vstd::prelude::*;

verus! {

/// The eleven primitive kinds, each with a fixed 1-based wire discriminator.
#[allow(non_camel_case_types)]
#[derive(Copy, Clone, Debug, PartialEq, Eq, Structural)]
pub enum SchemaPrimitive {
    schema_i8,
    schema_u8,
    schema_i16,
    schema_u16,
    schema_i32,
    schema_u32,
    schema_i64,
    schema_u64,
    schema_isize,
    schema_usize,
    schema_string,
}

/// The wire discriminator of a primitive kind: a closed set.
pub open spec fn prim_discr(p: SchemaPrimitive) -> u16 {
    match p {
        SchemaPrimitive::schema_i8 => 1,
        SchemaPrimitive::schema_u8 => 2,
        SchemaPrimitive::schema_i16 => 3,
        SchemaPrimitive::schema_u16 => 4,
        SchemaPrimitive::schema_i32 => 5,
        SchemaPrimitive::schema_u32 => 6,
        SchemaPrimitive::schema_i64 => 7,
        SchemaPrimitive::schema_u64 => 8,
        SchemaPrimitive::schema_isize => 9,
        SchemaPrimitive::schema_usize => 10,
        SchemaPrimitive::schema_string => 11,
    }
}

/// A named field of a struct or of an enum variant.
#[derive(Debug, PartialEq)]
pub struct Field {
    pub name: String,
    pub value: Box<Schema>,
}

/// The schema of a struct: a debug name and its ordered fields.
#[derive(Debug, PartialEq)]
pub struct SchemaStruct {
    pub dbg_name: String,
    pub fields: Vec<Field>,
}

/// One variant of an enum: a name, a wire discriminator, and ordered fields.
#[derive(Debug, PartialEq)]
pub struct Variant {
    pub name: String,
    pub discriminator: u16,
    pub fields: Vec<Field>,
}

/// The schema of an enum: its ordered variants.
#[derive(Debug, PartialEq)]
pub struct SchemaEnum {
    pub variants: Vec<Variant>,
}

/// The schema represents the save file format of a data type.
#[derive(Debug, PartialEq)]
pub enum Schema {
    Struct(SchemaStruct),
    Enum(SchemaEnum),
    Primitive(SchemaPrimitive),
    Vector(Box<Schema>),
    Undefined,
}

/// Mathematical mirror of `Field`.
#[verifier::ext_equal]
pub struct FieldData {
    pub name: Seq<char>,
    pub value: SchemaData,
}

/// Mathematical mirror of `Variant`.
#[verifier::ext_equal]
pub struct VariantData {
    pub name: Seq<char>,
    pub discriminator: u16,
    pub fields: Seq<FieldData>,
}

/// Mathematical mirror of `Schema`: what schema values are compared and
/// encoded as.
#[verifier::ext_equal]
pub enum SchemaData {
    Struct { dbg_name: Seq<char>, fields: Seq<FieldData> },
    Enum { variants: Seq<VariantData> },
    Primitive { prim: SchemaPrimitive },
    Vector { elem: Box<SchemaData> },
    Undefined,
}

pub open spec fn field_view(f: Field) -> FieldData
    decreases f,
{
    FieldData { name: f.name@, value: schema_view(*f.value) }
}

pub open spec fn fields_view(fs: Seq<Field>) -> Seq<FieldData>
    decreases fs,
{
    if fs.len() == 0 {
        Seq::empty()
    } else {
        seq![field_view(fs[0])] + fields_view(fs.drop_first())
    }
}

pub open spec fn variant_view(v: Variant) -> VariantData
    decreases v,
{
    VariantData {
        name: v.name@,
        discriminator: v.discriminator,
        fields: fields_view(v.fields@),
    }
}

pub open spec fn variants_view(vs: Seq<Variant>) -> Seq<VariantData>
    decreases vs,
{
    if vs.len() == 0 {
        Seq::empty()
    } else {
        seq![variant_view(vs[0])] + variants_view(vs.drop_first())
    }
}

pub open spec fn schema_view(s: Schema) -> SchemaData
    decreases s,
{
    match s {
        Schema::Struct(ss) => SchemaData::Struct {
            dbg_name: ss.dbg_name@,
            fields: fields_view(ss.fields@),
        },
        Schema::Enum(se) => SchemaData::Enum { variants: variants_view(se.variants@) },
        Schema::Primitive(p) => SchemaData::Primitive { prim: p },
        Schema::Vector(elem) => SchemaData::Vector { elem: Box::new(schema_view(*elem)) },
        Schema::Undefined => SchemaData::Undefined,
    }
}

impl View for Field {
    type V = FieldData;

    open spec fn view(&self) -> FieldData {
        field_view(*self)
    }
}

impl View for Variant {
    type V = VariantData;

    open spec fn view(&self) -> VariantData {
        variant_view(*self)
    }
}

impl View for SchemaStruct {
    type V = SchemaData;

    open spec fn view(&self) -> SchemaData {
        SchemaData::Struct { dbg_name: self.dbg_name@, fields: fields_view(self.fields@) }
    }
}

impl View for SchemaEnum {
    type V = SchemaData;

    open spec fn view(&self) -> SchemaData {
        SchemaData::Enum { variants: variants_view(self.variants@) }
    }
}

impl View for Schema {
    type V = SchemaData;

    open spec fn view(&self) -> SchemaData {
        schema_view(*self)
    }
}

impl DeepView for Schema {
    type V = SchemaData;

    open spec fn deep_view(&self) -> SchemaData {
        schema_view(*self)
    }
}

/// The wire tag of a schema node: a closed set.
pub open spec fn schema_tag(sd: SchemaData) -> u16 {
    match sd {
        SchemaData::Struct { .. } => 1,
        SchemaData::Enum { .. } => 2,
        SchemaData::Primitive { .. } => 3,
        SchemaData::Vector { .. } => 4,
        SchemaData::Undefined => 5,
    }
}

/// Wire form of one field: its name, then its schema.
pub open spec fn enc_field(f: FieldData) -> Seq<u8>
    decreases f, 0int,
{
    enc_str(f.name) + enc_schema(f.value)
}

/// Wire form of a field list, in order.
pub open spec fn enc_fields(fs: Seq<FieldData>) -> Seq<u8>
    decreases fs, 0int,
{
    if fs.len() == 0 {
        Seq::empty()
    } else {
        enc_field(fs[0]) + enc_fields(fs.drop_first())
    }
}

/// Wire form of one variant: name, discriminator, field count, fields.
pub open spec fn enc_variant(v: VariantData) -> Seq<u8>
    decreases v, 0int,
{
    enc_str(v.name) + u16_le(v.discriminator) + u64_le(v.fields.len() as u64) + enc_fields(
        v.fields,
    )
}

/// Wire form of a variant list, in order.
pub open spec fn enc_variants(vs: Seq<VariantData>) -> Seq<u8>
    decreases vs, 0int,
{
    if vs.len() == 0 {
        Seq::empty()
    } else {
        enc_variant(vs[0]) + enc_variants(vs.drop_first())
    }
}

/// What follows a schema node's tag on the wire.
pub open spec fn enc_schema_payload(sd: SchemaData) -> Seq<u8>
    decreases sd, 0int,
{
    match sd {
        SchemaData::Struct { dbg_name, fields } => enc_str(dbg_name) + u64_le(
            fields.len() as u64,
        ) + enc_fields(fields),
        SchemaData::Enum { variants } => u64_le(variants.len() as u64) + enc_variants(variants),
        SchemaData::Primitive { prim } => u16_le(prim_discr(prim)),
        SchemaData::Vector { elem } => enc_schema(*elem),
        SchemaData::Undefined => Seq::empty(),
    }
}

/// Wire form of a schema node: its tag, then its payload; every child's tag
/// immediately follows its parent's.
pub open spec fn enc_schema(sd: SchemaData) -> Seq<u8>
    decreases sd, 1int,
{
    u16_le(schema_tag(sd)) + enc_schema_payload(sd)
}

/// A field list's mirror, element by element.
pub proof fn lemma_fields_view_index(fs: Seq<Field>)
    ensures
        fields_view(fs).len() == fs.len(),
        forall|i: int| 0 <= i < fs.len() ==> #[trigger] fields_view(fs)[i] == field_view(fs[i]),
    decreases fs,
{
    if fs.len() > 0 {
        lemma_fields_view_index(fs.drop_first());
        assert forall|i: int| 0 <= i < fs.len() implies #[trigger] fields_view(fs)[i]
            == field_view(fs[i]) by {
            if i > 0 {
                assert(fields_view(fs)[i] == fields_view(fs.drop_first())[i - 1]);
                assert(fs.drop_first()[i - 1] == fs[i]);
            }
        }
    }
}

/// A variant list's mirror, element by element.
pub proof fn lemma_variants_view_index(vs: Seq<Variant>)
    ensures
        variants_view(vs).len() == vs.len(),
        forall|i: int| 0 <= i < vs.len() ==> #[trigger] variants_view(vs)[i] == variant_view(
            vs[i],
        ),
    decreases vs,
{
    if vs.len() > 0 {
        lemma_variants_view_index(vs.drop_first());
        assert forall|i: int| 0 <= i < vs.len() implies #[trigger] variants_view(vs)[i]
            == variant_view(vs[i]) by {
            if i > 0 {
                assert(variants_view(vs)[i] == variants_view(vs.drop_first())[i - 1]);
                assert(vs.drop_first()[i - 1] == vs[i]);
            }
        }
    }
}

/// A field list and its mirror have the same length.
pub proof fn lemma_fields_view_len(fs: Seq<Field>)
    ensures
        fields_view(fs).len() == fs.len(),
    decreases fs,
{
    if fs.len() > 0 {
        lemma_fields_view_len(fs.drop_first());
    }
}

pub proof fn lemma_variants_view_len(vs: Seq<Variant>)
    ensures
        variants_view(vs).len() == vs.len(),
    decreases vs,
{
    if vs.len() > 0 {
        lemma_variants_view_len(vs.drop_first());
    }
}

/// The mirror of a list with one more field appends that field's mirror.
pub proof fn lemma_fields_view_push(fs: Seq<Field>, f: Field)
    ensures
        fields_view(fs.push(f)) == fields_view(fs).push(field_view(f)),
    decreases fs,
{
    if fs.len() == 0 {
        assert(fs.push(f)[0] == f);
        assert(fs.push(f).drop_first() =~= fs);
        assert(fields_view(fs.push(f)) =~= fields_view(fs).push(field_view(f)));
    } else {
        assert(fs.push(f)[0] == fs[0]);
        assert(fs.push(f).drop_first() =~= fs.drop_first().push(f));
        lemma_fields_view_push(fs.drop_first(), f);
        assert(fields_view(fs.push(f)) == seq![field_view(fs[0])] + fields_view(
            fs.drop_first(),
        ).push(field_view(f)));
        assert(seq![field_view(fs[0])] + fields_view(fs.drop_first()).push(field_view(f)) =~= (
        seq![field_view(fs[0])] + fields_view(fs.drop_first())).push(field_view(f)));
        assert(fields_view(fs.push(f)) =~= fields_view(fs).push(field_view(f)));
    }
}

pub proof fn lemma_variants_view_push(vs: Seq<Variant>, v: Variant)
    ensures
        variants_view(vs.push(v)) == variants_view(vs).push(variant_view(v)),
    decreases vs,
{
    if vs.len() == 0 {
        assert(vs.push(v)[0] == v);
        assert(vs.push(v).drop_first() =~= vs);
        assert(variants_view(vs.push(v)) =~= variants_view(vs).push(variant_view(v)));
    } else {
        assert(vs.push(v)[0] == vs[0]);
        assert(vs.push(v).drop_first() =~= vs.drop_first().push(v));
        lemma_variants_view_push(vs.drop_first(), v);
        assert(variants_view(vs.push(v)) == seq![variant_view(vs[0])] + variants_view(
            vs.drop_first(),
        ).push(variant_view(v)));
        assert(seq![variant_view(vs[0])] + variants_view(vs.drop_first()).push(variant_view(v))
            =~= (seq![variant_view(vs[0])] + variants_view(vs.drop_first())).push(
            variant_view(v),
        ));
        assert(variants_view(vs.push(v)) =~= variants_view(vs).push(variant_view(v)));
    }
}

/// Appending one field to a list appends its wire form.
pub proof fn lemma_enc_fields_push(fs: Seq<FieldData>, f: FieldData)
    ensures
        enc_fields(fs.push(f)) == enc_fields(fs) + enc_field(f),
    decreases fs,
{
    if fs.len() == 0 {
        assert(fs.push(f)[0] == f);
        assert(fs.push(f).drop_first() =~= fs);
        assert(enc_fields(fs.push(f)) =~= enc_fields(fs) + enc_field(f));
    } else {
        let a = enc_field(fs[0]);
        let b = enc_fields(fs.drop_first());
        let c = enc_field(f);
        assert(fs.push(f)[0] == fs[0]);
        assert(fs.push(f).drop_first() =~= fs.drop_first().push(f));
        lemma_enc_fields_push(fs.drop_first(), f);
        assert(enc_fields(fs.push(f)) == a + (b + c));
        assert(enc_fields(fs) == a + b);
        assert(a + (b + c) =~= (a + b) + c);
    }
}

pub proof fn lemma_enc_variants_push(vs: Seq<VariantData>, v: VariantData)
    ensures
        enc_variants(vs.push(v)) == enc_variants(vs) + enc_variant(v),
    decreases vs,
{
    if vs.len() == 0 {
        assert(vs.push(v)[0] == v);
        assert(vs.push(v).drop_first() =~= vs);
        assert(enc_variants(vs.push(v)) =~= enc_variants(vs) + enc_variant(v));
    } else {
        let a = enc_variant(vs[0]);
        let b = enc_variants(vs.drop_first());
        let c = enc_variant(v);
        assert(vs.push(v)[0] == vs[0]);
        assert(vs.push(v).drop_first() =~= vs.drop_first().push(v));
        lemma_enc_variants_push(vs.drop_first(), v);
        assert(enc_variants(vs.push(v)) == a + (b + c));
        assert(enc_variants(vs) == a + b);
        assert(a + (b + c) =~= (a + b) + c);
    }
}

/// Every schema node occupies at least its two tag bytes on the wire.
pub proof fn lemma_enc_schema_min_len(sd: SchemaData)
    ensures
        enc_schema(sd).len() >= 2,
{
}

/// Every field occupies at least its name's length prefix and its schema's tag.
pub proof fn lemma_enc_field_min_len(f: FieldData)
    ensures
        enc_field(f).len() >= 10,
{
    lemma_enc_schema_min_len(f.value);
}

/// A field list occupies at least ten bytes for each field.
pub proof fn lemma_enc_fields_min_len(fs: Seq<FieldData>)
    ensures
        enc_fields(fs).len() >= 10 * fs.len(),
    decreases fs,
{
    if fs.len() > 0 {
        lemma_enc_field_min_len(fs[0]);
        lemma_enc_fields_min_len(fs.drop_first());
    }
}

/// A variant occupies at least its name's length prefix, its discriminator,
/// and its field count.
pub proof fn lemma_enc_variant_min_len(v: VariantData)
    ensures
        enc_variant(v).len() >= 18,
        enc_variant(v).len() >= 18 + enc_fields(v.fields).len(),
{
}

/// A variant list occupies at least eighteen bytes for each variant.
pub proof fn lemma_enc_variants_min_len(vs: Seq<VariantData>)
    ensures
        enc_variants(vs).len() >= 18 * vs.len(),
    decreases vs,
{
    if vs.len() > 0 {
        lemma_enc_variant_min_len(vs[0]);
        lemma_enc_variants_min_len(vs.drop_first());
    }
}

} // verus!
