//! The schema codec: writing a schema tree to the wire and reading it back.
//!
//! Reading is the exact inverse of writing: whenever the unread bytes start
//! with the wire form of some schema, decoding returns that schema and
//! consumes exactly its wire form.

use crate::bytes::{
    enc_str, lemma_add_assoc, lemma_concat_prefix, lemma_prefix_chain, lemma_prefix_split,
    lemma_u16_from_le_concat, lemma_u16_prefix_value, lemma_u64_from_le_concat, prefix_of, u16_le,
    u16_from_le, u64_from_le, u64_le,
};
use crate::de::Deserializer;
use crate::error::SavefileError;
use crate::schema::{
    enc_field, enc_fields, enc_schema, enc_schema_payload, enc_variant, enc_variants, field_view,
    fields_view, lemma_enc_fields_min_len, lemma_enc_fields_push, lemma_enc_variants_min_len,
    lemma_enc_variants_push, lemma_fields_view_push, lemma_variants_view_push, prim_discr,
    schema_tag, variant_view, variants_view, Field, FieldData, Schema, SchemaData,
    SchemaEnum, SchemaPrimitive, SchemaStruct, Variant, VariantData,
};
use crate::ser::Serializer;
use vstd::prelude::*;

verus! {

/// The wire discriminator of a primitive kind.
pub fn prim_discr_of(p: SchemaPrimitive) -> (r: u16)
    ensures
        r == prim_discr(p),
{
    match p {
        SchemaPrimitive::schema_i8 => 1,
        SchemaPrimitive::schema_u8 => 2,
        SchemaPrimitive::schema_i16 => 3,
        SchemaPrimitive::schema_u16 => 4,
        SchemaPrimitive::schema_i32 => 5,
        SchemaPrimitive::schema_u32 => 6,
        SchemaPrimitive::schema_i64 => 7,
        SchemaPrimitive::schema_u64 => 8,
        SchemaPrimitive::schema_isize => 9,
        SchemaPrimitive::schema_usize => 10,
        SchemaPrimitive::schema_string => 11,
    }
}

/// Writes the fields of `fields` from index `from` on, in order.
pub fn serialize_fields(fields: &Vec<Field>, from: usize, serializer: &mut Serializer) -> (r:
    Result<(), SavefileError>)
    requires
        from <= fields@.len(),
    ensures
        r is Ok,
        final(serializer).version == old(serializer).version,
        final(serializer)@ == old(serializer)@ + enc_fields(
            fields_view(fields@.skip(from as int)),
        ),
    decreases *fields, fields@.len() - from, 1int,
{
    if from == fields.len() {
        proof {
            assert(fields@.skip(from as int) =~= Seq::<Field>::empty());
            assert(final(serializer)@ =~= old(serializer)@ + enc_fields(
                fields_view(fields@.skip(from as int)),
            ));
        }
        return Ok(());
    }
    let f = &fields[from];
    serialize_field(f, serializer)?;
    serialize_fields(fields, from + 1, serializer)?;
    proof {
        let fs = fields@.skip(from as int);
        let fv = fields_view(fs);
        assert(fs[0] == fields@[from as int]);
        assert(fs.drop_first() =~= fields@.skip(from as int + 1));
        assert(fv == seq![field_view(fs[0])] + fields_view(fs.drop_first()));
        assert(fv[0] == field_view(fs[0]));
        assert(fv.drop_first() =~= fields_view(fs.drop_first()));
        assert(enc_fields(fv) == enc_field(field_view(fs[0])) + enc_fields(
            fields_view(fields@.skip(from as int + 1)),
        ));
        assert(final(serializer)@ =~= old(serializer)@ + enc_fields(fv));
    }
    Ok(())
}

/// Writes one field: its name, then its schema.
pub fn serialize_field(f: &Field, serializer: &mut Serializer) -> (r: Result<(), SavefileError>)
    ensures
        r is Ok,
        final(serializer).version == old(serializer).version,
        final(serializer)@ == old(serializer)@ + enc_field(f@),
    decreases *f, 0int, 0int,
{
    serializer.write_string(f.name.as_str())?;
    serialize_schema(&f.value, serializer)?;
    proof {
        assert(final(serializer)@ =~= old(serializer)@ + enc_field(f@));
    }
    Ok(())
}

/// Writes the variants of `variants` from index `from` on, in order.
pub fn serialize_variants(variants: &Vec<Variant>, from: usize, serializer: &mut Serializer) -> (r:
    Result<(), SavefileError>)
    requires
        from <= variants@.len(),
    ensures
        r is Ok,
        final(serializer).version == old(serializer).version,
        final(serializer)@ == old(serializer)@ + enc_variants(
            variants_view(variants@.skip(from as int)),
        ),
    decreases *variants, variants@.len() - from, 1int,
{
    if from == variants.len() {
        proof {
            assert(variants@.skip(from as int) =~= Seq::<Variant>::empty());
            assert(final(serializer)@ =~= old(serializer)@ + enc_variants(
                variants_view(variants@.skip(from as int)),
            ));
        }
        return Ok(());
    }
    let v = &variants[from];
    serializer.write_string(v.name.as_str())?;
    serializer.write_u16(v.discriminator)?;
    serializer.write_usize(v.fields.len())?;
    serialize_fields(&v.fields, 0, serializer)?;
    serialize_variants(variants, from + 1, serializer)?;
    proof {
        let vs = variants@.skip(from as int);
        let vv = variants_view(vs);
        assert(vs[0] == variants@[from as int]);
        assert(vs.drop_first() =~= variants@.skip(from as int + 1));
        assert(v.fields@.skip(0) =~= v.fields@);
        crate::schema::lemma_fields_view_len(v.fields@);
        assert(vv == seq![variant_view(vs[0])] + variants_view(vs.drop_first()));
        assert(vv[0] == variant_view(vs[0]));
        assert(vv.drop_first() =~= variants_view(vs.drop_first()));
        assert(enc_variant(variant_view(vs[0])) == enc_str(v.name@) + u16_le(v.discriminator)
            + u64_le(v.fields@.len() as u64) + enc_fields(fields_view(v.fields@)));
        assert(enc_variants(vv) == enc_variant(variant_view(vs[0])) + enc_variants(
            variants_view(variants@.skip(from as int + 1)),
        ));
        assert(final(serializer)@ =~= old(serializer)@ + enc_variants(vv));
    }
    Ok(())
}

/// Writes one schema node: its tag, then its payload.
pub fn serialize_schema(s: &Schema, serializer: &mut Serializer) -> (r: Result<(), SavefileError>)
    ensures
        r is Ok,
        final(serializer).version == old(serializer).version,
        final(serializer)@ == old(serializer)@ + enc_schema(s@),
    decreases *s, 0int, 0int,
{
    match s {
        Schema::Struct(ss) => {
            serializer.write_u16(1)?;
            serializer.write_string(ss.dbg_name.as_str())?;
            serializer.write_usize(ss.fields.len())?;
            serialize_fields(&ss.fields, 0, serializer)?;
            proof {
                assert(ss.fields@.skip(0) =~= ss.fields@);
                crate::schema::lemma_fields_view_len(ss.fields@);
                assert(final(serializer)@ =~= old(serializer)@ + enc_schema(s@));
            }
        },
        Schema::Enum(se) => {
            serializer.write_u16(2)?;
            serializer.write_usize(se.variants.len())?;
            serialize_variants(&se.variants, 0, serializer)?;
            proof {
                assert(se.variants@.skip(0) =~= se.variants@);
                crate::schema::lemma_variants_view_len(se.variants@);
                assert(final(serializer)@ =~= old(serializer)@ + enc_schema(s@));
            }
        },
        Schema::Primitive(p) => {
            serializer.write_u16(3)?;
            serializer.write_u16(prim_discr_of(*p))?;
            proof {
                assert(final(serializer)@ =~= old(serializer)@ + enc_schema(s@));
            }
        },
        Schema::Vector(elem) => {
            serializer.write_u16(4)?;
            serialize_schema(elem, serializer)?;
            proof {
                assert(final(serializer)@ =~= old(serializer)@ + enc_schema(s@));
            }
        },
        Schema::Undefined => {
            serializer.write_u16(5)?;
            proof {
                assert(final(serializer)@ =~= old(serializer)@ + enc_schema(s@));
            }
        },
    }
    Ok(())
}

/// How a stream that continues with an encoded field list splits at its
/// first field: the name comes first, then the schema and the later fields.
proof fn lemma_fields_head(fd: Seq<FieldData>, i: int, dcur: Seq<u8>)
    requires
        0 <= i < fd.len(),
        prefix_of(enc_fields(fd.skip(i)), dcur),
    ensures
        prefix_of(enc_str(fd[i].name), dcur),
        prefix_of(
            enc_schema(fd[i].value) + enc_fields(fd.skip(i + 1)),
            dcur.skip(enc_str(fd[i].name).len() as int),
        ),
{
    let tail = fd.skip(i);
    assert(tail[0] == fd[i]);
    assert(tail.drop_first() =~= fd.skip(i + 1));
    assert(enc_fields(tail) == enc_field(tail[0]) + enc_fields(tail.drop_first()));
    assert(enc_field(fd[i]) == enc_str(fd[i].name) + enc_schema(fd[i].value));
    lemma_add_assoc(enc_str(fd[i].name), enc_schema(fd[i].value), enc_fields(fd.skip(i + 1)));
    assert(enc_fields(tail) == enc_str(fd[i].name) + (enc_schema(fd[i].value) + enc_fields(
        fd.skip(i + 1),
    )));
    lemma_prefix_chain(
        enc_str(fd[i].name),
        enc_schema(fd[i].value) + enc_fields(fd.skip(i + 1)),
        dcur,
    );
}

/// How a stream that continues with an encoded variant list splits at its
/// first variant: name, discriminator, field count, fields, later variants.
proof fn lemma_variants_head(vd: Seq<VariantData>, i: int, dcur: Seq<u8>)
    requires
        0 <= i < vd.len(),
        prefix_of(enc_variants(vd.skip(i)), dcur),
    ensures
        prefix_of(enc_str(vd[i].name), dcur),
        prefix_of(
            u16_le(vd[i].discriminator) + (u64_le(vd[i].fields.len() as u64) + (enc_fields(
                vd[i].fields,
            ) + enc_variants(vd.skip(i + 1)))),
            dcur.skip(enc_str(vd[i].name).len() as int),
        ),
{
    let tail = vd.skip(i);
    assert(tail[0] == vd[i]);
    assert(tail.drop_first() =~= vd.skip(i + 1));
    let a = enc_str(vd[i].name);
    let b = u16_le(vd[i].discriminator);
    let c = u64_le(vd[i].fields.len() as u64);
    let dd = enc_fields(vd[i].fields);
    let ev = enc_variants(vd.skip(i + 1));
    assert(enc_variants(tail) == enc_variant(tail[0]) + enc_variants(tail.drop_first()));
    assert(enc_variant(vd[i]) == ((a + b) + c) + dd);
    assert(enc_variants(tail) == (((a + b) + c) + dd) + ev);
    assert((((a + b) + c) + dd) + ev =~= a + (b + (c + (dd + ev))));
    lemma_prefix_chain(a, b + (c + (dd + ev)), dcur);
}

/// Reads `count` fields, each a name followed by a schema.
#[verifier::rlimit(60)]
pub fn deserialize_fields(d: &mut Deserializer, count: usize) -> (r: Result<
    Vec<Field>,
    SavefileError,
>)
    ensures
        final(d).file_version == old(d).file_version,
        final(d).memory_version == old(d).memory_version,
        final(d)@.len() <= old(d)@.len(),
        r matches Err(e) ==> (e is IOError || e is CorruptStream || e is InvalidUtf8),
        forall|fd: Seq<FieldData>|
            fd.len() == count && #[trigger] prefix_of(enc_fields(fd), old(d)@) ==> (r matches Ok(v)
                && fields_view(v@) == fd && old(d)@ == enc_fields(fd) + final(d)@),
    decreases old(d)@.len(),
{
    let ghost entry = old(d)@;
    let mut ret: Vec<Field> = Vec::new();
    let mut i: usize = 0;
    proof {
        assert forall|fd: Seq<FieldData>|
            fd.len() == count && #[trigger] prefix_of(enc_fields(fd), entry) implies fields_view(
            ret@,
        ) == fd.take(0) && entry == enc_fields(fd.take(0)) + entry && prefix_of(
            enc_fields(fd.skip(0)),
            entry,
        ) by {
            assert(fd.take(0) =~= Seq::<FieldData>::empty());
            assert(fd.skip(0) =~= fd);
            assert(ret@ =~= Seq::<Field>::empty());
            assert(enc_fields(fd.take(0)) + entry =~= entry);
            assert(fields_view(ret@) =~= fd.take(0));
        }
    }
    while i < count
        invariant
            i <= count,
            d.file_version == old(d).file_version,
            d.memory_version == old(d).memory_version,
            d@.len() <= entry.len(),
            entry == old(d)@,
            ret@.len() == i,
            forall|fd: Seq<FieldData>|
                fd.len() == count && #[trigger] prefix_of(enc_fields(fd), entry) ==> (fields_view(
                    ret@,
                ) == fd.take(i as int) && entry == enc_fields(fd.take(i as int)) + d@ && prefix_of(
                    enc_fields(fd.skip(i as int)),
                    d@,
                )),
        decreases count - i,
    {
        let ghost retg = ret@;
        let ghost dcur = d@;
        let name = match d.read_string() {
            Ok(n) => n,
            Err(e) => {
                proof {
                    assert forall|fd: Seq<FieldData>|
                        !(fd.len() == count && #[trigger] prefix_of(enc_fields(fd), entry)) by {
                        if fd.len() == count && prefix_of(enc_fields(fd), entry) {
                            lemma_fields_head(fd, i as int, dcur);
                        }
                    }
                }
                return Err(e);
            },
        };
        let ghost dmid = d@;
        let value = match deserialize_schema(d) {
            Ok(v) => v,
            Err(e) => {
                proof {
                    assert forall|fd: Seq<FieldData>|
                        !(fd.len() == count && #[trigger] prefix_of(enc_fields(fd), entry)) by {
                        if fd.len() == count && prefix_of(enc_fields(fd), entry) {
                            lemma_fields_head(fd, i as int, dcur);
                            lemma_concat_prefix(enc_str(fd[i as int].name), dmid, dcur);
                            lemma_prefix_chain(
                                enc_schema(fd[i as int].value),
                                enc_fields(fd.skip(i as int + 1)),
                                dmid,
                            );
                        }
                    }
                }
                return Err(e);
            },
        };
        let ghost dnew = d@;
        let f = Field { name, value: Box::new(value) };
        let ghost fg = f;
        ret.push(f);
        proof {
            assert forall|fd: Seq<FieldData>|
                fd.len() == count && #[trigger] prefix_of(enc_fields(fd), entry) implies
                fields_view(ret@) == fd.take(i as int + 1) && entry == enc_fields(
                fd.take(i as int + 1),
            ) + d@ && prefix_of(enc_fields(fd.skip(i as int + 1)), d@) by {
                let ii = i as int;
                lemma_fields_head(fd, ii, dcur);
                lemma_concat_prefix(enc_str(fd[ii].name), dmid, dcur);
                lemma_prefix_chain(
                    enc_schema(fd[ii].value),
                    enc_fields(fd.skip(ii + 1)),
                    dmid,
                );
                lemma_concat_prefix(enc_schema(fd[ii].value), dnew, dmid);
                assert(field_view(fg) =~= fd[ii]);
                lemma_fields_view_push(retg, fg);
                assert(fd.take(ii + 1) =~= fd.take(ii).push(fd[ii]));
                lemma_enc_fields_push(fd.take(ii), fd[ii]);
                assert(enc_field(fd[ii]) == enc_str(fd[ii].name) + enc_schema(fd[ii].value));
                assert(fields_view(ret@) =~= fd.take(ii + 1));
                assert(entry =~= enc_fields(fd.take(ii + 1)) + d@);
            }
        }
        i = i + 1;
    }
    proof {
        assert forall|fd: Seq<FieldData>|
            fd.len() == count && #[trigger] prefix_of(enc_fields(fd), entry) implies fields_view(
            ret@,
        ) == fd && entry == enc_fields(fd) + d@ by {
            assert(fd.take(count as int) =~= fd);
        }
    }
    Ok(ret)
}

/// How a stream that continues with an encoded variant list splits at its
/// first variant.
proof fn lemma_variants_split(vd: Seq<VariantData>, i: int, dcur: Seq<u8>)
    requires
        0 <= i < vd.len(),
        prefix_of(enc_variants(vd.skip(i)), dcur),
    ensures
        prefix_of(enc_variant(vd[i]), dcur),
        prefix_of(
            enc_variants(vd.skip(i + 1)),
            dcur.skip(enc_variant(vd[i]).len() as int),
        ),
{
    let tail = vd.skip(i);
    assert(tail[0] == vd[i]);
    assert(tail.drop_first() =~= vd.skip(i + 1));
    assert(enc_variants(tail) == enc_variant(vd[i]) + enc_variants(vd.skip(i + 1)));
    lemma_prefix_chain(enc_variant(vd[i]), enc_variants(vd.skip(i + 1)), dcur);
}

/// How a variant's wire form splits: the name comes first.
proof fn lemma_variant_name(vdata: VariantData, entry: Seq<u8>)
    requires
        prefix_of(enc_variant(vdata), entry),
    ensures
        prefix_of(enc_str(vdata.name), entry),
{
    let a = enc_str(vdata.name);
    let b = u16_le(vdata.discriminator);
    let c = u64_le(vdata.fields.len() as u64);
    let dd = enc_fields(vdata.fields);
    assert(enc_variant(vdata) == ((a + b) + c) + dd);
    assert(((a + b) + c) + dd =~= a + (b + (c + dd)));
    lemma_prefix_chain(a, b + (c + dd), entry);
}

/// After the name: the discriminator, then the field count and the fields.
proof fn lemma_variant_disc(vdata: VariantData, entry: Seq<u8>, s1: Seq<u8>)
    requires
        prefix_of(enc_variant(vdata), entry),
        entry == enc_str(vdata.name) + s1,
    ensures
        prefix_of(u16_le(vdata.discriminator), s1),
        prefix_of(
            u64_le(vdata.fields.len() as u64) + enc_fields(vdata.fields),
            s1.skip(2),
        ),
{
    let a = enc_str(vdata.name);
    let b = u16_le(vdata.discriminator);
    let c = u64_le(vdata.fields.len() as u64);
    let dd = enc_fields(vdata.fields);
    assert(enc_variant(vdata) == ((a + b) + c) + dd);
    assert(((a + b) + c) + dd =~= a + (b + (c + dd)));
    lemma_prefix_chain(a, b + (c + dd), entry);
    lemma_concat_prefix(a, s1, entry);
    lemma_prefix_chain(b, c + dd, s1);
}

/// After the discriminator: the field count, then the fields themselves.
proof fn lemma_variant_fields(vdata: VariantData, entry: Seq<u8>, s1: Seq<u8>, x: u16, s2: Seq<u8>)
    requires
        prefix_of(enc_variant(vdata), entry),
        entry == enc_str(vdata.name) + s1,
        s1 == u16_le(x) + s2,
        entry.len() <= usize::MAX,
    ensures
        x == vdata.discriminator,
        s2.len() >= 8,
        u64_from_le(s2) == vdata.fields.len() as u64,
        vdata.fields.len() as int <= usize::MAX as int,
        u64_from_le(s2) as int <= usize::MAX as int,
        prefix_of(enc_fields(vdata.fields), s2.skip(8)),
        s2 == u64_le(vdata.fields.len() as u64) + s2.skip(8),
{
    lemma_variant_disc(vdata, entry, s1);
    lemma_u16_prefix_value(x, s2, vdata.discriminator);
    lemma_concat_prefix(u16_le(x), s2, s1);
    lemma_prefix_chain(u64_le(vdata.fields.len() as u64), enc_fields(vdata.fields), s2);
    lemma_prefix_split(u64_le(vdata.fields.len() as u64), s2);
    lemma_u64_from_le_concat(vdata.fields.len() as u64, s2.skip(8));
    lemma_enc_fields_min_len(vdata.fields);
}

/// Reads one variant: its name, its discriminator, and its field list.
#[verifier::rlimit(100)]
pub fn deserialize_variant(d: &mut Deserializer) -> (r: Result<Variant, SavefileError>)
    ensures
        final(d).file_version == old(d).file_version,
        final(d).memory_version == old(d).memory_version,
        final(d)@.len() <= old(d)@.len(),
        r matches Err(e) ==> (e is IOError || e is CorruptStream || e is InvalidUtf8),
        forall|vdata: VariantData| #[trigger]
            prefix_of(enc_variant(vdata), old(d)@) ==> (r matches Ok(v) && v@ == vdata && old(d)@
                == enc_variant(vdata) + final(d)@),
    decreases old(d)@.len(), 0int,
{
    let ghost entry = old(d)@;
    proof {
        assert(vstd::slice::spec_slice_len(old(d).input) == old(d).input@.len());
    }
    let name = match d.read_string() {
        Ok(n) => n,
        Err(e) => {
            proof {
                assert forall|vdata: VariantData| !#[trigger]
                    prefix_of(enc_variant(vdata), entry) by {
                    if prefix_of(enc_variant(vdata), entry) {
                        lemma_variant_name(vdata, entry);
                    }
                }
            }
            return Err(e);
        },
    };
    let ghost s1 = d@;
    let discriminator = match d.read_u16() {
        Ok(x) => x,
        Err(e) => {
            proof {
                assert forall|vdata: VariantData| !#[trigger]
                    prefix_of(enc_variant(vdata), entry) by {
                    if prefix_of(enc_variant(vdata), entry) {
                        lemma_variant_name(vdata, entry);
                        lemma_variant_disc(vdata, entry, s1);
                    }
                }
            }
            return Err(e);
        },
    };
    let ghost s2 = d@;
    let fcount = match d.read_usize() {
        Ok(c) => c,
        Err(e) => {
            proof {
                assert forall|vdata: VariantData| !#[trigger]
                    prefix_of(enc_variant(vdata), entry) by {
                    if prefix_of(enc_variant(vdata), entry) {
                        lemma_variant_name(vdata, entry);
                        lemma_variant_fields(vdata, entry, s1, discriminator, s2);
                    }
                }
            }
            return Err(e);
        },
    };
    let ghost s3 = d@;
    let fields = match deserialize_fields(d, fcount) {
        Ok(f) => f,
        Err(e) => {
            proof {
                assert forall|vdata: VariantData| !#[trigger]
                    prefix_of(enc_variant(vdata), entry) by {
                    if prefix_of(enc_variant(vdata), entry) {
                        lemma_variant_name(vdata, entry);
                        lemma_variant_fields(vdata, entry, s1, discriminator, s2);
                        lemma_concat_prefix(u64_le(fcount as u64), s3, s2);
                    }
                }
            }
            return Err(e);
        },
    };
    let result = Variant { name, discriminator, fields };
    proof {
        assert forall|vdata: VariantData| #[trigger]
            prefix_of(enc_variant(vdata), entry) implies result@ == vdata && entry == enc_variant(
            vdata,
        ) + d@ by {
            lemma_variant_name(vdata, entry);
            lemma_variant_fields(vdata, entry, s1, discriminator, s2);
            lemma_concat_prefix(u64_le(fcount as u64), s3, s2);
            assert(fields_view(fields@) == vdata.fields);
            assert(result@ =~~= vdata);
            assert(enc_variant(vdata) == ((enc_str(vdata.name) + u16_le(vdata.discriminator))
                + u64_le(vdata.fields.len() as u64)) + enc_fields(vdata.fields));
            assert(entry =~= enc_variant(vdata) + d@);
        }
    }
    Ok(result)
}

/// Reads `count` variants, in order.
#[verifier::rlimit(100)]
pub fn deserialize_variants(d: &mut Deserializer, count: usize) -> (r: Result<
    Vec<Variant>,
    SavefileError,
>)
    ensures
        final(d).file_version == old(d).file_version,
        final(d).memory_version == old(d).memory_version,
        final(d)@.len() <= old(d)@.len(),
        r matches Err(e) ==> (e is IOError || e is CorruptStream || e is InvalidUtf8),
        forall|vd: Seq<VariantData>|
            vd.len() == count && #[trigger] prefix_of(enc_variants(vd), old(d)@) ==> (r matches Ok(
                v,
            ) && variants_view(v@) == vd && old(d)@ == enc_variants(vd) + final(d)@),
    decreases old(d)@.len(), 1int,
{
    let ghost entry = old(d)@;
    let mut ret: Vec<Variant> = Vec::new();
    let mut i: usize = 0;
    proof {
        assert forall|vd: Seq<VariantData>|
            vd.len() == count && #[trigger] prefix_of(enc_variants(vd), entry) implies
            variants_view(ret@) == vd.take(0) && entry == enc_variants(vd.take(0)) + entry
            && prefix_of(enc_variants(vd.skip(0)), entry) by {
            assert(vd.take(0) =~= Seq::<VariantData>::empty());
            assert(vd.skip(0) =~= vd);
            assert(ret@ =~= Seq::<Variant>::empty());
            assert(enc_variants(vd.take(0)) + entry =~= entry);
            assert(variants_view(ret@) =~= vd.take(0));
        }
    }
    while i < count
        invariant
            i <= count,
            d.file_version == old(d).file_version,
            d.memory_version == old(d).memory_version,
            d@.len() <= entry.len(),
            entry == old(d)@,
            ret@.len() == i,
            forall|vd: Seq<VariantData>|
                vd.len() == count && #[trigger] prefix_of(enc_variants(vd), entry) ==> (
                variants_view(ret@) == vd.take(i as int) && entry == enc_variants(
                    vd.take(i as int),
                ) + d@ && prefix_of(enc_variants(vd.skip(i as int)), d@)),
        decreases count - i,
    {
        let ghost retg = ret@;
        let ghost dcur = d@;
        let v = match deserialize_variant(d) {
            Ok(v) => v,
            Err(e) => {
                proof {
                    assert forall|vd: Seq<VariantData>|
                        !(vd.len() == count && #[trigger] prefix_of(enc_variants(vd), entry)) by {
                        if vd.len() == count && prefix_of(enc_variants(vd), entry) {
                            lemma_variants_split(vd, i as int, dcur);
                        }
                    }
                }
                return Err(e);
            },
        };
        let ghost dnew = d@;
        let ghost vg = v;
        ret.push(v);
        proof {
            assert forall|vd: Seq<VariantData>|
                vd.len() == count && #[trigger] prefix_of(enc_variants(vd), entry) implies
                variants_view(ret@) == vd.take(i as int + 1) && entry == enc_variants(
                vd.take(i as int + 1),
            ) + d@ && prefix_of(enc_variants(vd.skip(i as int + 1)), d@) by {
                let ii = i as int;
                lemma_variants_split(vd, ii, dcur);
                lemma_concat_prefix(enc_variant(vd[ii]), dnew, dcur);
                lemma_variants_view_push(retg, vg);
                assert(vd.take(ii + 1) =~= vd.take(ii).push(vd[ii]));
                lemma_enc_variants_push(vd.take(ii), vd[ii]);
                assert(variants_view(ret@) =~= vd.take(ii + 1));
                assert(entry =~= enc_variants(vd.take(ii + 1)) + d@);
            }
        }
        i = i + 1;
    }
    proof {
        assert forall|vd: Seq<VariantData>|
            vd.len() == count && #[trigger] prefix_of(enc_variants(vd), entry) implies
            variants_view(ret@) == vd && entry == enc_variants(vd) + d@ by {
            assert(vd.take(count as int) =~= vd);
        }
    }
    Ok(ret)
}

/// How a struct schema's payload splits: the debug name comes first.
proof fn lemma_struct_name(dn: Seq<char>, fl: Seq<FieldData>, entry: Seq<u8>)
    requires
        prefix_of(enc_schema_payload(SchemaData::Struct { dbg_name: dn, fields: fl }), entry),
    ensures
        prefix_of(enc_str(dn), entry),
{
    lemma_add_assoc(enc_str(dn), u64_le(fl.len() as u64), enc_fields(fl));
    lemma_prefix_chain(enc_str(dn), u64_le(fl.len() as u64) + enc_fields(fl), entry);
}

/// After the debug name: the field count, then the fields themselves.
proof fn lemma_struct_fields(dn: Seq<char>, fl: Seq<FieldData>, entry: Seq<u8>, s2: Seq<u8>)
    requires
        prefix_of(enc_schema_payload(SchemaData::Struct { dbg_name: dn, fields: fl }), entry),
        entry == enc_str(dn) + s2,
        entry.len() <= usize::MAX,
    ensures
        s2.len() >= 8,
        u64_from_le(s2) == fl.len() as u64,
        fl.len() as int <= usize::MAX as int,
        u64_from_le(s2) as int <= usize::MAX as int,
        prefix_of(enc_fields(fl), s2.skip(8)),
        s2 == u64_le(fl.len() as u64) + s2.skip(8),
{
    lemma_add_assoc(enc_str(dn), u64_le(fl.len() as u64), enc_fields(fl));
    lemma_prefix_chain(enc_str(dn), u64_le(fl.len() as u64) + enc_fields(fl), entry);
    lemma_concat_prefix(enc_str(dn), s2, entry);
    lemma_prefix_chain(u64_le(fl.len() as u64), enc_fields(fl), s2);
    lemma_prefix_split(u64_le(fl.len() as u64), s2);
    lemma_u64_from_le_concat(fl.len() as u64, s2.skip(8));
    lemma_enc_fields_min_len(fl);
}

/// Reads a struct schema's payload: its debug name, field count, and fields.
#[verifier::rlimit(100)]
pub fn deserialize_struct(d: &mut Deserializer) -> (r: Result<SchemaStruct, SavefileError>)
    ensures
        final(d).file_version == old(d).file_version,
        final(d).memory_version == old(d).memory_version,
        final(d)@.len() <= old(d)@.len(),
        r matches Err(e) ==> (e is IOError || e is CorruptStream || e is InvalidUtf8),
        forall|dn: Seq<char>, fl: Seq<FieldData>| #[trigger]
            prefix_of(
                enc_schema_payload(SchemaData::Struct { dbg_name: dn, fields: fl }),
                old(d)@,
            ) ==> (r matches Ok(v) && v@ == (SchemaData::Struct { dbg_name: dn, fields: fl })
                && old(d)@ == enc_schema_payload(SchemaData::Struct { dbg_name: dn, fields: fl })
                + final(d)@),
    decreases old(d)@.len(), 1int,
{
    let ghost entry = old(d)@;
    proof {
        assert(vstd::slice::spec_slice_len(old(d).input) == old(d).input@.len());
    }
    let dbg_name = match d.read_string() {
        Ok(n) => n,
        Err(e) => {
            proof {
                assert forall|dn: Seq<char>, fl: Seq<FieldData>| !#[trigger]
                    prefix_of(
                    enc_schema_payload(SchemaData::Struct { dbg_name: dn, fields: fl }),
                    entry,
                ) by {
                    if prefix_of(
                        enc_schema_payload(SchemaData::Struct { dbg_name: dn, fields: fl }),
                        entry,
                    ) {
                        lemma_struct_name(dn, fl, entry);
                    }
                }
            }
            return Err(e);
        },
    };
    let ghost s2 = d@;
    let count = match d.read_usize() {
        Ok(c) => c,
        Err(e) => {
            proof {
                assert forall|dn: Seq<char>, fl: Seq<FieldData>| !#[trigger]
                    prefix_of(
                    enc_schema_payload(SchemaData::Struct { dbg_name: dn, fields: fl }),
                    entry,
                ) by {
                    if prefix_of(
                        enc_schema_payload(SchemaData::Struct { dbg_name: dn, fields: fl }),
                        entry,
                    ) {
                        lemma_struct_name(dn, fl, entry);
                        lemma_struct_fields(dn, fl, entry, s2);
                    }
                }
            }
            return Err(e);
        },
    };
    let ghost s3 = d@;
    let fields = match deserialize_fields(d, count) {
        Ok(f) => f,
        Err(e) => {
            proof {
                assert forall|dn: Seq<char>, fl: Seq<FieldData>| !#[trigger]
                    prefix_of(
                    enc_schema_payload(SchemaData::Struct { dbg_name: dn, fields: fl }),
                    entry,
                ) by {
                    if prefix_of(
                        enc_schema_payload(SchemaData::Struct { dbg_name: dn, fields: fl }),
                        entry,
                    ) {
                        lemma_struct_name(dn, fl, entry);
                        lemma_struct_fields(dn, fl, entry, s2);
                        lemma_concat_prefix(u64_le(count as u64), s3, s2);
                    }
                }
            }
            return Err(e);
        },
    };
    let result = SchemaStruct { dbg_name, fields };
    proof {
        assert forall|dn: Seq<char>, fl: Seq<FieldData>| #[trigger]
            prefix_of(
            enc_schema_payload(SchemaData::Struct { dbg_name: dn, fields: fl }),
            entry,
        ) implies result@ == (SchemaData::Struct { dbg_name: dn, fields: fl }) && entry
            == enc_schema_payload(SchemaData::Struct { dbg_name: dn, fields: fl }) + d@ by {
            lemma_struct_name(dn, fl, entry);
            lemma_struct_fields(dn, fl, entry, s2);
            lemma_concat_prefix(u64_le(count as u64), s3, s2);
            assert(fields_view(fields@) == fl);
            assert(result@ =~~= (SchemaData::Struct { dbg_name: dn, fields: fl }));
            assert(entry =~= enc_schema_payload(SchemaData::Struct { dbg_name: dn, fields: fl })
                + d@);
        }
    }
    Ok(result)
}

/// Reads an enum schema's payload: its variant count and variants.
#[verifier::rlimit(100)]
pub fn deserialize_enum(d: &mut Deserializer) -> (r: Result<SchemaEnum, SavefileError>)
    ensures
        final(d).file_version == old(d).file_version,
        final(d).memory_version == old(d).memory_version,
        final(d)@.len() <= old(d)@.len(),
        r matches Err(e) ==> (e is IOError || e is CorruptStream || e is InvalidUtf8),
        forall|vl: Seq<VariantData>| #[trigger]
            prefix_of(enc_schema_payload(SchemaData::Enum { variants: vl }), old(d)@) ==> (r
                matches Ok(v) && v@ == (SchemaData::Enum { variants: vl }) && old(d)@
                == enc_schema_payload(SchemaData::Enum { variants: vl }) + final(d)@),
    decreases old(d)@.len(), 1int,
{
    let ghost entry = old(d)@;
    proof {
        assert(vstd::slice::spec_slice_len(old(d).input) == old(d).input@.len());
    }
    let count = match d.read_usize() {
        Ok(c) => c,
        Err(e) => {
            proof {
                assert forall|vl: Seq<VariantData>| !#[trigger]
                    prefix_of(enc_schema_payload(SchemaData::Enum { variants: vl }), entry) by {
                    if prefix_of(enc_schema_payload(SchemaData::Enum { variants: vl }), entry) {
                        lemma_prefix_chain(u64_le(vl.len() as u64), enc_variants(vl), entry);
                        lemma_prefix_split(u64_le(vl.len() as u64), entry);
                        lemma_u64_from_le_concat(vl.len() as u64, entry.skip(8));
                        lemma_enc_variants_min_len(vl);
                    }
                }
            }
            return Err(e);
        },
    };
    let ghost s3 = d@;
    let variants = match deserialize_variants(d, count) {
        Ok(v) => v,
        Err(e) => {
            proof {
                assert forall|vl: Seq<VariantData>| !#[trigger]
                    prefix_of(enc_schema_payload(SchemaData::Enum { variants: vl }), entry) by {
                    if prefix_of(enc_schema_payload(SchemaData::Enum { variants: vl }), entry) {
                        lemma_prefix_chain(u64_le(vl.len() as u64), enc_variants(vl), entry);
                        lemma_prefix_split(u64_le(vl.len() as u64), entry);
                        lemma_u64_from_le_concat(vl.len() as u64, entry.skip(8));
                        lemma_enc_variants_min_len(vl);
                        lemma_concat_prefix(u64_le(count as u64), s3, entry);
                    }
                }
            }
            return Err(e);
        },
    };
    let result = SchemaEnum { variants };
    proof {
        assert forall|vl: Seq<VariantData>| #[trigger]
            prefix_of(enc_schema_payload(SchemaData::Enum { variants: vl }), entry) implies
            result@ == (SchemaData::Enum { variants: vl }) && entry == enc_schema_payload(
            SchemaData::Enum { variants: vl },
        ) + d@ by {
            lemma_prefix_chain(u64_le(vl.len() as u64), enc_variants(vl), entry);
            lemma_prefix_split(u64_le(vl.len() as u64), entry);
            lemma_u64_from_le_concat(vl.len() as u64, entry.skip(8));
            lemma_enc_variants_min_len(vl);
            lemma_concat_prefix(u64_le(count as u64), s3, entry);
            assert(variants_view(variants@) == vl);
            assert(result@ =~~= (SchemaData::Enum { variants: vl }));
            assert(entry =~= enc_schema_payload(SchemaData::Enum { variants: vl }) + d@);
        }
    }
    Ok(result)
}

/// Reads one schema node: its tag, then its payload.
///
/// Whenever the unread bytes start with the wire form of some schema value,
/// exactly that value is returned and exactly its wire form is consumed. A
/// tag or a primitive discriminator outside its closed set is a corrupt
/// stream.
#[verifier::rlimit(100)]
pub fn deserialize_schema(d: &mut Deserializer) -> (r: Result<Schema, SavefileError>)
    ensures
        final(d).file_version == old(d).file_version,
        final(d).memory_version == old(d).memory_version,
        final(d)@.len() <= old(d)@.len(),
        r matches Err(e) ==> (e is IOError || e is CorruptStream || e is InvalidUtf8),
        old(d)@.len() >= 2 && ((u16_from_le(old(d)@) as int) < 1 || (u16_from_le(old(d)@)
            as int) > 5) ==> (r matches Err(e) && e is CorruptStream),
        old(d)@.len() >= 4 && u16_from_le(old(d)@) == 3 && ((u16_from_le(old(d)@.skip(2))
            as int) < 1 || (u16_from_le(old(d)@.skip(2)) as int) > 11) ==> (r matches Err(e)
            && e is CorruptStream),
        forall|sd: SchemaData| #[trigger]
            prefix_of(enc_schema(sd), old(d)@) ==> (r matches Ok(v) && v@ == sd && old(d)@
                == enc_schema(sd) + final(d)@),
    decreases old(d)@.len(), 1int,
{
    let ghost stream = old(d)@;
    proof {
        assert(vstd::slice::spec_slice_len(old(d).input) == old(d).input@.len());
    }
    let tag = match d.read_u16() {
        Ok(t) => t,
        Err(e) => {
            proof {
                assert forall|sd: SchemaData| !#[trigger] prefix_of(enc_schema(sd), stream) by {
                    if prefix_of(enc_schema(sd), stream) {
                        lemma_prefix_chain(
                            u16_le(schema_tag(sd)),
                            enc_schema_payload(sd),
                            stream,
                        );
                    }
                }
            }
            return Err(e);
        },
    };
    let ghost s1 = d@;
    proof {
        lemma_u16_from_le_concat(tag, s1);
        lemma_concat_prefix(u16_le(tag), s1, stream);
        assert forall|sd: SchemaData| #[trigger]
            prefix_of(enc_schema(sd), stream) implies schema_tag(sd) == tag && prefix_of(
            enc_schema_payload(sd),
            s1,
        ) by {
            lemma_prefix_chain(u16_le(schema_tag(sd)), enc_schema_payload(sd), stream);
            lemma_u16_prefix_value(tag, s1, schema_tag(sd));
            lemma_concat_prefix(u16_le(tag), s1, stream);
        }
    }
    if tag == 1 {
        match deserialize_struct(d) {
            Ok(ss) => {
                let v = Schema::Struct(ss);
                proof {
                    assert forall|sd: SchemaData| #[trigger]
                        prefix_of(enc_schema(sd), stream) implies v@ == sd && stream
                        == enc_schema(sd) + d@ by {
                        if let SchemaData::Struct { dbg_name: dn, fields: fl } = sd {
                            assert(prefix_of(
                                enc_schema_payload(
                                    SchemaData::Struct { dbg_name: dn, fields: fl },
                                ),
                                s1,
                            ));
                            assert(stream =~= enc_schema(sd) + d@);
                        }
                    }
                }
                Ok(v)
            },
            Err(e) => {
                proof {
                    assert forall|sd: SchemaData| !#[trigger]
                        prefix_of(enc_schema(sd), stream) by {
                        if prefix_of(enc_schema(sd), stream) {
                            if let SchemaData::Struct { dbg_name: dn, fields: fl } = sd {
                                assert(prefix_of(
                                    enc_schema_payload(
                                        SchemaData::Struct { dbg_name: dn, fields: fl },
                                    ),
                                    s1,
                                ));
                            }
                        }
                    }
                }
                Err(e)
            },
        }
    } else if tag == 2 {
        match deserialize_enum(d) {
            Ok(se) => {
                let v = Schema::Enum(se);
                proof {
                    assert forall|sd: SchemaData| #[trigger]
                        prefix_of(enc_schema(sd), stream) implies v@ == sd && stream
                        == enc_schema(sd) + d@ by {
                        if let SchemaData::Enum { variants: vl } = sd {
                            assert(prefix_of(
                                enc_schema_payload(SchemaData::Enum { variants: vl }),
                                s1,
                            ));
                            assert(stream =~= enc_schema(sd) + d@);
                        }
                    }
                }
                Ok(v)
            },
            Err(e) => {
                proof {
                    assert forall|sd: SchemaData| !#[trigger]
                        prefix_of(enc_schema(sd), stream) by {
                        if prefix_of(enc_schema(sd), stream) {
                            if let SchemaData::Enum { variants: vl } = sd {
                                assert(prefix_of(
                                    enc_schema_payload(SchemaData::Enum { variants: vl }),
                                    s1,
                                ));
                            }
                        }
                    }
                }
                Err(e)
            },
        }
    } else if tag == 3 {
        let discr = match d.read_u16() {
            Ok(x) => x,
            Err(e) => {
                proof {
                    assert forall|sd: SchemaData| !#[trigger]
                        prefix_of(enc_schema(sd), stream) by {
                        if prefix_of(enc_schema(sd), stream) {
                            if let SchemaData::Primitive { prim } = sd {
                                lemma_prefix_split(u16_le(prim_discr(prim)), s1);
                            }
                        }
                    }
                }
                return Err(e);
            },
        };
        let ghost s2 = d@;
        proof {
            lemma_u16_from_le_concat(discr, s2);
            assert forall|sd: SchemaData| #[trigger]
                prefix_of(enc_schema(sd), stream) implies (sd matches SchemaData::Primitive {
                prim,
            } && prim_discr(prim) == discr && stream == enc_schema(sd) + s2) by {
                if let SchemaData::Primitive { prim } = sd {
                    lemma_u16_prefix_value(discr, s2, prim_discr(prim));
                    assert(enc_schema(sd) =~= u16_le(3) + u16_le(prim_discr(prim)));
                    assert(stream =~= enc_schema(sd) + s2);
                }
            }
        }
        let prim = match discr {
            1 => SchemaPrimitive::schema_i8,
            2 => SchemaPrimitive::schema_u8,
            3 => SchemaPrimitive::schema_i16,
            4 => SchemaPrimitive::schema_u16,
            5 => SchemaPrimitive::schema_i32,
            6 => SchemaPrimitive::schema_u32,
            7 => SchemaPrimitive::schema_i64,
            8 => SchemaPrimitive::schema_u64,
            9 => SchemaPrimitive::schema_isize,
            10 => SchemaPrimitive::schema_usize,
            11 => SchemaPrimitive::schema_string,
            _ => {
                return Err(
                    SavefileError::CorruptStream {
                        msg: "unknown primitive discriminator in schema".to_owned(),
                    },
                );
            },
        };
        Ok(Schema::Primitive(prim))
    } else if tag == 4 {
        let elem = match deserialize_schema(d) {
            Ok(x) => x,
            Err(e) => {
                proof {
                    assert forall|sd: SchemaData| !#[trigger]
                        prefix_of(enc_schema(sd), stream) by {
                        if prefix_of(enc_schema(sd), stream) {
                            if let SchemaData::Vector { elem: be } = sd {
                                assert(prefix_of(enc_schema(*be), s1));
                            }
                        }
                    }
                }
                return Err(e);
            },
        };
        let result = Schema::Vector(Box::new(elem));
        proof {
            assert forall|sd: SchemaData| #[trigger]
                prefix_of(enc_schema(sd), stream) implies result@ == sd && stream == enc_schema(
                sd,
            ) + d@ by {
                if let SchemaData::Vector { elem: be } = sd {
                    assert(prefix_of(enc_schema(*be), s1));
                    assert(result@ =~~= sd);
                    assert(stream =~= enc_schema(sd) + d@);
                }
            }
        }
        Ok(result)
    } else if tag == 5 {
        proof {
            assert forall|sd: SchemaData| #[trigger]
                prefix_of(enc_schema(sd), stream) implies sd == SchemaData::Undefined && stream
                == enc_schema(sd) + s1 by {
                assert(enc_schema(sd) =~= u16_le(5));
                assert(stream =~= enc_schema(sd) + s1);
            }
        }
        Ok(Schema::Undefined)
    } else {
        Err(
            SavefileError::CorruptStream {
                msg: "unknown schema variant tag".to_owned(),
            },
        )
    }
}

} // verus!
