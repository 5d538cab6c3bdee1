//! The schema guard: a structural comparator over schema trees that reports
//! the first difference found, annotated with a `/`-joined path.
//!
//! Two schemas are compatible when they have the same shape: equal field
//! names and counts, equal variant names, discriminators and counts, and
//! equal primitive kinds. Debug names of structs are reported in messages
//! but do not take part in the comparison. A schema that contains an
//! `Undefined` node is never certified compatible.

use crate::schema::{
    field_view, fields_view, lemma_fields_view_index, lemma_variants_view_index, schema_tag,
    schema_view, variant_view, variants_view, Field, FieldData, Schema, SchemaData, SchemaEnum,
    SchemaPrimitive, SchemaStruct, Variant, VariantData,
};
use vstd::prelude::*;
use vstd::string::StringExecFns;

verus! {

/// The comparison the schema guard decides: same shape, same field names,
/// same discriminators, same primitive kinds; no `Undefined` node on either
/// side is ever compatible.
pub open spec fn schema_compat(a: SchemaData, b: SchemaData) -> bool
    decreases a,
{
    match (a, b) {
        (
            SchemaData::Struct { dbg_name: _, fields: af },
            SchemaData::Struct { dbg_name: _, fields: bf },
        ) => fields_compat(af, bf),
        (SchemaData::Enum { variants: av }, SchemaData::Enum { variants: bv }) => variants_compat(
            av,
            bv,
        ),
        (SchemaData::Primitive { prim: pa }, SchemaData::Primitive { prim: pb }) => pa == pb,
        (SchemaData::Vector { elem: ea }, SchemaData::Vector { elem: eb }) => schema_compat(
            *ea,
            *eb,
        ),
        _ => false,
    }
}

pub open spec fn fields_compat(af: Seq<FieldData>, bf: Seq<FieldData>) -> bool
    decreases af,
{
    af.len() == bf.len() && (af.len() == 0 || (af[0].name == bf[0].name && schema_compat(
        af[0].value,
        bf[0].value,
    ) && fields_compat(af.drop_first(), bf.drop_first())))
}

pub open spec fn variants_compat(av: Seq<VariantData>, bv: Seq<VariantData>) -> bool
    decreases av,
{
    av.len() == bv.len() && (av.len() == 0 || (av[0].name == bv[0].name && av[0].discriminator
        == bv[0].discriminator && fields_compat(av[0].fields, bv[0].fields) && variants_compat(
        av.drop_first(),
        bv.drop_first(),
    )))
}

/// No node of the schema is `Undefined`.
pub open spec fn schema_defined(sd: SchemaData) -> bool
    decreases sd,
{
    match sd {
        SchemaData::Struct { dbg_name: _, fields } => fields_defined(fields),
        SchemaData::Enum { variants } => variants_defined(variants),
        SchemaData::Primitive { .. } => true,
        SchemaData::Vector { elem } => schema_defined(*elem),
        SchemaData::Undefined => false,
    }
}

pub open spec fn fields_defined(fs: Seq<FieldData>) -> bool
    decreases fs,
{
    fs.len() == 0 || (schema_defined(fs[0].value) && fields_defined(fs.drop_first()))
}

pub open spec fn variants_defined(vs: Seq<VariantData>) -> bool
    decreases vs,
{
    vs.len() == 0 || (fields_defined(vs[0].fields) && variants_defined(vs.drop_first()))
}

/// `needle` occurs in `hay` as a contiguous run of characters.
pub open spec fn contains_seq(hay: Seq<char>, needle: Seq<char>) -> bool {
    exists|k: int|
        0 <= k && k + needle.len() <= hay.len() && #[trigger] hay.subrange(
            k,
            k + needle.len() as int,
        ) == needle
}

/// A run found at a known offset occurs.
pub proof fn lemma_contains_at(hay: Seq<char>, needle: Seq<char>, k: int)
    requires
        0 <= k,
        k + needle.len() <= hay.len(),
        hay.subrange(k, k + needle.len() as int) == needle,
    ensures
        contains_seq(hay, needle),
{
}

/// The middle part of a concatenation occurs in it.
pub proof fn lemma_contains_mid(a: Seq<char>, needle: Seq<char>, b: Seq<char>, hay: Seq<char>)
    requires
        hay == (a + needle) + b,
    ensures
        contains_seq(hay, needle),
{
    assert(hay.subrange(a.len() as int, a.len() + needle.len() as int) =~= needle);
    lemma_contains_at(hay, needle, a.len() as int);
}

/// Whatever occurs in a prefix of a string occurs in the whole of it.
pub proof fn lemma_contains_of_prefix(pre: Seq<char>, hay: Seq<char>, needle: Seq<char>)
    requires
        contains_seq(pre, needle),
        pre.len() <= hay.len(),
        hay.take(pre.len() as int) == pre,
    ensures
        contains_seq(hay, needle),
{
    let k = choose|k: int|
        0 <= k && k + needle.len() <= pre.len() && #[trigger] pre.subrange(
            k,
            k + needle.len() as int,
        ) == needle;
    assert(hay.subrange(k, k + needle.len() as int) =~= needle);
    lemma_contains_at(hay, needle, k);
}

/// Whatever contains a concatenation contains its middle part.
pub proof fn lemma_contains_inner(hay: Seq<char>, a: Seq<char>, b: Seq<char>, c: Seq<char>)
    requires
        contains_seq(hay, (a + b) + c),
    ensures
        contains_seq(hay, b),
{
    let abc = (a + b) + c;
    let k = choose|k: int|
        0 <= k && k + abc.len() <= hay.len() && #[trigger] hay.subrange(k, k + abc.len() as int)
            == abc;
    assert(hay.subrange(k, k + abc.len() as int) == abc);
    assert forall|i: int| 0 <= i < b.len() implies hay[k + a.len() + i] == b[i] by {
        assert(abc[a.len() + i] == b[i]);
        assert(hay.subrange(k, k + abc.len() as int)[a.len() + i] == hay[k + a.len() + i]);
    }
    assert(hay.subrange(k + a.len(), k + a.len() + b.len() as int) =~= b);
    lemma_contains_at(hay, b, k + a.len() as int);
}

/// Whatever contains a concatenation contains its first part.
pub proof fn lemma_contains_shrink(hay: Seq<char>, a: Seq<char>, b: Seq<char>)
    requires
        contains_seq(hay, a + b),
    ensures
        contains_seq(hay, a),
{
    let ab = a + b;
    let k = choose|k: int|
        0 <= k && k + ab.len() <= hay.len() && #[trigger] hay.subrange(k, k + ab.len() as int)
            == ab;
    assert(hay.subrange(k, k + a.len() as int) =~= a);
    lemma_contains_at(hay, a, k);
}

/// Compatibility of field lists, element by element.
pub proof fn lemma_fields_compat_char(af: Seq<FieldData>, bf: Seq<FieldData>)
    ensures
        fields_compat(af, bf) <==> (af.len() == bf.len() && (forall|j: int|
            0 <= j < af.len() ==> ((#[trigger] af[j]).name == bf[j].name && schema_compat(
                af[j].value,
                bf[j].value,
            )))),
    decreases af,
{
    if af.len() == bf.len() && af.len() > 0 {
        lemma_fields_compat_char(af.drop_first(), bf.drop_first());
        assert(forall|j: int|
            0 <= j < af.len() - 1 ==> #[trigger] af.drop_first()[j] == af[j + 1]
                && bf.drop_first()[j] == bf[j + 1]);
        if af[0].name == bf[0].name && schema_compat(af[0].value, bf[0].value) && (forall|j: int|
            0 <= j < af.drop_first().len() ==> ((#[trigger] af.drop_first()[j]).name
                == bf.drop_first()[j].name && schema_compat(
                af.drop_first()[j].value,
                bf.drop_first()[j].value,
            ))) {
            assert forall|j: int| 0 <= j < af.len() implies ((#[trigger] af[j]).name
                == bf[j].name && schema_compat(af[j].value, bf[j].value)) by {
                if j > 0 {
                    assert(af.drop_first()[j - 1] == af[j]);
                    assert(bf.drop_first()[j - 1] == bf[j]);
                }
            }
        }
        if (forall|j: int|
            0 <= j < af.len() ==> ((#[trigger] af[j]).name == bf[j].name && schema_compat(
                af[j].value,
                bf[j].value,
            ))) {
            assert(af[0].name == bf[0].name && schema_compat(af[0].value, bf[0].value));
        }
    }
}

/// Compatibility of variant lists, element by element.
pub proof fn lemma_variants_compat_char(av: Seq<VariantData>, bv: Seq<VariantData>)
    ensures
        variants_compat(av, bv) <==> (av.len() == bv.len() && (forall|j: int|
            0 <= j < av.len() ==> ((#[trigger] av[j]).name == bv[j].name && av[j].discriminator
                == bv[j].discriminator && fields_compat(av[j].fields, bv[j].fields)))),
    decreases av,
{
    if av.len() == bv.len() && av.len() > 0 {
        lemma_variants_compat_char(av.drop_first(), bv.drop_first());
        assert(forall|j: int|
            0 <= j < av.len() - 1 ==> #[trigger] av.drop_first()[j] == av[j + 1]
                && bv.drop_first()[j] == bv[j + 1]);
        if av[0].name == bv[0].name && av[0].discriminator == bv[0].discriminator
            && fields_compat(av[0].fields, bv[0].fields) && (forall|j: int|
            0 <= j < av.drop_first().len() ==> ((#[trigger] av.drop_first()[j]).name
                == bv.drop_first()[j].name && av.drop_first()[j].discriminator
                == bv.drop_first()[j].discriminator && fields_compat(
                av.drop_first()[j].fields,
                bv.drop_first()[j].fields,
            ))) {
            assert forall|j: int| 0 <= j < av.len() implies ((#[trigger] av[j]).name
                == bv[j].name && av[j].discriminator == bv[j].discriminator && fields_compat(
                av[j].fields,
                bv[j].fields,
            )) by {
                if j > 0 {
                    assert(av.drop_first()[j - 1] == av[j]);
                    assert(bv.drop_first()[j - 1] == bv[j]);
                }
            }
        }
        if (forall|j: int|
            0 <= j < av.len() ==> ((#[trigger] av[j]).name == bv[j].name && av[j].discriminator
                == bv[j].discriminator && fields_compat(av[j].fields, bv[j].fields))) {
            assert(av[0].name == bv[0].name && av[0].discriminator == bv[0].discriminator
                && fields_compat(av[0].fields, bv[0].fields));
        }
    }
}

/// Comparing a schema without `Undefined` nodes against itself reports no
/// difference: the guard lets identical shapes through.
pub proof fn lemma_schema_compat_reflexive(sd: SchemaData)
    ensures
        schema_defined(sd) ==> schema_compat(sd, sd),
    decreases sd,
{
    match sd {
        SchemaData::Struct { dbg_name: _, fields } => {
            lemma_fields_compat_reflexive(fields);
        },
        SchemaData::Enum { variants } => {
            lemma_variants_compat_reflexive(variants);
        },
        SchemaData::Vector { elem } => {
            lemma_schema_compat_reflexive(*elem);
        },
        _ => {},
    }
}

pub proof fn lemma_fields_compat_reflexive(fs: Seq<FieldData>)
    ensures
        fields_defined(fs) ==> fields_compat(fs, fs),
    decreases fs,
{
    if fs.len() > 0 {
        lemma_schema_compat_reflexive(fs[0].value);
        lemma_fields_compat_reflexive(fs.drop_first());
    }
}

pub proof fn lemma_variants_compat_reflexive(vs: Seq<VariantData>)
    ensures
        variants_defined(vs) ==> variants_compat(vs, vs),
    decreases vs,
{
    if vs.len() > 0 {
        lemma_fields_compat_reflexive(vs[0].fields);
        lemma_variants_compat_reflexive(vs.drop_first());
    }
}

/// The kind name a mismatch report uses for a schema node.
pub open spec fn kind_name_spec(sd: SchemaData) -> Seq<char> {
    match sd {
        SchemaData::Struct { .. } => "struct"@,
        SchemaData::Enum { .. } => "enum"@,
        SchemaData::Primitive { .. } => "primitive"@,
        SchemaData::Vector { .. } => "vector"@,
        SchemaData::Undefined => "undefined"@,
    }
}

fn kind_name(s: &Schema) -> (r: &'static str)
    ensures
        r@ == kind_name_spec(s@),
{
    match s {
        Schema::Struct(_) => "struct",
        Schema::Enum(_) => "enum",
        Schema::Primitive(_) => "primitive",
        Schema::Vector(_) => "vector",
        Schema::Undefined => "undefined",
    }
}

/// The name a mismatch report uses for a primitive kind.
pub open spec fn prim_name_spec(p: SchemaPrimitive) -> Seq<char> {
    match p {
        SchemaPrimitive::schema_i8 => "i8"@,
        SchemaPrimitive::schema_u8 => "u8"@,
        SchemaPrimitive::schema_i16 => "i16"@,
        SchemaPrimitive::schema_u16 => "u16"@,
        SchemaPrimitive::schema_i32 => "i32"@,
        SchemaPrimitive::schema_u32 => "u32"@,
        SchemaPrimitive::schema_i64 => "i64"@,
        SchemaPrimitive::schema_u64 => "u64"@,
        SchemaPrimitive::schema_isize => "isize"@,
        SchemaPrimitive::schema_usize => "usize"@,
        SchemaPrimitive::schema_string => "string"@,
    }
}

fn prim_name(p: &SchemaPrimitive) -> (r: &'static str)
    ensures
        r@ == prim_name_spec(*p),
{
    match p {
        SchemaPrimitive::schema_i8 => "i8",
        SchemaPrimitive::schema_u8 => "u8",
        SchemaPrimitive::schema_i16 => "i16",
        SchemaPrimitive::schema_u16 => "u16",
        SchemaPrimitive::schema_i32 => "i32",
        SchemaPrimitive::schema_u32 => "u32",
        SchemaPrimitive::schema_i64 => "i64",
        SchemaPrimitive::schema_u64 => "u64",
        SchemaPrimitive::schema_isize => "isize",
        SchemaPrimitive::schema_usize => "usize",
        SchemaPrimitive::schema_string => "string",
    }
}

/// The opening of every mismatch report: the location it was found at.
fn located(path: &str) -> (r: String)
    ensures
        r@ == ("At location ["@ + path@) + "]: "@,
        contains_seq(r@, path@),
{
    let mut m = "At location [".to_owned();
    m.append(path);
    m.append("]: ");
    proof {
        lemma_contains_mid("At location ["@, path@, "]: "@, m@);
    }
    m
}

/// Compares two primitive kinds; a mismatch report names the path and both
/// kinds.
pub fn diff_primitive(a: SchemaPrimitive, b: SchemaPrimitive, path: String) -> (r: Option<String>)
    ensures
        r is None <==> a == b,
        r matches Some(m) ==> (contains_seq(m@, path@) && contains_seq(m@, prim_name_spec(a))
            && contains_seq(m@, prim_name_spec(b))),
{
    if a == b {
        return None;
    }
    let mut m = located(path.as_str());
    let ghost locv = m@;
    m.append("Application protocol has datatype ");
    m.append(prim_name(&a));
    m.append(", but disk format has ");
    m.append(prim_name(&b));
    proof {
        assert(m@.take(locv.len() as int) =~= locv);
        lemma_contains_of_prefix(locv, m@, path@);
        assert(m@ =~= ((locv + "Application protocol has datatype "@) + prim_name_spec(a)) + (
        ", but disk format has "@ + prim_name_spec(b)));
        lemma_contains_mid(
            locv + "Application protocol has datatype "@,
            prim_name_spec(a),
            ", but disk format has "@ + prim_name_spec(b),
            m@,
        );
        assert(m@ =~= ((((locv + "Application protocol has datatype "@) + prim_name_spec(a))
            + ", but disk format has "@) + prim_name_spec(b)) + Seq::<char>::empty());
        lemma_contains_mid(
            ((locv + "Application protocol has datatype "@) + prim_name_spec(a))
                + ", but disk format has "@,
            prim_name_spec(b),
            Seq::<char>::empty(),
            m@,
        );
    }
    Some(m)
}

/// Compares two field lists: counts, then names, then nested schemas.
pub fn diff_fields(
    a: &Vec<Field>,
    b: &Vec<Field>,
    path: String,
    structuretype: &str,
    extra_a: String,
    extra_b: String,
) -> (r: Option<String>)
    ensures
        r is None <==> fields_compat(fields_view(a@), fields_view(b@)),
        r matches Some(m) ==> contains_seq(m@, path@),
        a@.len() != b@.len() ==> (r matches Some(m) ==> (contains_seq(m@, extra_a@)
            && contains_seq(m@, extra_b@))),
    decreases *a, 0int,
{
    proof {
        lemma_fields_view_index(a@);
        lemma_fields_view_index(b@);
        lemma_fields_compat_char(fields_view(a@), fields_view(b@));
    }
    if a.len() != b.len() {
        let mut m = located(path.as_str());
        let ghost locv = m@;
        m.append("In memory ");
        m.append(structuretype);
        m.append(extra_a.as_str());
        m.append(" and disk format");
        m.append(extra_b.as_str());
        m.append(" have different numbers of fields");
        proof {
            assert(m@.take(locv.len() as int) =~= locv);
            lemma_contains_of_prefix(locv, m@, path@);
            assert(m@ =~= (((locv + "In memory "@) + structuretype@) + extra_a@) + ((
            " and disk format"@ + extra_b@) + " have different numbers of fields"@));
            lemma_contains_mid(
                (locv + "In memory "@) + structuretype@,
                extra_a@,
                (" and disk format"@ + extra_b@) + " have different numbers of fields"@,
                m@,
            );
            assert(m@ =~= (((((locv + "In memory "@) + structuretype@) + extra_a@)
                + " and disk format"@) + extra_b@) + " have different numbers of fields"@);
            lemma_contains_mid(
                (((locv + "In memory "@) + structuretype@) + extra_a@) + " and disk format"@,
                extra_b@,
                " have different numbers of fields"@,
                m@,
            );
        }
        return Some(m);
    }
    let n = a.len();
    let mut i: usize = 0;
    while i < n
        invariant
            i <= n,
            n == a@.len() == b@.len(),
            forall|j: int|
                0 <= j < i ==> ((#[trigger] fields_view(a@)[j]).name == fields_view(b@)[j].name
                    && schema_compat(fields_view(a@)[j].value, fields_view(b@)[j].value)),
        decreases n - i,
    {
        proof {
            lemma_fields_view_index(a@);
            lemma_fields_view_index(b@);
            lemma_fields_compat_char(fields_view(a@), fields_view(b@));
        }
        if !(a[i].name == b[i].name) {
            proof {
                assert(fields_view(a@)[i as int] == field_view(a@[i as int]));
                assert(fields_view(b@)[i as int] == field_view(b@[i as int]));
                assert(!fields_compat(fields_view(a@), fields_view(b@)));
            }
            let mut m = located(path.as_str());
            let ghost locv = m@;
            m.append("Field in memory");
            m.append(extra_a.as_str());
            m.append(" is called ");
            m.append(a[i].name.as_str());
            m.append(", but in disk format");
            m.append(extra_b.as_str());
            m.append(" it is called ");
            m.append(b[i].name.as_str());
            proof {
                assert(m@.take(locv.len() as int) =~= locv);
                lemma_contains_of_prefix(locv, m@, path@);
            }
            return Some(m);
        }
        let mut child_path = path.clone();
        child_path.append("/");
        child_path.append(a[i].name.as_str());
        let ghost cpv = child_path@;
        let rec = diff_schema(&a[i].value, &b[i].value, child_path);
        proof {
            assert(fields_view(a@)[i as int] == field_view(a@[i as int]));
            assert(fields_view(b@)[i as int] == field_view(b@[i as int]));
        }
        if let Some(err) = rec {
            proof {
                assert(!fields_compat(fields_view(a@), fields_view(b@)));
                assert(cpv == (path@ + "/"@) + a@[i as int].name@);
                lemma_contains_shrink(err@, path@ + "/"@, a@[i as int].name@);
                lemma_contains_shrink(err@, path@, "/"@);
            }
            return Some(err);
        }
        i = i + 1;
    }
    proof {
        lemma_fields_compat_char(fields_view(a@), fields_view(b@));
    }
    None
}

/// Compares two struct schemas; their debug names appear only in reports.
pub fn diff_struct(a: &SchemaStruct, b: &SchemaStruct, path: String) -> (r: Option<String>)
    ensures
        r is None <==> schema_compat(a@, b@),
        r matches Some(m) ==> contains_seq(m@, path@),
        a.fields@.len() != b.fields@.len() ==> (r matches Some(m) ==> (contains_seq(
            m@,
            a.dbg_name@,
        ) && contains_seq(m@, b.dbg_name@))),
    decreases *a, 0int,
{
    let mut extra_a = " (struct ".to_owned();
    extra_a.append(a.dbg_name.as_str());
    extra_a.append(")");
    let mut extra_b = " (struct ".to_owned();
    extra_b.append(b.dbg_name.as_str());
    extra_b.append(")");
    let ghost eav = extra_a@;
    let ghost ebv = extra_b@;
    let r = diff_fields(&a.fields, &b.fields, path, "struct", extra_a, extra_b);
    proof {
        match &r {
            Some(m) => {
                if a.fields@.len() != b.fields@.len() {
                    assert(eav == (" (struct "@ + a.dbg_name@) + ")"@);
                    assert(ebv == (" (struct "@ + b.dbg_name@) + ")"@);
                    lemma_contains_inner(m@, " (struct "@, a.dbg_name@, ")"@);
                    lemma_contains_inner(m@, " (struct "@, b.dbg_name@, ")"@);
                }
            },
            None => {},
        }
    }
    r
}

/// Compares two enum schemas: variant counts, names, discriminators, fields.
pub fn diff_enum(a: &SchemaEnum, b: &SchemaEnum, path: String) -> (r: Option<String>)
    ensures
        r is None <==> schema_compat(a@, b@),
        r matches Some(m) ==> contains_seq(m@, path@),
    decreases *a, 0int,
{
    proof {
        lemma_variants_view_index(a.variants@);
        lemma_variants_view_index(b.variants@);
        lemma_variants_compat_char(variants_view(a.variants@), variants_view(b.variants@));
    }
    if a.variants.len() != b.variants.len() {
        let mut m = located(path.as_str());
        let ghost locv = m@;
        m.append("In memory enum and disk format enum have different numbers of variants");
        proof {
            assert(m@.take(locv.len() as int) =~= locv);
            lemma_contains_of_prefix(locv, m@, path@);
        }
        return Some(m);
    }
    let n = a.variants.len();
    let mut i: usize = 0;
    while i < n
        invariant
            i <= n,
            n == a.variants@.len() == b.variants@.len(),
            forall|j: int|
                0 <= j < i ==> ((#[trigger] variants_view(a.variants@)[j]).name == variants_view(
                    b.variants@,
                )[j].name && variants_view(a.variants@)[j].discriminator == variants_view(
                    b.variants@,
                )[j].discriminator && fields_compat(
                    variants_view(a.variants@)[j].fields,
                    variants_view(b.variants@)[j].fields,
                )),
        decreases n - i,
    {
        proof {
            lemma_variants_view_index(a.variants@);
            lemma_variants_view_index(b.variants@);
            lemma_variants_compat_char(variants_view(a.variants@), variants_view(b.variants@));
        }
        let av = &a.variants[i];
        let bv = &b.variants[i];
        if !(av.name == bv.name) {
            proof {
                assert(variants_view(a.variants@)[i as int] == variant_view(a.variants@[i as int]));
                assert(variants_view(b.variants@)[i as int] == variant_view(b.variants@[i as int]));
                assert(!variants_compat(variants_view(a.variants@), variants_view(b.variants@)));
            }
            let mut m = located(path.as_str());
            let ghost locv = m@;
            m.append("Enum variant in memory is called ");
            m.append(av.name.as_str());
            m.append(", but in disk format it is called ");
            m.append(bv.name.as_str());
            proof {
                assert(m@.take(locv.len() as int) =~= locv);
                lemma_contains_of_prefix(locv, m@, path@);
            }
            return Some(m);
        }
        if av.discriminator != bv.discriminator {
            proof {
                assert(variants_view(a.variants@)[i as int] == variant_view(a.variants@[i as int]));
                assert(variants_view(b.variants@)[i as int] == variant_view(b.variants@[i as int]));
                assert(!variants_compat(variants_view(a.variants@), variants_view(b.variants@)));
            }
            let mut m = located(path.as_str());
            let ghost locv = m@;
            m.append("Enum variant ");
            m.append(av.name.as_str());
            m.append(" has a different discriminator in memory than in the disk format");
            proof {
                assert(m@.take(locv.len() as int) =~= locv);
                lemma_contains_of_prefix(locv, m@, path@);
            }
            return Some(m);
        }
        let mut child_path = path.clone();
        child_path.append("/");
        child_path.append(av.name.as_str());
        let ghost cpv = child_path@;
        let rec = diff_fields(&av.fields, &bv.fields, child_path, "enum", "".to_owned(), "".to_owned());
        proof {
            assert(variants_view(a.variants@)[i as int] == variant_view(a.variants@[i as int]));
            assert(variants_view(b.variants@)[i as int] == variant_view(b.variants@[i as int]));
        }
        if let Some(err) = rec {
            proof {
                assert(!variants_compat(variants_view(a.variants@), variants_view(b.variants@)));
                assert(cpv == (path@ + "/"@) + a.variants@[i as int].name@);
                lemma_contains_shrink(err@, path@ + "/"@, a.variants@[i as int].name@);
                lemma_contains_shrink(err@, path@, "/"@);
            }
            return Some(err);
        }
        i = i + 1;
    }
    proof {
        lemma_variants_compat_char(variants_view(a.variants@), variants_view(b.variants@));
    }
    None
}

/// Compares two vector element schemas, one level down.
pub fn diff_vector(a: &Box<Schema>, b: &Box<Schema>, path: String) -> (r: Option<String>)
    ensures
        r is None <==> schema_compat(schema_view(**a), schema_view(**b)),
        r matches Some(m) ==> contains_seq(m@, path@),
    decreases **a, 5int,
{
    let ghost pathv = path@;
    let mut child_path = path;
    child_path.append("/*");
    let ghost cpv = child_path@;
    let rec = diff_schema(&**a, &**b, child_path);
    proof {
        match &rec {
            Some(m) => {
                assert(cpv == pathv + "/*"@);
                lemma_contains_shrink(m@, pathv, "/*"@);
            },
            None => {},
        }
    }
    rec
}

/// Compares two schemas; reports the first difference found, annotated by
/// the path it was found at, and nothing when the schemas are compatible.
///
/// A schema containing an `Undefined` node is never certified: the guard
/// refuses to vouch for a type that declines to describe itself.
pub fn diff_schema(a: &Schema, b: &Schema, path: String) -> (r: Option<String>)
    ensures
        r is None <==> schema_compat(a@, b@),
        r matches Some(m) ==> contains_seq(m@, path@),
        schema_tag(a@) != schema_tag(b@) && !(a@ is Undefined) ==> (r matches Some(m)
            && contains_seq(m@, kind_name_spec(a@)) && contains_seq(m@, kind_name_spec(b@))),
    decreases *a, 0int,
{
    match a {
        Schema::Struct(xa) => {
            match b {
                Schema::Struct(xb) => diff_struct(xa, xb, path),
                _ => {
                    proof {
                        assert(!schema_compat(a@, b@));
                    }
                    Some(kind_mismatch(a, b, path))
                },
            }
        },
        Schema::Enum(xa) => {
            match b {
                Schema::Enum(xb) => diff_enum(xa, xb, path),
                _ => {
                    proof {
                        assert(!schema_compat(a@, b@));
                    }
                    Some(kind_mismatch(a, b, path))
                },
            }
        },
        Schema::Primitive(xa) => {
            match b {
                Schema::Primitive(xb) => diff_primitive(*xa, *xb, path),
                _ => {
                    proof {
                        assert(!schema_compat(a@, b@));
                    }
                    Some(kind_mismatch(a, b, path))
                },
            }
        },
        Schema::Vector(xa) => {
            match b {
                Schema::Vector(xb) => diff_vector(xa, xb, path),
                _ => {
                    proof {
                        assert(!schema_compat(a@, b@));
                    }
                    Some(kind_mismatch(a, b, path))
                },
            }
        },
        Schema::Undefined => {
            let mut m = located(path.as_str());
            let ghost locv = m@;
            m.append("Undefined schema encountered");
            proof {
                assert(m@.take(locv.len() as int) =~= locv);
                lemma_contains_of_prefix(locv, m@, path@);
            }
            Some(m)
        },
    }
}

/// The report for two schema nodes of different kinds: it names the path
/// and both kinds.
fn kind_mismatch(a: &Schema, b: &Schema, path: String) -> (r: String)
    ensures
        contains_seq(r@, path@),
        contains_seq(r@, kind_name_spec(a@)),
        contains_seq(r@, kind_name_spec(b@)),
{
    let mut m = located(path.as_str());
    let ghost locv = m@;
    m.append("In memory schema: ");
    m.append(kind_name(a));
    m.append(", file schema: ");
    m.append(kind_name(b));
    proof {
        assert(m@.take(locv.len() as int) =~= locv);
        lemma_contains_of_prefix(locv, m@, path@);
        assert(m@ =~= ((locv + "In memory schema: "@) + kind_name_spec(a@)) + ((
        ", file schema: "@ + kind_name_spec(b@))));
        lemma_contains_mid(
            locv + "In memory schema: "@,
            kind_name_spec(a@),
            ", file schema: "@ + kind_name_spec(b@),
            m@,
        );
        assert(m@ =~= (((locv + "In memory schema: "@) + kind_name_spec(a@))
            + ", file schema: "@) + kind_name_spec(b@) + Seq::<char>::empty());
        lemma_contains_mid(
            ((locv + "In memory schema: "@) + kind_name_spec(a@)) + ", file schema: "@,
            kind_name_spec(b@),
            Seq::<char>::empty(),
            m@,
        );
    }
    m
}

} // verus!
