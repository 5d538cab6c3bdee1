//! The keyed mapping codec: key-value pairs with pairwise distinct keys,
//! serialized as a sequence of `KeyValuePair` records. Iteration order on
//! the wire is the insertion order; on read, entries are inserted into a
//! fresh mapping, so a duplicate wire key overwrites the earlier one.

use crate::bytes::{
    lemma_add_assoc, lemma_concat_prefix, lemma_prefix_chain, lemma_prefix_split,
    lemma_u64_from_le_concat, prefix_of, u64_from_le, u64_le,
};
use crate::de::Deserializer;
use crate::error::SavefileError;
use crate::schema::{field_view, fields_view, Field, FieldData, Schema, SchemaData, SchemaStruct};
use crate::ser::Serializer;
use crate::traits::{Deserialize, Serialize, WithSchema};
use vstd::prelude::*;

verus! {

broadcast use vstd::slice::group_slice_axioms;

/// The capability a mapping key needs: equality of keys is decided exactly
/// by their mathematical value.
pub trait MappingKey: DeepView + Sized {
    /// Returns whether the two keys are the same key.
    fn key_eq(&self, other: &Self) -> (r: bool)
        ensures
            r == (self.deep_view() == other.deep_view()),
    ;
}

impl MappingKey for u8 {
    fn key_eq(&self, other: &Self) -> (r: bool) {
        *self == *other
    }
}

impl MappingKey for i8 {
    fn key_eq(&self, other: &Self) -> (r: bool) {
        *self == *other
    }
}

impl MappingKey for u16 {
    fn key_eq(&self, other: &Self) -> (r: bool) {
        *self == *other
    }
}

impl MappingKey for i16 {
    fn key_eq(&self, other: &Self) -> (r: bool) {
        *self == *other
    }
}

impl MappingKey for u32 {
    fn key_eq(&self, other: &Self) -> (r: bool) {
        *self == *other
    }
}

impl MappingKey for i32 {
    fn key_eq(&self, other: &Self) -> (r: bool) {
        *self == *other
    }
}

impl MappingKey for u64 {
    fn key_eq(&self, other: &Self) -> (r: bool) {
        *self == *other
    }
}

impl MappingKey for i64 {
    fn key_eq(&self, other: &Self) -> (r: bool) {
        *self == *other
    }
}

impl MappingKey for usize {
    fn key_eq(&self, other: &Self) -> (r: bool) {
        *self == *other
    }
}

impl MappingKey for isize {
    fn key_eq(&self, other: &Self) -> (r: bool) {
        *self == *other
    }
}

impl MappingKey for String {
    fn key_eq(&self, other: &Self) -> (r: bool) {
        *self == *other
    }
}

/// A keyed mapping, held as key-value pairs whose keys are pairwise
/// distinct.
pub struct Mapping<K: DeepView, V> {
    pairs: Vec<(K, V)>,
}

/// Keys of a pair sequence are pairwise distinct, by mathematical value.
pub open spec fn keys_unique<K: DeepView, V>(s: Seq<(K, V)>) -> bool {
    forall|i: int, j: int|
        #![trigger s[i], s[j]]
        0 <= i < j < s.len() ==> s[i].0.deep_view() != s[j].0.deep_view()
}

impl<K: DeepView, V> View for Mapping<K, V> {
    type V = Seq<(K, V)>;

    closed spec fn view(&self) -> Seq<(K, V)> {
        self.pairs@
    }
}

impl<K: DeepView, V: DeepView> DeepView for Mapping<K, V> {
    type V = Seq<(K::V, V::V)>;

    open spec fn deep_view(&self) -> Seq<(K::V, V::V)> {
        Seq::new(self@.len(), |i: int| (self@[i].0.deep_view(), self@[i].1.deep_view()))
    }
}

impl<K: DeepView, V> Mapping<K, V> {
    #[verifier::type_invariant]
    spec fn inv(self) -> bool {
        keys_unique(self.pairs@)
    }

    /// An empty mapping.
    pub fn new() -> (r: Mapping<K, V>)
        ensures
            r@ == Seq::<(K, V)>::empty(),
    {
        Mapping { pairs: Vec::new() }
    }

    /// The number of entries.
    pub fn len(&self) -> (r: usize)
        ensures
            r == self@.len(),
    {
        self.pairs.len()
    }
}

impl<K: DeepView + MappingKey, V> Mapping<K, V> {
    /// Inserts an entry; an entry under the same key is overwritten: the
    /// last insertion wins.
    pub fn insert(&mut self, key: K, value: V)
        ensures
            (forall|i: int|
                0 <= i < old(self)@.len() ==> (#[trigger] old(self)@[i]).0.deep_view()
                    != key.deep_view()) ==> final(self)@ == old(self)@.push((key, value)),
            forall|i: int|
                0 <= i < old(self)@.len() && (#[trigger] old(self)@[i]).0.deep_view()
                    == key.deep_view() ==> final(self)@ == old(self)@.remove(i).push(
                    (key, value),
                ),
    {
        proof {
            use_type_invariant(&*self);
        }
        let ghost entry = self.pairs@;
        let mut pairs: Vec<(K, V)> = Vec::new();
        core::mem::swap(&mut pairs, &mut self.pairs);
        let n = pairs.len();
        let mut found: usize = n;
        let mut i: usize = 0;
        while i < n
            invariant
                i <= n,
                n == pairs@.len(),
                pairs@ == entry,
                found == n || (found < i && pairs@[found as int].0.deep_view()
                    == key.deep_view()),
                found == n ==> forall|j: int|
                    0 <= j < i ==> (#[trigger] pairs@[j]).0.deep_view() != key.deep_view(),
            decreases n - i,
        {
            if found == n && pairs[i].0.key_eq(&key) {
                found = i;
            }
            i = i + 1;
        }
        if found < n {
            pairs.remove(found);
            proof {
                assert forall|p: int, q: int|
                    #![trigger pairs@[p], pairs@[q]]
                    0 <= p < q < pairs@.len() implies pairs@[p].0.deep_view()
                    != pairs@[q].0.deep_view() by {
                    assert(pairs@[p] == if p < found as int {
                        entry[p]
                    } else {
                        entry[p + 1]
                    });
                    assert(pairs@[q] == if q < found as int {
                        entry[q]
                    } else {
                        entry[q + 1]
                    });
                }
                assert forall|p: int| 0 <= p < pairs@.len() implies (#[trigger] pairs@[p]).0.deep_view()
                    != key.deep_view() by {
                    assert(pairs@[p] == if p < found as int {
                        entry[p]
                    } else {
                        entry[p + 1]
                    });
                    assert(entry[found as int].0.deep_view() == key.deep_view());
                }
            }
        }
        pairs.push((key, value));
        core::mem::swap(&mut pairs, &mut self.pairs);
        proof {
            assert forall|i0: int|
                0 <= i0 < entry.len() && (#[trigger] entry[i0]).0.deep_view() == key.deep_view()
                    implies self@ == entry.remove(i0).push((key, value)) by {
                assert(found < n);
                assert(i0 == found as int);
            }
        }
    }

    /// Looks an entry up by its key.
    pub fn get(&self, key: &K) -> (r: Option<&V>)
        ensures
            r matches Some(v) ==> (exists|i: int|
                0 <= i < self@.len() && (#[trigger] self@[i]).0.deep_view() == key.deep_view()
                    && v == self@[i].1),
            r is None ==> (forall|i: int|
                0 <= i < self@.len() ==> (#[trigger] self@[i]).0.deep_view() != key.deep_view()),
    {
        let n = self.pairs.len();
        let mut i: usize = 0;
        while i < n
            invariant
                i <= n,
                n == self@.len(),
                forall|j: int|
                    0 <= j < i ==> (#[trigger] self@[j]).0.deep_view() != key.deep_view(),
            decreases n - i,
        {
            if self.pairs[i].0.key_eq(key) {
                return Some(&self.pairs[i].1);
            }
            i = i + 1;
        }
        None
    }
}

/// The wire form of a pair sequence: each key, then its value, in order.
pub open spec fn pairs_enc<K: WithSchema, V: WithSchema>(s: Seq<(K, V)>, version: u32) -> Seq<u8>
    decreases s.len(),
{
    if s.len() == 0 {
        Seq::empty()
    } else {
        (s[0].0.spec_enc(version) + s[0].1.spec_enc(version)) + pairs_enc(
            s.drop_first(),
            version,
        )
    }
}

/// Whether every key and value of a pair sequence may be written.
pub open spec fn pairs_serializable<K: WithSchema, V: WithSchema>(
    s: Seq<(K, V)>,
    version: u32,
) -> bool
    decreases s.len(),
{
    s.len() == 0 || (s[0].0.serializable(version) && s[0].1.serializable(version)
        && pairs_serializable(s.drop_first(), version))
}

/// How a pair sequence's wire form splits at entry `i`.
proof fn lemma_pairs_enc_head<K: WithSchema, V: WithSchema>(s: Seq<(K, V)>, i: int, version: u32)
    requires
        0 <= i < s.len(),
    ensures
        pairs_enc(s.skip(i), version) == (s[i].0.spec_enc(version) + s[i].1.spec_enc(version))
            + pairs_enc(s.skip(i + 1), version),
{
    assert(s.skip(i)[0] == s[i]);
    assert(s.skip(i).drop_first() =~= s.skip(i + 1));
}

/// Appending one entry appends its wire form.
proof fn lemma_pairs_enc_push<K: WithSchema, V: WithSchema>(s: Seq<(K, V)>, t: (K, V), version: u32)
    ensures
        pairs_enc(s.push(t), version) == pairs_enc(s, version) + (t.0.spec_enc(version)
            + t.1.spec_enc(version)),
    decreases s.len(),
{
    if s.len() == 0 {
        assert(s.push(t)[0] == t);
        assert(s.push(t).drop_first() =~= s);
        assert(pairs_enc(s.push(t), version) =~= pairs_enc(s, version) + (t.0.spec_enc(version)
            + t.1.spec_enc(version)));
    } else {
        assert(s.push(t)[0] == s[0]);
        assert(s.push(t).drop_first() =~= s.drop_first().push(t));
        lemma_pairs_enc_push(s.drop_first(), t, version);
        assert(pairs_enc(s.push(t), version) == (s[0].0.spec_enc(version) + s[0].1.spec_enc(
            version,
        )) + (pairs_enc(s.drop_first(), version) + (t.0.spec_enc(version) + t.1.spec_enc(
            version,
        ))));
        assert(pairs_enc(s.push(t), version) =~= pairs_enc(s, version) + (t.0.spec_enc(version)
            + t.1.spec_enc(version)));
    }
}

/// Every entry of a writable pair sequence is writable.
proof fn lemma_pairs_serializable_index<K: WithSchema, V: WithSchema>(s: Seq<(K, V)>, version: u32)
    requires
        pairs_serializable(s, version),
    ensures
        forall|i: int|
            0 <= i < s.len() ==> ((#[trigger] s[i]).0.serializable(version)
                && s[i].1.serializable(version)),
    decreases s.len(),
{
    if s.len() > 0 {
        lemma_pairs_serializable_index(s.drop_first(), version);
        assert forall|i: int| 0 <= i < s.len() implies ((#[trigger] s[i]).0.serializable(version)
            && s[i].1.serializable(version)) by {
            if i > 0 {
                assert(s.drop_first()[i - 1] == s[i]);
            }
        }
    }
}

/// A writable pair sequence followed by one more writable entry is writable.
proof fn lemma_pairs_serializable_push<K: WithSchema, V: WithSchema>(
    s: Seq<(K, V)>,
    t: (K, V),
    version: u32,
)
    requires
        pairs_serializable(s, version),
        t.0.serializable(version),
        t.1.serializable(version),
    ensures
        pairs_serializable(s.push(t), version),
    decreases s.len(),
{
    if s.len() == 0 {
        assert(s.push(t)[0] == t);
        assert(s.push(t).drop_first() =~= s);
    } else {
        assert(s.push(t)[0] == s[0]);
        assert(s.push(t).drop_first() =~= s.drop_first().push(t));
        lemma_pairs_serializable_push(s.drop_first(), t, version);
    }
}

/// A pair sequence with an unwritable entry is not writable.
proof fn lemma_pairs_serializable_not<K: WithSchema, V: WithSchema>(
    s: Seq<(K, V)>,
    i: int,
    version: u32,
)
    requires
        0 <= i < s.len(),
        !(s[i].0.serializable(version) && s[i].1.serializable(version)),
    ensures
        !pairs_serializable(s, version),
{
    if pairs_serializable(s, version) {
        lemma_pairs_serializable_index(s, version);
    }
}

impl<K: WithSchema + DeepView, V: WithSchema> WithSchema for Mapping<K, V> {
    open spec fn spec_schema(version: u32) -> SchemaData {
        SchemaData::Vector {
            elem: Box::new(
                SchemaData::Struct {
                    dbg_name: "KeyValuePair"@,
                    fields: seq![
                        FieldData { name: "key"@, value: K::spec_schema(version) },
                        FieldData { name: "value"@, value: V::spec_schema(version) },
                    ],
                },
            ),
        }
    }

    open spec fn serializable(&self, version: u32) -> bool {
        pairs_serializable(self@, version) && keys_unique(self@)
    }

    open spec fn spec_enc(&self, version: u32) -> Seq<u8> {
        u64_le(self@.len() as u64) + pairs_enc(self@, version)
    }

    fn schema(version: u32) -> (r: Schema) {
        let key_field = Field { name: "key".to_owned(), value: Box::new(K::schema(version)) };
        let value_field = Field {
            name: "value".to_owned(),
            value: Box::new(V::schema(version)),
        };
        let ghost f0 = key_field;
        let ghost f1 = value_field;
        let mut fields: Vec<Field> = Vec::new();
        fields.push(key_field);
        fields.push(value_field);
        let ghost fsv = fields@;
        let dbg = "KeyValuePair".to_owned();
        let ss = SchemaStruct { dbg_name: dbg, fields };
        proof {
            assert(ss@ == (SchemaData::Struct {
                dbg_name: "KeyValuePair"@,
                fields: fields_view(fsv),
            }));
        }
        let inner = Schema::Struct(ss);
        let ghost innerv = inner@;
        let r = Schema::Vector(Box::new(inner));
        proof {
            assert(r@ == (SchemaData::Vector { elem: Box::new(innerv) }));
        }
        proof {
            assert(fsv =~= seq![f0, f1]);
            assert(fsv.drop_first() =~= seq![f1]);
            assert(seq![f1].drop_first() =~= Seq::<Field>::empty());
            assert(fields_view(Seq::<Field>::empty()) == Seq::<FieldData>::empty());
            assert(fields_view(seq![f1]) == seq![field_view(f1)] + fields_view(
                seq![f1].drop_first(),
            ));
            assert(fields_view(fsv) == seq![field_view(f0)] + fields_view(fsv.drop_first()));
            assert(fields_view(fsv) =~= seq![field_view(f0), field_view(f1)]);
            assert(field_view(f0) =~~= (FieldData {
                name: "key"@,
                value: K::spec_schema(version),
            }));
            assert(field_view(f1) =~~= (FieldData {
                name: "value"@,
                value: V::spec_schema(version),
            }));
            assert(fields_view(fsv) =~~= seq![
                FieldData { name: "key"@, value: K::spec_schema(version) },
                FieldData { name: "value"@, value: V::spec_schema(version) },
            ]);
            assert(r@ =~~= Self::spec_schema(version));
        }
        r
    }
}

impl<K: WithSchema + Serialize + DeepView, V: WithSchema + Serialize> Serialize for Mapping<K, V> {
    fn serialize(&self, serializer: &mut Serializer) -> (r: Result<(), SavefileError>) {
        proof {
            use_type_invariant(&*self);
        }
        let l = self.pairs.len();
        serializer.write_usize(l)?;
        let mut i: usize = 0;
        while i < l
            invariant
                i <= l,
                l == self@.len(),
                keys_unique(self@),
                serializer.version == old(serializer).version,
                serializer@ == old(serializer)@ + u64_le(l as u64) + pairs_enc(
                    self@.take(i as int),
                    old(serializer).version,
                ),
                pairs_serializable(self@.take(i as int), old(serializer).version),
            decreases l - i,
        {
            let pair = &self.pairs[i];
            let res_k = pair.0.serialize(serializer);
            match res_k {
                Ok(_) => {},
                Err(e) => {
                    proof {
                        lemma_pairs_serializable_not(self@, i as int, old(serializer).version);
                    }
                    return Err(e);
                },
            }
            let res_v = pair.1.serialize(serializer);
            match res_v {
                Ok(_) => {
                    proof {
                        lemma_pairs_enc_push(
                            self@.take(i as int),
                            self@[i as int],
                            old(serializer).version,
                        );
                        assert(self@.take(i as int + 1) =~= self@.take(i as int).push(
                            self@[i as int],
                        ));
                        assert(serializer@ =~= old(serializer)@ + u64_le(l as u64) + pairs_enc(
                            self@.take(i as int + 1),
                            old(serializer).version,
                        ));
                        lemma_pairs_serializable_push(
                            self@.take(i as int),
                            self@[i as int],
                            old(serializer).version,
                        );
                    }
                },
                Err(e) => {
                    proof {
                        lemma_pairs_serializable_not(self@, i as int, old(serializer).version);
                    }
                    return Err(e);
                },
            }
            i = i + 1;
        }
        proof {
            assert(self@.take(l as int) =~= self@);
            assert(final(serializer)@ =~= old(serializer)@ + self.spec_enc(
                old(serializer).version,
            ));
        }
        Ok(())
    }
}

impl<K: WithSchema + Deserialize + MappingKey, V: WithSchema + Deserialize> Deserialize for Mapping<
    K,
    V,
> {
    #[verifier::rlimit(100)]
    fn deserialize(d: &mut Deserializer) -> (r: Result<Self, SavefileError>) {
        let ghost stream = old(d)@;
        let ghost fv = old(d).file_version;
        proof {
            assert(vstd::slice::spec_slice_len(old(d).input) == old(d).input@.len());
            assert forall|x: Mapping<K, V>| #[trigger]
                prefix_of(x.spec_enc(fv), stream) implies stream.len() >= 8 && u64_from_le(
                stream,
            ) == x@.len() as u64 && x@.len() as int <= usize::MAX as int && prefix_of(
                pairs_enc(x@, fv),
                stream.skip(8),
            ) by {
                vstd::std_specs::vec::axiom_spec_len(&x.pairs);
                lemma_prefix_chain(u64_le(x@.len() as u64), pairs_enc(x@, fv), stream);
                lemma_prefix_split(u64_le(x@.len() as u64), stream);
                lemma_u64_from_le_concat(x@.len() as u64, stream.skip(8));
            }
        }
        let l = match d.read_usize() {
            Ok(l) => l,
            Err(e) => {
                return Err(e);
            },
        };
        let ghost s1 = d@;
        let mut ret: Mapping<K, V> = Mapping::new();
        let mut i: usize = 0;
        proof {
            assert forall|x: Mapping<K, V>|
                x.serializable(fv) && #[trigger] prefix_of(x.spec_enc(fv), stream) implies
                ret@.len() == 0 && s1 == pairs_enc(x@.take(0), fv) + s1 && prefix_of(
                pairs_enc(x@.skip(0), fv),
                s1,
            ) && x@.len() == l by {
                assert(x@.take(0) =~= Seq::<(K, V)>::empty());
                assert(x@.skip(0) =~= x@);
                assert(pairs_enc(x@.take(0), fv) + s1 =~= s1);
                lemma_concat_prefix(u64_le(l as u64), s1, stream);
                vstd::std_specs::vec::axiom_spec_len(&x.pairs);
            }
        }
        while i < l
            invariant
                i <= l,
                d.file_version == old(d).file_version,
                d.memory_version == old(d).memory_version,
                fv == old(d).file_version,
                stream == old(d)@,
                d@.len() <= stream.len(),
                forall|x: Mapping<K, V>|
                    x.serializable(fv) && #[trigger] prefix_of(x.spec_enc(fv), stream) ==> (
                    ret@.len() == i && (forall|j: int|
                        0 <= j < i ==> ((#[trigger] ret@[j]).0.deep_view() == x@[j].0.deep_view()
                            && ret@[j].1.deep_view() == x@[j].1.deep_view())) && s1 == pairs_enc(
                        x@.take(i as int),
                        fv,
                    ) + d@ && prefix_of(pairs_enc(x@.skip(i as int), fv), d@) && x@.len() == l),
            decreases l - i,
        {
            let ghost dcur = d@;
            let k = match K::deserialize(d) {
                Ok(k) => k,
                Err(e) => {
                    proof {
                        assert forall|x: Mapping<K, V>|
                            !(x.serializable(fv) && #[trigger] prefix_of(
                                x.spec_enc(fv),
                                stream,
                            )) by {
                            if x.serializable(fv) && prefix_of(x.spec_enc(fv), stream) {
                                lemma_pairs_enc_head(x@, i as int, fv);
                                lemma_pairs_serializable_index(x@, fv);
                                lemma_add_assoc(
                                    x@[i as int].0.spec_enc(fv),
                                    x@[i as int].1.spec_enc(fv),
                                    pairs_enc(x@.skip(i as int + 1), fv),
                                );
                                lemma_prefix_chain(
                                    x@[i as int].0.spec_enc(fv),
                                    x@[i as int].1.spec_enc(fv) + pairs_enc(
                                        x@.skip(i as int + 1),
                                        fv,
                                    ),
                                    dcur,
                                );
                            }
                        }
                    }
                    return Err(e);
                },
            };
            let ghost dmid = d@;
            let v = match V::deserialize(d) {
                Ok(v) => v,
                Err(e) => {
                    proof {
                        assert forall|x: Mapping<K, V>|
                            !(x.serializable(fv) && #[trigger] prefix_of(
                                x.spec_enc(fv),
                                stream,
                            )) by {
                            if x.serializable(fv) && prefix_of(x.spec_enc(fv), stream) {
                                lemma_pairs_enc_head(x@, i as int, fv);
                                lemma_pairs_serializable_index(x@, fv);
                                lemma_add_assoc(
                                    x@[i as int].0.spec_enc(fv),
                                    x@[i as int].1.spec_enc(fv),
                                    pairs_enc(x@.skip(i as int + 1), fv),
                                );
                                lemma_prefix_chain(
                                    x@[i as int].0.spec_enc(fv),
                                    x@[i as int].1.spec_enc(fv) + pairs_enc(
                                        x@.skip(i as int + 1),
                                        fv,
                                    ),
                                    dcur,
                                );
                                lemma_concat_prefix(x@[i as int].0.spec_enc(fv), dmid, dcur);
                                lemma_prefix_chain(
                                    x@[i as int].1.spec_enc(fv),
                                    pairs_enc(x@.skip(i as int + 1), fv),
                                    dmid,
                                );
                            }
                        }
                    }
                    return Err(e);
                },
            };
            let ghost dnew = d@;
            let ghost retg = ret@;
            let ghost kg = k;
            let ghost vg = v;
            ret.insert(k, v);
            proof {
                assert forall|x: Mapping<K, V>|
                    x.serializable(fv) && #[trigger] prefix_of(x.spec_enc(fv), stream) implies (
                    ret@.len() == i + 1 && (forall|j: int|
                        0 <= j < i + 1 ==> ((#[trigger] ret@[j]).0.deep_view()
                            == x@[j].0.deep_view() && ret@[j].1.deep_view()
                            == x@[j].1.deep_view())) && s1 == pairs_enc(x@.take(i as int + 1), fv)
                    + d@ && prefix_of(pairs_enc(x@.skip(i as int + 1), fv), d@) && x@.len()
                    == l) by {
                    let ii = i as int;
                    lemma_pairs_enc_head(x@, ii, fv);
                    lemma_pairs_serializable_index(x@, fv);
                    lemma_add_assoc(
                        x@[ii].0.spec_enc(fv),
                        x@[ii].1.spec_enc(fv),
                        pairs_enc(x@.skip(ii + 1), fv),
                    );
                    lemma_prefix_chain(
                        x@[ii].0.spec_enc(fv),
                        x@[ii].1.spec_enc(fv) + pairs_enc(x@.skip(ii + 1), fv),
                        dcur,
                    );
                    lemma_concat_prefix(x@[ii].0.spec_enc(fv), dmid, dcur);
                    lemma_prefix_chain(
                        x@[ii].1.spec_enc(fv),
                        pairs_enc(x@.skip(ii + 1), fv),
                        dmid,
                    );
                    lemma_concat_prefix(x@[ii].1.spec_enc(fv), dnew, dmid);
                    assert(kg.deep_view() == x@[ii].0.deep_view());
                    assert forall|j: int|
                        0 <= j < retg.len() implies (#[trigger] retg[j]).0.deep_view()
                        != kg.deep_view() by {
                        assert(retg[j].0.deep_view() == x@[j].0.deep_view());
                        assert(x@[j].0.deep_view() != x@[ii].0.deep_view());
                    }
                    assert(ret@ == retg.push((kg, vg)));
                    lemma_pairs_enc_push(x@.take(ii), x@[ii], fv);
                    assert(x@.take(ii + 1) =~= x@.take(ii).push(x@[ii]));
                    assert(s1 =~= pairs_enc(x@.take(ii + 1), fv) + d@);
                }
            }
            i = i + 1;
        }
        proof {
            assert forall|x: Mapping<K, V>|
                x.serializable(fv) && #[trigger] prefix_of(x.spec_enc(fv), stream) implies
                ret.deep_view() == x.deep_view() && stream == x.spec_enc(fv) + d@ by {
                assert(x@.take(l as int) =~= x@);
                assert(ret.deep_view() =~= x.deep_view());
                assert(stream =~= x.spec_enc(fv) + d@);
            }
        }
        Ok(ret)
    }
}

} // verus!
