//! The generic container codecs: variable-length sequences, the bulk-copy
//! path for byte sequences, and the removed-field placeholder.

use crate::bytes::{
    lemma_concat_prefix, lemma_prefix_chain, lemma_prefix_split, lemma_u64_from_le_concat,
    prefix_of, u64_from_le, u64_le,
};
use crate::de::Deserializer;
use crate::error::SavefileError;
use crate::schema::{Schema, SchemaData};
use crate::ser::Serializer;
use crate::traits::{Deserialize, ReprC, Serialize, WithSchema};
use vstd::prelude::*;

verus! {

broadcast use vstd::slice::group_slice_axioms;

/// The wire form of a sequence's elements, in order.
pub open spec fn seq_enc<T: WithSchema>(s: Seq<T>, version: u32) -> Seq<u8>
    decreases s.len(),
{
    if s.len() == 0 {
        Seq::empty()
    } else {
        s[0].spec_enc(version) + seq_enc(s.drop_first(), version)
    }
}

/// Whether every element of a sequence may be written.
pub open spec fn seq_serializable<T: WithSchema>(s: Seq<T>, version: u32) -> bool
    decreases s.len(),
{
    s.len() == 0 || (s[0].serializable(version) && seq_serializable(s.drop_first(), version))
}

/// How a sequence's wire form splits at element `i`.
proof fn lemma_seq_enc_head<T: WithSchema>(s: Seq<T>, i: int, version: u32)
    requires
        0 <= i < s.len(),
    ensures
        seq_enc(s.skip(i), version) == s[i].spec_enc(version) + seq_enc(s.skip(i + 1), version),
{
    assert(s.skip(i)[0] == s[i]);
    assert(s.skip(i).drop_first() =~= s.skip(i + 1));
}

/// Appending one element appends its wire form.
proof fn lemma_seq_enc_push<T: WithSchema>(s: Seq<T>, t: T, version: u32)
    ensures
        seq_enc(s.push(t), version) == seq_enc(s, version) + t.spec_enc(version),
    decreases s.len(),
{
    if s.len() == 0 {
        assert(s.push(t)[0] == t);
        assert(s.push(t).drop_first() =~= s);
        assert(seq_enc(s.push(t), version) =~= seq_enc(s, version) + t.spec_enc(version));
    } else {
        assert(s.push(t)[0] == s[0]);
        assert(s.push(t).drop_first() =~= s.drop_first().push(t));
        lemma_seq_enc_push(s.drop_first(), t, version);
        assert(seq_enc(s.push(t), version) == s[0].spec_enc(version) + (seq_enc(
            s.drop_first(),
            version,
        ) + t.spec_enc(version)));
        assert(seq_enc(s.push(t), version) =~= seq_enc(s, version) + t.spec_enc(version));
    }
}

/// Every element of a writable sequence is writable.
proof fn lemma_seq_serializable_index<T: WithSchema>(s: Seq<T>, version: u32)
    requires
        seq_serializable(s, version),
    ensures
        forall|i: int| 0 <= i < s.len() ==> (#[trigger] s[i]).serializable(version),
    decreases s.len(),
{
    if s.len() > 0 {
        lemma_seq_serializable_index(s.drop_first(), version);
        assert forall|i: int| 0 <= i < s.len() implies (#[trigger] s[i]).serializable(
            version,
        ) by {
            if i > 0 {
                assert(s.drop_first()[i - 1] == s[i]);
            }
        }
    }
}

/// A byte sequence's element-by-element wire form is the sequence itself:
/// this is what makes the bulk path sound.
pub proof fn lemma_seq_enc_u8(s: Seq<u8>, version: u32)
    ensures
        seq_enc(s, version) == s,
    decreases s.len(),
{
    if s.len() == 0 {
        assert(seq_enc(s, version) =~= s);
    } else {
        lemma_seq_enc_u8(s.drop_first(), version);
        assert(seq_enc(s, version) =~= s);
    }
}

impl<T: WithSchema> WithSchema for Vec<T> {
    open spec fn spec_schema(version: u32) -> SchemaData {
        SchemaData::Vector { elem: Box::new(T::spec_schema(version)) }
    }

    open spec fn serializable(&self, version: u32) -> bool {
        seq_serializable(self@, version)
    }

    open spec fn spec_enc(&self, version: u32) -> Seq<u8> {
        u64_le(self@.len() as u64) + seq_enc(self@, version)
    }

    fn schema(version: u32) -> (r: Schema) {
        Schema::Vector(Box::new(T::schema(version)))
    }
}

/// Writes a sequence element by element: the general path.
pub fn regular_serialize_vec<T: Serialize>(item: &Vec<T>, serializer: &mut Serializer) -> (r:
    Result<(), SavefileError>)
    ensures
        final(serializer).version == old(serializer).version,
        r is Ok <==> seq_serializable(item@, old(serializer).version),
        r is Ok ==> final(serializer)@ == old(serializer)@ + item.spec_enc(
            old(serializer).version,
        ),
        r matches Err(e) ==> e is RemovedFieldWritten,
{
    let l = item.len();
    serializer.write_usize(l)?;
    let mut i: usize = 0;
    while i < l
        invariant
            i <= l,
            l == item@.len(),
            serializer.version == old(serializer).version,
            serializer@ == old(serializer)@ + u64_le(l as u64) + seq_enc(
                item@.take(i as int),
                old(serializer).version,
            ),
            seq_serializable(item@.take(i as int), old(serializer).version),
        decreases l - i,
    {
        let res = item[i].serialize(serializer);
        match res {
            Ok(_) => {
                proof {
                    lemma_seq_enc_push(
                        item@.take(i as int),
                        item@[i as int],
                        old(serializer).version,
                    );
                    assert(item@.take(i as int + 1) =~= item@.take(i as int).push(
                        item@[i as int],
                    ));
                    assert(serializer@ =~= old(serializer)@ + u64_le(l as u64) + seq_enc(
                        item@.take(i as int + 1),
                        old(serializer).version,
                    ));
                    lemma_seq_serializable_push(
                        item@.take(i as int),
                        item@[i as int],
                        old(serializer).version,
                    );
                    assert(seq_serializable(item@.take(i as int + 1), old(serializer).version));
                }
            },
            Err(e) => {
                proof {
                    lemma_seq_serializable_not(item@, i as int, old(serializer).version);
                }
                return Err(e);
            },
        }
        i = i + 1;
    }
    proof {
        assert(item@.take(l as int) =~= item@);
        assert(final(serializer)@ =~= old(serializer)@ + item.spec_enc(
            old(serializer).version,
        ));
    }
    Ok(())
}

/// A writable sequence followed by one more writable element is writable.
proof fn lemma_seq_serializable_push<T: WithSchema>(s: Seq<T>, t: T, version: u32)
    requires
        seq_serializable(s, version),
        t.serializable(version),
    ensures
        seq_serializable(s.push(t), version),
    decreases s.len(),
{
    if s.len() == 0 {
        assert(s.push(t)[0] == t);
        assert(s.push(t).drop_first() =~= s);
    } else {
        assert(s.push(t)[0] == s[0]);
        assert(s.push(t).drop_first() =~= s.drop_first().push(t));
        lemma_seq_serializable_push(s.drop_first(), t, version);
    }
}

/// A sequence whose element `i` is not writable is not writable, whatever
/// its other elements.
proof fn lemma_seq_serializable_not<T: WithSchema>(s: Seq<T>, i: int, version: u32)
    requires
        0 <= i < s.len(),
        !s[i].serializable(version),
    ensures
        !seq_serializable(s, version),
    decreases s.len(),
{
    if seq_serializable(s, version) {
        lemma_seq_serializable_index(s, version);
    }
}

impl<T: Serialize> Serialize for Vec<T> {
    fn serialize(&self, serializer: &mut Serializer) -> (r: Result<(), SavefileError>) {
        regular_serialize_vec(self, serializer)
    }
}

/// Reads a sequence element by element: the general path.
#[verifier::rlimit(100)]
pub fn regular_deserialize_vec<T: Deserialize>(d: &mut Deserializer) -> (r: Result<
    Vec<T>,
    SavefileError,
>)
    ensures
        final(d).file_version == old(d).file_version,
        final(d).memory_version == old(d).memory_version,
        final(d)@.len() <= old(d)@.len(),
        forall|x: Vec<T>|
            x.serializable(old(d).file_version) && #[trigger] prefix_of(
                x.spec_enc(old(d).file_version),
                old(d)@,
            ) ==> (r matches Ok(v) && v.deep_view() == x.deep_view() && old(d)@ == x.spec_enc(
                old(d).file_version,
            ) + final(d)@),
{
    let ghost stream = old(d)@;
    let ghost fv = old(d).file_version;
    proof {
        assert(vstd::slice::spec_slice_len(old(d).input) == old(d).input@.len());
        assert forall|x: Vec<T>| #[trigger]
            prefix_of(x.spec_enc(fv), stream) implies stream.len() >= 8 && u64_from_le(stream)
            == x@.len() as u64 && x@.len() as int <= usize::MAX as int && prefix_of(
            seq_enc(x@, fv),
            stream.skip(8),
        ) by {
            vstd::std_specs::vec::axiom_spec_len(&x);
            lemma_prefix_chain(u64_le(x@.len() as u64), seq_enc(x@, fv), stream);
            lemma_prefix_split(u64_le(x@.len() as u64), stream);
            lemma_u64_from_le_concat(x@.len() as u64, stream.skip(8));
        }
    }
    let l = match d.read_usize() {
        Ok(l) => l,
        Err(e) => {
            return Err(e);
        },
    };
    let ghost s1 = d@;
    let mut ret: Vec<T> = Vec::new();
    let mut i: usize = 0;
    proof {
        assert forall|x: Vec<T>|
            x.serializable(fv) && #[trigger] prefix_of(x.spec_enc(fv), stream) implies
            ret.deep_view() == x.deep_view().take(0) && s1 == seq_enc(x@.take(0), fv) + s1
            && prefix_of(seq_enc(x@.skip(0), fv), s1) && x@.len() == l by {
            assert(x@.take(0) =~= Seq::<T>::empty());
            assert(x@.skip(0) =~= x@);
            assert(ret.deep_view() =~= x.deep_view().take(0));
            assert(seq_enc(x@.take(0), fv) + s1 =~= s1);
            lemma_concat_prefix(u64_le(l as u64), s1, stream);
            vstd::std_specs::vec::axiom_spec_len(&x);
        }
    }
    while i < l
        invariant
            i <= l,
            d.file_version == old(d).file_version,
            d.memory_version == old(d).memory_version,
            fv == old(d).file_version,
            stream == old(d)@,
            d@.len() <= stream.len(),
            ret@.len() == i,
            forall|x: Vec<T>|
                x.serializable(fv) && #[trigger] prefix_of(x.spec_enc(fv), stream) ==> (
                ret.deep_view() == x.deep_view().take(i as int) && s1 == seq_enc(
                    x@.take(i as int),
                    fv,
                ) + d@ && prefix_of(seq_enc(x@.skip(i as int), fv), d@) && x@.len() == l),
        decreases l - i,
    {
        let ghost retg = ret;
        let ghost dcur = d@;
        let elem = match T::deserialize(d) {
            Ok(v) => v,
            Err(e) => {
                proof {
                    assert forall|x: Vec<T>|
                        !(x.serializable(fv) && #[trigger] prefix_of(x.spec_enc(fv), stream)) by {
                        if x.serializable(fv) && prefix_of(x.spec_enc(fv), stream) {
                            lemma_seq_enc_head(x@, i as int, fv);
                            lemma_seq_serializable_index(x@, fv);
                            lemma_prefix_chain(
                                x@[i as int].spec_enc(fv),
                                seq_enc(x@.skip(i as int + 1), fv),
                                dcur,
                            );
                        }
                    }
                }
                return Err(e);
            },
        };
        let ghost elem_g = elem;
        ret.push(elem);
        proof {
            assert forall|x: Vec<T>|
                x.serializable(fv) && #[trigger] prefix_of(x.spec_enc(fv), stream) implies
                ret.deep_view() == x.deep_view().take(i as int + 1) && s1 == seq_enc(
                x@.take(i as int + 1),
                fv,
            ) + d@ && prefix_of(seq_enc(x@.skip(i as int + 1), fv), d@) && x@.len() == l by {
                let ii = i as int;
                lemma_seq_enc_head(x@, ii, fv);
                lemma_seq_serializable_index(x@, fv);
                lemma_prefix_chain(
                    x@[ii].spec_enc(fv),
                    seq_enc(x@.skip(ii + 1), fv),
                    dcur,
                );
                lemma_concat_prefix(x@[ii].spec_enc(fv), d@, dcur);
                lemma_seq_enc_push(x@.take(ii), x@[ii], fv);
                assert(x@.take(ii + 1) =~= x@.take(ii).push(x@[ii]));
                assert(elem_g.deep_view() == x@[ii].deep_view());
                assert(ret@ == retg@.push(elem_g));
                assert(ret.deep_view() =~= x.deep_view().take(ii + 1));
                assert(s1 =~= seq_enc(x@.take(ii + 1), fv) + d@);
            }
        }
        i = i + 1;
    }
    proof {
        assert forall|x: Vec<T>|
            x.serializable(fv) && #[trigger] prefix_of(x.spec_enc(fv), stream) implies
            ret.deep_view() == x.deep_view() && stream == x.spec_enc(fv) + d@ by {
            assert(x@.take(l as int) =~= x@);
            assert(x.deep_view().take(l as int) =~= x.deep_view());
            assert(stream =~= x.spec_enc(fv) + d@);
        }
    }
    Ok(ret)
}

impl<T: Deserialize> Deserialize for Vec<T> {
    fn deserialize(d: &mut Deserializer) -> (r: Result<Self, SavefileError>) {
        regular_deserialize_vec::<T>(d)
    }
}

impl ReprC for u8 {
    open spec fn spec_repr_c_safe(version: u32) -> bool {
        true
    }

    fn repr_c_optimization_safe(version: u32) -> (r: bool) {
        true
    }
}

impl ReprC for i8 {
    open spec fn spec_repr_c_safe(version: u32) -> bool {
        true
    }

    fn repr_c_optimization_safe(version: u32) -> (r: bool) {
        true
    }
}

impl ReprC for u16 {
    open spec fn spec_repr_c_safe(version: u32) -> bool {
        true
    }

    fn repr_c_optimization_safe(version: u32) -> (r: bool) {
        true
    }
}

impl ReprC for i16 {
    open spec fn spec_repr_c_safe(version: u32) -> bool {
        true
    }

    fn repr_c_optimization_safe(version: u32) -> (r: bool) {
        true
    }
}

impl ReprC for u32 {
    open spec fn spec_repr_c_safe(version: u32) -> bool {
        true
    }

    fn repr_c_optimization_safe(version: u32) -> (r: bool) {
        true
    }
}

impl ReprC for i32 {
    open spec fn spec_repr_c_safe(version: u32) -> bool {
        true
    }

    fn repr_c_optimization_safe(version: u32) -> (r: bool) {
        true
    }
}

impl ReprC for u64 {
    open spec fn spec_repr_c_safe(version: u32) -> bool {
        true
    }

    fn repr_c_optimization_safe(version: u32) -> (r: bool) {
        true
    }
}

impl ReprC for i64 {
    open spec fn spec_repr_c_safe(version: u32) -> bool {
        true
    }

    fn repr_c_optimization_safe(version: u32) -> (r: bool) {
        true
    }
}

impl ReprC for usize {
    /// The wire pins a `usize` to eight little-endian bytes, so the bulk
    /// path is only allowed where the platform word is eight bytes wide.
    open spec fn spec_repr_c_safe(version: u32) -> bool {
        usize::MAX as int == u64::MAX as int
    }

    fn repr_c_optimization_safe(version: u32) -> (r: bool) {
        usize::MAX as u64 == u64::MAX
    }
}

impl ReprC for isize {
    /// The wire pins an `isize` to eight little-endian bytes, so the bulk
    /// path is only allowed where the platform word is eight bytes wide.
    open spec fn spec_repr_c_safe(version: u32) -> bool {
        isize::MAX as int == i64::MAX as int
    }

    fn repr_c_optimization_safe(version: u32) -> (r: bool) {
        isize::MAX as i64 == i64::MAX
    }
}

/// Writes a byte sequence as one raw buffer copy when the bulk path is
/// allowed at this version; the bytes written are identical to the general
/// path's, so the two encodings cannot be told apart on disk.
pub fn serialize_vec_u8_bulk(item: &Vec<u8>, serializer: &mut Serializer) -> (r: Result<
    (),
    SavefileError,
>)
    ensures
        final(serializer).version == old(serializer).version,
        r is Ok,
        final(serializer)@ == old(serializer)@ + item.spec_enc(old(serializer).version),
{
    proof {
        lemma_seq_enc_u8(item@, old(serializer).version);
    }
    if u8::repr_c_optimization_safe(serializer.version) {
        serializer.write_usize(item.len())?;
        serializer.write_buf(item.as_slice())?;
        proof {
            assert(final(serializer)@ =~= old(serializer)@ + item.spec_enc(
                old(serializer).version,
            ));
        }
        Ok(())
    } else {
        regular_serialize_vec(item, serializer)
    }
}

/// Reads a byte sequence as one raw buffer copy when the bulk path is
/// allowed at the file's version.
pub fn deserialize_vec_u8_bulk(d: &mut Deserializer) -> (r: Result<Vec<u8>, SavefileError>)
    ensures
        final(d).file_version == old(d).file_version,
        final(d).memory_version == old(d).memory_version,
        forall|x: Vec<u8>|
            x.serializable(old(d).file_version) && #[trigger] prefix_of(
                x.spec_enc(old(d).file_version),
                old(d)@,
            ) ==> (r matches Ok(v) && v.deep_view() == x.deep_view() && old(d)@ == x.spec_enc(
                old(d).file_version,
            ) + final(d)@),
{
    let ghost stream = old(d)@;
    let ghost fv = old(d).file_version;
    if !u8::repr_c_optimization_safe(d.file_version) {
        return regular_deserialize_vec::<u8>(d);
    }
    proof {
        assert(vstd::slice::spec_slice_len(old(d).input) == old(d).input@.len());
        assert forall|x: Vec<u8>| #[trigger]
            prefix_of(x.spec_enc(fv), stream) implies stream.len() >= 8 && u64_from_le(stream)
            == x@.len() as u64 && x@.len() as int <= usize::MAX as int && prefix_of(
            x@,
            stream.skip(8),
        ) by {
            lemma_seq_enc_u8(x@, fv);
            lemma_prefix_chain(u64_le(x@.len() as u64), x@, stream);
            lemma_prefix_split(u64_le(x@.len() as u64), stream);
            lemma_u64_from_le_concat(x@.len() as u64, stream.skip(8));
        }
    }
    let num_elems = match d.read_usize() {
        Ok(n) => n,
        Err(e) => {
            return Err(e);
        },
    };
    let ghost s1 = d@;
    match d.read_bytes(num_elems) {
        Ok(v) => {
            proof {
                assert forall|x: Vec<u8>|
                    x.serializable(fv) && #[trigger] prefix_of(x.spec_enc(fv), stream) implies
                    v.deep_view() == x.deep_view() && stream == x.spec_enc(fv) + d@ by {
                    lemma_seq_enc_u8(x@, fv);
                    assert(v@ =~= x@);
                    assert(v.deep_view() =~= x.deep_view());
                    assert(stream =~= x.spec_enc(fv) + d@);
                }
            }
            Ok(v)
        },
        Err(e) => {
            proof {
                assert forall|x: Vec<u8>|
                    !(x.serializable(fv) && #[trigger] prefix_of(x.spec_enc(fv), stream)) by {
                    if prefix_of(x.spec_enc(fv), stream) {
                        lemma_seq_enc_u8(x@, fv);
                    }
                }
            }
            Err(e)
        },
    }
}

/// A placeholder for a field that existed in older versions of a type but
/// is gone from memory. It still describes its schema and still consumes
/// its wire form on load, but a live value of it must never be written.
#[derive(Debug, PartialEq)]
pub struct Removed<T> {
    phantom: core::marker::PhantomData<T>,
}

impl<T> Removed<T> {
    pub fn new() -> (r: Removed<T>) {
        Removed { phantom: core::marker::PhantomData }
    }
}

impl<T> DeepView for Removed<T> {
    type V = ();

    open spec fn deep_view(&self) -> () {
        ()
    }
}

impl<T: WithSchema> WithSchema for Removed<T> {
    open spec fn spec_schema(version: u32) -> SchemaData {
        T::spec_schema(version)
    }

    open spec fn serializable(&self, version: u32) -> bool {
        false
    }

    open spec fn spec_enc(&self, version: u32) -> Seq<u8> {
        Seq::empty()
    }

    fn schema(version: u32) -> (r: Schema) {
        T::schema(version)
    }
}

impl<T: WithSchema> Serialize for Removed<T> {
    /// A removed field must never be written: the enclosing type's version
    /// handling has to exclude it from the write path. The refusal writes
    /// nothing of its own.
    fn serialize(&self, serializer: &mut Serializer) -> (r: Result<(), SavefileError>)
        ensures
            final(serializer)@ == old(serializer)@,
    {
        Err(SavefileError::RemovedFieldWritten)
    }
}

impl<T: WithSchema + Deserialize> Deserialize for Removed<T> {
    /// Reads and discards exactly one `T`: a newer program skips over data
    /// an older file still carries, consuming exactly its wire form.
    fn deserialize(d: &mut Deserializer) -> (r: Result<Self, SavefileError>)
        ensures
            forall|t: T|
                t.serializable(old(d).file_version) && #[trigger] prefix_of(
                    t.spec_enc(old(d).file_version),
                    old(d)@,
                ) ==> (r is Ok && old(d)@ == t.spec_enc(old(d).file_version) + final(d)@),
    {
        match T::deserialize(d) {
            Ok(_) => Ok(Removed::new()),
            Err(e) => Err(e),
        }
    }
}

} // verus!
