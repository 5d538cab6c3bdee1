//! The session driver: a top-level save writes the version number, an
//! optional self-describing schema header, and the payload; a top-level
//! load checks the version, compares the stored schema against the one the
//! in-memory types declare for the file's version, and reads the payload.

use crate::bytes::{
    lemma_concat_prefix, lemma_prefix_chain, lemma_u32_from_le_concat, lemma_u32_prefix_value,
    prefix_of, u32_from_le, u32_le,
};
use crate::de::Deserializer;
use crate::diff::{diff_schema, lemma_schema_compat_reflexive, schema_defined};
use crate::error::SavefileError;
use crate::schema::enc_schema;
use crate::schema_codec::{deserialize_schema, serialize_schema};
use crate::ser::Serializer;
use crate::traits::{Deserialize, Serialize, WithSchema};
use vstd::prelude::*;
use vstd::string::StringExecFns;

verus! {

broadcast use vstd::slice::group_slice_axioms;

/// The full stream a save with a schema header produces: the version, the
/// schema of `T` at that version, then the value's wire form.
pub open spec fn enc_stream_with_schema<T: WithSchema>(x: T, version: u32) -> Seq<u8> {
    u32_le(version) + enc_schema(T::spec_schema(version)) + x.spec_enc(version)
}

/// The stream a schema-less save produces: the version, then the wire form.
pub open spec fn enc_stream_noschema<T: WithSchema>(x: T, version: u32) -> Seq<u8> {
    u32_le(version) + x.spec_enc(version)
}

impl Serializer {
    /// Saves `data` at `version`, preceded by a schema header.
    pub fn save<T: WithSchema + Serialize>(writer: &mut Vec<u8>, version: u32, data: &T) -> (r:
        Result<(), SavefileError>)
        ensures
            r is Ok <==> data.serializable(version),
            r is Ok ==> final(writer)@ == old(writer)@ + enc_stream_with_schema(*data, version),
            r matches Err(e) ==> e is RemovedFieldWritten,
    {
        Self::save_impl(writer, version, data, true)
    }

    /// Saves `data` at `version` without a schema header.
    pub fn save_noschema<T: WithSchema + Serialize>(
        writer: &mut Vec<u8>,
        version: u32,
        data: &T,
    ) -> (r: Result<(), SavefileError>)
        ensures
            r is Ok <==> data.serializable(version),
            r is Ok ==> final(writer)@ == old(writer)@ + enc_stream_noschema(*data, version),
            r matches Err(e) ==> e is RemovedFieldWritten,
    {
        Self::save_impl(writer, version, data, false)
    }

    fn save_impl<T: WithSchema + Serialize>(
        writer: &mut Vec<u8>,
        version: u32,
        data: &T,
        with_schema: bool,
    ) -> (r: Result<(), SavefileError>)
        ensures
            r is Ok <==> data.serializable(version),
            r is Ok && with_schema ==> final(writer)@ == old(writer)@ + enc_stream_with_schema(
                *data,
                version,
            ),
            r is Ok && !with_schema ==> final(writer)@ == old(writer)@ + enc_stream_noschema(
                *data,
                version,
            ),
            r matches Err(e) ==> e is RemovedFieldWritten,
    {
        let mut serializer = Serializer::new(version);
        serializer.write_u32(version)?;
        if with_schema {
            let schema = T::schema(version);
            let mut schema_serializer = Serializer::new_raw();
            serialize_schema(&schema, &mut schema_serializer)?;
            serializer.write_buf(schema_serializer.output.as_slice())?;
        }
        data.serialize(&mut serializer)?;
        proof {
            if with_schema {
                assert(serializer@ =~= enc_stream_with_schema(*data, version));
            } else {
                assert(serializer@ =~= enc_stream_noschema(*data, version));
            }
        }
        writer.append(&mut serializer.output);
        Ok(())
    }
}

impl<'a> Deserializer<'a> {
    /// Loads a `T` from a stream that carries a schema header, after
    /// checking the stored schema against the one `T` declares for the
    /// file's version.
    pub fn load<T: WithSchema + Deserialize>(reader: &[u8], version: u32) -> (r: Result<
        T,
        SavefileError,
    >)
        ensures
            reader@.len() >= 4 && u32_from_le(reader@) as int > version as int ==> (r matches Err(
                e,
            ) && e matches SavefileError::NewerFileVersion { file_version, memory_version }
                && file_version == u32_from_le(reader@) && memory_version == version),
            forall|x: T, v: u32|
                x.serializable(v) && v <= version && schema_defined(T::spec_schema(v))
                    && #[trigger] prefix_of(enc_stream_with_schema(x, v), reader@) ==> (r matches
                Ok(y) && y.deep_view() == x.deep_view()),
            forall|sd: crate::schema::SchemaData, v: u32|
                v <= version && !crate::diff::schema_compat(sd, T::spec_schema(v)) && #[trigger]
                prefix_of(u32_le(v) + enc_schema(sd), reader@) ==> (r matches Err(e)
                    && e is IncompatibleSchema),
    {
        Self::load_impl::<T>(reader, version, true)
    }

    /// Loads a `T` from a stream without a schema header.
    pub fn load_noschema<T: WithSchema + Deserialize>(reader: &[u8], version: u32) -> (r: Result<
        T,
        SavefileError,
    >)
        ensures
            reader@.len() >= 4 && u32_from_le(reader@) as int > version as int ==> (r matches Err(
                e,
            ) && e matches SavefileError::NewerFileVersion { file_version, memory_version }
                && file_version == u32_from_le(reader@) && memory_version == version),
            forall|x: T, v: u32|
                x.serializable(v) && v <= version && #[trigger] prefix_of(
                    enc_stream_noschema(x, v),
                    reader@,
                ) ==> (r matches Ok(y) && y.deep_view() == x.deep_view()),
    {
        Self::load_impl::<T>(reader, version, false)
    }

    fn load_impl<T: WithSchema + Deserialize>(reader: &[u8], version: u32, fetch_schema: bool) -> (r:
        Result<T, SavefileError>)
        ensures
            reader@.len() >= 4 && u32_from_le(reader@) as int > version as int ==> (r matches Err(
                e,
            ) && e matches SavefileError::NewerFileVersion { file_version, memory_version }
                && file_version == u32_from_le(reader@) && memory_version == version),
            fetch_schema ==> (forall|x: T, v: u32|
                x.serializable(v) && v <= version && schema_defined(T::spec_schema(v))
                    && #[trigger] prefix_of(enc_stream_with_schema(x, v), reader@) ==> (r matches
                Ok(y) && y.deep_view() == x.deep_view())),
            !fetch_schema ==> (forall|x: T, v: u32|
                x.serializable(v) && v <= version && #[trigger] prefix_of(
                    enc_stream_noschema(x, v),
                    reader@,
                ) ==> (r matches Ok(y) && y.deep_view() == x.deep_view())),
            fetch_schema ==> (forall|sd: crate::schema::SchemaData, v: u32|
                v <= version && !crate::diff::schema_compat(sd, T::spec_schema(v)) && #[trigger]
                prefix_of(u32_le(v) + enc_schema(sd), reader@) ==> (r matches Err(e)
                    && e is IncompatibleSchema)),
    {
        let ghost stream = reader@;
        proof {
            assert(vstd::slice::spec_slice_len(reader) == reader@.len());
            assert forall|x: T, v: u32| #[trigger]
                prefix_of(enc_stream_with_schema(x, v), stream) implies prefix_of(
                u32_le(v),
                stream,
            ) && prefix_of(
                enc_schema(T::spec_schema(v)) + x.spec_enc(v),
                stream.skip(4),
            ) by {
                assert(enc_stream_with_schema(x, v) =~= u32_le(v) + (enc_schema(
                    T::spec_schema(v),
                ) + x.spec_enc(v)));
                lemma_prefix_chain(
                    u32_le(v),
                    enc_schema(T::spec_schema(v)) + x.spec_enc(v),
                    stream,
                );
            }
            assert forall|sd: crate::schema::SchemaData, v: u32| #[trigger]
                prefix_of(u32_le(v) + enc_schema(sd), stream) implies prefix_of(u32_le(v), stream)
                && prefix_of(enc_schema(sd), stream.skip(4)) by {
                lemma_prefix_chain(u32_le(v), enc_schema(sd), stream);
            }
            assert forall|x: T, v: u32| #[trigger]
                prefix_of(enc_stream_noschema(x, v), stream) implies prefix_of(u32_le(v), stream)
                && prefix_of(x.spec_enc(v), stream.skip(4)) by {
                lemma_prefix_chain(u32_le(v), x.spec_enc(v), stream);
            }
        }
        let mut version_reader = Deserializer::new_raw(reader);
        let file_ver = match version_reader.read_u32() {
            Ok(v) => v,
            Err(e) => {
                return Err(e);
            },
        };
        let ghost s1 = version_reader@;
        proof {
            lemma_u32_from_le_concat(file_ver, s1);
            lemma_concat_prefix(u32_le(file_ver), s1, stream);
        }
        if file_ver > version {
            proof {
                assert forall|x: T, v: u32|
                    !(x.serializable(v) && v <= version && schema_defined(T::spec_schema(v))
                        && #[trigger] prefix_of(enc_stream_with_schema(x, v), stream)) by {
                    if prefix_of(enc_stream_with_schema(x, v), stream) {
                        lemma_u32_prefix_value(file_ver, s1, v);
                    }
                }
                assert forall|x: T, v: u32|
                    !(x.serializable(v) && v <= version && #[trigger] prefix_of(
                        enc_stream_noschema(x, v),
                        stream,
                    )) by {
                    if prefix_of(enc_stream_noschema(x, v), stream) {
                        lemma_u32_prefix_value(file_ver, s1, v);
                    }
                }
                assert forall|sd: crate::schema::SchemaData, v: u32|
                    !(v <= version && !crate::diff::schema_compat(sd, T::spec_schema(v))
                        && #[trigger] prefix_of(u32_le(v) + enc_schema(sd), stream)) by {
                    if prefix_of(u32_le(v) + enc_schema(sd), stream) {
                        lemma_u32_prefix_value(file_ver, s1, v);
                    }
                }
            }
            return Err(
                SavefileError::NewerFileVersion {
                    file_version: file_ver,
                    memory_version: version,
                },
            );
        }
        if fetch_schema {
            let memory_schema = T::schema(file_ver);
            let file_schema = match deserialize_schema(&mut version_reader) {
                Ok(s) => s,
                Err(e) => {
                    proof {
                        assert forall|x: T, v: u32|
                            !(x.serializable(v) && v <= version && schema_defined(
                                T::spec_schema(v),
                            ) && #[trigger] prefix_of(enc_stream_with_schema(x, v), stream)) by {
                            if x.serializable(v) && v <= version && prefix_of(
                                enc_stream_with_schema(x, v),
                                stream,
                            ) {
                                lemma_u32_prefix_value(file_ver, s1, v);
                                lemma_prefix_chain(
                                    enc_schema(T::spec_schema(v)),
                                    x.spec_enc(v),
                                    s1,
                                );
                            }
                        }
                        assert forall|sd: crate::schema::SchemaData, v: u32|
                            !(v <= version && !crate::diff::schema_compat(sd, T::spec_schema(v))
                                && #[trigger] prefix_of(u32_le(v) + enc_schema(sd), stream)) by {
                            if prefix_of(u32_le(v) + enc_schema(sd), stream) {
                                lemma_u32_prefix_value(file_ver, s1, v);
                            }
                        }
                    }
                    return Err(e);
                },
            };
            let ghost s2 = version_reader@;
            let diff = diff_schema(&file_schema, &memory_schema, ".".to_owned());
            proof {
                assert forall|x: T, v: u32|
                    x.serializable(v) && v <= version && schema_defined(T::spec_schema(v))
                        && #[trigger] prefix_of(enc_stream_with_schema(x, v), stream) implies
                    file_schema@ == T::spec_schema(v) && memory_schema@ == T::spec_schema(v)
                    && diff is None && prefix_of(x.spec_enc(v), s2) by {
                    lemma_u32_prefix_value(file_ver, s1, v);
                    lemma_prefix_chain(enc_schema(T::spec_schema(v)), x.spec_enc(v), s1);
                    lemma_concat_prefix(enc_schema(T::spec_schema(v)), s2, s1);
                    lemma_schema_compat_reflexive(T::spec_schema(v));
                }
            }
            match diff {
                Some(err) => {
                    let mut message =
                        "Saved schema differs from in-memory schema for the file's version. Error: ".to_owned();
                    message.append(err.as_str());
                    return Err(SavefileError::IncompatibleSchema { message });
                },
                None => {},
            }
            proof {
                assert forall|sd: crate::schema::SchemaData, v: u32|
                    !(v <= version && !crate::diff::schema_compat(sd, T::spec_schema(v))
                        && #[trigger] prefix_of(u32_le(v) + enc_schema(sd), stream)) by {
                    if v <= version && prefix_of(u32_le(v) + enc_schema(sd), stream) {
                        lemma_u32_prefix_value(file_ver, s1, v);
                        assert(file_schema@ == sd);
                        assert(memory_schema@ == T::spec_schema(v));
                        assert(crate::diff::schema_compat(sd, T::spec_schema(v)));
                    }
                }
            }
            let mut deserializer = Deserializer {
                input: version_reader.input,
                file_version: file_ver,
                memory_version: version,
            };
            let out = T::deserialize(&mut deserializer);
            proof {
                assert forall|x: T, v: u32|
                    x.serializable(v) && v <= version && schema_defined(T::spec_schema(v))
                        && #[trigger] prefix_of(enc_stream_with_schema(x, v), stream) implies (out
                    matches Ok(y) && y.deep_view() == x.deep_view()) by {
                    lemma_u32_prefix_value(file_ver, s1, v);
                }
            }
            out
        } else {
            let mut deserializer = Deserializer {
                input: version_reader.input,
                file_version: file_ver,
                memory_version: version,
            };
            let out = T::deserialize(&mut deserializer);
            proof {
                assert forall|x: T, v: u32|
                    x.serializable(v) && v <= version && #[trigger] prefix_of(
                        enc_stream_noschema(x, v),
                        stream,
                    ) implies (out matches Ok(y) && y.deep_view() == x.deep_view()) by {
                    lemma_u32_prefix_value(file_ver, s1, v);
                }
            }
            out
        }
    }
}

/// Loads a `T` from the given bytes, checking the stored schema header.
pub fn load<T: WithSchema + Deserialize>(reader: &[u8], version: u32) -> (r: Result<
    T,
    SavefileError,
>)
    ensures
        reader@.len() >= 4 && u32_from_le(reader@) as int > version as int ==> (r matches Err(e)
            && e matches SavefileError::NewerFileVersion { file_version, memory_version }
            && file_version == u32_from_le(reader@) && memory_version == version),
        forall|x: T, v: u32|
            x.serializable(v) && v <= version && schema_defined(T::spec_schema(v)) && #[trigger]
            prefix_of(enc_stream_with_schema(x, v), reader@) ==> (r matches Ok(y) && y.deep_view()
                == x.deep_view()),
{
    Deserializer::load::<T>(reader, version)
}

/// Saves `data` at `version` with a schema header.
pub fn save<T: WithSchema + Serialize>(writer: &mut Vec<u8>, version: u32, data: &T) -> (r: Result<
    (),
    SavefileError,
>)
    ensures
        r is Ok <==> data.serializable(version),
        r is Ok ==> final(writer)@ == old(writer)@ + enc_stream_with_schema(*data, version),
        r matches Err(e) ==> e is RemovedFieldWritten,
{
    Serializer::save::<T>(writer, version, data)
}

/// Loads a `T` from the given bytes without a schema header.
pub fn load_noschema<T: WithSchema + Deserialize>(reader: &[u8], version: u32) -> (r: Result<
    T,
    SavefileError,
>)
    ensures
        reader@.len() >= 4 && u32_from_le(reader@) as int > version as int ==> (r matches Err(e)
            && e matches SavefileError::NewerFileVersion { file_version, memory_version }
            && file_version == u32_from_le(reader@) && memory_version == version),
        forall|x: T, v: u32|
            x.serializable(v) && v <= version && #[trigger] prefix_of(
                enc_stream_noschema(x, v),
                reader@,
            ) ==> (r matches Ok(y) && y.deep_view() == x.deep_view()),
{
    Deserializer::load_noschema::<T>(reader, version)
}

/// Saves `data` at `version` without a schema header.
pub fn save_noschema<T: WithSchema + Serialize>(
    writer: &mut Vec<u8>,
    version: u32,
    data: &T,
) -> (r: Result<(), SavefileError>)
    ensures
        r is Ok <==> data.serializable(version),
        r is Ok ==> final(writer)@ == old(writer)@ + enc_stream_noschema(*data, version),
        r matches Err(e) ==> e is RemovedFieldWritten,
{
    Serializer::save_noschema::<T>(writer, version, data)
}

} // verus!

