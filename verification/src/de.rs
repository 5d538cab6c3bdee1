//! The byte source: a deserializer over a borrowed input slice.

use crate::bytes::{
    enc_str, i16_le, i32_le, i64_le, lemma_enc_str_prefix, lemma_u16_le_of_bytes,
    lemma_u32_le_of_bytes, lemma_u64_from_le_concat, lemma_u64_le_of_bytes, prefix_of, u16_le,
    u32_le, u64_from_le, u64_le,
};
use crate::error::SavefileError;
use vstd::prelude::*;
use vstd::slice::{slice_index_get, slice_subrange, slice_to_vec};
use vstd::utf8::{decode_utf8, encode_utf8, valid_utf8};

verus! {

broadcast use {vstd::slice::group_slice_axioms, vstd::utf8::group_utf8_lib};

/// Object from which bytes to be deserialized are read: a borrowed byte
/// source, the version number of the file being read, and the version
/// number of the data structures in memory.
///
/// Its view is the bytes not yet consumed.
pub struct Deserializer<'a> {
    pub input: &'a [u8],
    pub file_version: u32,
    pub memory_version: u32,
}

impl<'a> View for Deserializer<'a> {
    type V = Seq<u8>;

    open spec fn view(&self) -> Seq<u8> {
        self.input@
    }
}

/// The error every exhausted source reports.
fn eof_error() -> (r: SavefileError)
    ensures
        r is IOError,
{
    SavefileError::IOError { msg: "unexpected end of stream".to_owned() }
}

/// Relies on String::from_utf8: returns the string whose UTF-8 encoding is
/// the given bytes, or nothing when the bytes are not valid UTF-8.
#[verifier::external_body]
fn string_from_utf8(v: Vec<u8>) -> (r: Option<String>)
    ensures
        valid_utf8(v@) ==> r is Some,
        r matches Some(s) ==> encode_utf8(s@) == v@,
{
    match String::from_utf8(v) {
        Ok(s) => Some(s),
        Err(_) => None,
    }
}

impl<'a> Deserializer<'a> {
    /// A deserializer for nested schema decoding; such a session fixes both
    /// version numbers to 0.
    pub fn new_raw(input: &'a [u8]) -> (r: Deserializer<'a>)
        ensures
            r@ == input@,
            r.file_version == 0,
            r.memory_version == 0,
    {
        Deserializer { input, file_version: 0, memory_version: 0 }
    }

    pub fn read_u8(&mut self) -> (r: Result<u8, SavefileError>)
        ensures
            final(self).file_version == old(self).file_version,
            final(self).memory_version == old(self).memory_version,
            old(self)@.len() >= 1 ==> (r matches Ok(v) && old(self)@ == seq![v] + final(self)@),
            old(self)@.len() < 1 ==> (r matches Err(e) && e is IOError && final(self)@ == old(self)@),
    {
        if self.input.len() < 1 {
            return Err(eof_error());
        }
        let v = *slice_index_get(self.input, 0);
        self.input = slice_subrange(self.input, 1, self.input.len());
        proof {
            assert(old(self)@ =~= seq![v] + self@);
        }
        Ok(v)
    }

    pub fn read_u16(&mut self) -> (r: Result<u16, SavefileError>)
        ensures
            final(self).file_version == old(self).file_version,
            final(self).memory_version == old(self).memory_version,
            old(self)@.len() >= 2 ==> (r matches Ok(v) && old(self)@ == u16_le(v) + final(self)@),
            old(self)@.len() < 2 ==> (r matches Err(e) && e is IOError && final(self)@ == old(self)@),
    {
        if self.input.len() < 2 {
            return Err(eof_error());
        }
        let b0 = *slice_index_get(self.input, 0);
        let b1 = *slice_index_get(self.input, 1);
        let v: u16 = (b0 as u16) | ((b1 as u16) << 8);
        self.input = slice_subrange(self.input, 2, self.input.len());
        proof {
            lemma_u16_le_of_bytes(b0, b1);
            assert(old(self)@ =~= u16_le(v) + self@);
        }
        Ok(v)
    }

    pub fn read_u32(&mut self) -> (r: Result<u32, SavefileError>)
        ensures
            final(self).file_version == old(self).file_version,
            final(self).memory_version == old(self).memory_version,
            old(self)@.len() >= 4 ==> (r matches Ok(v) && old(self)@ == u32_le(v) + final(self)@),
            old(self)@.len() < 4 ==> (r matches Err(e) && e is IOError && final(self)@ == old(self)@),
    {
        if self.input.len() < 4 {
            return Err(eof_error());
        }
        let b0 = *slice_index_get(self.input, 0);
        let b1 = *slice_index_get(self.input, 1);
        let b2 = *slice_index_get(self.input, 2);
        let b3 = *slice_index_get(self.input, 3);
        let v: u32 = (b0 as u32) | ((b1 as u32) << 8) | ((b2 as u32) << 16) | ((b3 as u32) << 24);
        self.input = slice_subrange(self.input, 4, self.input.len());
        proof {
            lemma_u32_le_of_bytes(b0, b1, b2, b3);
            assert(old(self)@ =~= u32_le(v) + self@);
        }
        Ok(v)
    }

    pub fn read_u64(&mut self) -> (r: Result<u64, SavefileError>)
        ensures
            final(self).file_version == old(self).file_version,
            final(self).memory_version == old(self).memory_version,
            old(self)@.len() >= 8 ==> (r matches Ok(v) && old(self)@ == u64_le(v) + final(self)@),
            old(self)@.len() < 8 ==> (r matches Err(e) && e is IOError && final(self)@ == old(self)@),
    {
        if self.input.len() < 8 {
            return Err(eof_error());
        }
        let b0 = *slice_index_get(self.input, 0);
        let b1 = *slice_index_get(self.input, 1);
        let b2 = *slice_index_get(self.input, 2);
        let b3 = *slice_index_get(self.input, 3);
        let b4 = *slice_index_get(self.input, 4);
        let b5 = *slice_index_get(self.input, 5);
        let b6 = *slice_index_get(self.input, 6);
        let b7 = *slice_index_get(self.input, 7);
        let v: u64 = (b0 as u64) | ((b1 as u64) << 8) | ((b2 as u64) << 16) | ((b3 as u64) << 24)
            | ((b4 as u64) << 32) | ((b5 as u64) << 40) | ((b6 as u64) << 48) | ((b7 as u64)
            << 56);
        self.input = slice_subrange(self.input, 8, self.input.len());
        proof {
            lemma_u64_le_of_bytes(b0, b1, b2, b3, b4, b5, b6, b7);
            assert(old(self)@ =~= u64_le(v) + self@);
        }
        Ok(v)
    }

    pub fn read_i8(&mut self) -> (r: Result<i8, SavefileError>)
        ensures
            final(self).file_version == old(self).file_version,
            final(self).memory_version == old(self).memory_version,
            old(self)@.len() >= 1 ==> (r matches Ok(v) && old(self)@ == seq![v as u8] + final(self)@),
            old(self)@.len() < 1 ==> (r matches Err(e) && e is IOError && final(self)@ == old(self)@),
    {
        match self.read_u8() {
            Ok(w) => {
                proof {
                    assert(w as i8 as u8 == w) by (bit_vector);
                }
                Ok(w as i8)
            },
            Err(e) => Err(e),
        }
    }

    pub fn read_i16(&mut self) -> (r: Result<i16, SavefileError>)
        ensures
            final(self).file_version == old(self).file_version,
            final(self).memory_version == old(self).memory_version,
            old(self)@.len() >= 2 ==> (r matches Ok(v) && old(self)@ == i16_le(v) + final(self)@),
            old(self)@.len() < 2 ==> (r matches Err(e) && e is IOError && final(self)@ == old(self)@),
    {
        match self.read_u16() {
            Ok(w) => {
                proof {
                    assert(w as i16 as u16 == w) by (bit_vector);
                }
                Ok(w as i16)
            },
            Err(e) => Err(e),
        }
    }

    pub fn read_i32(&mut self) -> (r: Result<i32, SavefileError>)
        ensures
            final(self).file_version == old(self).file_version,
            final(self).memory_version == old(self).memory_version,
            old(self)@.len() >= 4 ==> (r matches Ok(v) && old(self)@ == i32_le(v) + final(self)@),
            old(self)@.len() < 4 ==> (r matches Err(e) && e is IOError && final(self)@ == old(self)@),
    {
        match self.read_u32() {
            Ok(w) => {
                proof {
                    assert(w as i32 as u32 == w) by (bit_vector);
                }
                Ok(w as i32)
            },
            Err(e) => Err(e),
        }
    }

    pub fn read_i64(&mut self) -> (r: Result<i64, SavefileError>)
        ensures
            final(self).file_version == old(self).file_version,
            final(self).memory_version == old(self).memory_version,
            old(self)@.len() >= 8 ==> (r matches Ok(v) && old(self)@ == i64_le(v) + final(self)@),
            old(self)@.len() < 8 ==> (r matches Err(e) && e is IOError && final(self)@ == old(self)@),
    {
        match self.read_u64() {
            Ok(w) => {
                proof {
                    assert(w as i64 as u64 == w) by (bit_vector);
                }
                Ok(w as i64)
            },
            Err(e) => Err(e),
        }
    }

    /// Reads the 64-bit wire form of a `usize`. A stored value too large for
    /// this platform's word cannot be represented and is reported as a
    /// corrupt stream.
    pub fn read_usize(&mut self) -> (r: Result<usize, SavefileError>)
        ensures
            final(self).file_version == old(self).file_version,
            final(self).memory_version == old(self).memory_version,
            r matches Ok(v) ==> (old(self)@.len() >= 8 && v as u64 == u64_from_le(old(self)@)
                && old(self)@ == u64_le(v as u64) + final(self)@),
            old(self)@.len() >= 8 && u64_from_le(old(self)@) as int <= usize::MAX as int ==> r
                is Ok,
            r matches Err(e) ==> (e is IOError || e is CorruptStream),
            final(self)@.len() <= old(self)@.len(),
            old(self)@.len() < 8 ==> (r matches Err(e) && e is IOError && final(self)@ == old(self)@),
    {
        let w = match self.read_u64() {
            Ok(w) => w,
            Err(e) => {
                return Err(e);
            },
        };
        proof {
            lemma_u64_from_le_concat(w, self@);
        }
        if w > (usize::MAX as u64) {
            return Err(
                SavefileError::CorruptStream {
                    msg: "stored length does not fit this platform's word size".to_owned(),
                },
            );
        }
        Ok(w as usize)
    }

    pub fn read_isize(&mut self) -> (r: Result<isize, SavefileError>)
        ensures
            final(self).file_version == old(self).file_version,
            final(self).memory_version == old(self).memory_version,
            r matches Ok(v) ==> (old(self)@.len() >= 8 && v as i64 == u64_from_le(old(self)@)
                as i64 && old(self)@ == i64_le(v as i64) + final(self)@),
            old(self)@.len() >= 8 && isize::MIN as int <= u64_from_le(old(self)@) as i64 as int
                <= isize::MAX as int ==> r is Ok,
            r matches Err(e) ==> (e is IOError || e is CorruptStream),
            final(self)@.len() <= old(self)@.len(),
            old(self)@.len() < 8 ==> (r matches Err(e) && e is IOError && final(self)@ == old(self)@),
    {
        let w = match self.read_i64() {
            Ok(w) => w,
            Err(e) => {
                return Err(e);
            },
        };
        proof {
            assert(w as u64 as i64 == w) by (bit_vector);
            lemma_u64_from_le_concat(w as u64, self@);
        }
        if w < (isize::MIN as i64) || w > (isize::MAX as i64) {
            return Err(
                SavefileError::CorruptStream {
                    msg: "stored value does not fit this platform's word size".to_owned(),
                },
            );
        }
        Ok(w as isize)
    }

    /// Reads exactly `n` raw bytes.
    pub fn read_bytes(&mut self, n: usize) -> (r: Result<Vec<u8>, SavefileError>)
        ensures
            final(self).file_version == old(self).file_version,
            final(self).memory_version == old(self).memory_version,
            old(self)@.len() >= n ==> (r matches Ok(v) && v@ == old(self)@.take(n as int) && final(self)@ == old(self)@.skip(n as int)),
            old(self)@.len() < n ==> (r matches Err(e) && e is IOError && final(self)@ == old(self)@),
    {
        if self.input.len() < n {
            return Err(eof_error());
        }
        let head = slice_subrange(self.input, 0, n);
        let v = slice_to_vec(head);
        self.input = slice_subrange(self.input, n, self.input.len());
        Ok(v)
    }

    /// Reads a length-prefixed UTF-8 string.
    ///
    /// Whenever the unread bytes start with the wire form of some string,
    /// that string is returned and exactly its wire form is consumed.
    pub fn read_string(&mut self) -> (r: Result<String, SavefileError>)
        ensures
            final(self).file_version == old(self).file_version,
            final(self).memory_version == old(self).memory_version,
            forall|s: Seq<char>| #[trigger]
                prefix_of(enc_str(s), old(self)@) ==> (r matches Ok(v) && v@ == s && old(self)@
                    == enc_str(s) + final(self)@),
            r is Ok ==> final(self)@.len() + 8 <= old(self)@.len(),
            final(self)@.len() <= old(self)@.len(),
            r matches Err(e) ==> (e is IOError || e is InvalidUtf8 || e is CorruptStream),
            old(self)@.len() >= 8 && u64_from_le(old(self)@) as int <= usize::MAX as int
                && old(self)@.len() >= 8 + u64_from_le(old(self)@) && !valid_utf8(
                old(self)@.skip(8).take(u64_from_le(old(self)@) as int),
            ) ==> (r matches Err(e) && e is InvalidUtf8),
            r matches Err(e) && e is InvalidUtf8 ==> (old(self)@.len() >= 8 && !valid_utf8(
                old(self)@.skip(8).take(u64_from_le(old(self)@) as int),
            )),
    {
        let ghost stream = old(self)@;
        proof {
            assert(vstd::slice::spec_slice_len(old(self).input) == old(self).input@.len());
            assert(stream.len() <= usize::MAX);
        }
        let l = match self.read_usize() {
            Ok(l) => l,
            Err(e) => {
                proof {
                    assert forall|s: Seq<char>| !#[trigger]
                        prefix_of(enc_str(s), stream) by {
                        if prefix_of(enc_str(s), stream) {
                            lemma_enc_str_prefix(s, stream);
                        }
                    }
                }
                return Err(e);
            },
        };
        proof {
            assert(self@ =~= stream.skip(8));
        }
        let bytes = match self.read_bytes(l) {
            Ok(b) => b,
            Err(e) => {
                proof {
                    assert forall|s: Seq<char>| !#[trigger]
                        prefix_of(enc_str(s), stream) by {
                        if prefix_of(enc_str(s), stream) {
                            lemma_enc_str_prefix(s, stream);
                        }
                    }
                }
                return Err(e);
            },
        };
        match string_from_utf8(bytes) {
            Some(st) => {
                proof {
                    assert forall|s: Seq<char>| #[trigger]
                        prefix_of(enc_str(s), stream) implies st@ == s && stream == enc_str(s)
                        + self@ by {
                        lemma_enc_str_prefix(s, stream);
                        assert(bytes@ =~= encode_utf8(s));
                        assert(decode_utf8(encode_utf8(st@)) == st@);
                        assert(decode_utf8(encode_utf8(s)) == s);
                        assert(stream =~= enc_str(s) + self@);
                    }
                }
                Ok(st)
            },
            None => {
                proof {
                    assert forall|s: Seq<char>| !#[trigger]
                        prefix_of(enc_str(s), stream) by {
                        if prefix_of(enc_str(s), stream) {
                            lemma_enc_str_prefix(s, stream);
                            assert(bytes@ =~= encode_utf8(s));
                        }
                    }
                }
                Err(
                    SavefileError::InvalidUtf8 {
                        msg: "stored string is not valid UTF-8".to_owned(),
                    },
                )
            },
        }
    }
}

} // verus!
