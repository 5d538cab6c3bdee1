//! The byte sink: a serializer owning an in-memory output buffer.

use crate::bytes::{enc_str, i16_le, i32_le, i64_le, u16_le, u32_le, u64_le};
use crate::error::SavefileError;
use vstd::prelude::*;

verus! {

/// Object to which serialized data is written: an in-memory byte sink
/// together with the file protocol version number being written.
///
/// Writing to an owned buffer cannot fail, so every write returns `Ok`;
/// the `Result` is kept so that container codecs, which can refuse to
/// serialize a removed-field placeholder, share one signature shape.
pub struct Serializer {
    pub output: Vec<u8>,
    pub version: u32,
}

impl View for Serializer {
    type V = Seq<u8>;

    open spec fn view(&self) -> Seq<u8> {
        self.output@
    }
}

impl Serializer {
    /// A serializer for the given version, with an empty output buffer.
    pub fn new(version: u32) -> (r: Serializer)
        ensures
            r@ == Seq::<u8>::empty(),
            r.version == version,
    {
        Serializer { output: Vec::new(), version }
    }

    /// A serializer for nested schema encoding; such a session fixes version 0.
    pub fn new_raw() -> (r: Serializer)
        ensures
            r@ == Seq::<u8>::empty(),
            r.version == 0,
    {
        Serializer { output: Vec::new(), version: 0 }
    }

    /// Hands the written bytes to the caller, ending the session.
    pub fn into_bytes(self) -> (r: Vec<u8>)
        ensures
            r@ == self@,
    {
        self.output
    }

    pub fn write_u8(&mut self, v: u8) -> (r: Result<(), SavefileError>)
        ensures
            r is Ok,
            final(self).version == old(self).version,
            final(self)@ == old(self)@ + seq![v],
    {
        self.output.push(v);
        proof {
            assert(self@ =~= old(self)@ + seq![v]);
        }
        Ok(())
    }

    pub fn write_i8(&mut self, v: i8) -> (r: Result<(), SavefileError>)
        ensures
            r is Ok,
            final(self).version == old(self).version,
            final(self)@ == old(self)@ + seq![v as u8],
    {
        self.write_u8(v as u8)
    }

    pub fn write_u16(&mut self, v: u16) -> (r: Result<(), SavefileError>)
        ensures
            r is Ok,
            final(self).version == old(self).version,
            final(self)@ == old(self)@ + u16_le(v),
    {
        self.output.push((v & 0xff) as u8);
        self.output.push(((v >> 8) & 0xff) as u8);
        proof {
            assert(self@ =~= old(self)@ + u16_le(v));
        }
        Ok(())
    }

    pub fn write_i16(&mut self, v: i16) -> (r: Result<(), SavefileError>)
        ensures
            r is Ok,
            final(self).version == old(self).version,
            final(self)@ == old(self)@ + i16_le(v),
    {
        self.write_u16(v as u16)
    }

    pub fn write_u32(&mut self, v: u32) -> (r: Result<(), SavefileError>)
        ensures
            r is Ok,
            final(self).version == old(self).version,
            final(self)@ == old(self)@ + u32_le(v),
    {
        self.output.push((v & 0xff) as u8);
        self.output.push(((v >> 8) & 0xff) as u8);
        self.output.push(((v >> 16) & 0xff) as u8);
        self.output.push(((v >> 24) & 0xff) as u8);
        proof {
            assert(self@ =~= old(self)@ + u32_le(v));
        }
        Ok(())
    }

    pub fn write_i32(&mut self, v: i32) -> (r: Result<(), SavefileError>)
        ensures
            r is Ok,
            final(self).version == old(self).version,
            final(self)@ == old(self)@ + i32_le(v),
    {
        self.write_u32(v as u32)
    }

    pub fn write_u64(&mut self, v: u64) -> (r: Result<(), SavefileError>)
        ensures
            r is Ok,
            final(self).version == old(self).version,
            final(self)@ == old(self)@ + u64_le(v),
    {
        self.output.push((v & 0xff) as u8);
        self.output.push(((v >> 8) & 0xff) as u8);
        self.output.push(((v >> 16) & 0xff) as u8);
        self.output.push(((v >> 24) & 0xff) as u8);
        self.output.push(((v >> 32) & 0xff) as u8);
        self.output.push(((v >> 40) & 0xff) as u8);
        self.output.push(((v >> 48) & 0xff) as u8);
        self.output.push(((v >> 56) & 0xff) as u8);
        proof {
            assert(self@ =~= old(self)@ + u64_le(v));
        }
        Ok(())
    }

    pub fn write_i64(&mut self, v: i64) -> (r: Result<(), SavefileError>)
        ensures
            r is Ok,
            final(self).version == old(self).version,
            final(self)@ == old(self)@ + i64_le(v),
    {
        self.write_u64(v as u64)
    }

    /// A `usize` crosses the wire as a 64-bit value: the format is
    /// platform-independent.
    pub fn write_usize(&mut self, v: usize) -> (r: Result<(), SavefileError>)
        ensures
            r is Ok,
            final(self).version == old(self).version,
            final(self)@ == old(self)@ + u64_le(v as u64),
    {
        self.write_u64(v as u64)
    }

    pub fn write_isize(&mut self, v: isize) -> (r: Result<(), SavefileError>)
        ensures
            r is Ok,
            final(self).version == old(self).version,
            final(self)@ == old(self)@ + i64_le(v as i64),
    {
        self.write_i64(v as i64)
    }

    /// Appends a raw buffer, without a length prefix.
    pub fn write_buf(&mut self, v: &[u8]) -> (r: Result<(), SavefileError>)
        ensures
            r is Ok,
            final(self).version == old(self).version,
            final(self)@ == old(self)@ + v@,
    {
        let n = v.len();
        let mut i: usize = 0;
        while i < n
            invariant
                i <= n,
                n == v@.len(),
                self.version == old(self).version,
                self@ == old(self)@ + v@.take(i as int),
            decreases n - i,
        {
            self.output.push(v[i]);
            proof {
                assert(self@ =~= old(self)@ + v@.take(i + 1));
            }
            i = i + 1;
        }
        proof {
            assert(v@.take(n as int) =~= v@);
        }
        Ok(())
    }

    /// A string crosses the wire as its UTF-8 byte length (`u64`), then the bytes.
    pub fn write_string(&mut self, v: &str) -> (r: Result<(), SavefileError>)
        ensures
            r is Ok,
            final(self).version == old(self).version,
            final(self)@ == old(self)@ + enc_str(v@),
    {
        let asb = v.as_bytes();
        let res = self.write_usize(asb.len());
        match res {
            Ok(_) => {}
            Err(e) => {
                return Err(e);
            }
        }
        let res2 = self.write_buf(asb);
        match res2 {
            Ok(_) => {}
            Err(e) => {
                return Err(e);
            }
        }
        proof {
            assert(self@ =~= old(self)@ + enc_str(v@));
        }
        Ok(())
    }
}

} // verus!
