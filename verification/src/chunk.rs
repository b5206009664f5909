//! The 8-byte chunk header: a 4-byte big-endian length and a 4-byte
//! type tag.

use vstd::prelude::*;
use crate::codec::{be32, be_of, bytes_to_int, int_to_bytes};

verus! {

/// A chunk header as it stands on the wire: exactly 8 raw bytes,
/// 4 of length followed by 4 of type tag.
pub struct ChunkInfo {
    pub(crate) buf: Vec<u8>,
}

impl View for ChunkInfo {
    type V = Seq<u8>;

    closed spec fn view(&self) -> Seq<u8> {
        self.buf@
    }
}

impl ChunkInfo {
    /// A header holds exactly 8 bytes.
    pub open spec fn wf(self) -> bool {
        self@.len() == 8
    }

    /// The declared payload length.
    pub open spec fn spec_size(self) -> int {
        be32(self@.subrange(0, 4))
    }

    /// The 4 type tag bytes.
    pub open spec fn spec_tag(self) -> Seq<u8> {
        self@.subrange(4, 8)
    }

    /// An all-zero header: zero length, zero tag.
    pub fn new() -> (r: ChunkInfo)
        ensures
            r.wf(),
            r@ == seq![0u8, 0u8, 0u8, 0u8, 0u8, 0u8, 0u8, 0u8],
    {
        let mut buf: Vec<u8> = Vec::new();
        let mut i: usize = 0;
        while i < 8
            invariant
                i <= 8,
                buf@.len() == i,
                forall|k: int| 0 <= k < i ==> buf@[k] == 0u8,
            decreases 8 - i,
        {
            buf.push(0u8);
            i += 1;
        }
        proof {
            assert(buf@ =~= seq![0u8, 0u8, 0u8, 0u8, 0u8, 0u8, 0u8, 0u8]);
        }
        ChunkInfo { buf }
    }

    /// A header built from 8 raw wire bytes.
    pub fn from_bytes(buf: Vec<u8>) -> (r: ChunkInfo)
        requires
            buf@.len() == 8,
        ensures
            r.wf(),
            r@ == buf@,
    {
        ChunkInfo { buf }
    }

    /// An identical copy of this header.
    pub fn duplicate(&self) -> (r: ChunkInfo)
        requires
            self.wf(),
        ensures
            r.wf(),
            r@ == self@,
    {
        let mut buf: Vec<u8> = Vec::new();
        let mut i: usize = 0;
        while i < 8
            invariant
                self.wf(),
                i <= 8,
                buf@.len() == i,
                forall|k: int| 0 <= k < i ==> buf@[k] == self@[k],
            decreases 8 - i,
        {
            buf.push(self.buf[i]);
            i += 1;
        }
        proof {
            assert(buf@ =~= self@);
        }
        ChunkInfo { buf }
    }

    /// The declared payload length, read from the first 4 bytes.
    pub fn size(&self) -> (r: u32)
        requires
            self.wf(),
        ensures
            r as int == self.spec_size(),
    {
        let r = bytes_to_int(vstd::slice::slice_subrange(self.buf.as_slice(), 0, 4));
        proof {
            assert(self.buf@.subrange(0, 4) =~= self@.subrange(0, 4));
        }
        r
    }

    /// Rewrites the first 4 bytes to encode `size`; the tag is kept.
    pub fn set_size(&mut self, size: u32)
        requires
            old(self).wf(),
        ensures
            final(self).wf(),
            final(self)@ == be_of(size as int) + old(self).spec_tag(),
            final(self).spec_size() == size as int,
            final(self).spec_tag() == old(self).spec_tag(),
    {
        let ghost tag0 = self.spec_tag();
        let mut buf = int_to_bytes(size);
        buf.push(self.buf[4]);
        buf.push(self.buf[5]);
        buf.push(self.buf[6]);
        buf.push(self.buf[7]);
        self.buf = buf;
        proof {
            assert(self@ =~= be_of(size as int) + tag0);
            assert(self@.subrange(0, 4) =~= be_of(size as int));
            assert(self@.subrange(4, 8) =~= tag0);
            crate::codec::lemma_be32_of_be_of(size as int);
        }
    }

    /// All 8 header bytes as a fresh vector.
    pub fn bytes(&self) -> (r: Vec<u8>)
        requires
            self.wf(),
        ensures
            r@ == self@,
    {
        self.duplicate().buf
    }

    /// The 4 type tag bytes as a fresh vector.
    pub fn raw_type(&self) -> (r: Vec<u8>)
        requires
            self.wf(),
        ensures
            r@.len() == 4,
            r@ == self.spec_tag(),
    {
        let mut r: Vec<u8> = Vec::new();
        r.push(self.buf[4]);
        r.push(self.buf[5]);
        r.push(self.buf[6]);
        r.push(self.buf[7]);
        proof {
            assert(r@ =~= self.spec_tag());
        }
        r
    }

    /// The type tag rendered as text for diagnostics, one character
    /// per raw byte; never fails, whatever the bytes hold.
    pub fn type_string(&self) -> (r: String)
        requires
            self.wf(),
        ensures
            r@.len() == 4,
            forall|k: int| 0 <= k < 4 ==> r@[k] == self@[4 + k] as char,
    {
        let mut r = String::new();
        push_char(&mut r, self.buf[4] as char);
        push_char(&mut r, self.buf[5] as char);
        push_char(&mut r, self.buf[6] as char);
        push_char(&mut r, self.buf[7] as char);
        r
    }
}

/// Relies on String::push: appends exactly the one character.
#[verifier::external_body]
fn push_char(s: &mut String, c: char)
    ensures
        final(s)@ == old(s)@.push(c),
{
    s.push(c);
}

} // verus!
