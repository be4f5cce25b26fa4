//! The byte-aligned view of the bit buffer.

use vstd::prelude::*;
use crate::error::DecodeError;
use crate::types::bit_spec::{
    byte_at, lemma_bits_of_packed_bytes, lemma_bytes_bits_concat, lemma_bytes_bits_len,
    lemma_packed_bytes_of_bits, packed_bytes,
};
use crate::types::bit_stream::{BitStream, Bits};
use crate::types::bit_utils::BitUtils;

verus! {

/// A read cursor that moves over a bit buffer in whole bytes.
pub struct ByteStream {
    stream: BitStream,
}

impl ByteStream {
    /// The buffer holds whole bytes and the cursor stands between two of
    /// them.
    pub closed spec fn wf(&self) -> bool {
        &&& self.stream.wf()
        &&& self.stream.bits().len() % 8 == 0
        &&& self.stream.pos() % 8 == 0
    }

    /// All the bytes of the buffer, consumed or not.
    pub closed spec fn data(&self) -> Seq<u8> {
        packed_bytes(self.stream.bits())
    }

    /// How many bytes have been consumed.
    pub closed spec fn pos(&self) -> nat {
        self.stream.pos() / 8
    }

    /// The bytes that have not been consumed yet.
    pub open spec fn unread(&self) -> Seq<u8> {
        self.data().skip(self.pos() as int)
    }

    /// A cursor at the start of `data`.
    pub fn new(data: &[u8]) -> (stream: ByteStream)
        ensures
            stream.wf(),
            stream.data() == data@,
            stream.pos() == 0,
    {
        proof {
            lemma_bytes_bits_len(data@);
            lemma_packed_bytes_of_bits(data@);
        }
        ByteStream { stream: BitStream::new(Bits::from_vec(BitUtils::u8s_to_bits(data))) }
    }

    /// Consumes the next `len` bytes and returns them. Where fewer remain,
    /// nothing is consumed.
    pub fn pop(&mut self, len: usize) -> (popped: Result<Vec<u8>, DecodeError>)
        requires
            old(self).wf(),
        ensures
            final(self).wf(),
            final(self).data() == old(self).data(),
            len <= old(self).unread().len() ==> (popped matches Ok(b) && b@ == old(
                self,
            ).unread().take(len as int)) && final(self).pos() == old(self).pos() + len,
            len > old(self).unread().len() ==> popped == Err::<Vec<u8>, DecodeError>(
                DecodeError::BufferUnderrun,
            ) && final(self).pos() == old(self).pos(),
    {
        proof {
            self.stream.lemma_wf();
            lemma_bits_of_packed_bytes(self.stream.bits());
        }
        if len > self.stream.remaining() / 8 {
            return Err(DecodeError::BufferUnderrun);
        }
        let bits = match self.stream.pop(8 * len) {
            Ok(bits) => bits,
            Err(e) => { return Err(e); },
        };
        let bytes = bits.to_u8s();
        proof {
            let all = old(self).stream.bits();
            let p = old(self).pos() as int;
            lemma_bits_of_packed_bytes(bits@);
            assert forall|k: int| 0 <= k < len implies bytes@[k] == old(self).unread().take(
                len as int,
            )[k] by {
                assert(bits@.subrange(8 * k, 8 * k + 8) =~= all.subrange(
                    8 * (p + k),
                    8 * (p + k) + 8,
                ));
                assert(byte_at(bits@, k) == byte_at(all, p + k));
            }
            assert(bytes@ =~= old(self).unread().take(len as int));
        }
        Ok(bytes)
    }

    /// Appends `data` behind the bytes already held and returns the length
    /// of the whole buffer.
    pub fn append(&mut self, data: &[u8]) -> (total: usize)
        requires
            old(self).wf(),
        ensures
            final(self).wf(),
            final(self).data() == old(self).data() + data@,
            final(self).pos() == old(self).pos(),
            total == final(self).data().len(),
    {
        let left = self.stream.append(Bits::from_vec(BitUtils::u8s_to_bits(data)));
        proof {
            let before = old(self).stream.bits();
            lemma_bits_of_packed_bytes(before);
            lemma_bytes_bits_len(data@);
            lemma_bytes_bits_concat(packed_bytes(before), data@);
            lemma_packed_bytes_of_bits(packed_bytes(before) + data@);
            self.stream.lemma_wf();
            lemma_bits_of_packed_bytes(self.stream.bits());
        }
        left / 8 + self.stream.consumed() / 8
    }
}

} // verus!
