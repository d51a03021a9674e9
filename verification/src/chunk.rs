use vstd::prelude::*;
use vstd::slice::slice_subrange;
use vstd::slice::slice_to_vec;

use crate::be_bytes::lemma_u32_from_to_be;
use crate::be_bytes::push_bytes;
use crate::be_bytes::push_u32_be;
use crate::be_bytes::read_u32_be;
use crate::be_bytes::u32_from_be;
use crate::be_bytes::u32_to_be;
use crate::error::DecodeError;

verus! {

/// The CRC-32 (IEEE) checksum of a byte sequence, the value that
/// `crc32fast` computes: reflected polynomial 0xEDB88320, initial value
/// all-ones, final complement.
pub uninterp spec fn crc32_of(data: Seq<u8>) -> u32;

/// Relies on `crc32fast::hash`: the CRC-32 (IEEE) checksum of the bytes,
/// a function of them alone.
#[verifier::external_body]
fn crc32(data: &[u8]) -> (r: u32)
    ensures
        r == crc32_of(data@),
{
    crc32fast::hash(data)
}

/// The mathematical content of a `Chunk`.
pub ghost struct ChunkView {
    pub length: u32,
    pub chunk_type: Seq<u8>,
    pub chunk_data: Seq<u8>,
    pub crc: u32,
}

/// Whether `t` can stand as a chunk's type tag: exactly four ASCII bytes.
pub open spec fn type_tag_ok(t: Seq<u8>) -> bool {
    t.len() == 4 && (forall|k: int| 0 <= k < 4 ==> t[k] < 0x80)
}

impl ChunkView {
    /// A chunk as decoding produces it: the tag is four ASCII bytes and the
    /// declared length equals the payload size. The stored checksum is free:
    /// a mismatch is an observable state, not a malformation.
    pub open spec fn wf(self) -> bool {
        type_tag_ok(self.chunk_type) && self.length == self.chunk_data.len()
    }

    /// The checksum a chunk's stored checksum is measured against: the
    /// CRC-32 of type tag and payload concatenated, never of the length.
    pub open spec fn checksum(self) -> u32 {
        crc32_of(self.chunk_type + self.chunk_data)
    }

    /// Whether the stored checksum matches the computed one.
    pub open spec fn valid(self) -> bool {
        self.crc == self.checksum()
    }

    /// The chunk's bytes on the wire: big-endian length, type tag, payload,
    /// big-endian checksum.
    pub open spec fn serialized(self) -> Seq<u8> {
        u32_to_be(self.length) + self.chunk_type + self.chunk_data + u32_to_be(self.crc)
    }
}

/// Whether one chunk can be decoded from the front of `i`.
pub open spec fn chunk_parse_ok(i: Seq<u8>) -> bool {
    &&& i.len() >= 8
    &&& type_tag_ok(i.subrange(4, 8))
    &&& i.len() >= 12 + u32_from_be(i.subrange(0, 4))
}

/// How many leading bytes of `i` one decoded chunk covers.
pub open spec fn chunk_parse_len(i: Seq<u8>) -> int {
    12 + u32_from_be(i.subrange(0, 4))
}

/// The chunk decoded from the front of `i`, meaningful when
/// `chunk_parse_ok(i)` holds.
pub open spec fn chunk_parse(i: Seq<u8>) -> ChunkView {
    let len = u32_from_be(i.subrange(0, 4)) as int;
    ChunkView {
        length: u32_from_be(i.subrange(0, 4)),
        chunk_type: i.subrange(4, 8),
        chunk_data: i.subrange(8, 8 + len),
        crc: u32_from_be(i.subrange(8 + len, 12 + len)),
    }
}

/// The error chunk decoding reports when `chunk_parse_ok(i)` fails: a
/// malformed tag once the eight leading bytes are present, otherwise
/// incomplete input.
pub open spec fn chunk_parse_err(i: Seq<u8>) -> DecodeError {
    if i.len() >= 8 && !type_tag_ok(i.subrange(4, 8)) {
        DecodeError::MalformedTypeTag
    } else {
        DecodeError::IncompleteInput
    }
}

/// Decoding a chunk and re-encoding it reproduces exactly the bytes the
/// decode consumed.
pub proof fn lemma_chunk_parse_serialized(i: Seq<u8>)
    requires
        chunk_parse_ok(i),
    ensures
        12 <= chunk_parse_len(i) <= i.len(),
        chunk_parse(i).wf(),
        chunk_parse(i).serialized() == i.take(chunk_parse_len(i)),
        chunk_parse(i).serialized() + i.skip(chunk_parse_len(i)) == i,
{
    let len = u32_from_be(i.subrange(0, 4)) as int;
    lemma_u32_from_to_be(i.subrange(0, 4));
    lemma_u32_from_to_be(i.subrange(8 + len, 12 + len));
    assert(chunk_parse(i).serialized() =~= i.take(chunk_parse_len(i)));
    assert(chunk_parse(i).serialized() + i.skip(chunk_parse_len(i)) =~= i);
}

/// Encoding a well-formed chunk and decoding the result gives the chunk
/// back, with any trailing bytes untouched.
pub proof fn lemma_chunk_serialized_parse(c: ChunkView, rest: Seq<u8>)
    requires
        c.wf(),
    ensures
        chunk_parse_ok(c.serialized() + rest),
        chunk_parse_len(c.serialized() + rest) == c.serialized().len(),
        chunk_parse(c.serialized() + rest) == c,
        (c.serialized() + rest).skip(chunk_parse_len(c.serialized() + rest)) == rest,
{
    let i = c.serialized() + rest;
    crate::be_bytes::lemma_u32_to_from_be(c.length);
    crate::be_bytes::lemma_u32_to_from_be(c.crc);
    assert(i.subrange(0, 4) =~= u32_to_be(c.length));
    assert(i.subrange(4, 8) =~= c.chunk_type);
    let len = c.chunk_data.len() as int;
    assert(i.subrange(8, 8 + len) =~= c.chunk_data);
    assert(i.subrange(8 + len, 12 + len) =~= u32_to_be(c.crc));
    assert(chunk_parse(i) == c);
    assert(i.skip(chunk_parse_len(i)) =~= rest);
}

/// Law: the computed checksum is a function of the type tag and payload
/// alone; chunks that agree on those agree on it, whatever their length
/// and stored checksum fields hold.
pub proof fn lemma_checksum_deterministic(a: ChunkView, b: ChunkView)
    requires
        a.chunk_type == b.chunk_type,
        a.chunk_data == b.chunk_data,
    ensures
        a.checksum() == b.checksum(),
{
}

/// One PNG record: `length` (payload byte count), `type` (four ASCII
/// bytes), `data` (opaque payload), `crc` (stored checksum). The stored
/// checksum need not match the computed one: tools that corrupt or repair
/// streams depend on that state being representable.
#[derive(Debug, Clone, PartialEq, Eq, Hash)]
pub struct Chunk {
    pub length: u32,
    pub chunk_type: Vec<u8>,
    pub chunk_data: Vec<u8>,
    pub crc: u32,
}

impl View for Chunk {
    type V = ChunkView;

    open spec fn view(&self) -> ChunkView {
        ChunkView {
            length: self.length,
            chunk_type: self.chunk_type@,
            chunk_data: self.chunk_data@,
            crc: self.crc,
        }
    }
}

impl Chunk {
    /// Decodes one chunk from the front of `i`: big-endian length, four-byte
    /// ASCII type tag, `length` payload bytes, big-endian checksum. Returns
    /// the decoded chunk and the remaining bytes. Fails on too little input
    /// or a non-ASCII tag; never on a checksum mismatch or an unknown tag.
    pub fn parse(i: &[u8]) -> (r: Result<(&[u8], Chunk), DecodeError>)
        ensures
            match r {
                Ok((rest, c)) => {
                    &&& chunk_parse_ok(i@)
                    &&& c@ == chunk_parse(i@)
                    &&& c@.wf()
                    &&& rest@ == i@.skip(chunk_parse_len(i@))
                    &&& i@ == c@.serialized() + rest@
                },
                Err(e) => !chunk_parse_ok(i@) && e == chunk_parse_err(i@),
            },
    {
        if i.len() < 8 {
            return Err(DecodeError::IncompleteInput);
        }
        let length = read_u32_be(i, 0);
        let mut k: usize = 4;
        while k < 8
            invariant
                4 <= k <= 8,
                i@.len() >= 8,
                forall|j: int| 4 <= j < k ==> i@[j] < 0x80,
            decreases 8 - k,
        {
            if i[k] >= 0x80 {
                assert(i@.subrange(4, 8)[k - 4] == i@[k as int]);
                return Err(DecodeError::MalformedTypeTag);
            }
            k += 1;
        }
        assert(type_tag_ok(i@.subrange(4, 8))) by {
            assert(forall|j: int| 0 <= j < 4 ==> i@.subrange(4, 8)[j] == i@[j + 4]);
        }
        if (i.len() as u64) < 12u64 + (length as u64) {
            return Err(DecodeError::IncompleteInput);
        }
        let data_end: usize = 8 + (length as usize);
        let chunk_type = slice_to_vec(slice_subrange(i, 4, 8));
        let chunk_data = slice_to_vec(slice_subrange(i, 8, data_end));
        let crc = read_u32_be(i, data_end);
        let rest = slice_subrange(i, data_end + 4, i.len());
        let c = Chunk { length, chunk_type, chunk_data, crc };
        proof {
            assert(c@ == chunk_parse(i@));
            lemma_chunk_parse_serialized(i@);
            assert(rest@ =~= i@.skip(chunk_parse_len(i@)));
        }
        Ok((rest, c))
    }

    /// Encodes the four fields in the same order and widths the decoder
    /// reads them: the exact inverse of `parse` for any chunk whose length
    /// field equals its payload's size.
    pub fn serialize(&self) -> (r: Vec<u8>)
        ensures
            r@ == self@.serialized(),
    {
        let mut out: Vec<u8> = Vec::new();
        push_u32_be(&mut out, self.length);
        push_bytes(&mut out, self.chunk_type.as_slice());
        push_bytes(&mut out, self.chunk_data.as_slice());
        push_u32_be(&mut out, self.crc);
        assert(out@ =~= self@.serialized());
        out
    }

    /// The checksum computed over the chunk's type tag and payload
    /// concatenated — never over the length field.
    pub fn calc_crc(&self) -> (r: u32)
        ensures
            r == self@.checksum(),
    {
        let mut buf: Vec<u8> = Vec::new();
        push_bytes(&mut buf, self.chunk_type.as_slice());
        push_bytes(&mut buf, self.chunk_data.as_slice());
        assert(buf@ =~= self@.chunk_type + self@.chunk_data);
        crc32(buf.as_slice())
    }

    /// Whether the stored checksum matches the computed one.
    pub fn verify(&self) -> (r: bool)
        ensures
            r == self@.valid(),
    {
        self.calc_crc() == self.crc
    }

    /// Repairs the stored checksum: overwrites it with the freshly computed
    /// value, leaving every other field unchanged.
    pub fn fix_crc(&mut self)
        ensures
            final(self)@.crc == old(self)@.checksum(),
            final(self)@.length == old(self)@.length,
            final(self)@.chunk_type == old(self)@.chunk_type,
            final(self)@.chunk_data == old(self)@.chunk_data,
            final(self)@.valid(),
    {
        let crc = self.calc_crc();
        self.crc = crc;
    }
}

} // verus!
