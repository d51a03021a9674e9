use vstd::prelude::*;
use vstd::slice::slice_subrange;

use crate::be_bytes::bytes_eq;
use crate::be_bytes::push_bytes;
use crate::chunk::chunk_parse;
use crate::chunk::chunk_parse_err;
use crate::chunk::chunk_parse_len;
use crate::chunk::chunk_parse_ok;
use crate::chunk::lemma_chunk_parse_serialized;
use crate::chunk::Chunk;
use crate::chunk::ChunkView;
use crate::error::DecodeError;

verus! {

/// The eight fixed bytes every PNG stream begins with.
pub open spec fn png_signature() -> Seq<u8> {
    seq![0x89u8, 0x50u8, 0x4Eu8, 0x47u8, 0x0Du8, 0x0Au8, 0x1Au8, 0x0Au8]
}

/// The signature as owned bytes, for writing and comparing.
pub fn signature_vec() -> (r: Vec<u8>)
    ensures
        r@ == png_signature(),
{
    let mut out: Vec<u8> = Vec::new();
    out.push(0x89);
    out.push(0x50);
    out.push(0x4E);
    out.push(0x47);
    out.push(0x0D);
    out.push(0x0A);
    out.push(0x1A);
    out.push(0x0A);
    assert(out@ =~= png_signature());
    out
}

/// The views of a run of chunks, in order.
pub open spec fn chunk_views(cs: Seq<Chunk>) -> Seq<ChunkView> {
    cs.map_values(|c: Chunk| c@)
}

/// The concatenation of the chunks' wire bytes, in sequence order.
pub open spec fn serialize_chunks(cs: Seq<ChunkView>) -> Seq<u8>
    decreases cs.len(),
{
    if cs.len() == 0 {
        Seq::empty()
    } else {
        cs[0].serialized() + serialize_chunks(cs.skip(1))
    }
}

/// Appending one chunk appends its bytes.
pub proof fn lemma_serialize_chunks_push(cs: Seq<ChunkView>, c: ChunkView)
    ensures
        serialize_chunks(cs.push(c)) == serialize_chunks(cs) + c.serialized(),
    decreases cs.len(),
{
    if cs.len() == 0 {
        assert(cs.push(c).skip(1) =~= Seq::<ChunkView>::empty());
        assert(serialize_chunks(cs.push(c).skip(1)) == Seq::<u8>::empty());
        assert(cs.push(c)[0] == c);
        assert(serialize_chunks(cs.push(c)) == c.serialized() + Seq::<u8>::empty());
        assert(c.serialized() + Seq::<u8>::empty() =~= Seq::<u8>::empty() + c.serialized());
    } else {
        lemma_serialize_chunks_push(cs.skip(1), c);
        assert(cs.push(c).skip(1) =~= cs.skip(1).push(c));
        assert(cs.push(c)[0] == cs[0]);
        assert(serialize_chunks(cs.push(c)) == cs[0].serialized() + (serialize_chunks(cs.skip(1))
            + c.serialized()));
        assert(cs[0].serialized() + (serialize_chunks(cs.skip(1)) + c.serialized()) =~= (
        cs[0].serialized() + serialize_chunks(cs.skip(1))) + c.serialized());
    }
}

/// The chunks decoded one after another until the input is exhausted;
/// `None` when a chunk fails to decode before the bytes run out.
pub open spec fn parse_chunks(i: Seq<u8>) -> Option<Seq<ChunkView>>
    decreases i.len(),
{
    if i.len() == 0 {
        Some(Seq::empty())
    } else if !chunk_parse_ok(i) {
        None
    } else {
        match parse_chunks(i.skip(chunk_parse_len(i))) {
            None => None,
            Some(tail) => Some(seq![chunk_parse(i)] + tail),
        }
    }
}

/// The decoded chunks when decoding succeeds, the empty run otherwise.
pub open spec fn parse_chunks_val(i: Seq<u8>) -> Seq<ChunkView> {
    match parse_chunks(i) {
        Some(cs) => cs,
        None => Seq::empty(),
    }
}

/// The error of the chunk that stopped a failed run, meaningful when
/// `parse_chunks(i)` is `None`.
pub open spec fn parse_chunks_err(i: Seq<u8>) -> DecodeError
    decreases i.len(),
{
    if !chunk_parse_ok(i) {
        chunk_parse_err(i)
    } else {
        parse_chunks_err(i.skip(chunk_parse_len(i)))
    }
}

/// Decoding a run of chunks and re-encoding them reproduces the bytes.
pub proof fn lemma_parse_chunks_serialized(i: Seq<u8>)
    requires
        parse_chunks(i) is Some,
    ensures
        serialize_chunks(parse_chunks_val(i)) == i,
    decreases i.len(),
{
    if i.len() == 0 {
        assert(serialize_chunks(parse_chunks_val(i)) =~= i);
    } else {
        lemma_chunk_parse_serialized(i);
        let n = chunk_parse_len(i);
        let c = chunk_parse(i);
        lemma_parse_chunks_serialized(i.skip(n));
        let tail = parse_chunks_val(i.skip(n));
        assert(parse_chunks_val(i) == seq![c] + tail);
        assert((seq![c] + tail).skip(1) =~= tail);
        assert((seq![c] + tail)[0] == c);
        assert(serialize_chunks(parse_chunks_val(i)) == c.serialized() + serialize_chunks(tail));
        assert(c.serialized() + i.skip(n) =~= i);
    }
}

/// Whether `i` decodes as a container: the signature, then at least one
/// chunk, the chunks together covering every remaining byte.
pub open spec fn image_parse_ok(i: Seq<u8>) -> bool {
    &&& i.len() >= 8
    &&& i.subrange(0, 8) == png_signature()
    &&& parse_chunks(i.skip(8)) is Some
    &&& parse_chunks_val(i.skip(8)).len() >= 1
}

/// The container's chunks, decoded in stream order.
pub open spec fn image_chunks(i: Seq<u8>) -> Seq<ChunkView> {
    parse_chunks_val(i.skip(8))
}

/// Whether the head of `i` diverges from the signature — as opposed to
/// merely ending before the signature's eight bytes are complete.
pub open spec fn signature_mismatch(i: Seq<u8>) -> bool {
    exists|j: int| #![auto] 0 <= j < 8 && j < i.len() && i[j] != png_signature()[j]
}

/// The error container decoding reports when `image_parse_ok(i)` fails:
/// a diverging signature byte wins over a short one; a short signature,
/// a failed chunk, or zero chunks are incomplete input — except that a
/// chunk whose type tag is not ASCII reports the malformed tag.
pub open spec fn image_parse_err(i: Seq<u8>) -> DecodeError {
    if signature_mismatch(i) {
        DecodeError::SignatureMismatch
    } else if i.len() < 8 {
        DecodeError::IncompleteInput
    } else if parse_chunks(i.skip(8)) is None {
        parse_chunks_err(i.skip(8))
    } else {
        DecodeError::IncompleteInput
    }
}

/// The index of the first chunk whose stored checksum does not match the
/// computed one, or success when every chunk matches.
pub open spec fn spec_verify(cs: Seq<ChunkView>) -> Result<(), int>
    decreases cs.len(),
{
    if cs.len() == 0 {
        Ok(())
    } else if !cs[0].valid() {
        Err(0)
    } else {
        match spec_verify(cs.skip(1)) {
            Ok(u) => Ok(u),
            Err(j) => Err(j + 1),
        }
    }
}

/// When everything before `k` is valid and `k` is not, `k` is what
/// verification reports.
pub proof fn lemma_spec_verify_first(cs: Seq<ChunkView>, k: int)
    requires
        0 <= k < cs.len(),
        forall|j: int| 0 <= j < k ==> cs[j].valid(),
        !cs[k].valid(),
    ensures
        spec_verify(cs) == Err::<(), int>(k),
    decreases k,
{
    if k > 0 {
        lemma_spec_verify_first(cs.skip(1), k - 1);
    }
}

/// When every chunk is valid, verification succeeds.
pub proof fn lemma_spec_verify_all(cs: Seq<ChunkView>)
    requires
        forall|j: int| 0 <= j < cs.len() ==> cs[j].valid(),
    ensures
        spec_verify(cs) == Ok::<(), int>(()),
    decreases cs.len(),
{
    if cs.len() > 0 {
        lemma_spec_verify_all(cs.skip(1));
    }
}

/// Law: re-encoding a decoded container reproduces the input bytes —
/// for every byte sequence `b` that decodes, encode(decode(b)) == b.
pub proof fn lemma_image_round_trip(b: Seq<u8>)
    requires
        image_parse_ok(b),
    ensures
        (ImageView { chunks: image_chunks(b) }).serialized() == b,
{
    lemma_parse_chunks_serialized(b.skip(8));
    assert((ImageView { chunks: image_chunks(b) }).serialized() =~= b);
}

/// Encoding a run of well-formed chunks and decoding the bytes gives the
/// run back.
pub proof fn lemma_serialize_chunks_parse(cs: Seq<ChunkView>)
    requires
        forall|j: int| 0 <= j < cs.len() ==> (#[trigger] cs[j]).wf(),
    ensures
        parse_chunks(serialize_chunks(cs)) == Some(cs),
    decreases cs.len(),
{
    if cs.len() == 0 {
        assert(serialize_chunks(cs) == Seq::<u8>::empty());
    } else {
        let b = serialize_chunks(cs);
        crate::chunk::lemma_chunk_serialized_parse(cs[0], serialize_chunks(cs.skip(1)));
        assert(forall|j: int| 0 <= j < cs.skip(1).len() ==> (#[trigger] cs.skip(1)[j]).wf());
        lemma_serialize_chunks_parse(cs.skip(1));
        assert(b.len() > 0);
        assert(parse_chunks(b) == Some(seq![cs[0]] + cs.skip(1)));
        assert(seq![cs[0]] + cs.skip(1) =~= cs);
    }
}

/// Law: decoding a re-encoded container gives the container back — encode
/// is the exact inverse of decode for any container with at least one
/// chunk whose chunks are well formed (four-byte ASCII tags, each length
/// field equal to its payload's size).
pub proof fn lemma_image_serialize_parse(v: ImageView)
    requires
        v.chunks.len() >= 1,
        forall|j: int| 0 <= j < v.chunks.len() ==> (#[trigger] v.chunks[j]).wf(),
    ensures
        image_parse_ok(v.serialized()),
        image_chunks(v.serialized()) == v.chunks,
{
    let b = v.serialized();
    assert(b.subrange(0, 8) =~= png_signature());
    assert(b.skip(8) =~= serialize_chunks(v.chunks));
    lemma_serialize_chunks_parse(v.chunks);
}

/// Law (tamper detection): take a container whose chunks all pass the
/// checksum test, and alter exactly one chunk so that its stored checksum
/// no longer matches. Every other chunk's validity is untouched, and the
/// altered chunk's index is exactly what verification reports.
pub proof fn lemma_tamper_detection(v1: ImageView, v2: ImageView, k: int)
    requires
        v1.chunks.len() == v2.chunks.len(),
        0 <= k < v1.chunks.len(),
        forall|j: int| 0 <= j < v1.chunks.len() && j != k ==> v1.chunks[j] == v2.chunks[j],
        forall|j: int| 0 <= j < v1.chunks.len() ==> (#[trigger] v1.chunks[j]).valid(),
        !v2.chunks[k].valid(),
    ensures
        forall|j: int| 0 <= j < v2.chunks.len() && j != k ==> (#[trigger] v2.chunks[j]).valid(),
        spec_verify(v2.chunks) == Err::<(), int>(k),
{
    assert forall|j: int| 0 <= j < v2.chunks.len() && j != k implies (#[trigger] v2.chunks[j]).valid() by {
        assert(v2.chunks[j] == v1.chunks[j]);
    }
    lemma_spec_verify_first(v2.chunks, k);
}

/// The mathematical content of an `Image`.
pub ghost struct ImageView {
    pub chunks: Seq<ChunkView>,
}

impl ImageView {
    /// The stream the container encodes to: the signature, then each
    /// chunk's bytes in sequence order.
    pub open spec fn serialized(self) -> Seq<u8> {
        png_signature() + serialize_chunks(self.chunks)
    }
}

/// A container: an ordered sequence of chunks, as decoded from a stream or
/// built by hand. Order is preserved; no chunk-ordering rules beyond the
/// header's own field constraints are enforced.
#[derive(Debug, Clone, PartialEq, Eq, Hash)]
pub struct Image {
    pub chunks: Vec<Chunk>,
}

impl View for Image {
    type V = ImageView;

    open spec fn view(&self) -> ImageView {
        ImageView { chunks: chunk_views(self.chunks@) }
    }
}

impl Image {
    /// Builds a container from an explicit chunk list.
    pub fn new(chunks: Vec<Chunk>) -> (r: Self)
        ensures
            r.chunks@ == chunks@,
    {
        Self { chunks }
    }

    /// Decodes a container: the eight-byte signature, then chunks decoded
    /// back to back until the input is exhausted, at least one of them.
    /// A head that diverges from the signature is a signature mismatch; a
    /// chunk failing mid-stream reports that chunk's error; an input that
    /// ends inside the signature, or right after it, is incomplete.
    pub fn parse(i: &[u8]) -> (r: Result<Image, DecodeError>)
        ensures
            match r {
                Ok(img) => {
                    &&& image_parse_ok(i@)
                    &&& img@.chunks == image_chunks(i@)
                    &&& img@.chunks.len() >= 1
                    &&& i@ == img@.serialized()
                },
                Err(e) => !image_parse_ok(i@) && e == image_parse_err(i@),
            },
    {
        let sig = signature_vec();
        let lim: usize = if i.len() < 8 {
            i.len()
        } else {
            8
        };
        let mut j: usize = 0;
        while j < lim
            invariant
                lim <= 8,
                lim <= i@.len(),
                j <= lim,
                sig@ == png_signature(),
                forall|k: int| 0 <= k < j ==> i@[k] == png_signature()[k],
            decreases lim - j,
        {
            if i[j] != sig[j] {
                assert(signature_mismatch(i@));
                return Err(DecodeError::SignatureMismatch);
            }
            j += 1;
        }
        if i.len() < 8 {
            assert(!signature_mismatch(i@));
            return Err(DecodeError::IncompleteInput);
        }
        proof {
            assert(i@.subrange(0, 8) =~= png_signature());
            assert(!signature_mismatch(i@));
        }
        let ghost r0: Seq<u8> = i@.skip(8);
        let mut rest: &[u8] = slice_subrange(i, 8, i.len());
        let mut chunks: Vec<Chunk> = Vec::new();
        proof {
            assert(chunk_views(chunks@) =~= Seq::<ChunkView>::empty());
        }
        while rest.len() > 0
            invariant
                i@.len() >= 8,
                i@.subrange(0, 8) == png_signature(),
                !signature_mismatch(i@),
                r0 == i@.skip(8),
                parse_chunks(r0) == (match parse_chunks(rest@) {
                    None => None::<Seq<ChunkView>>,
                    Some(t) => Some(chunk_views(chunks@) + t),
                }),
                parse_chunks(r0) is None ==> parse_chunks_err(r0) == parse_chunks_err(rest@),
            decreases rest@.len(),
        {
            match Chunk::parse(rest) {
                Ok((r2, c)) => {
                    proof {
                        lemma_chunk_parse_serialized(rest@);
                        let cv = chunk_views(chunks@);
                        assert(parse_chunks(rest@) == (match parse_chunks(r2@) {
                            None => None::<Seq<ChunkView>>,
                            Some(t) => Some(seq![c@] + t),
                        }));
                        assert(chunk_views(chunks@.push(c)) =~= cv.push(c@));
                        if parse_chunks(r2@) is Some {
                            let t = parse_chunks(r2@).unwrap();
                            assert(cv + (seq![c@] + t) =~= cv.push(c@) + t);
                        }
                    }
                    chunks.push(c);
                    rest = r2;
                },
                Err(e) => {
                    proof {
                        assert(parse_chunks(rest@) is None);
                        assert(parse_chunks_err(rest@) == chunk_parse_err(rest@));
                    }
                    return Err(e);
                },
            }
        }
        proof {
            assert(parse_chunks(rest@) == Some(Seq::<ChunkView>::empty()));
            assert(chunk_views(chunks@) + Seq::<ChunkView>::empty() =~= chunk_views(chunks@));
        }
        if chunks.len() == 0 {
            proof {
                assert(chunk_views(chunks@).len() == 0);
            }
            return Err(DecodeError::IncompleteInput);
        }
        let img = Image { chunks };
        proof {
            assert(image_parse_ok(i@));
            lemma_image_round_trip(i@);
        }
        Ok(img)
    }

    /// Encodes the container: the signature, then each chunk's bytes in
    /// sequence order — the exact inverse of `parse` for containers whose
    /// chunks' length fields match their payloads.
    pub fn serialize(&self) -> (r: Vec<u8>)
        ensures
            r@ == self@.serialized(),
    {
        let mut out: Vec<u8> = Vec::new();
        let sig = signature_vec();
        push_bytes(&mut out, sig.as_slice());
        let n = self.chunks.len();
        let mut ix: usize = 0;
        proof {
            assert(self@.chunks.take(0) =~= Seq::<ChunkView>::empty());
        }
        while ix < n
            invariant
                n == self.chunks@.len(),
                ix <= n,
                out@ == png_signature() + serialize_chunks(self@.chunks.take(ix as int)),
            decreases n - ix,
        {
            let cbytes = self.chunks[ix].serialize();
            push_bytes(&mut out, cbytes.as_slice());
            proof {
                lemma_serialize_chunks_push(self@.chunks.take(ix as int), self@.chunks[ix as int]);
                assert(self@.chunks.take(ix + 1) =~= self@.chunks.take(ix as int).push(
                    self@.chunks[ix as int],
                ));
            }
            ix += 1;
        }
        proof {
            assert(self@.chunks.take(n as int) =~= self@.chunks);
        }
        out
    }

    /// Scans the chunks in order: success when every chunk's stored
    /// checksum matches its computed one, otherwise the index of the first
    /// chunk whose checksum does not.
    pub fn verify(&self) -> (r: Result<(), usize>)
        ensures
            spec_verify(self@.chunks) == (match r {
                Ok(u) => Ok::<(), int>(u),
                Err(ix) => Err(ix as int),
            }),
            r is Ok ==> forall|j: int|
                0 <= j < self@.chunks.len() ==> (#[trigger] self@.chunks[j]).valid(),
            match r {
                Ok(u) => true,
                Err(ix) => {
                    &&& ix < self@.chunks.len()
                    &&& !self@.chunks[ix as int].valid()
                    &&& forall|j: int| 0 <= j < ix ==> (#[trigger] self@.chunks[j]).valid()
                },
            },
    {
        let n = self.chunks.len();
        let mut ix: usize = 0;
        while ix < n
            invariant
                n == self.chunks@.len(),
                ix <= n,
                forall|j: int| 0 <= j < ix ==> (#[trigger] self@.chunks[j]).valid(),
            decreases n - ix,
        {
            if !self.chunks[ix].verify() {
                proof {
                    lemma_spec_verify_first(self@.chunks, ix as int);
                }
                return Err(ix);
            }
            ix += 1;
        }
        proof {
            lemma_spec_verify_all(self@.chunks);
        }
        Ok(())
    }

    /// The first chunk whose type tag holds exactly the bytes of
    /// `chunk_type`, if any.
    pub fn get_first_chunk(&self, chunk_type: &[u8]) -> (r: Option<&Chunk>)
        ensures
            match r {
                Some(c) => exists|k: int|
                    #![auto]
                    {
                        &&& 0 <= k < self@.chunks.len()
                        &&& c@ == self@.chunks[k]
                        &&& self@.chunks[k].chunk_type == chunk_type@
                        &&& forall|j: int|
                            0 <= j < k ==> (#[trigger] self@.chunks[j]).chunk_type != chunk_type@
                    },
                None => forall|j: int|
                    0 <= j < self@.chunks.len() ==> (#[trigger] self@.chunks[j]).chunk_type
                        != chunk_type@,
            },
    {
        let n = self.chunks.len();
        let mut ix: usize = 0;
        while ix < n
            invariant
                n == self.chunks@.len(),
                ix <= n,
                forall|j: int|
                    0 <= j < ix ==> (#[trigger] self@.chunks[j]).chunk_type != chunk_type@,
            decreases n - ix,
        {
            if bytes_eq(self.chunks[ix].chunk_type.as_slice(), chunk_type) {
                let r = &self.chunks[ix];
                proof {
                    let k = ix as int;
                    assert(self@.chunks[k] == self.chunks@[k]@);
                    assert(0 <= k < self@.chunks.len() && r@ == self@.chunks[k]
                        && self@.chunks[k].chunk_type == chunk_type@ && (forall|j: int|
                        0 <= j < k ==> (#[trigger] self@.chunks[j]).chunk_type != chunk_type@));
                }
                return Some(r);
            }
            ix += 1;
        }
        None
    }

    /// Like `get_first_chunk`, with mutable access: afterwards the
    /// container differs from before at most in the returned chunk.
    pub fn get_first_chunk_mut(&mut self, chunk_type: &[u8]) -> (r: Option<&mut Chunk>)
        ensures
            match r {
                Some(c) => exists|k: int|
                    #![auto]
                    {
                        &&& 0 <= k < old(self)@.chunks.len()
                        &&& (*c)@ == old(self)@.chunks[k]
                        &&& old(self)@.chunks[k].chunk_type == chunk_type@
                        &&& (forall|j: int|
                            0 <= j < k ==> (#[trigger] old(self)@.chunks[j]).chunk_type
                                != chunk_type@)
                        &&& final(self)@.chunks == old(self)@.chunks.update(k, (*final(c))@)
                    },
                None => {
                    &&& final(self)@ == old(self)@
                    &&& forall|j: int|
                        0 <= j < old(self)@.chunks.len() ==> (#[trigger] old(
                            self,
                        )@.chunks[j]).chunk_type != chunk_type@
                },
            },
    {
        let n = self.chunks.len();
        let mut ix: usize = 0;
        while ix < n
            invariant
                self.chunks@ == old(self).chunks@,
                n == self.chunks@.len(),
                ix <= n,
                forall|j: int|
                    0 <= j < ix ==> (#[trigger] self@.chunks[j]).chunk_type != chunk_type@,
            decreases n - ix,
        {
            if bytes_eq(self.chunks[ix].chunk_type.as_slice(), chunk_type) {
                proof {
                    let k = ix as int;
                    assert(self@.chunks[k] == self.chunks@[k]@);
                    assert(self@.chunks[k].chunk_type == chunk_type@);
                    assert forall|x: Chunk|
                        chunk_views(old(self).chunks@.update(ix as int, x)) =~= old(
                            self,
                        )@.chunks.update(ix as int, x@) by {};
                }
                return Some(&mut self.chunks[ix]);
            }
            ix += 1;
        }
        None
    }
}

} // verus!
