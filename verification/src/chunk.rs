//! Chunked data transfer: tunneled bytes travel in data-chunk messages whose
//! payload is base64 text, at most 1024 raw bytes per chunk, with chunk
//! identifiers counting 1, 2, 3, ... per request and direction.
use vstd::prelude::*;
use base64::Engine;
use crate::protocol::{Payload, PayloadView};

verus! {

/// Largest number of raw bytes one chunk may carry.
pub const MAX_CHUNK_BYTES: usize = 1024;

/// What base64's standard-alphabet padded encoder returns for a byte string.
pub uninterp spec fn b64_of(bytes: Seq<u8>) -> Seq<char>;

/// Relies on base64's `STANDARD` engine `encode`: its result is a function of
/// the input bytes alone.
#[verifier::external_body]
fn b64_encode(data: &[u8]) -> (r: String)
    ensures
        r@ == b64_of(data@),
{
    base64::engine::general_purpose::STANDARD.encode(data)
}

/// Relies on base64's `STANDARD` engine `decode`: with canonical padding
/// required, it succeeds exactly on the encoder's output and inverts it, so
/// a successful decode names the text as the encoding of its result.
#[verifier::external_body]
fn b64_decode(data: &str) -> (r: Option<Vec<u8>>)
    ensures
        r matches Some(v) ==> data@ == b64_of(v@),
        r matches Some(v) ==> forall|b: Seq<u8>| data@ == b64_of(b) ==> v@ == b,
        r is None ==> forall|b: Seq<u8>| data@ != b64_of(b),
{
    match base64::engine::general_purpose::STANDARD.decode(data) {
        Ok(v) => Some(v),
        Err(_) => None,
    }
}

/// Recovers the raw bytes carried in a chunk's `data` field: on text the
/// encoder produced for bytes `b` the result is exactly `b`, anything
/// recovered is what the text encodes, and text that encodes nothing yields
/// nothing.
pub fn decode_chunk_data(data: &str) -> (r: Option<Vec<u8>>)
    ensures
        forall|b: Seq<u8>| data@ == b64_of(b) ==> (r matches Some(v) && v@ == b),
        r matches Some(v) ==> data@ == b64_of(v@),
        (forall|b: Seq<u8>| data@ != b64_of(b)) ==> r is None,
{
    b64_decode(data)
}

/// One direction of one request's chunked byte flow: hands out the payloads
/// to send, numbering them from 1 upward.
pub struct ChunkStream {
    pub request_id: String,
    pub next_id: u32,
    pub issued: Ghost<Seq<u32>>,
}

impl ChunkStream {
    /// The identifiers handed out so far are exactly 1, 2, ..., next_id - 1.
    pub open spec fn wf(&self) -> bool {
        &&& self.next_id >= 1
        &&& self.issued@.len() == self.next_id - 1
        &&& forall|k: int| 0 <= k < self.issued@.len() ==> self.issued@[k] == k + 1
    }

    pub fn new(request_id: String) -> (r: ChunkStream)
        ensures
            r.wf(),
            r.request_id@ == request_id@,
            r.next_id == 1,
            r.issued@ == Seq::<u32>::empty(),
    {
        ChunkStream { request_id, next_id: 1, issued: Ghost(Seq::empty()) }
    }

    /// Wraps up to 1024 client bytes as the next client-to-agent chunk.
    pub fn next_request_chunk(&mut self, data: &[u8]) -> (r: Payload)
        requires
            old(self).wf(),
            data@.len() <= 1024,
            old(self).next_id < u32::MAX,
        ensures
            final(self).wf(),
            final(self).request_id == old(self).request_id,
            final(self).next_id == old(self).next_id + 1,
            final(self).issued@ == old(self).issued@.push(old(self).next_id),
            r@ == (PayloadView::DataRequestChunk {
                request_id: old(self).request_id@,
                chunk_id: old(self).next_id,
                data: b64_of(data@),
            }),
    {
        let encoded = b64_encode(data);
        let id = self.next_id;
        self.next_id = self.next_id + 1;
        proof {
            self.issued@ = self.issued@.push(id);
        }
        Payload::DataRequestChunk {
            request_id: self.request_id.clone(),
            chunk_id: id,
            data: encoded,
        }
    }

    /// Wraps up to 1024 upstream bytes as the next agent-to-client chunk.
    pub fn next_response_chunk(&mut self, data: &[u8]) -> (r: Payload)
        requires
            old(self).wf(),
            data@.len() <= 1024,
            old(self).next_id < u32::MAX,
        ensures
            final(self).wf(),
            final(self).request_id == old(self).request_id,
            final(self).next_id == old(self).next_id + 1,
            final(self).issued@ == old(self).issued@.push(old(self).next_id),
            r@ == (PayloadView::DataResponseChunk {
                request_id: old(self).request_id@,
                chunk_id: old(self).next_id,
                data: b64_of(data@),
            }),
    {
        let encoded = b64_encode(data);
        let id = self.next_id;
        self.next_id = self.next_id + 1;
        proof {
            self.issued@ = self.issued@.push(id);
        }
        Payload::DataResponseChunk {
            request_id: self.request_id.clone(),
            chunk_id: id,
            data: encoded,
        }
    }

    /// Wraps up to 1024 bytes of command output as the next command-response
    /// chunk; the counter is shared across stdout and stderr.
    pub fn next_command_chunk(&mut self, stream_type: u8, data: &[u8]) -> (r: Payload)
        requires
            old(self).wf(),
            data@.len() <= 1024,
            old(self).next_id < u32::MAX,
        ensures
            final(self).wf(),
            final(self).request_id == old(self).request_id,
            final(self).next_id == old(self).next_id + 1,
            final(self).issued@ == old(self).issued@.push(old(self).next_id),
            r@ == (PayloadView::CommandResponseChunk {
                request_id: old(self).request_id@,
                chunk_id: old(self).next_id,
                stream_type: stream_type,
                data: b64_of(data@),
            }),
    {
        let encoded = b64_encode(data);
        let id = self.next_id;
        self.next_id = self.next_id + 1;
        proof {
            self.issued@ = self.issued@.push(id);
        }
        Payload::CommandResponseChunk {
            request_id: self.request_id.clone(),
            chunk_id: id,
            stream_type,
            data: encoded,
        }
    }
}

/// The chunk identifiers of one stream form a strictly increasing sequence
/// beginning at 1.
pub proof fn lemma_chunk_ids_strictly_increasing(s: ChunkStream)
    requires
        s.wf(),
    ensures
        forall|i: int, j: int| 0 <= i < j < s.issued@.len() ==> s.issued@[i] < s.issued@[j],
        s.issued@.len() > 0 ==> s.issued@[0] == 1,
{
}

} // verus!
