//! Representation identifiers, serialized payloads and codec errors.
use vstd::prelude::*;

pub mod pl_cdr_adapters;

verus! {

/// CDR, big-endian.
pub const CDR_BE: u16 = 0x0000;

/// CDR, little-endian.
pub const CDR_LE: u16 = 0x0001;

/// Parameter-list CDR, big-endian.
pub const PL_CDR_BE: u16 = 0x0002;

/// Parameter-list CDR, little-endian.
pub const PL_CDR_LE: u16 = 0x0003;

/// The 2-byte tag on the wire that selects a serialization encoding, read
/// as a big-endian integer.
#[derive(Clone, Copy, Debug, PartialEq, Eq, Structural)]
pub struct RepresentationIdentifier {
    pub id: u16,
}

impl RepresentationIdentifier {
    pub fn cdr_be() -> (r: RepresentationIdentifier)
        ensures
            r.id == CDR_BE,
    {
        RepresentationIdentifier { id: CDR_BE }
    }

    pub fn cdr_le() -> (r: RepresentationIdentifier)
        ensures
            r.id == CDR_LE,
    {
        RepresentationIdentifier { id: CDR_LE }
    }

    pub fn pl_cdr_be() -> (r: RepresentationIdentifier)
        ensures
            r.id == PL_CDR_BE,
    {
        RepresentationIdentifier { id: PL_CDR_BE }
    }

    pub fn pl_cdr_le() -> (r: RepresentationIdentifier)
        ensures
            r.id == PL_CDR_LE,
    {
        RepresentationIdentifier { id: PL_CDR_LE }
    }

    /// The identifier whose two wire bytes are `b0` then `b1`.
    pub fn from_bytes(b0: u8, b1: u8) -> (r: RepresentationIdentifier)
        ensures
            r.id == b0 as int * 256 + b1 as int,
    {
        RepresentationIdentifier { id: (b0 as u16) * 256 + b1 as u16 }
    }
}

/// A codec failure.
#[derive(Debug)]
pub enum Error {
    /// The bytes could not be decoded.
    Message(String),
    /// The payload is in an encoding that the codec does not read.
    UnknownRepresentation(RepresentationIdentifier),
}

#[verifier::external_type_specification]
#[verifier::external_body]
pub struct ExBytes(bytes::Bytes);

/// The bytes that a `Bytes` buffer holds.
pub uninterp spec fn bytes_content(b: bytes::Bytes) -> Seq<u8>;

/// Relies on `<bytes::Bytes as AsRef<[u8]>>::as_ref`: the slice of the bytes
/// that the buffer holds.
#[verifier::external_body]
pub(crate) fn bytes_slice(b: &bytes::Bytes) -> (r: &[u8])
    ensures
        r@ == bytes_content(*b),
{
    b.as_ref()
}

/// Serialized data as it arrives: its encoding, the encoding options and the
/// bytes.
#[derive(Debug)]
pub struct SerializedPayload {
    pub representation_identifier: RepresentationIdentifier,
    pub representation_options: u16,
    pub value: bytes::Bytes,
}

/// The bytes of `chunks` one after another.
pub open spec fn concat_chunks(chunks: Seq<bytes::Bytes>) -> Seq<u8>
    decreases chunks.len(),
{
    if chunks.len() == 0 {
        Seq::empty()
    } else {
        concat_chunks(chunks.drop_last()) + bytes_content(chunks.last())
    }
}

/// Joins the chunks of a fragmented payload.
pub fn concat_fragments(chunks: &[bytes::Bytes]) -> (r: Vec<u8>)
    ensures
        r@ == concat_chunks(chunks@),
{
    let mut total: Vec<u8> = Vec::new();
    let mut i: usize = 0;
    while i < chunks.len()
        invariant
            i <= chunks@.len(),
            total@ == concat_chunks(chunks@.take(i as int)),
        decreases chunks@.len() - i,
    {
        let chunk = bytes_slice(&chunks[i]);
        let ghost start = total@;
        let mut j: usize = 0;
        while j < chunk.len()
            invariant
                j <= chunk@.len(),
                total@ == start + chunk@.take(j as int),
            decreases chunk@.len() - j,
        {
            total.push(chunk[j]);
            assert(chunk@.take(j + 1) =~= chunk@.take(j as int).push(chunk@[j as int]));
            assert(total@ =~= start + chunk@.take(j + 1));
            j = j + 1;
        }
        assert(chunk@.take(j as int) =~= chunk@);
        assert(chunks@.take(i + 1).drop_last() =~= chunks@.take(i as int));
        assert(chunks@.take(i + 1).last() == chunks@[i as int]);
        i = i + 1;
    }
    assert(chunks@.take(i as int) =~= chunks@);
    total
}

} // verus!
