use vstd::prelude::*;
use crate::serialization::{concat_chunks, concat_fragments, Error, RepresentationIdentifier};

verus! {

/// Decodes values of `D` from serialized payloads.
pub trait DeserializerAdapter<D> {
    /// The encodings that this adapter reads. An implementation states
    /// them; the default says nothing.
    open spec fn encodings_spec() -> Seq<RepresentationIdentifier> {
        arbitrary()
    }

    /// The value that `bytes` in `encoding` decode to, if they decode. An
    /// implementation states it; the default says nothing.
    open spec fn decode_spec(bytes: Seq<u8>, encoding: RepresentationIdentifier) -> Option<D> {
        arbitrary()
    }

    fn supported_encodings() -> (r: Vec<RepresentationIdentifier>)
        ensures
            r@ == Self::encodings_spec(),
    ;

    fn from_bytes(input_bytes: &[u8], encoding: RepresentationIdentifier) -> (r: Result<D, Error>)
        ensures
            r is Ok <==> Self::decode_spec(input_bytes@, encoding) is Some,
            r is Ok ==> Some(r->Ok_0) == Self::decode_spec(input_bytes@, encoding),
    ;

    /// Decodes a payload that arrived in fragments: the fragments are joined,
    /// then decoded.
    fn from_vec_bytes(
        input_vec_bytes: &[bytes::Bytes],
        encoding: RepresentationIdentifier,
    ) -> (r: Result<D, Error>)
        ensures
            r is Ok <==> Self::decode_spec(concat_chunks(input_vec_bytes@), encoding) is Some,
            r is Ok ==> Some(r->Ok_0) == Self::decode_spec(concat_chunks(input_vec_bytes@), encoding),
    {
        let total_payload = concat_fragments(input_vec_bytes);
        Self::from_bytes(total_payload.as_slice(), encoding)
    }
}

/// Encodes values of `D`.
pub trait SerializerAdapter<D> {
    /// The encoding that this adapter produces.
    fn output_encoding() -> RepresentationIdentifier;

    fn to_bytes(value: &D) -> Result<bytes::Bytes, Error>;
}

} // verus!
