use vstd::prelude::*;
use crate::adapters::no_key;
use crate::sample_cache::Keyed;
use crate::serialization::{Error, RepresentationIdentifier};

verus! {

/// Decodes values of a keyed type, and their keys alone.
pub trait DeserializerAdapter<D: Keyed>: no_key::DeserializerAdapter<D> {
    /// The key that `bytes` in `encoding` decode to, if they decode. An
    /// implementation states it; the default says nothing.
    open spec fn decode_key_spec(bytes: Seq<u8>, encoding: RepresentationIdentifier) -> Option<i64> {
        arbitrary()
    }

    fn key_from_bytes(input_bytes: &[u8], encoding: RepresentationIdentifier) -> (r: Result<i64, Error>)
        ensures
            r is Ok <==> Self::decode_key_spec(input_bytes@, encoding) is Some,
            r is Ok ==> Some(r->Ok_0) == Self::decode_key_spec(input_bytes@, encoding),
    ;
}

/// Encodes values of a keyed type, and their keys alone.
pub trait SerializerAdapter<D: Keyed>: no_key::SerializerAdapter<D> {
    fn key_to_bytes(value: i64) -> Result<bytes::Bytes, Error>;
}

} // verus!
