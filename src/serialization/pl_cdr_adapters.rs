//! Adapters for the parameter-list CDR encodings of discovery messages.
use vstd::prelude::*;
use std::marker::PhantomData;
use crate::adapters::{no_key, with_key};
use crate::sample_cache::Keyed;
use crate::serialization::{Error, RepresentationIdentifier, PL_CDR_BE, PL_CDR_LE};

verus! {

/// A type that encodes itself in parameter-list CDR.
pub trait PlCdrSerialize {
    /// `encoding` is to be PL_CDR_LE or PL_CDR_BE.
    fn to_pl_cdr_bytes(&self, encoding: RepresentationIdentifier) -> Result<bytes::Bytes, Error>;
}

/// A keyed type that encodes its key in parameter-list CDR.
pub trait PlCdrSerializeKey {
    fn key_to_pl_cdr_bytes(key: i64, encoding: RepresentationIdentifier) -> Result<bytes::Bytes, Error>;
}

/// Encodes in little-endian parameter-list CDR.
pub struct PlCdrSerializerAdapter<D> {
    phantom: PhantomData<D>,
}

impl<D: PlCdrSerialize> no_key::SerializerAdapter<D> for PlCdrSerializerAdapter<D> {
    fn output_encoding() -> (r: RepresentationIdentifier) {
        RepresentationIdentifier::pl_cdr_le()
    }

    fn to_bytes(value: &D) -> Result<bytes::Bytes, Error> {
        value.to_pl_cdr_bytes(RepresentationIdentifier::pl_cdr_le())
    }
}

impl<D: Keyed + PlCdrSerialize + PlCdrSerializeKey> with_key::SerializerAdapter<D> for PlCdrSerializerAdapter<D> {
    fn key_to_bytes(value: i64) -> Result<bytes::Bytes, Error> {
        D::key_to_pl_cdr_bytes(value, RepresentationIdentifier::pl_cdr_le())
    }
}

/// A type that decodes itself from parameter-list CDR.
pub trait PlCdrDeserialize: Sized {
    /// The value that `bytes` in `encoding` decode to, if they decode. An
    /// implementation states it; the default says nothing.
    open spec fn pl_cdr_decode(bytes: Seq<u8>, encoding: RepresentationIdentifier) -> Option<Self> {
        arbitrary()
    }

    /// `encoding` is to be PL_CDR_LE or PL_CDR_BE.
    fn from_pl_cdr_bytes(input_bytes: &[u8], encoding: RepresentationIdentifier) -> (r: Result<Self, Error>)
        ensures
            r is Ok <==> Self::pl_cdr_decode(input_bytes@, encoding) is Some,
            r is Ok ==> Some(r->Ok_0) == Self::pl_cdr_decode(input_bytes@, encoding),
    ;
}

/// A keyed type that decodes its key alone from parameter-list CDR.
pub trait PlCdrDeserializeKey {
    /// The key that `bytes` in `encoding` decode to, if they decode. An
    /// implementation states it; the default says nothing.
    open spec fn pl_cdr_decode_key(bytes: Seq<u8>, encoding: RepresentationIdentifier) -> Option<i64> {
        arbitrary()
    }

    fn key_from_pl_cdr_bytes(
        input_bytes: &[u8],
        encoding: RepresentationIdentifier,
    ) -> (r: Result<i64, Error>)
        ensures
            r is Ok <==> Self::pl_cdr_decode_key(input_bytes@, encoding) is Some,
            r is Ok ==> Some(r->Ok_0) == Self::pl_cdr_decode_key(input_bytes@, encoding),
    ;
}

/// Whether `e` is one of the two parameter-list CDR encodings.
pub open spec fn is_pl_cdr(e: RepresentationIdentifier) -> bool {
    e.id == PL_CDR_LE || e.id == PL_CDR_BE
}

/// Decodes parameter-list CDR, big- or little-endian.
pub struct PlCdrDeserializerAdapter<D> {
    phantom: PhantomData<D>,
}

impl<D: PlCdrDeserialize> no_key::DeserializerAdapter<D> for PlCdrDeserializerAdapter<D> {
    open spec fn encodings_spec() -> Seq<RepresentationIdentifier> {
        seq![RepresentationIdentifier { id: PL_CDR_BE }, RepresentationIdentifier { id: PL_CDR_LE }]
    }

    open spec fn decode_spec(bytes: Seq<u8>, encoding: RepresentationIdentifier) -> Option<D> {
        if is_pl_cdr(encoding) {
            D::pl_cdr_decode(bytes, encoding)
        } else {
            None
        }
    }

    fn supported_encodings() -> (r: Vec<RepresentationIdentifier>) {
        let mut v: Vec<RepresentationIdentifier> = Vec::new();
        v.push(RepresentationIdentifier::pl_cdr_be());
        v.push(RepresentationIdentifier::pl_cdr_le());
        assert(v@ =~= seq![RepresentationIdentifier { id: PL_CDR_BE }, RepresentationIdentifier { id: PL_CDR_LE }]);
        v
    }

    fn from_bytes(input_bytes: &[u8], encoding: RepresentationIdentifier) -> (r: Result<D, Error>) {
        if encoding.id == PL_CDR_LE || encoding.id == PL_CDR_BE {
            D::from_pl_cdr_bytes(input_bytes, encoding)
        } else {
            Err(Error::UnknownRepresentation(encoding))
        }
    }
}

impl<D: Keyed + PlCdrDeserialize + PlCdrDeserializeKey> with_key::DeserializerAdapter<D> for PlCdrDeserializerAdapter<D> {
    open spec fn decode_key_spec(bytes: Seq<u8>, encoding: RepresentationIdentifier) -> Option<i64> {
        if is_pl_cdr(encoding) {
            D::pl_cdr_decode_key(bytes, encoding)
        } else {
            None
        }
    }

    fn key_from_bytes(input_bytes: &[u8], encoding: RepresentationIdentifier) -> (r: Result<i64, Error>) {
        if encoding.id == PL_CDR_LE || encoding.id == PL_CDR_BE {
            D::key_from_pl_cdr_bytes(input_bytes, encoding)
        } else {
            Err(Error::UnknownRepresentation(encoding))
        }
    }
}

} // verus!
