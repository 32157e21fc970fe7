//! The identifier: sixteen bytes, made from text, from raw bytes or from the
//! bytes of another UUID value, or generated afresh.

use std::collections::hash_map::DefaultHasher;
use std::hash::Hasher;
use vstd::prelude::*;
use vstd::std_specs::cmp::PartialEqSpecImpl;
use vstd::std_specs::hash::DefaultHasherAdditionalSpecFns;
use vstd::string::StringExecFns;

use crate::codec::{
    decode_crockford_to_bytes, decoding_of, encode_bytes_to_crockford, encoding_of,
    failure_report, sixteen, CrockfordError, Decoding,
};
use crate::text::{decimal, decimal_string};

verus! {

/// What an identifier can be made from.
pub enum Source<'a> {
    /// Crockford text, as `decode_crockford_to_bytes` reads it.
    Text(&'a str),
    /// Raw bytes, of which there must be sixteen.
    Bytes(&'a [u8]),
    /// The sixteen bytes of another UUID value.
    Uuid([u8; 16]),
    /// A value of any other kind.
    Unrecognized,
}

/// Why no identifier could be made.
#[derive(Clone, Copy, Debug, PartialEq, Eq, Structural)]
pub enum IdentifierError {
    /// The text did not decode.
    Codec(CrockfordError),
    /// The raw bytes were this many and not sixteen.
    WrongByteCount(usize),
    /// The value was neither text, nor bytes, nor a UUID.
    UnsupportedInputType,
}

impl IdentifierError {
    /// The words of the error.
    pub open spec fn text(self) -> Seq<char> {
        match self {
            IdentifierError::Codec(error) => error.text(),
            IdentifierError::WrongByteCount(count) => "bytes input must be 16 bytes, got "@
                + decimal(count as nat),
            IdentifierError::UnsupportedInputType => "expected Crockford string, 16 bytes, or uuid.UUID"@,
        }
    }

    /// The error in words.
    pub fn message(&self) -> (message: String)
        ensures
            message@ == self.text(),
    {
        match self {
            IdentifierError::Codec(error) => error.message(),
            IdentifierError::WrongByteCount(count) => {
                let mut message = String::from_str("bytes input must be 16 bytes, got ");
                message.append(decimal_string(*count).as_str());
                message
            },
            IdentifierError::UnsupportedInputType => String::from_str(
                "expected Crockford string, 16 bytes, or uuid.UUID",
            ),
        }
    }
}

/// The comparisons that can be asked of two identifiers.
#[derive(Clone, Copy, Debug, PartialEq, Eq, Structural)]
pub enum CompareOp {
    /// Less than.
    Lt,
    /// Less than or equal to.
    Le,
    /// Equal to.
    Eq,
    /// Not equal to.
    Ne,
    /// Greater than.
    Gt,
    /// Greater than or equal to.
    Ge,
}

/// A 128-bit identifier. Two identifiers are equal exactly when their bytes
/// are.
#[derive(Clone, Copy, Hash)]
pub struct CrockfordUUID {
    bytes: [u8; 16],
}

impl PartialEq for CrockfordUUID {
    fn eq(&self, other: &CrockfordUUID) -> (equal: bool) {
        let mut i: usize = 0;
        while i < 16
            invariant
                i <= 16,
                forall|k: int| 0 <= k < i ==> self.bytes@[k] == other.bytes@[k],
            decreases 16 - i,
        {
            if self.bytes[i] != other.bytes[i] {
                return false;
            }
            i = i + 1;
        }
        assert(self.bytes@ =~= other.bytes@);
        true
    }
}

impl Eq for CrockfordUUID {}

impl PartialEqSpecImpl for CrockfordUUID {
    open spec fn obeys_eq_spec() -> bool {
        true
    }

    open spec fn eq_spec(&self, other: &CrockfordUUID) -> bool {
        self@ == other@
    }
}

impl View for CrockfordUUID {
    type V = Seq<u8>;

    closed spec fn view(&self) -> Seq<u8> {
        self.bytes@
    }
}

/// The version that the bytes of a UUID state: the upper half of the
/// seventh byte.
pub open spec fn version_of(bytes: Seq<u8>) -> int {
    bytes[6] as int / 16
}

/// Whether the bytes of a UUID state the variant of RFC 4122: the two upper
/// bits of the ninth byte are one and zero.
pub open spec fn has_rfc_variant(bytes: Seq<u8>) -> bool {
    bytes[8] as int / 64 == 2
}

/// The hash of an identifier with these bytes.
pub open spec fn hash_of(bytes: Seq<u8>) -> u64 {
    DefaultHasher::spec_finish(seq![bytes])
}

/// Calls `uuid::Uuid::new_v4` and copies the bytes of the UUID out.
///
/// Trusted: the bytes state version 4 and the variant of RFC 4122. The
/// other bits are random, and nothing is claimed of them.
#[verifier::external_body]
fn random_uuid_bytes() -> (bytes: [u8; 16])
    ensures
        version_of(bytes@) == 4,
        has_rfc_variant(bytes@),
{
    *uuid::Uuid::new_v4().as_bytes()
}

/// Calls `uuid::Uuid::now_v7` and copies the bytes of the UUID out.
///
/// Trusted: the bytes state version 7 and the variant of RFC 4122. The
/// other bits hold the time of the call and random bits, and nothing is
/// claimed of them.
#[verifier::external_body]
fn ordered_uuid_bytes() -> (bytes: [u8; 16])
    ensures
        version_of(bytes@) == 7,
        has_rfc_variant(bytes@),
{
    *uuid::Uuid::now_v7().as_bytes()
}

/// Writes raw bytes, of which there must be sixteen, as Crockford text.
pub fn encode_crockford(bytes: &[u8]) -> (r: Result<String, IdentifierError>)
    ensures
        if bytes@.len() == 16 {
            r matches Ok(text) && text@ == encoding_of(bytes@)
        } else {
            r == Err::<String, IdentifierError>(
                IdentifierError::WrongByteCount(bytes@.len() as usize),
            )
        },
{
    if bytes.len() != 16 {
        return Err(IdentifierError::WrongByteCount(bytes.len()));
    }
    let array = sixteen(bytes);
    Ok(encode_bytes_to_crockford(&array))
}

impl CrockfordUUID {
    /// Makes an identifier from text, from sixteen raw bytes, or from the
    /// bytes of another UUID value.
    pub fn new(value: Source<'_>) -> (r: Result<CrockfordUUID, IdentifierError>)
        requires
            value matches Source::Text(text) ==> text.len() <= usize::MAX / 8,
        ensures
            match value {
                Source::Text(text) => match decoding_of(text@) {
                    Decoding::Bytes(bytes) => r matches Ok(id) && id@ == bytes,
                    Decoding::WrongLength(len) => r == Err::<CrockfordUUID, IdentifierError>(
                        IdentifierError::Codec(CrockfordError::InvalidLength(len as usize)),
                    ),
                    Decoding::Malformed => r == Err::<CrockfordUUID, IdentifierError>(
                        IdentifierError::Codec(CrockfordError::DecodeError(failure_report(text@))),
                    ),
                },
                Source::Bytes(bytes) => if bytes@.len() == 16 {
                    r matches Ok(id) && id@ == bytes@
                } else {
                    r == Err::<CrockfordUUID, IdentifierError>(
                        IdentifierError::WrongByteCount(bytes@.len() as usize),
                    )
                },
                Source::Uuid(bytes) => r matches Ok(id) && id@ == bytes@,
                Source::Unrecognized => r == Err::<CrockfordUUID, IdentifierError>(
                    IdentifierError::UnsupportedInputType,
                ),
            },
    {
        match value {
            Source::Text(text) => {
                match decode_crockford_to_bytes(text) {
                    Ok(bytes) => Ok(CrockfordUUID { bytes }),
                    Err(error) => Err(IdentifierError::Codec(error)),
                }
            },
            Source::Bytes(slice) => {
                if slice.len() != 16 {
                    return Err(IdentifierError::WrongByteCount(slice.len()));
                }
                Ok(CrockfordUUID { bytes: sixteen(slice) })
            },
            Source::Uuid(bytes) => Ok(CrockfordUUID { bytes }),
            Source::Unrecognized => Err(IdentifierError::UnsupportedInputType),
        }
    }

    /// A new random identifier, laid out as a version 4 UUID.
    pub fn generate_v4() -> (id: CrockfordUUID)
        ensures
            version_of(id@) == 4,
            has_rfc_variant(id@),
    {
        CrockfordUUID { bytes: random_uuid_bytes() }
    }

    /// A new identifier that begins with the time of the call, laid out as
    /// a version 7 UUID.
    pub fn generate_v7() -> (id: CrockfordUUID)
        ensures
            version_of(id@) == 7,
            has_rfc_variant(id@),
    {
        CrockfordUUID { bytes: ordered_uuid_bytes() }
    }

    /// A copy of the sixteen bytes.
    pub fn bytes(&self) -> (bytes: [u8; 16])
        ensures
            bytes@ == self@,
    {
        self.bytes
    }

    /// The canonical text of the identifier.
    pub fn to_string(&self) -> (text: String)
        ensures
            text@ == encoding_of(self@),
    {
        encode_bytes_to_crockford(&self.bytes)
    }

    /// The canonical text of the identifier, tagged with the type's name.
    pub fn repr(&self) -> (text: String)
        ensures
            text@ == "CrockfordUUID('"@ + encoding_of(self@) + "')"@,
    {
        let mut text = String::from_str("CrockfordUUID('");
        text.append(encode_bytes_to_crockford(&self.bytes).as_str());
        text.append("')");
        text
    }

    /// A hash of the bytes: equal identifiers have equal hashes.
    pub fn hash_value(&self) -> (hash: u64)
        ensures
            hash == hash_of(self@),
    {
        let mut hasher = DefaultHasher::new();
        hasher.write(self.bytes.as_slice());
        assert(hasher@ =~= seq![self@]);
        hasher.finish()
    }

    /// Answers a comparison of two identifiers: equality and inequality go
    /// by the bytes, and there is no order to ask for.
    pub fn compare(&self, other: &CrockfordUUID, op: CompareOp) -> (answer: Option<bool>)
        ensures
            answer == match op {
                CompareOp::Eq => Some(self@ == other@),
                CompareOp::Ne => Some(self@ != other@),
                _ => None,
            },
    {
        proof {
            lemma_bytes_decide_equality(*self, *other);
        }
        match op {
            CompareOp::Eq => Some(*self == *other),
            CompareOp::Ne => Some(*self != *other),
            _ => None,
        }
    }
}

/// Identifiers with the same bytes, however each was made, are equal and
/// have the same hash; identifiers with different bytes are different.
pub proof fn lemma_bytes_decide_equality(a: CrockfordUUID, b: CrockfordUUID)
    ensures
        a@.len() == 16,
        a == b <==> a@ == b@,
        a == b ==> hash_of(a@) == hash_of(b@),
{
    if a@ == b@ {
        assert(a.bytes@ =~= b.bytes@);
        assert(a.bytes == b.bytes);
    }
}

} // verus!
