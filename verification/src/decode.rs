//! Reading the protocol's own values (predicates, signatures, solution sets)
//! out of the blobs that storage hands back.
use crate::values::{ContractBlobs, ValuesError};
use vstd::prelude::*;

verus! {

/// A predicate of the protocol.
#[verifier::external_type_specification]
#[verifier::external_body]
pub struct ExPredicate(essential_types::predicate::Predicate);

/// A signature of the protocol.
#[verifier::external_type_specification]
#[verifier::external_body]
pub struct ExSignature(essential_types::Signature);

/// A set of solutions of the protocol.
#[verifier::external_type_specification]
#[verifier::external_body]
pub struct ExSolutionSet(essential_types::SolutionSet);

/// A contract of the protocol with its signature.
#[verifier::external_type_specification]
#[verifier::external_body]
pub struct ExSignedContract(essential_types::contract::SignedContract);

/// What `postcard::from_bytes::<Predicate>` gives for these bytes, if it
/// accepts them.
pub uninterp spec fn predicate_of(bytes: Seq<u8>) -> Option<essential_types::predicate::Predicate>;

/// What `postcard::from_bytes::<Signature>` gives for these bytes, if it
/// accepts them.
pub uninterp spec fn signature_of(bytes: Seq<u8>) -> Option<essential_types::Signature>;

/// What `postcard::from_bytes::<SolutionSet>` gives for these bytes, if it
/// accepts them.
pub uninterp spec fn solution_set_of(bytes: Seq<u8>) -> Option<essential_types::SolutionSet>;

/// Whether the bytes hold a predicate.
pub open spec fn predicate_decodes(bytes: Seq<u8>) -> bool {
    predicate_of(bytes) is Some
}

/// Whether the bytes hold a signature.
pub open spec fn signature_decodes(bytes: Seq<u8>) -> bool {
    signature_of(bytes) is Some
}

/// Whether the bytes hold a solution set.
pub open spec fn solution_set_decodes(bytes: Seq<u8>) -> bool {
    solution_set_of(bytes) is Some
}

/// `postcard::from_bytes::<Predicate>`.
///
/// Trusted: what decoding gives depends on the bytes alone, and is named
/// [`predicate_of`].
#[verifier::external_body]
fn postcard_predicate(bytes: &Vec<u8>) -> (r: Option<essential_types::predicate::Predicate>)
    ensures
        r == predicate_of(bytes@),
{
    postcard::from_bytes(bytes).ok()
}

/// `postcard::from_bytes::<Signature>`.
///
/// Trusted: what decoding gives depends on the bytes alone, and is named
/// [`signature_of`].
#[verifier::external_body]
fn postcard_signature(bytes: &Vec<u8>) -> (r: Option<essential_types::Signature>)
    ensures
        r == signature_of(bytes@),
{
    postcard::from_bytes(bytes).ok()
}

/// `postcard::from_bytes::<SolutionSet>`.
///
/// Trusted: what decoding gives depends on the bytes alone, and is named
/// [`solution_set_of`].
#[verifier::external_body]
fn postcard_solution_set(bytes: &Vec<u8>) -> (r: Option<essential_types::SolutionSet>)
    ensures
        r == solution_set_of(bytes@),
{
    postcard::from_bytes(bytes).ok()
}

/// Whether every blob holds a predicate.
pub open spec fn all_predicates(blobs: Seq<Vec<u8>>) -> bool {
    forall|i: int| 0 <= i < blobs.len() ==> predicate_decodes(#[trigger] blobs[i]@)
}

/// Whether every blob holds a solution set.
pub open spec fn all_solution_sets(blobs: Seq<Vec<u8>>) -> bool {
    forall|i: int| 0 <= i < blobs.len() ==> solution_set_decodes(#[trigger] blobs[i]@)
}

/// Decodes a predicate; `InvalidBlob` where the bytes hold none.
pub fn decode_predicate(bytes: &Vec<u8>) -> (r: Result<essential_types::predicate::Predicate, ValuesError>)
    ensures
        r is Ok <==> predicate_decodes(bytes@),
        r matches Ok(p) ==> predicate_of(bytes@) == Some(p),
        r is Err ==> r == Err::<essential_types::predicate::Predicate, ValuesError>(ValuesError::InvalidBlob),
{
    match postcard_predicate(bytes) {
        Some(p) => Ok(p),
        None => Err(ValuesError::InvalidBlob),
    }
}

/// Decodes a signature; `InvalidBlob` where the bytes hold none.
pub fn decode_signature(bytes: &Vec<u8>) -> (r: Result<essential_types::Signature, ValuesError>)
    ensures
        r is Ok <==> signature_decodes(bytes@),
        r matches Ok(g) ==> signature_of(bytes@) == Some(g),
        r is Err ==> r == Err::<essential_types::Signature, ValuesError>(ValuesError::InvalidBlob),
{
    match postcard_signature(bytes) {
        Some(s) => Ok(s),
        None => Err(ValuesError::InvalidBlob),
    }
}

/// Decodes a solution set; `InvalidBlob` where the bytes hold none.
pub fn decode_solution_set(bytes: &Vec<u8>) -> (r: Result<essential_types::SolutionSet, ValuesError>)
    ensures
        r is Ok <==> solution_set_decodes(bytes@),
        r matches Ok(t) ==> solution_set_of(bytes@) == Some(t),
        r is Err ==> r == Err::<essential_types::SolutionSet, ValuesError>(ValuesError::InvalidBlob),
{
    match postcard_solution_set(bytes) {
        Some(s) => Ok(s),
        None => Err(ValuesError::InvalidBlob),
    }
}

/// Decodes predicates, one per blob, in order; `InvalidBlob` where one of
/// them holds none.
pub fn decode_predicates(blobs: &Vec<Vec<u8>>) -> (r: Result<
    Vec<essential_types::predicate::Predicate>,
    ValuesError,
>)
    ensures
        r is Ok <==> all_predicates(blobs@),
        match r {
            Ok(ps) => ps@.len() == blobs@.len() && forall|j: int|
                0 <= j < blobs@.len() ==> predicate_of(#[trigger] blobs@[j]@) == Some(ps@[j]),
            Err(e) => e == ValuesError::InvalidBlob,
        },
{
    let mut out: Vec<essential_types::predicate::Predicate> = Vec::new();
    let mut i: usize = 0;
    while i < blobs.len()
        invariant
            i <= blobs@.len(),
            out@.len() == i,
            forall|j: int| 0 <= j < i ==> predicate_of(#[trigger] blobs@[j]@) == Some(out@[j]),
            forall|j: int| 0 <= j < i ==> predicate_decodes(#[trigger] blobs@[j]@),
        decreases blobs@.len() - i,
    {
        match decode_predicate(&blobs[i]) {
            Ok(p) => out.push(p),
            Err(e) => {
                return Err(e);
            },
        }
        i = i + 1;
    }
    Ok(out)
}

/// Decodes solution sets, one per blob, in order; `InvalidBlob` where one of
/// them holds none.
pub fn decode_solution_sets(blobs: &Vec<Vec<u8>>) -> (r: Result<
    Vec<essential_types::SolutionSet>,
    ValuesError,
>)
    ensures
        r is Ok <==> all_solution_sets(blobs@),
        match r {
            Ok(ss) => ss@.len() == blobs@.len() && forall|j: int|
                0 <= j < blobs@.len() ==> solution_set_of(#[trigger] blobs@[j]@) == Some(ss@[j]),
            Err(e) => e == ValuesError::InvalidBlob,
        },
{
    let mut out: Vec<essential_types::SolutionSet> = Vec::new();
    let mut i: usize = 0;
    while i < blobs.len()
        invariant
            i <= blobs@.len(),
            out@.len() == i,
            forall|j: int| 0 <= j < i ==> solution_set_of(#[trigger] blobs@[j]@) == Some(out@[j]),
            forall|j: int| 0 <= j < i ==> solution_set_decodes(#[trigger] blobs@[j]@),
        decreases blobs@.len() - i,
    {
        match decode_solution_set(&blobs[i]) {
            Ok(s) => out.push(s),
            Err(e) => {
                return Err(e);
            },
        }
        i = i + 1;
    }
    Ok(out)
}


/// Decodes a signed contract as stored: its signature and its predicates, in
/// order; `InvalidBlob` where the signature or a predicate does not decode.
pub fn decode_contract(blobs: &ContractBlobs) -> (r: Result<
    (essential_types::Signature, Vec<essential_types::predicate::Predicate>),
    ValuesError,
>)
    ensures
        r is Ok <==> signature_decodes(blobs.signature@) && all_predicates(blobs.predicates@),
        match r {
            Ok((g, ps)) => signature_of(blobs.signature@) == Some(g) && ps@.len()
                == blobs.predicates@.len() && forall|j: int|
                0 <= j < blobs.predicates@.len() ==> predicate_of(#[trigger] blobs.predicates@[j]@)
                    == Some(ps@[j]),
            Err(e) => e == ValuesError::InvalidBlob,
        },
{
    let signature = decode_signature(&blobs.signature)?;
    let predicates = decode_predicates(&blobs.predicates)?;
    Ok((signature, predicates))
}

} // verus!
