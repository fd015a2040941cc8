//! The content addresses, hashes and stored bytes of the protocol's values:
//! predicates, signatures and solution sets.
use crate::contract::{contract_addr_of, contract_address, stored_views, StoredPredicate};
use vstd::prelude::*;

verus! {

/// What `essential_hash::content_addr` gives for a predicate.
pub uninterp spec fn predicate_addr_of(p: essential_types::predicate::Predicate) -> Seq<u8>;

/// What `postcard::to_allocvec` gives for a predicate.
pub uninterp spec fn predicate_bytes_of(p: essential_types::predicate::Predicate) -> Seq<u8>;

/// What `postcard::to_allocvec` gives for a signature.
pub uninterp spec fn signature_bytes_of(s: essential_types::Signature) -> Seq<u8>;

/// What `postcard::to_allocvec` gives for a solution set.
pub uninterp spec fn solution_set_bytes_of(s: essential_types::SolutionSet) -> Seq<u8>;

/// What `essential_hash::hash` gives for a solution set.
pub uninterp spec fn solution_set_hash_of(s: essential_types::SolutionSet) -> Seq<u8>;

/// What `essential_hash::content_addr` gives for a solution set.
pub uninterp spec fn solution_set_addr_of(s: essential_types::SolutionSet) -> Seq<u8>;

/// `essential_hash::content_addr` on a predicate.
///
/// Trusted: the address is a SHA-256 hash of the predicate's encoding, so it
/// depends on the predicate alone; it is named [`predicate_addr_of`].
#[verifier::external_body]
fn predicate_content_addr(p: &essential_types::predicate::Predicate) -> (r: [u8; 32])
    ensures
        r@ == predicate_addr_of(*p),
{
    essential_hash::content_addr(p).0
}

/// `essential_hash::serialize`: the postcard encoding of a predicate.
///
/// Trusted: the encoding depends on the predicate alone and is named
/// [`predicate_bytes_of`]; `essential_hash` documents that postcard's serializer never
/// fails on the protocol's types.
#[verifier::external_body]
fn encode_predicate(p: &essential_types::predicate::Predicate) -> (r: Vec<u8>)
    ensures
        r@ == predicate_bytes_of(*p),
{
    essential_hash::serialize(p)
}

/// `essential_hash::serialize`: the postcard encoding of a signature.
///
/// Trusted: the encoding depends on the signature alone and is named
/// [`signature_bytes_of`]; `essential_hash` documents that postcard's serializer never
/// fails on the protocol's types.
#[verifier::external_body]
pub(crate) fn encode_signature(s: &essential_types::Signature) -> (r: Vec<u8>)
    ensures
        r@ == signature_bytes_of(*s),
{
    essential_hash::serialize(s)
}

/// `essential_hash::serialize`: the postcard encoding of a set.
///
/// Trusted: the encoding depends on the set alone and is named
/// [`solution_set_bytes_of`]; `essential_hash` documents that postcard's serializer never
/// fails on the protocol's types.
#[verifier::external_body]
pub(crate) fn encode_solution_set(s: &essential_types::SolutionSet) -> (r: Vec<u8>)
    ensures
        r@ == solution_set_bytes_of(*s),
{
    essential_hash::serialize(s)
}

/// `essential_hash::hash` on a solution set.
///
/// Trusted: the hash is SHA-256 of the set's encoding, so it depends on the
/// set alone; it is named [`solution_set_hash_of`].
#[verifier::external_body]
pub(crate) fn hash_solution_set(s: &essential_types::SolutionSet) -> (r: [u8; 32])
    ensures
        r@ == solution_set_hash_of(*s),
{
    essential_hash::hash(s)
}

/// `essential_hash::content_addr` on a solution set.
///
/// Trusted: the address is a hash of the sorted addresses of the set's
/// solutions, so it depends on the set alone; it is named
/// [`solution_set_addr_of`].
#[verifier::external_body]
fn solution_set_content_addr(s: &essential_types::SolutionSet) -> (r: [u8; 32])
    ensures
        r@ == solution_set_addr_of(*s),
{
    essential_hash::content_addr(s).0
}

/// The stored form of predicates, in order: each predicate's address and
/// encoding.
pub open spec fn spec_stored_of(ps: Seq<essential_types::predicate::Predicate>) -> Seq<
    (Seq<u8>, Seq<u8>),
> {
    ps.map_values(|p: essential_types::predicate::Predicate| (predicate_addr_of(p), predicate_bytes_of(p)))
}

/// Each predicate, in order, under its content address, encoded for
/// storage.
pub fn stored_predicates(predicates: &Vec<essential_types::predicate::Predicate>) -> (r: Vec<StoredPredicate>)
    ensures
        stored_views(r@) == spec_stored_of(predicates@),
{
    let mut out: Vec<StoredPredicate> = Vec::new();
    let mut i: usize = 0;
    while i < predicates.len()
        invariant
            i <= predicates@.len(),
            stored_views(out@) == spec_stored_of(predicates@).take(i as int),
        decreases predicates@.len() - i,
    {
        let p = &predicates[i];
        let addr = predicate_content_addr(p);
        let bytes = encode_predicate(p);
        let ghost before = out@;
        out.push((addr, bytes));
        assert(out@ =~= before.push((addr, bytes)));
        assert(stored_views(out@) =~= stored_views(before).push(
            (predicate_addr_of(predicates@[i as int]), predicate_bytes_of(predicates@[i as int])),
        ));
        assert(spec_stored_of(predicates@).take(i + 1) =~= spec_stored_of(predicates@).take(
            i as int,
        ).push(spec_stored_of(predicates@)[i as int]));
        i = i + 1;
    }
    assert(spec_stored_of(predicates@).take(i as int) =~= spec_stored_of(predicates@));
    out
}

/// The content address of a contract with salt `salt` and these predicates:
/// the contract address of their content addresses, in order, and the salt.
pub fn contract_content_address(salt: &[u8; 32], predicates: &Vec<essential_types::predicate::Predicate>) -> (r: [u8; 32])
    ensures
        r@ == contract_addr_of(
            predicates@.map_values(|p: essential_types::predicate::Predicate| predicate_addr_of(p)),
            salt@,
        ),
{
    let mut addrs: Vec<[u8; 32]> = Vec::new();
    let mut i: usize = 0;
    while i < predicates.len()
        invariant
            i <= predicates@.len(),
            addrs@.len() == i,
            forall|k: int| 0 <= k < i ==> (#[trigger] addrs@[k])@ == predicate_addr_of(predicates@[k]),
        decreases predicates@.len() - i,
    {
        let a = predicate_content_addr(&predicates[i]);
        addrs.push(a);
        i = i + 1;
    }
    assert(addrs@.map_values(|a: [u8; 32]| a@) =~= predicates@.map_values(
        |p: essential_types::predicate::Predicate| predicate_addr_of(p),
    ));
    contract_address(&addrs, salt)
}

/// The content address of a solution set.
pub fn solution_set_address(set: &essential_types::SolutionSet) -> (r: [u8; 32])
    ensures
        r@ == solution_set_addr_of(*set),
{
    solution_set_content_addr(set)
}

/// The hashes of solution sets, in order.
pub fn solution_set_hashes(sets: &Vec<essential_types::SolutionSet>) -> (r: Vec<[u8; 32]>)
    ensures
        r@.len() == sets@.len(),
        forall|i: int| 0 <= i < sets@.len() ==> (#[trigger] r@[i])@ == solution_set_hash_of(sets@[i]),
{
    let mut out: Vec<[u8; 32]> = Vec::new();
    let mut i: usize = 0;
    while i < sets.len()
        invariant
            i <= sets@.len(),
            out@.len() == i,
            forall|k: int| 0 <= k < i ==> (#[trigger] out@[k])@ == solution_set_hash_of(sets@[k]),
        decreases sets@.len() - i,
    {
        out.push(hash_solution_set(&sets[i]));
        i = i + 1;
    }
    out
}

/// Failed solution sets by their hashes, in order, each with its reason.
pub fn failed_hashes<R>(failed: Vec<(essential_types::SolutionSet, R)>) -> (r: Vec<([u8; 32], R)>)
    ensures
        r@.len() == failed@.len(),
        forall|i: int|
            0 <= i < failed@.len() ==> {
                &&& (#[trigger] r@[i]).0@ == solution_set_hash_of(failed@[i].0)
                &&& r@[i].1 == failed@[i].1
            },
{
    let ghost all = failed@;
    let mut rest = failed;
    let n = rest.len();
    let mut out: Vec<([u8; 32], R)> = Vec::new();
    let mut i: usize = 0;
    while i < n
        invariant
            n == all.len(),
            i <= n,
            rest@ =~= all.skip(i as int),
            out@.len() == i,
            forall|k: int|
                0 <= k < i ==> {
                    &&& (#[trigger] out@[k]).0@ == solution_set_hash_of(all[k].0)
                    &&& out@[k].1 == all[k].1
                },
        decreases n - i,
    {
        let (set, reason) = rest.remove(0);
        assert((set, reason) == all[i as int]);
        let h = hash_solution_set(&set);
        out.push((h, reason));
        i = i + 1;
    }
    out
}

} // verus!
