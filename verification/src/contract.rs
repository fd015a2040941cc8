//! Putting a contract's predicates in the order in which they are stored, and
//! the contract's content address.
use crate::solution::{addr_view, PredicateAddress};
use vstd::prelude::*;

verus! {

/// What `essential_check::predicate::check_signed_contract` finds of a signed
/// contract: `Ok`, or the text of what is wrong with it.
pub uninterp spec fn check_signed_contract_of(c: essential_types::contract::SignedContract) -> Result<(), Seq<char>>;

/// `essential_check::predicate::check_signed_contract`, with its error as
/// text.
///
/// Trusted: the check (the signature over the contract's address, the number
/// and size of its predicates) depends on the signed contract alone, and its
/// outcome is named [`check_signed_contract_of`].
#[verifier::external_body]
fn check_signed_contract_text(c: &essential_types::contract::SignedContract) -> (r: Result<(), String>)
    ensures
        match r {
            Ok(()) => check_signed_contract_of(*c) == Ok::<(), Seq<char>>(()),
            Err(m) => check_signed_contract_of(*c) == Err::<(), Seq<char>>(m@),
        },
{
    match essential_check::predicate::check_signed_contract(c) {
        Ok(()) => Ok(()),
        Err(e) => Err(e.to_string()),
    }
}

/// Checks a signed contract before it is stored: `Ok` exactly where the
/// protocol's check accepts its signature and predicates, else the text of
/// the check's error.
pub fn check_contract(c: &essential_types::contract::SignedContract) -> (r: Result<(), String>)
    ensures
        match r {
            Ok(()) => check_signed_contract_of(*c) is Ok,
            Err(m) => check_signed_contract_of(*c) == Err::<(), Seq<char>>(m@),
        },
{
    check_signed_contract_text(c)
}

/// Whether content address `a` comes before or equals `b`, byte by byte.
pub open spec fn addr_le(a: Seq<u8>, b: Seq<u8>) -> bool
    decreases a.len(),
{
    if a.len() == 0 || b.len() == 0 {
        true
    } else if a[0] != b[0] {
        a[0] < b[0]
    } else {
        addr_le(a.drop_first(), b.drop_first())
    }
}

/// The order of addresses is lexicographic from the first byte: of two
/// addresses of one length that differ, the one with the smaller byte at the
/// first index where they differ comes first, whatever follows.
pub proof fn lemma_addr_le_first_difference(a: Seq<u8>, b: Seq<u8>, i: int)
    requires
        a.len() == b.len(),
        0 <= i < a.len(),
        a[i] != b[i],
        forall|j: int| 0 <= j < i ==> a[j] == b[j],
    ensures
        addr_le(a, b) == (a[i] < b[i]),
    decreases i,
{
    if i > 0 {
        assert(a[0] == b[0]);
        assert forall|j: int| 0 <= j < i - 1 implies a.drop_first()[j] == b.drop_first()[j] by {
            assert(a[j + 1] == b[j + 1]);
        }
        lemma_addr_le_first_difference(a.drop_first(), b.drop_first(), i - 1);
    }
}

/// Every address comes before or equals itself.
pub proof fn lemma_addr_le_refl(a: Seq<u8>)
    ensures
        addr_le(a, a),
    decreases a.len(),
{
    if a.len() > 0 {
        lemma_addr_le_refl(a.drop_first());
    }
}

/// Of two addresses, one comes before or equals the other.
pub proof fn lemma_addr_le_total(a: Seq<u8>, b: Seq<u8>)
    ensures
        addr_le(a, b) || addr_le(b, a),
    decreases a.len(),
{
    if a.len() > 0 && b.len() > 0 && a[0] == b[0] {
        lemma_addr_le_total(a.drop_first(), b.drop_first());
    }
}

/// The order of addresses of one length is transitive.
pub proof fn lemma_addr_le_trans(a: Seq<u8>, b: Seq<u8>, c: Seq<u8>)
    requires
        a.len() == b.len(),
        b.len() == c.len(),
        addr_le(a, b),
        addr_le(b, c),
    ensures
        addr_le(a, c),
    decreases a.len(),
{
    if a.len() > 0 && a[0] == b[0] && b[0] == c[0] {
        lemma_addr_le_trans(a.drop_first(), b.drop_first(), c.drop_first());
    }
}

/// Of two addresses of one length that each come before or equal the other,
/// both are the same.
pub proof fn lemma_addr_le_antisym(a: Seq<u8>, b: Seq<u8>)
    requires
        a.len() == b.len(),
        addr_le(a, b),
        addr_le(b, a),
    ensures
        a == b,
    decreases a.len(),
{
    if a.len() > 0 {
        lemma_addr_le_antisym(a.drop_first(), b.drop_first());
        assert(a =~= seq![a[0]] + a.drop_first());
        assert(b =~= seq![b[0]] + b.drop_first());
    } else {
        assert(a =~= b);
    }
}

/// Whether content address `a` comes before or equals `b`, byte by byte.
pub fn address_le(a: &[u8; 32], b: &[u8; 32]) -> (r: bool)
    ensures
        r == addr_le(a@, b@),
{
    let mut i: usize = 0;
    assert(a@.skip(0) =~= a@);
    assert(b@.skip(0) =~= b@);
    while i < 32
        invariant
            i <= 32,
            a@.len() == 32,
            b@.len() == 32,
            addr_le(a@, b@) == addr_le(a@.skip(i as int), b@.skip(i as int)),
        decreases 32 - i,
    {
        assert(a@.skip(i as int)[0] == a@[i as int]);
        assert(b@.skip(i as int)[0] == b@[i as int]);
        if a[i] != b[i] {
            return a[i] < b[i];
        }
        assert(a@.skip(i as int).drop_first() =~= a@.skip(i + 1));
        assert(b@.skip(i as int).drop_first() =~= b@.skip(i + 1));
        i = i + 1;
    }
    true
}

/// A predicate as it is stored: its content address and its encoding.
pub type StoredPredicate = ([u8; 32], Vec<u8>);

/// The view of a stored predicate.
pub open spec fn stored_view(p: StoredPredicate) -> (Seq<u8>, Seq<u8>) {
    (p.0@, p.1@)
}

/// Views of stored predicates.
pub open spec fn stored_views(v: Seq<StoredPredicate>) -> Seq<(Seq<u8>, Seq<u8>)> {
    v.map_values(|p: StoredPredicate| stored_view(p))
}

/// Whether the predicates come in order of their addresses.
pub open spec fn by_address(s: Seq<(Seq<u8>, Seq<u8>)>) -> bool {
    forall|i: int, j: int| 0 <= i < j < s.len() ==> addr_le(#[trigger] s[i].0, #[trigger] s[j].0)
}

/// The predicates whose address is `k`, in order.
pub open spec fn at_address(s: Seq<(Seq<u8>, Seq<u8>)>, k: Seq<u8>) -> Seq<(Seq<u8>, Seq<u8>)>
    decreases s.len(),
{
    if s.len() == 0 {
        Seq::empty()
    } else {
        let prev = at_address(s.drop_last(), k);
        if s.last().0 == k {
            prev.push(s.last())
        } else {
            prev
        }
    }
}

proof fn lemma_at_address_append(a: Seq<(Seq<u8>, Seq<u8>)>, b: Seq<(Seq<u8>, Seq<u8>)>, k: Seq<u8>)
    ensures
        at_address(a + b, k) == at_address(a, k) + at_address(b, k),
    decreases b.len(),
{
    if b.len() == 0 {
        assert(a + b =~= a);
        assert(at_address(a, k) + at_address(b, k) =~= at_address(a, k));
    } else {
        assert((a + b).drop_last() =~= a + b.drop_last());
        lemma_at_address_append(a, b.drop_last(), k);
        if b.last().0 == k {
            assert(at_address(a, k) + at_address(b, k) =~= (at_address(a, k) + at_address(
                b.drop_last(),
                k,
            )).push(b.last()));
        }
    }
}

proof fn lemma_at_address_none(s: Seq<(Seq<u8>, Seq<u8>)>, k: Seq<u8>)
    requires
        forall|i: int| 0 <= i < s.len() ==> #[trigger] s[i].0 != k,
    ensures
        at_address(s, k) == Seq::<(Seq<u8>, Seq<u8>)>::empty(),
    decreases s.len(),
{
    if s.len() > 0 {
        lemma_at_address_none(s.drop_last(), k);
    }
}

proof fn lemma_at_address_member(s: Seq<(Seq<u8>, Seq<u8>)>, k: Seq<u8>)
    requires
        at_address(s, k).len() > 0,
    ensures
        exists|i: int| 0 <= i < s.len() && #[trigger] s[i].0 == k,
    decreases s.len(),
{
    if s.last().0 != k {
        lemma_at_address_member(s.drop_last(), k);
        let i = choose|i: int| 0 <= i < s.drop_last().len() && #[trigger] s.drop_last()[i].0 == k;
        assert(s[i].0 == k);
    } else {
        assert(s[s.len() - 1].0 == k);
    }
}

/// Whether every address is 32 bytes long.
pub open spec fn full_addresses(s: Seq<(Seq<u8>, Seq<u8>)>) -> bool {
    forall|i: int| 0 <= i < s.len() ==> (#[trigger] s[i]).0.len() == 32
}

/// The order by address, keeping those of one address in the order given, is
/// determined: two sequences of predicates that are ordered by address and
/// have, for every address, the same predicates in the same order, are the
/// same.
pub proof fn lemma_order_determined(a: Seq<(Seq<u8>, Seq<u8>)>, b: Seq<(Seq<u8>, Seq<u8>)>)
    requires
        full_addresses(a),
        full_addresses(b),
        by_address(a),
        by_address(b),
        forall|k: Seq<u8>| #[trigger] at_address(a, k) == at_address(b, k),
    ensures
        a == b,
    decreases a.len() + b.len(),
{
    if a.len() == 0 && b.len() == 0 {
        assert(a =~= b);
    } else if a.len() == 0 {
        assert(at_address(b, b.last().0).len() > 0);
        assert(at_address(a, b.last().0).len() == 0);
    } else if b.len() == 0 {
        assert(at_address(a, a.last().0).len() > 0);
        assert(at_address(b, a.last().0).len() == 0);
    } else {
        let x = a.last();
        let y = b.last();
        assert(at_address(a, x.0).len() > 0);
        lemma_at_address_member(b, x.0);
        let i = choose|i: int| 0 <= i < b.len() && #[trigger] b[i].0 == x.0;
        if i < b.len() - 1 {
            assert(addr_le(b[i].0, b[b.len() - 1].0));
        } else {
            lemma_addr_le_total(y.0, y.0);
        }
        assert(at_address(b, y.0).len() > 0);
        lemma_at_address_member(a, y.0);
        let j = choose|j: int| 0 <= j < a.len() && #[trigger] a[j].0 == y.0;
        if j < a.len() - 1 {
            assert(addr_le(a[j].0, a[a.len() - 1].0));
        } else {
            lemma_addr_le_total(x.0, x.0);
        }
        assert(a[a.len() - 1].0.len() == 32);
        assert(b[b.len() - 1].0.len() == 32);
        lemma_addr_le_antisym(x.0, y.0);
        assert(at_address(a, x.0) == at_address(a.drop_last(), x.0).push(x));
        assert(at_address(b, x.0) == at_address(b.drop_last(), x.0).push(y));
        assert(x == at_address(a, x.0).last());
        assert(y == at_address(b, x.0).last());
        assert forall|k: Seq<u8>| #[trigger] at_address(a.drop_last(), k) == at_address(
            b.drop_last(),
            k,
        ) by {
            if k == x.0 {
                assert(at_address(a.drop_last(), k) =~= at_address(a, k).drop_last());
                assert(at_address(b.drop_last(), k) =~= at_address(b, k).drop_last());
            } else {
                assert(at_address(a, k) == at_address(a.drop_last(), k));
                assert(at_address(b, k) == at_address(b.drop_last(), k));
            }
        }
        assert forall|p: int| 0 <= p < a.drop_last().len() implies (#[trigger] a.drop_last()[p]).0.len()
            == 32 by {
            assert(a.drop_last()[p] == a[p]);
        }
        assert forall|p: int| 0 <= p < b.drop_last().len() implies (#[trigger] b.drop_last()[p]).0.len()
            == 32 by {
            assert(b.drop_last()[p] == b[p]);
        }
        assert forall|p: int, q: int| 0 <= p < q < a.drop_last().len() implies addr_le(
            #[trigger] a.drop_last()[p].0,
            #[trigger] a.drop_last()[q].0,
        ) by {
            assert(a.drop_last()[p] == a[p]);
            assert(a.drop_last()[q] == a[q]);
        }
        assert forall|p: int, q: int| 0 <= p < q < b.drop_last().len() implies addr_le(
            #[trigger] b.drop_last()[p].0,
            #[trigger] b.drop_last()[q].0,
        ) by {
            assert(b.drop_last()[p] == b[p]);
            assert(b.drop_last()[q] == b[q]);
        }
        lemma_order_determined(a.drop_last(), b.drop_last());
        assert(a =~= a.drop_last().push(x));
        assert(b =~= b.drop_last().push(y));
    }
}

/// Puts the predicates in order of their addresses, keeping those of one
/// address in the order given: the predicates come out ordered by address,
/// and for every address the predicates with it are those given, in the
/// order given.
pub fn sort_by_address(predicates: Vec<StoredPredicate>) -> (r: Vec<StoredPredicate>)
    ensures
        by_address(stored_views(r@)),
        full_addresses(stored_views(r@)),
        forall|k: Seq<u8>| #[trigger] at_address(stored_views(r@), k) == at_address(
            stored_views(predicates@),
            k,
        ),
{
    let ghost all = stored_views(predicates@);
    let mut rest = predicates;
    let n = rest.len();
    let mut out: Vec<StoredPredicate> = Vec::new();
    let mut i: usize = 0;
    assert(all.take(0) =~= Seq::<(Seq<u8>, Seq<u8>)>::empty());
    assert(stored_views(out@) =~= Seq::<(Seq<u8>, Seq<u8>)>::empty());
    while i < n
        invariant
            n == all.len(),
            i <= n,
            rest@.len() == n - i,
            forall|k: int| 0 <= k < n - i ==> stored_view(#[trigger] rest@[k]) == all[k + i],
            by_address(stored_views(out@)),
            forall|k: int| 0 <= k < out@.len() ==> (#[trigger] stored_views(out@)[k]).0.len() == 32,
            forall|k: Seq<u8>| #[trigger] at_address(stored_views(out@), k) == at_address(
                all.take(i as int),
                k,
            ),
        decreases n - i,
    {
        let ghost before = rest@;
        let x = rest.remove(0);
        assert(stored_view(x) == all[i as int]);
        assert forall|k: int| 0 <= k < n - (i + 1) implies stored_view(#[trigger] rest@[k]) == all[k
            + i + 1] by {
            assert(rest@[k] == before[k + 1]);
        }
        let ghost ov = stored_views(out@);
        let ghost xv = stored_view(x);
        let mut j: usize = 0;
        while j < out.len() && address_le(&out[j].0, &x.0)
            invariant
                j <= out@.len(),
                ov == stored_views(out@),
                xv == stored_view(x),
                forall|k: int| 0 <= k < j ==> addr_le(#[trigger] ov[k].0, xv.0),
            decreases out@.len() - j,
        {
            j = j + 1;
        }
        proof {
            assert(xv.0.len() == 32);
            assert forall|k: int| j <= k < ov.len() implies !addr_le(#[trigger] ov[k].0, xv.0) by {
                assert(!addr_le(ov[j as int].0, xv.0));
                if k > j && addr_le(ov[k].0, xv.0) {
                    assert(addr_le(ov[j as int].0, ov[k].0));
                    lemma_addr_le_trans(ov[j as int].0, ov[k].0, xv.0);
                }
            }
            assert forall|k: int| j <= k < ov.len() implies addr_le(xv.0, #[trigger] ov[k].0) by {
                lemma_addr_le_total(xv.0, ov[k].0);
            }
        }
        out.insert(j, x);
        proof {
            let nv = stored_views(out@);
            assert(nv =~= ov.insert(j as int, xv));
            assert forall|p: int, q: int| 0 <= p < q < nv.len() implies addr_le(
                #[trigger] nv[p].0,
                #[trigger] nv[q].0,
            ) by {
                if q < j {
                } else if q == j {
                } else if p < j {
                    assert(nv[q] == ov[q - 1]);
                    lemma_addr_le_trans(nv[p].0, xv.0, nv[q].0);
                } else if p == j {
                    assert(nv[q] == ov[q - 1]);
                } else {
                    assert(nv[p] == ov[p - 1]);
                    assert(nv[q] == ov[q - 1]);
                }
            }
            assert forall|k: int| 0 <= k < nv.len() implies (#[trigger] nv[k]).0.len() == 32 by {
                if k > j {
                    assert(nv[k] == ov[k - 1]);
                }
            }
            let one = seq![xv];
            let front = ov.take(j as int);
            let back = ov.skip(j as int);
            assert(nv =~= front + one + back);
            assert(ov =~= front + back);
            assert(all.take(i + 1).drop_last() =~= all.take(i as int));
            assert(all.take(i + 1).last() == xv);
            assert(one.drop_last() =~= Seq::<(Seq<u8>, Seq<u8>)>::empty());
            assert(one.last() == xv);
            assert forall|k: Seq<u8>| #[trigger] at_address(nv, k) == at_address(
                all.take(i + 1),
                k,
            ) by {
                lemma_at_address_append(front + one, back, k);
                lemma_at_address_append(front, one, k);
                lemma_at_address_append(front, back, k);
                assert(at_address(one.drop_last(), k) =~= Seq::<(Seq<u8>, Seq<u8>)>::empty());
                if k == xv.0 {
                    assert forall|m: int| 0 <= m < back.len() implies #[trigger] back[m].0 != k by {
                        assert(back[m] == ov[m + j]);
                        assert(!addr_le(ov[m + j].0, xv.0));
                        if ov[m + j].0 == xv.0 {
                            lemma_addr_le_total(xv.0, xv.0);
                        }
                    }
                    lemma_at_address_none(back, k);
                    assert(at_address(one, k) =~= seq![xv]);
                    assert(at_address(front, k) + at_address(one, k) + at_address(back, k)
                        =~= at_address(front, k).push(xv));
                } else {
                    assert(at_address(one, k) =~= Seq::<(Seq<u8>, Seq<u8>)>::empty());
                    assert(at_address(front, k) + at_address(one, k) + at_address(back, k)
                        =~= at_address(front, k) + at_address(back, k));
                }
            }
        }
        i = i + 1;
    }
    assert(all.take(n as int) =~= all);
    out
}

/// The content address of a contract whose predicates have the addresses
/// `predicate_addrs` and whose salt is `salt`, as
/// `essential_hash::contract_addr::from_predicate_addrs_slice` gives it.
pub uninterp spec fn contract_addr_of(predicate_addrs: Seq<Seq<u8>>, salt: Seq<u8>) -> Seq<u8>;

/// The addresses of stored predicates, in order.
pub open spec fn addresses_of(s: Seq<(Seq<u8>, Seq<u8>)>) -> Seq<Seq<u8>> {
    s.map_values(|p: (Seq<u8>, Seq<u8>)| p.0)
}

/// `essential_hash::contract_addr::from_predicate_addrs_slice`.
///
/// Trusted: the address is a SHA-256 hash of the predicate addresses and the
/// salt, and so depends on them alone; it is named [`contract_addr_of`].
#[verifier::external_body]
pub(crate) fn contract_address(predicate_addrs: &Vec<[u8; 32]>, salt: &[u8; 32]) -> (r: [u8; 32])
    ensures
        r@ == contract_addr_of(predicate_addrs@.map_values(|a: [u8; 32]| a@), salt@),
{
    let mut addrs: Vec<essential_types::ContentAddress> = predicate_addrs.iter().map(
        |a| essential_types::ContentAddress(*a),
    ).collect();
    essential_hash::contract_addr::from_predicate_addrs_slice(&mut addrs, salt).0
}

/// The content address of a contract: its predicates' addresses, in the
/// order given, with its salt.
pub fn contract_addr(predicates: &Vec<StoredPredicate>, salt: &[u8; 32]) -> (r: [u8; 32])
    ensures
        r@ == contract_addr_of(addresses_of(stored_views(predicates@)), salt@),
{
    let mut addrs: Vec<[u8; 32]> = Vec::new();
    let mut i: usize = 0;
    while i < predicates.len()
        invariant
            i <= predicates@.len(),
            addrs@.len() == i,
            forall|k: int| 0 <= k < i ==> #[trigger] addrs@[k] == predicates@[k].0,
        decreases predicates@.len() - i,
    {
        addrs.push(predicates[i].0);
        i = i + 1;
    }
    assert(addrs@.map_values(|a: [u8; 32]| a@) =~= addresses_of(stored_views(predicates@)));
    contract_address(&addrs, salt)
}


/// A contract as given: its salt and its predicates.
pub type GivenContract = ([u8; 32], Vec<StoredPredicate>);

/// The view of a given contract.
pub open spec fn given_view(c: GivenContract) -> (Seq<u8>, Seq<(Seq<u8>, Seq<u8>)>) {
    (c.0@, stored_views(c.1@))
}

/// The predicates of the contracts, in order, each under its address: the
/// address of its contract and its own.
pub open spec fn spec_contract_predicates(cs: Seq<(Seq<u8>, Seq<(Seq<u8>, Seq<u8>)>)>) -> Seq<
    ((Seq<u8>, Seq<u8>), Seq<u8>),
>
    decreases cs.len(),
{
    if cs.len() == 0 {
        Seq::empty()
    } else {
        let c = cs.last();
        let addr = contract_addr_of(addresses_of(c.1), c.0);
        spec_contract_predicates(cs.drop_last()) + c.1.map_values(
            |p: (Seq<u8>, Seq<u8>)| ((addr, p.0), p.1),
        )
    }
}

/// Views of predicates under their addresses.
pub open spec fn addressed_views(v: Seq<(PredicateAddress, Vec<u8>)>) -> Seq<((Seq<u8>, Seq<u8>), Seq<u8>)> {
    v.map_values(|x: (PredicateAddress, Vec<u8>)| (addr_view(x.0), x.1@))
}

/// The predicates of the given contracts, each under its address, for
/// checking a solution against contracts that are not stored.
pub fn contract_predicates(contracts: Vec<GivenContract>) -> (r: Vec<(PredicateAddress, Vec<u8>)>)
    ensures
        addressed_views(r@) == spec_contract_predicates(contracts@.map_values(|c: GivenContract| given_view(c))),
{
    let ghost all = contracts@.map_values(|c: GivenContract| given_view(c));
    let mut contracts = contracts;
    let n = contracts.len();
    let mut out: Vec<(PredicateAddress, Vec<u8>)> = Vec::new();
    let mut i: usize = 0;
    assert(all.take(0) =~= Seq::<(Seq<u8>, Seq<(Seq<u8>, Seq<u8>)>)>::empty());
    assert(addressed_views(out@) =~= Seq::<((Seq<u8>, Seq<u8>), Seq<u8>)>::empty());
    while i < n
        invariant
            n == all.len(),
            i <= n,
            contracts@.len() == n - i,
            forall|k: int| 0 <= k < n - i ==> given_view(#[trigger] contracts@[k]) == all[k + i],
            addressed_views(out@) == spec_contract_predicates(all.take(i as int)),
        decreases n - i,
    {
        let ghost before = contracts@;
        let (salt, preds) = contracts.remove(0);
        assert(given_view((salt, preds)) == all[i as int]);
        assert forall|k: int| 0 <= k < n - (i + 1) implies given_view(#[trigger] contracts@[k]) == all[k
            + i + 1] by {
            assert(contracts@[k] == before[k + 1]);
        }
        assert(all.take(i + 1).drop_last() =~= all.take(i as int));
        assert(all.take(i + 1).last() == all[i as int]);
        let caddr = contract_addr(&preds, &salt);
        let ghost pv = stored_views(preds@);
        let ghost mv = pv.map_values(|p: (Seq<u8>, Seq<u8>)| ((caddr@, p.0), p.1));
        let ghost prev = addressed_views(out@);
        let mut preds = preds;
        let m = preds.len();
        let mut j: usize = 0;
        while j < m
            invariant
                m == pv.len(),
                j <= m,
                preds@.len() == m - j,
                forall|k: int| 0 <= k < m - j ==> stored_view(#[trigger] preds@[k]) == pv[k + j],
                mv == pv.map_values(|p: (Seq<u8>, Seq<u8>)| ((caddr@, p.0), p.1)),
                addressed_views(out@) == prev + mv.take(j as int),
            decreases m - j,
        {
            let ghost pbefore = preds@;
            let (a, b) = preds.remove(0);
            assert(stored_view((a, b)) == pv[j as int]);
            assert forall|k: int| 0 <= k < m - (j + 1) implies stored_view(#[trigger] preds@[k]) == pv[k
                + j + 1] by {
                assert(preds@[k] == pbefore[k + 1]);
            }
            let ghost o = addressed_views(out@);
            out.push((PredicateAddress { contract: caddr, predicate: a }, b));
            assert(addressed_views(out@) =~= o.push(mv[j as int]));
            assert(mv.take(j + 1) =~= mv.take(j as int).push(mv[j as int]));
            j = j + 1;
        }
        assert(mv.take(m as int) =~= mv);
        i = i + 1;
    }
    assert(all.take(n as int) =~= all);
    out
}

} // verus!
