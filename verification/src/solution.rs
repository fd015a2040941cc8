//! Checks on a solution before its predicates run, and the state updates it
//! proposes.
use crate::blob::{encode_bytes, spec_hex_encode_upper};
use crate::content::{solution_set_bytes_of, solution_set_hash_of};
use crate::sql::{insert_solution_set, spec_insert_solution_into_pool, stmts_view, Statement};
use vstd::prelude::*;

verus! {

/// Address of a predicate: the content address of its contract and its own.
#[derive(Debug, PartialEq, Eq, Clone, Copy)]
pub struct PredicateAddress {
    pub contract: [u8; 32],
    pub predicate: [u8; 32],
}

/// Values that have an empty form, the one that tests start from.
pub trait Empty: Sized {
    /// The empty value.
    fn empty() -> Self;
}

/// A content address of zeros.
pub open spec fn zero_address() -> Seq<u8> {
    Seq::new(32, |i: int| 0u8)
}

impl Empty for PredicateAddress {
    /// The address whose contract and predicate addresses are all zeros.
    fn empty() -> (r: Self)
        ensures
            r.contract@ == zero_address(),
            r.predicate@ == zero_address(),
    {
        let r = PredicateAddress { contract: [0u8; 32], predicate: [0u8; 32] };
        assert(r.contract@ =~= zero_address());
        assert(r.predicate@ =~= zero_address());
        r
    }
}

/// The view of a predicate address.
pub open spec fn addr_view(a: PredicateAddress) -> (Seq<u8>, Seq<u8>) {
    (a.contract@, a.predicate@)
}

/// Why a solution was refused before execution.
#[derive(Debug, PartialEq, Eq)]
pub enum SolutionError {
    /// Some predicate the solution solves was not read from storage.
    MissingPredicate,
}

/// Whether two content addresses are the same.
pub fn same_address(a: &[u8; 32], b: &[u8; 32]) -> (r: bool)
    ensures
        r == (a@ == b@),
{
    let mut i: usize = 0;
    while i < 32
        invariant
            i <= 32,
            a@.len() == 32,
            b@.len() == 32,
            forall|j: int| 0 <= j < i ==> a@[j] == b@[j],
        decreases 32 - i,
    {
        if a[i] != b[i] {
            return false;
        }
        i = i + 1;
    }
    assert(a@ =~= b@);
    true
}

/// Whether `x` is among the addresses.
pub open spec fn spec_has_addr(addrs: Seq<PredicateAddress>, x: PredicateAddress) -> bool {
    exists|k: int| 0 <= k < addrs.len() && addr_view(addrs[k]) == addr_view(x)
}

/// Whether `x` is among the addresses.
fn has_addr(addrs: &Vec<PredicateAddress>, x: &PredicateAddress) -> (r: bool)
    ensures
        r == spec_has_addr(addrs@, *x),
{
    let mut k: usize = 0;
    while k < addrs.len()
        invariant
            k <= addrs@.len(),
            forall|j: int| 0 <= j < k ==> addr_view(addrs@[j]) != addr_view(*x),
        decreases addrs@.len() - k,
    {
        if same_address(&addrs[k].contract, &x.contract) && same_address(
            &addrs[k].predicate,
            &x.predicate,
        ) {
            assert(addr_view(addrs@[k as int]) == addr_view(*x));
            return true;
        }
        k = k + 1;
    }
    false
}

/// Ensure that every predicate the solution solves has been read from the
/// storage: each address in `required` is among those in `available`.
pub fn contains_all_contract(
    required: &Vec<PredicateAddress>,
    available: &Vec<PredicateAddress>,
) -> (r: Result<(), SolutionError>)
    ensures
        r is Ok <==> forall|i: int| 0 <= i < required@.len() ==> spec_has_addr(available@, #[trigger] required@[i]),
        r is Err ==> r == Err::<(), SolutionError>(SolutionError::MissingPredicate),
{
    let mut i: usize = 0;
    while i < required.len()
        invariant
            i <= required@.len(),
            forall|j: int| 0 <= j < i ==> spec_has_addr(available@, #[trigger] required@[j]),
        decreases required@.len() - i,
    {
        if !has_addr(available, &required[i]) {
            return Err(SolutionError::MissingPredicate);
        }
        i = i + 1;
    }
    Ok(())
}

/// Validate what can be validated of a solution's predicates without
/// executing them: all of them were read from storage.
pub fn validate_contract(required: &Vec<PredicateAddress>, available: &Vec<PredicateAddress>) -> (r:
    Result<(), SolutionError>)
    ensures
        r is Ok <==> forall|i: int| 0 <= i < required@.len() ==> spec_has_addr(available@, #[trigger] required@[i]),
        r is Err ==> r == Err::<(), SolutionError>(SolutionError::MissingPredicate),
{
    contains_all_contract(required, available)
}

/// What `essential_check::solution::check_set` finds of a solution set:
/// `Ok`, or the text of what is wrong with it.
pub uninterp spec fn check_set_of(set: essential_types::SolutionSet) -> Result<(), Seq<char>>;

/// `essential_check::solution::check_set`, with its error as text.
///
/// Trusted: the check depends on the set alone (the number of solutions, the
/// size of their data and mutations, and no slot mutated twice), and its
/// outcome is named [`check_set_of`].
#[verifier::external_body]
fn check_set_text(set: &essential_types::SolutionSet) -> (r: Result<(), String>)
    ensures
        match r {
            Ok(()) => check_set_of(*set) == Ok::<(), Seq<char>>(()),
            Err(m) => check_set_of(*set) == Err::<(), Seq<char>>(m@),
        },
{
    match essential_check::solution::check_set(set) {
        Ok(()) => Ok(()),
        Err(e) => Err(e.to_string()),
    }
}

/// Checks the shape of a solution set before any of its predicates is read:
/// `Ok` exactly where the protocol's check accepts it, else the text of the
/// check's error.
pub fn check_solution_set(set: &essential_types::SolutionSet) -> (r: Result<(), String>)
    ensures
        match r {
            Ok(()) => check_set_of(*set) is Ok,
            Err(m) => check_set_of(*set) == Err::<(), Seq<char>>(m@),
        },
{
    check_set_text(set)
}

/// Whether every address in `required` is among those in `available`.
pub open spec fn all_available(required: Seq<PredicateAddress>, available: Seq<PredicateAddress>) -> bool {
    forall|i: int| 0 <= i < required.len() ==> spec_has_addr(available, #[trigger] required[i])
}

/// Why a solution set was refused.
#[derive(Debug, PartialEq, Eq)]
pub enum SubmitError {
    /// The set failed the protocol's check; its text.
    Invalid(String),
    /// Some predicate the set solves is not stored.
    MissingPredicate,
}

/// Decides a submitted solution set: where it passes the protocol's check
/// and every predicate it solves (`required`) is among those stored
/// (`available`), the statements that add it to the pool; otherwise why it
/// is refused, and no statement at all, so the pool stays as it was.
pub fn submission(
    set: &essential_types::SolutionSet,
    required: &Vec<PredicateAddress>,
    available: &Vec<PredicateAddress>,
) -> (r: Result<Vec<Statement>, SubmitError>)
    ensures
        match r {
            Ok(v) => {
                &&& check_set_of(*set) is Ok
                &&& all_available(required@, available@)
                &&& stmts_view(v@) == spec_insert_solution_into_pool(
                    solution_set_hash_of(*set),
                    solution_set_bytes_of(*set),
                )
            },
            Err(SubmitError::Invalid(m)) => check_set_of(*set) == Err::<(), Seq<char>>(m@),
            Err(SubmitError::MissingPredicate) => check_set_of(*set) is Ok && !all_available(
                required@,
                available@,
            ),
        },
{
    match check_solution_set(set) {
        Ok(()) => {},
        Err(m) => {
            return Err(SubmitError::Invalid(m));
        },
    }
    match validate_contract(required, available) {
        Ok(()) => Ok(insert_solution_set(set)),
        Err(_) => Err(SubmitError::MissingPredicate),
    }
}

/// Why the predicates of a solution could not be read.
#[derive(Debug, PartialEq, Eq)]
pub enum ReadContractError {
    /// The storage holds no predicate at this address.
    Missing(PredicateAddress),
    /// Reading the predicate at this address failed; the message.
    Storage(PredicateAddress, String),
}

/// The text of a read error: which address could not be read (upper-case
/// hex of its contract and of its predicate), with the storage's message
/// where reading failed.
pub open spec fn spec_read_error_text(e: ReadContractError) -> Seq<char> {
    let a = match e {
        ReadContractError::Missing(a) => a,
        ReadContractError::Storage(a, _) => a,
    };
    let head = "Failed to retrieve contract from storage. contract: "@ + spec_hex_encode_upper(
        a.contract@,
    ) + ", predicate: "@ + spec_hex_encode_upper(a.predicate@);
    match e {
        ReadContractError::Missing(_) => head,
        ReadContractError::Storage(_, msg) => head + ". Error "@ + msg@,
    }
}

/// The bytes of a content address, in order.
fn address_bytes(a: &[u8; 32]) -> (r: Vec<u8>)
    ensures
        r@ == a@,
{
    let mut v: Vec<u8> = Vec::new();
    let mut i: usize = 0;
    while i < 32
        invariant
            i <= 32,
            a@.len() == 32,
            v@ =~= a@.take(i as int),
        decreases 32 - i,
    {
        v.push(a[i]);
        i = i + 1;
    }
    assert(a@.take(32) =~= a@);
    v
}

impl ReadContractError {
    /// The text of the error: which address could not be read, with the
    /// storage's message where reading failed.
    pub fn to_string(&self) -> (r: String)
        ensures
            r@ == spec_read_error_text(*self),
    {
        let a = match self {
            ReadContractError::Missing(a) => a,
            ReadContractError::Storage(a, _) => a,
        };
        let mut s = String::from_str("Failed to retrieve contract from storage. contract: ");
        let c = encode_bytes(&address_bytes(&a.contract));
        s.append(c.as_str());
        s.append(", predicate: ");
        let p = encode_bytes(&address_bytes(&a.predicate));
        s.append(p.as_str());
        let ghost head = s@;
        assert(head =~= "Failed to retrieve contract from storage. contract: "@ + spec_hex_encode_upper(
            a.contract@,
        ) + ", predicate: "@ + spec_hex_encode_upper(a.predicate@));
        match self {
            ReadContractError::Missing(_) => {},
            ReadContractError::Storage(_, msg) => {
                s.append(". Error ");
                s.append(msg.as_str());
                assert(s@ =~= head + ". Error "@ + msg@);
            },
        }
        s
    }
}

/// Reading the predicates that a solution solves, one address at a time: the
/// caller asks storage for the address that [`ContractRead::next_address`]
/// names, hands what came back to [`ContractRead::record`], and repeats until
/// there is no address left.
pub struct ContractRead<P> {
    required: Vec<PredicateAddress>,
    read: Vec<(PredicateAddress, P)>,
}

impl<P> ContractRead<P> {
    /// The addresses to read, in order.
    pub closed spec fn spec_required(&self) -> Seq<PredicateAddress> {
        self.required@
    }

    /// The addresses read so far, with their predicates, in order.
    pub closed spec fn spec_read(&self) -> Seq<(PredicateAddress, P)> {
        self.read@
    }

    /// The addresses read so far are the first ones required.
    pub closed spec fn wf(&self) -> bool {
        &&& self.read@.len() <= self.required@.len()
        &&& forall|k: int| 0 <= k < self.read@.len() ==> #[trigger] self.read@[k].0 == self.required@[k]
    }

    /// Starts reading the predicates at `required`, the addresses that the
    /// solution's data solve, in order.
    pub fn new(required: Vec<PredicateAddress>) -> (r: Self)
        ensures
            r.wf(),
            r.spec_required() == required@,
            r.spec_read().len() == 0,
    {
        ContractRead { required, read: Vec::new() }
    }

    /// The address to read next, or `None` once all are read.
    pub fn next_address(&self) -> (r: Option<PredicateAddress>)
        requires
            self.wf(),
        ensures
            match r {
                Some(a) => self.spec_read().len() < self.spec_required().len() && a
                    == self.spec_required()[self.spec_read().len() as int],
                None => self.spec_read().len() == self.spec_required().len(),
            },
    {
        if self.read.len() < self.required.len() {
            Some(self.required[self.read.len()])
        } else {
            None
        }
    }

    /// Records what storage gave for the address that
    /// [`ContractRead::next_address`] named: the predicate is kept; no
    /// predicate, or a failed read, is an error that ends the reading.
    pub fn record(&mut self, got: Result<Option<P>, String>) -> (r: Result<(), ReadContractError>)
        requires
            old(self).wf(),
            old(self).spec_read().len() < old(self).spec_required().len(),
        ensures
            final(self).wf(),
            final(self).spec_required() == old(self).spec_required(),
            ({
                let a = old(self).spec_required()[old(self).spec_read().len() as int];
                match got {
                    Ok(Some(p)) => r is Ok && final(self).spec_read() == old(self).spec_read().push(
                        (a, p),
                    ),
                    Ok(None) => r == Err::<(), ReadContractError>(ReadContractError::Missing(a))
                        && final(self).spec_read() == old(self).spec_read(),
                    Err(msg) => r == Err::<(), ReadContractError>(ReadContractError::Storage(a, msg))
                        && final(self).spec_read() == old(self).spec_read(),
                }
            }),
    {
        let a = self.required[self.read.len()];
        match got {
            Ok(Some(p)) => {
                self.read.push((a, p));
                Ok(())
            },
            Ok(None) => Err(ReadContractError::Missing(a)),
            Err(msg) => Err(ReadContractError::Storage(a, msg)),
        }
    }

    /// The addresses read, with their predicates, in order.
    pub fn finish(self) -> (r: Vec<(PredicateAddress, P)>)
        ensures
            r@ == self.spec_read(),
    {
        self.read
    }
}

/// What is read in full passes validation: once every required address is
/// read, each of them is among the addresses read.
pub proof fn lemma_read_contract_is_valid<P>(c: ContractRead<P>)
    requires
        c.wf(),
        c.spec_read().len() == c.spec_required().len(),
    ensures
        forall|i: int|
            0 <= i < c.spec_required().len() ==> spec_has_addr(
                c.spec_read().map_values(|x: (PredicateAddress, P)| x.0),
                #[trigger] c.spec_required()[i],
            ),
{
    let addrs = c.spec_read().map_values(|x: (PredicateAddress, P)| x.0);
    assert forall|i: int| 0 <= i < c.spec_required().len() implies spec_has_addr(
        addrs,
        #[trigger] c.spec_required()[i],
    ) by {
        assert(addrs[i] == c.spec_required()[i]);
    }
}

/// A state update: the contract, the key and the value.
pub type Update = ([u8; 32], Vec<i64>, Vec<i64>);

/// The view of a state update.
pub open spec fn update_view(u: Update) -> (Seq<u8>, Seq<i64>, Seq<i64>) {
    (u.0@, u.1@, u.2@)
}

/// The updates that a solution's data proposes, in order: for each piece of
/// data, its mutations, at the contract of the predicate it solves.
pub open spec fn spec_mutations(data: Seq<([u8; 32], Vec<(Vec<i64>, Vec<i64>)>)>) -> Seq<
    (Seq<u8>, Seq<i64>, Seq<i64>),
>
    decreases data.len(),
{
    if data.len() == 0 {
        Seq::empty()
    } else {
        let d = data.last();
        spec_mutations(data.drop_last()) + d.1@.map_values(
            |m: (Vec<i64>, Vec<i64>)| (d.0@, m.0@, m.1@),
        )
    }
}

/// Lists the updates that a solution's data proposes, in the order in which
/// they are applied to the post state.
pub fn solution_mutations(data: Vec<([u8; 32], Vec<(Vec<i64>, Vec<i64>)>)>) -> (r: Vec<Update>)
    ensures
        r@.map_values(|u: Update| update_view(u)) == spec_mutations(data@),
{
    let mut data = data;
    let ghost all = data@;
    let n = data.len();
    let mut out: Vec<Update> = Vec::new();
    let mut i: usize = 0;
    assert(all.take(0) =~= Seq::<([u8; 32], Vec<(Vec<i64>, Vec<i64>)>)>::empty());
    assert(out@.map_values(|u: Update| update_view(u)) =~= Seq::<(Seq<u8>, Seq<i64>, Seq<i64>)>::empty());
    while i < n
        invariant
            n == all.len(),
            i <= n,
            data@ =~= all.skip(i as int),
            out@.map_values(|u: Update| update_view(u)) == spec_mutations(all.take(i as int)),
        decreases n - i,
    {
        assert(all.take(i + 1).drop_last() =~= all.take(i as int));
        assert(all.take(i + 1).last() == all[i as int]);
        let (contract, muts) = data.remove(0);
        assert((contract, muts) == all[i as int]);
        let ghost mv = muts@.map_values(|m: (Vec<i64>, Vec<i64>)| (contract@, m.0@, m.1@));
        let ghost before = out@.map_values(|u: Update| update_view(u));
        let mut muts = muts;
        let m = muts.len();
        let mut j: usize = 0;
        let ghost mall = muts@;
        while j < m
            invariant
                m == mall.len(),
                j <= m,
                muts@ =~= mall.skip(j as int),
                mv == mall.map_values(|m: (Vec<i64>, Vec<i64>)| (contract@, m.0@, m.1@)),
                out@.map_values(|u: Update| update_view(u)) =~= before + mv.take(j as int),
            decreases m - j,
        {
            let (k, v) = muts.remove(0);
            assert((k, v) == mall[j as int]);
            let ghost prev = out@.map_values(|u: Update| update_view(u));
            out.push((contract, k, v));
            assert(out@.map_values(|u: Update| update_view(u)) =~= prev.push(mv[j as int]));
            assert(mv.take(j + 1) =~= mv.take(j as int).push(mv[j as int]));
            j = j + 1;
        }
        assert(mv.take(m as int) =~= mv);
        i = i + 1;
    }
    assert(all.take(n as int) =~= all);
    out
}

} // verus!
