//! The state a block builds up as it keeps solutions: the writes pending on
//! top of stored state, the post state that a solution proposes, and the
//! decision to keep or fail a solution once its constraints were checked.
use vstd::prelude::*;
use crate::block::BlockBuilder;
use crate::keys::copy_words;
use crate::outcome::SolutionFailReason;
use crate::query::same_key;
use crate::solution::{same_address, spec_mutations, update_view, Update};

verus! {

/// A state write as a plain value: the contract, the key and the value.
pub type Write = (Seq<u8>, Seq<i64>, Seq<i64>);

/// A slot of state: the contract and the key.
pub type Slot = (Seq<u8>, Seq<i64>);

/// The writes `w` applied in order on top of the pending writes `m`: each
/// slot written holds the value written to it last. An empty value stands
/// for a deleted slot.
pub open spec fn spec_apply_writes(m: Map<Slot, Seq<i64>>, w: Seq<Write>) -> Map<Slot, Seq<i64>>
    decreases w.len(),
{
    if w.len() == 0 {
        m
    } else {
        spec_apply_writes(m, w.drop_last()).insert((w.last().0, w.last().1), w.last().2)
    }
}

/// The plain view of a list of updates.
pub open spec fn writes_of(u: Seq<Update>) -> Seq<Write> {
    u.map_values(|x: Update| update_view(x))
}

/// Writes pending on top of stored state, as a block's transaction keeps
/// them: for each slot written, the value written last.
pub struct StateView {
    writes: Vec<Update>,
}

impl View for StateView {
    type V = Map<Slot, Seq<i64>>;

    closed spec fn view(&self) -> Map<Slot, Seq<i64>> {
        spec_apply_writes(Map::empty(), writes_of(self.writes@))
    }
}

/// Where none of the writes from `i` on is to `k`, the writes up to `i` say
/// all there is of `k`.
proof fn lemma_unwritten_suffix(m: Map<Slot, Seq<i64>>, w: Seq<Write>, i: int, k: Slot)
    requires
        0 <= i <= w.len(),
        forall|j: int| i <= j < w.len() ==> (#[trigger] w[j].0, w[j].1) != k,
    ensures
        spec_apply_writes(m, w).contains_key(k) == spec_apply_writes(m, w.take(i)).contains_key(k),
        spec_apply_writes(m, w)[k] == spec_apply_writes(m, w.take(i))[k],
    decreases w.len(),
{
    if i == w.len() {
        assert(w.take(i) =~= w);
    } else {
        assert(w.drop_last().take(i) =~= w.take(i));
        assert((w[w.len() - 1].0, w[w.len() - 1].1) != k);
        lemma_unwritten_suffix(m, w.drop_last(), i, k);
    }
}

/// Applying two runs of writes one after the other is applying the two
/// runs, joined, at once: a block state built solution by solution is the
/// state with all kept updates applied in order.
pub proof fn lemma_apply_concat(m: Map<Slot, Seq<i64>>, a: Seq<Write>, b: Seq<Write>)
    ensures
        spec_apply_writes(spec_apply_writes(m, a), b) == spec_apply_writes(m, a + b),
    decreases b.len(),
{
    if b.len() == 0 {
        assert(a + b =~= a);
    } else {
        assert((a + b).drop_last() =~= a + b.drop_last());
        lemma_apply_concat(m, a, b.drop_last());
    }
}

impl StateView {
    /// No writes pending.
    pub fn new() -> (r: StateView)
        ensures
            r@ == Map::<Slot, Seq<i64>>::empty(),
    {
        let r = StateView { writes: Vec::new() };
        assert(writes_of(r.writes@) =~= Seq::<Write>::empty());
        r
    }

    /// Writes `value` at `key` of `contract`.
    pub fn apply_state(&mut self, contract: &[u8; 32], key: Vec<i64>, value: Vec<i64>)
        ensures
            final(self)@ == old(self)@.insert((contract@, key@), value@),
    {
        let ghost before = writes_of(self.writes@);
        self.writes.push((*contract, key, value));
        assert(writes_of(self.writes@).drop_last() =~= before);
    }

    /// Applies `muts` in order.
    pub fn apply_mutations(&mut self, muts: &Vec<Update>)
        ensures
            final(self)@ == spec_apply_writes(old(self)@, writes_of(muts@)),
    {
        let ghost start = self@;
        let mut i: usize = 0;
        assert(writes_of(muts@).take(0) =~= Seq::<Write>::empty());
        while i < muts.len()
            invariant
                i <= muts@.len(),
                self@ == spec_apply_writes(start, writes_of(muts@).take(i as int)),
            decreases muts@.len() - i,
        {
            let u = &muts[i];
            let v = copy_words(&u.2);
            let k = copy_words(&u.1);
            self.apply_state(&u.0, k, v);
            assert(writes_of(muts@).take(i + 1).drop_last() =~= writes_of(muts@).take(i as int));
            i = i + 1;
        }
        assert(writes_of(muts@).take(i as int) =~= writes_of(muts@));
    }

    /// The value written last at `key` of `contract`, if any was.
    pub fn query(&self, contract: &[u8; 32], key: &Vec<i64>) -> (r: Option<Vec<i64>>)
        ensures
            match r {
                Some(v) => self@.contains_key((contract@, key@)) && self@[(contract@, key@)] == v@,
                None => !self@.contains_key((contract@, key@)),
            },
    {
        let ghost w = writes_of(self.writes@);
        let ghost k = (contract@, key@);
        let mut i: usize = self.writes.len();
        while i > 0
            invariant
                i <= self.writes@.len(),
                w == writes_of(self.writes@),
                k == (contract@, key@),
                forall|j: int| i <= j < w.len() ==> (#[trigger] w[j].0, w[j].1) != k,
            decreases i,
        {
            let j = i - 1;
            let u = &self.writes[j];
            if same_address(&u.0, contract) && same_key(&u.1, key) {
                proof {
                    lemma_unwritten_suffix(Map::empty(), w, i as int, k);
                    assert(w.take(i as int).drop_last() =~= w.take(j as int));
                    assert(w.take(i as int).last() == w[j as int]);
                }
                return Some(copy_words(&u.2));
            }
            i = j;
        }
        proof {
            lemma_unwritten_suffix(Map::empty(), w, 0, k);
            assert(w.take(0) =~= Seq::<Write>::empty());
        }
        None
    }

    /// The pending writes as updates which, applied in order to no pending
    /// writes, give this state.
    pub fn updates(&self) -> (r: Vec<Update>)
        ensures
            spec_apply_writes(Map::empty(), writes_of(r@)) == self@,
    {
        let mut r: Vec<Update> = Vec::new();
        let mut i: usize = 0;
        while i < self.writes.len()
            invariant
                i <= self.writes@.len(),
                writes_of(r@) == writes_of(self.writes@).take(i as int),
            decreases self.writes@.len() - i,
        {
            let u = &self.writes[i];
            let nu: Update = (u.0, copy_words(&u.1), copy_words(&u.2));
            assert(update_view(nu) == update_view(self.writes@[i as int]));
            let ghost before = r@;
            r.push(nu);
            assert(r@ =~= before.push(nu));
            assert(writes_of(r@) =~= writes_of(before).push(update_view(nu)));
            assert(writes_of(self.writes@).take(i + 1) =~= writes_of(self.writes@).take(
                i as int,
            ).push(update_view(self.writes@[i as int])));
            assert(writes_of(r@) =~= writes_of(self.writes@).take(i + 1));
            i = i + 1;
        }
        assert(writes_of(self.writes@).take(i as int) =~= writes_of(self.writes@));
        r
    }
}

/// The state after a solution: the pending writes `pre` with the solution's
/// mutations `muts` applied in order on top.
pub fn create_post_state(pre: &StateView, muts: &Vec<Update>) -> (r: StateView)
    ensures
        r@ == spec_apply_writes(pre@, writes_of(muts@)),
{
    let mut post = StateView { writes: pre.updates() };
    post.apply_mutations(muts);
    post
}

/// What a constraint check comes to for a solution whose data is `data`:
/// the updates it makes where the check passed, in the order they are
/// applied, or the check's error.
pub fn checked_mutations(data: Vec<([u8; 32], Vec<(Vec<i64>, Vec<i64>)>)>, verdict: Result<(), String>) -> (r: Result<Vec<Update>, String>)
    ensures
        match verdict {
            Ok(()) => r matches Ok(u) && writes_of(u@) == spec_mutations(data@),
            Err(m) => r == Err::<Vec<Update>, String>(m),
        },
{
    match verdict {
        Ok(()) => Ok(crate::solution::solution_mutations(data)),
        Err(m) => Err(m),
    }
}

/// Keeps or fails the solution `s` of a block by its checked result: where
/// the check passed, `s` is kept and its updates are applied to the block's
/// state; where it failed, `s` is failed with the check's error as the
/// reason and the state stays as it was.
pub fn decide<V>(
    builder: &mut BlockBuilder<V, (V, SolutionFailReason)>,
    state: &mut StateView,
    s: V,
    checked: Result<Vec<Update>, String>,
)
    ensures
        final(builder).spec_enable_time() == old(builder).spec_enable_time(),
        match checked {
            Ok(u) => {
                &&& final(builder).spec_valid() == old(builder).spec_valid().push(s)
                &&& final(builder).spec_failed() == old(builder).spec_failed()
                &&& final(state)@ == spec_apply_writes(old(state)@, writes_of(u@))
            },
            Err(m) => {
                &&& final(builder).spec_valid() == old(builder).spec_valid()
                &&& final(builder).spec_failed() == old(builder).spec_failed().push(
                    (s, SolutionFailReason::ConstraintsFailed(m)),
                )
                &&& final(state)@ == old(state)@
            },
        },
{
    match checked {
        Ok(u) => {
            state.apply_mutations(&u);
            builder.push_valid(s);
        },
        Err(m) => {
            builder.push_failed((s, SolutionFailReason::ConstraintsFailed(m)));
        },
    }
}

} // verus!
