//! Answering a query of state reads: which reads are recorded, and which
//! parts of the result are returned.
use crate::solution::same_address;
use vstd::prelude::*;

verus! {

/// Which state slots a query asks for.
#[derive(Debug, PartialEq, Eq, Clone, Copy)]
pub enum SlotsRequest {
    /// Both the pre and the post state slots.
    All,
    /// The pre state slots only.
    Pre,
    /// The post state slots only.
    Post,
}

/// What a query of state reads asks for.
#[derive(Debug, PartialEq, Eq, Clone, Copy)]
pub enum StateReadRequestType {
    /// The keys and values read, and the slots asked for.
    All(SlotsRequest),
    /// The keys and values read only.
    Reads,
    /// The slots asked for only.
    Slots(SlotsRequest),
}

/// The state slots read on the pre and on the post state.
#[derive(Debug, PartialEq, Eq)]
pub struct Slots<T> {
    pub pre: Vec<T>,
    pub post: Vec<T>,
}

/// The answer to a query of state reads; `R` is the record of the keys and
/// values read.
#[derive(Debug, PartialEq, Eq)]
pub enum QueryStateReadsOutput<R, T> {
    All(R, Slots<T>),
    Reads(R),
    Slots(Slots<T>),
}

/// Whether the reads of a query are recorded: unless it asks for slots only.
pub fn recorder_enabled(request_type: StateReadRequestType) -> (r: bool)
    ensures
        r == !(request_type is Slots),
{
    match request_type {
        StateReadRequestType::Slots(_) => false,
        _ => true,
    }
}

/// The slots a request asks for: the pre slots are emptied where it asks for
/// the post slots only, and the other way round.
pub open spec fn spec_kept<T>(req: SlotsRequest, pre: Seq<T>, post: Seq<T>) -> (Seq<T>, Seq<T>) {
    match req {
        SlotsRequest::All => (pre, post),
        SlotsRequest::Pre => (pre, Seq::empty()),
        SlotsRequest::Post => (Seq::empty(), post),
    }
}

/// What a request keeps of the slots: asking for all of them keeps both the
/// pre and the post slots as they are; asking for the pre slots keeps the
/// same pre slots as asking for all, and no post slots; asking for the post
/// slots keeps the same post slots as asking for all, and no pre slots.
pub proof fn lemma_kept_slots<T>(pre: Seq<T>, post: Seq<T>)
    ensures
        spec_kept(SlotsRequest::All, pre, post) == (pre, post),
        spec_kept(SlotsRequest::Pre, pre, post).0 == spec_kept(SlotsRequest::All, pre, post).0,
        spec_kept(SlotsRequest::Pre, pre, post).1.len() == 0,
        spec_kept(SlotsRequest::Post, pre, post).1 == spec_kept(SlotsRequest::All, pre, post).1,
        spec_kept(SlotsRequest::Post, pre, post).0.len() == 0,
{
}

/// Keeps the slots a request asks for.
fn keep_slots<T>(req: SlotsRequest, slots: Slots<T>) -> (r: Slots<T>)
    ensures
        (r.pre@, r.post@) == spec_kept(req, slots.pre@, slots.post@),
{
    let mut slots = slots;
    match req {
        SlotsRequest::All => {},
        SlotsRequest::Pre => {
            slots.post.clear();
        },
        SlotsRequest::Post => {
            slots.pre.clear();
        },
    }
    slots
}

/// The answer to a query, from the record of the reads and the slots: what
/// the request type asks for, and nothing else.
pub fn select_output<R, T>(request_type: StateReadRequestType, reads: R, slots: Slots<T>) -> (r:
    QueryStateReadsOutput<R, T>)
    ensures
        match (request_type, r) {
            (StateReadRequestType::All(req), QueryStateReadsOutput::All(rd, s)) => rd == reads && (
            s.pre@, s.post@) == spec_kept(req, slots.pre@, slots.post@),
            (StateReadRequestType::Reads, QueryStateReadsOutput::Reads(rd)) => rd == reads,
            (StateReadRequestType::Slots(req), QueryStateReadsOutput::Slots(s)) => (
            s.pre@, s.post@) == spec_kept(req, slots.pre@, slots.post@),
            _ => false,
        },
{
    match request_type {
        StateReadRequestType::All(req) => QueryStateReadsOutput::All(reads, keep_slots(req, slots)),
        StateReadRequestType::Reads => QueryStateReadsOutput::Reads(reads),
        StateReadRequestType::Slots(req) => QueryStateReadsOutput::Slots(keep_slots(req, slots)),
    }
}


/// Whether two keys are the same.
pub fn same_key(a: &Vec<i64>, b: &Vec<i64>) -> (r: bool)
    ensures
        r == (a@ == b@),
{
    if a.len() != b.len() {
        return false;
    }
    let mut i: usize = 0;
    while i < a.len()
        invariant
            i <= a@.len(),
            a@.len() == b@.len(),
            forall|j: int| 0 <= j < i ==> a@[j] == b@[j],
        decreases a@.len() - i,
    {
        if a[i] != b[i] {
            return false;
        }
        i = i + 1;
    }
    assert(a@ =~= b@);
    true
}

/// A recorded read: the contract, the key and the value read.
pub type RecordedRead = ([u8; 32], Vec<i64>, Vec<i64>);

/// The view of a recorded read.
pub open spec fn read_view(e: RecordedRead) -> (Seq<u8>, Seq<i64>, Seq<i64>) {
    (e.0@, e.1@, e.2@)
}

/// Views of recorded reads.
pub open spec fn reads_view(v: Seq<RecordedRead>) -> Seq<(Seq<u8>, Seq<i64>, Seq<i64>)> {
    v.map_values(|e: RecordedRead| read_view(e))
}

/// The map from contract and key to value that recorded reads stand for; a
/// later read of a key replaces an earlier one.
pub open spec fn reads_map(s: Seq<(Seq<u8>, Seq<i64>, Seq<i64>)>) -> Map<(Seq<u8>, Seq<i64>), Seq<i64>>
    decreases s.len(),
{
    if s.len() == 0 {
        Map::empty()
    } else {
        reads_map(s.drop_last()).insert((s.last().0, s.last().1), s.last().2)
    }
}

/// Whether no contract and key is recorded twice.
pub open spec fn no_repeats(s: Seq<(Seq<u8>, Seq<i64>, Seq<i64>)>) -> bool {
    forall|i: int, j: int|
        0 <= i < j < s.len() ==> (#[trigger] s[i].0, s[i].1) != (#[trigger] s[j].0, s[j].1)
}

proof fn lemma_reads_map_update(s: Seq<(Seq<u8>, Seq<i64>, Seq<i64>)>, i: int, v: Seq<i64>)
    requires
        no_repeats(s),
        0 <= i < s.len(),
    ensures
        reads_map(s.update(i, (s[i].0, s[i].1, v))) == reads_map(s).insert((s[i].0, s[i].1), v),
    decreases s.len(),
{
    let t = s.update(i, (s[i].0, s[i].1, v));
    let k = (s[i].0, s[i].1);
    if i == s.len() - 1 {
        assert(t.drop_last() =~= s.drop_last());
        assert(reads_map(t) =~= reads_map(s).insert(k, v));
    } else {
        let d = s.drop_last();
        assert(t.drop_last() =~= d.update(i, (d[i].0, d[i].1, v)));
        assert forall|p: int, q: int| 0 <= p < q < d.len() implies (#[trigger] d[p].0, d[p].1) != (
            #[trigger] d[q].0,
            d[q].1,
        ) by {
            assert(d[p] == s[p] && d[q] == s[q]);
        }
        lemma_reads_map_update(d, i, v);
        let kl = (s.last().0, s.last().1);
        assert(s[s.len() - 1] == s.last());
        assert(k != kl);
        assert(t.last() == s.last());
        assert(reads_map(t) =~= reads_map(s).insert(k, v));
    }
}

/// The keys and values read on a state, by contract, as a query records
/// them.
pub struct Recording {
    reads: Vec<RecordedRead>,
}

impl View for Recording {
    type V = Map<(Seq<u8>, Seq<i64>), Seq<i64>>;

    closed spec fn view(&self) -> Map<(Seq<u8>, Seq<i64>), Seq<i64>> {
        reads_map(reads_view(self.reads@))
    }
}

/// The recording after reads of `reads` at `contract`, in order.
pub open spec fn spec_record_all(
    m: Map<(Seq<u8>, Seq<i64>), Seq<i64>>,
    contract: Seq<u8>,
    reads: Seq<(Seq<i64>, Seq<i64>)>,
) -> Map<(Seq<u8>, Seq<i64>), Seq<i64>>
    decreases reads.len(),
{
    if reads.len() == 0 {
        m
    } else {
        spec_record_all(m, contract, reads.drop_last()).insert(
            (contract, reads.last().0),
            reads.last().1,
        )
    }
}

/// Views of keys and values read.
pub open spec fn kv_view(v: Seq<(Vec<i64>, Vec<i64>)>) -> Seq<(Seq<i64>, Seq<i64>)> {
    v.map_values(|p: (Vec<i64>, Vec<i64>)| (p.0@, p.1@))
}

impl Recording {
    /// No contract and key is recorded twice.
    #[verifier::type_invariant]
    spec fn distinct(self) -> bool {
        no_repeats(reads_view(self.reads@))
    }

    /// An empty recording.
    pub fn new() -> (r: Self)
        ensures
            r@ == Map::<(Seq<u8>, Seq<i64>), Seq<i64>>::empty(),
    {
        let r = Recording { reads: Vec::new() };
        assert(reads_view(r.reads@) =~= Seq::<(Seq<u8>, Seq<i64>, Seq<i64>)>::empty());
        r
    }

    /// Records that `value` was read at `key` of `contract`, replacing what
    /// was recorded there before.
    pub fn record(&mut self, contract: &[u8; 32], key: Vec<i64>, value: Vec<i64>)
        ensures
            final(self)@ == old(self)@.insert((contract@, key@), value@),
    {
        proof {
            use_type_invariant(&*self);
        }
        let ghost rv = reads_view(self.reads@);
        let mut i: usize = 0;
        while i < self.reads.len()
            invariant
                i <= self.reads@.len(),
                rv == reads_view(self.reads@),
                rv == reads_view(old(self).reads@),
                no_repeats(rv),
                forall|j: int| 0 <= j < i ==> (#[trigger] rv[j].0, rv[j].1) != (contract@, key@),
            decreases self.reads@.len() - i,
        {
            if same_address(&self.reads[i].0, contract) && same_key(&self.reads[i].1, &key) {
                let mut reads: Vec<RecordedRead> = Vec::new();
                std::mem::swap(&mut reads, &mut self.reads);
                let (c, k, _) = reads.remove(i);
                reads.insert(i, (c, k, value));
                proof {
                    assert(rv[i as int].0 == contract@ && rv[i as int].1 == key@);
                    let nv = reads_view(reads@);
                    assert(nv =~= rv.update(i as int, (rv[i as int].0, rv[i as int].1, value@)));
                    lemma_reads_map_update(rv, i as int, value@);
                    assert forall|p: int, q: int| 0 <= p < q < nv.len() implies (
                        #[trigger] nv[p].0,
                        nv[p].1,
                    ) != (#[trigger] nv[q].0, nv[q].1) by {
                        assert(nv[p].0 == rv[p].0 && nv[p].1 == rv[p].1);
                        assert(nv[q].0 == rv[q].0 && nv[q].1 == rv[q].1);
                    }
                }
                self.reads = reads;
                return;
            }
            i = i + 1;
        }
        let mut reads: Vec<RecordedRead> = Vec::new();
        std::mem::swap(&mut reads, &mut self.reads);
        reads.push((*contract, key, value));
        proof {
            let nv = reads_view(reads@);
            assert(nv =~= rv.push((contract@, key@, value@)));
            assert(nv.drop_last() =~= rv);
            assert forall|p: int, q: int| 0 <= p < q < nv.len() implies (#[trigger] nv[p].0, nv[p].1)
                != (#[trigger] nv[q].0, nv[q].1) by {
                if q == nv.len() - 1 {
                    assert(nv[p] == rv[p]);
                } else {
                    assert(nv[p] == rv[p] && nv[q] == rv[q]);
                }
            }
        }
        self.reads = reads;
    }

    /// The recorded reads: each contract and key once, with the value read
    /// there last.
    pub fn into_reads(self) -> (r: Vec<RecordedRead>)
        ensures
            no_repeats(reads_view(r@)),
            reads_map(reads_view(r@)) == self@,
    {
        proof {
            use_type_invariant(&self);
        }
        self.reads
    }
}

/// The values of the keys and values read at `contract`, in order; where
/// recording is enabled, each read is recorded, later reads of a key
/// replacing earlier ones.
pub fn record_reads(
    recording: &mut Recording,
    enabled: bool,
    contract: &[u8; 32],
    reads: Vec<(Vec<i64>, Vec<i64>)>,
) -> (r: Vec<Vec<i64>>)
    ensures
        r@.map_values(|v: Vec<i64>| v@) == kv_view(reads@).map_values(|p: (Seq<i64>, Seq<i64>)| p.1),
        final(recording)@ == (if enabled {
            spec_record_all(old(recording)@, contract@, kv_view(reads@))
        } else {
            old(recording)@
        }),
{
    let ghost all = kv_view(reads@);
    let ghost start = recording@;
    let mut reads = reads;
    let n = reads.len();
    let mut out: Vec<Vec<i64>> = Vec::new();
    let mut i: usize = 0;
    assert(all.take(0) =~= Seq::<(Seq<i64>, Seq<i64>)>::empty());
    while i < n
        invariant
            n == all.len(),
            i <= n,
            reads@.len() == n - i,
            forall|k: int| 0 <= k < n - i ==> (#[trigger] reads@[k].0@, reads@[k].1@) == all[k + i],
            out@.map_values(|v: Vec<i64>| v@) == all.take(i as int).map_values(
                |p: (Seq<i64>, Seq<i64>)| p.1,
            ),
            recording@ == (if enabled {
                spec_record_all(start, contract@, all.take(i as int))
            } else {
                start
            }),
        decreases n - i,
    {
        let ghost before = reads@;
        let (k, v) = reads.remove(0);
        assert((k@, v@) == all[i as int]);
        assert forall|m: int| 0 <= m < n - (i + 1) implies (#[trigger] reads@[m].0@, reads@[m].1@)
            == all[m + i + 1] by {
            assert(reads@[m] == before[m + 1]);
        }
        assert(all.take(i + 1).drop_last() =~= all.take(i as int));
        assert(all.take(i + 1).last() == all[i as int]);
        let ghost prev = out@.map_values(|w: Vec<i64>| w@);
        if enabled {
            let kc = crate::keys::copy_words(&k);
            let vc = crate::keys::copy_words(&v);
            recording.record(contract, kc, vc);
        }
        out.push(v);
        assert(out@.map_values(|w: Vec<i64>| w@) =~= prev.push(all[i as int].1));
        assert(all.take(i + 1).map_values(|p: (Seq<i64>, Seq<i64>)| p.1) =~= all.take(
            i as int,
        ).map_values(|p: (Seq<i64>, Seq<i64>)| p.1).push(all[i as int].1));
        i = i + 1;
    }
    assert(all.take(n as int) =~= all);
    out
}


/// What a query records of a run of reads: for each key read, the value of
/// its last read, at the contract read from.
pub proof fn lemma_recorded_last_read(
    m: Map<(Seq<u8>, Seq<i64>), Seq<i64>>,
    contract: Seq<u8>,
    reads: Seq<(Seq<i64>, Seq<i64>)>,
    j: int,
)
    requires
        0 <= j < reads.len(),
        forall|l: int| j < l < reads.len() ==> #[trigger] reads[l].0 != reads[j].0,
    ensures
        spec_record_all(m, contract, reads).contains_key((contract, reads[j].0)),
        spec_record_all(m, contract, reads)[(contract, reads[j].0)] == reads[j].1,
    decreases reads.len(),
{
    if j < reads.len() - 1 {
        let d = reads.drop_last();
        assert forall|l: int| j < l < d.len() implies #[trigger] d[l].0 != d[j].0 by {
            assert(d[l] == reads[l]);
        }
        lemma_recorded_last_read(m, contract, d, j);
        assert(reads[reads.len() - 1].0 != reads[j].0);
    }
}

/// Reads of other contracts are left as they were recorded.
pub proof fn lemma_record_keeps_other_contracts(
    m: Map<(Seq<u8>, Seq<i64>), Seq<i64>>,
    contract: Seq<u8>,
    reads: Seq<(Seq<i64>, Seq<i64>)>,
    k: (Seq<u8>, Seq<i64>),
)
    requires
        k.0 != contract,
    ensures
        spec_record_all(m, contract, reads).contains_key(k) == m.contains_key(k),
        m.contains_key(k) ==> spec_record_all(m, contract, reads)[k] == m[k],
    decreases reads.len(),
{
    if reads.len() > 0 {
        lemma_record_keeps_other_contracts(m, contract, reads.drop_last(), k);
    }
}

/// Which run of a query of state reads comes next: program `i` on the pre
/// state, program `i` on the post state, or none.
#[derive(Debug, PartialEq, Eq, Clone, Copy)]
pub enum NextRun {
    Pre(usize),
    Post(usize),
    Finished,
}

/// The run that comes after `done` runs of a query of `programs` programs:
/// each program runs on the pre state, then on the post state, before the
/// next program runs.
pub open spec fn spec_next_run(programs: nat, done: nat) -> NextRun {
    if done >= 2 * programs {
        NextRun::Finished
    } else if done % 2 == 0 {
        NextRun::Pre((done / 2) as usize)
    } else {
        NextRun::Post((done / 2) as usize)
    }
}

/// The slots that the runs on one state leave, in order: those of the runs
/// at even positions (`post` false) or at odd ones (`post` true).
pub open spec fn spec_state_slots<T>(runs: Seq<Seq<T>>, post: bool) -> Seq<T>
    decreases runs.len(),
{
    if runs.len() == 0 {
        Seq::empty()
    } else if ((runs.len() - 1) % 2 == 1) == post {
        spec_state_slots(runs.drop_last(), post) + runs.last()
    } else {
        spec_state_slots(runs.drop_last(), post)
    }
}

/// The runs of a query of state reads: which comes next, and the slots that
/// the finished ones left on the pre state and on the post state.
pub struct QueryRuns<T> {
    programs: usize,
    done: usize,
    pre: Vec<T>,
    post: Vec<T>,
    runs: Ghost<Seq<Seq<T>>>,
}

impl<T> QueryRuns<T> {
    /// The number of programs of the query.
    pub closed spec fn spec_programs(&self) -> nat {
        self.programs as nat
    }

    /// The slots left by each finished run, in order.
    pub closed spec fn spec_runs(&self) -> Seq<Seq<T>> {
        self.runs@
    }

    /// The runs finished so far are those of the query, and the slots kept
    /// are theirs.
    pub closed spec fn wf(&self) -> bool {
        &&& self.done as nat == self.runs@.len()
        &&& self.runs@.len() <= 2 * self.programs
        &&& 2 * self.programs <= usize::MAX
        &&& self.pre@ == spec_state_slots(self.runs@, false)
        &&& self.post@ == spec_state_slots(self.runs@, true)
    }

    /// A query of `programs` programs, none run yet.
    pub fn new(programs: usize) -> (r: Self)
        requires
            2 * programs <= usize::MAX,
        ensures
            r.wf(),
            r.spec_programs() == programs,
            r.spec_runs() == Seq::<Seq<T>>::empty(),
    {
        QueryRuns { programs, done: 0, pre: Vec::new(), post: Vec::new(), runs: Ghost(Seq::empty()) }
    }

    /// The run that comes next.
    pub fn next(&self) -> (r: NextRun)
        requires
            self.wf(),
        ensures
            r == spec_next_run(self.spec_programs(), self.spec_runs().len()),
    {
        if self.done / 2 >= self.programs {
            NextRun::Finished
        } else if self.done % 2 == 0 {
            NextRun::Pre(self.done / 2)
        } else {
            NextRun::Post(self.done / 2)
        }
    }

    /// The run that came next has finished and left `slots`.
    pub fn finish_run(&mut self, slots: Vec<T>)
        requires
            old(self).wf(),
            spec_next_run(old(self).spec_programs(), old(self).spec_runs().len()) != NextRun::Finished,
        ensures
            final(self).wf(),
            final(self).spec_programs() == old(self).spec_programs(),
            final(self).spec_runs() == old(self).spec_runs().push(slots@),
    {
        let ghost runs = self.runs@.push(slots@);
        assert(runs.drop_last() =~= self.runs@);
        let mut slots = slots;
        if self.done % 2 == 0 {
            self.pre.append(&mut slots);
        } else {
            self.post.append(&mut slots);
        }
        self.done = self.done + 1;
        self.runs = Ghost(runs);
    }

    /// The slots left on the pre state and on the post state, each in the
    /// order of the runs.
    pub fn into_slots(self) -> (r: Slots<T>)
        requires
            self.wf(),
        ensures
            r.pre@ == spec_state_slots(self.spec_runs(), false),
            r.post@ == spec_state_slots(self.spec_runs(), true),
    {
        Slots { pre: self.pre, post: self.post }
    }
}

} // verus!
