//! State keys and reading ranges of them.
//!
//! A key is a list of words. The key after a key is found as in counting:
//! the last word that is not at its maximum goes up by one, and the words
//! after it wrap around to their minimum.
use vstd::prelude::*;

verus! {

/// The key that follows `key`, or `None` where every word is at its maximum
/// (and for the empty key).
pub open spec fn spec_next_key(key: Seq<i64>) -> Option<Seq<i64>>
    decreases key.len(),
{
    if key.len() == 0 {
        None
    } else if key.last() == i64::MAX {
        match spec_next_key(key.drop_last()) {
            Some(p) => Some(p.push(i64::MIN)),
            None => None,
        }
    } else {
        Some(key.drop_last().push((key.last() + 1) as i64))
    }
}

/// A key read as a number: each word is a digit of base 2^64, the first word
/// the most significant, `i64::MIN` the digit zero.
pub open spec fn spec_key_value(key: Seq<i64>) -> nat
    decreases key.len(),
{
    if key.len() == 0 {
        0
    } else {
        (spec_key_value(key.drop_last()) * 0x1_0000_0000_0000_0000 + (key.last() - i64::MIN)) as nat
    }
}

/// The largest number a key of `len` words can stand for, plus one.
pub open spec fn spec_key_space(len: nat) -> nat
    decreases len,
{
    if len == 0 {
        1
    } else {
        spec_key_space((len - 1) as nat) * 0x1_0000_0000_0000_0000
    }
}

/// The keys `n` steps after `key`, if each step has a next key.
pub open spec fn spec_nth_key(key: Seq<i64>, n: nat) -> Option<Seq<i64>>
    decreases n,
{
    if n == 0 {
        Some(key)
    } else {
        match spec_nth_key(key, (n - 1) as nat) {
            Some(p) => spec_next_key(p),
            None => None,
        }
    }
}

/// `m` minimum words.
pub open spec fn mins(m: nat) -> Seq<i64> {
    Seq::new(m, |i: int| i64::MIN)
}

/// Appends `m` minimum words to a key, if there is one.
pub open spec fn lift(k: Option<Seq<i64>>, m: nat) -> Option<Seq<i64>> {
    match k {
        Some(p) => Some(p + mins(m)),
        None => None,
    }
}

/// The next key is the key read as a number plus one, of the same length;
/// there is none exactly where the key is the largest of its length.
pub proof fn lemma_next_key_adds_one(key: Seq<i64>)
    ensures
        spec_key_value(key) < spec_key_space(key.len()),
        match spec_next_key(key) {
            Some(n) => n.len() == key.len() && spec_key_value(n) == spec_key_value(key) + 1,
            None => spec_key_value(key) + 1 == spec_key_space(key.len()),
        },
    decreases key.len(),
{
    if key.len() > 0 {
        let p = key.drop_last();
        lemma_next_key_adds_one(p);
        let b: int = 0x1_0000_0000_0000_0000;
        let vp = spec_key_value(p) as int;
        let sp = spec_key_space(p.len()) as int;
        assert(vp * b + b <= sp * b) by (nonlinear_arith)
            requires
                vp + 1 <= sp,
                b > 0,
        ;
        if key.last() == i64::MAX {
            match spec_next_key(p) {
                Some(q) => {
                    assert(q.push(i64::MIN).drop_last() =~= q);
                    assert((vp + 1) * b == vp * b + b) by (nonlinear_arith);
                },
                None => {
                    assert(sp * b == (vp + 1) * b) by (nonlinear_arith)
                        requires
                            vp + 1 == sp,
                    ;
                },
            }
        } else {
            assert(key.drop_last().push((key.last() + 1) as i64).drop_last() =~= p);
        }
    }
}

/// Reading a key in full: the next key of a key whose last words are all at
/// their maximum is the next key of the rest, with those words wrapped.
proof fn lemma_next_key_suffix(key: Seq<i64>, i: int)
    requires
        0 <= i <= key.len(),
        forall|j: int| i <= j < key.len() ==> key[j] == i64::MAX,
    ensures
        spec_next_key(key) == lift(spec_next_key(key.take(i)), (key.len() - i) as nat),
    decreases key.len() - i,
{
    if i == key.len() {
        assert(key.take(i) =~= key);
        match spec_next_key(key) {
            Some(p) => {
                assert(p + mins(0) =~= p);
            },
            None => {},
        }
    } else {
        let d = key.drop_last();
        lemma_next_key_suffix(d, i);
        assert(d.take(i) =~= key.take(i));
        match spec_next_key(key.take(i)) {
            Some(p) => {
                assert((p + mins((d.len() - i) as nat)).push(i64::MIN) =~= p + mins(
                    (key.len() - i) as nat,
                ));
            },
            None => {},
        }
    }
}

/// Calculate the next key.
pub fn next_key(start: Vec<i64>) -> (r: Option<Vec<i64>>)
    ensures
        match r {
            Some(n) => spec_next_key(start@) == Some(n@),
            None => spec_next_key(start@) is None,
        },
{
    let ghost orig = start@;
    let mut key = start;
    let mut i: usize = key.len();
    proof {
        lemma_next_key_suffix(orig, orig.len() as int);
        assert(orig.take(orig.len() as int) + mins(0) =~= orig);
    }
    while i > 0
        invariant
            i <= orig.len(),
            orig == start@,
            key@.len() == orig.len(),
            key@ =~= orig.take(i as int) + mins((orig.len() - i) as nat),
            forall|j: int| i <= j < orig.len() ==> orig[j] == i64::MAX,
        decreases i,
    {
        let w = key[i - 1];
        if w == i64::MAX {
            key.set(i - 1, i64::MIN);
            proof {
                assert(key@ =~= orig.take(i - 1) + mins((orig.len() - (i - 1)) as nat));
            }
            i = i - 1;
        } else {
            key.set(i - 1, w + 1);
            proof {
                lemma_next_key_suffix(orig, i as int);
                let t = orig.take(i as int);
                assert(t.drop_last() =~= orig.take(i - 1));
                assert(t.last() == w);
                assert(spec_next_key(t) == Some(t.drop_last().push((t.last() + 1) as i64)));
                let x = t.drop_last().push((t.last() + 1) as i64) + mins((orig.len() - i) as nat);
                assert(key@ =~= x);
                assert(spec_next_key(orig) == Some(x));
                assert(spec_next_key(orig) == Some(key@));
            }
            return Some(key);
        }
    }
    proof {
        lemma_next_key_suffix(orig, 0);
        assert(orig.take(0) =~= Seq::<i64>::empty());
    }
    None
}

/// A copy of some words.
pub fn copy_words(v: &Vec<i64>) -> (r: Vec<i64>)
    ensures
        r@ == v@,
{
    let mut r: Vec<i64> = Vec::new();
    let mut i: usize = 0;
    while i < v.len()
        invariant
            i <= v@.len(),
            r@ =~= v@.take(i as int),
        decreases v@.len() - i,
    {
        r.push(v[i]);
        i = i + 1;
    }
    assert(v@.take(v@.len() as int) =~= v@);
    r
}

/// Why reading a range of keys failed.
#[derive(Debug, PartialEq, Eq)]
pub enum KeyRangeError {
    /// A key read had no next key.
    NoNextKey,
}

/// Reading `num_words` values at consecutive keys from a start key: the
/// caller queries the key that [`KeyRange::next_query`] names, hands the value
/// to [`KeyRange::record`], and repeats until there is no key to query.
pub struct KeyRange {
    start: Ghost<Seq<i64>>,
    key: Vec<i64>,
    remaining: usize,
    reads: Vec<(Vec<i64>, Vec<i64>)>,
}

/// Views of the keys and values read.
pub open spec fn reads_view(v: Seq<(Vec<i64>, Vec<i64>)>) -> Seq<(Seq<i64>, Seq<i64>)> {
    v.map_values(|p: (Vec<i64>, Vec<i64>)| (p.0@, p.1@))
}

impl KeyRange {
    /// The key the reading started at.
    pub closed spec fn spec_start(&self) -> Seq<i64> {
        self.start@
    }

    /// How many values are still to be read.
    pub closed spec fn spec_remaining(&self) -> nat {
        self.remaining as nat
    }

    /// The keys and values read so far, in order.
    pub closed spec fn spec_reads(&self) -> Seq<(Seq<i64>, Seq<i64>)> {
        reads_view(self.reads@)
    }

    /// Well-formedness: the `j`-th read was at the key `j` steps after the
    /// start, and the key to query next is the one after the last read.
    pub closed spec fn wf(&self) -> bool {
        &&& forall|j: int|
            0 <= j < self.reads@.len() ==> spec_nth_key(self.start@, j as nat) == Some(
                #[trigger] self.reads@[j].0@,
            )
        &&& spec_nth_key(self.start@, self.reads@.len() as nat) == Some(self.key@)
    }

    /// Starts reading `num_words` values from `key` on.
    pub fn new(key: Vec<i64>, num_words: usize) -> (s: Self)
        ensures
            s.wf(),
            s.spec_start() == key@,
            s.spec_remaining() == num_words,
            s.spec_reads().len() == 0,
    {
        let ghost k = key@;
        let s = KeyRange { start: Ghost(k), key, remaining: num_words, reads: Vec::new() };
        assert(reads_view(s.reads@) =~= Seq::<(Seq<i64>, Seq<i64>)>::empty());
        s
    }

    /// The key to query next, or `None` once all values are read.
    pub fn next_query(&self) -> (r: Option<&Vec<i64>>)
        requires
            self.wf(),
        ensures
            match r {
                Some(k) => self.spec_remaining() > 0 && spec_nth_key(
                    self.spec_start(),
                    self.spec_reads().len(),
                ) == Some(k@),
                None => self.spec_remaining() == 0,
            },
    {
        if self.remaining > 0 {
            Some(&self.key)
        } else {
            None
        }
    }

    /// Records the value read at the key that [`KeyRange::next_query`] named,
    /// and moves on to the next key. Fails where that key has no next key.
    pub fn record(&mut self, value: Vec<i64>) -> (r: Result<(), KeyRangeError>)
        requires
            old(self).wf(),
            old(self).spec_remaining() > 0,
        ensures
            final(self).spec_start() == old(self).spec_start(),
            final(self).spec_reads() == old(self).spec_reads().push(
                (
                    spec_nth_key(old(self).spec_start(), old(self).spec_reads().len()).unwrap(),
                    value@,
                ),
            ),
            final(self).spec_remaining() == old(self).spec_remaining() - 1,
            match r {
                Ok(()) => final(self).wf(),
                Err(KeyRangeError::NoNextKey) => spec_nth_key(
                    old(self).spec_start(),
                    old(self).spec_reads().len() + 1,
                ) is None,
            },
    {
        let ghost prev = reads_view(self.reads@);
        let ghost n = self.reads@.len();
        let mut key: Vec<i64> = Vec::new();
        core::mem::swap(&mut key, &mut self.key);
        let next = next_key(copy_words(&key));
        let ghost kv = key@;
        self.reads.push((key, value));
        self.remaining = self.remaining - 1;
        assert(reads_view(self.reads@) =~= prev.push((kv, value@)));
        match next {
            Some(k) => {
                self.key = k;
                assert forall|j: int| 0 <= j < self.reads@.len() implies spec_nth_key(
                    self.start@,
                    j as nat,
                ) == Some(#[trigger] self.reads@[j].0@) by {
                    if j < n {
                        assert(self.reads@[j] == old(self).reads@[j]);
                    }
                }
                Ok(())
            },
            None => Err(KeyRangeError::NoNextKey),
        }
    }

    /// The keys and values read, in order.
    pub fn into_reads(self) -> (r: Vec<(Vec<i64>, Vec<i64>)>)
        ensures
            reads_view(r@) == self.spec_reads(),
    {
        self.reads
    }
}

} // verus!
