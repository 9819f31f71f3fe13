//! The deferred-statement buffer: a deduplicating, per-candidate queue of
//! statements whose referenced candidate is not yet known.
//!
//! The buffer maps each candidate hash to the ordered list of statements
//! waiting for it, and keeps the set of traces of everything currently
//! buffered. Its invariant: a trace is in the set exactly when one statement
//! with that trace sits in the per-hash lists, and `Candidate` statements are
//! never stored.

use vstd::prelude::*;

use crate::statements::{
    bytes32_eq, hash_for, is_deferrable, spec_trace, stmt_hash, trace_eq, trace_for, trace_hash,
    CandidateHash, SignedStatement, StatementTrace,
};

verus! {

/// The buffer's observable state is untouched: same trace set, same
/// buffered statements for every hash.
pub open spec fn view_unchanged(pre: DeferredStatements, post: DeferredStatements) -> bool {
    &&& post.traces() == pre.traces()
    &&& forall|h: CandidateHash| post.buffered(h) == pre.buffered(h)
}

/// How one `push` turns the buffer state `pre` into `post`: a `Candidate`
/// statement or a duplicate trace leaves the buffer untouched; otherwise the
/// statement is appended to the list for its hash and its trace is recorded.
pub open spec fn push_transition(
    pre: DeferredStatements,
    post: DeferredStatements,
    s: SignedStatement,
) -> bool {
    if !is_deferrable(s) {
        view_unchanged(pre, post)
    } else if pre.traces().contains(spec_trace(s)->Some_0) {
        view_unchanged(pre, post)
    } else {
        &&& post.traces() == pre.traces().insert(spec_trace(s)->Some_0)
        &&& post.buffered(stmt_hash(s)) == pre.buffered(stmt_hash(s)).push(s)
        &&& forall|h: CandidateHash| h != stmt_hash(s) ==> post.buffered(h) == pre.buffered(h)
    }
}

/// How one `drain` of the hash `h` turns `pre` into `post`: the full list
/// for `h` comes out together with one trace per statement, nothing else
/// moves, and exactly those traces leave the trace set.
pub open spec fn drain_transition(
    pre: DeferredStatements,
    post: DeferredStatements,
    h: CandidateHash,
    stmts: Seq<SignedStatement>,
    trs: Seq<StatementTrace>,
) -> bool {
    &&& stmts == pre.buffered(h)
    &&& trs.len() == stmts.len()
    &&& forall|k: int| 0 <= k < stmts.len() ==> Some(#[trigger] trs[k]) == spec_trace(stmts[k])
    &&& post.buffered(h) == Seq::<SignedStatement>::empty()
    &&& forall|h2: CandidateHash| h2 != h ==> post.buffered(h2) == pre.buffered(h2)
    &&& forall|t: StatementTrace|
        #![trigger post.traces().contains(t)]
        #![trigger pre.traces().contains(t)]
        post.traces().contains(t) <==> pre.traces().contains(t) && !trs.contains(t)
}

/// Appending to a sequence adds exactly one member.
proof fn lemma_push_contains<A>(s: Seq<A>, x: A)
    ensures
        forall|t: A| #[trigger] s.push(x).contains(t) <==> (s.contains(t) || t == x),
{
    assert forall|t: A| #[trigger] s.push(x).contains(t) <==> (s.contains(t) || t == x) by {
        if s.push(x).contains(t) {
            let p = choose|p: int| 0 <= p < s.push(x).len() && s.push(x)[p] == t;
            if p < s.len() {
                assert(s[p] == t);
                assert(s.contains(t));
            }
        }
        if s.contains(t) {
            let p = choose|p: int| 0 <= p < s.len() && s[p] == t;
            assert(s.push(x)[p] == t);
            assert(s.push(x).contains(t));
        }
        if t == x {
            assert(s.push(x)[s.len() as int] == t);
            assert(s.push(x).contains(t));
        }
    }
}

/// Removes the trace `t` from a duplicate-free trace list, if it is there.
fn remove_trace(v: &mut Vec<StatementTrace>, t: &StatementTrace)
    requires
        forall|p: int, q: int| 0 <= p < q < old(v)@.len() ==> old(v)@[p] != old(v)@[q],
    ensures
        forall|p: int, q: int| 0 <= p < q < final(v)@.len() ==> final(v)@[p] != final(v)@[q],
        forall|x: StatementTrace| #[trigger]
            final(v)@.contains(x) <==> (old(v)@.contains(x) && x != *t),
{
    let mut j: usize = 0;
    while j < v.len()
        invariant
            j <= v@.len(),
            v@ == old(v)@,
            forall|p: int, q: int| 0 <= p < q < old(v)@.len() ==> old(v)@[p] != old(v)@[q],
            forall|p: int| 0 <= p < j ==> v@[p] != *t,
        decreases v@.len() - j,
    {
        if trace_eq(&v[j], t) {
            let ghost jj = j as int;
            v.remove(j);
            proof {
                old(v)@.remove_ensures(jj);
                assert forall|p: int, q: int| 0 <= p < q < v@.len() implies v@[p] != v@[q] by {
                    let a = if p < jj { p } else { p + 1 };
                    let b = if q < jj { q } else { q + 1 };
                    assert(v@[p] == old(v)@[a]);
                    assert(v@[q] == old(v)@[b]);
                }
                assert forall|x: StatementTrace| #[trigger]
                    v@.contains(x) <==> (old(v)@.contains(x) && x != *t) by {
                    if v@.contains(x) {
                        let p = choose|p: int| 0 <= p < v@.len() && v@[p] == x;
                        let a = if p < jj { p } else { p + 1 };
                        assert(old(v)@[a] == x);
                        assert(old(v)@.contains(x));
                        if x == *t {
                            // a second occurrence of `t` would break distinctness
                            if a < jj {
                                assert(old(v)@[a] != old(v)@[jj]);
                            } else {
                                assert(old(v)@[jj] != old(v)@[a]);
                            }
                        }
                    }
                    if old(v)@.contains(x) && x != *t {
                        let p = choose|p: int| 0 <= p < old(v)@.len() && old(v)@[p] == x;
                        if p < jj {
                            assert(v@[p] == old(v)@[p]);
                            assert(v@.contains(x));
                        } else {
                            assert(p != jj);
                            assert(v@[p - 1] == old(v)@[p]);
                            assert(v@.contains(x));
                        }
                    }
                }
            }
            return ;
        }
        j += 1;
    }
    proof {
        assert(!old(v)@.contains(*t)) by {
            if old(v)@.contains(*t) {
                let p = choose|p: int| 0 <= p < old(v)@.len() && old(v)@[p] == *t;
                assert(v@[p] != *t);
            }
        }
    }
}

/// One candidate hash together with the statements buffered for it, in
/// arrival order.
struct HashEntry {
    hash: CandidateHash,
    statements: Vec<SignedStatement>,
}

/// The deferred-statement buffer.
pub struct DeferredStatements {
    deferred: Vec<HashEntry>,
    known_traces: Vec<StatementTrace>,
}

impl HashEntry {
    /// A stored list is never empty, holds only hash-referencing statements
    /// about this entry's hash, and holds no two statements with one trace.
    spec fn wf(self) -> bool {
        &&& self.statements@.len() > 0
        &&& forall|k: int|
            0 <= k < self.statements@.len() ==> is_deferrable(#[trigger] self.statements@[k])
                && stmt_hash(self.statements@[k]) == self.hash
        &&& forall|k1: int, k2: int|
            0 <= k1 < k2 < self.statements@.len() ==> spec_trace(self.statements@[k1])
                != spec_trace(self.statements@[k2])
    }

    /// Some statement stored in this entry carries the trace `t`.
    spec fn has_trace(self, t: StatementTrace) -> bool {
        exists|k: int|
            0 <= k < self.statements@.len() && spec_trace(#[trigger] self.statements@[k])
                == Some(t)
    }
}

impl DeferredStatements {
    /// Some entry is dedicated to the hash `h`.
    spec fn has_hash(self, h: CandidateHash) -> bool {
        exists|i: int| 0 <= i < self.deferred@.len() && (#[trigger] self.deferred@[i]).hash == h
    }

    /// The index of the entry for `h`; meaningful only when `has_hash(h)`.
    spec fn idx_of(self, h: CandidateHash) -> int {
        choose|i: int| 0 <= i < self.deferred@.len() && (#[trigger] self.deferred@[i]).hash == h
    }

    /// The statements currently buffered for the hash `h`, in arrival order;
    /// empty when nothing is buffered for `h`.
    pub closed spec fn buffered(self, h: CandidateHash) -> Seq<SignedStatement> {
        if self.has_hash(h) {
            self.deferred@[self.idx_of(h)].statements@
        } else {
            Seq::empty()
        }
    }

    /// The set of traces of everything currently buffered.
    pub closed spec fn traces(self) -> Set<StatementTrace> {
        Set::new(|t: StatementTrace| self.known_traces@.contains(t))
    }

    /// Some buffered statement carries the trace `t`.
    spec fn trace_buffered(self, t: StatementTrace) -> bool {
        exists|i: int|
            0 <= i < self.deferred@.len() && (#[trigger] self.deferred@[i]).has_trace(t)
    }

    /// The buffer's invariant: entry hashes are distinct, each entry is
    /// well-formed, and the trace set records exactly the traces of the
    /// buffered statements, each once.
    pub closed spec fn wf(self) -> bool {
        &&& forall|i: int, j: int|
            0 <= i < j < self.deferred@.len() ==> (#[trigger] self.deferred@[i]).hash
                != (#[trigger] self.deferred@[j]).hash
        &&& forall|i: int| 0 <= i < self.deferred@.len() ==> (#[trigger] self.deferred@[i]).wf()
        &&& forall|p: int, q: int|
            0 <= p < q < self.known_traces@.len() ==> self.known_traces@[p]
                != self.known_traces@[q]
        &&& forall|t: StatementTrace| #[trigger]
            self.known_traces@.contains(t) <==> self.trace_buffered(t)
    }

    /// The buffered statements for the hash of entry `i` are exactly that
    /// entry's list.
    proof fn lemma_entry_buffered(self, i: int)
        requires
            forall|p: int, q: int|
                0 <= p < q < self.deferred@.len() ==> (#[trigger] self.deferred@[p]).hash
                    != (#[trigger] self.deferred@[q]).hash,
            0 <= i < self.deferred@.len(),
        ensures
            self.buffered(self.deferred@[i].hash) == self.deferred@[i].statements@,
    {
        let h = self.deferred@[i].hash;
        assert(self.has_hash(h));
        let j = self.idx_of(h);
        assert(0 <= j < self.deferred@.len() && self.deferred@[j].hash == h);
        if i != j {
            assert(self.deferred@[i].hash != self.deferred@[j].hash);
        }
    }

    /// Nothing is buffered for a hash no entry is dedicated to.
    proof fn lemma_absent_buffered(self, h: CandidateHash)
        requires
            forall|j: int| 0 <= j < self.deferred@.len() ==> (#[trigger] self.deferred@[j]).hash != h,
        ensures
            self.buffered(h) == Seq::<SignedStatement>::empty(),
    {
        assert(!self.has_hash(h));
    }

    /// Creates an empty buffer: nothing buffered for any hash, no traces.
    pub fn new() -> (r: DeferredStatements)
        ensures
            r.wf(),
            r.traces() =~= Set::<StatementTrace>::empty(),
            forall|h: CandidateHash| r.buffered(h) == Seq::<SignedStatement>::empty(),
    {
        let r = DeferredStatements { deferred: Vec::new(), known_traces: Vec::new() };
        proof {
            assert forall|h: CandidateHash| r.buffered(h) == Seq::<SignedStatement>::empty() by {
                assert(!r.has_hash(h));
            }
            assert(r.traces() =~= Set::<StatementTrace>::empty());
        }
        r
    }

    /// Whether the trace `t` is currently recorded in the trace set.
    fn contains_trace(&self, t: &StatementTrace) -> (r: bool)
        ensures
            r == self.known_traces@.contains(*t),
    {
        let mut i: usize = 0;
        while i < self.known_traces.len()
            invariant
                i <= self.known_traces@.len(),
                forall|j: int| 0 <= j < i ==> self.known_traces@[j] != *t,
            decreases self.known_traces@.len() - i,
        {
            if trace_eq(&self.known_traces[i], t) {
                assert(self.known_traces@[i as int] == *t);
                return true;
            }
            i += 1;
        }
        false
    }

    /// The index of the entry for `h`, if one exists.
    fn find_entry(&self, h: &CandidateHash) -> (r: Option<usize>)
        ensures
            match r {
                Some(i) => i < self.deferred@.len() && self.deferred@[i as int].hash == *h,
                None => forall|j: int|
                    0 <= j < self.deferred@.len() ==> (#[trigger] self.deferred@[j]).hash != *h,
            },
    {
        let mut i: usize = 0;
        while i < self.deferred.len()
            invariant
                i <= self.deferred@.len(),
                forall|j: int| 0 <= j < i ==> (#[trigger] self.deferred@[j]).hash != *h,
            decreases self.deferred@.len() - i,
        {
            if bytes32_eq(&self.deferred[i].hash, h) {
                return Some(i);
            }
            i += 1;
        }
        None
    }

    /// The entries of `post` are those of `pre`, except that entries for the
    /// hash `h0` may have changed or been added.
    spec fn entries_agree_except(pre: Self, post: Self, h0: CandidateHash) -> bool {
        &&& pre.deferred@.len() <= post.deferred@.len()
        &&& forall|j: int|
            0 <= j < pre.deferred@.len() ==> (#[trigger] post.deferred@[j]).hash
                == pre.deferred@[j].hash
        &&& forall|j: int|
            0 <= j < pre.deferred@.len() && pre.deferred@[j].hash != h0
                ==> #[trigger] post.deferred@[j] == pre.deferred@[j]
        &&& forall|j: int|
            pre.deferred@.len() <= j < post.deferred@.len() ==> (#[trigger] post.deferred@[j]).hash
                == h0
    }

    /// When only the entry for `h0` changed, what is buffered for every other
    /// hash is unchanged.
    proof fn lemma_agree_buffered(pre: Self, post: Self, h0: CandidateHash, h: CandidateHash)
        requires
            Self::entries_agree_except(pre, post, h0),
            h != h0,
            forall|p: int, q: int|
                0 <= p < q < pre.deferred@.len() ==> (#[trigger] pre.deferred@[p]).hash
                    != (#[trigger] pre.deferred@[q]).hash,
            forall|p: int, q: int|
                0 <= p < q < post.deferred@.len() ==> (#[trigger] post.deferred@[p]).hash
                    != (#[trigger] post.deferred@[q]).hash,
        ensures
            post.buffered(h) == pre.buffered(h),
    {
        if pre.has_hash(h) {
            let j = pre.idx_of(h);
            assert(0 <= j < pre.deferred@.len() && pre.deferred@[j].hash == h);
            assert(post.deferred@[j] == pre.deferred@[j]);
            pre.lemma_entry_buffered(j);
            post.lemma_entry_buffered(j);
        } else {
            assert forall|j: int| 0 <= j < post.deferred@.len() implies (#[trigger] post.deferred@[j]).hash != h by {
                if j < pre.deferred@.len() {
                    assert(pre.deferred@[j].hash != h);
                }
            }
            pre.lemma_absent_buffered(h);
            post.lemma_absent_buffered(h);
        }
    }

    /// No statement with a fresh trace sits anywhere in a well-formed buffer
    /// whose trace set does not record it.
    proof fn lemma_fresh_trace_not_stored(pre: Self, trace: StatementTrace)
        requires
            pre.wf(),
            !pre.known_traces@.contains(trace),
        ensures
            forall|j: int, k: int|
                0 <= j < pre.deferred@.len() && 0 <= k < (#[trigger] pre.deferred@[j]).statements@.len()
                    ==> spec_trace(#[trigger] pre.deferred@[j].statements@[k]) != Some(trace),
    {
        assert(!pre.trace_buffered(trace));
        assert forall|j: int, k: int|
            0 <= j < pre.deferred@.len() && 0 <= k < (#[trigger] pre.deferred@[j]).statements@.len()
                implies spec_trace(#[trigger] pre.deferred@[j].statements@[k]) != Some(trace) by {
            if spec_trace(pre.deferred@[j].statements@[k]) == Some(trace) {
                assert(pre.deferred@[j].has_trace(trace));
                assert(pre.trace_buffered(trace));
            }
        }
    }

    /// A trace recorded after the push is either an old one or the new one,
    /// and conversely.
    proof fn lemma_known_after_push(pre: Self, post: Self, trace: StatementTrace)
        requires
            post.known_traces@ == pre.known_traces@.push(trace),
        ensures
            forall|t: StatementTrace| #[trigger]
                post.known_traces@.contains(t) <==> (pre.known_traces@.contains(t) || t == trace),
    {
        assert forall|t: StatementTrace| #[trigger]
            post.known_traces@.contains(t) <==> (pre.known_traces@.contains(t) || t
                == trace) by {
            if post.known_traces@.contains(t) {
                let p = choose|p: int|
                    0 <= p < post.known_traces@.len() && post.known_traces@[p] == t;
                if p < pre.known_traces@.len() {
                    assert(pre.known_traces@[p] == t);
                    assert(pre.known_traces@.contains(t));
                }
            }
            if pre.known_traces@.contains(t) {
                let p = choose|p: int|
                    0 <= p < pre.known_traces@.len() && pre.known_traces@[p] == t;
                assert(post.known_traces@[p] == t);
                assert(post.known_traces@.contains(t));
            }
            if t == trace {
                assert(post.known_traces@[pre.known_traces@.len() as int] == t);
                assert(post.known_traces@.contains(t));
            }
        }
    }

    /// The whole proof for a push that appends to an already-present entry.
    proof fn lemma_push_existing(
        pre: Self,
        post: Self,
        s: SignedStatement,
        trace: StatementTrace,
        hash: CandidateHash,
        ii: int,
    )
        requires
            pre.wf(),
            is_deferrable(s),
            spec_trace(s) == Some(trace),
            stmt_hash(s) == hash,
            !pre.known_traces@.contains(trace),
            post.known_traces@ == pre.known_traces@.push(trace),
            0 <= ii < pre.deferred@.len(),
            pre.deferred@[ii].hash == hash,
            post.deferred@.len() == pre.deferred@.len(),
            forall|j: int|
                0 <= j < pre.deferred@.len() && j != ii ==> #[trigger] post.deferred@[j]
                    == pre.deferred@[j],
            post.deferred@[ii].hash == hash,
            post.deferred@[ii].statements@ == pre.deferred@[ii].statements@.push(s),
        ensures
            post.wf(),
            push_transition(pre, post, s),
    {
        let old_stmts = pre.deferred@[ii].statements@;
        let new_stmts = post.deferred@[ii].statements@;

        // entry hashes are unchanged position by position
        assert forall|j: int|
            0 <= j < post.deferred@.len() implies (#[trigger] post.deferred@[j]).hash
                == pre.deferred@[j].hash by {
            if j != ii {
                assert(post.deferred@[j] == pre.deferred@[j]);
            }
        }
        Self::lemma_fresh_trace_not_stored(pre, trace);

        // each entry stays well-formed; the grown entry gains a fresh trace
        assert forall|j: int| 0 <= j < post.deferred@.len() implies (#[trigger] post.deferred@[j]).wf() by {
            assert(pre.deferred@[j].wf());
            if j == ii {
                assert forall|k: int| 0 <= k < new_stmts.len() implies is_deferrable(
                    #[trigger] new_stmts[k],
                ) && stmt_hash(new_stmts[k]) == post.deferred@[ii].hash by {
                    if k < old_stmts.len() {
                        assert(new_stmts[k] == old_stmts[k]);
                    } else {
                        assert(new_stmts[k] == s);
                    }
                }
                assert forall|k1: int, k2: int|
                    0 <= k1 < k2 < new_stmts.len() implies spec_trace(new_stmts[k1]) != spec_trace(
                    new_stmts[k2],
                ) by {
                    if k2 < old_stmts.len() {
                        assert(new_stmts[k1] == old_stmts[k1] && new_stmts[k2] == old_stmts[k2]);
                    } else {
                        assert(new_stmts[k2] == s);
                        assert(new_stmts[k1] == old_stmts[k1]);
                        assert(spec_trace(old_stmts[k1]) != Some(trace));
                    }
                }
            } else {
                assert(post.deferred@[j] == pre.deferred@[j]);
            }
        }

        // the trace list stays duplicate-free
        assert forall|p: int|
            0 <= p < pre.known_traces@.len() implies pre.known_traces@[p] != trace by {
            if pre.known_traces@[p] == trace {
                assert(pre.known_traces@.contains(trace));
            }
        }
        assert forall|p: int, q: int|
            0 <= p < q < post.known_traces@.len() implies post.known_traces@[p]
                != post.known_traces@[q] by {
            if q == pre.known_traces@.len() {
                assert(post.known_traces@[p] == pre.known_traces@[p]);
                assert(post.known_traces@[q] == trace);
            } else {
                assert(post.known_traces@[p] == pre.known_traces@[p]);
                assert(post.known_traces@[q] == pre.known_traces@[q]);
            }
        }

        // the trace set reflects the buffer again
        Self::lemma_known_after_push(pre, post, trace);
        assert forall|t: StatementTrace| #[trigger]
            post.trace_buffered(t) implies (pre.trace_buffered(t) || t == trace) by {
            let j = choose|j: int|
                0 <= j < post.deferred@.len() && (#[trigger] post.deferred@[j]).has_trace(t);
            if j != ii {
                assert(post.deferred@[j] == pre.deferred@[j]);
                assert(pre.deferred@[j].has_trace(t));
                assert(pre.trace_buffered(t));
            } else {
                let k = choose|k: int|
                    0 <= k < new_stmts.len() && spec_trace(#[trigger] new_stmts[k]) == Some(t);
                if k < old_stmts.len() {
                    assert(new_stmts[k] == old_stmts[k]);
                    assert(pre.deferred@[ii].has_trace(t));
                    assert(pre.trace_buffered(t));
                } else {
                    assert(new_stmts[k] == s);
                }
            }
        }
        assert forall|t: StatementTrace|
            pre.trace_buffered(t) implies #[trigger] post.trace_buffered(t) by {
            let j = choose|j: int|
                0 <= j < pre.deferred@.len() && (#[trigger] pre.deferred@[j]).has_trace(t);
            if j != ii {
                assert(post.deferred@[j] == pre.deferred@[j]);
                assert(post.deferred@[j].has_trace(t));
            } else {
                let k = choose|k: int|
                    0 <= k < old_stmts.len() && spec_trace(#[trigger] old_stmts[k]) == Some(t);
                assert(new_stmts[k] == old_stmts[k]);
                assert(post.deferred@[ii].has_trace(t));
            }
            assert(post.trace_buffered(t));
        }
        assert(new_stmts[old_stmts.len() as int] == s);
        assert(post.deferred@[ii].has_trace(trace));
        assert(post.trace_buffered(trace));
        assert forall|t: StatementTrace| #[trigger]
            post.known_traces@.contains(t) <==> post.trace_buffered(t) by {
            assert(pre.known_traces@.contains(t) <==> pre.trace_buffered(t));
        }

        // the observable transition
        assert(!pre.traces().contains(trace));
        assert(post.traces() =~= pre.traces().insert(trace));
        pre.lemma_entry_buffered(ii);
        post.lemma_entry_buffered(ii);
        assert(post.buffered(hash) == pre.buffered(hash).push(s));
        assert(Self::entries_agree_except(pre, post, hash));
        assert forall|h: CandidateHash| h != hash implies post.buffered(h) == pre.buffered(h) by {
            Self::lemma_agree_buffered(pre, post, hash, h);
        }
    }

    /// The whole proof for a push that creates a new entry for its hash.
    proof fn lemma_push_fresh(
        pre: Self,
        post: Self,
        s: SignedStatement,
        trace: StatementTrace,
        hash: CandidateHash,
    )
        requires
            pre.wf(),
            is_deferrable(s),
            spec_trace(s) == Some(trace),
            stmt_hash(s) == hash,
            !pre.known_traces@.contains(trace),
            post.known_traces@ == pre.known_traces@.push(trace),
            forall|j: int|
                0 <= j < pre.deferred@.len() ==> (#[trigger] pre.deferred@[j]).hash != hash,
            post.deferred@.len() == pre.deferred@.len() + 1,
            forall|j: int|
                0 <= j < pre.deferred@.len() ==> #[trigger] post.deferred@[j] == pre.deferred@[j],
            post.deferred@[pre.deferred@.len() as int].hash == hash,
            post.deferred@[pre.deferred@.len() as int].statements@ == Seq::<
                SignedStatement,
            >::empty().push(s),
        ensures
            post.wf(),
            push_transition(pre, post, s),
    {
        let nn = pre.deferred@.len() as int;
        let new_stmts = post.deferred@[nn].statements@;
        assert(new_stmts.len() == 1);
        assert(new_stmts[0] == s);

        // entry hashes stay distinct: the new entry's hash was absent
        assert forall|p: int, q: int|
            0 <= p < q < post.deferred@.len() implies (#[trigger] post.deferred@[p]).hash
                != (#[trigger] post.deferred@[q]).hash by {
            if q == nn {
                assert(post.deferred@[p] == pre.deferred@[p]);
                assert(pre.deferred@[p].hash != hash);
            } else {
                assert(post.deferred@[p] == pre.deferred@[p]);
                assert(post.deferred@[q] == pre.deferred@[q]);
            }
        }

        // each entry is well-formed; the new one holds a single statement
        assert forall|j: int| 0 <= j < post.deferred@.len() implies (#[trigger] post.deferred@[j]).wf() by {
            if j < nn {
                assert(post.deferred@[j] == pre.deferred@[j]);
                assert(pre.deferred@[j].wf());
            }
        }

        // the trace list stays duplicate-free
        assert forall|p: int|
            0 <= p < pre.known_traces@.len() implies pre.known_traces@[p] != trace by {
            if pre.known_traces@[p] == trace {
                assert(pre.known_traces@.contains(trace));
            }
        }
        assert forall|p: int, q: int|
            0 <= p < q < post.known_traces@.len() implies post.known_traces@[p]
                != post.known_traces@[q] by {
            if q == pre.known_traces@.len() {
                assert(post.known_traces@[p] == pre.known_traces@[p]);
                assert(post.known_traces@[q] == trace);
            } else {
                assert(post.known_traces@[p] == pre.known_traces@[p]);
                assert(post.known_traces@[q] == pre.known_traces@[q]);
            }
        }

        // the trace set reflects the buffer again
        Self::lemma_known_after_push(pre, post, trace);
        assert forall|t: StatementTrace| #[trigger]
            post.trace_buffered(t) implies (pre.trace_buffered(t) || t == trace) by {
            let j = choose|j: int|
                0 <= j < post.deferred@.len() && (#[trigger] post.deferred@[j]).has_trace(t);
            if j < nn {
                assert(post.deferred@[j] == pre.deferred@[j]);
                assert(pre.deferred@[j].has_trace(t));
                assert(pre.trace_buffered(t));
            } else {
                let k = choose|k: int|
                    0 <= k < new_stmts.len() && spec_trace(#[trigger] new_stmts[k]) == Some(t);
                assert(new_stmts[k] == s);
            }
        }
        assert forall|t: StatementTrace|
            pre.trace_buffered(t) implies #[trigger] post.trace_buffered(t) by {
            let j = choose|j: int|
                0 <= j < pre.deferred@.len() && (#[trigger] pre.deferred@[j]).has_trace(t);
            assert(post.deferred@[j] == pre.deferred@[j]);
            assert(post.deferred@[j].has_trace(t));
            assert(post.trace_buffered(t));
        }
        assert(post.deferred@[nn].has_trace(trace));
        assert(post.trace_buffered(trace));
        assert forall|t: StatementTrace| #[trigger]
            post.known_traces@.contains(t) <==> post.trace_buffered(t) by {
            assert(pre.known_traces@.contains(t) <==> pre.trace_buffered(t));
        }

        // the observable transition
        assert(!pre.traces().contains(trace));
        assert(post.traces() =~= pre.traces().insert(trace));
        pre.lemma_absent_buffered(hash);
        post.lemma_entry_buffered(nn);
        assert(post.buffered(hash) == pre.buffered(hash).push(s));
        assert(Self::entries_agree_except(pre, post, hash));
        assert forall|h: CandidateHash| h != hash implies post.buffered(h) == pre.buffered(h) by {
            Self::lemma_agree_buffered(pre, post, hash, h);
        }
    }

    /// Every trace stored in a well-formed entry records that entry's hash.
    proof fn lemma_entry_trace_hash(e: HashEntry, t: StatementTrace)
        requires
            e.wf(),
            e.has_trace(t),
        ensures
            trace_hash(t) == e.hash,
    {
        let k = choose|k: int|
            0 <= k < e.statements@.len() && spec_trace(#[trigger] e.statements@[k]) == Some(t);
        crate::statements::lemma_trace_matches_hash(e.statements@[k]);
    }

    /// The whole proof for a drain that removes the entry at index `ii`.
    proof fn lemma_drain_finish(
        pre: Self,
        post: Self,
        e: HashEntry,
        ii: int,
        h: CandidateHash,
        trs: Seq<StatementTrace>,
    )
        requires
            pre.wf(),
            0 <= ii < pre.deferred@.len(),
            pre.deferred@[ii] == e,
            e.hash == h,
            post.deferred@ == pre.deferred@.remove(ii),
            forall|p: int, q: int|
                0 <= p < q < post.known_traces@.len() ==> post.known_traces@[p]
                    != post.known_traces@[q],
            forall|x: StatementTrace| #[trigger]
                post.known_traces@.contains(x) <==> (pre.known_traces@.contains(x) && !trs.contains(x)),
            trs.len() == e.statements@.len(),
            forall|m: int| 0 <= m < trs.len() ==> Some(#[trigger] trs[m]) == spec_trace(
                e.statements@[m],
            ),
        ensures
            post.wf(),
            drain_transition(pre, post, h, e.statements@, trs),
    {
        pre.deferred@.remove_ensures(ii);

        // the remaining entries are the old ones, shifted past `ii`
        assert forall|p: int, q: int|
            0 <= p < q < post.deferred@.len() implies (#[trigger] post.deferred@[p]).hash
                != (#[trigger] post.deferred@[q]).hash by {
            let a = if p < ii { p } else { p + 1 };
            let b = if q < ii { q } else { q + 1 };
            assert(post.deferred@[p] == pre.deferred@[a]);
            assert(post.deferred@[q] == pre.deferred@[b]);
        }
        assert forall|j: int| 0 <= j < post.deferred@.len() implies (#[trigger] post.deferred@[j]).wf() by {
            let a = if j < ii { j } else { j + 1 };
            assert(post.deferred@[j] == pre.deferred@[a]);
            assert(pre.deferred@[a].wf());
        }

        // the returned traces are exactly those stored in the drained entry
        assert(e.wf());
        assert forall|t: StatementTrace| trs.contains(t) <==> e.has_trace(t) by {
            if trs.contains(t) {
                let m = choose|m: int| 0 <= m < trs.len() && trs[m] == t;
                assert(Some(trs[m]) == spec_trace(e.statements@[m]));
                assert(e.has_trace(t));
            }
            if e.has_trace(t) {
                let k = choose|k: int|
                    0 <= k < e.statements@.len() && spec_trace(#[trigger] e.statements@[k]) == Some(t);
                assert(Some(trs[k]) == spec_trace(e.statements@[k]));
                assert(trs[k] == t);
                assert(trs.contains(t));
            }
        }

        // a trace of the drained entry sits in no remaining entry
        assert forall|t: StatementTrace|
            e.has_trace(t) implies !post.trace_buffered(t) by {
            Self::lemma_entry_trace_hash(e, t);
            if post.trace_buffered(t) {
                let j = choose|j: int|
                    0 <= j < post.deferred@.len() && (#[trigger] post.deferred@[j]).has_trace(t);
                let a = if j < ii { j } else { j + 1 };
                assert(post.deferred@[j] == pre.deferred@[a]);
                Self::lemma_entry_trace_hash(pre.deferred@[a], t);
                if a < ii {
                    assert(pre.deferred@[a].hash != pre.deferred@[ii].hash);
                } else {
                    assert(pre.deferred@[ii].hash != pre.deferred@[a].hash);
                }
            }
        }

        // what is still buffered is what was buffered outside the entry
        assert forall|t: StatementTrace| #[trigger]
            post.trace_buffered(t) <==> (pre.trace_buffered(t) && !e.has_trace(t)) by {
            if post.trace_buffered(t) {
                let j = choose|j: int|
                    0 <= j < post.deferred@.len() && (#[trigger] post.deferred@[j]).has_trace(t);
                let a = if j < ii { j } else { j + 1 };
                assert(post.deferred@[j] == pre.deferred@[a]);
                assert(pre.deferred@[a].has_trace(t));
                assert(pre.trace_buffered(t));
            }
            if pre.trace_buffered(t) && !e.has_trace(t) {
                let a = choose|a: int|
                    0 <= a < pre.deferred@.len() && (#[trigger] pre.deferred@[a]).has_trace(t);
                assert(a != ii);
                let j = if a < ii { a } else { a - 1 };
                assert(post.deferred@[j] == pre.deferred@[a]);
                assert(post.deferred@[j].has_trace(t));
                assert(post.trace_buffered(t));
            }
        }

        // the trace set reflects the buffer again
        assert forall|t: StatementTrace| #[trigger]
            post.known_traces@.contains(t) <==> post.trace_buffered(t) by {
            assert(pre.known_traces@.contains(t) <==> pre.trace_buffered(t));
            assert(trs.contains(t) <==> e.has_trace(t));
        }

        // the observable transition
        pre.lemma_entry_buffered(ii);
        assert(e.statements@ == pre.buffered(h));
        assert forall|j: int| 0 <= j < post.deferred@.len() implies (#[trigger] post.deferred@[j]).hash != h by {
            let a = if j < ii { j } else { j + 1 };
            assert(post.deferred@[j] == pre.deferred@[a]);
            if a < ii {
                assert(pre.deferred@[a].hash != pre.deferred@[ii].hash);
            } else {
                assert(pre.deferred@[ii].hash != pre.deferred@[a].hash);
            }
        }
        post.lemma_absent_buffered(h);
        assert forall|h2: CandidateHash| h2 != h implies post.buffered(h2) == pre.buffered(h2) by {
            if pre.has_hash(h2) {
                let a = pre.idx_of(h2);
                assert(0 <= a < pre.deferred@.len() && pre.deferred@[a].hash == h2);
                assert(a != ii);
                let j = if a < ii { a } else { a - 1 };
                assert(post.deferred@[j] == pre.deferred@[a]);
                pre.lemma_entry_buffered(a);
                post.lemma_entry_buffered(j);
            } else {
                assert forall|j: int|
                    0 <= j < post.deferred@.len() implies (#[trigger] post.deferred@[j]).hash
                        != h2 by {
                    let a = if j < ii { j } else { j + 1 };
                    assert(post.deferred@[j] == pre.deferred@[a]);
                }
                pre.lemma_absent_buffered(h2);
                post.lemma_absent_buffered(h2);
            }
        }
    }

    /// Atomically removes and returns everything buffered for `hash`: the
    /// full list of statements in arrival order and one trace per statement,
    /// which also leave the trace set. When nothing is buffered for `hash`,
    /// two empty lists come back; that is a normal case, never an error.
    pub fn get_deferred(&mut self, hash: &CandidateHash) -> (r: (
        Vec<SignedStatement>,
        Vec<StatementTrace>,
    ))
        requires
            old(self).wf(),
        ensures
            final(self).wf(),
            drain_transition(*old(self), *final(self), *hash, r.0@, r.1@),
    {
        let found = self.find_entry(hash);
        let i = match found {
            None => {
                proof {
                    old(self).lemma_absent_buffered(*hash);
                }
                return (Vec::new(), Vec::new());
            },
            Some(i) => i,
        };
        let ghost ii = i as int;
        let entry = self.deferred.remove(i);
        let ghost stmts0 = entry.statements@;

        let mut traces: Vec<StatementTrace> = Vec::new();
        let mut k: usize = 0;
        proof {
            assert(old(self).deferred@[ii].wf());
        }
        while k < entry.statements.len()
            invariant
                k <= stmts0.len(),
                entry.statements@ == stmts0,
                entry.hash == *hash,
                forall|m: int|
                    0 <= m < stmts0.len() ==> is_deferrable(#[trigger] stmts0[m]) && stmt_hash(
                        stmts0[m],
                    ) == *hash,
                traces@.len() == k,
                forall|m: int| 0 <= m < k ==> Some(#[trigger] traces@[m]) == spec_trace(stmts0[m]),
                self.deferred@ == old(self).deferred@.remove(ii),
                forall|p: int, q: int|
                    0 <= p < q < self.known_traces@.len() ==> self.known_traces@[p]
                        != self.known_traces@[q],
                forall|x: StatementTrace| #[trigger]
                    self.known_traces@.contains(x) <==> (old(self).known_traces@.contains(x)
                        && !traces@.contains(x)),
            decreases stmts0.len() - k,
        {
            let ghost traces_before = traces@;
            let trace_opt = trace_for(&entry.statements[k]);
            let trace = match trace_opt {
                Some(t) => t,
                None => {
                    // the buffer never stores `Candidate` statements
                    vstd::pervasive::unreached()
                },
            };
            remove_trace(&mut self.known_traces, &trace);
            traces.push(trace);
            proof {
                lemma_push_contains(traces_before, trace);
            }
            k += 1;
        }
        proof {
            Self::lemma_drain_finish(
                *old(self),
                *self,
                old(self).deferred@[ii],
                ii,
                *hash,
                traces@,
            );
        }
        (entry.statements, traces)
    }

    /// Buffers a statement for its candidate hash. A `Candidate` statement is
    /// ignored (it is never deferred); a statement whose trace is already
    /// recorded is silently dropped (duplicate gossip); otherwise its trace is
    /// recorded and the statement joins the list for its hash.
    pub fn push(&mut self, statement: SignedStatement)
        requires
            old(self).wf(),
        ensures
            final(self).wf(),
            push_transition(*old(self), *final(self), statement),
    {
        let trace_opt = trace_for(&statement);
        let trace = match trace_opt {
            None => {
                // `Candidate` statements are never deferred
                return ;
            },
            Some(t) => t,
        };
        let hash = hash_for(&statement);

        if self.contains_trace(&trace) {
            // duplicate gossip: absorbed silently, no side effect
            return ;
        }
        self.known_traces.push(trace);

        let found = self.find_entry(&hash);
        match found {
            Some(i) => {
                let mut entry = self.deferred.remove(i);
                entry.statements.push(statement);
                let ghost e0 = entry;
                self.deferred.insert(i, entry);
                proof {
                    let pre = *old(self);
                    let post = *self;
                    let ii = i as int;
                    vstd::seq_lib::lemma_update_is_remove_insert(pre.deferred@, ii, e0);
                    assert(post.deferred@ =~= pre.deferred@.update(ii, e0));
                    assert(e0.hash == hash);
                    assert(e0.statements@ == pre.deferred@[ii].statements@.push(statement));
                    Self::lemma_push_existing(pre, post, statement, trace, hash, ii);
                }
            },
            None => {
                let mut statements = Vec::new();
                statements.push(statement);
                self.deferred.push(HashEntry { hash, statements });
                proof {
                    let pre = *old(self);
                    let post = *self;
                    Self::lemma_push_fresh(pre, post, statement, trace, hash);
                }
            },
        }
    }
}

/// The data-model invariant, observably: a trace is recorded exactly when
/// one statement buffered for its hash carries it.
pub proof fn lemma_trace_set_matches_buffer(b: DeferredStatements, t: StatementTrace)
    requires
        b.wf(),
    ensures
        b.traces().contains(t) <==> (exists|k: int|
            0 <= k < b.buffered(trace_hash(t)).len() && spec_trace(
                #[trigger] b.buffered(trace_hash(t))[k],
            ) == Some(t)),
{
    let h = trace_hash(t);
    if b.traces().contains(t) {
        assert(b.trace_buffered(t));
        let i = choose|i: int|
            0 <= i < b.deferred@.len() && (#[trigger] b.deferred@[i]).has_trace(t);
        DeferredStatements::lemma_entry_trace_hash(b.deferred@[i], t);
        b.lemma_entry_buffered(i);
        let k = choose|k: int|
            0 <= k < b.deferred@[i].statements@.len() && spec_trace(
                #[trigger] b.deferred@[i].statements@[k],
            ) == Some(t);
        assert(spec_trace(b.buffered(h)[k]) == Some(t));
    }
    if exists|k: int|
        0 <= k < b.buffered(h).len() && spec_trace(#[trigger] b.buffered(h)[k]) == Some(t) {
        let k = choose|k: int|
            0 <= k < b.buffered(h).len() && spec_trace(#[trigger] b.buffered(h)[k]) == Some(t);
        assert(b.has_hash(h));
        let i = b.idx_of(h);
        assert(0 <= i < b.deferred@.len() && b.deferred@[i].hash == h);
        assert(b.deferred@[i].has_trace(t));
        assert(b.trace_buffered(t));
        assert(b.known_traces@.contains(t));
    }
}

/// In a well-formed buffer with nothing buffered for `h`, no trace about `h`
/// is recorded; such a buffer is a starting point for `lemma_no_loss`.
pub proof fn lemma_nothing_buffered_no_traces(b: DeferredStatements, h: CandidateHash)
    requires
        b.wf(),
        b.buffered(h) == Seq::<SignedStatement>::empty(),
    ensures
        forall|t: StatementTrace| trace_hash(t) == h ==> !(#[trigger] b.traces().contains(t)),
{
    assert forall|t: StatementTrace|
        trace_hash(t) == h implies !(#[trigger] b.traces().contains(t)) by {
        lemma_trace_set_matches_buffer(b, t);
    }
}

/// Draining a hash with nothing buffered returns two empty sequences and
/// changes nothing, for any hash, always.
pub proof fn lemma_drain_empty(
    pre: DeferredStatements,
    post: DeferredStatements,
    h: CandidateHash,
    stmts: Seq<SignedStatement>,
    trs: Seq<StatementTrace>,
)
    requires
        pre.buffered(h) == Seq::<SignedStatement>::empty(),
        drain_transition(pre, post, h, stmts, trs),
    ensures
        stmts == Seq::<SignedStatement>::empty(),
        trs == Seq::<StatementTrace>::empty(),
        view_unchanged(pre, post),
{
    assert(trs =~= Seq::<StatementTrace>::empty());
    assert forall|t: StatementTrace|
        post.traces().contains(t) == pre.traces().contains(t) by {
        assert(post.traces().contains(t) <==> pre.traces().contains(t) && !trs.contains(t));
        assert(!trs.contains(t));
    }
    assert(post.traces() =~= pre.traces());
}

/// Pushing one hash-referencing statement into a fresh buffer leaves exactly
/// that statement buffered for its hash, under exactly its trace; a drain of
/// that hash therefore returns exactly that statement and its trace.
pub proof fn lemma_push_round_trip(
    pre: DeferredStatements,
    post: DeferredStatements,
    s: SignedStatement,
)
    requires
        pre.traces() == Set::<StatementTrace>::empty(),
        forall|h: CandidateHash| pre.buffered(h) == Seq::<SignedStatement>::empty(),
        is_deferrable(s),
        push_transition(pre, post, s),
    ensures
        post.buffered(stmt_hash(s)) =~= seq![s],
        forall|h: CandidateHash|
            h != stmt_hash(s) ==> post.buffered(h) == Seq::<SignedStatement>::empty(),
        post.traces() =~= set![spec_trace(s)->Some_0],
{
    assert(!pre.traces().contains(spec_trace(s)->Some_0));
    assert(post.buffered(stmt_hash(s)) =~= Seq::<SignedStatement>::empty().push(s));
}

/// Pushing the same signed statement twice is the same as pushing it once:
/// the second push is absorbed without any observable effect.
pub proof fn lemma_duplicate_push_absorbed(
    b0: DeferredStatements,
    b1: DeferredStatements,
    b2: DeferredStatements,
    s: SignedStatement,
)
    requires
        is_deferrable(s),
        push_transition(b0, b1, s),
        push_transition(b1, b2, s),
    ensures
        view_unchanged(b1, b2),
{
    let t = spec_trace(s)->Some_0;
    if b0.traces().contains(t) {
        assert(b1.traces() == b0.traces());
    } else {
        assert(b1.traces() == b0.traces().insert(t));
    }
    assert(b1.traces().contains(t));
}

/// After a drain of `h`, an immediate second drain of `h` returns two empty
/// sequences and changes nothing.
pub proof fn lemma_drain_then_drain(
    b0: DeferredStatements,
    b1: DeferredStatements,
    b2: DeferredStatements,
    h: CandidateHash,
    s1: Seq<SignedStatement>,
    t1: Seq<StatementTrace>,
    s2: Seq<SignedStatement>,
    t2: Seq<StatementTrace>,
)
    requires
        drain_transition(b0, b1, h, s1, t1),
        drain_transition(b1, b2, h, s2, t2),
    ensures
        s2 == Seq::<SignedStatement>::empty(),
        t2 == Seq::<StatementTrace>::empty(),
        view_unchanged(b1, b2),
{
    lemma_drain_empty(b1, b2, h, s2, t2);
}

/// Pushing a `Candidate` statement never changes buffer contents for any
/// hash, nor the trace set.
pub proof fn lemma_candidate_never_buffered(
    pre: DeferredStatements,
    post: DeferredStatements,
    s: SignedStatement,
)
    requires
        s.statement is Candidate,
        push_transition(pre, post, s),
    ensures
        view_unchanged(pre, post),
{
}

/// The inductive step list for `lemma_no_loss`: after the first `n` pushes,
/// exactly the first `n` statements are buffered for `h`, and every recorded
/// trace about `h` belongs to one of them.
proof fn lemma_no_loss_prefix(
    states: Seq<DeferredStatements>,
    stmts: Seq<SignedStatement>,
    h: CandidateHash,
    n: int,
)
    requires
        states.len() == stmts.len() + 1,
        states[0].buffered(h) == Seq::<SignedStatement>::empty(),
        forall|t: StatementTrace|
            trace_hash(t) == h ==> !(#[trigger] states[0].traces().contains(t)),
        forall|i: int|
            0 <= i < stmts.len() ==> push_transition(
                states[i],
                #[trigger] states[i + 1],
                stmts[i],
            ),
        forall|i: int|
            0 <= i < stmts.len() ==> is_deferrable(#[trigger] stmts[i]) && stmt_hash(stmts[i])
                == h,
        forall|i: int, j: int|
            0 <= i < j < stmts.len() ==> spec_trace(stmts[i]) != spec_trace(stmts[j]),
        0 <= n <= stmts.len(),
    ensures
        states[n].buffered(h) == stmts.take(n),
        forall|t: StatementTrace|
            #[trigger] states[n].traces().contains(t) && trace_hash(t) == h ==> exists|m: int|
                0 <= m < n && spec_trace(stmts[m]) == Some(t),
    decreases n,
{
    if n == 0 {
        assert(states[0].buffered(h) =~= stmts.take(0));
    } else {
        lemma_no_loss_prefix(states, stmts, h, n - 1);
        let i = n - 1;
        let s = stmts[n - 1];
        let t = spec_trace(s)->Some_0;
        crate::statements::lemma_trace_matches_hash(s);
        if states[n - 1].traces().contains(t) {
            let m = choose|m: int| 0 <= m < n - 1 && spec_trace(stmts[m]) == Some(t);
            assert(spec_trace(stmts[m]) == spec_trace(stmts[n - 1]));
            assert(false);
        }
        assert(push_transition(states[i], states[i + 1], stmts[i]));
        assert(states[i + 1] == states[n]);
        assert(states[n].buffered(h) == states[n - 1].buffered(h).push(s));
        assert(stmts.take(n - 1).push(s) =~= stmts.take(n));
        assert forall|t2: StatementTrace|
            #[trigger] states[n].traces().contains(t2) && trace_hash(t2) == h implies exists|m: int|
            0 <= m < n && spec_trace(stmts[m]) == Some(t2) by {
            if t2 == t {
                assert(spec_trace(stmts[n - 1]) == Some(t2));
            } else {
                assert(states[n - 1].traces().contains(t2));
                let m = choose|m: int| 0 <= m < n - 1 && spec_trace(stmts[m]) == Some(t2);
                assert(spec_trace(stmts[m]) == Some(t2));
            }
        }
    }
}

/// No loss under serialized concurrency: `n` pushes of statements with `n`
/// pairwise-distinct traces, all about one hash `h` that starts with nothing
/// buffered and no trace recorded, buffer all `n` statements, in push order.
/// Any interleaving of concurrent pushes is such a serialization, since each
/// push is one atomic step.
pub proof fn lemma_no_loss(
    states: Seq<DeferredStatements>,
    stmts: Seq<SignedStatement>,
    h: CandidateHash,
)
    requires
        states.len() == stmts.len() + 1,
        states[0].buffered(h) == Seq::<SignedStatement>::empty(),
        forall|t: StatementTrace|
            trace_hash(t) == h ==> !(#[trigger] states[0].traces().contains(t)),
        forall|i: int|
            0 <= i < stmts.len() ==> push_transition(
                states[i],
                #[trigger] states[i + 1],
                stmts[i],
            ),
        forall|i: int|
            0 <= i < stmts.len() ==> is_deferrable(#[trigger] stmts[i]) && stmt_hash(stmts[i])
                == h,
        forall|i: int, j: int|
            0 <= i < j < stmts.len() ==> spec_trace(stmts[i]) != spec_trace(stmts[j]),
    ensures
        states[states.len() - 1].buffered(h) == stmts,
{
    lemma_no_loss_prefix(states, stmts, h, stmts.len() as int);
    assert(stmts.take(stmts.len() as int) =~= stmts);
}

} // verus!
