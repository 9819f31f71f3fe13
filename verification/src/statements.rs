//! The statement data model: candidate hashes, validator identities, signed
//! statements, and the deduplication traces derived from them.

use vstd::prelude::*;

verus! {

/// A content hash uniquely identifying a candidate block.
pub type CandidateHash = [u8; 32];

/// An opaque fixed-size identifier for a consensus participant.
pub type SessionKey = [u8; 32];

/// A signature over a statement; assumed already verified upstream.
pub type Signature = [u8; 64];

/// The content a `Candidate` statement introduces. Only its content hash is
/// read by the routing layer; the hash is computed upstream of this crate.
#[derive(Clone, Copy, PartialEq, Eq, Debug)]
pub struct CandidateReceipt {
    pub hash: CandidateHash,
}

/// A typed assertion about a candidate block.
#[derive(Clone, Copy, PartialEq, Eq, Debug)]
pub enum Statement {
    /// Introduces a new candidate; self-describing, never deferred.
    Candidate(CandidateReceipt),
    /// Asserts the candidate with this hash is valid.
    Valid(CandidateHash),
    /// Asserts the candidate with this hash is invalid.
    Invalid(CandidateHash),
    /// Asserts the candidate's data is available.
    Available(CandidateHash),
}

/// A statement together with its sender; the signature is checked before a
/// statement reaches this layer.
#[derive(Clone, Copy, PartialEq, Eq, Debug)]
pub struct SignedStatement {
    pub statement: Statement,
    pub sender: SessionKey,
    pub signature: Signature,
}

/// A deduplication key over (assertion kind, sender, candidate hash), defined
/// for the three hash-referencing statement kinds only.
#[derive(Clone, Copy, PartialEq, Eq, Debug)]
pub enum StatementTrace {
    Valid(SessionKey, CandidateHash),
    Invalid(SessionKey, CandidateHash),
    Available(SessionKey, CandidateHash),
}

/// A statement may sit in the deferred buffer exactly when it refers to a
/// candidate by hash; `Candidate` statements are never deferred.
pub open spec fn is_deferrable(s: SignedStatement) -> bool {
    !(s.statement is Candidate)
}

/// The candidate hash a statement is about: the hash of the introduced
/// content for `Candidate`, the referenced hash otherwise.
pub open spec fn stmt_hash(s: SignedStatement) -> CandidateHash {
    match s.statement {
        Statement::Candidate(c) => c.hash,
        Statement::Valid(h) => h,
        Statement::Invalid(h) => h,
        Statement::Available(h) => h,
    }
}

/// The deduplication trace of a statement; `None` for `Candidate`.
pub open spec fn spec_trace(s: SignedStatement) -> Option<StatementTrace> {
    match s.statement {
        Statement::Candidate(_) => None,
        Statement::Valid(h) => Some(StatementTrace::Valid(s.sender, h)),
        Statement::Invalid(h) => Some(StatementTrace::Invalid(s.sender, h)),
        Statement::Available(h) => Some(StatementTrace::Available(s.sender, h)),
    }
}

/// The candidate hash recorded inside a trace.
pub open spec fn trace_hash(t: StatementTrace) -> CandidateHash {
    match t {
        StatementTrace::Valid(_, h) => h,
        StatementTrace::Invalid(_, h) => h,
        StatementTrace::Available(_, h) => h,
    }
}

/// A trace always records the hash of the statement it was derived from.
pub proof fn lemma_trace_matches_hash(s: SignedStatement)
    requires
        is_deferrable(s),
    ensures
        spec_trace(s) is Some,
        trace_hash(spec_trace(s)->Some_0) == stmt_hash(s),
{
}

/// Byte-for-byte equality of two 32-byte identifiers.
pub fn bytes32_eq(a: &[u8; 32], b: &[u8; 32]) -> (r: bool)
    ensures
        r == (*a == *b),
{
    broadcast use vstd::array::group_array_axioms;

    let mut i: usize = 0;
    while i < 32
        invariant
            i <= 32,
            forall|j: int| 0 <= j < i ==> a[j] == b[j],
        decreases 32 - i,
    {
        if a[i] != b[i] {
            return false;
        }
        i += 1;
    }
    proof {
        assert(*a =~= *b);
    }
    true
}

/// Equality of two traces: same kind, same sender, same hash.
pub fn trace_eq(a: &StatementTrace, b: &StatementTrace) -> (r: bool)
    ensures
        r == (*a == *b),
{
    match (a, b) {
        (StatementTrace::Valid(s1, h1), StatementTrace::Valid(s2, h2)) => {
            bytes32_eq(s1, s2) && bytes32_eq(h1, h2)
        }
        (StatementTrace::Invalid(s1, h1), StatementTrace::Invalid(s2, h2)) => {
            bytes32_eq(s1, s2) && bytes32_eq(h1, h2)
        }
        (StatementTrace::Available(s1, h1), StatementTrace::Available(s2, h2)) => {
            bytes32_eq(s1, s2) && bytes32_eq(h1, h2)
        }
        _ => false,
    }
}

/// The candidate hash a statement is about, as executable code.
pub fn hash_for(s: &SignedStatement) -> (r: CandidateHash)
    ensures
        r == stmt_hash(*s),
{
    match &s.statement {
        Statement::Candidate(c) => c.hash,
        Statement::Valid(h) => *h,
        Statement::Invalid(h) => *h,
        Statement::Available(h) => *h,
    }
}

/// The deduplication trace of a statement, as executable code.
pub fn trace_for(s: &SignedStatement) -> (r: Option<StatementTrace>)
    ensures
        r == spec_trace(*s),
{
    match &s.statement {
        Statement::Candidate(_) => None,
        Statement::Valid(h) => Some(StatementTrace::Valid(s.sender, *h)),
        Statement::Invalid(h) => Some(StatementTrace::Invalid(s.sender, *h)),
        Statement::Available(h) => Some(StatementTrace::Available(s.sender, *h)),
    }
}

} // verus!
