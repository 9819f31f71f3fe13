//! The statement import router: the decision procedure for each incoming
//! signed statement, and the pure decisions of the asynchronous follow-up
//! pipeline.
//!
//! A statement that refers to a candidate the consensus table does not yet
//! know is deferred into the buffer. A `Candidate` statement is never
//! deferred: it resolves deferral for the others, so the buffer for its hash
//! is drained and the whole batch is imported in one call. Whether the
//! candidate is known is the consensus table's answer; the surrounding node
//! queries the table and hands the answer in, performs the import call this
//! router decides on, and runs the producers' asynchronous validation.

use vstd::prelude::*;

use crate::buffer::{drain_transition, push_transition, DeferredStatements};
use crate::statements::{
    is_deferrable, spec_trace, stmt_hash, CandidateHash, SessionKey, SignedStatement, Statement,
};

verus! {

/// An identifier for a (checked) parent block, the context captured at the
/// router's construction; without it follow-up validation cannot run.
pub type BlockId = [u8; 32];

/// What the router decided for one incoming statement.
pub enum ImportOutcome {
    /// The candidate is not yet known: the statement was buffered, and the
    /// consensus table is not called at all.
    Deferred,
    /// The candidate is known (or the statement introduces it): this batch is
    /// to be submitted to the consensus table's import in one call.
    Imported(Vec<SignedStatement>),
}

/// The trace of each statement of a drained list, in the same order.
pub open spec fn traces_of(stmts: Seq<SignedStatement>) -> Seq<
    crate::statements::StatementTrace,
> {
    Seq::new(stmts.len(), |k: int| spec_trace(stmts[k])->Some_0)
}

/// The statement-routing state for one consensus round: the local session
/// key, the optional checked parent-block context, and the exclusively owned
/// deferred-statement buffer.
pub struct Router {
    local_key: SessionKey,
    parent: Option<BlockId>,
    deferred: DeferredStatements,
}

impl Router {
    /// This router's validator identity.
    pub closed spec fn key(self) -> SessionKey {
        self.local_key
    }

    /// The checked parent-block context, if one was captured.
    pub closed spec fn parent_context(self) -> Option<BlockId> {
        self.parent
    }

    /// The deferred-statement buffer.
    pub closed spec fn buffer(self) -> DeferredStatements {
        self.deferred
    }

    /// The router is well-formed when its buffer is.
    pub open spec fn wf(self) -> bool {
        self.buffer().wf()
    }

    /// Creates a router for one round, with an empty buffer.
    pub fn new(local_key: SessionKey, parent: Option<BlockId>) -> (r: Router)
        ensures
            r.wf(),
            r.key() == local_key,
            r.parent_context() == parent,
            r.buffer().traces() =~= Set::<crate::statements::StatementTrace>::empty(),
            forall|h: CandidateHash|
                r.buffer().buffered(h) == Seq::<SignedStatement>::empty(),
    {
        Router { local_key, parent, deferred: DeferredStatements::new() }
    }

    /// This router's associated validator identity; pure accessor.
    pub fn session_key(&self) -> (r: SessionKey)
        ensures
            r == self.key(),
    {
        self.local_key
    }

    /// The decision procedure for one incoming signed statement, whose
    /// signature has been checked already. `candidate_known` is the consensus
    /// table's answer to whether the statement's candidate hash is already
    /// known; it is ignored for `Candidate` statements, which are never
    /// deferred.
    ///
    /// A hash-referencing statement for an unknown candidate is buffered and
    /// nothing more happens on this call. Otherwise the returned batch — the
    /// statement itself followed, for a `Candidate` statement, by everything
    /// that was buffered for its hash, in arrival order — is to be handed to
    /// the consensus table's import as one call.
    pub fn import_statement(&mut self, statement: SignedStatement, candidate_known: bool) -> (r:
        ImportOutcome)
        requires
            old(self).wf(),
        ensures
            final(self).wf(),
            final(self).key() == old(self).key(),
            final(self).parent_context() == old(self).parent_context(),
            statement.statement is Candidate ==> {
                &&& r matches ImportOutcome::Imported(batch) && batch@ == seq![statement]
                    + old(self).buffer().buffered(stmt_hash(statement))
                &&& drain_transition(
                    old(self).buffer(),
                    final(self).buffer(),
                    stmt_hash(statement),
                    old(self).buffer().buffered(stmt_hash(statement)),
                    traces_of(old(self).buffer().buffered(stmt_hash(statement))),
                )
            },
            is_deferrable(statement) && !candidate_known ==> {
                &&& r is Deferred
                &&& push_transition(old(self).buffer(), final(self).buffer(), statement)
            },
            is_deferrable(statement) && candidate_known ==> {
                &&& r matches ImportOutcome::Imported(batch) && batch@ == seq![statement]
                &&& final(self).buffer() == old(self).buffer()
            },
    {
        // defer any statement whose candidate we have not imported yet
        let defer = match &statement.statement {
            Statement::Candidate(_) => false,
            Statement::Valid(_) => !candidate_known,
            Statement::Invalid(_) => !candidate_known,
            Statement::Available(_) => !candidate_known,
        };
        if defer {
            self.deferred.push(statement);
            return ImportOutcome::Deferred;
        }

        // import all statements pending on this candidate together with it
        let pending = match &statement.statement {
            Statement::Candidate(c) => {
                let h = c.hash;
                let (pending, traces) = self.deferred.get_deferred(&h);
                proof {
                    assert(traces@ =~= traces_of(pending@));
                }
                pending
            },
            _ => Vec::new(),
        };

        let mut batch: Vec<SignedStatement> = Vec::new();
        batch.push(statement);
        let mut idx: usize = 0;
        while idx < pending.len()
            invariant
                idx <= pending@.len(),
                batch@ == seq![statement] + pending@.take(idx as int),
            decreases pending@.len() - idx,
        {
            batch.push(pending[idx]);
            proof {
                assert(batch@ =~= seq![statement] + pending@.take(idx as int + 1));
            }
            idx += 1;
        }
        proof {
            assert(pending@.take(pending@.len() as int) =~= pending@);
            assert(batch@ == seq![statement] + pending@);
        }
        ImportOutcome::Imported(batch)
    }
}

/// What the asynchronous validation pipeline observed for one producer,
/// before the verdict is drawn.
#[derive(Clone, Copy, PartialEq, Eq, Debug)]
pub enum ValidationInput {
    /// No checked parent-block context was captured at the router's
    /// construction: the check cannot run at all.
    ContextMissing,
    /// The collation-validity check ran and accepted the collation.
    CheckAccepted,
    /// The collation-validity check ran and rejected the collation.
    CheckRejected,
    /// The collation-validity check itself failed (fetch failure, internal
    /// error); treated conservatively, never escalated.
    CheckFailed,
}

/// The verdict the validation predicate yields: `None` when the context is
/// missing (a silent, expected outcome), otherwise whether the collation is
/// valid, with check failures counted as invalid.
pub open spec fn spec_verdict(v: ValidationInput) -> Option<bool> {
    match v {
        ValidationInput::ContextMissing => None,
        ValidationInput::CheckAccepted => Some(true),
        ValidationInput::CheckRejected => Some(false),
        ValidationInput::CheckFailed => Some(false),
    }
}

/// Draws the validation verdict for one producer: no context means no
/// result; an error from the check is treated as invalid, logged by the
/// caller, never propagated as a fault.
pub fn validation_verdict(v: ValidationInput) -> (r: Option<bool>)
    ensures
        r == spec_verdict(v),
{
    match v {
        ValidationInput::ContextMissing => None,
        ValidationInput::CheckAccepted => Some(true),
        ValidationInput::CheckRejected => Some(false),
        ValidationInput::CheckFailed => Some(false),
    }
}

/// What one producer yielded once its verdict was definite: an optional
/// validity statement and an optional availability statement, both per the
/// consensus table's own policy, opaque to this layer.
#[derive(Clone, Copy, PartialEq, Eq, Debug)]
pub struct Produced {
    pub validity: Option<Statement>,
    pub availability: Option<Statement>,
}

/// The statements a producer's yield sends to the table's local signing and
/// re-import: the validity statement, if any, then the availability
/// statement, if any.
pub open spec fn produced_statements(p: Produced) -> Seq<Statement> {
    match (p.validity, p.availability) {
        (Some(v), Some(a)) => seq![v, a],
        (Some(v), None) => seq![v],
        (None, Some(a)) => seq![a],
        (None, None) => Seq::empty(),
    }
}

/// Lists what a producer's yield hands to `sign_and_import`, in order. Each
/// returned statement is signed by the table and re-imported directly: the
/// candidate is known by then, so re-import never defers.
pub fn statements_to_sign(produced: &Produced) -> (r: Vec<Statement>)
    ensures
        r@ == produced_statements(*produced),
{
    let mut r: Vec<Statement> = Vec::new();
    if let Some(v) = produced.validity {
        r.push(v);
    }
    if let Some(a) = produced.availability {
        r.push(a);
    }
    proof {
        assert(r@ =~= produced_statements(*produced));
    }
    r
}

} // verus!
