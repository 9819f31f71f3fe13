use statement_router::buffer::DeferredStatements;
use statement_router::statements::{
    CandidateReceipt, SignedStatement, Statement, StatementTrace,
};

fn signed(statement: Statement, sender: [u8; 32], signature: [u8; 64]) -> SignedStatement {
    SignedStatement { statement, sender, signature }
}

#[test]
fn deferred_statements_works() {
    let mut deferred = DeferredStatements::new();
    let hash = [1; 32];
    let sig = [2; 64];
    let sender = [255; 32];

    let statement = SignedStatement {
        statement: Statement::Valid(hash),
        sender,
        signature: sig,
    };

    // pre-push.
    {
        let (signed, traces) = deferred.get_deferred(&hash);
        assert!(signed.is_empty());
        assert!(traces.is_empty());
    }

    deferred.push(statement.clone());
    deferred.push(statement.clone());

    // draining: second push should have been ignored.
    {
        let (signed, traces) = deferred.get_deferred(&hash);
        assert_eq!(signed.len(), 1);

        assert_eq!(traces.len(), 1);
        assert_eq!(signed[0].clone(), statement);
        assert_eq!(traces[0].clone(), StatementTrace::Valid(sender, hash));
    }

    // after draining
    {
        let (signed, traces) = deferred.get_deferred(&hash);
        assert!(signed.is_empty());
        assert!(traces.is_empty());
    }
}

#[test]
fn drain_of_untouched_hash_is_empty() {
    let mut deferred = DeferredStatements::new();
    for byte in [0u8, 7, 255] {
        let hash = [byte; 32];
        let (signed, traces) = deferred.get_deferred(&hash);
        assert!(signed.is_empty());
        assert!(traces.is_empty());
    }
    // buffering one hash leaves every other hash untouched
    deferred.push(signed(Statement::Valid([1; 32]), [3; 32], [4; 64]));
    let (signed_other, traces_other) = deferred.get_deferred(&[2; 32]);
    assert!(signed_other.is_empty());
    assert!(traces_other.is_empty());
}

#[test]
fn push_then_drain_round_trip() {
    let mut deferred = DeferredStatements::new();
    let hash = [5; 32];
    let sender = [6; 32];
    let s = signed(Statement::Available(hash), sender, [7; 64]);

    deferred.push(s.clone());
    let (stmts, traces) = deferred.get_deferred(&hash);
    assert_eq!(stmts, vec![s]);
    assert_eq!(traces, vec![StatementTrace::Available(sender, hash)]);
}

#[test]
fn candidate_statements_are_never_buffered() {
    let mut deferred = DeferredStatements::new();
    let hash = [9; 32];
    let candidate = signed(
        Statement::Candidate(CandidateReceipt { hash }),
        [1; 32],
        [2; 64],
    );

    deferred.push(candidate);
    let (stmts, traces) = deferred.get_deferred(&hash);
    assert!(stmts.is_empty());
    assert!(traces.is_empty());

    // other statements for the same hash are still buffered independently
    let valid = signed(Statement::Valid(hash), [8; 32], [2; 64]);
    deferred.push(candidate);
    deferred.push(valid.clone());
    let (stmts, traces) = deferred.get_deferred(&hash);
    assert_eq!(stmts, vec![valid]);
    assert_eq!(traces.len(), 1);
}

#[test]
fn distinct_traces_all_kept_in_arrival_order() {
    let mut deferred = DeferredStatements::new();
    let hash = [11; 32];
    // distinct traces: different senders and different kinds
    let mut pushed = Vec::new();
    for i in 0u8..5 {
        let statement = match i % 3 {
            0 => Statement::Valid(hash),
            1 => Statement::Invalid(hash),
            _ => Statement::Available(hash),
        };
        let s = signed(statement, [i; 32], [i; 64]);
        deferred.push(s.clone());
        pushed.push(s);
    }
    let (stmts, traces) = deferred.get_deferred(&hash);
    assert_eq!(stmts, pushed);
    assert_eq!(traces.len(), 5);
}

#[test]
fn same_sender_different_kinds_are_distinct_traces() {
    let mut deferred = DeferredStatements::new();
    let hash = [12; 32];
    let sender = [13; 32];
    let valid = signed(Statement::Valid(hash), sender, [1; 64]);
    let invalid = signed(Statement::Invalid(hash), sender, [1; 64]);

    deferred.push(valid.clone());
    deferred.push(invalid.clone());
    let (stmts, traces) = deferred.get_deferred(&hash);
    assert_eq!(stmts, vec![valid, invalid]);
    assert_eq!(
        traces,
        vec![
            StatementTrace::Valid(sender, hash),
            StatementTrace::Invalid(sender, hash),
        ]
    );
}

#[test]
fn hashes_are_drained_independently() {
    let mut deferred = DeferredStatements::new();
    let h1 = [21; 32];
    let h2 = [22; 32];
    let s1 = signed(Statement::Valid(h1), [1; 32], [1; 64]);
    let s2 = signed(Statement::Invalid(h2), [2; 32], [2; 64]);

    deferred.push(s1.clone());
    deferred.push(s2.clone());

    let (stmts1, _) = deferred.get_deferred(&h1);
    assert_eq!(stmts1, vec![s1]);

    // the other hash is untouched by the first drain
    let (stmts2, traces2) = deferred.get_deferred(&h2);
    assert_eq!(stmts2, vec![s2.clone()]);
    assert_eq!(traces2, vec![StatementTrace::Invalid([2; 32], h2)]);
}

#[test]
fn trace_leaves_set_on_drain_so_repush_is_accepted() {
    let mut deferred = DeferredStatements::new();
    let hash = [30; 32];
    let s = signed(Statement::Valid(hash), [31; 32], [32; 64]);

    deferred.push(s.clone());
    let (first, _) = deferred.get_deferred(&hash);
    assert_eq!(first.len(), 1);

    // after a drain the trace is gone, so the same statement may be buffered again
    deferred.push(s.clone());
    let (second, _) = deferred.get_deferred(&hash);
    assert_eq!(second, vec![s]);
}
