use statement_router::router::{
    validation_verdict, statements_to_sign, ImportOutcome, Produced, Router, ValidationInput,
};
use statement_router::statements::{
    CandidateReceipt, SignedStatement, Statement,
};

fn valid_statement(hash: [u8; 32], sender: [u8; 32]) -> SignedStatement {
    SignedStatement { statement: Statement::Valid(hash), sender, signature: [2; 64] }
}

#[test]
fn session_key_is_the_constructed_identity() {
    let key = [42; 32];
    let router = Router::new(key, None);
    assert_eq!(router.session_key(), key);
}

#[test]
fn early_statement_is_deferred_then_imported_with_its_candidate() {
    let hash = [1; 32];
    let sender = [255; 32];
    let mut router = Router::new([9; 32], Some([8; 32]));

    // Valid(H) arrives before Candidate(H) is known: buffered, no import call
    let valid = valid_statement(hash, sender);
    let outcome = router.import_statement(valid, false);
    assert!(matches!(outcome, ImportOutcome::Deferred));

    // Candidate(H) arrives: one batch with the candidate first, then the
    // previously buffered statement
    let candidate = SignedStatement {
        statement: Statement::Candidate(CandidateReceipt { hash }),
        sender,
        signature: [2; 64],
    };
    let outcome = router.import_statement(candidate, true);
    match outcome {
        ImportOutcome::Imported(batch) => assert_eq!(batch, vec![candidate, valid]),
        ImportOutcome::Deferred => panic!("a candidate statement is never deferred"),
    }

    // the buffer for H was drained: a later candidate import drains nothing
    let outcome = router.import_statement(candidate, true);
    match outcome {
        ImportOutcome::Imported(batch) => assert_eq!(batch, vec![candidate]),
        ImportOutcome::Deferred => panic!("a candidate statement is never deferred"),
    }
}

#[test]
fn statement_for_known_candidate_is_imported_alone() {
    let hash = [3; 32];
    let mut router = Router::new([9; 32], None);
    let valid = valid_statement(hash, [4; 32]);
    let outcome = router.import_statement(valid, true);
    match outcome {
        ImportOutcome::Imported(batch) => assert_eq!(batch, vec![valid]),
        ImportOutcome::Deferred => panic!("known candidates take the proceed path"),
    }
}

#[test]
fn duplicate_deferral_is_absorbed() {
    let hash = [5; 32];
    let sender = [6; 32];
    let mut router = Router::new([9; 32], None);
    let valid = valid_statement(hash, sender);

    assert!(matches!(router.import_statement(valid, false), ImportOutcome::Deferred));
    assert!(matches!(router.import_statement(valid, false), ImportOutcome::Deferred));

    let candidate = SignedStatement {
        statement: Statement::Candidate(CandidateReceipt { hash }),
        sender,
        signature: [2; 64],
    };
    match router.import_statement(candidate, true) {
        // the duplicate deferral was dropped: the batch holds the statement once
        ImportOutcome::Imported(batch) => assert_eq!(batch, vec![candidate, valid]),
        ImportOutcome::Deferred => panic!("a candidate statement is never deferred"),
    }
}

#[test]
fn verdict_without_context_is_no_result() {
    assert_eq!(validation_verdict(ValidationInput::ContextMissing), None);
}

#[test]
fn verdict_accepts_and_rejects() {
    assert_eq!(validation_verdict(ValidationInput::CheckAccepted), Some(true));
    assert_eq!(validation_verdict(ValidationInput::CheckRejected), Some(false));
}

#[test]
fn check_failure_counts_as_invalid() {
    assert_eq!(validation_verdict(ValidationInput::CheckFailed), Some(false));
}

#[test]
fn produced_statements_are_signed_in_order() {
    let hash = [7; 32];
    let validity = Statement::Valid(hash);
    let availability = Statement::Available(hash);

    let both = Produced { validity: Some(validity), availability: Some(availability) };
    assert_eq!(statements_to_sign(&both), vec![validity, availability]);

    let only_validity = Produced { validity: Some(validity), availability: None };
    assert_eq!(statements_to_sign(&only_validity), vec![validity]);

    let only_availability = Produced { validity: None, availability: Some(availability) };
    assert_eq!(statements_to_sign(&only_availability), vec![availability]);

    let neither = Produced { validity: None, availability: None };
    assert_eq!(statements_to_sign(&neither), Vec::new());
}
