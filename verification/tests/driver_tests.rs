use qbench::driver::{
    account_results, handle_result, send_retry_decision, send_with_retry, RetryStep,
};

#[test]
fn test_handle_result_accounts_each_side() {
    let mut ingested: u64 = 0;
    let mut errored: u64 = 0;
    handle_result(Ok(100), &mut ingested, &mut errored);
    handle_result(Err(40), &mut ingested, &mut errored);
    handle_result(Ok(60), &mut ingested, &mut errored);
    assert_eq!(ingested, 160);
    assert_eq!(errored, 40);
}

#[test]
fn test_accounting_disjoint_sums_to_total() {
    // Ingested plus error bytes equal the bytes of every emitted batch.
    let results: Vec<Result<u64, u64>> = vec![Ok(10), Err(5), Ok(20), Err(7), Ok(1)];
    let (ingested, errored) = account_results(&results);
    assert_eq!(ingested, 31);
    assert_eq!(errored, 12);
    assert_eq!(ingested + errored, 43);
}

#[test]
fn test_retry_decision_cases() {
    assert!(matches!(send_retry_decision(true, false, 9), RetryStep::Resolve(Ok(9))));
    assert!(matches!(send_retry_decision(true, true, 9), RetryStep::Resolve(Ok(9))));
    assert!(matches!(send_retry_decision(false, false, 9), RetryStep::Resolve(Err(9))));
    assert!(matches!(send_retry_decision(false, true, 9), RetryStep::RetryAfterDelay));
}

#[test]
fn test_retry_eventually_succeeds() {
    // A sink that fails three times and then succeeds resolves to Ok with
    // the batch's byte count, counted once.
    let attempts = vec![false, false, false, true];
    assert_eq!(send_with_retry(1234, true, &attempts), Some(Ok(1234)));
}

#[test]
fn test_retry_disabled_fails_fast() {
    let attempts = vec![false, true];
    assert_eq!(send_with_retry(1234, false, &attempts), Some(Err(1234)));
}

#[test]
fn test_retry_enabled_never_gives_up() {
    let attempts = vec![false, false, false];
    assert_eq!(send_with_retry(1234, true, &attempts), None);
}

#[test]
fn test_first_attempt_success() {
    let attempts = vec![true];
    assert_eq!(send_with_retry(7, false, &attempts), Some(Ok(7)));
}
