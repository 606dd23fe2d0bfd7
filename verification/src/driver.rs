use vstd::prelude::*;

verus! {

/// The bytes of batches that resolved successfully.
pub open spec fn ingested_bytes_of(results: Seq<Result<u64, u64>>) -> int
    decreases results.len(),
{
    if results.len() == 0 {
        0
    } else {
        ingested_bytes_of(results.drop_last()) + (match results.last() {
            Ok(b) => b as int,
            Err(_) => 0,
        })
    }
}

/// The bytes of batches that resolved with a terminal failure.
pub open spec fn error_bytes_of(results: Seq<Result<u64, u64>>) -> int
    decreases results.len(),
{
    if results.len() == 0 {
        0
    } else {
        error_bytes_of(results.drop_last()) + (match results.last() {
            Ok(_) => 0,
            Err(b) => b as int,
        })
    }
}

/// The bytes of all resolved batches, whichever way they resolved.
pub open spec fn total_bytes_of(results: Seq<Result<u64, u64>>) -> int
    decreases results.len(),
{
    if results.len() == 0 {
        0
    } else {
        total_bytes_of(results.drop_last()) + (match results.last() {
            Ok(b) => b as int,
            Err(b) => b as int,
        })
    }
}

/// Accounting is disjoint and exhaustive: the successfully ingested bytes
/// and the ingestion-error bytes sum to the bytes of every batch pulled
/// from the source, over any sequence of send outcomes.
pub proof fn lemma_accounting_disjoint(results: Seq<Result<u64, u64>>)
    ensures
        ingested_bytes_of(results) + error_bytes_of(results) == total_bytes_of(results),
    decreases results.len(),
{
    if results.len() > 0 {
        lemma_accounting_disjoint(results.drop_last());
    }
}

/// Accounts one resolved send into the two running counters: a success
/// adds to the ingested bytes, a terminal failure to the error bytes.
pub fn handle_result(
    result: Result<u64, u64>,
    num_ingested_bytes: &mut u64,
    num_ingestion_error_bytes: &mut u64,
)
    requires
        match result {
            Ok(b) => *old(num_ingested_bytes) + b <= u64::MAX,
            Err(b) => *old(num_ingestion_error_bytes) + b <= u64::MAX,
        },
    ensures
        match result {
            Ok(b) => *final(num_ingested_bytes) == *old(num_ingested_bytes) + b
                && *final(num_ingestion_error_bytes) == *old(num_ingestion_error_bytes),
            Err(b) => *final(num_ingestion_error_bytes) == *old(num_ingestion_error_bytes) + b
                && *final(num_ingested_bytes) == *old(num_ingested_bytes),
        },
{
    match result {
        Ok(bytes) => {
            *num_ingested_bytes = *num_ingested_bytes + bytes;
        },
        Err(bytes) => {
            *num_ingestion_error_bytes = *num_ingestion_error_bytes + bytes;
        },
    }
}

proof fn lemma_prefix_sums(results: Seq<Result<u64, u64>>, i: int)
    requires
        0 <= i <= results.len(),
    ensures
        ingested_bytes_of(results.take(i)) >= 0,
        error_bytes_of(results.take(i)) >= 0,
        total_bytes_of(results.take(i)) <= total_bytes_of(results),
        ingested_bytes_of(results.take(i)) + error_bytes_of(results.take(i)) == total_bytes_of(
            results.take(i),
        ),
{
    lemma_accounting_disjoint(results.take(i));
    lemma_prefix_sums_nonneg(results.take(i));
    lemma_total_grows(results, i);
}

proof fn lemma_prefix_sums_nonneg(results: Seq<Result<u64, u64>>)
    ensures
        ingested_bytes_of(results) >= 0,
        error_bytes_of(results) >= 0,
        total_bytes_of(results) >= 0,
    decreases results.len(),
{
    if results.len() > 0 {
        lemma_prefix_sums_nonneg(results.drop_last());
    }
}

proof fn lemma_total_grows(results: Seq<Result<u64, u64>>, i: int)
    requires
        0 <= i <= results.len(),
    ensures
        total_bytes_of(results.take(i)) <= total_bytes_of(results),
    decreases results.len() - i,
{
    if i < results.len() {
        lemma_total_grows(results, i + 1);
        assert(results.take(i + 1).drop_last() =~= results.take(i));
        assert(total_bytes_of(results.take(i)) <= total_bytes_of(results.take(i + 1)));
    } else {
        assert(results.take(i) =~= results);
    }
}

/// Accounts a whole run of send outcomes at once, returning the ingested
/// and error byte counters.
pub fn account_results(results: &Vec<Result<u64, u64>>) -> (r: (u64, u64))
    requires
        total_bytes_of(results@) <= u64::MAX,
    ensures
        r.0 == ingested_bytes_of(results@),
        r.1 == error_bytes_of(results@),
        r.0 + r.1 == total_bytes_of(results@),
{
    let mut num_ingested_bytes: u64 = 0;
    let mut num_ingestion_error_bytes: u64 = 0;
    let mut i: usize = 0;
    proof {
        assert(results@.take(0) =~= Seq::<Result<u64, u64>>::empty());
    }
    while i < results.len()
        invariant
            total_bytes_of(results@) <= u64::MAX,
            0 <= i <= results@.len(),
            num_ingested_bytes == ingested_bytes_of(results@.take(i as int)),
            num_ingestion_error_bytes == error_bytes_of(results@.take(i as int)),
        decreases results@.len() - i,
    {
        proof {
            lemma_prefix_sums(results@, i + 1);
            lemma_prefix_sums(results@, i as int);
            assert(results@.take(i + 1).drop_last() =~= results@.take(i as int));
            assert(results@.take(i + 1).last() == results@[i as int]);
        }
        handle_result(results[i], &mut num_ingested_bytes, &mut num_ingestion_error_bytes);
        i += 1;
    }
    proof {
        assert(results@.take(results@.len() as int) =~= results@);
        lemma_accounting_disjoint(results@);
    }
    (num_ingested_bytes, num_ingestion_error_bytes)
}

/// What the driver does after one send attempt of a batch.
pub enum RetryStep {
    /// The batch is resolved: `Ok` with its byte count on success, `Err`
    /// with its byte count on terminal failure.
    Resolve(Result<u64, u64>),
    /// Retrying is on and the attempt failed: sleep briefly and send the
    /// same batch again.
    RetryAfterDelay,
}

/// The retry policy of one send attempt: success resolves to `Ok`;
/// failure resolves to `Err` when retrying is off, and asks for another
/// attempt after a delay when it is on.
pub fn send_retry_decision(send_succeeded: bool, retry: bool, batch_num_bytes: u64) -> (r:
    RetryStep)
    ensures
        send_succeeded ==> r == RetryStep::Resolve(Ok::<u64, u64>(batch_num_bytes)),
        !send_succeeded && !retry ==> r == RetryStep::Resolve(Err::<u64, u64>(batch_num_bytes)),
        !send_succeeded && retry ==> r == RetryStep::RetryAfterDelay,
{
    if send_succeeded {
        RetryStep::Resolve(Ok(batch_num_bytes))
    } else if !retry {
        RetryStep::Resolve(Err(batch_num_bytes))
    } else {
        RetryStep::RetryAfterDelay
    }
}

/// How a send with retry resolves, given the success or failure of each
/// successive attempt: `None` when every listed attempt failed with retry
/// on (the loop would still be running).
pub open spec fn spec_retry_outcome(bytes: u64, retry: bool, attempts: Seq<bool>) -> Option<
    Result<u64, u64>,
>
    decreases attempts.len(),
{
    if attempts.len() == 0 {
        None
    } else if attempts[0] {
        Some(Ok(bytes))
    } else if !retry {
        Some(Err(bytes))
    } else {
        spec_retry_outcome(bytes, retry, attempts.drop_first())
    }
}

/// Resolves a batch against a recorded sequence of attempt outcomes: the
/// executable counterpart of `spec_retry_outcome`, built from
/// `send_retry_decision` steps.
pub fn send_with_retry(batch_num_bytes: u64, retry: bool, attempts: &Vec<bool>) -> (r: Option<
    Result<u64, u64>,
>)
    ensures
        r == spec_retry_outcome(batch_num_bytes, retry, attempts@),
{
    let mut i: usize = 0;
    proof {
        assert(attempts@.skip(0) =~= attempts@);
    }
    while i < attempts.len()
        invariant
            0 <= i <= attempts@.len(),
            spec_retry_outcome(batch_num_bytes, retry, attempts@) == spec_retry_outcome(
                batch_num_bytes,
                retry,
                attempts@.skip(i as int),
            ),
        decreases attempts@.len() - i,
    {
        proof {
            assert(attempts@.skip(i as int).len() > 0);
            assert(attempts@.skip(i as int)[0] == attempts@[i as int]);
            assert(attempts@.skip(i as int).drop_first() =~= attempts@.skip(i + 1));
        }
        match send_retry_decision(attempts[i], retry, batch_num_bytes) {
            RetryStep::Resolve(result) => {
                return Some(result);
            },
            RetryStep::RetryAfterDelay => {
                i += 1;
            },
        }
    }
    None
}

/// Retry makes an eventual success a plain success: with retrying on, a
/// sink that fails any number of times and then succeeds resolves the
/// batch as `Ok` with its byte count — so the batch is accounted exactly
/// once, as ingested.
pub proof fn lemma_retry_eventually_ok(bytes: u64, attempts: Seq<bool>)
    requires
        exists|k: int| 0 <= k < attempts.len() && attempts[k],
    ensures
        spec_retry_outcome(bytes, true, attempts) == Some(Ok::<u64, u64>(bytes)),
    decreases attempts.len(),
{
    if !attempts[0] {
        let k = choose|k: int| 0 <= k < attempts.len() && attempts[k];
        assert(attempts.drop_first()[k - 1] == attempts[k]);
        lemma_retry_eventually_ok(bytes, attempts.drop_first());
    }
}

} // verus!
