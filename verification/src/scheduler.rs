//! Parallel reduction scheduler: fans the server phase out by query k-mer.
//! Each query k-mer's whole OR-reduction is one independent unit of work;
//! the only shared state is the read-only evaluation capability and the
//! read-only subject values, and the gathered results keep query order
//! whatever order the workers finish in.
use vstd::prelude::*;

verus! {

use rayon::iter::IntoParallelRefIterator;
use rayon::iter::ParallelIterator;
use crate::codec::{KmerError, width_bits};
use crate::capability::{KeyContext, EncryptedValue, EncryptedBool};
use crate::protocol::{
    Representation, ServerScheme, subject_values, reduce_query, occurs_in_range, subject_vals,
    strs_view, has_any_window, all_windows_valid, compare_results_ok,
};

/// Relies on rayon's `par_iter().map(..).collect()` over a vector: the
/// closure runs once per element, possibly on different worker threads, and
/// the collected vector keeps the input order regardless of completion
/// order. The closure only calls `reduce_query`, whose contract is
/// verified, so each result is that query k-mer's reduction.
#[verifier::external_body]
fn par_reduce_queries(
    ctx: &KeyContext,
    query_kmers: &Vec<EncryptedValue>,
    vals: &Vec<u64>,
    lo: u64,
    hi: u64,
) -> (r: Vec<EncryptedBool>)
    requires
        forall|i: int|
            0 <= i < query_kmers@.len() ==> (#[trigger] query_kmers@[i]).context() == *ctx,
    ensures
        r@.len() == query_kmers@.len(),
        forall|i: int|
            0 <= i < r@.len() ==> (#[trigger] r@[i]).plain() == occurs_in_range(
                vals@,
                lo,
                hi,
                query_kmers@[i].plain(),
            ) && r@[i].context() == *ctx,
{
    query_kmers.par_iter().map(|q| reduce_query(ctx, q, vals, lo, hi)).collect()
}

/// The server phase, fanned out across workers by query k-mer. Same
/// contract as `snp_compare_single`: the scheduling strategy never shows
/// in the results.
pub fn snp_compare_parallel(
    ctx: &KeyContext,
    query_kmers: &Vec<EncryptedValue>,
    k: usize,
    subjects: &Vec<&str>,
    scheme: ServerScheme,
) -> (r: Result<Vec<EncryptedBool>, KmerError>)
    requires
        forall|i: int|
            0 <= i < query_kmers@.len() ==> (#[trigger] query_kmers@[i]).context() == *ctx,
    ensures
        match scheme.rep() {
            Representation::Exact => {
                &&& (has_any_window(strs_view(subjects@), k as nat) && k > 64) ==> r == Result::<
                    Vec<EncryptedBool>,
                    KmerError,
                >::Err(KmerError::KmerTooLong)
                &&& (has_any_window(strs_view(subjects@), k as nat) && k <= 64 && width_bits(
                    k as nat,
                ) != 16) ==> r == Result::<Vec<EncryptedBool>, KmerError>::Err(
                    KmerError::RepresentationMismatch,
                )
                &&& (!has_any_window(strs_view(subjects@), k as nat) || (k <= 64 && width_bits(
                    k as nat,
                ) == 16)) ==> (if all_windows_valid(strs_view(subjects@), k as nat) {
                    compare_results_ok(r, *ctx, query_kmers@, subjects@, k as nat, scheme)
                } else {
                    r == Result::<Vec<EncryptedBool>, KmerError>::Err(KmerError::InvalidCharacter)
                })
            },
            Representation::Hashed(_) => compare_results_ok(
                r,
                *ctx,
                query_kmers@,
                subjects@,
                k as nat,
                scheme,
            ),
        },
{
    let rep = match scheme {
        ServerScheme::Exact { min: _, max: _ } => Representation::Exact,
        ServerScheme::Hashed { seed } => Representation::Hashed(seed),
    };
    let vals = match subject_values(subjects, k, rep) {
        Ok(v) => v,
        Err(e) => { return Err(e) },
    };
    let (lo, hi): (u64, u64) = match scheme {
        ServerScheme::Exact { min, max } => (min as u64, max as u64),
        ServerScheme::Hashed { seed: _ } => (0, u64::MAX),
    };
    let out = par_reduce_queries(ctx, query_kmers, &vals, lo, hi);
    Ok(out)
}

/// Parallel-versus-sequential equivalence law: any two result sequences
/// that satisfy the server phase's contract — one per query k-mer, each the
/// occurrence of that k-mer's value among the eligible subject values — are
/// equal, whichever reduction strategy produced them.
pub proof fn lemma_parallel_matches_sequential(
    seq_out: Seq<bool>,
    par_out: Seq<bool>,
    queries: Seq<u64>,
    vals: Seq<u64>,
    lo: u64,
    hi: u64,
)
    requires
        seq_out.len() == queries.len(),
        par_out.len() == queries.len(),
        forall|i: int|
            0 <= i < queries.len() ==> seq_out[i] == occurs_in_range(
                vals,
                lo,
                hi,
                #[trigger] queries[i],
            ),
        forall|i: int|
            0 <= i < queries.len() ==> par_out[i] == occurs_in_range(
                vals,
                lo,
                hi,
                #[trigger] queries[i],
            ),
    ensures
        seq_out == par_out,
{
    assert forall|i: int| 0 <= i < seq_out.len() implies seq_out[i] == par_out[i] by {
        assert(seq_out[i] == occurs_in_range(vals, lo, hi, queries[i]));
        assert(par_out[i] == occurs_in_range(vals, lo, hi, queries[i]));
    }
    assert(seq_out =~= par_out);
}

} // verus!
