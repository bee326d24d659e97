//! Encrypted matching protocol: the client packs or fingerprints the query's
//! k-mers and encrypts them; the server compares each encrypted query k-mer
//! against every subject k-mer's plaintext representation homomorphically and
//! OR-reduces the outcomes into one encrypted boolean per query k-mer; the
//! client decrypts, in query order.
use vstd::prelude::*;

verus! {

use vstd::string::StrSliceExecFns;
use vstd::arithmetic::power2::{lemma2_to64, lemma_pow2_strictly_increases};
use crate::codec::{
    KmerError, KmerType, ToUInt, encode_val, valid_kmer, width_bits, binary_encode,
};
use crate::fingerprint::{murmur32, spec_murmur32};
use crate::windows::{spec_windows, k_mer};
use crate::capability::{
    KeyContext, EncryptedValue, EncryptedBool, encrypt_u16, encrypt_u32, eq_scalar, or_bool,
    trivial_bool, decrypt_bool,
};

/// How the query's k-mers are represented as plaintext integers before
/// encryption: exact 2-bit packing, or the 32-bit fingerprint under a seed.
/// One choice covers the whole query set.
#[derive(Clone, Copy, PartialEq, Eq, Structural, Debug)]
pub enum Representation {
    Exact,
    Hashed(u32),
}

/// The view of a vector of string slices as a sequence of char sequences.
pub open spec fn strs_view(v: Seq<&str>) -> Seq<Seq<char>> {
    v.map_values(|s: &str| s@)
}

/// The fingerprint of a k-mer string: the hash of its UTF-8 bytes.
pub open spec fn hashed_val(w: Seq<char>, seed: u32) -> u32 {
    spec_murmur32(vstd::utf8::encode_utf8(w), seed)
}

/// The plaintext integer standing for one k-mer under a representation.
pub open spec fn rep_val(rep: Representation, w: Seq<char>) -> u64 {
    match rep {
        Representation::Exact => encode_val(w) as u64,
        Representation::Hashed(seed) => hashed_val(w, seed) as u64,
    }
}

/// The representation values of all windows of one sequence, in order.
pub open spec fn window_vals(rep: Representation, s: Seq<char>, k: nat) -> Seq<u64> {
    spec_windows(s, k).map_values(|w: Seq<char>| rep_val(rep, w))
}

/// The representation values of all windows of all subjects, subject by
/// subject, in order.
pub open spec fn subject_vals(rep: Representation, subjects: Seq<Seq<char>>, k: nat) -> Seq<u64>
    decreases subjects.len(),
{
    if subjects.len() == 0 {
        Seq::empty()
    } else {
        subject_vals(rep, subjects.drop_last(), k) + window_vals(rep, subjects.last(), k)
    }
}

/// `qv` occurs among `vals`.
pub open spec fn occurs_in(vals: Seq<u64>, qv: u64) -> bool {
    exists|i: int| 0 <= i < vals.len() && vals[i] == qv
}

/// `qv` occurs among the values of `vals` that lie in `[lo, hi]`.
pub open spec fn occurs_in_range(vals: Seq<u64>, lo: u64, hi: u64, qv: u64) -> bool {
    exists|i: int| 0 <= i < vals.len() && lo <= #[trigger] vals[i] <= hi && vals[i] == qv
}

/// Some sequence of `subjects` yields at least one window under `k`.
pub open spec fn has_any_window(subjects: Seq<Seq<char>>, k: nat) -> bool {
    exists|si: int| 0 <= si < subjects.len() && spec_windows(#[trigger] subjects[si], k).len() > 0
}

/// Every window of every subject holds only nucleotide letters.
pub open spec fn all_windows_valid(subjects: Seq<Seq<char>>, k: nat) -> bool {
    forall|si: int, wi: int|
        0 <= si < subjects.len() && 0 <= wi < spec_windows(#[trigger] subjects[si], k).len()
            ==> valid_kmer(#[trigger] spec_windows(subjects[si], k)[wi])
}

/// The boolean the protocol reports for each query window: whether its
/// representation value occurs among all the subjects' window values.
pub open spec fn match_results(
    rep: Representation,
    query: Seq<char>,
    subjects: Seq<Seq<char>>,
    k: nat,
) -> Seq<bool> {
    window_vals(rep, query, k).map_values(
        |qv: u64| occurs_in(subject_vals(rep, subjects, k), qv),
    )
}

/// The representation value of one window, as executable code.
/// For the exact representation the window must have valid characters and
/// a length that packs into 16 bits.
fn window_rep_value(w: &str, rep: Representation) -> (r: Result<u64, KmerError>)
    ensures
        match rep {
            Representation::Exact => {
                &&& w@.len() > 64 ==> r == Result::<u64, KmerError>::Err(KmerError::KmerTooLong)
                &&& w@.len() <= 64 && width_bits(w@.len()) != 16 ==> r == Result::<
                    u64,
                    KmerError,
                >::Err(KmerError::RepresentationMismatch)
                &&& w@.len() <= 64 && width_bits(w@.len()) == 16 && !valid_kmer(w@) ==> r
                    == Result::<u64, KmerError>::Err(KmerError::InvalidCharacter)
                &&& w@.len() <= 64 && width_bits(w@.len()) == 16 && valid_kmer(w@) ==> (r matches
                Ok(v) && v == rep_val(rep, w@))
            },
            Representation::Hashed(_) => r matches Ok(v) && v == rep_val(rep, w@),
        },
{
    match rep {
        Representation::Exact => {
            let l = w.unicode_len();
            if l > 64 {
                return Err(KmerError::KmerTooLong);
            }
            if !(l >= 5 && l <= 8) {
                return Err(KmerError::RepresentationMismatch);
            }
            let packed = match binary_encode(w) {
                Ok(p) => p,
                Err(e) => { return Err(e) },
            };
            let v16 = match packed.to_u16() {
                Ok(v) => v,
                Err(e) => { return Err(e) },
            };
            Ok(v16 as u64)
        },
        Representation::Hashed(seed) => Ok(murmur32(w.as_bytes(), seed) as u64),
    }
}

/// Every window of one sequence holds only nucleotide letters.
pub open spec fn seq_windows_valid(s: Seq<char>, k: nat) -> bool {
    forall|wi: int|
        0 <= wi < spec_windows(s, k).len() ==> valid_kmer(#[trigger] spec_windows(s, k)[wi])
}

/// The representation values of all windows of one sequence, in order.
/// Under the exact representation the sequence's windows must pack into
/// 16 bits with valid characters; errors follow the codec's taxonomy.
fn sequence_values(s: &str, k: usize, rep: Representation) -> (r: Result<Vec<u64>, KmerError>)
    ensures
        match rep {
            Representation::Exact => {
                &&& (spec_windows(s@, k as nat).len() > 0 && k > 64) ==> r == Result::<
                    Vec<u64>,
                    KmerError,
                >::Err(KmerError::KmerTooLong)
                &&& (spec_windows(s@, k as nat).len() > 0 && k <= 64 && width_bits(k as nat)
                    != 16) ==> r == Result::<Vec<u64>, KmerError>::Err(
                    KmerError::RepresentationMismatch,
                )
                &&& (spec_windows(s@, k as nat).len() == 0 || (k <= 64 && width_bits(k as nat)
                    == 16)) ==> (if seq_windows_valid(s@, k as nat) {
                    r matches Ok(v) && v@ == window_vals(rep, s@, k as nat)
                } else {
                    r == Result::<Vec<u64>, KmerError>::Err(KmerError::InvalidCharacter)
                })
            },
            Representation::Hashed(_) => r matches Ok(v) && v@ == window_vals(rep, s@, k as nat),
        },
{
    let ws = k_mer(s, k);
    if ws.len() > 0 {
        if let Representation::Exact = rep {
            if k > 64 {
                return Err(KmerError::KmerTooLong);
            }
            if k < 5 || k > 8 {
                return Err(KmerError::RepresentationMismatch);
            }
        }
    }
    let mut vals: Vec<u64> = Vec::new();
    let mut i: usize = 0;
    while i < ws.len()
        invariant
            i <= ws@.len(),
            ws@.len() == spec_windows(s@, k as nat).len(),
            forall|j: int| 0 <= j < ws@.len() ==> (#[trigger] ws@[j])@ == spec_windows(
                s@,
                k as nat,
            )[j],
            ws@.len() > 0 && rep is Exact ==> 5 <= k <= 8,
            vals@ == window_vals(rep, s@, k as nat).take(i as int),
            forall|j: int| 0 <= j < i ==> valid_kmer(#[trigger] spec_windows(s@, k as nat)[j])
                || rep is Hashed,
        decreases ws@.len() - i,
    {
        let w = ws[i];
        proof {
            assert(w@ == spec_windows(s@, k as nat)[i as int]);
            assert(w@.len() == crate::windows::effective_k(s@.len(), k as nat));
        }
        let v = match window_rep_value(w, rep) {
            Ok(v) => v,
            Err(e) => { return Err(e) },
        };
        vals.push(v);
        proof {
            assert(vals@ =~= window_vals(rep, s@, k as nat).take(i + 1));
        }
        i = i + 1;
    }
    proof {
        assert(vals@ =~= window_vals(rep, s@, k as nat));
    }
    Ok(vals)
}

/// The representation values of all windows of all subjects, subject by
/// subject, in window order. This is the plaintext side of the server
/// phase; errors follow the codec's taxonomy under the exact
/// representation, and the hashed representation accepts any text.
pub fn subject_values(subjects: &Vec<&str>, k: usize, rep: Representation) -> (r: Result<
    Vec<u64>,
    KmerError,
>)
    ensures
        match rep {
            Representation::Exact => {
                &&& (has_any_window(strs_view(subjects@), k as nat) && k > 64) ==> r == Result::<
                    Vec<u64>,
                    KmerError,
                >::Err(KmerError::KmerTooLong)
                &&& (has_any_window(strs_view(subjects@), k as nat) && k <= 64 && width_bits(
                    k as nat,
                ) != 16) ==> r == Result::<Vec<u64>, KmerError>::Err(
                    KmerError::RepresentationMismatch,
                )
                &&& (!has_any_window(strs_view(subjects@), k as nat) || (k <= 64 && width_bits(
                    k as nat,
                ) == 16)) ==> (if all_windows_valid(strs_view(subjects@), k as nat) {
                    r matches Ok(v) && v@ == subject_vals(rep, strs_view(subjects@), k as nat)
                } else {
                    r == Result::<Vec<u64>, KmerError>::Err(KmerError::InvalidCharacter)
                })
            },
            Representation::Hashed(_) => r matches Ok(v) && v@ == subject_vals(
                rep,
                strs_view(subjects@),
                k as nat,
            ),
        },
{
    let ghost sv = strs_view(subjects@);
    let mut vals: Vec<u64> = Vec::new();
    let mut si: usize = 0;
    while si < subjects.len()
        invariant
            si <= subjects@.len(),
            sv == strs_view(subjects@),
            sv.len() == subjects@.len(),
            forall|j: int| 0 <= j < sv.len() ==> sv[j] == (#[trigger] subjects@[j])@,
            vals@ == subject_vals(rep, sv.take(si as int), k as nat),
            rep is Exact ==> forall|j: int|
                0 <= j < si ==> (spec_windows(#[trigger] sv[j], k as nat).len() == 0 || (k <= 64
                    && width_bits(k as nat) == 16)),
            rep is Exact ==> forall|j: int, wi: int|
                0 <= j < si && 0 <= wi < spec_windows(#[trigger] sv[j], k as nat).len()
                    ==> valid_kmer(#[trigger] spec_windows(sv[j], k as nat)[wi]),
        decreases subjects@.len() - si,
    {
        let subject = subjects[si];
        let ghost swin = spec_windows(subject@, k as nat);
        let mut part = match sequence_values(subject, k, rep) {
            Ok(v) => v,
            Err(e) => {
                proof {
                    assert(sv[si as int] == subject@);
                    assert(swin.len() > 0);
                    assert(has_any_window(sv, k as nat));
                    if !(k > 64) && !(width_bits(k as nat) != 16) {
                        assert(!seq_windows_valid(subject@, k as nat));
                        let wi = choose|wi: int|
                            0 <= wi < swin.len() && !valid_kmer(#[trigger] swin[wi]);
                        assert(!valid_kmer(spec_windows(sv[si as int], k as nat)[wi]));
                        assert(!all_windows_valid(sv, k as nat));
                    }
                }
                return Err(e);
            },
        };
        vals.append(&mut part);
        proof {
            assert(sv.take(si + 1).drop_last() =~= sv.take(si as int));
            assert(sv.take(si + 1).last() == sv[si as int]);
            assert(vals@ =~= subject_vals(rep, sv.take(si + 1), k as nat));
        }
        si = si + 1;
    }
    proof {
        assert(sv.take(sv.len() as int) =~= sv);
        if rep is Exact && !(k <= 64 && width_bits(k as nat) == 16) {
            assert forall|j: int| 0 <= j < sv.len() implies spec_windows(
                #[trigger] sv[j],
                k as nat,
            ).len() == 0 by {}
            assert(!has_any_window(sv, k as nat));
        }
    }
    Ok(vals)
}

proof fn lemma_occurs_push(vals: Seq<u64>, v: u64, lo: u64, hi: u64, qv: u64)
    ensures
        occurs_in_range(vals.push(v), lo, hi, qv) == (occurs_in_range(vals, lo, hi, qv) || (lo <= v
            <= hi && v == qv)),
{
    if occurs_in_range(vals.push(v), lo, hi, qv) {
        let i = choose|i: int|
            0 <= i < vals.push(v).len() && lo <= #[trigger] vals.push(v)[i] <= hi && vals.push(
                v,
            )[i] == qv;
        if i < vals.len() {
            assert(vals[i] == vals.push(v)[i]);
            assert(occurs_in_range(vals, lo, hi, qv));
        } else {
            assert(vals.push(v)[i] == v);
        }
    }
    if occurs_in_range(vals, lo, hi, qv) {
        let i = choose|i: int| 0 <= i < vals.len() && lo <= #[trigger] vals[i] <= hi && vals[i] == qv;
        assert(vals.push(v)[i] == vals[i]);
        assert(occurs_in_range(vals.push(v), lo, hi, qv));
    }
    if lo <= v <= hi && v == qv {
        assert(vals.push(v)[vals.len() as int] == v);
        assert(occurs_in_range(vals.push(v), lo, hi, qv));
    }
}

/// With a full range, occurrence within the range is plain occurrence.
pub proof fn lemma_occurs_full_range(vals: Seq<u64>, qv: u64)
    ensures
        occurs_in_range(vals, 0, u64::MAX, qv) == occurs_in(vals, qv),
{
    if occurs_in(vals, qv) {
        let i = choose|i: int| 0 <= i < vals.len() && vals[i] == qv;
        assert(0 <= #[trigger] vals[i] <= u64::MAX);
        assert(occurs_in_range(vals, 0, u64::MAX, qv));
    }
}

/// The homomorphic equality test between one encrypted query k-mer and one
/// subject k-mer's plaintext representation value.
pub fn equality_test(ctx: &KeyContext, query_kmer: &EncryptedValue, subject_val: u64) -> (r:
    EncryptedBool)
    requires
        query_kmer.context() == *ctx,
    ensures
        r.plain() == (query_kmer.plain() == subject_val),
        r.context() == *ctx,
{
    eq_scalar(ctx, query_kmer, subject_val)
}

/// The OR-reduction of one query k-mer against every eligible subject value:
/// an equality test per value within `[lo, hi]`, OR-combined. With no
/// eligible value the result is a defined encrypted `false`, never an empty
/// reduction.
pub fn reduce_query(
    ctx: &KeyContext,
    query_kmer: &EncryptedValue,
    vals: &Vec<u64>,
    lo: u64,
    hi: u64,
) -> (r: EncryptedBool)
    requires
        query_kmer.context() == *ctx,
    ensures
        r.plain() == occurs_in_range(vals@, lo, hi, query_kmer.plain()),
        r.context() == *ctx,
{
    let mut acc = trivial_bool(ctx, false);
    let mut i: usize = 0;
    proof {
        assert(vals@.take(0) =~= Seq::<u64>::empty());
    }
    while i < vals.len()
        invariant
            i <= vals@.len(),
            query_kmer.context() == *ctx,
            acc.context() == *ctx,
            acc.plain() == occurs_in_range(vals@.take(i as int), lo, hi, query_kmer.plain()),
        decreases vals@.len() - i,
    {
        let v = vals[i];
        if lo <= v && v <= hi {
            let e = equality_test(ctx, query_kmer, v);
            acc = or_bool(ctx, &acc, &e);
        }
        proof {
            assert(vals@.take(i + 1) =~= vals@.take(i as int).push(vals@[i as int]));
            lemma_occurs_push(vals@.take(i as int), vals@[i as int], lo, hi, query_kmer.plain());
        }
        i = i + 1;
    }
    proof {
        assert(vals@.take(vals@.len() as int) =~= vals@);
    }
    acc
}

/// What the server phase is given besides the encrypted query: the
/// representation in use, and, for the exact one, the public plaintext
/// bound `[min, max]` derived from the query set.
#[derive(Clone, Copy, PartialEq, Eq, Structural, Debug)]
pub enum ServerScheme {
    Exact { min: u16, max: u16 },
    Hashed { seed: u32 },
}

impl ServerScheme {
    /// The representation this scheme compares under.
    pub open spec fn rep(self) -> Representation {
        match self {
            ServerScheme::Exact { min: _, max: _ } => Representation::Exact,
            ServerScheme::Hashed { seed } => Representation::Hashed(seed),
        }
    }

    /// Lower end of the eligibility bound; no bound under hashing.
    pub open spec fn lo(self) -> u64 {
        match self {
            ServerScheme::Exact { min, max: _ } => min as u64,
            ServerScheme::Hashed { seed: _ } => 0,
        }
    }

    /// Upper end of the eligibility bound; no bound under hashing.
    pub open spec fn hi(self) -> u64 {
        match self {
            ServerScheme::Exact { min: _, max } => max as u64,
            ServerScheme::Hashed { seed: _ } => u64::MAX,
        }
    }
}

/// Filter soundness law: excluding values outside `[lo, hi]` never changes
/// whether `qv` occurs, as long as `qv` itself lies within the bound.
pub proof fn lemma_filter_sound(vals: Seq<u64>, lo: u64, hi: u64, qv: u64)
    requires
        lo <= qv <= hi,
    ensures
        occurs_in_range(vals, lo, hi, qv) == occurs_in(vals, qv),
{
    if occurs_in_range(vals, lo, hi, qv) {
        let i = choose|i: int| 0 <= i < vals.len() && lo <= #[trigger] vals[i] <= hi && vals[i] == qv;
        assert(occurs_in(vals, qv));
    }
    if occurs_in(vals, qv) {
        let i = choose|i: int| 0 <= i < vals.len() && vals[i] == qv;
        assert(lo <= #[trigger] vals[i] <= hi);
        assert(occurs_in_range(vals, lo, hi, qv));
    }
}

/// The server phase, sequentially: for each encrypted query k-mer in order,
/// the OR-reduction of its homomorphic equality tests against every eligible
/// subject k-mer value.
pub fn snp_compare_single(
    ctx: &KeyContext,
    query_kmers: &Vec<EncryptedValue>,
    k: usize,
    subjects: &Vec<&str>,
    scheme: ServerScheme,
) -> (r: Result<Vec<EncryptedBool>, KmerError>)
    requires
        forall|i: int|
            0 <= i < query_kmers@.len() ==> (#[trigger] query_kmers@[i]).context() == *ctx,
    ensures
        match scheme.rep() {
            Representation::Exact => {
                &&& (has_any_window(strs_view(subjects@), k as nat) && k > 64) ==> r == Result::<
                    Vec<EncryptedBool>,
                    KmerError,
                >::Err(KmerError::KmerTooLong)
                &&& (has_any_window(strs_view(subjects@), k as nat) && k <= 64 && width_bits(
                    k as nat,
                ) != 16) ==> r == Result::<Vec<EncryptedBool>, KmerError>::Err(
                    KmerError::RepresentationMismatch,
                )
                &&& (!has_any_window(strs_view(subjects@), k as nat) || (k <= 64 && width_bits(
                    k as nat,
                ) == 16)) ==> (if all_windows_valid(strs_view(subjects@), k as nat) {
                    compare_results_ok(r, *ctx, query_kmers@, subjects@, k as nat, scheme)
                } else {
                    r == Result::<Vec<EncryptedBool>, KmerError>::Err(KmerError::InvalidCharacter)
                })
            },
            Representation::Hashed(_) => compare_results_ok(
                r,
                *ctx,
                query_kmers@,
                subjects@,
                k as nat,
                scheme,
            ),
        },
{
    let rep = match scheme {
        ServerScheme::Exact { min: _, max: _ } => Representation::Exact,
        ServerScheme::Hashed { seed } => Representation::Hashed(seed),
    };
    let vals = match subject_values(subjects, k, rep) {
        Ok(v) => v,
        Err(e) => { return Err(e) },
    };
    let (lo, hi): (u64, u64) = match scheme {
        ServerScheme::Exact { min, max } => (min as u64, max as u64),
        ServerScheme::Hashed { seed: _ } => (0, u64::MAX),
    };
    let mut out: Vec<EncryptedBool> = Vec::new();
    let mut i: usize = 0;
    while i < query_kmers.len()
        invariant
            i <= query_kmers@.len(),
            forall|j: int|
                0 <= j < query_kmers@.len() ==> (#[trigger] query_kmers@[j]).context() == *ctx,
            vals@ == subject_vals(scheme.rep(), strs_view(subjects@), k as nat),
            lo == scheme.lo(),
            hi == scheme.hi(),
            out@.len() == i,
            forall|j: int|
                0 <= j < i ==> (#[trigger] out@[j]).plain() == occurs_in_range(
                    subject_vals(scheme.rep(), strs_view(subjects@), k as nat),
                    scheme.lo(),
                    scheme.hi(),
                    query_kmers@[j].plain(),
                ) && out@[j].context() == *ctx,
        decreases query_kmers@.len() - i,
    {
        let q = &query_kmers[i];
        let b = reduce_query(ctx, q, &vals, lo, hi);
        out.push(b);
        i = i + 1;
    }
    Ok(out)
}

/// Encrypts a set of exactly packed query k-mers, order-preserving; every
/// packed value must be of the 16-bit width.
pub fn encrypt_kmers(ctx: &KeyContext, kmers: &Vec<KmerType>) -> (r: Result<
    Vec<EncryptedValue>,
    KmerError,
>)
    ensures
        (forall|i: int| 0 <= i < kmers@.len() ==> (#[trigger] kmers@[i]).width() == 16) ==> (r
            matches Ok(v) && v@.len() == kmers@.len() && forall|i: int|
            0 <= i < v@.len() ==> (#[trigger] v@[i]).plain() == kmers@[i].value() as u64
                && v@[i].context() == *ctx),
        (exists|i: int| 0 <= i < kmers@.len() && (#[trigger] kmers@[i]).width() != 16) ==> r
            == Result::<Vec<EncryptedValue>, KmerError>::Err(KmerError::RepresentationMismatch),
{
    let mut out: Vec<EncryptedValue> = Vec::new();
    let mut i: usize = 0;
    while i < kmers.len()
        invariant
            i <= kmers@.len(),
            out@.len() == i,
            forall|j: int| 0 <= j < i ==> (#[trigger] kmers@[j]).width() == 16,
            forall|j: int|
                0 <= j < i ==> (#[trigger] out@[j]).plain() == kmers@[j].value() as u64
                    && out@[j].context() == *ctx,
        decreases kmers@.len() - i,
    {
        let v16 = match kmers[i].to_u16() {
            Ok(v) => v,
            Err(e) => {
                proof {
                    assert(kmers@[i as int].width() != 16);
                }
                return Err(e);
            },
        };
        out.push(encrypt_u16(ctx, v16));
        i = i + 1;
    }
    Ok(out)
}

/// Encrypts a set of query k-mer fingerprints, order-preserving.
pub fn encrypt_kmer_hashes(ctx: &KeyContext, kmer_hashes: &Vec<u32>) -> (r: Vec<EncryptedValue>)
    ensures
        r@.len() == kmer_hashes@.len(),
        forall|i: int|
            0 <= i < r@.len() ==> (#[trigger] r@[i]).plain() == kmer_hashes@[i] as u64
                && r@[i].context() == *ctx,
{
    let mut out: Vec<EncryptedValue> = Vec::new();
    let mut i: usize = 0;
    while i < kmer_hashes.len()
        invariant
            i <= kmer_hashes@.len(),
            out@.len() == i,
            forall|j: int|
                0 <= j < i ==> (#[trigger] out@[j]).plain() == kmer_hashes@[j] as u64
                    && out@[j].context() == *ctx,
        decreases kmer_hashes@.len() - i,
    {
        out.push(encrypt_u32(ctx, kmer_hashes[i]));
        i = i + 1;
    }
    out
}

/// Decrypts the server's encrypted booleans, in the same order as the
/// original query k-mers.
pub fn decrypt_results(ctx: &KeyContext, results: &Vec<EncryptedBool>) -> (out: Vec<bool>)
    requires
        forall|i: int| 0 <= i < results@.len() ==> (#[trigger] results@[i]).context() == *ctx,
    ensures
        out@.len() == results@.len(),
        forall|i: int| 0 <= i < out@.len() ==> out@[i] == (#[trigger] results@[i]).plain(),
{
    let mut out: Vec<bool> = Vec::new();
    let mut i: usize = 0;
    while i < results.len()
        invariant
            i <= results@.len(),
            forall|j: int| 0 <= j < results@.len() ==> (#[trigger] results@[j]).context() == *ctx,
            out@.len() == i,
            forall|j: int| 0 <= j < i ==> out@[j] == (#[trigger] results@[j]).plain(),
        decreases results@.len() - i,
    {
        let b = decrypt_bool(ctx, &results[i]);
        out.push(b);
        i = i + 1;
    }
    out
}

/// The server phase against one subject, accumulating into `results`: on
/// the first subject one encrypted boolean is pushed per query k-mer, and
/// every later subject ORs its outcome into the accumulated one. A subject
/// without a window leaves `results` untouched. Calling this once per
/// subject over an initially empty vector reduces the whole subject set.
pub fn snp_compare(
    ctx: &KeyContext,
    query_kmers: &Vec<EncryptedValue>,
    k: usize,
    subject: &str,
    scheme: ServerScheme,
    results: &mut Vec<EncryptedBool>,
) -> (r: Result<(), KmerError>)
    requires
        old(results).len() == 0 || old(results).len() == query_kmers.len(),
        forall|i: int|
            0 <= i < query_kmers@.len() ==> (#[trigger] query_kmers@[i]).context() == *ctx,
        forall|i: int| 0 <= i < old(results)@.len() ==> (#[trigger] old(results)@[i]).context()
            == *ctx,
    ensures
        forall|i: int| 0 <= i < final(results)@.len() ==> (#[trigger] final(results)@[i]).context()
            == *ctx,
        r is Err ==> final(results)@ == old(results)@,
        match scheme.rep() {
            Representation::Exact => {
                &&& (spec_windows(subject@, k as nat).len() > 0 && k > 64) ==> r == Result::<
                    (),
                    KmerError,
                >::Err(KmerError::KmerTooLong)
                &&& (spec_windows(subject@, k as nat).len() > 0 && k <= 64 && width_bits(k as nat)
                    != 16) ==> r == Result::<(), KmerError>::Err(KmerError::RepresentationMismatch)
                &&& (spec_windows(subject@, k as nat).len() == 0 || (k <= 64 && width_bits(
                    k as nat,
                ) == 16)) ==> (if seq_windows_valid(subject@, k as nat) {
                    r is Ok && snp_compare_post(
                        old(results)@,
                        final(results)@,
                        query_kmers@,
                        subject@,
                        k as nat,
                        scheme,
                    )
                } else {
                    r == Result::<(), KmerError>::Err(KmerError::InvalidCharacter)
                })
            },
            Representation::Hashed(_) => r is Ok && snp_compare_post(
                old(results)@,
                final(results)@,
                query_kmers@,
                subject@,
                k as nat,
                scheme,
            ),
        },
{
    let rep = match scheme {
        ServerScheme::Exact { min: _, max: _ } => Representation::Exact,
        ServerScheme::Hashed { seed } => Representation::Hashed(seed),
    };
    let svals = match sequence_values(subject, k, rep) {
        Ok(v) => v,
        Err(e) => { return Err(e) },
    };
    if svals.len() == 0 {
        return Ok(());
    }
    let (lo, hi): (u64, u64) = match scheme {
        ServerScheme::Exact { min, max } => (min as u64, max as u64),
        ServerScheme::Hashed { seed: _ } => (0, u64::MAX),
    };
    if results.len() == 0 {
        let mut i: usize = 0;
        while i < query_kmers.len()
            invariant
                i <= query_kmers@.len(),
                forall|j: int|
                    0 <= j < query_kmers@.len() ==> (#[trigger] query_kmers@[j]).context() == *ctx,
                svals@ == window_vals(scheme.rep(), subject@, k as nat),
                lo == scheme.lo(),
                hi == scheme.hi(),
                results@.len() == i,
                forall|j: int|
                    0 <= j < i ==> (#[trigger] results@[j]).plain() == occurs_in_range(
                        window_vals(scheme.rep(), subject@, k as nat),
                        scheme.lo(),
                        scheme.hi(),
                        query_kmers@[j].plain(),
                    ) && results@[j].context() == *ctx,
            decreases query_kmers@.len() - i,
        {
            let b = reduce_query(ctx, &query_kmers[i], &svals, lo, hi);
            results.push(b);
            i = i + 1;
        }
    } else {
        let mut merged: Vec<EncryptedBool> = Vec::new();
        let mut i: usize = 0;
        while i < query_kmers.len()
            invariant
                i <= query_kmers@.len(),
                results@ == old(results)@,
                results@.len() == query_kmers@.len(),
                forall|j: int|
                    0 <= j < query_kmers@.len() ==> (#[trigger] query_kmers@[j]).context() == *ctx,
                forall|j: int|
                    0 <= j < results@.len() ==> (#[trigger] results@[j]).context() == *ctx,
                svals@ == window_vals(scheme.rep(), subject@, k as nat),
                lo == scheme.lo(),
                hi == scheme.hi(),
                merged@.len() == i,
                forall|j: int|
                    0 <= j < i ==> (#[trigger] merged@[j]).plain() == (old(results)@[j].plain()
                        || occurs_in_range(
                        window_vals(scheme.rep(), subject@, k as nat),
                        scheme.lo(),
                        scheme.hi(),
                        query_kmers@[j].plain(),
                    )) && merged@[j].context() == *ctx,
            decreases query_kmers@.len() - i,
        {
            let b = reduce_query(ctx, &query_kmers[i], &svals, lo, hi);
            let m = or_bool(ctx, &results[i], &b);
            merged.push(m);
            i = i + 1;
        }
        *results = merged;
    }
    Ok(())
}

/// What one accumulating compare step leaves behind. A subject without a
/// window changes nothing. Otherwise: with an empty accumulator, each
/// query k-mer's occurrence among this subject's eligible k-mer values;
/// with a full one, the OR of the accumulated boolean and that occurrence.
pub open spec fn snp_compare_post(
    before: Seq<EncryptedBool>,
    after: Seq<EncryptedBool>,
    query_kmers: Seq<EncryptedValue>,
    subject: Seq<char>,
    k: nat,
    scheme: ServerScheme,
) -> bool {
    if spec_windows(subject, k).len() == 0 {
        after == before
    } else {
        &&& after.len() == query_kmers.len()
        &&& forall|i: int|
            0 <= i < after.len() ==> (#[trigger] after[i]).plain() == ((if before.len() > 0 {
                before[i].plain()
            } else {
                false
            }) || occurs_in_range(
                window_vals(scheme.rep(), subject, k),
                scheme.lo(),
                scheme.hi(),
                query_kmers[i].plain(),
            ))
    }
}

/// What a successful server compare returns: one encrypted boolean per
/// query k-mer, in query order, each encrypting whether that k-mer's value
/// occurs among the subjects' eligible k-mer values.
pub open spec fn compare_results_ok(
    r: Result<Vec<EncryptedBool>, KmerError>,
    ctx: KeyContext,
    query_kmers: Seq<EncryptedValue>,
    subjects: Seq<&str>,
    k: nat,
    scheme: ServerScheme,
) -> bool {
    &&& r matches Ok(out)
    &&& r matches Ok(out) ==> {
        &&& out@.len() == query_kmers.len()
        &&& forall|i: int|
            0 <= i < out@.len() ==> (#[trigger] out@[i]).plain() == occurs_in_range(
                subject_vals(scheme.rep(), strs_view(subjects), k),
                scheme.lo(),
                scheme.hi(),
                query_kmers[i].plain(),
            ) && out@[i].context() == ctx
    }
}

proof fn lemma_occurs_in_push(vals: Seq<u64>, v: u64, qv: u64)
    ensures
        occurs_in(vals.push(v), qv) == (occurs_in(vals, qv) || v == qv),
{
    if occurs_in(vals.push(v), qv) {
        let i = choose|i: int| 0 <= i < vals.push(v).len() && vals.push(v)[i] == qv;
        if i < vals.len() {
            assert(vals[i] == vals.push(v)[i]);
            assert(occurs_in(vals, qv));
        } else {
            assert(vals.push(v)[i] == v);
        }
    }
    if occurs_in(vals, qv) {
        let i = choose|i: int| 0 <= i < vals.len() && vals[i] == qv;
        assert(vals.push(v)[i] == vals[i]);
        assert(occurs_in(vals.push(v), qv));
    }
    if v == qv {
        assert(vals.push(v)[vals.len() as int] == v);
        assert(occurs_in(vals.push(v), qv));
    }
}

/// Whether `qv` occurs among `vals`, by a linear scan.
pub fn contains_val(vals: &Vec<u64>, qv: u64) -> (r: bool)
    ensures
        r == occurs_in(vals@, qv),
{
    let mut found = false;
    let mut i: usize = 0;
    proof {
        assert(vals@.take(0) =~= Seq::<u64>::empty());
    }
    while i < vals.len()
        invariant
            i <= vals@.len(),
            found == occurs_in(vals@.take(i as int), qv),
        decreases vals@.len() - i,
    {
        if vals[i] == qv {
            found = true;
        }
        proof {
            assert(vals@.take(i + 1) =~= vals@.take(i as int).push(vals@[i as int]));
            lemma_occurs_in_push(vals@.take(i as int), vals@[i as int], qv);
        }
        i = i + 1;
    }
    proof {
        assert(vals@.take(vals@.len() as int) =~= vals@);
    }
    found
}

/// The reference semantics of the matching protocol, computed in the
/// clear: one boolean per query k-mer in window order, true exactly when
/// its representation value occurs among the subjects' k-mer values.
pub fn match_plain(query: &str, subjects: &Vec<&str>, k: usize, rep: Representation) -> (r: Result<
    Vec<bool>,
    KmerError,
>)
    ensures
        match rep {
            Representation::Exact => {
                &&& (spec_windows(query@, k as nat).len() > 0 && k > 64) ==> r == Result::<
                    Vec<bool>,
                    KmerError,
                >::Err(KmerError::KmerTooLong)
                &&& (spec_windows(query@, k as nat).len() > 0 && k <= 64 && width_bits(k as nat)
                    != 16) ==> r == Result::<Vec<bool>, KmerError>::Err(
                    KmerError::RepresentationMismatch,
                )
                &&& (spec_windows(query@, k as nat).len() == 0) ==> (r matches Ok(out) && out@
                    == match_results(rep, query@, strs_view(subjects@), k as nat))
                &&& (spec_windows(query@, k as nat).len() > 0 && k <= 64 && width_bits(k as nat)
                    == 16) ==> (if seq_windows_valid(query@, k as nat) && all_windows_valid(
                    strs_view(subjects@),
                    k as nat,
                ) {
                    r matches Ok(out) && out@ == match_results(
                        rep,
                        query@,
                        strs_view(subjects@),
                        k as nat,
                    )
                } else {
                    r == Result::<Vec<bool>, KmerError>::Err(KmerError::InvalidCharacter)
                })
            },
            Representation::Hashed(_) => r matches Ok(out) && out@ == match_results(
                rep,
                query@,
                strs_view(subjects@),
                k as nat,
            ),
        },
{
    let qvals = match sequence_values(query, k, rep) {
        Ok(v) => v,
        Err(e) => { return Err(e) },
    };
    if qvals.len() == 0 {
        proof {
            assert(match_results(rep, query@, strs_view(subjects@), k as nat)
                =~= Seq::<bool>::empty());
        }
        return Ok(Vec::new());
    }
    let svals = match subject_values(subjects, k, rep) {
        Ok(v) => v,
        Err(e) => { return Err(e) },
    };
    let mut out: Vec<bool> = Vec::new();
    let mut i: usize = 0;
    while i < qvals.len()
        invariant
            i <= qvals@.len(),
            qvals@ == window_vals(rep, query@, k as nat),
            svals@ == subject_vals(rep, strs_view(subjects@), k as nat),
            out@.len() == i,
            forall|j: int|
                0 <= j < i ==> out@[j] == occurs_in(
                    subject_vals(rep, strs_view(subjects@), k as nat),
                    #[trigger] qvals@[j],
                ),
        decreases qvals@.len() - i,
    {
        let b = contains_val(&svals, qvals[i]);
        out.push(b);
        i = i + 1;
    }
    proof {
        assert(out@ =~= match_results(rep, query@, strs_view(subjects@), k as nat));
    }
    Ok(out)
}

/// The whole protocol for one query: the client packs or fingerprints the
/// query's k-mers and encrypts them; the server compares and OR-reduces
/// homomorphically, fanned out by query k-mer; the client decrypts. The
/// reported sequence equals the reference semantics `match_results`, in
/// query window order, and depends only on the query, the subjects, `k`
/// and the representation — never on the key context.
pub fn match_query(
    query: &str,
    subjects: &Vec<&str>,
    k: usize,
    rep: Representation,
    ctx: &KeyContext,
) -> (r: Result<Vec<bool>, KmerError>)
    ensures
        match rep {
            Representation::Exact => {
                &&& (spec_windows(query@, k as nat).len() > 0 && k > 64) ==> r == Result::<
                    Vec<bool>,
                    KmerError,
                >::Err(KmerError::KmerTooLong)
                &&& (spec_windows(query@, k as nat).len() > 0 && k <= 64 && width_bits(k as nat)
                    != 16) ==> r == Result::<Vec<bool>, KmerError>::Err(
                    KmerError::RepresentationMismatch,
                )
                &&& (spec_windows(query@, k as nat).len() == 0) ==> (r matches Ok(out) && out@
                    == match_results(rep, query@, strs_view(subjects@), k as nat))
                &&& (spec_windows(query@, k as nat).len() > 0 && k <= 64 && width_bits(k as nat)
                    == 16) ==> (if seq_windows_valid(query@, k as nat) && all_windows_valid(
                    strs_view(subjects@),
                    k as nat,
                ) {
                    r matches Ok(out) && out@ == match_results(
                        rep,
                        query@,
                        strs_view(subjects@),
                        k as nat,
                    )
                } else {
                    r == Result::<Vec<bool>, KmerError>::Err(KmerError::InvalidCharacter)
                })
            },
            Representation::Hashed(_) => r matches Ok(out) && out@ == match_results(
                rep,
                query@,
                strs_view(subjects@),
                k as nat,
            ),
        },
{
    let ghost sv = strs_view(subjects@);
    let qvals = match sequence_values(query, k, rep) {
        Ok(v) => v,
        Err(e) => { return Err(e) },
    };
    if qvals.len() == 0 {
        proof {
            assert(match_results(rep, query@, sv, k as nat) =~= Seq::<bool>::empty());
        }
        return Ok(Vec::new());
    }
    match rep {
        Representation::Exact => {
            let mut min: u16 = 0xffff;
            let mut max: u16 = 0;
            let mut enc: Vec<EncryptedValue> = Vec::new();
            let mut i: usize = 0;
            while i < qvals.len()
                invariant
                    i <= qvals@.len(),
                    qvals@.len() > 0,
                    qvals@ == window_vals(rep, query@, k as nat),
                    rep == Representation::Exact,
                    5 <= k <= 8,
                    k as nat <= query@.len(),
                    enc@.len() == i,
                    forall|j: int|
                        0 <= j < i ==> (#[trigger] enc@[j]).plain() == qvals@[j] && enc@[j].context()
                            == *ctx,
                    forall|j: int|
                        0 <= j < i ==> min as u64 <= #[trigger] qvals@[j] <= max as u64,
                decreases qvals@.len() - i,
            {
                let v = qvals[i];
                proof {
                    let w = spec_windows(query@, k as nat)[i as int];
                    assert(qvals@[i as int] == rep_val(rep, w));
                    assert(w.len() == k as nat);
                    crate::codec::lemma_encode_val_bound(w);
                    lemma2_to64();
                    if 2 * w.len() < 16 {
                        lemma_pow2_strictly_increases(2 * w.len(), 16);
                    }
                    assert(encode_val(w) < 0x10000);
                }
                let v16 = v as u16;
                if v16 >= max {
                    max = v16;
                }
                if v16 <= min {
                    min = v16;
                }
                enc.push(encrypt_u16(ctx, v16));
                i = i + 1;
            }
            let res = match crate::scheduler::snp_compare_parallel(
                ctx,
                &enc,
                k,
                subjects,
                ServerScheme::Exact { min, max },
            ) {
                Ok(v) => v,
                Err(e) => { return Err(e) },
            };
            let out = decrypt_results(ctx, &res);
            proof {
                assert forall|j: int| 0 <= j < out@.len() implies out@[j] == occurs_in(
                    subject_vals(rep, sv, k as nat),
                    window_vals(rep, query@, k as nat)[j],
                ) by {
                    assert(res@[j].plain() == occurs_in_range(
                        subject_vals(rep, sv, k as nat),
                        min as u64,
                        max as u64,
                        enc@[j].plain(),
                    ));
                    lemma_filter_sound(
                        subject_vals(rep, sv, k as nat),
                        min as u64,
                        max as u64,
                        qvals@[j],
                    );
                }
                assert(out@ =~= match_results(rep, query@, sv, k as nat));
            }
            Ok(out)
        },
        Representation::Hashed(seed) => {
            let mut hashes: Vec<u32> = Vec::new();
            let mut i: usize = 0;
            while i < qvals.len()
                invariant
                    i <= qvals@.len(),
                    qvals@ == window_vals(rep, query@, k as nat),
                    rep == Representation::Hashed(seed),
                    hashes@.len() == i,
                    forall|j: int| 0 <= j < i ==> (#[trigger] hashes@[j]) as u64 == qvals@[j],
                decreases qvals@.len() - i,
            {
                let v = qvals[i];
                proof {
                    let w = spec_windows(query@, k as nat)[i as int];
                    assert(qvals@[i as int] == rep_val(rep, w));
                }
                hashes.push(v as u32);
                i = i + 1;
            }
            let enc = encrypt_kmer_hashes(ctx, &hashes);
            let res = match crate::scheduler::snp_compare_parallel(
                ctx,
                &enc,
                k,
                subjects,
                ServerScheme::Hashed { seed },
            ) {
                Ok(v) => v,
                Err(e) => { return Err(e) },
            };
            let out = decrypt_results(ctx, &res);
            proof {
                assert forall|j: int| 0 <= j < out@.len() implies out@[j] == occurs_in(
                    subject_vals(rep, sv, k as nat),
                    window_vals(rep, query@, k as nat)[j],
                ) by {
                    assert(res@[j].plain() == occurs_in_range(
                        subject_vals(rep, sv, k as nat),
                        0,
                        u64::MAX,
                        enc@[j].plain(),
                    ));
                    lemma_occurs_full_range(subject_vals(rep, sv, k as nat), qvals@[j]);
                }
                assert(out@ =~= match_results(rep, query@, sv, k as nat));
            }
            Ok(out)
        },
    }
}

/// Idempotence law: the reported booleans are a function of the query, the
/// subjects, `k` and the representation alone — the key context is not
/// among the parameters — so re-running a match with identical inputs and
/// a fresh key context yields the same boolean sequence.
pub proof fn lemma_match_idempotent(
    rep: Representation,
    query: Seq<char>,
    subjects: Seq<Seq<char>>,
    k: nat,
    r1: Seq<bool>,
    r2: Seq<bool>,
)
    requires
        r1 == match_results(rep, query, subjects, k),
        r2 == match_results(rep, query, subjects, k),
    ensures
        r1 == r2,
{
}

} // verus!
