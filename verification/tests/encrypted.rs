use kmer_snp::capability::KeyContext;
use kmer_snp::codec::binary_encode;
use kmer_snp::protocol::{
    decrypt_results, encrypt_kmers, match_query, snp_compare, snp_compare_single, Representation,
    ServerScheme,
};
use kmer_snp::scheduler::snp_compare_parallel;

#[test]
fn encrypted_empty_reduction_is_false() {
    // One query window, no subject window: the server must still return a
    // defined encrypted false, which decrypts to false.
    let ctx = KeyContext::generate();
    let subjects: Vec<&str> = vec!["ACG"];
    let out = match_query("ACGTTA", &subjects, 5, Representation::Exact, &ctx).unwrap();
    assert_eq!(out, vec![false]);
}

#[test]
fn encrypted_empty_reduction_hashed() {
    // Same shape under the fingerprint representation: the query k-mer is
    // hashed and encrypted, and with no subject window the defined false
    // comes back.
    let ctx = KeyContext::generate();
    let subjects: Vec<&str> = vec!["ACG"];
    let out = match_query("ACGTTA", &subjects, 5, Representation::Hashed(123456789), &ctx).unwrap();
    assert_eq!(out, vec![false]);
}

#[test]
fn encrypted_server_phase_without_eligible_subjects() {
    // Both server phases over an encrypted query set whose subjects yield
    // no window: every reduction is the defined false, sequentially and in
    // parallel alike, and the accumulating form leaves its vector untouched.
    let ctx = KeyContext::generate();
    let packed = vec![
        binary_encode("ACGTT").unwrap(),
        binary_encode("TAACT").unwrap(),
    ];
    let enc = encrypt_kmers(&ctx, &packed).unwrap();
    let subjects: Vec<&str> = vec!["ACG", "T"];
    let scheme = ServerScheme::Exact { min: 0, max: u16::MAX };

    let single = snp_compare_single(&ctx, &enc, 5, &subjects, scheme).unwrap();
    assert_eq!(decrypt_results(&ctx, &single), vec![false, false]);

    let parallel = snp_compare_parallel(&ctx, &enc, 5, &subjects, scheme).unwrap();
    assert_eq!(decrypt_results(&ctx, &parallel), vec![false, false]);

    let mut acc = Vec::new();
    snp_compare(&ctx, &enc, 5, "ACG", scheme, &mut acc).unwrap();
    assert!(acc.is_empty());
}
