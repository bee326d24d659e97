use kmer_snp::codec::KmerError;
use kmer_snp::protocol::{contains_val, match_plain, subject_values, Representation};

fn snp_subjects() -> Vec<&'static str> {
    vec![
        "ACGTTGACTA",
        "GCAATTGGAC",
        "CGGAAATTAC",
        "GAGTTAACCT",
        "GAGGATTTCT",
    ]
}

#[test]
fn end_to_end_scenario_exact() {
    // Query windows are ACGTT, CGTTA, GTTAA, TTAAC; the first occurs
    // verbatim in the first subject.
    let subjects = snp_subjects();
    let out = match_plain("ACGTTAACT", &subjects, 5, Representation::Exact).unwrap();
    assert_eq!(out, vec![true, false, true, true]);
}

#[test]
fn end_to_end_scenario_hashed() {
    let subjects = snp_subjects();
    let out = match_plain("ACGTTAACT", &subjects, 5, Representation::Hashed(123456789)).unwrap();
    assert_eq!(out, vec![true, false, true, true]);
}

#[test]
fn rerun_yields_same_results() {
    let subjects = snp_subjects();
    let first = match_plain("ACGTTAACT", &subjects, 5, Representation::Exact).unwrap();
    let second = match_plain("ACGTTAACT", &subjects, 5, Representation::Exact).unwrap();
    assert_eq!(first, second);
}

#[test]
fn no_match_anywhere() {
    let subjects: Vec<&str> = vec!["CCCCCCCC", "GGGGGGGG"];
    let out = match_plain("AAAAAAA", &subjects, 5, Representation::Exact).unwrap();
    assert_eq!(out, vec![false, false]);
}

#[test]
fn subjects_shorter_than_k_give_defined_false() {
    // No subject yields a window, so every reduction is empty and must
    // still report a defined false.
    let subjects: Vec<&str> = vec!["ACG", "T"];
    let out = match_plain("ACGTTA", &subjects, 5, Representation::Exact).unwrap();
    assert_eq!(out, vec![false]);
}

#[test]
fn degenerate_query_yields_empty() {
    let subjects = snp_subjects();
    let out = match_plain("ACGT", &subjects, 9, Representation::Exact).unwrap();
    assert_eq!(out, Vec::<bool>::new());
    let out0 = match_plain("ACGT", &subjects, 0, Representation::Exact).unwrap();
    assert_eq!(out0, Vec::<bool>::new());
    // k equal to the query length also yields no window.
    let outk = match_plain("ACGTT", &subjects, 5, Representation::Exact).unwrap();
    assert_eq!(outk, Vec::<bool>::new());
}

#[test]
fn exact_width_errors() {
    let subjects = snp_subjects();
    // k = 3 packs into 8 bits, not the 16-bit exact pipeline.
    assert_eq!(
        match_plain("ACGTTAACT", &subjects, 3, Representation::Exact),
        Err(KmerError::RepresentationMismatch)
    );
    assert_eq!(
        match_plain("ACGTTAACTA", &subjects, 9, Representation::Exact),
        Err(KmerError::RepresentationMismatch)
    );
}

#[test]
fn exact_too_long_error() {
    let long: String = std::iter::repeat('A').take(70).collect();
    let subjects: Vec<&str> = vec!["ACGT"];
    assert_eq!(
        match_plain(&long, &subjects, 65, Representation::Exact),
        Err(KmerError::KmerTooLong)
    );
}

#[test]
fn exact_invalid_character_errors() {
    let subjects = snp_subjects();
    assert_eq!(
        match_plain("ACGXTAACT", &subjects, 5, Representation::Exact),
        Err(KmerError::InvalidCharacter)
    );
    let bad_subjects: Vec<&str> = vec!["ACGTTGACTA", "GCANTTGGAC"];
    assert_eq!(
        match_plain("ACGTTAACT", &bad_subjects, 5, Representation::Exact),
        Err(KmerError::InvalidCharacter)
    );
}

#[test]
fn hashed_accepts_any_text() {
    let subjects: Vec<&str> = vec!["helloworld", "ACGTNNNACGT"];
    let out = match_plain("lloworl", &subjects, 5, Representation::Hashed(7)).unwrap();
    // "llowo" and "lowor" both occur in "helloworld".
    assert_eq!(out, vec![true, true]);
}

#[test]
fn subject_values_flatten_in_order() {
    let subjects: Vec<&str> = vec!["ACGTTG", "TTAACC"];
    // One window each: ACGTT (111) and TTAAC (961).
    let vals = subject_values(&subjects, 5, Representation::Exact).unwrap();
    assert_eq!(vals, vec![111, 961]);
    assert!(contains_val(&vals, 111));
    assert!(contains_val(&vals, 961));
    assert!(!contains_val(&vals, 775));
}
