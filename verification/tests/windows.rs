use kmer_snp::windows::{k_mer, k_mer_lazy};

#[test]
fn window_count_and_order() {
    let seq: &str = "ACGTACGTACGT";
    let ws = k_mer(seq, 5);
    assert_eq!(ws.len(), 7);
    assert_eq!(
        ws,
        vec!["ACGTA", "CGTAC", "GTACG", "TACGT", "ACGTA", "CGTAC", "GTACG"]
    );
    for w in &ws {
        assert_eq!(w.len(), 5);
    }
}

#[test]
fn degenerate_window_sizes() {
    // k of zero and k beyond the length fall back to the whole sequence,
    // which yields no window; so does k equal to the length.
    assert_eq!(k_mer("ACGT", 0).len(), 0);
    assert_eq!(k_mer("ACGT", 5).len(), 0);
    assert_eq!(k_mer("ACGT", 4).len(), 0);
    assert_eq!(k_mer("", 0).len(), 0);
    assert_eq!(k_mer("", 3).len(), 0);
    assert_eq!(k_mer("AC", 1), vec!["A"]);
}

#[test]
fn lazy_matches_eager() {
    let seq: &str = "GATTACAGATTACA";
    let eager = k_mer(seq, 4);
    let mut it = k_mer_lazy(seq, 4);
    let mut collected: Vec<&str> = Vec::new();
    while let Some(w) = it.next() {
        collected.push(w);
    }
    assert_eq!(collected, eager);
    assert_eq!(it.count(), eager.len());
}

#[test]
fn lazy_is_restartable() {
    let seq: &str = "ACGTTAACT";
    let mut it = k_mer_lazy(seq, 5);
    let mut first_pass: Vec<&str> = Vec::new();
    while let Some(w) = it.next() {
        first_pass.push(w);
    }
    it.reset();
    let mut second_pass: Vec<&str> = Vec::new();
    while let Some(w) = it.next() {
        second_pass.push(w);
    }
    assert_eq!(first_pass, second_pass);
    assert_eq!(first_pass, vec!["ACGTT", "CGTTA", "GTTAA", "TTAAC"]);

    // A fresh producer over the same input is independent and identical.
    let mut again = k_mer_lazy(seq, 5);
    assert_eq!(again.next(), Some("ACGTT"));
}

#[test]
fn lazy_exhaustion_returns_none() {
    let mut it = k_mer_lazy("ACGT", 2);
    assert_eq!(it.count(), 2);
    assert_eq!(it.next(), Some("AC"));
    assert_eq!(it.next(), Some("CG"));
    assert_eq!(it.next(), None);
    assert_eq!(it.next(), None);
}
