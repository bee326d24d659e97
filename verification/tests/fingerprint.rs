use kmer_snp::fingerprint::murmur32;

#[test]
fn fixed_vectors() {
    assert_eq!(murmur32(b"", 0), 0x0000_0000);
    assert_eq!(murmur32(b"", 123456789), 0xba60_d89a);
    assert_eq!(murmur32(b"ACGT", 123456789), 0x0dc0_727c);
    assert_eq!(murmur32(b"ACGTT", 123456789), 0x99b6_b135);
    assert_eq!(murmur32(b"TAACT", 123456789), 0xd6f8_88c1);
    assert_eq!(murmur32(b"AACGTTA", 42), 0x2ad6_8d43);
    assert_eq!(murmur32(b"ACGTACGTACGT", 7), 0xd5db_52df);
}

#[test]
fn deterministic_across_calls() {
    let key: &[u8] = b"GATTACAGATTACA";
    let first: u32 = murmur32(key, 0xdead_beef);
    let second: u32 = murmur32(key, 0xdead_beef);
    assert_eq!(first, second);
    let third: u32 = murmur32(&key.to_vec(), 0xdead_beef);
    assert_eq!(first, third);
}

#[test]
fn seed_and_bytes_both_matter() {
    assert_ne!(murmur32(b"ACGTT", 1), murmur32(b"ACGTT", 2));
    assert_ne!(murmur32(b"ACGTT", 1), murmur32(b"ACGTA", 1));
}

#[test]
fn tail_lengths() {
    // Lengths 4..=8 cover every tail size (0 to 3 remaining bytes).
    let base: &[u8] = b"ACGTACGT";
    let mut hashes: Vec<u32> = Vec::new();
    for n in 4..=8 {
        hashes.push(murmur32(&base[..n], 99));
    }
    for i in 0..hashes.len() {
        for j in 0..i {
            assert_ne!(hashes[i], hashes[j]);
        }
    }
}
