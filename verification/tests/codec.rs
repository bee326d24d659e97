use kmer_snp::codec::{binary_encode, decode_kmer, init_kmer_type, width_for, BitWidth, KmerError, KmerType, ToUInt};

#[test]
fn encode_known_values() {
    assert_eq!(binary_encode("ACGTT"), Ok(KmerType::U16(111)));
    assert_eq!(binary_encode("TAACT"), Ok(KmerType::U16(775)));
    assert_eq!(binary_encode("ACGT"), Ok(KmerType::U8(27)));
    assert_eq!(binary_encode("A"), Ok(KmerType::U8(0)));
    assert_eq!(binary_encode("T"), Ok(KmerType::U8(3)));
    assert_eq!(binary_encode("ACGTACGT"), Ok(KmerType::U16(6939)));
    assert_eq!(binary_encode(""), Ok(KmerType::U8(0)));
}

#[test]
fn encode_first_base_most_significant() {
    // "AC" is 00 01 and "CA" is 01 00: distinct packings of the same letters.
    assert_eq!(binary_encode("AC"), Ok(KmerType::U8(0b0001)));
    assert_eq!(binary_encode("CA"), Ok(KmerType::U8(0b0100)));
}

#[test]
fn encode_picks_smallest_width() {
    assert_eq!(binary_encode("ACGTA"), Ok(KmerType::U16(0b0001101100)));
    let w9 = binary_encode("ACGTACGTA").unwrap();
    assert!(matches!(w9, KmerType::U32(_)));
    let w17 = binary_encode("ACGTACGTACGTACGTA").unwrap();
    assert!(matches!(w17, KmerType::U64(_)));
    let s33: String = std::iter::repeat('A').take(33).collect();
    let w33 = binary_encode(&s33).unwrap();
    assert!(matches!(w33, KmerType::U128(_)));
}

#[test]
fn encode_rejects_invalid_character() {
    assert_eq!(binary_encode("ACGXT"), Err(KmerError::InvalidCharacter));
    assert_eq!(binary_encode("acgtt"), Err(KmerError::InvalidCharacter));
    assert_eq!(binary_encode("ACG T"), Err(KmerError::InvalidCharacter));
}

#[test]
fn encode_rejects_too_long() {
    let s65: String = std::iter::repeat('C').take(65).collect();
    assert_eq!(binary_encode(&s65), Err(KmerError::KmerTooLong));
    // Too-long wins over a bad character.
    let mut s = s65.clone();
    s.push('X');
    assert_eq!(binary_encode(&s), Err(KmerError::KmerTooLong));
}

#[test]
fn width_for_boundaries() {
    assert_eq!(width_for(0), Ok(BitWidth::B8));
    assert_eq!(width_for(4), Ok(BitWidth::B8));
    assert_eq!(width_for(5), Ok(BitWidth::B16));
    assert_eq!(width_for(8), Ok(BitWidth::B16));
    assert_eq!(width_for(9), Ok(BitWidth::B32));
    assert_eq!(width_for(16), Ok(BitWidth::B32));
    assert_eq!(width_for(17), Ok(BitWidth::B64));
    assert_eq!(width_for(32), Ok(BitWidth::B64));
    assert_eq!(width_for(33), Ok(BitWidth::B128));
    assert_eq!(width_for(64), Ok(BitWidth::B128));
    assert_eq!(width_for(65), Err(KmerError::KmerTooLong));
}

#[test]
fn init_kmer_type_widths() {
    assert_eq!(init_kmer_type(4, 0b11), Ok(KmerType::U8(3)));
    assert_eq!(init_kmer_type(5, 0b11), Ok(KmerType::U16(3)));
    assert_eq!(init_kmer_type(9, 7), Ok(KmerType::U32(7)));
    assert_eq!(init_kmer_type(17, 7), Ok(KmerType::U64(7)));
    assert_eq!(init_kmer_type(33, 7), Ok(KmerType::U128(7)));
    assert_eq!(init_kmer_type(65, 0), Err(KmerError::KmerTooLong));
}

#[test]
fn decode_inverts_encode() {
    let packed = binary_encode("ACGTT").unwrap();
    assert_eq!(decode_kmer(&packed, 5), Ok(vec!['A', 'C', 'G', 'T', 'T']));
    let packed2 = binary_encode("TTGACA").unwrap();
    assert_eq!(decode_kmer(&packed2, 6), Ok(vec!['T', 'T', 'G', 'A', 'C', 'A']));
    let packed3 = binary_encode("GATTACA").unwrap();
    assert_eq!(
        decode_kmer(&packed3, 7),
        Ok(vec!['G', 'A', 'T', 'T', 'A', 'C', 'A'])
    );
}

#[test]
fn decode_errors() {
    let packed = binary_encode("ACGTT").unwrap();
    // Width of 5 bases is 16 bits; asking for 3 bases expects 8 bits.
    assert_eq!(decode_kmer(&packed, 3), Err(KmerError::RepresentationMismatch));
    assert_eq!(decode_kmer(&packed, 65), Err(KmerError::KmerTooLong));
}

#[test]
fn encode_injective_same_length() {
    let a = binary_encode("ACGTT").unwrap();
    let b = binary_encode("ACGTA").unwrap();
    let a2 = binary_encode("ACGTT").unwrap();
    assert_ne!(a, b);
    assert_eq!(a, a2);
}

#[test]
fn shift_operations() {
    let v = KmerType::U8(0b0000_0110);
    assert_eq!(v.shl(2), KmerType::U8(0b0001_1000));
    // Bits shifted past the top of the width are lost.
    assert_eq!(KmerType::U8(0b1100_0000).shl(2), KmerType::U8(0));
    assert_eq!(KmerType::U16(0b100).shr(2), KmerType::U16(1));
    assert_eq!(KmerType::U128(1).shl(100), KmerType::U128(1u128 << 100));
}

#[test]
fn bitwise_operations_same_width() {
    assert_eq!(
        KmerType::U16(0b1010).bitor(KmerType::U16(0b0101)),
        Ok(KmerType::U16(0b1111))
    );
    assert_eq!(
        KmerType::U16(0b1100).bitand(KmerType::U16(0b1010)),
        Ok(KmerType::U16(0b1000))
    );
    let mut v = KmerType::U32(0b1100);
    assert_eq!(v.bitor_assign(KmerType::U32(0b0011)), Ok(()));
    assert_eq!(v, KmerType::U32(0b1111));
    assert_eq!(v.bitand_assign(KmerType::U32(0b0110)), Ok(()));
    assert_eq!(v, KmerType::U32(0b0110));
    assert_eq!(v.bitxor_assign(KmerType::U32(0b0101)), Ok(()));
    assert_eq!(v, KmerType::U32(0b0011));
}

#[test]
fn bitwise_operations_mismatched_width() {
    assert_eq!(
        KmerType::U8(1).bitor(KmerType::U16(1)),
        Err(KmerError::RepresentationMismatch)
    );
    assert_eq!(
        KmerType::U64(1).bitand(KmerType::U128(1)),
        Err(KmerError::RepresentationMismatch)
    );
    let mut v = KmerType::U8(0b101);
    assert_eq!(
        v.bitor_assign(KmerType::U16(1)),
        Err(KmerError::RepresentationMismatch)
    );
    // The value is untouched after a mismatch.
    assert_eq!(v, KmerType::U8(0b101));
    assert_eq!(
        v.bitxor_assign(KmerType::U32(1)),
        Err(KmerError::RepresentationMismatch)
    );
    assert_eq!(v, KmerType::U8(0b101));
}

#[test]
fn to_u16_conversion() {
    assert_eq!(KmerType::U16(111).to_u16(), Ok(111));
    assert_eq!(KmerType::U8(1).to_u16(), Err(KmerError::RepresentationMismatch));
    assert_eq!(KmerType::U32(1).to_u16(), Err(KmerError::RepresentationMismatch));
    assert_eq!(KmerType::U128(1).to_u16(), Err(KmerError::RepresentationMismatch));
}
