//! Nucleotide codec: packs a k-mer over the alphabet {A, C, G, T} into the
//! smallest unsigned-integer width that holds `2 * k` bits, two bits per base,
//! with the first base of the string in the most significant 2-bit field.
use vstd::prelude::*;

verus! {

use vstd::arithmetic::power2::{pow2, lemma_pow2_adds, lemma_pow2_strictly_increases, lemma2_to64};

/// Errors of the codec and of the matching protocol. Capability misuse and
/// empty reductions have no variant here: capabilities are passed
/// explicitly so an operation can never run without one, and a reduction
/// without an operand yields a defined encrypted false instead of failing.
#[derive(Clone, Copy, PartialEq, Eq, Structural, Debug)]
pub enum KmerError {
    /// A byte outside {A, C, G, T} was found in a sequence being encoded.
    InvalidCharacter,
    /// The requested k-mer length exceeds the largest exact-packing width (64 bases).
    KmerTooLong,
    /// Two packed values of different widths were combined or compared.
    RepresentationMismatch,
}

/// The letters the codec accepts.
pub open spec fn is_nucleotide(c: char) -> bool {
    c == 'A' || c == 'C' || c == 'G' || c == 'T'
}

/// The fixed bijection from letters to 2-bit codes.
pub open spec fn nuc_code(c: char) -> nat {
    if c == 'A' {
        0
    } else if c == 'C' {
        1
    } else if c == 'G' {
        2
    } else {
        3
    }
}

/// The letter of a 2-bit code; inverse of `nuc_code` on {A, C, G, T}.
pub open spec fn code_char(d: nat) -> char {
    if d == 0 {
        'A'
    } else if d == 1 {
        'C'
    } else if d == 2 {
        'G'
    } else {
        'T'
    }
}

/// Every character of the sequence is a nucleotide letter.
pub open spec fn valid_kmer(s: Seq<char>) -> bool {
    forall|i: int| 0 <= i < s.len() ==> is_nucleotide(#[trigger] s[i])
}

/// The packed integer value of a k-mer: base at string position `i`
/// occupies bit positions `2*(k-1-i)` and `2*(k-1-i)+1`, so the first
/// base is the most significant 2-bit field.
pub open spec fn encode_val(s: Seq<char>) -> nat
    decreases s.len(),
{
    if s.len() == 0 {
        0
    } else {
        encode_val(s.drop_last()) * 4 + nuc_code(s.last())
    }
}

/// The inverse unpacking of `encode_val`: reads `k` 2-bit fields of `v`,
/// most significant field first.
pub open spec fn decode_val(v: nat, k: nat) -> Seq<char>
    decreases k,
{
    if k == 0 {
        Seq::empty()
    } else {
        decode_val(v / 4, (k - 1) as nat).push(code_char(v % 4))
    }
}

/// The smallest width of {8, 16, 32, 64, 128} with capacity for `2 * k` bits.
pub open spec fn width_bits(k: nat) -> nat {
    if k <= 4 {
        8
    } else if k <= 8 {
        16
    } else if k <= 16 {
        32
    } else if k <= 32 {
        64
    } else {
        128
    }
}

/// All-ones mask of a width of {8, 16, 32, 64, 128}.
pub open spec fn width_mask(w: nat) -> u128 {
    if w == 8 {
        0xff
    } else if w == 16 {
        0xffff
    } else if w == 32 {
        0xffff_ffff
    } else if w == 64 {
        0xffff_ffff_ffff_ffff
    } else {
        0xffff_ffff_ffff_ffff_ffff_ffff_ffff_ffff
    }
}

/// One of the unsigned-integer widths a k-mer can be packed into.
#[derive(Clone, Copy, PartialEq, Eq, Structural, Debug)]
pub enum BitWidth {
    B8,
    B16,
    B32,
    B64,
    B128,
}

impl BitWidth {
    /// Number of bits of this width.
    pub open spec fn bits(self) -> nat {
        match self {
            BitWidth::B8 => 8,
            BitWidth::B16 => 16,
            BitWidth::B32 => 32,
            BitWidth::B64 => 64,
            BitWidth::B128 => 128,
        }
    }
}

/// Smallest width with capacity for `2 * k` bits; `KmerTooLong` past 64 bases.
pub fn width_for(k: usize) -> (r: Result<BitWidth, KmerError>)
    ensures
        k <= 64 ==> (r matches Ok(w) && w.bits() == width_bits(k as nat)),
        k > 64 ==> r == Result::<BitWidth, KmerError>::Err(KmerError::KmerTooLong),
{
    if k <= 4 {
        Ok(BitWidth::B8)
    } else if k <= 8 {
        Ok(BitWidth::B16)
    } else if k <= 16 {
        Ok(BitWidth::B32)
    } else if k <= 32 {
        Ok(BitWidth::B64)
    } else if k <= 64 {
        Ok(BitWidth::B128)
    } else {
        Err(KmerError::KmerTooLong)
    }
}

/// A k-mer packed into one of the widths of `BitWidth`. The active variant
/// is fixed at construction from `k`; operations between two values of
/// different widths fail with `RepresentationMismatch`.
#[derive(Clone, Copy, PartialEq, Eq, Structural, Debug)]
pub enum KmerType {
    U8(u8),
    U16(u16),
    U32(u32),
    U64(u64),
    U128(u128),
}

impl KmerType {
    /// Bit width of the active variant.
    pub open spec fn width(self) -> nat {
        match self {
            KmerType::U8(_) => 8,
            KmerType::U16(_) => 16,
            KmerType::U32(_) => 32,
            KmerType::U64(_) => 64,
            KmerType::U128(_) => 128,
        }
    }

    /// The packed integer value, widened to 128 bits.
    pub open spec fn value(self) -> u128 {
        match self {
            KmerType::U8(v) => v as u128,
            KmerType::U16(v) => v as u128,
            KmerType::U32(v) => v as u128,
            KmerType::U64(v) => v as u128,
            KmerType::U128(v) => v,
        }
    }

    /// The value always fits the active width.
    pub proof fn lemma_value_in_width(self)
        ensures
            self.value() <= width_mask(self.width()),
    {
    }

    /// Pack a 128-bit value into the given width.
    pub fn of_width(w: BitWidth, x: u128) -> (r: KmerType)
        requires
            x <= width_mask(w.bits()),
        ensures
            r.width() == w.bits(),
            r.value() == x,
    {
        match w {
            BitWidth::B8 => KmerType::U8(x as u8),
            BitWidth::B16 => KmerType::U16(x as u16),
            BitWidth::B32 => KmerType::U32(x as u32),
            BitWidth::B64 => KmerType::U64(x as u64),
            BitWidth::B128 => KmerType::U128(x),
        }
    }

    /// The packed value, widened to 128 bits.
    pub fn value_u128(&self) -> (x: u128)
        ensures
            x == self.value(),
    {
        match self {
            KmerType::U8(v) => *v as u128,
            KmerType::U16(v) => *v as u128,
            KmerType::U32(v) => *v as u128,
            KmerType::U64(v) => *v as u128,
            KmerType::U128(v) => *v,
        }
    }

    /// The active width.
    pub fn width_of(&self) -> (w: BitWidth)
        ensures
            w.bits() == self.width(),
    {
        match self {
            KmerType::U8(_) => BitWidth::B8,
            KmerType::U16(_) => BitWidth::B16,
            KmerType::U32(_) => BitWidth::B32,
            KmerType::U64(_) => BitWidth::B64,
            KmerType::U128(_) => BitWidth::B128,
        }
    }

    /// Left shift within the active width; bits shifted past the top are lost.
    pub fn shl(self, rhs: usize) -> (r: KmerType)
        requires
            rhs < self.width(),
        ensures
            r.width() == self.width(),
            r.value() == (self.value() << (rhs as u128)) & width_mask(self.width()),
    {
        let w = self.width_of();
        let x = self.value_u128();
        let wide: u128 = x << rhs;
        let m = mask_of(w);
        let y = wide & m;
        proof {
            lemma_and_le(wide, m);
        }
        KmerType::of_width(w, y)
    }

    /// Right shift within the active width.
    pub fn shr(self, rhs: usize) -> (r: KmerType)
        requires
            rhs < self.width(),
        ensures
            r.width() == self.width(),
            r.value() == self.value() >> (rhs as u128),
    {
        let w = self.width_of();
        let x = self.value_u128();
        let y: u128 = x >> rhs;
        proof {
            lemma_shr_le(x, rhs as u128);
            self.lemma_value_in_width();
        }
        KmerType::of_width(w, y)
    }

    /// Bitwise OR of two packed values of the same width;
    /// `RepresentationMismatch` when the widths differ.
    pub fn bitor(self, rhs: KmerType) -> (r: Result<KmerType, KmerError>)
        ensures
            self.width() == rhs.width() ==> (r matches Ok(v) && v.width() == self.width()
                && v.value() == (self.value() | rhs.value())),
            self.width() != rhs.width() ==> r == Result::<KmerType, KmerError>::Err(
                KmerError::RepresentationMismatch,
            ),
    {
        let w = self.width_of();
        let wr = rhs.width_of();
        if !same_bit_width(w, wr) {
            return Err(KmerError::RepresentationMismatch);
        }
        let a = self.value_u128();
        let b = rhs.value_u128();
        let y = a | b;
        proof {
            self.lemma_value_in_width();
            rhs.lemma_value_in_width();
            lemma_or_xor_mask(a, b, w.bits());
        }
        Ok(KmerType::of_width(w, y))
    }

    /// Bitwise AND of two packed values of the same width;
    /// `RepresentationMismatch` when the widths differ.
    pub fn bitand(self, rhs: KmerType) -> (r: Result<KmerType, KmerError>)
        ensures
            self.width() == rhs.width() ==> (r matches Ok(v) && v.width() == self.width()
                && v.value() == (self.value() & rhs.value())),
            self.width() != rhs.width() ==> r == Result::<KmerType, KmerError>::Err(
                KmerError::RepresentationMismatch,
            ),
    {
        let w = self.width_of();
        let wr = rhs.width_of();
        if !same_bit_width(w, wr) {
            return Err(KmerError::RepresentationMismatch);
        }
        let a = self.value_u128();
        let b = rhs.value_u128();
        let y = a & b;
        proof {
            rhs.lemma_value_in_width();
            lemma_and_le(a, b);
        }
        Ok(KmerType::of_width(w, y))
    }

    /// In-place bitwise OR; on a width mismatch the value is left unchanged.
    pub fn bitor_assign(&mut self, rhs: KmerType) -> (r: Result<(), KmerError>)
        ensures
            old(self).width() == rhs.width() ==> (r is Ok && final(self).width() == old(
                self,
            ).width() && final(self).value() == (old(self).value() | rhs.value())),
            old(self).width() != rhs.width() ==> (r == Result::<(), KmerError>::Err(
                KmerError::RepresentationMismatch,
            ) && *final(self) == *old(self)),
    {
        match (*self).bitor(rhs) {
            Ok(v) => {
                *self = v;
                Ok(())
            },
            Err(e) => Err(e),
        }
    }

    /// In-place bitwise AND; on a width mismatch the value is left unchanged.
    pub fn bitand_assign(&mut self, rhs: KmerType) -> (r: Result<(), KmerError>)
        ensures
            old(self).width() == rhs.width() ==> (r is Ok && final(self).width() == old(
                self,
            ).width() && final(self).value() == (old(self).value() & rhs.value())),
            old(self).width() != rhs.width() ==> (r == Result::<(), KmerError>::Err(
                KmerError::RepresentationMismatch,
            ) && *final(self) == *old(self)),
    {
        match (*self).bitand(rhs) {
            Ok(v) => {
                *self = v;
                Ok(())
            },
            Err(e) => Err(e),
        }
    }

    /// In-place bitwise XOR; on a width mismatch the value is left unchanged.
    pub fn bitxor_assign(&mut self, rhs: KmerType) -> (r: Result<(), KmerError>)
        ensures
            old(self).width() == rhs.width() ==> (r is Ok && final(self).width() == old(
                self,
            ).width() && final(self).value() == (old(self).value() ^ rhs.value())),
            old(self).width() != rhs.width() ==> (r == Result::<(), KmerError>::Err(
                KmerError::RepresentationMismatch,
            ) && *final(self) == *old(self)),
    {
        let w = self.width_of();
        let wr = rhs.width_of();
        if !same_bit_width(w, wr) {
            return Err(KmerError::RepresentationMismatch);
        }
        let a = self.value_u128();
        let b = rhs.value_u128();
        let y = a ^ b;
        proof {
            self.lemma_value_in_width();
            rhs.lemma_value_in_width();
            lemma_or_xor_mask(a, b, w.bits());
        }
        *self = KmerType::of_width(w, y);
        Ok(())
    }
}

/// Conversion of a packed k-mer to a bare unsigned integer of a fixed width.
pub trait ToUInt {
    /// The packed integer value, widened to 128 bits.
    spec fn uint_value(&self) -> u128;

    /// The bit width of the representation.
    spec fn uint_width(&self) -> nat;

    /// The packed value as a `u16`; `RepresentationMismatch` unless the
    /// active width is exactly 16 bits.
    fn to_u16(&self) -> (r: Result<u16, KmerError>)
        ensures
            self.uint_width() == 16 ==> (r matches Ok(v) && v as u128 == self.uint_value()),
            self.uint_width() != 16 ==> r == Result::<u16, KmerError>::Err(
                KmerError::RepresentationMismatch,
            ),
    ;
}

impl ToUInt for KmerType {
    open spec fn uint_value(&self) -> u128 {
        self.value()
    }

    open spec fn uint_width(&self) -> nat {
        self.width()
    }

    fn to_u16(&self) -> (r: Result<u16, KmerError>) {
        match self {
            KmerType::U16(v) => Ok(*v),
            _ => Err(KmerError::RepresentationMismatch),
        }
    }
}

/// Exact equality of bit widths.
fn same_bit_width(a: BitWidth, b: BitWidth) -> (r: bool)
    ensures
        r == (a.bits() == b.bits()),
{
    match (a, b) {
        (BitWidth::B8, BitWidth::B8) => true,
        (BitWidth::B16, BitWidth::B16) => true,
        (BitWidth::B32, BitWidth::B32) => true,
        (BitWidth::B64, BitWidth::B64) => true,
        (BitWidth::B128, BitWidth::B128) => true,
        _ => false,
    }
}

/// All-ones mask of a width, as an executable value.
fn mask_of(w: BitWidth) -> (m: u128)
    ensures
        m == width_mask(w.bits()),
{
    match w {
        BitWidth::B8 => 0xff,
        BitWidth::B16 => 0xffff,
        BitWidth::B32 => 0xffff_ffff,
        BitWidth::B64 => 0xffff_ffff_ffff_ffff,
        BitWidth::B128 => 0xffff_ffff_ffff_ffff_ffff_ffff_ffff_ffff,
    }
}

proof fn lemma_and_le(a: u128, b: u128)
    ensures
        (a & b) <= b,
{
    assert((a & b) <= b) by (bit_vector);
}

proof fn lemma_shr_le(a: u128, s: u128)
    requires
        s < 128,
    ensures
        (a >> s) <= a,
{
    assert(s < 128 ==> (a >> s) <= a) by (bit_vector);
}

/// Concrete powers of two at the width boundaries.
proof fn lemma_pow2_concrete()
    ensures
        pow2(2) == 4,
        pow2(8) == 0x100,
        pow2(16) == 0x10000,
        pow2(32) == 0x1_0000_0000,
        pow2(64) == 0x1_0000_0000_0000_0000,
        pow2(128) == 0x1_0000_0000_0000_0000_0000_0000_0000_0000,
{
    lemma2_to64();
    lemma_pow2_adds(64, 64);
}

proof fn lemma_pow2_le(a: nat, b: nat)
    requires
        a <= b,
    ensures
        pow2(a) <= pow2(b),
{
    if a < b {
        lemma_pow2_strictly_increases(a, b);
    }
}

/// Builds a `KmerType` of the width that fits `len` bases, holding `val`;
/// `KmerTooLong` past 64 bases.
pub fn init_kmer_type(len: usize, val: u8) -> (r: Result<KmerType, KmerError>)
    ensures
        len <= 64 ==> (r matches Ok(p) && p.width() == width_bits(len as nat) && p.value() == val
            as u128),
        len > 64 ==> r == Result::<KmerType, KmerError>::Err(KmerError::KmerTooLong),
{
    let w = match width_for(len) {
        Ok(w) => w,
        Err(e) => { return Err(e) },
    };
    Ok(KmerType::of_width(w, val as u128))
}

/// Packs a k-mer string into the smallest fitting width, two bits per base,
/// first base most significant. `KmerTooLong` past 64 bases; otherwise
/// `InvalidCharacter` if any character is outside {A, C, G, T}.
pub fn binary_encode(kmer: &str) -> (r: Result<KmerType, KmerError>)
    ensures
        kmer@.len() > 64 ==> r == Result::<KmerType, KmerError>::Err(KmerError::KmerTooLong),
        kmer@.len() <= 64 && !valid_kmer(kmer@) ==> r == Result::<KmerType, KmerError>::Err(
            KmerError::InvalidCharacter,
        ),
        kmer@.len() <= 64 && valid_kmer(kmer@) ==> (r matches Ok(p) && p.width() == width_bits(
            kmer@.len(),
        ) && p.value() as nat == encode_val(kmer@)),
{
    let l = kmer.unicode_len();
    if l > 64 {
        return Err(KmerError::KmerTooLong);
    }
    let mut acc: u128 = 0;
    let mut i: usize = 0;
    proof {
        lemma2_to64();
    }
    while i < l
        invariant
            i <= l,
            l as nat == kmer@.len(),
            l <= 64,
            forall|j: int| 0 <= j < i ==> is_nucleotide(#[trigger] kmer@[j]),
            acc as nat == encode_val(kmer@.take(i as int)),
            (acc as nat) < pow2(2 * i as nat),
        decreases l - i,
    {
        let c = kmer.get_char(i);
        let code: u128 = match c {
            'A' => 0,
            'C' => 1,
            'G' => 2,
            'T' => 3,
            _ => { return Err(KmerError::InvalidCharacter) },
        };
        proof {
            let pre = kmer@.take(i as int);
            let ext = kmer@.take(i + 1);
            assert(ext.drop_last() =~= pre);
            assert(ext.last() == kmer@[i as int]);
            assert(encode_val(ext) == encode_val(pre) * 4 + nuc_code(kmer@[i as int]));
            lemma_pow2_adds(2 * i as nat, 2);
            lemma_pow2_concrete();
            lemma_pow2_le(2 * i as nat + 2, 128);
        }
        acc = acc * 4 + code;
        i += 1;
    }
    proof {
        assert(kmer@.take(l as int) =~= kmer@);
        lemma_pow2_concrete();
        lemma_pow2_le(2 * l as nat, width_bits(l as nat));
    }
    let w = match width_for(l) {
        Ok(w) => w,
        Err(e) => { return Err(e) },
    };
    Ok(KmerType::of_width(w, acc))
}

/// Unpacks `k` bases from a packed k-mer, inverse of `binary_encode`.
/// `KmerTooLong` past 64 bases; `RepresentationMismatch` unless the packed
/// width is the one `k` selects.
pub fn decode_kmer(packed: &KmerType, k: usize) -> (r: Result<Vec<char>, KmerError>)
    ensures
        k > 64 ==> r == Result::<Vec<char>, KmerError>::Err(KmerError::KmerTooLong),
        k <= 64 && packed.width() != width_bits(k as nat) ==> r == Result::<
            Vec<char>,
            KmerError,
        >::Err(KmerError::RepresentationMismatch),
        k <= 64 && packed.width() == width_bits(k as nat) ==> (r matches Ok(v) && v@ == decode_val(
            packed.value() as nat,
            k as nat,
        )),
{
    let w = match width_for(k) {
        Ok(w) => w,
        Err(e) => { return Err(e) },
    };
    let pw = packed.width_of();
    if !same_bit_width(w, pw) {
        return Err(KmerError::RepresentationMismatch);
    }
    let mut cur: u128 = packed.value_u128();
    let mut out: Vec<char> = Vec::new();
    let mut j: usize = k;
    while j > 0
        invariant
            j <= k,
            out@.len() == k - j,
            decode_val(packed.value() as nat, k as nat) == decode_val(cur as nat, j as nat) + out@,
        decreases j,
    {
        let ghost prev = out@;
        let ghost prev_cur = cur as nat;
        let d: u128 = cur % 4;
        let ch: char = if d == 0 {
            'A'
        } else if d == 1 {
            'C'
        } else if d == 2 {
            'G'
        } else {
            'T'
        };
        out.insert(0, ch);
        cur = cur / 4;
        j -= 1;
        proof {
            assert(ch == code_char(prev_cur % 4));
            assert(cur as nat == prev_cur / 4);
            assert(decode_val(prev_cur, (j + 1) as nat) == decode_val(prev_cur / 4, j as nat).push(
                code_char(prev_cur % 4),
            ));
            assert(out@ =~= seq![ch] + prev);
            assert(decode_val(prev_cur / 4, j as nat).push(ch) + prev =~= decode_val(
                prev_cur / 4,
                j as nat,
            ) + out@);
        }
    }
    proof {
        assert(decode_val(cur as nat, 0) + out@ =~= out@);
    }
    Ok(out)
}

/// The packed value of a k-mer fits in `2 * k` bits.
pub proof fn lemma_encode_val_bound(s: Seq<char>)
    ensures
        encode_val(s) < pow2(2 * s.len()),
    decreases s.len(),
{
    lemma2_to64();
    if s.len() > 0 {
        lemma_encode_val_bound(s.drop_last());
        lemma_pow2_adds(2 * (s.len() - 1) as nat, 2);
    }
}

/// Round-trip law: unpacking a packed valid k-mer gives the k-mer back.
pub proof fn lemma_decode_encode(s: Seq<char>)
    requires
        valid_kmer(s),
    ensures
        decode_val(encode_val(s), s.len()) == s,
    decreases s.len(),
{
    if s.len() == 0 {
        assert(decode_val(encode_val(s), s.len()) =~= s);
    } else {
        let sp = s.drop_last();
        let c = s.last();
        assert(valid_kmer(sp)) by {
            assert(forall|i: int| 0 <= i < sp.len() ==> sp[i] == s[i]);
        }
        let ep = encode_val(sp);
        let cc = nuc_code(c);
        let e = encode_val(s);
        assert(e == ep * 4 + cc);
        assert(cc < 4);
        assert(e / 4 == ep && e % 4 == cc) by (nonlinear_arith)
            requires
                e == ep * 4 + cc,
                cc < 4,
        ;
        lemma_decode_encode(sp);
        assert(code_char(nuc_code(c)) == c);
        assert(decode_val(e, s.len()) == decode_val(ep, sp.len()).push(c));
        assert(sp.push(c) =~= s);
    }
}

/// Injectivity law: packing two valid k-mers of one length gives equal
/// values exactly when the k-mers are equal.
pub proof fn lemma_encode_injective(s1: Seq<char>, s2: Seq<char>)
    requires
        valid_kmer(s1),
        valid_kmer(s2),
        s1.len() == s2.len(),
    ensures
        encode_val(s1) == encode_val(s2) <==> s1 == s2,
{
    if encode_val(s1) == encode_val(s2) {
        lemma_decode_encode(s1);
        lemma_decode_encode(s2);
    }
}

proof fn lemma_or_xor_mask(a: u128, b: u128, w: nat)
    requires
        a <= width_mask(w),
        b <= width_mask(w),
        w == 8 || w == 16 || w == 32 || w == 64 || w == 128,
    ensures
        (a | b) <= width_mask(w),
        (a ^ b) <= width_mask(w),
{
    if w == 8 {
        assert(a <= 0xffu128 && b <= 0xffu128 ==> ((a | b) <= 0xffu128 && (a ^ b) <= 0xffu128))
            by (bit_vector);
    } else if w == 16 {
        assert(a <= 0xffffu128 && b <= 0xffffu128 ==> ((a | b) <= 0xffffu128 && (a ^ b)
            <= 0xffffu128)) by (bit_vector);
    } else if w == 32 {
        assert(a <= 0xffff_ffffu128 && b <= 0xffff_ffffu128 ==> ((a | b) <= 0xffff_ffffu128 && (a
            ^ b) <= 0xffff_ffffu128)) by (bit_vector);
    } else if w == 64 {
        assert(a <= 0xffff_ffff_ffff_ffffu128 && b <= 0xffff_ffff_ffff_ffffu128 ==> ((a | b)
            <= 0xffff_ffff_ffff_ffffu128 && (a ^ b) <= 0xffff_ffff_ffff_ffffu128)) by (bit_vector);
    }
}

} // verus!
